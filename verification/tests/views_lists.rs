use eso_addons::service::{AddonDepOption, AddonShowDetails, MissingDepView};
use eso_addons::views::{
    header_clicked, is_popular, row_buttons, sort_addons, truncate_len, AddonResponse,
    AddonResponseType, AddonTable, Installed, MissingDeps, Sort,
};

fn addon(id: i32, name: &str, author: &str, date: &str, downloads: Option<&str>, installed: Option<&str>, version: &str) -> AddonShowDetails {
    AddonShowDetails {
        id,
        name: name.to_string(),
        author_name: author.to_string(),
        category: "Cat".to_string(),
        version: version.to_string(),
        date: date.to_string(),
        installed: installed.is_some(),
        installed_version: installed.map(|s| s.to_string()),
        download_total: downloads.map(|s| s.to_string()),
        download_monthly: None,
        favorite_total: None,
        file_info_url: String::new(),
        download: None,
        file_name: None,
        md5: None,
        description: None,
        change_log: None,
        game_compat_version: None,
        game_compat_name: None,
        category_icon: None,
    }
}

fn ids(v: &[AddonShowDetails]) -> Vec<i32> {
    v.iter().map(|a| a.id).collect()
}

#[test]
fn default_directions() {
    assert!(Sort::Name.default_ascending());
    assert!(Sort::Author.default_ascending());
    assert!(Sort::Id.default_ascending());
    assert!(!Sort::Updated.default_ascending());
    assert!(!Sort::TotalDownloads.default_ascending());
    assert!(!Sort::MonthlyDownloads.default_ascending());
    assert!(!Sort::Favorites.default_ascending());
}

#[test]
fn sort_by_name_ignores_case_and_pins_upgradable() {
    let mut v = vec![
        addon(1, "beta", "x", "2020", None, None, "1"),
        addon(2, "Alpha", "x", "2021", None, None, "1"),
        addon(3, "zeta", "x", "2022", None, Some("0.9"), "1"),
        addon(4, "gamma", "x", "2023", None, Some("1"), "1"),
    ];
    sort_addons(&mut v, Sort::Name, true);
    assert_eq!(ids(&v), vec![3, 2, 1, 4]);
    sort_addons(&mut v, Sort::Name, false);
    assert_eq!(ids(&v), vec![3, 4, 1, 2]);
}

#[test]
fn sort_by_counts_treats_unparsable_as_zero() {
    let mut v = vec![
        addon(1, "a", "x", "d", Some("10"), None, "1"),
        addon(2, "b", "x", "d", Some("n/a"), None, "1"),
        addon(3, "c", "x", "d", Some("300"), None, "1"),
        addon(4, "d", "x", "d", None, None, "1"),
    ];
    sort_addons(&mut v, Sort::TotalDownloads, false);
    assert_eq!(ids(&v), vec![3, 1, 4, 2]);
    sort_addons(&mut v, Sort::TotalDownloads, true);
    assert_eq!(ids(&v), vec![4, 2, 1, 3]);
}

#[test]
fn sort_by_id_and_date() {
    let mut v = vec![
        addon(30, "a", "x", "2021-01-01", None, None, "1"),
        addon(10, "b", "x", "2023-01-01", None, None, "1"),
        addon(20, "c", "x", "2022-01-01", None, None, "1"),
    ];
    sort_addons(&mut v, Sort::Id, true);
    assert_eq!(ids(&v), vec![10, 20, 30]);
    sort_addons(&mut v, Sort::Updated, false);
    assert_eq!(ids(&v), vec![10, 20, 30]);
    sort_addons(&mut v, Sort::Updated, true);
    assert_eq!(ids(&v), vec![30, 20, 10]);
}

#[test]
fn truncate_long_text() {
    assert_eq!(truncate_len(&"abcdefghijklmnopqrstuvwxyz".to_string(), 15), "abcdefghijklmno ...");
    assert_eq!(truncate_len(&"short".to_string(), 15), "short");
    assert_eq!(truncate_len(&"abcdefghijklmnopqrs".to_string(), 15), "abcdefghijklmnopqrs");
    assert_eq!(truncate_len(&"abcdefghijklmnopqrst".to_string(), 15), "abcdefghijklmno ...");
}

#[test]
fn installed_view_sorts_and_counts_updates() {
    let list = vec![
        addon(1, "b", "x", "d", None, Some("1"), "2"),
        addon(2, "a", "x", "d", None, Some("1"), "1"),
        addon(3, "c", "x", "d", None, Some("0"), "1"),
    ];
    let mut view = Installed::new().displayed_addons(list);
    let r = view.update_addons();
    assert!(r.response_type == AddonResponseType::UpdateMultiple);
    assert_eq!(r.addon_ids, vec![1, 3]);
}

#[test]
fn missing_deps_collects_options_per_dir() {
    let mut m = MissingDeps::new();
    assert!(!m.has_missing());
    m.set_deps(vec![
        AddonDepOption { missing_dir: "LibA".into(), required_by: "X".into(), option_id: Some(7), option_name: Some("Lib A".into()) },
        AddonDepOption { missing_dir: "LibA".into(), required_by: "Y".into(), option_id: Some(8), option_name: Some("Lib A2".into()) },
        AddonDepOption { missing_dir: "LibB".into(), required_by: "Y".into(), option_id: None, option_name: None },
    ]);
    assert!(m.has_missing());
    assert!(!m.install_missing_ready());
    let r = m.install_new();
    assert!(r.response_type == AddonResponseType::InstallMissingDeps);
    assert_eq!(r.missing_deps.len(), 2);
    let a = r.missing_deps.iter().find(|d| d.missing_dir == "LibA").unwrap();
    assert_eq!(a.required_by, "X");
    assert_eq!(a.options.len(), 2);
    let b = r.missing_deps.iter().find(|d| d.missing_dir == "LibB").unwrap();
    assert!(b.options.is_empty());
}

#[test]
fn missing_deps_rows_take_choices() {
    let mut m = MissingDeps::new();
    m.set_deps(vec![
        AddonDepOption { missing_dir: "LibA".into(), required_by: "X".into(), option_id: Some(7), option_name: Some("Lib A".into()) },
        AddonDepOption { missing_dir: "LibB".into(), required_by: "Y".into(), option_id: None, option_name: None },
    ]);
    assert_eq!(m.required_by_line(0), "Required By: X");
    assert_eq!(m.suggestion_text(0), "");
    m.choose_provider(0, 7);
    assert_eq!(m.suggestion_text(0), "Lib A");
    assert!(!m.install_missing_ready());
    m.set_ignore(1, true);
    assert!(m.install_missing_ready());
    m.set_ignore(1, false);
    assert!(!m.install_missing_ready());
    m.choose_provider(1, 99);
    assert!(m.install_missing_ready());
    assert_eq!(m.suggestion_text(1), "");
}

#[test]
fn new_missing_dep_view_is_empty() {
    let v = MissingDepView::new("Owner".to_string());
    assert_eq!(v.required_by, "Owner");
    assert!(v.missing_dir.is_empty() && v.options.is_empty() && !v.ignore && v.satisfied_by.is_none());
}

#[test]
fn table_and_response_defaults() {
    let a = addon(1, "a", "x", "d", None, None, "1");
    let rows = vec![&a];
    let _t = AddonTable::new(&rows).installable(true);
    let r = AddonResponse::default();
    assert!(r.response_type == AddonResponseType::NoAction);
    assert_eq!(r.addon_id, 0);
    assert!(r.addon_ids.is_empty() && r.author_name.is_empty() && r.missing_deps.is_empty());
}

#[test]
fn upgradable_rules() {
    assert!(addon(1, "a", "x", "d", None, Some("1"), "2").is_upgradable());
    assert!(!addon(1, "a", "x", "d", None, Some("2"), "2").is_upgradable());
    assert!(!addon(1, "a", "x", "d", None, None, "2").is_upgradable());
}

#[test]
fn sort_titles() {
    assert_eq!(Sort::Updated.to_string(), "Date");
    assert_eq!(Sort::Favorites.to_string(), "Likes");
    assert_eq!(Sort::TotalDownloads.to_string(), "Total Downloads");
    assert_eq!(Sort::default(), Sort::Id);
}

#[test]
fn addon_labels() {
    assert_eq!(eso_addons::service::addon_label(Some("NinjaWicca UI"), 4551), "NinjaWicca UI (#4551)");
    assert_eq!(eso_addons::service::addon_label(None, 7), "addon 7");
}

fn in_category(mut a: AddonShowDetails, cat: &str) -> AddonShowDetails {
    a.category = cat.to_string();
    a
}

#[test]
fn installed_tables_split_libraries_without_filter() {
    let list = vec![
        in_category(addon(1, "LibStub", "x", "d", None, None, "1"), "Libraries"),
        addon(2, "Foo", "x", "d", None, None, "1"),
        in_category(addon(3, "Bar", "x", "d", None, None, "1"), "Libraries"),
        addon(4, "Quest Map", "x", "d", None, None, "1"),
    ];
    let view = Installed::new().displayed_addons(list);
    // shown by name: Bar, Foo, LibStub, Quest Map
    let t = view.tables();
    assert_eq!(t.libraries, vec![0, 2]);
    assert_eq!(t.addons, vec![1, 3]);
}

#[test]
fn installed_tables_single_list_while_filtering() {
    let list = vec![
        in_category(addon(1, "LibStub", "x", "d", None, None, "1"), "Libraries"),
        addon(2, "Foo", "x", "d", None, None, "1"),
        in_category(addon(3, "LibAddonMenu", "x", "d", None, None, "1"), "Libraries"),
        addon(4, "Quest Map", "x", "d", None, None, "1"),
    ];
    let mut view = Installed::new().displayed_addons(list);
    view.set_filter("LIB".to_string());
    // shown by name: Foo, LibAddonMenu, LibStub, Quest Map
    let t = view.tables();
    assert!(t.libraries.is_empty());
    assert_eq!(t.addons, vec![1, 2]);
    view.set_filter("zzz".to_string());
    let t = view.tables();
    assert!(t.libraries.is_empty());
    assert!(t.addons.is_empty());
}

#[test]
fn header_click_flips_or_switches() {
    let mut sort = Sort::Name;
    let mut asc = true;
    header_clicked(&mut sort, &mut asc, Sort::Name);
    assert!(sort == Sort::Name && !asc);
    header_clicked(&mut sort, &mut asc, Sort::TotalDownloads);
    assert!(sort == Sort::TotalDownloads && !asc);
    header_clicked(&mut sort, &mut asc, Sort::TotalDownloads);
    assert!(sort == Sort::TotalDownloads && asc);
    header_clicked(&mut sort, &mut asc, Sort::Author);
    assert!(sort == Sort::Author && asc);
}

#[test]
fn row_buttons_follow_install_state() {
    let fresh = addon(1, "a", "x", "d", None, None, "2");
    let old = addon(2, "b", "x", "d", None, Some("1"), "2");
    let current = addon(3, "c", "x", "d", None, Some("2"), "2");
    assert!(row_buttons(&fresh, false).is_empty());
    assert!(row_buttons(&fresh, true) == vec![AddonResponseType::Install]);
    assert!(row_buttons(&old, true) == vec![AddonResponseType::Update, AddonResponseType::Remove]);
    assert!(row_buttons(&current, true) == vec![AddonResponseType::Remove]);
}

#[test]
fn popular_needs_more_than_five_thousand() {
    assert!(is_popular(&addon(1, "a", "x", "d", Some("5001"), None, "1")));
    assert!(!is_popular(&addon(1, "a", "x", "d", Some("5000"), None, "1")));
    assert!(!is_popular(&addon(1, "a", "x", "d", Some("many"), None, "1")));
    assert!(!is_popular(&addon(1, "a", "x", "d", None, None, "1")));
}

#[test]
fn sorting_one_input_twice_gives_one_listing() {
    let input = vec![
        addon(5, "echo", "x", "2020", Some("7"), None, "1"),
        addon(2, "bravo", "x", "2021", Some("7"), Some("0.5"), "1"),
        addon(9, "alpha", "x", "2022", Some("3"), None, "1"),
        addon(4, "delta", "x", "2023", Some("9"), None, "1"),
    ];
    let mut first = input.clone();
    let mut second = input.clone();
    sort_addons(&mut first, Sort::TotalDownloads, true);
    sort_addons(&mut second, Sort::TotalDownloads, true);
    assert_eq!(ids(&first), ids(&second));
    assert_eq!(ids(&first), vec![2, 9, 5, 4]);
    let mut again = first.clone();
    sort_addons(&mut again, Sort::TotalDownloads, true);
    assert_eq!(ids(&again), vec![2, 9, 5, 4]);
}
