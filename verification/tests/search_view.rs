use eso_addons::promise::PollState;
use eso_addons::search::{category_label, Author, Browse, BrowseRequest, Search, SearchRequest};
use eso_addons::service::{AddonShowDetails, CategoryResult};
use eso_addons::views::Sort;

fn addon(id: i32, name: &str, downloads: &str, download: Option<&str>, installed: Option<&str>) -> AddonShowDetails {
    AddonShowDetails {
        id,
        name: name.to_string(),
        author_name: "a".to_string(),
        category: "c".to_string(),
        version: "1".to_string(),
        date: format!("2024-0{id}"),
        installed: installed.is_some(),
        installed_version: installed.map(|s| s.to_string()),
        download_total: Some(downloads.to_string()),
        download_monthly: Some("1".to_string()),
        favorite_total: None,
        file_info_url: String::new(),
        download: download.map(|s| s.to_string()),
        file_name: None,
        md5: None,
        description: None,
        change_log: None,
        game_compat_version: None,
        game_compat_name: None,
        category_icon: None,
    }
}

fn ids(s: &Search) -> Vec<i32> {
    s.displayed_addons.iter().map(|a| a.id).collect()
}

#[test]
fn search_view_loads_and_orders() {
    let mut s = Search::new();
    assert!(s.sort == Sort::TotalDownloads);
    let reqs = s.handle_init();
    assert!(matches!(reqs.as_slice(), [SearchRequest::LoadCategories, SearchRequest::LoadCategory(0)]));
    assert!(s.handle_init().is_empty());
    s.poll(
        PollState::Success(vec![
            CategoryResult { id: 0, title: "All".into(), file_count: None },
            CategoryResult { id: 3, title: "Maps".into(), file_count: Some(5) },
        ]),
        PollState::Success(vec![
            addon(1, "beta", "10", None, None),
            addon(2, "Alpha", "300", None, None),
            addon(3, "gamma", "20", None, Some("0")),
        ]),
        PollState::Empty,
    );
    assert_eq!(s.category_title(3), "Maps");
    // upgradable first, then by total downloads, most first
    assert_eq!(ids(&s), vec![3, 2, 1]);
    s.sort = Sort::Name;
    s.handle_sort();
    assert_eq!(ids(&s), vec![3, 2, 1]);
    s.sort = Sort::Updated;
    s.handle_sort();
    assert_eq!(ids(&s), vec![3, 1, 2]);
    s.search = "ALP".into();
    assert_eq!(s.visible(), vec![2]);

    s.selected_category = 3;
    let reqs = s.category_changed();
    assert!(matches!(reqs.as_slice(), [SearchRequest::LoadCategory(3)]));
    assert!(s.category_changed().is_empty());
    assert!(matches!(s.reset().as_slice(), [SearchRequest::LoadCategory(3)]));
}

#[test]
fn monthly_column_reads_the_download_field() {
    let mut s = Search::new();
    s.handle_init();
    s.sort = Sort::MonthlyDownloads;
    s.prev_sort = Sort::MonthlyDownloads;
    s.poll(
        PollState::Empty,
        PollState::Success(vec![
            addon(1, "a", "1", Some("5"), None),
            addon(2, "b", "1", Some("50"), None),
            addon(3, "c", "1", Some("https://x/f.zip"), None),
        ]),
        PollState::Empty,
    );
    assert_eq!(ids(&s), vec![2, 1, 3]);
}

#[test]
fn searching_trims_and_lowercases() {
    let mut s = Search::new();
    s.search = "   ".into();
    assert!(s.handle_search().is_empty());
    s.search = "  Map Pins ".into();
    let reqs = s.handle_search();
    assert!(matches!(reqs.as_slice(), [SearchRequest::Search(t)] if t == "map pins"));
    // a search is running: no second one
    assert!(s.handle_search().is_empty());
    s.poll(PollState::Empty, PollState::Empty, PollState::Success(vec![addon(9, "x", "1", None, None)]));
    assert!(s.results.get().as_ref().map(|v| v.len()) == Some(1));
    s.clear_search();
    assert!(s.search.is_empty());
    assert!(s.results.get().as_ref().map(|v| v.len()) == Some(0));
}

#[test]
fn browse_loads_categories() {
    let mut b = Browse::new();
    let reqs = b.handle_init();
    assert!(matches!(reqs.as_slice(), [BrowseRequest::LoadParents, BrowseRequest::LoadCategory(0)]));
    assert!(b.handle_init().is_empty());
    assert!(b.parent_categories.is_polling());
    b.poll(PollState::Success(vec![]), PollState::Updating);
    assert!(!b.parent_categories.is_polling() && b.displayed_addons.is_polling());
    b.selected_category = 7;
    assert!(matches!(b.category_changed().as_slice(), [BrowseRequest::LoadCategory(7)]));
    assert!(b.category_changed().is_empty());
    assert_eq!(category_label(&CategoryResult { id: 1, title: "Maps".into(), file_count: Some(12) }), "Maps (12)");
    assert_eq!(category_label(&CategoryResult { id: 1, title: "Misc".into(), file_count: None }), "Misc (0)");
}

#[test]
fn author_view_lists_and_resorts() {
    let mut a = Author::new();
    assert!(!a.reset());
    a.author_name("someone".into());
    assert!(a.addons.is_polling());
    let err = a.poll(PollState::Success(vec![
        addon(1, "beta", "10", None, None),
        addon(2, "Alpha", "300", None, None),
    ]));
    assert!(err.is_none());
    assert_eq!(a.displayed_addons.iter().map(|x| x.id).collect::<Vec<_>>(), vec![2, 1]);
    a.handle_sort();
    a.sort = Sort::TotalDownloads;
    a.handle_sort();
    assert!(!a.ascending);
    assert_eq!(a.displayed_addons.iter().map(|x| x.id).collect::<Vec<_>>(), vec![2, 1]);
    a.ascending = true;
    a.handle_sort();
    assert_eq!(a.displayed_addons.iter().map(|x| x.id).collect::<Vec<_>>(), vec![1, 2]);
    assert!(a.reset());
    let err = a.poll(PollState::Error("db".into()));
    assert_eq!(err, Some(("Loading author addons".to_string(), "db".to_string())));
}
