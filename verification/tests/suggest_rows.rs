use eso_addons::scan::manifest_location;
use eso_addons::suggest::{
    dependency_options, dependents, missing_dirs, required_by, untracked_addons, AddonRow, DependencyRow, DirRow,
};

fn addon(id: i32, name: &str, monthly: i64, date: i64) -> AddonRow {
    AddonRow { id, name: name.to_string(), download_monthly: monthly, date }
}

fn dep(addon_id: i32, dir: &str) -> DependencyRow {
    DependencyRow { addon_id, dependency_dir: dir.to_string() }
}

fn dir(addon_id: i32, d: &str) -> DirRow {
    DirRow { addon_id, dir: d.to_string() }
}

fn store() -> (Vec<i32>, Vec<AddonRow>, Vec<DependencyRow>, Vec<DirRow>, Vec<String>) {
    let installed = vec![1, 2];
    let addons = vec![
        addon(1, "Main", 10, 100),
        addon(2, "Other", 5, 5),
        addon(3, "LibA", 100, 7),
        addon(4, "LibA Plus", 500, 9),
        addon(5, "Bundle", 1000, 1),
        addon(6, "Another", 1000, 1),
    ];
    let deps = vec![
        dep(1, "LibA"),
        dep(2, "LibA"),
        dep(1, "LibB"),
        dep(2, "Shared"),
        dep(7, "LibC"),
        dep(1, "Manual"),
        dep(6, "Main"),
    ];
    let dirs = vec![
        dir(1, "Main"),
        dir(2, "Other"),
        dir(2, "Shared"),
        dir(5, "LibA"),
        dir(4, "LibA"),
        dir(3, "LibA"),
        dir(5, "X"),
        dir(5, "Y"),
    ];
    (installed, addons, deps, dirs, vec!["Manual".to_string()])
}

#[test]
fn missing_directories_and_who_needs_them() {
    let (installed, addons, deps, dirs, manual) = store();
    assert_eq!(missing_dirs(&installed, &addons, &deps, &dirs, &manual), vec!["LibA".to_string(), "LibB".to_string()]);
    assert_eq!(required_by(&installed, &addons, &deps, "LibA"), "Main, Other");
    assert_eq!(required_by(&installed, &addons, &deps, "LibB"), "Main");
    assert_eq!(required_by(&installed, &addons, &deps, "LibC"), "");
}

#[test]
fn dependency_options_are_ranked() {
    let (installed, addons, deps, dirs, manual) = store();
    let opts = dependency_options(&installed, &addons, &deps, &dirs, &manual);
    let shown: Vec<(String, String, Option<i32>, Option<String>)> = opts
        .into_iter()
        .map(|o| (o.missing_dir, o.required_by, o.option_id, o.option_name))
        .collect();
    assert_eq!(
        shown,
        vec![
            ("LibA".to_string(), "Main, Other".to_string(), Some(3), Some("LibA".to_string())),
            ("LibA".to_string(), "Main, Other".to_string(), Some(4), Some("LibA Plus".to_string())),
            ("LibA".to_string(), "Main, Other".to_string(), Some(5), Some("Bundle".to_string())),
            ("LibB".to_string(), "Main".to_string(), None, None),
        ]
    );
}

#[test]
fn untracked_addons_pick_the_most_downloaded() {
    let (installed, addons, _, dirs, _) = store();
    let versions = vec![
        ("LibA".to_string(), "2.1".to_string()),
        ("Main".to_string(), "1".to_string()),
        ("X".to_string(), "0".to_string()),
    ];
    let picks = untracked_addons(&versions, &installed, &addons, &dirs);
    let got: Vec<(i32, String, String, String)> =
        picks.into_iter().map(|u| (u.addon_id, u.name, u.dir, u.version)).collect();
    assert_eq!(
        got,
        vec![
            (5, "Bundle".to_string(), "LibA".to_string(), "2.1".to_string()),
            (5, "Bundle".to_string(), "X".to_string(), "0".to_string()),
        ]
    );
}

#[test]
fn dependents_of_an_addon() {
    let (mut installed, addons, deps, dirs, _) = store();
    assert!(dependents(&installed, &addons, &deps, &dirs, 1).is_empty());
    installed.push(6);
    let ds = dependents(&installed, &addons, &deps, &dirs, 1);
    assert_eq!(ds.iter().map(|r| (r.id, r.name.as_str())).collect::<Vec<_>>(), vec![(6, "Another")]);
    let ds = dependents(&installed, &addons, &deps, &dirs, 2);
    assert!(ds.is_empty());
}

#[test]
fn manifest_files_follow_their_folder() {
    let p = |v: &[&str]| v.iter().map(|s| s.to_string()).collect::<Vec<String>>();
    assert_eq!(manifest_location(&p(&["Foo", "Foo.txt"])), Some(("Foo".to_string(), "Foo".to_string())));
    assert_eq!(manifest_location(&p(&["Foo", "Bar", "Bar.addon"])), Some(("Bar".to_string(), "Foo".to_string())));
    assert_eq!(manifest_location(&p(&["Foo", "Foo.lua"])), None);
    assert_eq!(manifest_location(&p(&["Foo", "Bar.txt"])), None);
    assert_eq!(manifest_location(&p(&["Foo.txt"])), None);
    assert_eq!(manifest_location(&p(&["A", "B", "C", "D", "D.txt"])), None);
    assert_eq!(manifest_location(&p(&["A", "B", "C", "C.txt"])), Some(("C".to_string(), "A".to_string())));
    assert_eq!(manifest_location(&p(&["Foo", "Foo.tar.txt"])), None);
    assert_eq!(manifest_location(&p(&[".txt", ".txt"])), None);
}
