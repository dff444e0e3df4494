use eso_addons::addons::{addon_from_manifest, extract_dependency, get_download_url, get_root_dir};

#[test]
fn test_get_download_link() {
    let tests: Vec<(&str, Option<String>)> = vec![
        (
            "https://www.esoui.com/downloads/info1360-CombatMetrics",
            Some("https://www.esoui.com/downloads/download1360".to_string()),
        ),
        (
            "https://www.esoui.com/downloads/info1360-CombatMetrics.html",
            Some("https://www.esoui.com/downloads/download1360".to_string()),
        ),
        (
            "https://www.esoui.com/downloads/fileinfo.php?id=2817",
            Some("https://www.esoui.com/downloads/download2817".to_string()),
        ),
    ];

    for test in tests {
        let url = get_download_url(test.0);
        assert!(url == test.1, "Got value: {:?}", url);
    }
}

#[test]
fn download_link_rejects_other_addresses() {
    assert_eq!(get_download_url("https://example.com/downloads/info1-x"), None);
    assert_eq!(get_download_url("http://www.esoui.com/downloads/info1360-CombatMetrics"), None);
}

#[test]
fn dependency_names_drop_version_constraints() {
    assert_eq!(extract_dependency("LibAddonMenu-2.0>=32"), Some("LibAddonMenu-2.0".to_string()));
    assert_eq!(extract_dependency("LibStub"), Some("LibStub".to_string()));
    assert_eq!(extract_dependency(""), None);
}

#[test]
fn manifest_dependencies_come_from_the_last_depends_on_line() {
    let lines: Vec<String> = vec![
        "## Title: Foo".to_string(),
        "## DependsOn: LibA>=3 LibB".to_string(),
        "## Version: 1".to_string(),
        "## DependsOn: LibC  LibD>=1".to_string(),
    ];
    let a = addon_from_manifest("Foo".to_string(), &lines);
    assert_eq!(a.name, "Foo");
    assert_eq!(a.depends_on, vec!["LibC".to_string(), "LibD".to_string()]);
    let none = addon_from_manifest("Bar".to_string(), &vec!["## Title: Bar".to_string()]);
    assert!(none.depends_on.is_empty());
}

#[test]
fn root_dir_is_first_component() {
    assert_eq!(get_root_dir("Addon/sub/file.lua"), "Addon");
    assert_eq!(get_root_dir("Addon"), "Addon");
    assert_eq!(get_root_dir("Addon/"), "Addon/");
    assert_eq!(get_root_dir("/abs/path"), "/");
}
