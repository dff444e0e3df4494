use eso_addons::cli::{heading_width, int_to_string, search_line, show_lines, ShowCommand};
use eso_addons::service::AddonShowDetails;

fn details(installed: bool, downloads: Option<&str>, md5: Option<&str>) -> AddonShowDetails {
    AddonShowDetails {
        id: 1360,
        name: "Combat Metrics".into(),
        author_name: "Solinur".into(),
        category: "Combat".into(),
        version: "1.5".into(),
        date: "2024".into(),
        installed,
        installed_version: None,
        download_total: downloads.map(|s| s.to_string()),
        download_monthly: None,
        favorite_total: None,
        file_info_url: "https://www.esoui.com/downloads/info1360".into(),
        download: None,
        file_name: None,
        md5: md5.map(|s| s.to_string()),
        description: None,
        change_log: None,
        game_compat_version: None,
        game_compat_name: None,
        category_icon: None,
    }
}

#[test]
fn numbers_in_decimal() {
    assert_eq!(int_to_string(0), "0");
    assert_eq!(int_to_string(1360), "1360");
    assert_eq!(int_to_string(-7), "-7");
    assert_eq!(int_to_string(i32::MIN), "-2147483648");
    assert_eq!(int_to_string(i32::MAX), "2147483647");
}

#[test]
fn show_lines_for_installed_addon() {
    let lines = show_lines(&details(true, Some("123"), Some("abc")));
    let got: Vec<(String, String)> = lines.iter().map(|(h, v)| (h.to_string(), v.clone())).collect();
    assert_eq!(
        got,
        vec![
            ("Name".to_string(), "Combat Metrics (installed)".to_string()),
            ("ID".to_string(), "1360".to_string()),
            ("Author".to_string(), "Solinur".to_string()),
            ("Category".to_string(), "Combat".to_string()),
            ("Version".to_string(), "1.5".to_string()),
            ("Downloads".to_string(), "123".to_string()),
            ("URL".to_string(), "https://www.esoui.com/downloads/info1360".to_string()),
            ("MD5".to_string(), "abc".to_string()),
        ]
    );
    assert_eq!(heading_width(&lines), 9);
    let short = show_lines(&details(false, None, None));
    assert_eq!(short.len(), 6);
    assert_eq!(short[0].1, "Combat Metrics");
    assert_eq!(heading_width(&short), 8);
}

#[test]
fn show_command_keeps_its_id() {
    assert_eq!(ShowCommand::new(42).addon_id(), 42);
}

#[test]
fn search_lines_mark_installed() {
    assert_eq!(search_line(42, "Map Pins", true), "42 Map Pins (installed)");
    assert_eq!(search_line(7, "Foo", false), "7 Foo");
}
