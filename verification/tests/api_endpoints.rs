use eso_addons::api::{ApiClient, Category, EsoApiFeeds, EsoGameConfig, GameConfig, GlobalConfig};
use eso_addons::catalogue::category_rows;
use eso_addons::config::{default_str, default_true, default_version, Config, Style, TTCRegion, Timestamp};
use eso_addons::service::{install_error_context, parse_minion_backup, ErrorLog};

fn game(id: &str, url: &str) -> GameConfig {
    GameConfig { game_id: id.to_string(), game_config: url.to_string() }
}

#[test]
fn endpoints_follow_the_global_configuration() {
    let mut c = ApiClient::new("https://api.example.com");
    assert_eq!(c.global_config_url(), "https://api.example.com/globalconfig.json");
    c.select_game(&GlobalConfig { games: vec![game("WOW", "w"), game("ESO", "e1"), game("ESO", "e2")] });
    assert_eq!(c.game_config_url, "e1");
    c.select_game(&GlobalConfig { games: vec![game("WOW", "w")] });
    assert_eq!(c.game_config_url, "e1");
    c.apply_feeds(&EsoApiFeeds {
        api_feeds: EsoGameConfig {
            file_list: "fl".into(),
            file_details: "https://x/fd/".into(),
            list_files: "lf".into(),
            category_list: "cl".into(),
        },
    });
    assert_eq!((c.file_list_url.as_str(), c.list_files_url.as_str(), c.category_list_url.as_str()), ("fl", "lf", "cl"));
    assert_eq!(c.file_details_url_for(1234), "https://x/fd/1234.json");
    assert_eq!(c.file_details_url_for(-5), "https://x/fd/-5.json");
}

#[test]
fn endpoints_from_saved_configuration() {
    let config = Config {
        version: default_version(),
        addon_dir: String::new(),
        file_list: "a".into(),
        file_details: "b".into(),
        list_files: "c".into(),
        category_list: "d".into(),
        update_ttc_pricetable: false,
        ttc_na_version: None,
        ttc_eu_version: None,
        ttc_download_last: None,
        update_on_launch: default_true(),
        onboard: false,
        update_hm_data: false,
        hm_zone_hashes: vec![],
        hm_zone_synced: vec![],
        hm_last_sync: None,
        style: Style::default(),
        ttc_region: TTCRegion::default(),
    };
    let mut c = ApiClient::new(&default_str());
    c.update_endpoints_from_config(&config);
    assert_eq!(
        (c.file_list_url.as_str(), c.file_details_url.as_str(), c.list_files_url.as_str(), c.category_list_url.as_str()),
        ("a", "b", "c", "d")
    );
    assert_eq!(c.game_config_url, "");
}

#[test]
fn minion_backup_ids() {
    let b = parse_minion_backup("7,1234, 56 ,,abc,-3,\n");
    assert_eq!(b.ids, vec![7, 1234, 56, -3]);
    assert_eq!(b.skipped, vec!["abc".to_string(), "\n".to_string()]);
    let b = parse_minion_backup("");
    assert!(b.ids.is_empty() && b.skipped.is_empty());
    let b = parse_minion_backup("99999999999");
    assert!(b.ids.is_empty());
    assert_eq!(b.skipped, vec!["99999999999".to_string()]);
}

#[test]
fn error_log_records_and_clears() {
    let mut log = ErrorLog::new();
    let t = Timestamp { secs: 5, nanos: 1 };
    log.record(t, install_error_context(true, "Foo (#1)"), "boom".into());
    log.record(t, install_error_context(false, "addon 2"), "bust".into());
    assert_eq!(log.len(), 2);
    let e = log.errors();
    assert_eq!(e[0].context, "Error updating Foo (#1)");
    assert_eq!(e[1].context, "Error installing addon 2");
    assert_eq!(e[1].message, "bust");
    assert_eq!(e[0].timestamp, t);
    log.clear();
    assert_eq!(log.len(), 0);
}

#[test]
fn category_rows_skip_non_numbers() {
    let cats = vec![
        Category { id: "12".into(), title: "Maps".into(), icon: "m.png".into(), file_count: "40".into(), parent_ids: vec!["1".into(), "x".into(), "3".into()] },
        Category { id: "bad".into(), title: "Nope".into(), icon: "n.png".into(), file_count: "1".into(), parent_ids: vec!["1".into()] },
        Category { id: "7".into(), title: "Libs".into(), icon: "l.png".into(), file_count: "many".into(), parent_ids: vec![] },
    ];
    let rows = category_rows(&cats);
    let cs: Vec<(i32, String, Option<String>, Option<i32>)> = rows
        .categories
        .iter()
        .map(|c| (c.id, c.title.clone(), c.icon.clone(), c.file_count))
        .collect();
    assert_eq!(cs, vec![
        (12, "Maps".to_string(), Some("m.png".to_string()), Some(40)),
        (7, "Libs".to_string(), Some("l.png".to_string()), None),
    ]);
    let ps: Vec<(i32, i32)> = rows.parents.iter().map(|p| (p.id, p.parent_id)).collect();
    assert_eq!(ps, vec![(12, 1), (12, 3)]);
}
