use eso_addons::config::{
    default_str, default_true, default_version, Config, HmConfigUpdate, Style, TTCRegion, Timestamp,
    TtcConfigUpdate,
};

fn config() -> Config {
    Config {
        version: default_version(),
        addon_dir: "/tmp/AddOns".to_string(),
        file_list: default_str(),
        file_details: default_str(),
        list_files: default_str(),
        category_list: default_str(),
        update_ttc_pricetable: false,
        ttc_na_version: Some(1),
        ttc_eu_version: Some(2),
        ttc_download_last: None,
        update_on_launch: default_true(),
        onboard: true,
        update_hm_data: false,
        hm_zone_hashes: vec![("z1".to_string(), "h1".to_string())],
        hm_zone_synced: vec![],
        hm_last_sync: None,
        style: Style::default(),
        ttc_region: TTCRegion::default(),
    }
}

#[test]
fn ttc_update_applies_only_some_fields() {
    let mut c = config();
    let t = Timestamp { secs: 100, nanos: 0 };
    c.apply_ttc_update(TtcConfigUpdate { na_version: None, eu_version: Some(9), download_last: Some(t) });
    assert_eq!(c.ttc_na_version, Some(1));
    assert_eq!(c.ttc_eu_version, Some(9));
    assert_eq!(c.ttc_download_last, Some(t));
}

#[test]
fn hm_update_merges_zones() {
    let mut c = config();
    let t = Timestamp { secs: 5, nanos: 7 };
    c.apply_hm_update(HmConfigUpdate {
        zone_hashes: vec![("z1".to_string(), "h9".to_string()), ("z2".to_string(), "h2".to_string())],
        synced_at: Some(t),
    });
    assert_eq!(c.hm_zone_hashes, vec![("z1".to_string(), "h9".to_string()), ("z2".to_string(), "h2".to_string())]);
    assert_eq!(c.hm_zone_synced, vec![("z1".to_string(), t), ("z2".to_string(), t)]);
    assert_eq!(c.hm_last_sync, Some(t));
    c.apply_hm_update(HmConfigUpdate { zone_hashes: vec![("z3".to_string(), "h3".to_string())], synced_at: None });
    assert_eq!(c.hm_zone_hashes.len(), 3);
    assert_eq!(c.hm_zone_synced.len(), 2);
    assert_eq!(c.hm_last_sync, Some(t));
}

#[test]
fn defaults() {
    assert_eq!(default_version(), "0.1.1");
    assert_eq!(default_str(), "");
    assert!(default_true());
    assert_eq!(Style::default(), Style::System);
    assert_eq!(TTCRegion::default(), TTCRegion::NA);
}

#[test]
fn merges_leave_every_other_setting_alone() {
    let mut c = config();
    c.ttc_region = TTCRegion::EU;
    c.update_hm_data = true;
    c.file_list = "list".to_string();
    c.apply_ttc_update(TtcConfigUpdate { na_version: Some(3), eu_version: None, download_last: None });
    assert_eq!(c.ttc_region, TTCRegion::EU);
    assert!(c.update_hm_data);
    assert_eq!(c.file_list, "list");
    assert_eq!(c.hm_zone_hashes, vec![("z1".to_string(), "h1".to_string())]);
    c.apply_hm_update(HmConfigUpdate { zone_hashes: vec![("z2".to_string(), "h2".to_string())], synced_at: None });
    assert_eq!(c.ttc_region, TTCRegion::EU);
    assert_eq!(c.ttc_na_version, Some(3));
    assert_eq!(c.file_list, "list");
    assert!(c.update_on_launch);
    assert!(!c.update_ttc_pricetable);
}
