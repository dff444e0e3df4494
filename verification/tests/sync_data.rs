use eso_addons::sync::{hm_sync, HmSyncError, HARVEST_MAP_DATA_ID};
use eso_addons::config::{
    default_str, default_true, default_version, Config, HmConfigUpdate, Style, TTCRegion, Timestamp,
    TtcConfigUpdate,
};
use eso_addons::sync::{
    download_hash_mismatch, finish_hm, finish_ttc, hex_lower, hm_file_name, hm_skip_zone, hm_zone_data,
    hm_run, hm_zone_names, md5_hex, record_hm_zone, record_ttc_download, synced_recently, ttc_download_url,
    ttc_needs_download, ttc_run, ttc_targets, TtcServer,
};

fn config(region: TTCRegion) -> Config {
    Config {
        version: default_version(),
        addon_dir: String::new(),
        file_list: default_str(),
        file_details: default_str(),
        list_files: default_str(),
        category_list: default_str(),
        update_ttc_pricetable: true,
        ttc_na_version: Some(10),
        ttc_eu_version: None,
        ttc_download_last: None,
        update_on_launch: default_true(),
        onboard: false,
        update_hm_data: true,
        hm_zone_hashes: vec![("AD".to_string(), "abc".to_string())],
        hm_zone_synced: vec![("AD".to_string(), Timestamp { secs: 1_000_000, nanos: 0 })],
        hm_last_sync: None,
        style: Style::default(),
        ttc_region: region,
    }
}

#[test]
fn md5_digests_in_hex() {
    assert_eq!(md5_hex(b"hello world"), "5eb63bbbe01eeed093cb22bb8f5acdc3");
    assert_eq!(md5_hex(b""), "d41d8cd98f00b204e9800998ecf8427e");
    assert_eq!(hex_lower(&[0x00, 0x0f, 0xab, 0x10]), "000fab10");
}

#[test]
fn download_hash_checks() {
    assert_eq!(download_hash_mismatch(None, b"hello world"), None);
    assert_eq!(download_hash_mismatch(Some("  "), b"hello world"), None);
    assert_eq!(download_hash_mismatch(Some("5eb63bbbe01eeed093cb22bb8f5acdc3"), b"hello world"), None);
    assert_eq!(
        download_hash_mismatch(Some("0000"), b"hello world"),
        Some("5eb63bbbe01eeed093cb22bb8f5acdc3".to_string())
    );
    // the expected digest is compared as given, spaces included
    assert_eq!(
        download_hash_mismatch(Some(" 5eb63bbbe01eeed093cb22bb8f5acdc3"), b"hello world"),
        Some("5eb63bbbe01eeed093cb22bb8f5acdc3".to_string())
    );
}

#[test]
fn price_tables_by_region() {
    assert_eq!(ttc_targets(&config(TTCRegion::NA)), vec![(TtcServer::Na, Some(10))]);
    assert_eq!(ttc_targets(&config(TTCRegion::EU)), vec![(TtcServer::Eu, None)]);
    assert_eq!(ttc_targets(&config(TTCRegion::ALL)), vec![(TtcServer::Na, Some(10)), (TtcServer::Eu, None)]);
    assert!(!ttc_needs_download(Some(10), Some(10)));
    assert!(ttc_needs_download(Some(11), Some(10)));
    assert!(ttc_needs_download(None, Some(10)));
    assert!(ttc_needs_download(Some(10), None));
    assert_eq!(ttc_download_url(TtcServer::Eu), "https://eu.tamrieltradecentre.com/download/PriceTable");
    let mut u = TtcConfigUpdate { na_version: None, eu_version: None, download_last: None };
    record_ttc_download(&mut u, TtcServer::Eu, Some(7));
    assert_eq!((u.na_version, u.eu_version), (None, Some(7)));
    let now = Timestamp { secs: 5, nanos: 6 };
    finish_ttc(&mut u, false, now);
    assert_eq!(u.download_last, None);
    finish_ttc(&mut u, true, now);
    assert_eq!(u.download_last, Some(now));
}

#[test]
fn harvest_map_zones() {
    assert_eq!(hm_zone_names(), vec!["AD", "EP", "DC", "DLC", "NF"]);
    assert_eq!(hm_file_name("DLC"), "HarvestMapDLC.lua");
    assert_eq!(hm_zone_data("EP", None, "={}"), "HarvestEP_SavedVars={}");
    assert_eq!(hm_zone_data("EP", Some("x".into()), "={}"), "x");
    let c = config(TTCRegion::ALL);
    let fresh = Timestamp { secs: 1_000_000 + 86_399, nanos: 999_999_999 };
    let stale = Timestamp { secs: 1_000_000 + 86_400, nanos: 0 };
    assert!(synced_recently(Some(Timestamp { secs: 1_000_000, nanos: 0 }), fresh));
    assert!(!synced_recently(Some(Timestamp { secs: 1_000_000, nanos: 0 }), stale));
    assert!(!synced_recently(None, fresh));
    assert!(hm_skip_zone(&c, "AD", "abc", true, fresh));
    assert!(!hm_skip_zone(&c, "AD", "abc", true, stale));
    assert!(!hm_skip_zone(&c, "AD", "abd", true, fresh));
    assert!(!hm_skip_zone(&c, "AD", "abc", false, fresh));
    assert!(!hm_skip_zone(&c, "EP", "abc", true, fresh));

    let mut u = HmConfigUpdate { zone_hashes: vec![], synced_at: None };
    finish_hm(&mut u, fresh);
    assert_eq!(u.synced_at, None);
    record_hm_zone(&mut u, "EP", "h1".into());
    record_hm_zone(&mut u, "EP", "h2".into());
    assert_eq!(u.zone_hashes, vec![("EP".to_string(), "h2".to_string())]);
    finish_hm(&mut u, fresh);
    assert_eq!(u.synced_at, Some(fresh));
}

#[test]
fn whole_price_table_runs() {
    let now = Timestamp { secs: 77, nanos: 1 };
    let (d, u) = ttc_run(&config(TTCRegion::ALL), &vec![Some(10), Some(3)], now);
    assert_eq!(d, vec![TtcServer::Eu]);
    assert_eq!((u.na_version, u.eu_version, u.download_last), (None, Some(3), Some(now)));
    let (d, u) = ttc_run(&config(TTCRegion::NA), &vec![Some(10)], now);
    assert!(d.is_empty());
    assert_eq!((u.na_version, u.eu_version, u.download_last), (None, None, None));
    let (d, u) = ttc_run(&config(TTCRegion::NA), &vec![], now);
    assert_eq!(d, vec![TtcServer::Na]);
    assert_eq!((u.na_version, u.eu_version, u.download_last), (None, None, Some(now)));
}

#[test]
fn whole_harvest_map_runs() {
    let mut c = config(TTCRegion::ALL);
    c.hm_zone_hashes = vec![("AD".to_string(), md5_hex(b"adsaved"))];
    let now = Timestamp { secs: 1_000_100, nanos: 0 };
    let saved = vec![Some("adsaved".to_string()), None, None, None, None];
    let exists = vec![true, true, false, false, false];
    let (sent, u) = hm_run(&c, &saved, &exists, "={}", now);
    assert_eq!(
        sent.iter().map(|(z, d)| (z.as_str(), d.as_str())).collect::<Vec<_>>(),
        vec![
            ("EP", "HarvestEP_SavedVars={}"),
            ("DC", "HarvestDC_SavedVars={}"),
            ("DLC", "HarvestDLC_SavedVars={}"),
            ("NF", "HarvestNF_SavedVars={}"),
        ]
    );
    assert_eq!(u.zone_hashes.len(), 4);
    assert_eq!(u.zone_hashes[0], ("EP".to_string(), md5_hex(b"HarvestEP_SavedVars={}")));
    assert_eq!(u.synced_at, Some(now));
    let later = Timestamp { secs: 1_000_000 + 86_400, nanos: 0 };
    let (sent, _) = hm_run(&c, &saved, &exists, "={}", later);
    assert_eq!(sent.len(), 5);
}

#[test]
fn harvest_map_sync_needs_harvest_map_data() {
    let c = config(TTCRegion::ALL);
    let now = Timestamp { secs: 10, nanos: 0 };
    let saved = vec![None, None, None, None, None];
    let exists = vec![false; 5];
    assert_eq!(hm_sync(&vec![1, 2], &c, &saved, &exists, "={}", now).err(), Some(HmSyncError::HarvestMapDataNotInstalled));
    let ok = hm_sync(&vec![1, HARVEST_MAP_DATA_ID], &c, &saved, &exists, "={}", now).expect("planned");
    assert_eq!(ok.0.len(), 5);
    assert_eq!(ok.1.synced_at, Some(now));
}
