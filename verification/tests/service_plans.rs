use std::collections::HashMap;

use eso_addons::catalogue::{catalogue_rows, Compatibility, FileListItem};
use eso_addons::config::{Config, Style, TTCRegion, VersionError};
use eso_addons::deps::{
    ignored_row, plan_missing_dependencies, remove_provider_rows, resolve_dependencies, satisfied_row, AddonRef,
    ManualDependencyRow, Resolution,
};
use eso_addons::scan::{plan_scan, ManifestEntry};
use eso_addons::service::MissingDepView;

fn r(id: i32, name: &str) -> AddonRef {
    AddonRef { id, name: name.to_string() }
}

#[test]
fn dependency_resolution_prefers_installed_then_choices() {
    let dirs: Vec<String> = vec!["LibA".into(), "LibB".into(), "LibC".into(), "LibD".into(), "LibD".into()];
    let owners = vec![("LibA".to_string(), r(1, "Lib A"))];
    let manual = vec![
        ManualDependencyRow { addon_dir: "LibB".into(), ignore: Some(true), satisfied_by: None },
        ManualDependencyRow { addon_dir: "LibC".into(), ignore: Some(false), satisfied_by: Some(7) },
    ];
    let names = vec![(7, "Seven".to_string())];
    let sugg = vec![("LibD".to_string(), r(9, "Nine")), ("LibX".to_string(), r(3, "X")), ("LibD".to_string(), r(4, "Four"))];
    let out = resolve_dependencies(&dirs, &owners, &manual, &names, &sugg);
    assert_eq!(out.len(), 5);
    assert!(matches!(&out[0].resolution, Resolution::Installed(a) if a.id == 1 && a.name == "Lib A"));
    assert!(matches!(&out[1].resolution, Resolution::Ignored));
    assert!(matches!(&out[2].resolution, Resolution::SatisfiedBy(a) if a.id == 7 && a.name == "Seven"));
    match &out[3].resolution {
        Resolution::Unresolved { suggestions } => {
            assert_eq!(suggestions.iter().map(|a| a.id).collect::<Vec<_>>(), vec![9, 4]);
        }
        _ => panic!("expected unresolved"),
    }
    assert!(matches!(&out[4].resolution, Resolution::Unresolved { suggestions } if suggestions.is_empty()));
    assert_eq!(out[3].dep_dir, "LibD");
}

#[test]
fn settling_missing_dependencies_installs_offered_choices() {
    let mut a = MissingDepView::new("X".into());
    a.missing_dir = "LibA".into();
    a.options.insert(5, "Five".into());
    a.satisfied_by = Some(5);
    let mut b = MissingDepView::new("Y".into());
    b.missing_dir = "LibB".into();
    b.satisfied_by = Some(6);
    let mut c = MissingDepView::new("Z".into());
    c.missing_dir = "LibC".into();
    c.ignore = true;
    let plan = plan_missing_dependencies(&vec![a, b, c]);
    assert_eq!(plan.installs, vec![5]);
    assert_eq!(plan.rows.len(), 3);
    assert_eq!(plan.rows[1].satisfied_by, Some(6));
    assert_eq!(plan.rows[2].ignore, Some(true));
    assert_eq!(plan.rows[0].addon_dir, "LibA");
}

fn entry(dir: &str, top: &str, title: &str, version: Option<&str>, deps: &[&str]) -> ManifestEntry {
    ManifestEntry {
        dir_name: dir.into(),
        top_level: top.into(),
        title: title.into(),
        version: version.map(|v| v.to_string()),
        depends_on: deps.iter().map(|d| d.to_string()).collect(),
    }
}

#[test]
fn scan_records_versions_nested_dirs_and_deps() {
    let dirs: Vec<String> = vec!["Alpha".into(), "Beta".into()];
    let manifests = vec![
        entry("Alpha", "Alpha", "Alpha", Some("1.2.0"), &["LibA"]),
        entry("Alpha", "Alpha", "Alpha", Some("1.1.0"), &[]),
        entry("Sub", "Alpha", "Sub", Some("9"), &[]),
        entry("Beta", "Beta", "Beta", None, &["LibB", "LibC"]),
        entry("Gamma", "Gamma", "Gamma", Some("2"), &[]),
        entry("Sub2", "Alpha", "Sub2", None, &[]),
    ];
    let plan = plan_scan(&dirs, &manifests);
    let versions: HashMap<String, String> = plan.versions.into_iter().collect();
    assert_eq!(versions.len(), 2);
    assert_eq!(versions["Alpha"], "1.2.0");
    assert_eq!(versions["Beta"], "0");
    let nested: HashMap<String, Vec<String>> = plan.nested.into_iter().collect();
    assert_eq!(nested["Alpha"], vec!["Sub".to_string(), "Sub2".to_string()]);
    let deps: HashMap<String, Vec<String>> = plan.deps.into_iter().collect();
    assert_eq!(deps["Alpha"], vec!["LibA".to_string()]);
    assert_eq!(deps["Beta"], vec!["LibB".to_string(), "LibC".to_string()]);
    assert!(!deps.contains_key("Gamma"));
}

fn item(id: &str, dirs: &[&str]) -> FileListItem {
    FileListItem {
        id: id.into(),
        category: "1".into(),
        version: "1.0".into(),
        date: "2024-01-01 00:00:00 UTC".into(),
        name: format!("n{id}"),
        author_name: "a".into(),
        file_info_url: "u".into(),
        download_total: "10".into(),
        download_monthly: "1".into(),
        favorite_total: "2".into(),
        directories: dirs.iter().map(|d| d.to_string()).collect(),
        compatibility: Some(vec![Compatibility { version: "101041".into(), name: "Update 41".into() }]),
        image_thumbnails: Some(vec!["t0".into(), "t1".into()]),
        images: Some(vec!["i0".into()]),
    }
}

#[test]
fn catalogue_rows_skip_bad_ids() {
    let items = vec![item("12", &["A", "B"]), item("x1", &["C"]), item("34", &[])];
    let rows = catalogue_rows(&items);
    assert_eq!(rows.ids, vec![12, 34]);
    assert_eq!(rows.addons.len(), 2);
    assert_eq!(rows.addons[1].name, "n34");
    assert_eq!(rows.addons[0].author_name.as_deref(), Some("a"));
    assert_eq!(rows.dirs.iter().map(|d| (d.addon_id, d.dir.clone())).collect::<Vec<_>>(), vec![(12, "A".to_string()), (12, "B".to_string())]);
    assert_eq!(rows.compats.len(), 2);
    assert_eq!(rows.compats[1].addon_id, 34);
    assert_eq!(rows.compats[1].id, 0);
    assert_eq!(rows.images.len(), 2);
    assert_eq!(rows.images[0].thumbnail, "t0");
    assert_eq!(rows.images[0].image, "i0");
}

fn config(version: &str) -> Config {
    Config {
        version: version.into(),
        addon_dir: String::new(),
        file_list: String::new(),
        file_details: String::new(),
        list_files: String::new(),
        category_list: String::new(),
        update_ttc_pricetable: false,
        ttc_na_version: None,
        ttc_eu_version: None,
        ttc_download_last: None,
        update_on_launch: false,
        onboard: false,
        update_hm_data: false,
        hm_zone_hashes: vec![],
        hm_zone_synced: vec![],
        hm_last_sync: None,
        style: Style::System,
        ttc_region: TTCRegion::NA,
    }
}

#[test]
fn config_upgrade_by_version() {
    let mut old = config("0.1.1");
    assert_eq!(old.upgrade("1.5.0"), Ok(()));
    assert!(old.update_on_launch);
    assert_eq!(old.version, "1.5.0");
    let mut newer = config("2.0.0");
    assert_eq!(newer.upgrade("1.5.0"), Ok(()));
    assert!(!newer.update_on_launch);
    assert_eq!(newer.version, "2.0.0");
    let mut bad = config("beta");
    assert_eq!(bad.upgrade("1.5.0"), Err(VersionError::Unparsable));
    assert_eq!(bad.version, "beta");
}

#[test]
fn manual_choice_rows() {
    let a = ignored_row("LibA".into());
    assert_eq!((a.addon_dir.as_str(), a.ignore, a.satisfied_by), ("LibA", Some(true), None));
    let b = satisfied_row("LibB".into(), 4);
    assert_eq!((b.addon_dir.as_str(), b.ignore, b.satisfied_by), ("LibB", Some(false), Some(4)));
    let c = satisfied_row("LibC".into(), 5);
    let left = remove_provider_rows(vec![a, b, c], 4);
    assert_eq!(left.iter().map(|r| r.addon_dir.as_str()).collect::<Vec<_>>(), vec!["LibA", "LibC"]);
}
