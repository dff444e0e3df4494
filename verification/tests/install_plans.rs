use eso_addons::catalogue::{id_chunks, SQLITE_MAX_VARS};
use eso_addons::api::FileDetails;
use eso_addons::install::{
    detail_rows, details_current, install_rows, installed_message, plan_install, plan_remove, restore_plan,
    CatalogueEntry, FileRecord, InstallError, InstallStep,
};
use eso_addons::service::{BackupData, BackupInstalledAddon, BackupManualDependency};

fn entry(download: Option<&str>) -> CatalogueEntry {
    CatalogueEntry {
        name: "Foo".into(),
        version: "2.0".into(),
        date: "2024-01-01".into(),
        download: download.map(|s| s.to_string()),
        md5: Some("abc".into()),
    }
}

#[test]
fn install_plans() {
    assert_eq!(plan_install(5, false, None, None).err(), Some(InstallError::AddonNotFound(5)));
    let e = entry(Some("https://x/f.zip"));
    assert!(matches!(plan_install(5, false, Some(&e), Some("2.0")), Ok(InstallStep::AlreadyCurrent)));
    match plan_install(5, true, Some(&e), Some("2.0")) {
        Ok(InstallStep::Download { url, md5 }) => {
            assert_eq!(url, "https://x/f.zip");
            assert_eq!(md5, Some("abc".to_string()));
        }
        _ => panic!("an update always downloads"),
    }
    assert!(matches!(plan_install(5, false, Some(&e), Some("1.0")), Ok(InstallStep::Download { .. })));
    assert!(matches!(plan_install(5, false, Some(&e), None), Ok(InstallStep::Download { .. })));
    let none = entry(None);
    assert_eq!(plan_install(5, false, Some(&none), None).err(), Some(InstallError::MissingDownloadUrl(5)));
    assert!(matches!(plan_install(5, false, Some(&none), Some("2.0")), Ok(InstallStep::AlreadyCurrent)));
}

#[test]
fn install_rows_and_removal() {
    let e = entry(None);
    let rows = install_rows(9, &e, &vec!["LibA".to_string(), "LibB".to_string()]);
    assert_eq!((rows.installed.addon_id, rows.installed.version.as_str(), rows.installed.date.as_str()), (9, "2.0", "2024-01-01"));
    assert_eq!(rows.dependencies, vec![(9, "LibA".to_string()), (9, "LibB".to_string())]);
    let dirs = vec!["".to_string(), "Foo".to_string(), "FooLib".to_string()];
    assert_eq!(plan_remove(true, true, &dirs), Some(vec!["Foo".to_string(), "FooLib".to_string()]));
    assert_eq!(plan_remove(true, false, &dirs), None);
    assert_eq!(plan_remove(false, true, &dirs), None);
    assert_eq!(installed_message("Foo", false), "🎊 Installed Foo!");
    assert_eq!(installed_message("Foo", true), "✔ Updated Foo!");
}

#[test]
fn detail_records() {
    let full = FileRecord { version: "2".into(), file_name: Some("f.zip".into()), download: Some("u".into()) };
    assert!(details_current(Some(&full), Some(Some("2"))));
    assert!(!details_current(Some(&full), Some(Some("1"))));
    assert!(!details_current(Some(&full), None));
    assert!(!details_current(None, Some(Some("2"))));
    let blank = FileRecord { version: "".into(), file_name: Some("f.zip".into()), download: Some("u".into()) };
    assert!(details_current(Some(&blank), Some(None)));
    let no_file = FileRecord { version: "2".into(), file_name: None, download: Some("u".into()) };
    assert!(!details_current(Some(&no_file), Some(Some("2"))));

    let d = FileDetails {
        id: "3".into(),
        category: "c".into(),
        version: "9".into(),
        date: "d".into(),
        md5: "m".into(),
        file_name: "f.zip".into(),
        download_url: "https://x/f.zip".into(),
        pending: "0".into(),
        name: "n".into(),
        author_name: "a".into(),
        description: "desc".into(),
        change_log: "log".into(),
        hit_count: "1".into(),
        hit_count_monthly: "1".into(),
        favorite_total: "1".into(),
    };
    let (row, file) = detail_rows(3, &d);
    assert_eq!((row.id, row.description.as_deref(), row.change_log.as_deref(), row.version.as_deref()), (3, Some("desc"), Some("log"), Some("9")));
    assert_eq!((file.md5.as_deref(), file.file_name.as_deref(), file.download.as_deref()), (Some("m"), Some("f.zip"), Some("https://x/f.zip")));
}

#[test]
fn restoring_backups() {
    let data = BackupData {
        installed_addons: vec![BackupInstalledAddon { addon_id: 4, date: "2020".into() }],
        manual_dependencies: vec![],
    };
    let plan = restore_plan(&data);
    let rows = plan.installed.expect("installed rows");
    assert_eq!((rows[0].addon_id, rows[0].version.as_str(), rows[0].date.as_str()), (4, "0", "2020"));
    assert!(plan.manual.is_none());
    let data = BackupData {
        installed_addons: vec![],
        manual_dependencies: vec![BackupManualDependency { addon_dir: "LibX".into(), satisfied_by: Some(2), ignore: Some(false) }],
    };
    let plan = restore_plan(&data);
    assert!(plan.installed.is_none());
    let m = plan.manual.expect("manual rows");
    assert_eq!((m[0].addon_dir.as_str(), m[0].satisfied_by, m[0].ignore), ("LibX", Some(2), Some(false)));
}

#[test]
fn ids_split_into_bounded_chunks() {
    let ids: Vec<i32> = (1..=7).collect();
    let c = id_chunks(&ids, 3);
    assert_eq!(c, vec![vec![1, 2, 3], vec![4, 5, 6], vec![7]]);
    assert_eq!(id_chunks(&ids, 7), vec![ids.clone()]);
    assert!(id_chunks(&vec![], 3).is_empty());
    let many: Vec<i32> = (0..70000).collect();
    let c = id_chunks(&many, SQLITE_MAX_VARS);
    assert_eq!(c.iter().map(|x| x.len()).collect::<Vec<_>>(), vec![32000, 32000, 6000]);
    assert_eq!(c.concat(), many);
}

#[test]
fn restoring_a_backup_resets_versions() {
    let data = BackupData {
        installed_addons: vec![
            BackupInstalledAddon { addon_id: 4, date: "d4".into() },
            BackupInstalledAddon { addon_id: 9, date: "d9".into() },
        ],
        manual_dependencies: vec![],
    };
    let plan = restore_plan(&data);
    let rows = plan.installed.expect("installed rows");
    assert_eq!(rows.iter().map(|r| (r.addon_id, r.version.as_str(), r.date.as_str())).collect::<Vec<_>>(),
        vec![(4, "0", "d4"), (9, "0", "d9")]);
    assert!(plan.manual.is_none());
}
