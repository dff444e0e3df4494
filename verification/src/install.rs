//! What installing, updating and removing an addon decide, on the rows the
//! service read: whether a download is needed and from where, the rows an
//! install writes, and the directories a removal deletes.

use vstd::prelude::*;
use crate::text::{push_str, str_eq, strings_view};
use crate::api::FileDetails;
use crate::deps::ManualDependencyRow;
use crate::service::BackupData;

verus! {

/// What the catalogue knows of an addon that an install needs.
pub struct CatalogueEntry {
    pub name: String,
    pub version: String,
    pub date: String,
    pub download: Option<String>,
    pub md5: Option<String>,
}

/// Why an install cannot go on.
#[derive(Clone, Copy, Debug, PartialEq, Eq, Structural)]
pub enum InstallError {
    /// The catalogue has no addon with this id.
    AddonNotFound(i32),
    /// The catalogue gives no download address for this addon.
    MissingDownloadUrl(i32),
}

/// What an install does next.
pub enum InstallStep {
    /// The installed version is the catalogue's: nothing to do.
    AlreadyCurrent,
    /// Download the archive from `url` and check it against `md5`.
    Download { url: String, md5: Option<String> },
}

/// Decides an install or update of addon `id`: an addon the catalogue does
/// not know fails; an install of the version already installed does
/// nothing (an update always downloads); without a download address it
/// fails; otherwise it downloads.
pub fn plan_install(id: i32, update: bool, entry: Option<&CatalogueEntry>, installed_version: Option<&str>) -> (r: Result<InstallStep, InstallError>)
    ensures
        match entry {
            None => r == Err::<InstallStep, InstallError>(InstallError::AddonNotFound(id)),
            Some(e) => if !update && (installed_version matches Some(v) && v@ == e.version@) {
                r matches Ok(InstallStep::AlreadyCurrent)
            } else {
                match e.download {
                    None => r == Err::<InstallStep, InstallError>(InstallError::MissingDownloadUrl(id)),
                    Some(d) => (r matches Ok(InstallStep::Download { url, md5 }) && (url@ == d@ && match (md5, e.md5) {
                        (Some(a), Some(b)) => a@ == b@,
                        (None, None) => true,
                        _ => false,
                    })),
                }
            },
        },
{
    let e = match entry {
        None => return Err(InstallError::AddonNotFound(id)),
        Some(e) => e,
    };
    if !update {
        match installed_version {
            Some(v) => {
                if str_eq(v, e.version.as_str()) {
                    return Ok(InstallStep::AlreadyCurrent);
                }
            },
            None => {},
        }
    }
    match &e.download {
        None => Err(InstallError::MissingDownloadUrl(id)),
        Some(d) => {
            let md5 = match &e.md5 {
                Some(m) => Some(m.clone()),
                None => None,
            };
            Ok(InstallStep::Download { url: d.clone(), md5 })
        },
    }
}

/// The record of an installed addon.
pub struct InstalledRow {
    pub addon_id: i32,
    pub version: String,
    pub date: String,
}

/// The rows an install writes: the installed record with the catalogue's
/// version and date, and one dependency row per directory the addon's
/// manifest names.
pub struct InstallRows {
    pub installed: InstalledRow,
    pub dependencies: Vec<(i32, String)>,
}

pub fn install_rows(id: i32, entry: &CatalogueEntry, depends_on: &Vec<String>) -> (r: InstallRows)
    ensures
        r.installed.addon_id == id,
        r.installed.version@ == entry.version@,
        r.installed.date@ == entry.date@,
        r.dependencies@.len() == depends_on@.len(),
        forall|k: int| 0 <= k < depends_on@.len() ==> (#[trigger] r.dependencies@[k]).0 == id && r.dependencies@[k].1@
            == depends_on@[k]@,
{
    let mut deps: Vec<(i32, String)> = Vec::new();
    let mut k: usize = 0;
    while k < depends_on.len()
        invariant
            k <= depends_on@.len(),
            deps@.len() == k,
            forall|j: int| 0 <= j < k ==> (#[trigger] deps@[j]).0 == id && deps@[j].1@ == depends_on@[j]@,
        decreases depends_on.len() - k,
    {
        deps.push((id, depends_on[k].clone()));
        k += 1;
    }
    InstallRows {
        installed: InstalledRow { addon_id: id, version: entry.version.clone(), date: entry.date.clone() },
        dependencies: deps,
    }
}

/// The directories of an addon except the empty one, which stands for the
/// addon folder itself and is never deleted.
pub open spec fn removable_dirs(dirs: Seq<Seq<char>>) -> Seq<Seq<char>> {
    dirs.filter(|d: Seq<char>| d.len() > 0)
}

/// Decides a removal: an addon the catalogue does not know, or that is not
/// installed, is left alone; otherwise its record goes and its directories
/// are deleted.
pub fn plan_remove(known: bool, installed: bool, dirs: &Vec<String>) -> (r: Option<Vec<String>>)
    ensures
        !(known && installed) ==> r is None,
        known && installed ==> (r matches Some(v) && strings_view(v@) == removable_dirs(strings_view(dirs@))),
{
    if !known || !installed {
        return None;
    }
    let mut out: Vec<String> = Vec::new();
    let mut k: usize = 0;
    while k < dirs.len()
        invariant
            k <= dirs@.len(),
            strings_view(out@) == removable_dirs(strings_view(dirs@.take(k as int))),
        decreases dirs.len() - k,
    {
        proof {
            assert(strings_view(dirs@.take(k + 1)) =~= strings_view(dirs@.take(k as int)).push(dirs@[k as int]@));
            strings_view(dirs@.take(k as int)).lemma_filter_push(dirs@[k as int]@, |d: Seq<char>| d.len() > 0);
        }
        if !dirs[k].as_str().is_empty() {
            out.push(dirs[k].clone());
            proof {
                assert(strings_view(out@) =~= strings_view(out@.drop_last()).push(dirs@[k as int]@));
            }
        }
        k += 1;
    }
    proof {
        assert(dirs@.take(k as int) =~= dirs@);
    }
    Some(out)
}

/// What the command line prints after an install or an update.
pub open spec fn installed_message_spec(name: Seq<char>, update: bool) -> Seq<char> {
    if update {
        "✔ Updated "@ + name + "!"@
    } else {
        "🎊 Installed "@ + name + "!"@
    }
}

pub fn installed_message(name: &str, update: bool) -> (r: String)
    ensures
        r@ == installed_message_spec(name@, update),
{
    let mut out = String::new();
    if update {
        push_str(&mut out, "✔ Updated ");
    } else {
        push_str(&mut out, "🎊 Installed ");
    }
    push_str(&mut out, name);
    push_str(&mut out, "!");
    proof {
        assert(out@ =~= installed_message_spec(name@, update));
    }
    out
}

/// What the catalogue holds of an addon's files.
pub struct FileRecord {
    pub version: String,
    pub file_name: Option<String>,
    pub download: Option<String>,
}

/// The stored details of an addon are current when both records exist,
/// the details are of the catalogue's version (a missing version counts as
/// empty), and the file name and download address are known.
pub open spec fn details_current_spec(addon: Option<FileRecord>, detail_version: Option<Option<Seq<char>>>) -> bool {
    match (addon, detail_version) {
        (Some(a), Some(v)) => {
            &&& a.version@ == (match v {
                Some(t) => t,
                None => Seq::empty(),
            })
            &&& a.file_name is Some
            &&& a.download is Some
        },
        _ => false,
    }
}

/// Whether the details of an addon need no download.
pub fn details_current(addon: Option<&FileRecord>, detail_version: Option<Option<&str>>) -> (r: bool)
    ensures
        r == details_current_spec(
            match addon {
                Some(a) => Some(*a),
                None => None,
            },
            match detail_version {
                Some(Some(t)) => Some(Some(t@)),
                Some(None) => Some(None),
                None => None,
            },
        ),
{
    match (addon, detail_version) {
        (Some(a), Some(v)) => {
            let same = match v {
                Some(t) => str_eq(a.version.as_str(), t),
                None => {
                    let e = a.version.as_str().is_empty();
                    proof {
                        if e {
                            assert(a.version@ =~= Seq::<char>::empty());
                        }
                    }
                    e
                },
            };
            same && a.file_name.is_some() && a.download.is_some()
        },
        _ => false,
    }
}

/// The details record written for an addon.
pub struct DetailRow {
    pub id: i32,
    pub description: Option<String>,
    pub change_log: Option<String>,
    pub version: Option<String>,
}

/// What the addon's record learns from its details.
pub struct FileUpdate {
    pub md5: Option<String>,
    pub file_name: Option<String>,
    pub download: Option<String>,
}

/// The records written from downloaded details.
pub fn detail_rows(id: i32, d: &FileDetails) -> (r: (DetailRow, FileUpdate))
    ensures
        r.0.id == id,
        r.0.description matches Some(x) && x@ == d.description@,
        r.0.change_log matches Some(x) && x@ == d.change_log@,
        r.0.version matches Some(x) && x@ == d.version@,
        r.1.md5 matches Some(x) && x@ == d.md5@,
        r.1.file_name matches Some(x) && x@ == d.file_name@,
        r.1.download matches Some(x) && x@ == d.download_url@,
{
    (
        DetailRow {
            id,
            description: Some(d.description.clone()),
            change_log: Some(d.change_log.clone()),
            version: Some(d.version.clone()),
        },
        FileUpdate {
            md5: Some(d.md5.clone()),
            file_name: Some(d.file_name.clone()),
            download: Some(d.download_url.clone()),
        },
    )
}

/// What restoring a backup writes: each list the backup holds replaces the
/// stored one; an empty list leaves the stored one alone. Restored addons
/// get version `0`, so the next check offers to update them.
pub struct RestorePlan {
    pub installed: Option<Vec<InstalledRow>>,
    pub manual: Option<Vec<ManualDependencyRow>>,
}

/// The installed rows as plain values: id, version, date.
pub open spec fn installed_model(v: Seq<InstalledRow>) -> Seq<(i32, Seq<char>, Seq<char>)> {
    v.map_values(|r: InstalledRow| (r.addon_id, r.version@, r.date@))
}

/// The manual dependency rows as plain values: directory, ignore, provider.
pub open spec fn manual_model(v: Seq<ManualDependencyRow>) -> Seq<(Seq<char>, Option<bool>, Option<i32>)> {
    v.map_values(|r: ManualDependencyRow| (r.addon_dir@, r.ignore, r.satisfied_by))
}

/// The installed addons a backup holds: id and date.
pub open spec fn backup_installed(data: BackupData) -> Seq<(i32, Seq<char>)> {
    data.installed_addons@.map_values(|b: crate::service::BackupInstalledAddon| (b.addon_id, b.date@))
}

/// The manual dependencies a backup holds.
pub open spec fn backup_manual(data: BackupData) -> Seq<(Seq<char>, Option<bool>, Option<i32>)> {
    data.manual_dependencies@.map_values(
        |b: crate::service::BackupManualDependency| (b.addon_dir@, b.ignore, b.satisfied_by),
    )
}

/// What a backup of the installed table records of it: each row's id and date.
pub open spec fn backed_up(installed: Seq<(i32, Seq<char>, Seq<char>)>) -> Seq<(i32, Seq<char>)> {
    installed.map_values(|r: (i32, Seq<char>, Seq<char>)| (r.0, r.2))
}

/// Installed rows made from backed-up ones, each with version `0`.
pub open spec fn reset_versions(s: Seq<(i32, Seq<char>)>) -> Seq<(i32, Seq<char>, Seq<char>)> {
    s.map_values(|b: (i32, Seq<char>)| (b.0, "0"@, b.1))
}

/// `plan` is what restoring `data` writes: each non-empty list of the
/// backup, the installed one with versions reset to `0`; nothing for an
/// empty list.
pub open spec fn plans_restore(data: BackupData, plan: RestorePlan) -> bool {
    &&& match plan.installed {
        Some(v) => data.installed_addons@.len() > 0 && installed_model(v@) == reset_versions(backup_installed(data)),
        None => data.installed_addons@.len() == 0,
    }
    &&& match plan.manual {
        Some(v) => data.manual_dependencies@.len() > 0 && manual_model(v@) == backup_manual(data),
        None => data.manual_dependencies@.len() == 0,
    }
}

/// The installed and manual dependency tables once `plan` is written over
/// `installed` and `manual`: a list the plan carries replaces its table,
/// which is emptied first; a table the plan leaves out stays as it is.
pub open spec fn after_restore(
    installed: Seq<(i32, Seq<char>, Seq<char>)>,
    manual: Seq<(Seq<char>, Option<bool>, Option<i32>)>,
    plan: RestorePlan,
) -> (Seq<(i32, Seq<char>, Seq<char>)>, Seq<(Seq<char>, Option<bool>, Option<i32>)>) {
    (
        match plan.installed {
            Some(v) => installed_model(v@),
            None => installed,
        },
        match plan.manual {
            Some(v) => manual_model(v@),
            None => manual,
        },
    )
}

/// Restoring a backup of the tables `saved_installed` and `saved_manual`
/// over the tables `installed` and `manual` leaves the installed table
/// exactly the backed-up addons, each with version `0` and its date, and the
/// manual dependencies exactly those backed up; a table whose backup is
/// empty stays as it is.
pub proof fn lemma_restore_round_trip(
    saved_installed: Seq<(i32, Seq<char>, Seq<char>)>,
    saved_manual: Seq<(Seq<char>, Option<bool>, Option<i32>)>,
    installed: Seq<(i32, Seq<char>, Seq<char>)>,
    manual: Seq<(Seq<char>, Option<bool>, Option<i32>)>,
    data: BackupData,
    plan: RestorePlan,
)
    requires
        backup_installed(data) == backed_up(saved_installed),
        backup_manual(data) == saved_manual,
        plans_restore(data, plan),
    ensures
        after_restore(installed, manual, plan) == (
            if saved_installed.len() > 0 {
                saved_installed.map_values(|r: (i32, Seq<char>, Seq<char>)| (r.0, "0"@, r.2))
            } else {
                installed
            },
            if saved_manual.len() > 0 {
                saved_manual
            } else {
                manual
            },
        ),
{
    assert(backup_installed(data).len() == data.installed_addons@.len());
    assert(backup_manual(data).len() == data.manual_dependencies@.len());
    assert(reset_versions(backed_up(saved_installed)) =~= saved_installed.map_values(
        |r: (i32, Seq<char>, Seq<char>)| (r.0, "0"@, r.2),
    ));
}

pub fn restore_plan(data: &BackupData) -> (r: RestorePlan)
    ensures
        plans_restore(*data, r),
{
    let installed = if data.installed_addons.len() == 0 {
        None
    } else {
        let mut rows: Vec<InstalledRow> = Vec::new();
        let mut k: usize = 0;
        while k < data.installed_addons.len()
            invariant
                k <= data.installed_addons@.len(),
                rows@.len() == k,
                forall|j: int| 0 <= j < k ==> (#[trigger] rows@[j]).addon_id == data.installed_addons@[j].addon_id
                    && rows@[j].version@ == "0"@ && rows@[j].date@ == data.installed_addons@[j].date@,
            decreases data.installed_addons.len() - k,
        {
            let b = &data.installed_addons[k];
            rows.push(InstalledRow { addon_id: b.addon_id, version: "0".to_owned(), date: b.date.clone() });
            k += 1;
        }
        assert(installed_model(rows@) =~= reset_versions(backup_installed(*data)));
        Some(rows)
    };
    let manual = if data.manual_dependencies.len() == 0 {
        None
    } else {
        let mut rows: Vec<ManualDependencyRow> = Vec::new();
        let mut k: usize = 0;
        while k < data.manual_dependencies.len()
            invariant
                k <= data.manual_dependencies@.len(),
                rows@.len() == k,
                forall|j: int| 0 <= j < k ==> (#[trigger] rows@[j]).addon_dir@ == data.manual_dependencies@[j].addon_dir@
                    && rows@[j].satisfied_by == data.manual_dependencies@[j].satisfied_by && rows@[j].ignore
                    == data.manual_dependencies@[j].ignore,
            decreases data.manual_dependencies.len() - k,
        {
            let b = &data.manual_dependencies[k];
            rows.push(ManualDependencyRow { addon_dir: b.addon_dir.clone(), ignore: b.ignore, satisfied_by: b.satisfied_by });
            k += 1;
        }
        assert(manual_model(rows@) =~= backup_manual(*data));
        Some(rows)
    };
    RestorePlan { installed, manual }
}

} // verus!
