//! Records the addon service hands to its views.

use std::collections::HashMap;
use vstd::prelude::*;
use crate::cli::{int_text, int_to_string};
use crate::config::Timestamp;
use crate::text::{char_pieces, parse_i32, parse_i32_spec, split_char, str_eq, strings_view, trim, trim_spec};

verus! {

/// A dependency directory that no installed addon provides, with the
/// addons that could provide it.
pub struct MissingDepView {
    pub missing_dir: String,
    pub required_by: String,
    pub options: HashMap<i32, String>,
    pub ignore: bool,
    pub satisfied_by: Option<i32>,
}

impl MissingDepView {
    /// An entry for a dependency of `required_by`, with no options yet.
    pub fn new(required_by: String) -> (r: MissingDepView)
        ensures
            r.required_by == required_by,
            r.missing_dir@ == Seq::<char>::empty(),
            r.options@ == Map::<i32, String>::empty(),
            !r.ignore,
            r.satisfied_by is None,
    {
        MissingDepView {
            missing_dir: String::new(),
            required_by,
            options: HashMap::new(),
            ignore: false,
            satisfied_by: None,
        }
    }
}

/// An addon of the catalogue as a search lists it.
#[derive(Debug)]
pub struct SearchDbAddon {
    pub id: i32,
    pub category_id: String,
    pub version: String,
    pub name: String,
    pub installed: bool,
}

/// An addon of the catalogue with its installed state.
#[derive(Clone)]
pub struct AddonDetails {
    pub id: i32,
    pub category_id: String,
    pub version: String,
    pub name: String,
    pub installed: bool,
}

/// Everything a view shows of an addon.
#[derive(Clone, Debug)]
pub struct AddonShowDetails {
    pub id: i32,
    pub name: String,
    pub author_name: String,
    pub category: String,
    pub version: String,
    pub date: String,
    pub installed: bool,
    pub installed_version: Option<String>,
    pub download_total: Option<String>,
    pub download_monthly: Option<String>,
    pub favorite_total: Option<String>,
    pub file_info_url: String,
    pub download: Option<String>,
    pub file_name: Option<String>,
    pub md5: Option<String>,
    pub description: Option<String>,
    pub change_log: Option<String>,
    pub game_compat_version: Option<String>,
    pub game_compat_name: Option<String>,
    pub category_icon: Option<String>,
}

/// An installed addon can be upgraded when the installed version differs
/// from the catalogue's (a missing installed version counts as empty).
pub open spec fn upgradable(a: AddonShowDetails) -> bool {
    a.installed && match a.installed_version {
        Some(v) => v@ != a.version@,
        None => a.version@.len() != 0,
    }
}

impl AddonShowDetails {
    /// Whether the installed copy differs from the catalogue version.
    pub fn is_upgradable(&self) -> (r: bool)
        ensures
            r == upgradable(*self),
    {
        if !self.installed {
            return false;
        }
        match &self.installed_version {
            Some(v) => !str_eq(v.as_str(), self.version.as_str()),
            None => !self.version.as_str().is_empty(),
        }
    }
}

/// The addons a run of updates touched.
#[derive(Clone)]
pub struct UpdateResult {
    pub addons_updated: Vec<AddonDetails>,
}

/// A catalogue category with the number of files in it.
#[derive(Clone)]
pub struct CategoryResult {
    pub id: i32,
    pub title: String,
    pub file_count: Option<i32>,
}

/// One screenshot of an addon.
#[derive(Clone)]
pub struct AddonImageResult {
    pub index: i32,
    pub thumbnail: String,
    pub image: String,
}

/// One way of providing a missing dependency directory.
#[derive(Clone)]
pub struct AddonDepOption {
    pub missing_dir: String,
    pub required_by: String,
    pub option_id: Option<i32>,
    pub option_name: Option<String>,
}

/// An installed addon as a backup records it.
#[derive(Clone, Debug)]
pub struct BackupInstalledAddon {
    pub addon_id: i32,
    pub date: String,
}

/// A choice made for a missing dependency, as a backup records it.
#[derive(Clone, Debug)]
pub struct BackupManualDependency {
    pub addon_dir: String,
    pub satisfied_by: Option<i32>,
    pub ignore: Option<bool>,
}

/// What a backup file holds.
pub struct BackupData {
    pub installed_addons: Vec<BackupInstalledAddon>,
    pub manual_dependencies: Vec<BackupManualDependency>,
}

/// How an addon is named in messages: `Name (#id)`, or `addon id` when its
/// name is not known.
pub open spec fn addon_label_spec(name: Option<Seq<char>>, id: i32) -> Seq<char> {
    match name {
        Some(n) => n + " (#"@ + int_text(id as int) + ")"@,
        None => "addon "@ + int_text(id as int),
    }
}

/// How an addon is named in messages.
pub fn addon_label(name: Option<&str>, id: i32) -> (r: String)
    ensures
        r@ == addon_label_spec(
            match name {
                Some(n) => Some(n@),
                None => None,
            },
            id,
        ),
{
    let digits = int_to_string(id);
    match name {
        Some(n) => {
            let mut out = n.to_owned();
            out.append(" (#");
            out.append(digits.as_str());
            out.append(")");
            out
        },
        None => {
            let mut out = "addon ".to_owned();
            out.append(digits.as_str());
            out
        },
    }
}

/// The addon id a piece of a Minion backup names, read as `str::parse`
/// reads it after white space is trimmed off.
pub open spec fn minion_id(p: Seq<char>) -> Option<i32> {
    parse_i32_spec(trim_spec(vstd::utf8::encode_utf8(p)))
}

/// The ids the non-empty pieces name, in order.
pub open spec fn minion_ids(ps: Seq<Seq<char>>) -> Seq<i32>
    decreases ps.len(),
{
    if ps.len() == 0 {
        Seq::empty()
    } else {
        let rest = minion_ids(ps.drop_last());
        if ps.last().len() == 0 {
            rest
        } else {
            match minion_id(ps.last()) {
                Some(n) => rest.push(n),
                None => rest,
            }
        }
    }
}

/// The non-empty pieces that name no id, in order.
pub open spec fn minion_skipped(ps: Seq<Seq<char>>) -> Seq<Seq<char>>
    decreases ps.len(),
{
    if ps.len() == 0 {
        Seq::empty()
    } else {
        let rest = minion_skipped(ps.drop_last());
        if ps.last().len() > 0 && minion_id(ps.last()) is None {
            rest.push(ps.last())
        } else {
            rest
        }
    }
}

/// What a Minion backup line names: the addon ids to install, and the
/// pieces skipped because they name none.
pub struct MinionBackup {
    pub ids: Vec<i32>,
    pub skipped: Vec<String>,
}

/// Reads a Minion backup line: addon ids separated by commas, empty
/// pieces ignored, white space around an id allowed.
pub fn parse_minion_backup(line: &str) -> (r: MinionBackup)
    ensures
        r.ids@ == minion_ids(char_pieces(line@, ',')),
        strings_view(r.skipped@) == minion_skipped(char_pieces(line@, ',')),
{
    let pieces = split_char(line, ',');
    let ghost ps = strings_view(pieces@);
    let mut ids: Vec<i32> = Vec::new();
    let mut skipped: Vec<String> = Vec::new();
    let mut k: usize = 0;
    while k < pieces.len()
        invariant
            k <= pieces@.len(),
            ps == strings_view(pieces@),
            ids@ == minion_ids(ps.take(k as int)),
            strings_view(skipped@) == minion_skipped(ps.take(k as int)),
        decreases pieces.len() - k,
    {
        let p = &pieces[k];
        proof {
            assert(ps.take(k + 1).drop_last() =~= ps.take(k as int));
            assert(ps.take(k + 1).last() == p@);
        }
        if !p.as_str().is_empty() {
            let t = trim(p.as_str());
            match parse_i32(t) {
                Some(n) => {
                    ids.push(n);
                },
                None => {
                    skipped.push(p.clone());
                    proof {
                        assert(strings_view(skipped@) =~= strings_view(skipped@.drop_last()).push(p@));
                    }
                },
            }
        } else {
            proof {
                assert(p@.len() == 0);
            }
        }
        k += 1;
    }
    proof {
        assert(ps.take(k as int) =~= ps);
    }
    MinionBackup { ids, skipped }
}

/// The context of a failed install or update of an addon.
pub open spec fn install_error_context_spec(update: bool, label: Seq<char>) -> Seq<char> {
    "Error "@ + (if update { "updating"@ } else { "installing"@ }) + " "@ + label
}

pub fn install_error_context(update: bool, label: &str) -> (r: String)
    ensures
        r@ == install_error_context_spec(update, label@),
{
    let mut out = "Error ".to_owned();
    if update {
        out.append("updating");
    } else {
        out.append("installing");
    }
    out.append(" ");
    out.append(label);
    out
}

/// An error the service met: when, what it was doing, and the message.
pub struct ErrorRecord {
    pub timestamp: Timestamp,
    pub context: String,
    pub message: String,
}

pub open spec fn record_model(r: ErrorRecord) -> (Timestamp, Seq<char>, Seq<char>) {
    (r.timestamp, r.context@, r.message@)
}

pub open spec fn records_model(s: Seq<ErrorRecord>) -> Seq<(Timestamp, Seq<char>, Seq<char>)> {
    s.map_values(|r: ErrorRecord| record_model(r))
}

/// The errors recorded so far, oldest first.
pub struct ErrorLog {
    records: Vec<ErrorRecord>,
}

impl View for ErrorLog {
    type V = Seq<(Timestamp, Seq<char>, Seq<char>)>;

    closed spec fn view(&self) -> Seq<(Timestamp, Seq<char>, Seq<char>)> {
        records_model(self.records@)
    }
}

impl ErrorLog {
    pub fn new() -> (l: ErrorLog)
        ensures
            l@ == Seq::<(Timestamp, Seq<char>, Seq<char>)>::empty(),
    {
        let l = ErrorLog { records: Vec::new() };
        proof {
            assert(l@ =~= Seq::<(Timestamp, Seq<char>, Seq<char>)>::empty());
        }
        l
    }

    /// Records an error at `timestamp`.
    pub fn record(&mut self, timestamp: Timestamp, context: String, message: String)
        ensures
            final(self)@ == old(self)@.push((timestamp, context@, message@)),
    {
        let r = ErrorRecord { timestamp, context, message };
        self.records.push(r);
        proof {
            assert(self@ =~= old(self)@.push((timestamp, context@, message@)));
        }
    }

    /// A copy of the errors recorded.
    pub fn errors(&self) -> (r: Vec<ErrorRecord>)
        ensures
            records_model(r@) == self@,
    {
        let mut out: Vec<ErrorRecord> = Vec::new();
        let mut k: usize = 0;
        while k < self.records.len()
            invariant
                k <= self.records@.len(),
                records_model(out@) == records_model(self.records@.take(k as int)),
            decreases self.records.len() - k,
        {
            let e = &self.records[k];
            let ghost prev = out@;
            let c = ErrorRecord { timestamp: e.timestamp, context: e.context.clone(), message: e.message.clone() };
            assert(record_model(c) == record_model(self.records@[k as int]));
            out.push(c);
            proof {
                assert(self.records@.take(k + 1) =~= self.records@.take(k as int).push(self.records@[k as int]));
                assert(records_model(out@) =~= records_model(prev).push(record_model(c)));
                assert(records_model(self.records@.take(k + 1)) =~= records_model(self.records@.take(k as int)).push(
                    record_model(self.records@[k as int])));
            }
            k += 1;
        }
        proof {
            assert(self.records@.take(k as int) =~= self.records@);
        }
        out
    }

    pub fn len(&self) -> (n: usize)
        ensures
            n == self@.len(),
    {
        self.records.len()
    }

    /// Forgets every error recorded.
    pub fn clear(&mut self)
        ensures
            final(self)@ == Seq::<(Timestamp, Seq<char>, Seq<char>)>::empty(),
    {
        self.records = Vec::new();
        proof {
            assert(self@ =~= Seq::<(Timestamp, Seq<char>, Seq<char>)>::empty());
        }
    }
}

/// Copies the details of an addon.
pub(crate) fn copy_show_details(a: &AddonShowDetails) -> (r: AddonShowDetails)
    ensures
        r == *a,
{
    AddonShowDetails {
        id: a.id,
        name: a.name.clone(),
        author_name: a.author_name.clone(),
        category: a.category.clone(),
        version: a.version.clone(),
        date: a.date.clone(),
        installed: a.installed,
        installed_version: copy_opt(&a.installed_version),
        download_total: copy_opt(&a.download_total),
        download_monthly: copy_opt(&a.download_monthly),
        favorite_total: copy_opt(&a.favorite_total),
        file_info_url: a.file_info_url.clone(),
        download: copy_opt(&a.download),
        file_name: copy_opt(&a.file_name),
        md5: copy_opt(&a.md5),
        description: copy_opt(&a.description),
        change_log: copy_opt(&a.change_log),
        game_compat_version: copy_opt(&a.game_compat_version),
        game_compat_name: copy_opt(&a.game_compat_name),
        category_icon: copy_opt(&a.category_icon),
    }
}

fn copy_opt(o: &Option<String>) -> (r: Option<String>)
    ensures
        r == *o,
{
    match o {
        Some(s) => Some(s.clone()),
        None => None,
    }
}

/// A parent category with its child categories.
pub struct ParentCategory {
    pub id: i32,
    pub title: String,
    pub child_categories: Vec<CategoryResult>,
}

/// The pattern a name search matches with: the text anywhere in the name.
pub fn search_pattern(s: &str) -> (r: String)
    ensures
        r@ == "%"@ + s@ + "%"@,
{
    let mut out = "%".to_owned();
    out.append(s);
    out.append("%");
    out
}

} // verus!
