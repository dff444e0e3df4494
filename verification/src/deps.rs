//! How the dependencies of an addon stand, and what to record when the
//! user settles missing ones: the decisions of the addon service, taken on
//! rows it has read and giving rows it will write.

use vstd::prelude::*;
use crate::service::MissingDepView;
use crate::text::str_eq;

verus! {

/// An addon by id and name.
pub struct AddonRef {
    pub id: i32,
    pub name: String,
}

/// How one dependency directory is provided.
pub enum Resolution {
    /// An installed addon provides it.
    Installed(AddonRef),
    /// The user chose an addon that provides it.
    SatisfiedBy(AddonRef),
    /// The user chose to go without it.
    Ignored,
    /// Nothing provides it yet; these addons could.
    Unresolved { suggestions: Vec<AddonRef> },
}

/// A dependency directory and how it stands.
pub struct DepStatus {
    pub dep_dir: String,
    pub resolution: Resolution,
}

/// The dependencies of an addon, the installed addons that depend on it,
/// and every installed addon.
pub struct AddonDependencyView {
    pub forward: Vec<DepStatus>,
    pub dependents: Vec<AddonRef>,
    pub installed_addons: Vec<AddonRef>,
}

/// A user's choice for a dependency directory, as it is stored.
pub struct ManualDependencyRow {
    pub addon_dir: String,
    pub ignore: Option<bool>,
    pub satisfied_by: Option<i32>,
}

/// An addon reference as plain values.
pub open spec fn ref_model(r: AddonRef) -> (i32, Seq<char>) {
    (r.id, r.name@)
}

pub open spec fn refs_model(s: Seq<AddonRef>) -> Seq<(i32, Seq<char>)> {
    s.map_values(|r: AddonRef| ref_model(r))
}

/// Model of a resolution.
pub enum SpecResolution {
    Installed((i32, Seq<char>)),
    SatisfiedBy((i32, Seq<char>)),
    Ignored,
    Unresolved(Seq<(i32, Seq<char>)>),
}

pub open spec fn resolution_model(r: Resolution) -> SpecResolution {
    match r {
        Resolution::Installed(a) => SpecResolution::Installed(ref_model(a)),
        Resolution::SatisfiedBy(a) => SpecResolution::SatisfiedBy(ref_model(a)),
        Resolution::Ignored => SpecResolution::Ignored,
        Resolution::Unresolved { suggestions } => SpecResolution::Unresolved(refs_model(suggestions@)),
    }
}

pub open spec fn statuses_model(s: Seq<DepStatus>) -> Seq<(Seq<char>, SpecResolution)> {
    s.map_values(|d: DepStatus| (d.dep_dir@, resolution_model(d.resolution)))
}

/// The installed owner of `dir` among the first `k` owner rows: the last
/// row for it, as collecting the rows into a map keeps.
pub open spec fn owner_of(owners: Seq<(String, AddonRef)>, dir: Seq<char>, k: int) -> Option<(i32, Seq<char>)>
    decreases k,
{
    if k <= 0 || k > owners.len() {
        None
    } else if owners[k - 1].0@ == dir {
        Some(ref_model(owners[k - 1].1))
    } else {
        owner_of(owners, dir, k - 1)
    }
}

/// The first stored choice for `dir`, from row `k` on.
pub open spec fn manual_for(rows: Seq<ManualDependencyRow>, dir: Seq<char>, k: int) -> Option<ManualDependencyRow>
    decreases rows.len() - k,
{
    if k < 0 || k >= rows.len() {
        None
    } else if rows[k].addon_dir@ == dir {
        Some(rows[k])
    } else {
        manual_for(rows, dir, k + 1)
    }
}

/// The name of addon `id` among the first `k` name rows (the last row for
/// it), or empty.
pub open spec fn name_of(names: Seq<(i32, String)>, id: i32, k: int) -> Seq<char>
    decreases k,
{
    if k <= 0 || k > names.len() {
        Seq::empty()
    } else if names[k - 1].0 == id {
        names[k - 1].1@
    } else {
        name_of(names, id, k - 1)
    }
}

/// The suggestions for `dir` among the first `k` suggestion rows, in order.
pub open spec fn suggestions_for(rows: Seq<(String, AddonRef)>, dir: Seq<char>, k: int) -> Seq<(i32, Seq<char>)>
    decreases k,
{
    if k <= 0 || k > rows.len() {
        Seq::empty()
    } else if rows[k - 1].0@ == dir {
        suggestions_for(rows, dir, k - 1).push(ref_model(rows[k - 1].1))
    } else {
        suggestions_for(rows, dir, k - 1)
    }
}

/// Whether `dir` occurs among the first `k` directories.
pub open spec fn seen_before(dirs: Seq<String>, dir: Seq<char>, k: int) -> bool {
    exists|j: int| 0 <= j < k && (#[trigger] dirs[j])@ == dir
}

/// How the `k`-th dependency directory stands: provided by an installed
/// addon; else as the user chose (ignored, or satisfied by an addon);
/// else unresolved, with the suggestions for it (handed out only once per
/// directory).
pub open spec fn resolution_spec(
    dirs: Seq<String>,
    k: int,
    owners: Seq<(String, AddonRef)>,
    manual: Seq<ManualDependencyRow>,
    names: Seq<(i32, String)>,
    sugg: Seq<(String, AddonRef)>,
) -> SpecResolution {
    let dir = dirs[k]@;
    let unresolved = SpecResolution::Unresolved(
        if seen_before(dirs, dir, k) { Seq::empty() } else { suggestions_for(sugg, dir, sugg.len() as int) },
    );
    match owner_of(owners, dir, owners.len() as int) {
        Some(o) => SpecResolution::Installed(o),
        None => match manual_for(manual, dir, 0) {
            Some(m) => if m.ignore == Some(true) {
                SpecResolution::Ignored
            } else {
                match m.satisfied_by {
                    Some(id) => SpecResolution::SatisfiedBy((id, name_of(names, id, names.len() as int))),
                    None => unresolved,
                }
            },
            None => unresolved,
        },
    }
}

fn copy_ref(r: &AddonRef) -> (c: AddonRef)
    ensures
        ref_model(c) == ref_model(*r),
{
    AddonRef { id: r.id, name: r.name.clone() }
}

fn find_owner(owners: &Vec<(String, AddonRef)>, dir: &String) -> (r: Option<AddonRef>)
    ensures
        match r {
            Some(a) => owner_of(owners@, dir@, owners@.len() as int) == Some(ref_model(a)),
            None => owner_of(owners@, dir@, owners@.len() as int) is None,
        },
{
    let mut k = owners.len();
    while k > 0
        invariant
            k <= owners@.len(),
            owner_of(owners@, dir@, owners@.len() as int) == owner_of(owners@, dir@, k as int),
        decreases k,
    {
        if str_eq(owners[k - 1].0.as_str(), dir.as_str()) {
            return Some(copy_ref(&owners[k - 1].1));
        }
        k -= 1;
    }
    None
}

fn find_manual(rows: &Vec<ManualDependencyRow>, dir: &String) -> (r: Option<usize>)
    ensures
        match r {
            Some(i) => i < rows@.len() && manual_for(rows@, dir@, 0) == Some(rows@[i as int]),
            None => manual_for(rows@, dir@, 0) is None,
        },
{
    let mut k: usize = 0;
    while k < rows.len()
        invariant
            k <= rows@.len(),
            manual_for(rows@, dir@, 0) == manual_for(rows@, dir@, k as int),
        decreases rows.len() - k,
    {
        if str_eq(rows[k].addon_dir.as_str(), dir.as_str()) {
            return Some(k);
        }
        k += 1;
    }
    None
}

fn find_name(names: &Vec<(i32, String)>, id: i32) -> (r: String)
    ensures
        r@ == name_of(names@, id, names@.len() as int),
{
    let mut k = names.len();
    while k > 0
        invariant
            k <= names@.len(),
            name_of(names@, id, names@.len() as int) == name_of(names@, id, k as int),
        decreases k,
    {
        if names[k - 1].0 == id {
            return names[k - 1].1.clone();
        }
        k -= 1;
    }
    String::new()
}

fn collect_suggestions(rows: &Vec<(String, AddonRef)>, dir: &String) -> (r: Vec<AddonRef>)
    ensures
        refs_model(r@) == suggestions_for(rows@, dir@, rows@.len() as int),
{
    let mut out: Vec<AddonRef> = Vec::new();
    let mut k: usize = 0;
    while k < rows.len()
        invariant
            k <= rows@.len(),
            refs_model(out@) == suggestions_for(rows@, dir@, k as int),
        decreases rows.len() - k,
    {
        if str_eq(rows[k].0.as_str(), dir.as_str()) {
            let c = copy_ref(&rows[k].1);
            out.push(c);
            proof {
                assert(refs_model(out@) =~= suggestions_for(rows@, dir@, k as int).push(ref_model(c)));
            }
        }
        k += 1;
    }
    out
}

/// How each dependency directory of an addon stands, given what the store
/// holds: which installed addon owns which directory, the stored choices,
/// the names of chosen addons, and the suggestion rows in the order they
/// rank.
pub fn resolve_dependencies(
    dep_dirs: &Vec<String>,
    owners: &Vec<(String, AddonRef)>,
    manual: &Vec<ManualDependencyRow>,
    names: &Vec<(i32, String)>,
    suggestions: &Vec<(String, AddonRef)>,
) -> (r: Vec<DepStatus>)
    ensures
        r@.len() == dep_dirs@.len(),
        forall|k: int| 0 <= k < dep_dirs@.len() ==> statuses_model(r@)[k] == (
            #[trigger] dep_dirs@[k]@,
            resolution_spec(dep_dirs@, k, owners@, manual@, names@, suggestions@),
        ),
{
    let mut out: Vec<DepStatus> = Vec::new();
    let mut k: usize = 0;
    while k < dep_dirs.len()
        invariant
            k <= dep_dirs@.len(),
            out@.len() == k,
            forall|j: int| 0 <= j < k ==> statuses_model(out@)[j] == (
                #[trigger] dep_dirs@[j]@,
                resolution_spec(dep_dirs@, j, owners@, manual@, names@, suggestions@),
            ),
        decreases dep_dirs.len() - k,
    {
        let dir = &dep_dirs[k];
        let mut seen = false;
        let mut j: usize = 0;
        while j < k
            invariant
                j <= k,
                k < dep_dirs@.len(),
                dir == dep_dirs@[k as int],
                seen == exists|i: int| 0 <= i < j && (#[trigger] dep_dirs@[i])@ == dir@,
            decreases k - j,
        {
            if str_eq(dep_dirs[j].as_str(), dir.as_str()) {
                seen = true;
            }
            j += 1;
        }
        let resolution = match find_owner(owners, dir) {
            Some(o) => Resolution::Installed(o),
            None => {
                let unresolved = if seen {
                    let e: Vec<AddonRef> = Vec::new();
                    assert(refs_model(e@) =~= Seq::<(i32, Seq<char>)>::empty());
                    e
                } else {
                    collect_suggestions(suggestions, dir)
                };
                match find_manual(manual, dir) {
                    Some(i) => {
                        let ignored = match manual[i].ignore {
                            Some(b) => b,
                            None => false,
                        };
                        if ignored {
                            Resolution::Ignored
                        } else {
                            match manual[i].satisfied_by {
                                Some(id) => Resolution::SatisfiedBy(AddonRef { id, name: find_name(names, id) }),
                                None => Resolution::Unresolved { suggestions: unresolved },
                            }
                        }
                    },
                    None => Resolution::Unresolved { suggestions: unresolved },
                }
            },
        };
        proof {
            assert(seen == seen_before(dep_dirs@, dir@, k as int));
            assert(refs_model(Seq::<AddonRef>::empty()) =~= Seq::<(i32, Seq<char>)>::empty());
            assert(resolution_model(resolution) == resolution_spec(dep_dirs@, k as int, owners@, manual@, names@, suggestions@));
        }
        let ghost before = out@;
        out.push(DepStatus { dep_dir: dir.clone(), resolution });
        proof {
            assert(out@ == before.push(out@[k as int]));
            assert forall|i: int| 0 <= i < k + 1 implies statuses_model(out@)[i] == (
                #[trigger] dep_dirs@[i]@,
                resolution_spec(dep_dirs@, i, owners@, manual@, names@, suggestions@),
            ) by {
                if i < k {
                    assert(out@[i] == before[i]);
                    assert(statuses_model(out@)[i] == statuses_model(before)[i]);
                } else {
                    if !seen {
                        assert(refs_model(Seq::<AddonRef>::empty()) =~= Seq::<(i32, Seq<char>)>::empty());
                    }
                }
            }
        }
        k += 1;
    }
    out
}

/// What settling missing dependencies does: the choice to store for each
/// directory, and the chosen addons to install (those offered as options,
/// which are the ones not installed yet).
pub struct DependencyPlan {
    pub rows: Vec<ManualDependencyRow>,
    pub installs: Vec<i32>,
}

/// The addons to install, in order, for the choices `views`.
pub open spec fn plan_installs(views: Seq<MissingDepView>) -> Seq<i32>
    decreases views.len(),
{
    if views.len() == 0 {
        Seq::empty()
    } else {
        let rest = plan_installs(views.drop_last());
        let v = views.last();
        match v.satisfied_by {
            Some(id) => if v.options@.contains_key(id) {
                rest.push(id)
            } else {
                rest
            },
            None => rest,
        }
    }
}

/// Plans storing the user's choices for missing dependencies.
pub fn plan_missing_dependencies(views: &Vec<MissingDepView>) -> (p: DependencyPlan)
    ensures
        p.rows@.len() == views@.len(),
        forall|k: int| 0 <= k < views@.len() ==> {
            &&& (#[trigger] p.rows@[k]).addon_dir@ == views@[k].missing_dir@
            &&& p.rows@[k].ignore == Some(views@[k].ignore)
            &&& p.rows@[k].satisfied_by == views@[k].satisfied_by
        },
        p.installs@ == plan_installs(views@),
{
    broadcast use vstd::std_specs::hash::group_hash_axioms;
    let mut rows: Vec<ManualDependencyRow> = Vec::new();
    let mut installs: Vec<i32> = Vec::new();
    let mut k: usize = 0;
    while k < views.len()
        invariant
            k <= views@.len(),
            rows@.len() == k,
            forall|j: int| 0 <= j < k ==> {
                &&& (#[trigger] rows@[j]).addon_dir@ == views@[j].missing_dir@
                &&& rows@[j].ignore == Some(views@[j].ignore)
                &&& rows@[j].satisfied_by == views@[j].satisfied_by
            },
            installs@ == plan_installs(views@.take(k as int)),
        decreases views.len() - k,
    {
        let v = &views[k];
        proof {
            assert(views@.take(k + 1).drop_last() =~= views@.take(k as int));
            assert(views@.take(k + 1).last() == views@[k as int]);
        }
        if let Some(id) = v.satisfied_by {
            if v.options.contains_key(&id) {
                installs.push(id);
            }
        }
        rows.push(ManualDependencyRow { addon_dir: v.missing_dir.clone(), ignore: Some(v.ignore), satisfied_by: v.satisfied_by });
        k += 1;
    }
    proof {
        assert(views@.take(k as int) =~= views@);
    }
    DependencyPlan { rows, installs }
}

/// The stored choice that the dependency in `dir` goes without.
pub fn ignored_row(dir: String) -> (r: ManualDependencyRow)
    ensures
        r.addon_dir == dir,
        r.ignore == Some(true),
        r.satisfied_by is None,
{
    ManualDependencyRow { addon_dir: dir, ignore: Some(true), satisfied_by: None }
}

/// The stored choice that addon `id` provides the dependency in `dir`.
pub fn satisfied_row(dir: String, id: i32) -> (r: ManualDependencyRow)
    ensures
        r.addon_dir == dir,
        r.ignore == Some(false),
        r.satisfied_by == Some(id),
{
    ManualDependencyRow { addon_dir: dir, ignore: Some(false), satisfied_by: Some(id) }
}

/// The stored choices that remain when addon `id` is removed: those that
/// named it as the provider go.
pub open spec fn rows_without_provider(rows: Seq<ManualDependencyRow>, id: i32) -> Seq<ManualDependencyRow> {
    rows.filter(|r: ManualDependencyRow| r.satisfied_by != Some(id))
}

pub fn remove_provider_rows(rows: Vec<ManualDependencyRow>, id: i32) -> (r: Vec<ManualDependencyRow>)
    ensures
        r@ == rows_without_provider(rows@, id),
{
    let mut out: Vec<ManualDependencyRow> = Vec::new();
    let mut rows = rows;
    let ghost all = rows@;
    let n = rows.len();
    let mut k: usize = 0;
    proof {
        assert(all.take(0) =~= Seq::<ManualDependencyRow>::empty());
        assert(rows@ =~= all.skip(0));
    }
    while rows.len() > 0
        invariant
            n == all.len(),
            rows@.len() <= n,
            k == n - rows@.len(),
            rows@ == all.skip(k as int),
            out@ == rows_without_provider(all.take(k as int), id),
        decreases rows.len(),
    {
        let r = rows.remove(0);
        proof {
            assert(all.skip(k as int)[0] == all[k as int]);
            assert(all.take(k + 1) =~= all.take(k as int).push(all[k as int]));
            all.take(k as int).lemma_filter_push(all[k as int], |r: ManualDependencyRow| r.satisfied_by != Some(id));
            assert(rows@ =~= all.skip(k + 1));
        }
        if r.satisfied_by != Some(id) {
            out.push(r);
        }
        k += 1;
    }
    proof {
        assert(all.take(n as int) =~= all);
    }
    out
}

} // verus!
