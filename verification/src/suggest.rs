//! Which dependency directories the installed addons miss, and the addons
//! that could provide each one, best first: the decisions the addon store
//! takes over its dependency, directory and addon rows.

use vstd::prelude::*;
use crate::order::{chars_eq, chars_lt, lemma_seq_lt_asym, lemma_seq_lt_irreflexive, lemma_seq_lt_total, lemma_seq_lt_transitive, seq_lt};
use crate::service::AddonDepOption;
use crate::deps::AddonRef;
use crate::basic::{kbefore, kkey_lt, sort_keyed, Keyed};
use crate::text::{push_str, str_chars, str_eq};
use crate::config::{find_key, keyed_map, unique_keys};

verus! {

/// A directory an addon depends on.
pub struct DependencyRow {
    pub addon_id: i32,
    pub dependency_dir: String,
}

/// A directory an addon ships.
pub struct DirRow {
    pub addon_id: i32,
    pub dir: String,
}

/// An addon of the catalogue with what suggestions are ranked by: its
/// monthly downloads and its date, as the numbers the store reads them as.
pub struct AddonRow {
    pub id: i32,
    pub name: String,
    pub download_monthly: i64,
    pub date: i64,
}

/// The position of the first catalogue row of addon `id` from `k` on, or -1.
pub open spec fn addon_index(addons: Seq<AddonRow>, id: i32, k: int) -> int
    decreases addons.len() - k,
{
    if k < 0 || k >= addons.len() {
        -1
    } else if addons[k].id == id {
        k
    } else {
        addon_index(addons, id, k + 1)
    }
}

/// The catalogue row of addon `id`, if there is one.
pub open spec fn addon_of(addons: Seq<AddonRow>, id: i32) -> Option<AddonRow> {
    let i = addon_index(addons, id, 0);
    if i >= 0 {
        Some(addons[i])
    } else {
        None
    }
}

/// A dependency row that counts: its addon is installed and in the catalogue.
pub open spec fn counts(installed: Seq<i32>, addons: Seq<AddonRow>, n: DependencyRow) -> bool {
    installed.contains(n.addon_id) && addon_of(addons, n.addon_id) is Some
}

/// Some installed addon ships directory `d`.
pub open spec fn owned_by_installed(installed: Seq<i32>, dirs: Seq<DirRow>, d: Seq<char>) -> bool {
    exists|j: int| 0 <= j < dirs.len() && (#[trigger] dirs[j]).dir@ == d && installed.contains(dirs[j].addon_id)
}

/// The user settled directory `d` by hand.
pub open spec fn settled(manual: Seq<String>, d: Seq<char>) -> bool {
    exists|j: int| 0 <= j < manual.len() && (#[trigger] manual[j])@ == d
}

/// Directory `d` is missing: an installed addon depends on it, no installed
/// addon ships it, and the user has not settled it.
pub open spec fn is_missing(
    installed: Seq<i32>,
    addons: Seq<AddonRow>,
    deps: Seq<DependencyRow>,
    dirs: Seq<DirRow>,
    manual: Seq<String>,
    d: Seq<char>,
) -> bool {
    &&& exists|j: int| 0 <= j < deps.len() && (#[trigger] deps[j]).dependency_dir@ == d && counts(installed, addons, deps[j])
    &&& !owned_by_installed(installed, dirs, d)
    &&& !settled(manual, d)
}

/// The missing directories among the first `k` dependency rows, each once,
/// in the order they first occur.
pub open spec fn missing_dirs_spec(
    installed: Seq<i32>,
    addons: Seq<AddonRow>,
    deps: Seq<DependencyRow>,
    dirs: Seq<DirRow>,
    manual: Seq<String>,
    k: int,
) -> Seq<Seq<char>>
    decreases k,
{
    if k <= 0 || k > deps.len() {
        Seq::empty()
    } else {
        let prev = missing_dirs_spec(installed, addons, deps, dirs, manual, k - 1);
        let n = deps[k - 1];
        let d = n.dependency_dir@;
        if counts(installed, addons, n) && !owned_by_installed(installed, dirs, d) && !settled(manual, d) && !prev.contains(d) {
            prev.push(d)
        } else {
            prev
        }
    }
}

/// The names of the installed addons that depend on `d`, among the first
/// `k` dependency rows, in row order.
pub open spec fn requirers(installed: Seq<i32>, addons: Seq<AddonRow>, deps: Seq<DependencyRow>, d: Seq<char>, k: int) -> Seq<Seq<char>>
    decreases k,
{
    if k <= 0 || k > deps.len() {
        Seq::empty()
    } else {
        let prev = requirers(installed, addons, deps, d, k - 1);
        let n = deps[k - 1];
        if n.dependency_dir@ == d && counts(installed, addons, n) {
            prev.push(addon_of(addons, n.addon_id)->0.name@)
        } else {
            prev
        }
    }
}

/// Names joined by `, `.
pub open spec fn join_names(s: Seq<Seq<char>>) -> Seq<char>
    decreases s.len(),
{
    if s.len() == 0 {
        Seq::empty()
    } else if s.len() == 1 {
        s[0]
    } else {
        join_names(s.drop_last()) + ", "@ + s.last()
    }
}

fn is_installed(installed: &Vec<i32>, id: i32) -> (r: bool)
    ensures
        r == installed@.contains(id),
{
    let mut k: usize = 0;
    while k < installed.len()
        invariant
            k <= installed@.len(),
            forall|j: int| 0 <= j < k ==> installed@[j] != id,
        decreases installed.len() - k,
    {
        if installed[k] == id {
            return true;
        }
        k += 1;
    }
    false
}

proof fn lemma_requirers_len(installed: Seq<i32>, addons: Seq<AddonRow>, deps: Seq<DependencyRow>, d: Seq<char>, k: int)
    requires
        0 <= k <= deps.len(),
    ensures
        requirers(installed, addons, deps, d, k).len() <= k,
    decreases k,
{
    if k > 0 {
        lemma_requirers_len(installed, addons, deps, d, k - 1);
    }
}

fn find_addon(addons: &Vec<AddonRow>, id: i32) -> (r: Option<usize>)
    ensures
        match r {
            Some(i) => addon_index(addons@, id, 0) == i && i < addons@.len(),
            None => addon_index(addons@, id, 0) == -1,
        },
{
    let mut k: usize = 0;
    while k < addons.len()
        invariant
            k <= addons@.len(),
            addon_index(addons@, id, 0) == addon_index(addons@, id, k as int),
        decreases addons.len() - k,
    {
        if addons[k].id == id {
            return Some(k);
        }
        k += 1;
    }
    None
}

fn owned_exec(installed: &Vec<i32>, dirs: &Vec<DirRow>, d: &str) -> (r: bool)
    ensures
        r == owned_by_installed(installed@, dirs@, d@),
{
    let mut k: usize = 0;
    while k < dirs.len()
        invariant
            k <= dirs@.len(),
            forall|j: int| 0 <= j < k ==> !((#[trigger] dirs@[j]).dir@ == d@ && installed@.contains(dirs@[j].addon_id)),
        decreases dirs.len() - k,
    {
        if str_eq(dirs[k].dir.as_str(), d) && is_installed(installed, dirs[k].addon_id) {
            return true;
        }
        k += 1;
    }
    false
}

fn settled_exec(manual: &Vec<String>, d: &str) -> (r: bool)
    ensures
        r == settled(manual@, d@),
{
    let mut k: usize = 0;
    while k < manual.len()
        invariant
            k <= manual@.len(),
            forall|j: int| 0 <= j < k ==> (#[trigger] manual@[j])@ != d@,
        decreases manual.len() - k,
    {
        if str_eq(manual[k].as_str(), d) {
            return true;
        }
        k += 1;
    }
    false
}

pub open spec fn strings_model(v: Seq<String>) -> Seq<Seq<char>> {
    v.map_values(|s: String| s@)
}

fn listed(list: &Vec<String>, d: &str) -> (r: bool)
    ensures
        r == strings_model(list@).contains(d@),
{
    let mut k: usize = 0;
    while k < list.len()
        invariant
            k <= list@.len(),
            forall|j: int| 0 <= j < k ==> (#[trigger] list@[j])@ != d@,
        decreases list.len() - k,
    {
        if str_eq(list[k].as_str(), d) {
            proof {
                assert(strings_model(list@)[k as int] == d@);
            }
            return true;
        }
        k += 1;
    }
    proof {
        if strings_model(list@).contains(d@) {
            let j = choose|j: int| 0 <= j < strings_model(list@).len() && strings_model(list@)[j] == d@;
            assert(list@[j]@ == d@);
        }
    }
    false
}

/// The missing dependency directories, each once, in the order the
/// dependency rows first name them.
pub fn missing_dirs(
    installed: &Vec<i32>,
    addons: &Vec<AddonRow>,
    deps: &Vec<DependencyRow>,
    dirs: &Vec<DirRow>,
    manual: &Vec<String>,
) -> (r: Vec<String>)
    ensures
        strings_model(r@) == missing_dirs_spec(installed@, addons@, deps@, dirs@, manual@, deps@.len() as int),
{
    let mut out: Vec<String> = Vec::new();
    let mut k: usize = 0;
    proof {
        assert(strings_model(out@) =~= Seq::<Seq<char>>::empty());
    }
    while k < deps.len()
        invariant
            k <= deps@.len(),
            strings_model(out@) == missing_dirs_spec(installed@, addons@, deps@, dirs@, manual@, k as int),
        decreases deps.len() - k,
    {
        let n = &deps[k];
        let d = n.dependency_dir.as_str();
        let counted = is_installed(installed, n.addon_id) && find_addon(addons, n.addon_id).is_some();
        if counted && !owned_exec(installed, dirs, d) && !settled_exec(manual, d) && !listed(&out, d) {
            let ghost before = out@;
            out.push(n.dependency_dir.clone());
            proof {
                assert(strings_model(out@) =~= strings_model(before).push(d@));
            }
        }
        k += 1;
    }
    out
}

/// The names of the installed addons depending on `d`, joined by `, `.
pub fn required_by(installed: &Vec<i32>, addons: &Vec<AddonRow>, deps: &Vec<DependencyRow>, d: &str) -> (r: String)
    ensures
        r@ == join_names(requirers(installed@, addons@, deps@, d@, deps@.len() as int)),
{
    let mut out = String::new();
    let mut count: usize = 0;
    let mut k: usize = 0;
    while k < deps.len()
        invariant
            k <= deps@.len(),
            count == requirers(installed@, addons@, deps@, d@, k as int).len(),
            count <= k,
            out@ == join_names(requirers(installed@, addons@, deps@, d@, k as int)),
        decreases deps.len() - k,
    {
        let n = &deps[k];
        proof {
            lemma_requirers_len(installed@, addons@, deps@, d@, k as int);
        }
        if str_eq(n.dependency_dir.as_str(), d) && is_installed(installed, n.addon_id) {
            match find_addon(addons, n.addon_id) {
                Some(i) => {
                    let ghost prev = requirers(installed@, addons@, deps@, d@, k as int);
                    if count > 0 {
                        push_str(&mut out, ", ");
                    }
                    push_str(&mut out, addons[i].name.as_str());
                    proof {
                        let next = requirers(installed@, addons@, deps@, d@, k + 1);
                        assert(next == prev.push(addons@[i as int].name@));
                        assert(next.drop_last() =~= prev);
                        if count == 0 {
                            assert(out@ =~= join_names(next));
                        }
                    }
                    count = count + 1;
                },
                None => {},
            }
        }
        k += 1;
    }
    out
}

/// An option for a missing directory with what it is ranked by.
pub struct OptionModel {
    pub missing_dir: Seq<char>,
    pub required_by: Seq<char>,
    pub option_id: Option<i32>,
    pub option_name: Option<Seq<char>>,
    /// 0 when the option's name is the directory's, 1 when it is not, 2
    /// when there is no option.
    pub exact: int,
    /// How many directories the option ships; 999 when there is no option.
    pub dir_count: int,
    pub monthly: int,
    pub date: int,
}

/// How many directories addon `id` ships, among the first `k` rows.
pub open spec fn dir_count(dirs: Seq<DirRow>, id: i32, k: int) -> int
    decreases k,
{
    if k <= 0 || k > dirs.len() {
        0
    } else {
        dir_count(dirs, id, k - 1) + if dirs[k - 1].addon_id == id { 1int } else { 0int }
    }
}

/// The row of a missing directory that has no addon to offer.
pub open spec fn no_option(d: Seq<char>, req: Seq<char>) -> OptionModel {
    OptionModel { missing_dir: d, required_by: req, option_id: None, option_name: None, exact: 2, dir_count: 999, monthly: 0, date: 0 }
}

/// The option a directory row gives for a missing directory.
pub open spec fn option_of(addons: Seq<AddonRow>, dirs: Seq<DirRow>, d: Seq<char>, req: Seq<char>, r: DirRow) -> OptionModel {
    match addon_of(addons, r.addon_id) {
        Some(a) => OptionModel {
            missing_dir: d,
            required_by: req,
            option_id: Some(a.id),
            option_name: Some(a.name@),
            exact: if a.name@ == d { 0 } else { 1 },
            dir_count: dir_count(dirs, a.id, dirs.len() as int),
            monthly: a.download_monthly as int,
            date: a.date as int,
        },
        None => no_option(d, req),
    }
}

/// The options the first `k` directory rows give for `d`.
pub open spec fn options_for(addons: Seq<AddonRow>, dirs: Seq<DirRow>, d: Seq<char>, req: Seq<char>, k: int) -> Seq<OptionModel>
    decreases k,
{
    if k <= 0 || k > dirs.len() {
        Seq::empty()
    } else {
        let prev = options_for(addons, dirs, d, req, k - 1);
        if dirs[k - 1].dir@ == d {
            prev.push(option_of(addons, dirs, d, req, dirs[k - 1]))
        } else {
            prev
        }
    }
}

/// The option rows of a missing directory: one per row shipping it, or a
/// single row without an addon when none does.
pub open spec fn dir_options(
    installed: Seq<i32>,
    addons: Seq<AddonRow>,
    deps: Seq<DependencyRow>,
    dirs: Seq<DirRow>,
    d: Seq<char>,
) -> Seq<OptionModel> {
    let req = join_names(requirers(installed, addons, deps, d, deps.len() as int));
    let os = options_for(addons, dirs, d, req, dirs.len() as int);
    if os.len() == 0 {
        seq![no_option(d, req)]
    } else {
        os
    }
}

/// The option rows of the first `i` missing directories, in order.
pub open spec fn candidates(
    installed: Seq<i32>,
    addons: Seq<AddonRow>,
    deps: Seq<DependencyRow>,
    dirs: Seq<DirRow>,
    ms: Seq<Seq<char>>,
    i: int,
) -> Seq<OptionModel>
    decreases i,
{
    if i <= 0 || i > ms.len() {
        Seq::empty()
    } else {
        candidates(installed, addons, deps, dirs, ms, i - 1) + dir_options(installed, addons, deps, dirs, ms[i - 1])
    }
}

/// `a` ranks before `b`: by directory; then an option named like the
/// directory, then another option, then none; then fewer directories
/// shipped; then more monthly downloads; then a later date.
pub open spec fn rank_lt(a: OptionModel, b: OptionModel) -> bool {
    ||| seq_lt(a.missing_dir, b.missing_dir)
    ||| a.missing_dir == b.missing_dir && a.exact < b.exact
    ||| a.missing_dir == b.missing_dir && a.exact == b.exact && a.dir_count < b.dir_count
    ||| a.missing_dir == b.missing_dir && a.exact == b.exact && a.dir_count == b.dir_count && a.monthly > b.monthly
    ||| a.missing_dir == b.missing_dir && a.exact == b.exact && a.dir_count == b.dir_count && a.monthly == b.monthly
        && a.date > b.date
}

pub open spec fn same_rank(a: OptionModel, b: OptionModel) -> bool {
    a.missing_dir == b.missing_dir && a.exact == b.exact && a.dir_count == b.dir_count && a.monthly == b.monthly
        && a.date == b.date
}

/// `a`, at position `i`, is listed before `b`, at position `j`: it ranks
/// before it, or ranks the same and came first.
pub open spec fn ranks_before(a: OptionModel, i: int, b: OptionModel, j: int) -> bool {
    rank_lt(a, b) || (same_rank(a, b) && i < j)
}

proof fn lemma_rank_order(a: OptionModel, i: int, b: OptionModel, j: int, c: OptionModel, k: int)
    ensures
        !ranks_before(a, i, a, i),
        ranks_before(a, i, b, j) ==> !ranks_before(b, j, a, i),
        i != j ==> ranks_before(a, i, b, j) || ranks_before(b, j, a, i),
        ranks_before(a, i, b, j) && ranks_before(b, j, c, k) ==> ranks_before(a, i, c, k),
{
    lemma_seq_lt_irreflexive(a.missing_dir);
    lemma_seq_lt_total(a.missing_dir, b.missing_dir);
    if seq_lt(a.missing_dir, b.missing_dir) {
        lemma_seq_lt_asym(a.missing_dir, b.missing_dir);
    }
    if seq_lt(a.missing_dir, b.missing_dir) && seq_lt(b.missing_dir, c.missing_dir) {
        lemma_seq_lt_transitive(a.missing_dir, b.missing_dir, c.missing_dir);
    }
}

/// An option row on its way through the ranking.
struct Ranked {
    dir: Vec<char>,
    exact: u8,
    dir_count: usize,
    monthly: i64,
    date: i64,
    idx: usize,
    opt: AddonDepOption,
}

spec fn ranked_model(e: Ranked) -> OptionModel {
    OptionModel {
        missing_dir: e.dir@,
        required_by: e.opt.required_by@,
        option_id: e.opt.option_id,
        option_name: match e.opt.option_name {
            Some(n) => Some(n@),
            None => None,
        },
        exact: e.exact as int,
        dir_count: e.dir_count as int,
        monthly: e.monthly as int,
        date: e.date as int,
    }
}

spec fn rbefore(a: Ranked, b: Ranked) -> bool {
    ranks_before(ranked_model(a), a.idx as int, ranked_model(b), b.idx as int)
}

fn rbefore_exec(a: &Ranked, b: &Ranked) -> (r: bool)
    ensures
        r == rbefore(*a, *b),
{
    let same = chars_eq(&a.dir, &b.dir);
    if chars_lt(&a.dir, &b.dir) {
        return true;
    }
    if !same {
        return false;
    }
    if a.exact != b.exact {
        return a.exact < b.exact;
    }
    if a.dir_count != b.dir_count {
        return a.dir_count < b.dir_count;
    }
    if a.monthly != b.monthly {
        return a.monthly > b.monthly;
    }
    if a.date != b.date {
        return a.date > b.date;
    }
    a.idx < b.idx
}

/// Sorts ranked rows, rows that rank the same in the order of their positions.
fn sort_ranked(v: &mut Vec<Ranked>)
    requires
        forall|k: int, l: int| 0 <= k < l < old(v)@.len() ==> (#[trigger] old(v)@[k]).idx != (#[trigger] old(v)@[l]).idx,
    ensures
        final(v)@.len() == old(v)@.len(),
        final(v)@.to_multiset() == old(v)@.to_multiset(),
        forall|k: int, l: int| 0 <= k < l < final(v)@.len() ==> rbefore(#[trigger] final(v)@[k], #[trigger] final(v)@[l]),
{
    broadcast use vstd::multiset::group_multiset_axioms;
    let n = v.len();
    let mut i: usize = 1;
    while i < v.len()
        invariant
            v@.len() == n,
            v@.to_multiset() == old(v)@.to_multiset(),
            forall|k: int, l: int| 0 <= k < l < n ==> (#[trigger] v@[k]).idx != (#[trigger] v@[l]).idx,
            forall|k: int, l: int| 0 <= k < l < i && l < n ==> rbefore(#[trigger] v@[k], #[trigger] v@[l]),
        decreases n - i,
    {
        let ghost s = v@;
        let x = v.remove(i);
        let mut j: usize = i;
        while j > 0 && rbefore_exec(&x, &v[j - 1])
            invariant
                0 <= j <= i,
                i < n,
                s.len() == n,
                v@ == s.remove(i as int),
                x == s[i as int],
                forall|m: int| j <= m < i ==> rbefore(x, #[trigger] s[m]),
            decreases j,
        {
            assert(v@[j - 1] == s[j - 1]);
            j -= 1;
        }
        proof {
            if j > 0 {
                assert(v@[j - 1] == s[j - 1]);
            }
        }
        v.insert(j, x);
        proof {
            let e = s.remove(i as int).insert(j as int, x);
            assert(v@ =~= e);
            assert forall|k: int| 0 <= k < n implies v@[k] == s[if k < j { k } else if k == j { i as int } else if k <= i { k - 1 } else { k }] by {}
            assert(v@.to_multiset() =~= s.to_multiset()) by {
                vstd::seq_lib::to_multiset_remove(s, i as int);
                vstd::seq_lib::to_multiset_insert(s.remove(i as int), j as int, x);
                assert(s.to_multiset().remove(x).insert(x) =~= s.to_multiset()) by {
                    assert(s.to_multiset().contains(x)) by {
                        vstd::seq_lib::to_multiset_contains(s, x);
                    }
                }
            }
            assert forall|k: int, l: int| 0 <= k < l < n implies (#[trigger] v@[k]).idx != (#[trigger] v@[l]).idx by {
                let pk = if k < j { k } else if k == j { i as int } else if k <= i { k - 1 } else { k };
                let pl = if l < j { l } else if l == j { i as int } else if l <= i { l - 1 } else { l };
                if pk < pl {
                    assert(s[pk].idx != s[pl].idx);
                } else {
                    assert(s[pl].idx != s[pk].idx);
                }
            }
            if j > 0 {
                let y = s[j - 1];
                lemma_rank_order(ranked_model(x), x.idx as int, ranked_model(y), y.idx as int, ranked_model(y), y.idx as int);
                assert(rbefore(y, x));
            }
            assert forall|k: int, l: int| 0 <= k < l < i + 1 && l < n implies rbefore(#[trigger] v@[k], #[trigger] v@[l]) by {
                let pk = if k < j { k } else if k == j { i as int } else { k - 1 };
                let pl = if l < j { l } else if l == j { i as int } else { l - 1 };
                if l == j && j > 0 && pk < j - 1 {
                    lemma_rank_order(ranked_model(s[pk]), s[pk].idx as int, ranked_model(s[j - 1]), s[j - 1].idx as int, ranked_model(x), x.idx as int);
                }
                if k == j && l > j {
                    assert(rbefore(x, s[pl]));
                }
            }
        }
        i += 1;
    }
}

fn count_dirs(dirs: &Vec<DirRow>, id: i32) -> (r: usize)
    ensures
        r == dir_count(dirs@, id, dirs@.len() as int),
{
    let mut c: usize = 0;
    let mut k: usize = 0;
    while k < dirs.len()
        invariant
            k <= dirs@.len(),
            c == dir_count(dirs@, id, k as int),
            c <= k,
        decreases dirs.len() - k,
    {
        if dirs[k].addon_id == id {
            c = c + 1;
        }
        k += 1;
    }
    c
}

/// What an option row shows: the directory, who requires it, and the addon
/// offered, if any.
pub open spec fn shown(m: OptionModel) -> (Seq<char>, Seq<char>, Option<i32>, Option<Seq<char>>) {
    (m.missing_dir, m.required_by, m.option_id, m.option_name)
}

pub open spec fn dep_option_model(o: AddonDepOption) -> (Seq<char>, Seq<char>, Option<i32>, Option<Seq<char>>) {
    (
        o.missing_dir@,
        o.required_by@,
        o.option_id,
        match o.option_name {
            Some(n) => Some(n@),
            None => None,
        },
    )
}

/// `out` shows the option rows `u` as `perm` picks them, in rank order,
/// rows that rank the same in their order in `u`.
pub open spec fn ranked_options(u: Seq<OptionModel>, out: Seq<AddonDepOption>, perm: Seq<int>) -> bool {
    &&& perm.len() == u.len()
    &&& out.len() == u.len()
    &&& forall|k: int| 0 <= k < perm.len() ==> 0 <= #[trigger] perm[k] < u.len() && dep_option_model(out[k]) == shown(u[perm[k]])
    &&& forall|k: int, l: int| 0 <= k < l < perm.len() ==> ranks_before(u[#[trigger] perm[k]], perm[k], u[#[trigger] perm[l]], perm[l])
}

/// The options for providing the missing dependency directories: for each
/// missing directory, every addon that ships it, or a row without an addon
/// when none does, each with the names of the installed addons requiring
/// the directory; ranked by directory, then addons named like the
/// directory, then addons shipping fewer directories, then more monthly
/// downloads, then later dates.
pub fn dependency_options(
    installed: &Vec<i32>,
    addons: &Vec<AddonRow>,
    deps: &Vec<DependencyRow>,
    dirs: &Vec<DirRow>,
    manual: &Vec<String>,
) -> (r: Vec<AddonDepOption>)
    ensures
        exists|perm: Seq<int>| ranked_options(
            candidates(
                installed@,
                addons@,
                deps@,
                dirs@,
                missing_dirs_spec(installed@, addons@, deps@, dirs@, manual@, deps@.len() as int),
                missing_dirs_spec(installed@, addons@, deps@, dirs@, manual@, deps@.len() as int).len() as int,
            ),
            r@,
            perm,
        ),
{
    broadcast use vstd::multiset::group_multiset_axioms;
    let ms = missing_dirs(installed, addons, deps, dirs, manual);
    let ghost msm = strings_model(ms@);
    let mut entries: Vec<Ranked> = Vec::new();
    let mut i: usize = 0;
    while i < ms.len()
        invariant
            i <= ms@.len(),
            msm == strings_model(ms@),
            entries@.len() == candidates(installed@, addons@, deps@, dirs@, msm, i as int).len(),
            forall|k: int| 0 <= k < entries@.len() ==> (#[trigger] entries@[k]).idx == k
                && ranked_model(entries@[k]) == candidates(installed@, addons@, deps@, dirs@, msm, i as int)[k]
                && entries@[k].opt.missing_dir@ == entries@[k].dir@,
        decreases ms.len() - i,
    {
        let d = ms[i].as_str();
        proof {
            assert(d@ == msm[i as int]);
        }
        let req = required_by(installed, addons, deps, d);
        let ghost prefix = candidates(installed@, addons@, deps@, dirs@, msm, i as int);
        let start = entries.len();
        let mut j: usize = 0;
        while j < dirs.len()
            invariant
                j <= dirs@.len(),
                start == prefix.len(),
                entries@.len() == prefix.len() + options_for(addons@, dirs@, d@, req@, j as int).len(),
                forall|k: int| 0 <= k < entries@.len() ==> (#[trigger] entries@[k]).idx == k
                    && ranked_model(entries@[k]) == (prefix + options_for(addons@, dirs@, d@, req@, j as int))[k]
                    && entries@[k].opt.missing_dir@ == entries@[k].dir@,
            decreases dirs.len() - j,
        {
            if str_eq(dirs[j].dir.as_str(), d) {
                let ghost before = entries@;
                let idx = entries.len();
                let e = match find_addon(addons, dirs[j].addon_id) {
                    Some(a) => {
                        let exact: u8 = if str_eq(addons[a].name.as_str(), d) { 0 } else { 1 };
                        Ranked {
                            dir: str_chars(d),
                            exact,
                            dir_count: count_dirs(dirs, addons[a].id),
                            monthly: addons[a].download_monthly,
                            date: addons[a].date,
                            idx,
                            opt: AddonDepOption {
                                missing_dir: d.to_string(),
                                required_by: req.clone(),
                                option_id: Some(addons[a].id),
                                option_name: Some(addons[a].name.clone()),
                            },
                        }
                    },
                    None => Ranked {
                        dir: str_chars(d),
                        exact: 2,
                        dir_count: 999,
                        monthly: 0,
                        date: 0,
                        idx,
                        opt: AddonDepOption { missing_dir: d.to_string(), required_by: req.clone(), option_id: None, option_name: None },
                    },
                };
                proof {
                    assert(ranked_model(e) == option_of(addons@, dirs@, d@, req@, dirs@[j as int]));
                }
                entries.push(e);
                proof {
                    let os = options_for(addons@, dirs@, d@, req@, j + 1);
                    assert(os == options_for(addons@, dirs@, d@, req@, j as int).push(ranked_model(e)));
                    assert(prefix + os =~= (prefix + options_for(addons@, dirs@, d@, req@, j as int)).push(ranked_model(e)));
                }
            } else {
                proof {
                    assert(options_for(addons@, dirs@, d@, req@, j + 1) == options_for(addons@, dirs@, d@, req@, j as int));
                }
            }
            j += 1;
        }
        if entries.len() == start {
            let idx = entries.len();
            let e = Ranked {
                dir: str_chars(d),
                exact: 2,
                dir_count: 999,
                monthly: 0,
                date: 0,
                idx,
                opt: AddonDepOption { missing_dir: d.to_string(), required_by: req, option_id: None, option_name: None },
            };
            proof {
                assert(ranked_model(e) == no_option(d@, req@));
            }
            entries.push(e);
        }
        proof {
            let next = candidates(installed@, addons@, deps@, dirs@, msm, i + 1);
            assert(next == prefix + dir_options(installed@, addons@, deps@, dirs@, msm[i as int]));
            let os = options_for(addons@, dirs@, d@, req@, dirs@.len() as int);
            if os.len() == 0 {
                assert(prefix + os =~= prefix);
                assert(next =~= prefix.push(no_option(d@, req@)));
            }
        }
        i += 1;
    }
    let ghost u = candidates(installed@, addons@, deps@, dirs@, msm, ms@.len() as int);
    let ghost unsorted = entries@;
    sort_ranked(&mut entries);
    let ghost sorted = entries@;
    let ghost perm = Seq::new(sorted.len(), |k: int| sorted[k].idx as int);
    proof {
        assert forall|k: int| 0 <= k < sorted.len() implies 0 <= #[trigger] perm[k] < u.len() && ranked_model(sorted[k])
            == u[perm[k]] && sorted[k].opt.missing_dir@ == sorted[k].dir@ by {
            assert(sorted.to_multiset().count(sorted[k]) > 0) by {
                vstd::seq_lib::to_multiset_contains(sorted, sorted[k]);
            }
            vstd::seq_lib::to_multiset_contains(unsorted, sorted[k]);
            let j = choose|j: int| 0 <= j < unsorted.len() && unsorted[j] == sorted[k];
            assert(unsorted[j].idx == j);
        }
    }
    let n = entries.len();
    let mut out: Vec<AddonDepOption> = Vec::new();
    let mut k: usize = 0;
    while k < n
        invariant
            k <= n,
            n == sorted.len(),
            entries@ == sorted.skip(k as int),
            out@.len() == k,
            forall|m: int| 0 <= m < k ==> dep_option_model(#[trigger] out@[m]) == dep_option_model(sorted[m].opt),
        decreases n - k,
    {
        let e = entries.remove(0);
        proof {
            assert(e == sorted[k as int]);
            assert(entries@ =~= sorted.skip(k + 1));
        }
        out.push(e.opt);
        k += 1;
    }
    proof {
        assert(ranked_options(u, out@, perm)) by {
            assert forall|k: int| 0 <= k < perm.len() implies 0 <= #[trigger] perm[k] < u.len() && dep_option_model(out@[k]) == shown(u[perm[k]]) by {
                assert(ranked_model(sorted[k]) == u[perm[k]]);
            }
            assert forall|k: int, l: int| 0 <= k < l < perm.len() implies ranks_before(u[#[trigger] perm[k]], perm[k], u[#[trigger] perm[l]], perm[l]) by {
                assert(rbefore(sorted[k], sorted[l]));
                assert(ranked_model(sorted[k]) == u[perm[k]]);
                assert(ranked_model(sorted[l]) == u[perm[l]]);
            }
        }
    }
    out
}

/// The most monthly downloads of a catalogue addon shipping `d`, among the
/// first `k` directory rows.
pub open spec fn max_monthly(addons: Seq<AddonRow>, dirs: Seq<DirRow>, d: Seq<char>, k: int) -> Option<int>
    decreases k,
{
    if k <= 0 || k > dirs.len() {
        None
    } else {
        let prev = max_monthly(addons, dirs, d, k - 1);
        let r = dirs[k - 1];
        if r.dir@ == d && addon_of(addons, r.addon_id) is Some {
            let m = addon_of(addons, r.addon_id)->0.download_monthly as int;
            match prev {
                Some(p) => Some(if m > p { m } else { p }),
                None => Some(m),
            }
        } else {
            prev
        }
    }
}

/// An addon found in a folder without being recorded as installed, with
/// the version the scan found for that folder.
pub struct UntrackedAddon {
    pub addon_id: i32,
    pub name: String,
    pub dir: String,
    pub version: String,
}

pub open spec fn untracked_model(u: UntrackedAddon) -> (i32, Seq<char>, Seq<char>, Seq<char>) {
    (u.addon_id, u.name@, u.dir@, u.version@)
}

/// The untracked addons among the first `k` directory rows, in row order:
/// the row's folder was found by the scan, its addon is in the catalogue
/// and has the most monthly downloads of the addons shipping that folder,
/// the addon is not installed, and no installed addon ships the folder.
pub open spec fn untracked_spec(
    versions: Map<Seq<char>, String>,
    installed: Seq<i32>,
    addons: Seq<AddonRow>,
    dirs: Seq<DirRow>,
    k: int,
) -> Seq<(i32, Seq<char>, Seq<char>, Seq<char>)>
    decreases k,
{
    if k <= 0 || k > dirs.len() {
        Seq::empty()
    } else {
        let prev = untracked_spec(versions, installed, addons, dirs, k - 1);
        let d = dirs[k - 1].dir@;
        match addon_of(addons, dirs[k - 1].addon_id) {
            Some(a) => if versions.contains_key(d) && max_monthly(addons, dirs, d, dirs.len() as int) == Some(a.download_monthly as int)
                && !installed.contains(a.id) && !owned_by_installed(installed, dirs, d) {
                prev.push((a.id, a.name@, d, versions[d]@))
            } else {
                prev
            },
            None => prev,
        }
    }
}

fn max_monthly_exec(addons: &Vec<AddonRow>, dirs: &Vec<DirRow>, d: &str) -> (r: Option<i64>)
    ensures
        match r {
            Some(m) => max_monthly(addons@, dirs@, d@, dirs@.len() as int) == Some(m as int),
            None => max_monthly(addons@, dirs@, d@, dirs@.len() as int) is None,
        },
{
    let mut best: Option<i64> = None;
    let mut k: usize = 0;
    while k < dirs.len()
        invariant
            k <= dirs@.len(),
            match best {
                Some(m) => max_monthly(addons@, dirs@, d@, k as int) == Some(m as int),
                None => max_monthly(addons@, dirs@, d@, k as int) is None,
            },
        decreases dirs.len() - k,
    {
        if str_eq(dirs[k].dir.as_str(), d) {
            match find_addon(addons, dirs[k].addon_id) {
                Some(a) => {
                    let m = addons[a].download_monthly;
                    best = match best {
                        Some(p) => Some(if m > p { m } else { p }),
                        None => Some(m),
                    };
                },
                None => {},
            }
        }
        k += 1;
    }
    best
}

/// The addons to record as installed although nothing recorded them: for
/// each folder the scan found, the not installed catalogue addon shipping
/// it with the most monthly downloads, unless an installed addon ships the
/// folder, with the version the scan found for the folder.
pub fn untracked_addons(
    versions: &Vec<(String, String)>,
    installed: &Vec<i32>,
    addons: &Vec<AddonRow>,
    dirs: &Vec<DirRow>,
) -> (r: Vec<UntrackedAddon>)
    requires
        unique_keys(versions@),
    ensures
        r@.map_values(|u: UntrackedAddon| untracked_model(u)) == untracked_spec(
            keyed_map(versions@),
            installed@,
            addons@,
            dirs@,
            dirs@.len() as int,
        ),
{
    let mut out: Vec<UntrackedAddon> = Vec::new();
    let mut k: usize = 0;
    proof {
        assert(out@.map_values(|u: UntrackedAddon| untracked_model(u)) =~= Seq::<(i32, Seq<char>, Seq<char>, Seq<char>)>::empty());
    }
    while k < dirs.len()
        invariant
            k <= dirs@.len(),
            unique_keys(versions@),
            out@.map_values(|u: UntrackedAddon| untracked_model(u)) == untracked_spec(keyed_map(versions@), installed@, addons@, dirs@, k as int),
        decreases dirs.len() - k,
    {
        let d = dirs[k].dir.as_str();
        match find_addon(addons, dirs[k].addon_id) {
            Some(a) => {
                match find_key(versions, d) {
                    Some(vi) => {
                        let top = max_monthly_exec(addons, dirs, d);
                        let is_top = match top {
                            Some(m) => m == addons[a].download_monthly,
                            None => false,
                        };
                        if is_top && !is_installed(installed, addons[a].id) && !owned_exec(installed, dirs, d) {
                            let ghost before = out@;
                            let u = UntrackedAddon {
                                addon_id: addons[a].id,
                                name: addons[a].name.clone(),
                                dir: dirs[k].dir.clone(),
                                version: versions[vi].1.clone(),
                            };
                            out.push(u);
                            proof {
                                assert(out@.map_values(|u: UntrackedAddon| untracked_model(u)) =~= before.map_values(
                                    |u: UntrackedAddon| untracked_model(u),
                                ).push(untracked_model(u)));
                            }
                        }
                    },
                    None => {},
                }
            },
            None => {},
        }
        k += 1;
    }
    out
}

/// Addon `id` ships directory `d`.
pub open spec fn ships(dirs: Seq<DirRow>, id: i32, d: Seq<char>) -> bool {
    exists|j: int| 0 <= j < dirs.len() && (#[trigger] dirs[j]).addon_id == id && dirs[j].dir@ == d
}

/// Addon `x` (id and name) depends on addon `target`: it is installed, in
/// the catalogue under that name, is another addon, and depends on a
/// directory `target` ships.
pub open spec fn is_dependent(
    installed: Seq<i32>,
    addons: Seq<AddonRow>,
    deps: Seq<DependencyRow>,
    dirs: Seq<DirRow>,
    target: i32,
    x: (i32, Seq<char>),
) -> bool {
    &&& x.0 != target
    &&& addon_of(addons, x.0) matches Some(a) && a.name@ == x.1
    &&& exists|j: int| 0 <= j < deps.len() && (#[trigger] deps[j]).addon_id == x.0 && counts(installed, addons, deps[j])
        && ships(dirs, target, deps[j].dependency_dir@)
}

fn ships_exec(dirs: &Vec<DirRow>, id: i32, d: &str) -> (r: bool)
    ensures
        r == ships(dirs@, id, d@),
{
    let mut k: usize = 0;
    while k < dirs.len()
        invariant
            k <= dirs@.len(),
            forall|j: int| 0 <= j < k ==> !((#[trigger] dirs@[j]).addon_id == id && dirs@[j].dir@ == d@),
        decreases dirs.len() - k,
    {
        if dirs[k].addon_id == id && str_eq(dirs[k].dir.as_str(), d) {
            return true;
        }
        k += 1;
    }
    false
}

pub open spec fn ref_key(r: AddonRef) -> (Seq<char>, int) {
    (r.name@, r.id as int)
}

/// The installed addons that depend on addon `target`, each once, ordered
/// by name (then id).
pub fn dependents(
    installed: &Vec<i32>,
    addons: &Vec<AddonRow>,
    deps: &Vec<DependencyRow>,
    dirs: &Vec<DirRow>,
    target: i32,
) -> (r: Vec<AddonRef>)
    ensures
        forall|k: int| 0 <= k < r@.len() ==> is_dependent(installed@, addons@, deps@, dirs@, target, ((#[trigger] r@[k]).id, r@[k].name@)),
        forall|x: (i32, Seq<char>)| is_dependent(installed@, addons@, deps@, dirs@, target, x) ==> exists|k: int|
            0 <= k < r@.len() && (#[trigger] r@[k]).id == x.0 && r@[k].name@ == x.1,
        forall|k: int, l: int| 0 <= k < l < r@.len() ==> kkey_lt(ref_key(#[trigger] r@[k]), ref_key(#[trigger] r@[l])),
{
    broadcast use vstd::multiset::group_multiset_axioms;
    let mut cand: Vec<Keyed<i32>> = Vec::new();
    let mut k: usize = 0;
    while k < deps.len()
        invariant
            k <= deps@.len(),
            forall|m: int| 0 <= m < cand@.len() ==> {
                let e = #[trigger] cand@[m];
                &&& e.idx == m
                &&& e.num == e.item
                &&& is_dependent(installed@, addons@, deps@, dirs@, target, (e.item, e.text@))
            },
            forall|m: int, n: int| 0 <= m < n < cand@.len() ==> (#[trigger] cand@[m]).item != (#[trigger] cand@[n]).item,
            forall|j: int| 0 <= j < k && deps@[j].addon_id != target && counts(installed@, addons@, deps@[j])
                && ships(dirs@, target, (#[trigger] deps@[j]).dependency_dir@) ==> exists|m: int|
                0 <= m < cand@.len() && (#[trigger] cand@[m]).item == deps@[j].addon_id,
        decreases deps.len() - k,
    {
        let n = &deps[k];
        let id = n.addon_id;
        let ghost old_cand = cand@;
        if id != target && is_installed(installed, id) && ships_exec(dirs, target, n.dependency_dir.as_str()) {
            match find_addon(addons, id) {
                Some(a) => {
                    let mut seen = false;
                    let mut m: usize = 0;
                    while m < cand.len()
                        invariant
                            m <= cand@.len(),
                            seen ==> exists|q: int| 0 <= q < cand@.len() && (#[trigger] cand@[q]).item == id,
                            !seen ==> forall|q: int| 0 <= q < m ==> (#[trigger] cand@[q]).item != id,
                        decreases cand.len() - m,
                    {
                        if cand[m].item == id {
                            seen = true;
                        }
                        m += 1;
                    }
                    if !seen {
                        let idx = cand.len();
                        let e = Keyed { text: str_chars(addons[a].name.as_str()), num: id as i64, idx, item: id };
                        proof {
                            assert(is_dependent(installed@, addons@, deps@, dirs@, target, (e.item, e.text@)));
                        }
                        cand.push(e);
                    }
                },
                None => {},
            }
        }
        proof {
            assert forall|j: int| 0 <= j < k + 1 && deps@[j].addon_id != target && counts(installed@, addons@, deps@[j])
                && ships(dirs@, target, (#[trigger] deps@[j]).dependency_dir@) implies exists|m: int|
                0 <= m < cand@.len() && (#[trigger] cand@[m]).item == deps@[j].addon_id by {
                if j < k {
                    let m = choose|m: int| 0 <= m < old_cand.len() && (#[trigger] old_cand[m]).item == deps@[j].addon_id;
                    assert(cand@[m] == old_cand[m]);
                } else {
                    assert(addon_of(addons@, id) is Some);
                    if cand@.len() > old_cand.len() {
                        assert(cand@[old_cand.len() as int].item == id);
                    } else {
                        let m = choose|m: int| 0 <= m < cand@.len() && (#[trigger] cand@[m]).item == id;
                    }
                }
            }
        }
        k += 1;
    }
    let ghost unsorted = cand@;
    sort_keyed(&mut cand);
    let ghost sorted = cand@;
    proof {
        assert forall|m: int| 0 <= m < sorted.len() implies unsorted.contains(#[trigger] sorted[m]) by {
            assert(sorted.to_multiset().count(sorted[m]) > 0) by {
                vstd::seq_lib::to_multiset_contains(sorted, sorted[m]);
            }
            vstd::seq_lib::to_multiset_contains(unsorted, sorted[m]);
        }
        assert forall|q: int| 0 <= q < unsorted.len() implies sorted.contains(#[trigger] unsorted[q]) by {
            assert(unsorted.to_multiset().count(unsorted[q]) > 0) by {
                vstd::seq_lib::to_multiset_contains(unsorted, unsorted[q]);
            }
            vstd::seq_lib::to_multiset_contains(sorted, unsorted[q]);
        }
        assert forall|m: int| 0 <= m < sorted.len() implies is_dependent(installed@, addons@, deps@, dirs@, target, ((#[trigger] sorted[m]).item, sorted[m].text@)) by {
            assert(unsorted.contains(sorted[m]));
            let q = choose|q: int| 0 <= q < unsorted.len() && unsorted[q] == sorted[m];
            assert(is_dependent(installed@, addons@, deps@, dirs@, target, (unsorted[q].item, unsorted[q].text@)));
        }
    }
    let n = cand.len();
    let mut out: Vec<AddonRef> = Vec::new();
    let mut i: usize = 0;
    while i < n
        invariant
            i <= n,
            n == sorted.len(),
            cand@ == sorted.skip(i as int),
            out@.len() == i,
            forall|m: int| 0 <= m < i ==> (#[trigger] out@[m]).id == sorted[m].item && out@[m].name@ == sorted[m].text@,
            forall|m: int| 0 <= m < sorted.len() ==> is_dependent(installed@, addons@, deps@, dirs@, target, ((#[trigger] sorted[m]).item, sorted[m].text@)),
        decreases n - i,
    {
        let e = cand.remove(0);
        proof {
            assert(e == sorted[i as int]);
            assert(cand@ =~= sorted.skip(i + 1));
            assert(is_dependent(installed@, addons@, deps@, dirs@, target, (e.item, e.text@)));
        }
        let name = match find_addon(addons, e.item) {
            Some(a) => addons[a].name.clone(),
            None => String::new(),
        };
        out.push(AddonRef { id: e.item, name });
        i += 1;
    }
    proof {
        assert forall|m: int| 0 <= m < out@.len() implies is_dependent(installed@, addons@, deps@, dirs@, target, ((#[trigger] out@[m]).id, out@[m].name@)) by {
            assert(unsorted.contains(sorted[m]));
            let q = choose|q: int| 0 <= q < unsorted.len() && unsorted[q] == sorted[m];
            assert(is_dependent(installed@, addons@, deps@, dirs@, target, (unsorted[q].item, unsorted[q].text@)));
        }
        assert forall|x: (i32, Seq<char>)| is_dependent(installed@, addons@, deps@, dirs@, target, x) implies exists|m: int|
            0 <= m < out@.len() && (#[trigger] out@[m]).id == x.0 && out@[m].name@ == x.1 by {
            let j = choose|j: int| 0 <= j < deps@.len() && (#[trigger] deps@[j]).addon_id == x.0 && counts(installed@, addons@, deps@[j])
                && ships(dirs@, target, deps@[j].dependency_dir@);
            assert(ships(dirs@, target, deps@[j].dependency_dir@));
            let q = choose|q: int| 0 <= q < unsorted.len() && (#[trigger] unsorted[q]).item == deps@[j].addon_id;
            assert(sorted.contains(unsorted[q]));
            let p = choose|p: int| 0 <= p < sorted.len() && sorted[p] == unsorted[q];
            assert(is_dependent(installed@, addons@, deps@, dirs@, target, (unsorted[q].item, unsorted[q].text@)));
            assert(out@[p].id == x.0 && out@[p].name@ == x.1);
        }
        assert forall|m: int, l: int| 0 <= m < l < out@.len() implies kkey_lt(ref_key(#[trigger] out@[m]), ref_key(#[trigger] out@[l])) by {
            assert(kbefore(sorted[m], sorted[l]));
            assert(unsorted.contains(sorted[m]));
            assert(unsorted.contains(sorted[l]));
            let qm = choose|q: int| 0 <= q < unsorted.len() && unsorted[q] == sorted[m];
            let ql = choose|q: int| 0 <= q < unsorted.len() && unsorted[q] == sorted[l];
            if qm == ql {
                assert(sorted[m] == sorted[l]);
            }
            if qm < ql {
                assert(unsorted[qm].item != unsorted[ql].item);
            } else if ql < qm {
                assert(unsorted[ql].item != unsorted[qm].item);
            }
        }
    }
    out
}

} // verus!
