//! The bookkeeping of the basic installed-addons window: its first frame,
//! the update log, and the order of the installed list.

use vstd::prelude::*;
use crate::order::{chars_eq, chars_lt, lemma_seq_lt_asym, lemma_seq_lt_irreflexive, lemma_seq_lt_total, lemma_seq_lt_transitive, seq_lt};
use crate::service::SearchDbAddon;
use crate::text::{push_str, str_chars};
use crate::views::{lowercase, to_lowercase};
use crate::cli::{nat_text, push_nat};

verus! {

/// An item with what it is ordered by and where it stood.
pub struct Keyed<T> {
    pub text: Vec<char>,
    pub num: i64,
    pub idx: usize,
    pub item: T,
}

pub open spec fn kkey<T>(e: Keyed<T>) -> (Seq<char>, int) {
    (e.text@, e.num as int)
}

pub open spec fn kkey_lt(x: (Seq<char>, int), y: (Seq<char>, int)) -> bool {
    seq_lt(x.0, y.0) || (x.0 == y.0 && x.1 < y.1)
}

/// `a` is listed before `b`: a smaller key, or the same key and an earlier
/// position.
pub open spec fn kbefore<T>(a: Keyed<T>, b: Keyed<T>) -> bool {
    kkey_lt(kkey(a), kkey(b)) || (kkey(a) == kkey(b) && a.idx < b.idx)
}

proof fn lemma_kbefore_order<T>(a: Keyed<T>, b: Keyed<T>, c: Keyed<T>)
    ensures
        !kbefore(a, a),
        kbefore(a, b) ==> !kbefore(b, a),
        a.idx != b.idx ==> kbefore(a, b) || kbefore(b, a),
        kbefore(a, b) && kbefore(b, c) ==> kbefore(a, c),
{
    lemma_seq_lt_irreflexive(a.text@);
    lemma_seq_lt_total(a.text@, b.text@);
    if seq_lt(a.text@, b.text@) {
        lemma_seq_lt_asym(a.text@, b.text@);
    }
    if seq_lt(a.text@, b.text@) && seq_lt(b.text@, c.text@) {
        lemma_seq_lt_transitive(a.text@, b.text@, c.text@);
    }
}

fn kbefore_exec<T>(a: &Keyed<T>, b: &Keyed<T>) -> (r: bool)
    ensures
        r == kbefore(*a, *b),
{
    let same = chars_eq(&a.text, &b.text);
    chars_lt(&a.text, &b.text) || (same && a.num < b.num) || (same && a.num == b.num && a.idx < b.idx)
}

/// Sorts keyed items by key, items with the same key in the order of their
/// positions.
pub fn sort_keyed<T>(v: &mut Vec<Keyed<T>>)
    requires
        forall|k: int, l: int| 0 <= k < l < old(v)@.len() ==> (#[trigger] old(v)@[k]).idx != (#[trigger] old(v)@[l]).idx,
    ensures
        final(v)@.len() == old(v)@.len(),
        final(v)@.to_multiset() == old(v)@.to_multiset(),
        forall|k: int, l: int| 0 <= k < l < final(v)@.len() ==> kbefore(#[trigger] final(v)@[k], #[trigger] final(v)@[l]),
{
    broadcast use vstd::multiset::group_multiset_axioms;
    let n = v.len();
    let mut i: usize = 1;
    while i < v.len()
        invariant
            v@.len() == n,
            v@.to_multiset() == old(v)@.to_multiset(),
            forall|k: int, l: int| 0 <= k < l < n ==> (#[trigger] v@[k]).idx != (#[trigger] v@[l]).idx,
            forall|k: int, l: int| 0 <= k < l < i && l < n ==> kbefore(#[trigger] v@[k], #[trigger] v@[l]),
        decreases n - i,
    {
        let ghost s = v@;
        let x = v.remove(i);
        let mut j: usize = i;
        while j > 0 && kbefore_exec(&x, &v[j - 1])
            invariant
                0 <= j <= i,
                i < n,
                s.len() == n,
                v@ == s.remove(i as int),
                x == s[i as int],
                forall|m: int| j <= m < i ==> kbefore(x, #[trigger] s[m]),
            decreases j,
        {
            assert(v@[j - 1] == s[j - 1]);
            j -= 1;
        }
        proof {
            if j > 0 {
                assert(v@[j - 1] == s[j - 1]);
            }
        }
        v.insert(j, x);
        proof {
            let e = s.remove(i as int).insert(j as int, x);
            assert(v@ =~= e);
            assert forall|k: int| 0 <= k < n implies v@[k] == s[if k < j { k } else if k == j { i as int } else if k <= i { k - 1 } else { k }] by {}
            assert(v@.to_multiset() =~= s.to_multiset()) by {
                vstd::seq_lib::to_multiset_remove(s, i as int);
                vstd::seq_lib::to_multiset_insert(s.remove(i as int), j as int, x);
                assert(s.to_multiset().remove(x).insert(x) =~= s.to_multiset()) by {
                    assert(s.to_multiset().contains(x)) by {
                        vstd::seq_lib::to_multiset_contains(s, x);
                    }
                }
            }
            assert forall|k: int, l: int| 0 <= k < l < n implies (#[trigger] v@[k]).idx != (#[trigger] v@[l]).idx by {
                let pk = if k < j { k } else if k == j { i as int } else if k <= i { k - 1 } else { k };
                let pl = if l < j { l } else if l == j { i as int } else if l <= i { l - 1 } else { l };
                if pk < pl {
                    assert(s[pk].idx != s[pl].idx);
                } else {
                    assert(s[pl].idx != s[pk].idx);
                }
            }
            if j > 0 {
                let y = s[j - 1];
                lemma_kbefore_order(x, y, y);
                assert(kbefore(y, x));
            }
            assert forall|k: int, l: int| 0 <= k < l < i + 1 && l < n implies kbefore(#[trigger] v@[k], #[trigger] v@[l]) by {
                let pk = if k < j { k } else if k == j { i as int } else { k - 1 };
                let pl = if l < j { l } else if l == j { i as int } else { l - 1 };
                if l == j && j > 0 && pk < j - 1 {
                    lemma_kbefore_order(s[pk], s[j - 1], x);
                }
                if k == j && l > j {
                    assert(kbefore(x, s[pl]));
                }
            }
        }
        i += 1;
    }
}

/// The columns the basic window can order by.
#[derive(Clone, Copy, Debug, PartialEq, Eq, Structural)]
pub enum BasicSort {
    Name,
    Updated,
    Author,
    TotalDownloads,
    MonthlyDownloads,
    Favorites,
    Id,
}

pub open spec fn basic_sort_label(s: BasicSort) -> Seq<char> {
    match s {
        BasicSort::Name => "Name"@,
        BasicSort::Updated => "Updated"@,
        BasicSort::Author => "Author"@,
        BasicSort::TotalDownloads => "Total Downloads"@,
        BasicSort::MonthlyDownloads => "Monthly Downloads"@,
        BasicSort::Favorites => "Favorites"@,
        BasicSort::Id => "ID"@,
    }
}

impl BasicSort {
    /// The column title.
    pub fn to_string(&self) -> (r: String)
        ensures
            r@ == basic_sort_label(*self),
    {
        match self {
            BasicSort::Name => "Name".to_owned(),
            BasicSort::Updated => "Updated".to_owned(),
            BasicSort::Author => "Author".to_owned(),
            BasicSort::TotalDownloads => "Total Downloads".to_owned(),
            BasicSort::MonthlyDownloads => "Monthly Downloads".to_owned(),
            BasicSort::Favorites => "Favorites".to_owned(),
            BasicSort::Id => "ID".to_owned(),
        }
    }
}

/// The tabs of the basic window.
#[derive(Clone, Copy, Debug, PartialEq, Eq, Structural)]
pub enum BasicView {
    Installed,
    Search,
    Browse,
}

/// What an installed addon is ordered by: its lower-cased name, or its id.
pub open spec fn basic_key(a: SearchDbAddon, sort: BasicSort) -> (Seq<char>, int) {
    match sort {
        BasicSort::Id => (Seq::empty(), a.id as int),
        _ => (lowercase(a.name@), 0),
    }
}

/// `out` holds the addons of `input` as `perm` picks them, ordered by the
/// key, addons with the same key in their input order.
pub open spec fn ordered_listing(input: Seq<SearchDbAddon>, out: Seq<SearchDbAddon>, perm: Seq<int>, sort: BasicSort) -> bool {
    &&& perm.len() == input.len()
    &&& out.len() == input.len()
    &&& forall|k: int| 0 <= k < perm.len() ==> 0 <= #[trigger] perm[k] < input.len() && out[k] == input[perm[k]]
    &&& forall|k: int, l: int| 0 <= k < l < perm.len() ==> {
        ||| kkey_lt(basic_key(input[#[trigger] perm[k]], sort), basic_key(input[#[trigger] perm[l]], sort))
        ||| basic_key(input[perm[k]], sort) == basic_key(input[perm[l]], sort) && perm[k] < perm[l]
    }
}

/// Orders the addons by lower-cased name or by id, keeping the order of
/// addons that tie.
fn sort_basic(v: &mut Vec<SearchDbAddon>, sort: BasicSort)
    requires
        sort == BasicSort::Name || sort == BasicSort::Id,
    ensures
        exists|perm: Seq<int>| ordered_listing(old(v)@, final(v)@, perm, sort),
{
    let ghost input = v@;
    let n = v.len();
    let mut es: Vec<Keyed<SearchDbAddon>> = Vec::new();
    while v.len() > 0
        invariant
            v@ == input.take(v@.len() as int),
            n == input.len(),
            es@.len() + v@.len() == n,
            forall|k: int| 0 <= k < es@.len() ==> {
                &&& (#[trigger] es@[k]).idx == n - 1 - k
                &&& es@[k].item == input[n - 1 - k]
                &&& kkey(es@[k]) == basic_key(es@[k].item, sort)
            },
        decreases v.len(),
    {
        let idx = v.len() - 1;
        let a = v.pop().unwrap();
        proof {
            assert(input.take(idx as int + 1)[idx as int] == input[idx as int]);
            assert(v@ =~= input.take(idx as int));
        }
        let e = match sort {
            BasicSort::Id => Keyed { text: Vec::new(), num: a.id as i64, idx, item: a },
            _ => {
                let l = to_lowercase(a.name.as_str());
                Keyed { text: str_chars(l.as_str()), num: 0, idx, item: a }
            },
        };
        proof {
            if sort == BasicSort::Id {
                assert(e.text@ =~= Seq::<char>::empty());
            }
        }
        es.push(e);
    }
    let ghost pre = es@;
    assert(forall|k: int| 0 <= k < n ==> {
        &&& (#[trigger] pre[k]).idx == n - 1 - k
        &&& pre[k].item == input[n - 1 - k]
        &&& kkey(pre[k]) == basic_key(pre[k].item, sort)
    });
    sort_keyed(&mut es);
    let ghost sorted = es@;
    proof {
        assert forall|k: int| 0 <= k < n implies {
            &&& 0 <= (#[trigger] sorted[k]).idx < n
            &&& sorted[k].item == input[sorted[k].idx as int]
            &&& kkey(sorted[k]) == basic_key(sorted[k].item, sort)
        } by {
            vstd::seq_lib::to_multiset_contains(sorted, sorted[k]);
            vstd::seq_lib::to_multiset_contains(pre, sorted[k]);
            assert(sorted.contains(sorted[k]));
            assert(pre.contains(sorted[k]));
            let j = choose|j: int| 0 <= j < pre.len() && pre[j] == sorted[k];
            assert(pre[j].idx == n - 1 - j);
        }
    }
    let ghost perm = sorted.map_values(|e: Keyed<SearchDbAddon>| e.idx as int);
    let mut k: usize = 0;
    while k < n
        invariant
            k <= n,
            n == sorted.len(),
            es@ == sorted.skip(k as int),
            v@.len() == k,
            forall|m: int| 0 <= m < k ==> v@[m] == (#[trigger] sorted[m]).item,
        decreases n - k,
    {
        let e = es.remove(0);
        proof {
            assert(e == sorted[k as int]);
            assert(es@ =~= sorted.skip(k + 1));
        }
        v.push(e.item);
        k += 1;
    }
    proof {
        assert(ordered_listing(input, v@, perm, sort)) by {
            assert forall|a: int, b: int| 0 <= a < b < perm.len() implies {
                ||| kkey_lt(basic_key(input[#[trigger] perm[a]], sort), basic_key(input[#[trigger] perm[b]], sort))
                ||| basic_key(input[perm[a]], sort) == basic_key(input[perm[b]], sort) && perm[a] < perm[b]
            } by {
                assert(kbefore(sorted[a], sorted[b]));
            }
        }
    }
}

/// The state of the basic window.
pub struct BasicWindow {
    pub init: bool,
    pub addons_updated: Vec<String>,
    pub installed_addons: Vec<SearchDbAddon>,
    pub filter: String,
    pub sort: BasicSort,
    pub prev_sort: BasicSort,
    pub view: BasicView,
}

/// The log lines of an update: one per updated addon, or a single line
/// when nothing was updated.
pub open spec fn update_lines(names: Seq<Seq<char>>) -> Seq<Seq<char>> {
    if names.len() == 0 {
        seq!["Everything up to date!"@]
    } else {
        names.map_values(|n: Seq<char>| n + " updated!"@)
    }
}

impl BasicWindow {
    pub fn new() -> (w: BasicWindow)
        ensures
            w.init,
            w.addons_updated@.len() == 0,
            w.installed_addons@.len() == 0,
            w.filter@.len() == 0,
            w.sort == BasicSort::Name,
            w.prev_sort == BasicSort::Name,
            w.view == BasicView::Installed,
    {
        BasicWindow {
            init: true,
            addons_updated: Vec::new(),
            installed_addons: Vec::new(),
            filter: String::new(),
            sort: BasicSort::Name,
            prev_sort: BasicSort::Name,
            view: BasicView::Installed,
        }
    }

    /// True on the first frame only: the installed addons are loaded then.
    pub fn show_init(&mut self) -> (r: bool)
        ensures
            r == old(self).init,
            !final(self).init,
            *final(self) == (BasicWindow { init: false, ..*old(self) }),
    {
        let init = self.init;
        if self.init {
            self.init = false;
        }
        init
    }

    /// Logs an update by the names of the addons it updated.
    pub fn record_update(&mut self, updated: &Vec<String>)
        ensures
            crate::text::strings_view(final(self).addons_updated@) == crate::text::strings_view(
                old(self).addons_updated@,
            ) + update_lines(crate::text::strings_view(updated@)),
    {
        let ghost start = crate::text::strings_view(self.addons_updated@);
        let ghost names = crate::text::strings_view(updated@);
        let mut k: usize = 0;
        while k < updated.len()
            invariant
                k <= updated@.len(),
                names == crate::text::strings_view(updated@),
                crate::text::strings_view(self.addons_updated@) == start + names.take(k as int).map_values(
                    |n: Seq<char>| n + " updated!"@,
                ),
            decreases updated.len() - k,
        {
            let mut line = updated[k].clone();
            push_str(&mut line, " updated!");
            let ghost prev = self.addons_updated@;
            self.addons_updated.push(line);
            proof {
                assert(crate::text::strings_view(self.addons_updated@) =~= crate::text::strings_view(prev).push(line@));
                assert(names.take(k + 1).map_values(|n: Seq<char>| n + " updated!"@) =~= names.take(k as int).map_values(
                    |n: Seq<char>| n + " updated!"@,
                ).push(names[k as int] + " updated!"@));
            }
            k += 1;
        }
        if updated.len() == 0 {
            self.addons_updated.push("Everything up to date!".to_owned());
            proof {
                assert(crate::text::strings_view(self.addons_updated@) =~= start + update_lines(names));
            }
        } else {
            proof {
                assert(names.take(k as int) =~= names);
            }
        }
    }

    /// Shows the installed addons, in the window's order.
    pub fn set_installed(&mut self, addons: Vec<SearchDbAddon>)
        ensures
            old(self).sort == BasicSort::Name || old(self).sort == BasicSort::Id ==> exists|perm: Seq<int>| ordered_listing(
                addons@,
                final(self).installed_addons@,
                perm,
                old(self).sort,
            ),
            !(old(self).sort == BasicSort::Name || old(self).sort == BasicSort::Id) ==> final(self).installed_addons@ == addons@,
            final(self).sort == old(self).sort,
            final(self).prev_sort == old(self).prev_sort,
    {
        self.installed_addons = addons;
        self.sort_addons();
    }

    /// Orders the list by name or by id; the other columns leave it as it
    /// is.
    fn sort_addons(&mut self)
        ensures
            old(self).sort == BasicSort::Name || old(self).sort == BasicSort::Id ==> exists|perm: Seq<int>| ordered_listing(
                old(self).installed_addons@,
                final(self).installed_addons@,
                perm,
                old(self).sort,
            ),
            !(old(self).sort == BasicSort::Name || old(self).sort == BasicSort::Id) ==> *final(self) == *old(self),
            *final(self) == (BasicWindow { installed_addons: final(self).installed_addons, ..*old(self) }),
    {
        match self.sort {
            BasicSort::Name | BasicSort::Id => sort_basic(&mut self.installed_addons, self.sort),
            _ => {},
        }
    }

    /// Re-orders when another column was chosen.
    pub fn handle_sort(&mut self)
        ensures
            final(self).prev_sort == old(self).sort,
            final(self).sort == old(self).sort,
            old(self).prev_sort == old(self).sort ==> *final(self) == *old(self),
            old(self).prev_sort != old(self).sort && (old(self).sort == BasicSort::Name || old(self).sort == BasicSort::Id)
                ==> exists|perm: Seq<int>| ordered_listing(
                old(self).installed_addons@,
                final(self).installed_addons@,
                perm,
                old(self).sort,
            ),
    {
        if self.prev_sort != self.sort {
            self.prev_sort = self.sort;
            self.sort_addons();
        }
    }

    /// The count shown above the list.
    pub fn installed_label(&self) -> (r: String)
        ensures
            r@ == "Installed: "@ + nat_text(self.installed_addons@.len()),
    {
        let mut out = String::new();
        push_str(&mut out, "Installed: ");
        push_nat(&mut out, self.installed_addons.len() as u64);
        proof {
            assert(out@ =~= "Installed: "@ + nat_text(self.installed_addons@.len()));
        }
        out
    }

    /// The filter text is kept lower-cased.
    pub fn normalize_filter(&mut self)
        ensures
            final(self).filter@ == lowercase(old(self).filter@),
            *final(self) == (BasicWindow { filter: final(self).filter, ..*old(self) }),
    {
        self.filter = to_lowercase(self.filter.as_str());
    }
}

} // verus!
