//! State and bookkeeping behind the addon list views: columns and their
//! order, the actions a view asks for, and the lists it shows.

use vstd::prelude::*;
use vstd::string::*;
use crate::order::{
    chars_eq, chars_lt, lemma_seq_lt_asym, lemma_seq_lt_irreflexive, lemma_seq_lt_total,
    lemma_seq_lt_transitive, seq_lt,
};
use std::collections::HashMap;
use crate::service::{upgradable, AddonDepOption, AddonShowDetails, MissingDepView};
use crate::text::{boundary, byte_slice, lemma_encode_concat, lemma_str_valid, parse_i32, parse_i32_spec, push_str, str_chars, str_eq};

verus! {

/// The column an addon list is ordered by.
#[derive(Clone, Copy, Debug, PartialEq, Eq, Structural)]
pub enum Sort {
    Name,
    Updated,
    Author,
    TotalDownloads,
    MonthlyDownloads,
    Favorites,
    Id,
}

impl Default for Sort {
    fn default() -> (r: Sort)
        ensures
            r == Sort::Id,
    {
        Sort::Id
    }
}

/// The column title of a sort.
pub open spec fn sort_label(s: Sort) -> Seq<char> {
    match s {
        Sort::Name => "Name"@,
        Sort::Updated => "Date"@,
        Sort::Author => "Author"@,
        Sort::TotalDownloads => "Total Downloads"@,
        Sort::MonthlyDownloads => "Monthly Downloads"@,
        Sort::Favorites => "Likes"@,
        Sort::Id => "ID"@,
    }
}

impl Sort {
    /// The column title.
    pub fn to_string(&self) -> (r: String)
        ensures
            r@ == sort_label(*self),
    {
        match self {
            Sort::Name => "Name".to_owned(),
            Sort::Updated => "Date".to_owned(),
            Sort::Author => "Author".to_owned(),
            Sort::TotalDownloads => "Total Downloads".to_owned(),
            Sort::MonthlyDownloads => "Monthly Downloads".to_owned(),
            Sort::Favorites => "Likes".to_owned(),
            Sort::Id => "ID".to_owned(),
        }
    }

    /// Default direction when a column first becomes the active sort: names
    /// ascending, counts and dates with the largest or newest first.
    pub fn default_ascending(&self) -> (r: bool)
        ensures
            r == (*self == Sort::Name || *self == Sort::Author || *self == Sort::Id),
    {
        match self {
            Sort::Name | Sort::Author | Sort::Id => true,
            _ => false,
        }
    }
}

/// `str::to_lowercase`, full Unicode lower-casing; its result is named, not
/// described.
pub uninterp spec fn lowercase(s: Seq<char>) -> Seq<char>;

/// Calls `str::to_lowercase`. The contract claims only that the result is
/// `lowercase` of the argument, that is, that it depends on the text alone.
#[verifier::external_body]
pub(crate) fn to_lowercase(s: &str) -> (r: String)
    ensures
        r@ == lowercase(s@),
{
    s.to_lowercase()
}

/// A count column: the number the text holds, 0 when it holds none.
pub open spec fn count_of(v: Option<String>) -> int {
    match v {
        Some(s) => match parse_i32_spec(vstd::utf8::encode_utf8(s@)) {
            Some(n) => n as int,
            None => 0,
        },
        None => 0,
    }
}

fn count(v: &Option<String>) -> (r: i64)
    ensures
        r == count_of(*v),
{
    match v {
        Some(s) => match parse_i32(s.as_str()) {
            Some(n) => n as i64,
            None => 0,
        },
        None => 0,
    }
}

/// What an addon is ordered by under a column: a text (lower-cased for
/// names), then a number.
pub open spec fn sort_key(a: AddonShowDetails, sort: Sort) -> (Seq<char>, int) {
    match sort {
        Sort::Name => (lowercase(a.name@), 0),
        Sort::Author => (lowercase(a.author_name@), 0),
        Sort::Updated => (a.date@, 0),
        Sort::TotalDownloads => (Seq::empty(), count_of(a.download_total)),
        Sort::MonthlyDownloads => (Seq::empty(), count_of(a.download_monthly)),
        Sort::Favorites => (Seq::empty(), count_of(a.favorite_total)),
        Sort::Id => (Seq::empty(), a.id as int),
    }
}

/// Which field each column is read from: the listings of installed and
/// author's addons, or the search view, which reads its monthly downloads
/// column from the download address field.
#[derive(Clone, Copy, Debug, PartialEq, Eq, Structural)]
pub enum Keys {
    Listing,
    Search,
}

/// What an addon is ordered by under a column, read as `keys` says.
#[verifier::opaque]
pub open spec fn column_key(a: AddonShowDetails, sort: Sort, keys: Keys) -> (Seq<char>, int) {
    match (keys, sort) {
        (Keys::Search, Sort::MonthlyDownloads) => (Seq::empty(), count_of(a.download)),
        _ => sort_key(a, sort),
    }
}

pub open spec fn key_lt(x: (Seq<char>, int), y: (Seq<char>, int)) -> bool {
    seq_lt(x.0, y.0) || (x.0 == y.0 && x.1 < y.1)
}

/// Whether the addon `a`, at position `i` of the input, is listed before
/// `b`, at position `j`: upgradable addons first; then by the column, in
/// the chosen direction; addons that tie keep their input order when
/// ascending and are reversed when descending.
pub open spec fn precedes(a: AddonShowDetails, i: int, b: AddonShowDetails, j: int, sort: Sort, asc: bool) -> bool {
    precedes_by(a, i, b, j, sort, asc, Keys::Listing)
}

/// `precedes`, with the column read as `keys` says.
pub open spec fn precedes_by(a: AddonShowDetails, i: int, b: AddonShowDetails, j: int, sort: Sort, asc: bool, keys: Keys) -> bool {
    if upgradable(a) != upgradable(b) {
        upgradable(a)
    } else if asc {
        key_lt(column_key(a, sort, keys), column_key(b, sort, keys)) || (column_key(a, sort, keys) == column_key(b, sort, keys) && i < j)
    } else {
        key_lt(column_key(b, sort, keys), column_key(a, sort, keys)) || (column_key(a, sort, keys) == column_key(b, sort, keys) && j < i)
    }
}

/// `out` lists the addons of `input` as `perm` picks them, in `precedes` order.
pub open spec fn is_listing(
    input: Seq<AddonShowDetails>,
    out: Seq<AddonShowDetails>,
    perm: Seq<int>,
    sort: Sort,
    asc: bool,
) -> bool {
    is_listing_by(input, out, perm, sort, asc, Keys::Listing)
}

/// `out` lists the addons of `input` as `perm` picks them, in `precedes_by` order.
pub open spec fn is_listing_by(
    input: Seq<AddonShowDetails>,
    out: Seq<AddonShowDetails>,
    perm: Seq<int>,
    sort: Sort,
    asc: bool,
    keys: Keys,
) -> bool {
    &&& perm.len() == input.len()
    &&& out.len() == input.len()
    &&& forall|k: int| 0 <= k < perm.len() ==> 0 <= #[trigger] perm[k] < input.len() && out[k] == input[perm[k]]
    &&& forall|k: int, l: int|
        0 <= k < l < perm.len() ==> precedes_by(input[#[trigger] perm[k]], perm[k], input[#[trigger] perm[l]], perm[l], sort, asc, keys)
}

proof fn lemma_key_lt_transitive(x: (Seq<char>, int), y: (Seq<char>, int), z: (Seq<char>, int))
    requires
        key_lt(x, y),
        key_lt(y, z),
    ensures
        key_lt(x, z),
{
    if seq_lt(x.0, y.0) && seq_lt(y.0, z.0) {
        lemma_seq_lt_transitive(x.0, y.0, z.0);
    }
}

proof fn lemma_key_lt_irreflexive(x: (Seq<char>, int))
    ensures
        !key_lt(x, x),
{
    lemma_seq_lt_irreflexive(x.0);
}

proof fn lemma_key_lt_total(x: (Seq<char>, int), y: (Seq<char>, int))
    ensures
        x == y || key_lt(x, y) || key_lt(y, x),
{
    lemma_seq_lt_total(x.0, y.0);
}

proof fn lemma_key_lt_asym(x: (Seq<char>, int), y: (Seq<char>, int))
    requires
        key_lt(x, y),
    ensures
        !key_lt(y, x),
{
    if seq_lt(x.0, y.0) {
        lemma_seq_lt_asym(x.0, y.0);
    } else {
        lemma_seq_lt_irreflexive(x.0);
    }
}

/// `precedes_by` is a strict total order on distinct positions.
proof fn lemma_precedes_order(
    a: AddonShowDetails,
    i: int,
    b: AddonShowDetails,
    j: int,
    c: AddonShowDetails,
    k: int,
    sort: Sort,
    asc: bool,
    keys: Keys,
)
    ensures
        !precedes_by(a, i, a, i, sort, asc, keys),
        precedes_by(a, i, b, j, sort, asc, keys) ==> !precedes_by(b, j, a, i, sort, asc, keys),
        i != j ==> precedes_by(a, i, b, j, sort, asc, keys) || precedes_by(b, j, a, i, sort, asc, keys),
        precedes_by(a, i, b, j, sort, asc, keys) && precedes_by(b, j, c, k, sort, asc, keys) ==> precedes_by(a, i, c, k, sort, asc, keys),
{
    let ka = column_key(a, sort, keys);
    let kb = column_key(b, sort, keys);
    let kc = column_key(c, sort, keys);
    lemma_key_lt_irreflexive(ka);
    lemma_key_lt_total(ka, kb);
    if key_lt(ka, kb) {
        lemma_key_lt_asym(ka, kb);
    }
    if key_lt(kb, ka) {
        lemma_key_lt_asym(kb, ka);
    }
    if key_lt(ka, kb) && key_lt(kb, kc) {
        lemma_key_lt_transitive(ka, kb, kc);
    }
    if key_lt(kc, kb) && key_lt(kb, ka) {
        lemma_key_lt_transitive(kc, kb, ka);
    }
}

/// An addon with what it is ordered by, and where it stood.
struct Entry {
    upg: bool,
    text: Vec<char>,
    num: i64,
    idx: usize,
    item: AddonShowDetails,
}

/// The entry holds input position `idx` and the keys of its addon.
spec fn entry_ok(e: Entry, input: Seq<AddonShowDetails>, sort: Sort, keys: Keys) -> bool {
    &&& e.idx < input.len()
    &&& e.item == input[e.idx as int]
    &&& e.upg == upgradable(e.item)
    &&& (e.text@, e.num as int) == column_key(e.item, sort, keys)
}

spec fn entry_precedes(x: Entry, y: Entry, sort: Sort, asc: bool, keys: Keys) -> bool {
    precedes_by(x.item, x.idx as int, y.item, y.idx as int, sort, asc, keys)
}

fn make_entry(a: AddonShowDetails, idx: usize, sort: Sort, keys: Keys) -> (e: Entry)
    ensures
        e.item == a,
        e.idx == idx,
        e.upg == upgradable(a),
        (e.text@, e.num as int) == column_key(a, sort, keys),
{
    reveal(column_key);
    let upg = a.is_upgradable();
    let text = match sort {
        Sort::Name => {
            let l = to_lowercase(a.name.as_str());
            str_chars(l.as_str())
        },
        Sort::Author => {
            let l = to_lowercase(a.author_name.as_str());
            str_chars(l.as_str())
        },
        Sort::Updated => str_chars(a.date.as_str()),
        _ => Vec::new(),
    };
    let num: i64 = match sort {
        Sort::TotalDownloads => count(&a.download_total),
        Sort::MonthlyDownloads => match keys {
            Keys::Listing => count(&a.download_monthly),
            Keys::Search => count(&a.download),
        },
        Sort::Favorites => count(&a.favorite_total),
        Sort::Id => a.id as i64,
        _ => 0,
    };
    proof {
        if !(sort == Sort::Name || sort == Sort::Author || sort == Sort::Updated) {
            assert(text@ =~= Seq::<char>::empty());
        }
    }
    Entry { upg, text, num, idx, item: a }
}

fn before(x: &Entry, y: &Entry, asc: bool) -> (r: bool)
    ensures
        r == (if x.upg != y.upg {
            x.upg
        } else if asc {
            key_lt((x.text@, x.num as int), (y.text@, y.num as int)) || ((x.text@, x.num as int) == (
            y.text@, y.num as int) && x.idx < y.idx)
        } else {
            key_lt((y.text@, y.num as int), (x.text@, x.num as int)) || ((x.text@, x.num as int) == (
            y.text@, y.num as int) && y.idx < x.idx)
        }),
{
    if x.upg != y.upg {
        return x.upg;
    }
    let same_text = chars_eq(&x.text, &y.text);
    if asc {
        chars_lt(&x.text, &y.text) || (same_text && x.num < y.num) || (same_text && x.num == y.num
            && x.idx < y.idx)
    } else {
        chars_lt(&y.text, &x.text) || (same_text && y.num < x.num) || (same_text && x.num == y.num
            && y.idx < x.idx)
    }
}

/// Inserting the entry at `i` at position `j`, where it belongs, keeps the
/// entries well formed and extends the sorted prefix by one.
#[verifier::spinoff_prover]
#[verifier::rlimit(40)]
proof fn lemma_insert_sorted(s: Seq<Entry>, i: int, j: int, input: Seq<AddonShowDetails>, sort: Sort, asc: bool, keys: Keys)
    requires
        0 <= j <= i < s.len(),
        forall|k: int| 0 <= k < s.len() ==> entry_ok(#[trigger] s[k], input, sort, keys),
        forall|k: int, l: int| 0 <= k < l < s.len() ==> (#[trigger] s[k]).idx != (#[trigger] s[l]).idx,
        forall|k: int, l: int| 0 <= k < l < i ==> entry_precedes(#[trigger] s[k], #[trigger] s[l], sort, asc, keys),
        forall|m: int| j <= m < i ==> entry_precedes(s[i], #[trigger] s[m], sort, asc, keys),
        j > 0 ==> !entry_precedes(s[i], s[j - 1], sort, asc, keys),
    ensures
        ({
            let e = s.remove(i).insert(j, s[i]);
            &&& e.len() == s.len()
            &&& forall|k: int| 0 <= k < e.len() ==> entry_ok(#[trigger] e[k], input, sort, keys)
            &&& forall|k: int, l: int| 0 <= k < l < e.len() ==> (#[trigger] e[k]).idx != (#[trigger] e[l]).idx
            &&& forall|k: int, l: int| 0 <= k < l < i + 1 ==> entry_precedes(#[trigger] e[k], #[trigger] e[l], sort, asc, keys)
        }),
{
    let x = s[i];
    let e = s.remove(i).insert(j, x);
    let n = s.len() as int;
    assert forall|k: int| 0 <= k < n implies e[k] == s[if k < j { k } else if k == j { i } else if k <= i { k - 1 } else { k }] by {}
    assert forall|k: int| 0 <= k < e.len() implies entry_ok(#[trigger] e[k], input, sort, keys) by {
        assert(e[k] == s[if k < j { k } else if k == j { i } else if k <= i { k - 1 } else { k }]);
    }
    assert forall|k: int, l: int| 0 <= k < l < e.len() implies (#[trigger] e[k]).idx != (#[trigger] e[l]).idx by {
        let pk = if k < j { k } else if k == j { i } else if k <= i { k - 1 } else { k };
        let pl = if l < j { l } else if l == j { i } else if l <= i { l - 1 } else { l };
        assert(e[k] == s[pk]);
        assert(e[l] == s[pl]);
        if pk < pl {
            assert(s[pk].idx != s[pl].idx);
        } else {
            assert(s[pl].idx != s[pk].idx);
        }
    }
    if j > 0 {
        let y = s[j - 1];
        assert(y.idx != x.idx);
        lemma_precedes_order(x.item, x.idx as int, y.item, y.idx as int, y.item, y.idx as int, sort, asc, keys);
        assert(entry_precedes(y, x, sort, asc, keys));
    }
    assert forall|k: int, l: int| 0 <= k < l < i + 1 implies entry_precedes(#[trigger] e[k], #[trigger] e[l], sort, asc, keys) by {
        let pk = if k < j { k } else if k == j { i } else { k - 1 };
        let pl = if l < j { l } else if l == j { i } else { l - 1 };
        assert(e[k] == s[pk]);
        assert(e[l] == s[pl]);
        if l == j {
            let y = s[j - 1];
            if pk < j - 1 {
                assert(entry_precedes(s[pk], y, sort, asc, keys));
                lemma_precedes_order(s[pk].item, s[pk].idx as int, y.item, y.idx as int, x.item, x.idx as int, sort, asc, keys);
            }
        }
    }
}

/// Orders a list of addons by a column and direction, upgradable addons
/// first; addons that tie keep their order when ascending and are reversed
/// when descending.
pub fn sort_addons(addons: &mut Vec<AddonShowDetails>, sort: Sort, ascending: bool)
    ensures
        exists|perm: Seq<int>| is_listing(old(addons)@, final(addons)@, perm, sort, ascending),
{
    let ghost before = addons@;
    sort_by_keys(addons, sort, ascending, Keys::Listing);
    proof {
        let perm = choose|perm: Seq<int>| is_listing_by(before, addons@, perm, sort, ascending, Keys::Listing);
        assert(is_listing(before, addons@, perm, sort, ascending));
    }
}

/// `sort_addons`, with the column read as `keys` says.
pub fn sort_by_keys(addons: &mut Vec<AddonShowDetails>, sort: Sort, ascending: bool, keys: Keys)
    ensures
        exists|perm: Seq<int>| is_listing_by(old(addons)@, final(addons)@, perm, sort, ascending, keys),
{
    let ghost input = addons@;
    let n = addons.len();
    let mut entries: Vec<Entry> = Vec::new();
    while addons.len() > 0
        invariant
            addons@ == input.take(addons@.len() as int),
            n == input.len(),
            entries@.len() + addons@.len() == n,
            forall|k: int| 0 <= k < entries@.len() ==> entry_ok(#[trigger] entries@[k], input, sort, keys)
                && entries@[k].idx == n - 1 - k,
        decreases addons.len(),
    {
        let idx = addons.len() - 1;
        let a = addons.pop().unwrap();
        proof {
            assert(input.take(idx as int + 1)[idx as int] == input[idx as int]);
            assert(addons@ =~= input.take(idx as int));
        }
        entries.push(make_entry(a, idx, sort, keys));
    }
    let mut i: usize = 1;
    while i < entries.len()
        invariant
            entries@.len() == n,
            forall|k: int| 0 <= k < n ==> entry_ok(#[trigger] entries@[k], input, sort, keys),
            forall|k: int, l: int| 0 <= k < l < n ==> (#[trigger] entries@[k]).idx != (#[trigger] entries@[l]).idx,
            forall|k: int, l: int| 0 <= k < l < i && l < n ==> entry_precedes(#[trigger] entries@[k], #[trigger] entries@[l], sort, ascending, keys),
        decreases n - i,
    {
        let ghost s = entries@;
        let x = entries.remove(i);
        let mut j: usize = i;
        while j > 0 && before(&x, &entries[j - 1], ascending)
            invariant
                0 <= j <= i,
                i < n,
                s.len() == n,
                entries@ == s.remove(i as int),
                x == s[i as int],
                forall|k: int| 0 <= k < n ==> entry_ok(#[trigger] s[k], input, sort, keys),
                forall|m: int| j <= m < i ==> entry_precedes(x, #[trigger] s[m], sort, ascending, keys),
            decreases j,
        {
            assert(entries@[j - 1] == s[j - 1]);
            j -= 1;
        }
        proof {
            if j > 0 {
                assert(entries@[j - 1] == s[j - 1]);
            }
            lemma_insert_sorted(s, i as int, j as int, input, sort, ascending, keys);
        }
        entries.insert(j, x);
        proof {
            assert(entries@ =~= s.remove(i as int).insert(j as int, s[i as int]));
        }
        i += 1;
    }
    let ghost sorted = entries@;
    let ghost perm = sorted.map_values(|e: Entry| e.idx as int);
    let mut k: usize = 0;
    while k < n
        invariant
            k <= n,
            n == sorted.len(),
            entries@ == sorted.skip(k as int),
            addons@.len() == k,
            forall|m: int| 0 <= m < k ==> addons@[m] == (#[trigger] sorted[m]).item,
        decreases n - k,
    {
        let e = entries.remove(0);
        proof {
            assert(e == sorted[k as int]);
            assert(entries@ =~= sorted.skip(k + 1));
        }
        addons.push(e.item);
        k += 1;
    }
    proof {
        assert(is_listing_by(input, addons@, perm, sort, ascending, keys)) by {
            assert forall|k: int, l: int| 0 <= k < l < perm.len() implies precedes_by(input[#[trigger] perm[k]], perm[k], input[#[trigger] perm[l]], perm[l], sort, ascending, keys) by {
                assert(entry_precedes(sorted[k], sorted[l], sort, ascending, keys));
            }
        }
    }
}

/// Every position of the input is picked by a listing.
proof fn lemma_listing_covers(
    input: Seq<AddonShowDetails>,
    out: Seq<AddonShowDetails>,
    perm: Seq<int>,
    sort: Sort,
    asc: bool,
    keys: Keys,
    i: int,
)
    requires
        is_listing_by(input, out, perm, sort, asc, keys),
        0 <= i < input.len(),
    ensures
        perm.contains(i),
{
    assert forall|k: int, l: int| 0 <= k < perm.len() && 0 <= l < perm.len() && k != l implies perm[k] != perm[l] by {
        if k < l {
            lemma_precedes_order(input[perm[k]], perm[k], input[perm[l]], perm[l], input[perm[k]], perm[k], sort, asc, keys);
        } else {
            lemma_precedes_order(input[perm[l]], perm[l], input[perm[k]], perm[k], input[perm[l]], perm[l], sort, asc, keys);
        }
    }
    assert(perm.no_duplicates());
    perm.unique_seq_to_set();
    let range = vstd::set_lib::set_int_range(0, input.len() as int);
    vstd::set_lib::lemma_int_range(0, input.len() as int);
    assert forall|x: int| perm.to_set().contains(x) implies range.contains(x) by {
        let k = choose|k: int| 0 <= k < perm.len() && perm[k] == x;
        assert(0 <= perm[k] < input.len());
    }
    vstd::set_lib::lemma_len_subset(perm.to_set(), range);
    vstd::set_lib::lemma_subset_equality(perm.to_set(), range);
    assert(range.contains(i));
    assert(perm.to_set().contains(i));
}

/// Two listings of one input agree on their first `k + 1` picks.
proof fn lemma_listing_agree(
    input: Seq<AddonShowDetails>,
    out1: Seq<AddonShowDetails>,
    perm1: Seq<int>,
    out2: Seq<AddonShowDetails>,
    perm2: Seq<int>,
    sort: Sort,
    asc: bool,
    keys: Keys,
    k: int,
)
    requires
        is_listing_by(input, out1, perm1, sort, asc, keys),
        is_listing_by(input, out2, perm2, sort, asc, keys),
        0 <= k < perm1.len(),
    ensures
        forall|m: int| 0 <= m <= k ==> perm1[m] == perm2[m],
    decreases k,
{
    if k > 0 {
        lemma_listing_agree(input, out1, perm1, out2, perm2, sort, asc, keys, k - 1);
    }
    let a = perm1[k];
    let b = perm2[k];
    if a != b {
        assert(0 <= a < input.len() && 0 <= b < input.len());
        lemma_listing_covers(input, out2, perm2, sort, asc, keys, a);
        lemma_listing_covers(input, out1, perm1, sort, asc, keys, b);
        let m = choose|m: int| 0 <= m < perm2.len() && perm2[m] == a;
        let n = choose|n: int| 0 <= n < perm1.len() && perm1[n] == b;
        lemma_precedes_order(input[a], a, input[a], a, input[a], a, sort, asc, keys);
        lemma_precedes_order(input[b], b, input[b], b, input[b], b, sort, asc, keys);
        lemma_precedes_order(input[a], a, input[b], b, input[a], a, sort, asc, keys);
        if m < k {
            assert(perm1[m] == a);
            assert(precedes_by(input[perm1[m]], perm1[m], input[perm1[k]], perm1[k], sort, asc, keys));
        } else if n < k {
            assert(perm2[n] == b);
            assert(precedes_by(input[perm2[n]], perm2[n], input[perm2[k]], perm2[k], sort, asc, keys));
        } else {
            assert(m > k && n > k);
            assert(precedes_by(input[perm2[k]], perm2[k], input[perm2[m]], perm2[m], sort, asc, keys));
            assert(precedes_by(input[perm1[k]], perm1[k], input[perm1[n]], perm1[n], sort, asc, keys));
        }
    }
}

/// A listing is determined by its input, column, direction and keys: two
/// lists that each list the same input in that order are the same list,
/// picked in the same way.
pub proof fn lemma_listing_unique(
    input: Seq<AddonShowDetails>,
    out1: Seq<AddonShowDetails>,
    perm1: Seq<int>,
    out2: Seq<AddonShowDetails>,
    perm2: Seq<int>,
    sort: Sort,
    asc: bool,
    keys: Keys,
)
    requires
        is_listing_by(input, out1, perm1, sort, asc, keys),
        is_listing_by(input, out2, perm2, sort, asc, keys),
    ensures
        perm1 == perm2,
        out1 == out2,
{
    if perm1.len() > 0 {
        lemma_listing_agree(input, out1, perm1, out2, perm2, sort, asc, keys, perm1.len() - 1);
    }
    assert(perm1 =~= perm2);
    assert forall|k: int| 0 <= k < out1.len() implies out1[k] == out2[k] by {
        assert(out1[k] == input[perm1[k]] && out2[k] == input[perm2[k]]);
    }
    assert(out1 =~= out2);
}

/// Shortens a text longer than `length + 4` bytes to its first `length`
/// bytes followed by ` ...`.
pub fn truncate_len(text: &String, length: usize) -> (r: String)
    requires
        length <= usize::MAX - 4,
        vstd::utf8::encode_utf8(text@).len() > length + 4 ==> boundary(vstd::utf8::encode_utf8(text@), length as int),
    ensures
        vstd::utf8::encode_utf8(r@) == (if vstd::utf8::encode_utf8(text@).len() > length + 4 {
            vstd::utf8::encode_utf8(text@).take(length as int) + seq![0x20u8, 0x2e, 0x2e, 0x2e]
        } else {
            vstd::utf8::encode_utf8(text@)
        }),
{
    let s = text.as_str();
    let bytes = s.as_bytes();
    if bytes.len() > length + 4 {
        proof {
            lemma_str_valid(s);
        }
        let head = byte_slice(s, 0, length);
        let mut out = head.to_owned();
        let tail = " ...";
        proof {
            reveal_strlit(" ...");
            assert(tail@ =~= seq![' ', '.', '.', '.']);
            assert(vstd::utf8::is_ascii_chars(tail@));
            vstd::utf8::is_ascii_chars_encode_utf8(tail@);
            assert(tail@[0] as u8 == 0x20u8);
            assert(tail@[1] as u8 == 0x2eu8);
        }
        push_str(&mut out, tail);
        proof {
            lemma_encode_concat(head@, tail@);
            assert(tail.spec_bytes() =~= seq![0x20u8, 0x2e, 0x2e, 0x2e]);
            assert(head.spec_bytes() =~= s.spec_bytes().subrange(0, length as int));
            assert(s.spec_bytes().subrange(0, length as int) =~= s.spec_bytes().take(length as int));
        }
        return out;
    }
    s.to_owned()
}

/// The views of the application window.
#[derive(Clone, Copy, Debug, PartialEq, Eq, Structural)]
pub enum ViewOpt {
    /// Not really a reachable view, but a base.
    Root,
    MissingDeps,
    Installed,
    Search,
    Author,
    Settings,
    Details,
    Errors,
    Quit,
}

/// What a view asks the application to do.
#[derive(Clone, Copy, Debug, PartialEq, Eq, Structural)]
pub enum AddonResponseType {
    NoAction,
    AddonName,
    /// The installed addons have changed.
    AddonsChanged,
    AuthorName,
    /// Check for updates.
    CheckUpdate,
    Update,
    UpdateMultiple,
    Install,
    InstallMissingDeps,
    Remove,
    Close,
}

impl Default for AddonResponseType {
    fn default() -> (r: AddonResponseType)
        ensures
            r == AddonResponseType::NoAction,
    {
        AddonResponseType::NoAction
    }
}

/// A view's answer to one frame: the action and what it applies to.
pub struct AddonResponse {
    pub addon_id: i32,
    pub addon_ids: Vec<i32>,
    pub author_name: String,
    pub response_type: AddonResponseType,
    pub missing_deps: Vec<MissingDepView>,
}

impl Default for AddonResponse {
    fn default() -> (r: AddonResponse)
        ensures
            r.addon_id == 0,
            r.addon_ids@ == Seq::<i32>::empty(),
            r.author_name@ == Seq::<char>::empty(),
            r.response_type == AddonResponseType::NoAction,
            r.missing_deps@.len() == 0,
    {
        AddonResponse {
            addon_id: 0,
            addon_ids: Vec::new(),
            author_name: String::new(),
            response_type: AddonResponseType::NoAction,
            missing_deps: Vec::new(),
        }
    }
}

/// A table of addons, with or without install buttons.
pub struct AddonTable<'a> {
    addons: &'a Vec<&'a AddonShowDetails>,
    allow_install: bool,
}

impl<'a> AddonTable<'a> {
    pub closed spec fn rows(&self) -> Seq<&'a AddonShowDetails> {
        self.addons@
    }

    pub closed spec fn allows_install(&self) -> bool {
        self.allow_install
    }

    /// A table of `addons` without install buttons.
    pub fn new(addons: &'a Vec<&'a AddonShowDetails>) -> (t: Self)
        ensures
            t.rows() == addons@,
            !t.allows_install(),
    {
        AddonTable { addons, allow_install: false }
    }

    /// The same table, with install buttons shown or not.
    pub fn installable(self, value: bool) -> (t: Self)
        ensures
            t.rows() == self.rows(),
            t.allows_install() == value,
    {
        let mut t = self;
        t.allow_install = value;
        t
    }
}

/// The view that lists the errors the service recorded.
pub struct Errors {}

/// The ids of the upgradable addons of `s`, in order.
pub open spec fn upgradable_ids(s: Seq<AddonShowDetails>) -> Seq<i32>
    decreases s.len(),
{
    if s.len() == 0 {
        Seq::empty()
    } else if upgradable(s.last()) {
        upgradable_ids(s.drop_last()).push(s.last().id)
    } else {
        upgradable_ids(s.drop_last())
    }
}

/// The view of installed addons.
pub struct Installed {
    displayed_addons: Vec<AddonShowDetails>,
    filter: String,
    sort: Sort,
    prev_sort: Sort,
    ascending: bool,
    prev_ascending: bool,
}

impl Installed {
    pub closed spec fn shown(&self) -> Seq<AddonShowDetails> {
        self.displayed_addons@
    }

    pub closed spec fn sort_column(&self) -> Sort {
        self.sort
    }

    pub closed spec fn sort_ascending(&self) -> bool {
        self.ascending
    }

    /// The order the list was last sorted in.
    pub closed spec fn sorted_by(&self) -> (Sort, bool) {
        (self.prev_sort, self.prev_ascending)
    }

    /// An empty view, ordered by name.
    pub fn new() -> (v: Installed)
        ensures
            v.shown().len() == 0,
            v.sort_column() == Sort::Name,
            v.sort_ascending(),
            v.sorted_by() == (Sort::Id, true),
    {
        Installed {
            displayed_addons: Vec::new(),
            filter: String::new(),
            sort: Sort::Name,
            prev_sort: Sort::Id,
            ascending: Sort::Name.default_ascending(),
            prev_ascending: Sort::Name.default_ascending(),
        }
    }

    /// The view showing `addons`, in the view's order.
    pub fn displayed_addons(self, addons: Vec<AddonShowDetails>) -> (v: Self)
        ensures
            exists|perm: Seq<int>| is_listing(addons@, v.shown(), perm, self.sort_column(), self.sort_ascending()),
            v.sort_column() == self.sort_column(),
            v.sort_ascending() == self.sort_ascending(),
            v.sorted_by() == self.sorted_by(),
    {
        let mut v = self;
        v.displayed_addons = addons;
        let ghost mid = v.shown();
        v.sort_addons();
        proof {
            let perm = choose|perm: Seq<int>| is_listing(mid, v.shown(), perm, v.sort_column(), v.sort_ascending());
            assert(is_listing(addons@, v.shown(), perm, self.sort_column(), self.sort_ascending()));
        }
        v
    }

    /// A request to update every upgradable addon shown.
    pub fn update_addons(&mut self) -> (r: AddonResponse)
        ensures
            r.response_type == AddonResponseType::UpdateMultiple,
            r.addon_ids@ == upgradable_ids(old(self).shown()),
            r.addon_id == 0,
            *final(self) == *old(self),
    {
        let mut response = AddonResponse::default();
        let mut ids: Vec<i32> = Vec::new();
        let mut k: usize = 0;
        while k < self.displayed_addons.len()
            invariant
                k <= self.displayed_addons@.len(),
                ids@ == upgradable_ids(self.displayed_addons@.take(k as int)),
            decreases self.displayed_addons.len() - k,
        {
            proof {
                assert(self.displayed_addons@.take(k + 1).drop_last() =~= self.displayed_addons@.take(k as int));
            }
            if self.displayed_addons[k].is_upgradable() {
                ids.push(self.displayed_addons[k].id);
            }
            k += 1;
        }
        proof {
            assert(self.displayed_addons@.take(k as int) =~= self.displayed_addons@);
        }
        response.response_type = AddonResponseType::UpdateMultiple;
        response.addon_ids = ids;
        response
    }

    /// Re-sorts when the column or direction changed since the last sort. A
    /// newly chosen column starts in its default direction.
    pub fn handle_sort(&mut self)
        ensures
            final(self).sort_column() == old(self).sort_column(),
            final(self).sort_ascending() == (if old(self).sorted_by().0 != old(self).sort_column() {
                old(self).sort_column() == Sort::Name || old(self).sort_column() == Sort::Author
                    || old(self).sort_column() == Sort::Id
            } else {
                old(self).sort_ascending()
            }),
            final(self).sorted_by() == (final(self).sort_column(), final(self).sort_ascending()),
            if old(self).sorted_by() == (old(self).sort_column(), old(self).sort_ascending()) {
                final(self).shown() == old(self).shown()
            } else {
                exists|perm: Seq<int>| is_listing(old(self).shown(), final(self).shown(), perm, final(self).sort_column(), final(self).sort_ascending())
            },
    {
        if self.prev_sort != self.sort {
            self.ascending = self.sort.default_ascending();
        } else if self.prev_ascending == self.ascending {
            return;
        }
        self.prev_sort = self.sort;
        self.prev_ascending = self.ascending;
        let ghost mid = self.shown();
        self.sort_addons();
        proof {
            let perm = choose|perm: Seq<int>| is_listing(mid, self.shown(), perm, self.sort_column(), self.sort_ascending());
            assert(is_listing(old(self).shown(), self.shown(), perm, self.sort_column(), self.sort_ascending()));
        }
    }

    fn sort_addons(&mut self)
        ensures
            exists|perm: Seq<int>| is_listing(old(self).shown(), final(self).shown(), perm, old(self).sort_column(), old(self).sort_ascending()),
            final(self).sort_column() == old(self).sort_column(),
            final(self).sort_ascending() == old(self).sort_ascending(),
            final(self).sorted_by() == old(self).sorted_by(),
    {
        let mut list: Vec<AddonShowDetails> = Vec::new();
        std::mem::swap(&mut list, &mut self.displayed_addons);
        let ghost before = list@;
        sort_addons(&mut list, self.sort, self.ascending);
        let ghost perm = choose|perm: Seq<int>| is_listing(before, list@, perm, self.sort, self.ascending);
        self.displayed_addons = list;
        assert(before == old(self).displayed_addons@);
        assert(is_listing(old(self).shown(), self.shown(), perm, old(self).sort_column(), old(self).sort_ascending()));
    }

    /// How many of the shown addons can be upgraded.
    pub fn get_updateable_addon_count(&self) -> (r: usize)
        ensures
            r == upgradable_ids(self.shown()).len(),
    {
        let mut count: usize = 0;
        let mut k: usize = 0;
        while k < self.displayed_addons.len()
            invariant
                k <= self.displayed_addons@.len(),
                count == upgradable_ids(self.displayed_addons@.take(k as int)).len(),
                count <= k,
            decreases self.displayed_addons.len() - k,
        {
            proof {
                assert(self.displayed_addons@.take(k + 1).drop_last() =~= self.displayed_addons@.take(k as int));
            }
            if self.displayed_addons[k].is_upgradable() {
                count += 1;
            }
            k += 1;
        }
        proof {
            assert(self.displayed_addons@.take(k as int) =~= self.displayed_addons@);
        }
        count
    }
}

/// What a missing-dependency entry says, as plain values.
pub struct DepModel {
    pub dir: Seq<char>,
    pub required_by: Seq<char>,
    pub options: Map<i32, Seq<char>>,
    pub ignore: bool,
    pub satisfied_by: Option<i32>,
}

pub open spec fn dep_model(v: MissingDepView) -> DepModel {
    DepModel {
        dir: v.missing_dir@,
        required_by: v.required_by@,
        options: v.options@.map_values(|s: String| s@),
        ignore: v.ignore,
        satisfied_by: v.satisfied_by,
    }
}

pub open spec fn dep_models(vs: Seq<MissingDepView>) -> Seq<DepModel> {
    vs.map_values(|v: MissingDepView| dep_model(v))
}

/// The position of the first entry for `dir` at or after `k`, or -1.
pub open spec fn dir_index(ms: Seq<DepModel>, dir: Seq<char>, k: int) -> int
    decreases ms.len() - k,
{
    if k < 0 || k >= ms.len() {
        -1
    } else if ms[k].dir == dir {
        k
    } else {
        dir_index(ms, dir, k + 1)
    }
}

/// Records one dependency option: the entry for its directory is created
/// (for the addon that requires it) if there is none, and the option, if
/// any, is added to it.
pub open spec fn add_dep(ms: Seq<DepModel>, d: AddonDepOption) -> Seq<DepModel> {
    let k = dir_index(ms, d.missing_dir@, 0);
    let base = if k >= 0 {
        ms[k]
    } else {
        DepModel {
            dir: d.missing_dir@,
            required_by: d.required_by@,
            options: Map::empty(),
            ignore: false,
            satisfied_by: None,
        }
    };
    let entry = DepModel {
        dir: d.missing_dir@,
        options: match d.option_id {
            Some(id) => base.options.insert(id, d.option_name->0@),
            None => base.options,
        },
        ..base
    };
    if k >= 0 {
        ms.update(k, entry)
    } else {
        ms.push(entry)
    }
}

/// Records the dependency options `ds` in order.
pub open spec fn add_deps(ms: Seq<DepModel>, ds: Seq<AddonDepOption>) -> Seq<DepModel>
    decreases ds.len(),
{
    if ds.len() == 0 {
        ms
    } else {
        add_dep(add_deps(ms, ds.drop_last()), ds.last())
    }
}

/// No directory has two entries.
pub open spec fn unique_dirs(ms: Seq<DepModel>) -> bool {
    forall|i: int, j: int| 0 <= i < j < ms.len() ==> (#[trigger] ms[i]).dir != (#[trigger] ms[j]).dir
}

proof fn lemma_dir_index(ms: Seq<DepModel>, dir: Seq<char>, k: int)
    requires
        0 <= k,
    ensures
        dir_index(ms, dir, k) == -1 ==> forall|j: int| k <= j < ms.len() ==> (#[trigger] ms[j]).dir != dir,
        dir_index(ms, dir, k) != -1 ==> k <= dir_index(ms, dir, k) < ms.len() && ms[dir_index(ms, dir, k)].dir == dir,
    decreases ms.len() - k,
{
    if k < ms.len() && ms[k].dir != dir {
        lemma_dir_index(ms, dir, k + 1);
    }
}

proof fn lemma_add_dep_unique(ms: Seq<DepModel>, d: AddonDepOption)
    requires
        unique_dirs(ms),
    ensures
        unique_dirs(add_dep(ms, d)),
{
    lemma_dir_index(ms, d.missing_dir@, 0);
    let r = add_dep(ms, d);
    assert forall|i: int, j: int| 0 <= i < j < r.len() implies (#[trigger] r[i]).dir != (#[trigger] r[j]).dir by {
        if j < ms.len() {
            assert(r[i].dir == ms[i].dir);
            assert(r[j].dir == ms[j].dir);
        }
    }
}

/// Copies an entry.
fn copy_view(v: &MissingDepView) -> (r: MissingDepView)
    ensures
        dep_model(r) == dep_model(*v),
{
    MissingDepView {
        missing_dir: v.missing_dir.clone(),
        required_by: v.required_by.clone(),
        options: v.options.clone(),
        ignore: v.ignore,
        satisfied_by: v.satisfied_by,
    }
}

/// The view that asks how to provide missing dependencies.
pub struct MissingDeps {
    missing_deps: Vec<MissingDepView>,
    addon_names: Vec<String>,
    addon_map: HashMap<i32, String>,
    rev_addon_map: Vec<(String, i32)>,
}

impl MissingDeps {
    /// The entries, one per missing directory.
    pub closed spec fn entries(&self) -> Seq<DepModel> {
        dep_models(self.missing_deps@)
    }

    /// A view with nothing missing.
    pub fn new() -> (v: MissingDeps)
        ensures
            v.entries().len() == 0,
    {
        MissingDeps {
            missing_deps: Vec::new(),
            addon_names: Vec::new(),
            addon_map: HashMap::new(),
            rev_addon_map: Vec::new(),
        }
    }

    /// Whether any dependency is missing.
    pub fn has_missing(&self) -> (r: bool)
        ensures
            r == (self.entries().len() > 0),
    {
        self.missing_deps.len() > 0
    }

    /// Records dependency options: one entry per missing directory, with
    /// every option offered for it.
    pub fn set_deps(&mut self, deps: Vec<AddonDepOption>)
        requires
            forall|i: int| 0 <= i < deps@.len() ==> (#[trigger] deps@[i]).option_id is Some ==> deps@[i].option_name is Some,
        ensures
            final(self).entries() == add_deps(old(self).entries(), deps@),
            unique_dirs(old(self).entries()) ==> unique_dirs(final(self).entries()),
    {
        broadcast use vstd::std_specs::hash::group_hash_axioms;
        let mut i: usize = 0;
        proof {
            assert(deps@.take(0) =~= Seq::<AddonDepOption>::empty());
        }
        while i < deps.len()
            invariant
                i <= deps@.len(),
                forall|j: int| 0 <= j < deps@.len() ==> (#[trigger] deps@[j]).option_id is Some ==> deps@[j].option_name is Some,
                dep_models(self.missing_deps@) == add_deps(dep_models(old(self).missing_deps@), deps@.take(i as int)),
                unique_dirs(dep_models(old(self).missing_deps@)) ==> unique_dirs(dep_models(self.missing_deps@)),
            decreases deps.len() - i,
        {
            let dep = &deps[i];
            let ghost ms = dep_models(self.missing_deps@);
            proof {
                assert(deps@.take(i + 1).drop_last() =~= deps@.take(i as int));
                assert(deps@.take(i + 1).last() == deps@[i as int]);
                if unique_dirs(ms) {
                    lemma_add_dep_unique(ms, *dep);
                }
            }
            let mut k: usize = 0;
            while k < self.missing_deps.len()
                invariant
                    k <= self.missing_deps@.len(),
                    ms == dep_models(self.missing_deps@),
                    dir_index(ms, dep.missing_dir@, 0) == dir_index(ms, dep.missing_dir@, k as int),
                ensures
                    k <= self.missing_deps@.len(),
                    ms == dep_models(self.missing_deps@),
                    dir_index(ms, dep.missing_dir@, 0) == dir_index(ms, dep.missing_dir@, k as int),
                    k < self.missing_deps@.len() ==> ms[k as int].dir == dep.missing_dir@,
                decreases self.missing_deps.len() - k,
            {
                if str_eq(self.missing_deps[k].missing_dir.as_str(), dep.missing_dir.as_str()) {
                    assert(ms[k as int].dir == dep.missing_dir@);
                    break;
                }
                k += 1;
            }
            let found = k < self.missing_deps.len();
            let mut view = if found {
                self.missing_deps.remove(k)
            } else {
                MissingDepView::new(dep.required_by.clone())
            };
            view.missing_dir = dep.missing_dir.clone();
            if let Some(id) = dep.option_id {
                let name = dep.option_name.as_ref().unwrap().clone();
                view.options.insert(id, name);
            }
            let ghost entry = dep_model(view);
            if found {
                self.missing_deps.insert(k, view);
            } else {
                self.missing_deps.push(view);
            }
            proof {
                let r = add_dep(ms, *dep);
                if found {
                    assert(dep_models(self.missing_deps@) =~= ms.update(k as int, entry));
                    assert(entry.options =~= r[k as int].options);
                } else {
                    assert(dep_models(self.missing_deps@) =~= ms.push(entry));
                    assert(entry.options =~= r[ms.len() as int].options);
                }
                assert(dep_models(self.missing_deps@) =~= r);
            }
            i += 1;
        }
        proof {
            assert(deps@.take(i as int) =~= deps@);
        }
    }

    /// Ready to install once every missing dependency is ignored or has a
    /// provider chosen.
    pub fn install_missing_ready(&self) -> (r: bool)
        ensures
            r == forall|k: int| 0 <= k < self.entries().len() ==> (#[trigger] self.entries()[k]).ignore
                || self.entries()[k].satisfied_by is Some,
    {
        let mut k: usize = 0;
        while k < self.missing_deps.len()
            invariant
                k <= self.missing_deps@.len(),
                forall|j: int| 0 <= j < k ==> (#[trigger] self.missing_deps@[j]).ignore || self.missing_deps@[j].satisfied_by is Some,
            decreases self.missing_deps.len() - k,
        {
            if !(self.missing_deps[k].ignore || self.missing_deps[k].satisfied_by.is_some()) {
                assert(!(self.entries()[k as int].ignore || self.entries()[k as int].satisfied_by is Some));
                return false;
            }
            k += 1;
        }
        true
    }

    /// Ticks or clears "Ignore" on entry `k`.
    pub fn set_ignore(&mut self, k: usize, ignore: bool)
        requires
            k < old(self).entries().len(),
        ensures
            final(self).entries() == old(self).entries().update(k as int, DepModel { ignore, ..old(self).entries()[k as int] }),
    {
        let mut v = self.missing_deps.remove(k);
        v.ignore = ignore;
        self.missing_deps.insert(k, v);
        proof {
            assert(self.entries() =~= old(self).entries().update(k as int, DepModel { ignore, ..old(self).entries()[k as int] }));
        }
    }

    /// Picks addon `id`, installed or suggested, as the provider of entry `k`.
    pub fn choose_provider(&mut self, k: usize, id: i32)
        requires
            k < old(self).entries().len(),
        ensures
            final(self).entries() == old(self).entries().update(k as int, DepModel {
                satisfied_by: Some(id),
                ..old(self).entries()[k as int]
            }),
    {
        let mut v = self.missing_deps.remove(k);
        v.satisfied_by = Some(id);
        self.missing_deps.insert(k, v);
        proof {
            assert(self.entries() =~= old(self).entries().update(k as int, DepModel {
                satisfied_by: Some(id),
                ..old(self).entries()[k as int]
            }));
        }
    }

    /// The text of the suggestion box of entry `k`: the name of the chosen
    /// provider among the suggestions, or empty.
    pub fn suggestion_text(&self, k: usize) -> (r: String)
        requires
            k < self.entries().len(),
        ensures
            r@ == ({
                let e = self.entries()[k as int];
                let id = match e.satisfied_by {
                    Some(i) => i,
                    None => 0,
                };
                if e.options.contains_key(id) {
                    e.options[id]
                } else {
                    Seq::empty()
                }
            }),
    {
        broadcast use vstd::std_specs::hash::group_hash_axioms;
        let v = &self.missing_deps[k];
        let id = match v.satisfied_by {
            Some(i) => i,
            None => 0,
        };
        match v.options.get(&id) {
            Some(name) => name.clone(),
            None => String::new(),
        }
    }

    /// The line naming the addon that needs entry `k`.
    pub fn required_by_line(&self, k: usize) -> (r: String)
        requires
            k < self.entries().len(),
        ensures
            r@ == "Required By: "@ + self.entries()[k as int].required_by,
    {
        let mut out = "Required By: ".to_owned();
        out.append(self.missing_deps[k].required_by.as_str());
        out
    }

    /// A request to install the chosen providers and ignore the rest.
    pub fn install_new(&mut self) -> (r: AddonResponse)
        ensures
            r.response_type == AddonResponseType::InstallMissingDeps,
            dep_models(r.missing_deps@) == old(self).entries(),
            r.addon_ids@.len() == 0,
            r.addon_id == 0,
            final(self).entries() == old(self).entries(),
    {
        let mut vecs: Vec<MissingDepView> = Vec::new();
        let mut k: usize = 0;
        while k < self.missing_deps.len()
            invariant
                k <= self.missing_deps@.len(),
                vecs@.len() == k,
                forall|j: int| 0 <= j < k ==> dep_model(#[trigger] vecs@[j]) == dep_model(self.missing_deps@[j]),
            decreases self.missing_deps.len() - k,
        {
            let c = copy_view(&self.missing_deps[k]);
            vecs.push(c);
            k += 1;
        }
        proof {
            assert(dep_models(vecs@) =~= dep_models(self.missing_deps@));
        }
        let mut r = AddonResponse::default();
        r.missing_deps = vecs;
        r.response_type = AddonResponseType::InstallMissingDeps;
        r
    }
}

/// Whether `pat` occurs in `s`.
pub open spec fn contains_seq(s: Seq<char>, pat: Seq<char>) -> bool {
    exists|i: int| 0 <= i && i + pat.len() <= s.len() && #[trigger] s.subrange(i, i + pat.len()) == pat
}

/// Whether `pat` occurs in `s`, as `str::contains` finds it.
fn chars_contain(s: &Vec<char>, pat: &Vec<char>) -> (r: bool)
    ensures
        r == contains_seq(s@, pat@),
{
    if pat.len() > s.len() {
        return false;
    }
    let last = s.len() - pat.len();
    let mut i: usize = 0;
    while i <= last
        invariant
            pat@.len() <= s@.len(),
            last == s@.len() - pat@.len(),
            i <= last,
            forall|j: int| 0 <= j < i ==> #[trigger] s@.subrange(j, j + pat@.len()) != pat@,
        decreases last - i,
    {
        let mut k: usize = 0;
        let mut same = true;
        while k < pat.len()
            invariant
                i <= last,
                last == s@.len() - pat@.len(),
                pat@.len() <= s@.len(),
                s@.len() == s.len(),
                pat@.len() == pat.len(),
                k <= pat@.len(),
                same == forall|m: int| 0 <= m < k ==> s@[i + m] == pat@[m],
            decreases pat.len() - k,
        {
            if s[i + k] != pat[k] {
                same = false;
            }
            k += 1;
        }
        if same {
            proof {
                assert(s@.subrange(i as int, i + pat@.len()) =~= pat@);
            }
            return true;
        }
        proof {
            let m = choose|m: int| 0 <= m < pat@.len() && s@[i + m] != pat@[m];
            assert(s@.subrange(i as int, i + pat@.len())[m] != pat@[m]);
        }
        if i == last {
            proof {
                assert forall|j: int| 0 <= j && j + pat@.len() <= s@.len() implies #[trigger] s@.subrange(j, j + pat@.len()) != pat@ by {
                    assert(j <= i);
                }
            }
            return false;
        }
        i += 1;
    }
    false
}

/// The category that holds libraries.
pub open spec fn library_category() -> Seq<char> {
    "Libraries"@
}

/// An addon shown under the filter text `f`: its name, lower-cased,
/// contains `f` lower-cased.
pub open spec fn filter_matches(a: AddonShowDetails, f: Seq<char>) -> bool {
    contains_seq(lowercase(a.name@), lowercase(f))
}

/// The positions among the first `k` addons that pass the filter and,
/// when `only` is `Some(lib)`, are libraries or not as `lib` says.
pub open spec fn matched_positions(s: Seq<AddonShowDetails>, f: Seq<char>, only: Option<bool>, k: int) -> Seq<usize>
    decreases k,
{
    if k <= 0 || k > s.len() {
        Seq::empty()
    } else {
        let rest = matched_positions(s, f, only, k - 1);
        let a = s[k - 1];
        let keep = filter_matches(a, f) && match only {
            Some(lib) => (a.category@ == library_category()) == lib,
            None => true,
        };
        if keep {
            rest.push((k - 1) as usize)
        } else {
            rest
        }
    }
}

/// The tables the installed view shows: with no filter, libraries apart
/// from the other addons; with a filter, one table of the matches.
pub struct InstalledTables {
    pub libraries: Vec<usize>,
    pub addons: Vec<usize>,
}

impl Installed {
    pub closed spec fn filter_text(&self) -> Seq<char> {
        self.filter@
    }

    /// Sets the filter text.
    pub fn set_filter(&mut self, f: String)
        ensures
            final(self).filter_text() == f@,
            final(self).shown() == old(self).shown(),
            final(self).sort_column() == old(self).sort_column(),
            final(self).sort_ascending() == old(self).sort_ascending(),
            final(self).sorted_by() == old(self).sorted_by(),
    {
        self.filter = f;
    }

    /// Sets the column and direction the view is ordered by.
    pub fn set_sort(&mut self, sort: Sort, ascending: bool)
        ensures
            final(self).sort_column() == sort,
            final(self).sort_ascending() == ascending,
            final(self).shown() == old(self).shown(),
            final(self).sorted_by() == old(self).sorted_by(),
            final(self).filter_text() == old(self).filter_text(),
    {
        self.sort = sort;
        self.ascending = ascending;
    }

    /// Which addons go in which table, by position in the shown list.
    pub fn tables(&self) -> (t: InstalledTables)
        ensures
            lowercase(self.filter_text()).len() == 0 ==> {
                &&& t.libraries@ == matched_positions(self.shown(), self.filter_text(), Some(true), self.shown().len() as int)
                &&& t.addons@ == matched_positions(self.shown(), self.filter_text(), Some(false), self.shown().len() as int)
            },
            lowercase(self.filter_text()).len() > 0 ==> {
                &&& t.libraries@.len() == 0
                &&& t.addons@ == matched_positions(self.shown(), self.filter_text(), None, self.shown().len() as int)
            },
    {
        let f = to_lowercase(self.filter.as_str());
        let fc = str_chars(f.as_str());
        let lib_name = str_chars("Libraries");
        let split = fc.len() == 0;
        let mut libraries: Vec<usize> = Vec::new();
        let mut addons: Vec<usize> = Vec::new();
        let mut k: usize = 0;
        let ghost s = self.displayed_addons@;
        let ghost ft = self.filter@;
        while k < self.displayed_addons.len()
            invariant
                k <= s.len(),
                s == self.displayed_addons@,
                ft == self.filter@,
                fc@ == lowercase(ft),
                lib_name@ == library_category(),
                split == (fc@.len() == 0),
                split ==> libraries@ == matched_positions(s, ft, Some(true), k as int),
                split ==> addons@ == matched_positions(s, ft, Some(false), k as int),
                !split ==> libraries@.len() == 0,
                !split ==> addons@ == matched_positions(s, ft, None, k as int),
            decreases s.len() - k,
        {
            let a = &self.displayed_addons[k];
            let name = to_lowercase(a.name.as_str());
            let nc = str_chars(name.as_str());
            let hit = chars_contain(&nc, &fc);
            if hit {
                if split {
                    let cat = str_chars(a.category.as_str());
                    if chars_eq(&cat, &lib_name) {
                        libraries.push(k);
                    } else {
                        addons.push(k);
                    }
                } else {
                    addons.push(k);
                }
            }
            k += 1;
        }
        InstalledTables { libraries, addons }
    }
}

/// What clicking a column header does: the active column flips direction;
/// another column becomes active in its default direction.
pub fn header_clicked(sort: &mut Sort, ascending: &mut bool, column: Sort)
    ensures
        *final(sort) == column,
        *final(ascending) == (if *old(sort) == column {
            !*old(ascending)
        } else {
            column == Sort::Name || column == Sort::Author || column == Sort::Id
        }),
{
    if *sort == column {
        *ascending = !*ascending;
    } else {
        *sort = column;
        *ascending = column.default_ascending();
    }
}

/// The action buttons a table row shows: none without install rights;
/// install for an addon that is not installed; otherwise update when it can
/// be upgraded, then remove.
pub open spec fn row_buttons_spec(a: AddonShowDetails, allow_install: bool) -> Seq<AddonResponseType> {
    if !allow_install {
        Seq::empty()
    } else if !a.installed {
        seq![AddonResponseType::Install]
    } else if upgradable(a) {
        seq![AddonResponseType::Update, AddonResponseType::Remove]
    } else {
        seq![AddonResponseType::Remove]
    }
}

/// The action buttons of a row, top to bottom.
pub fn row_buttons(a: &AddonShowDetails, allow_install: bool) -> (r: Vec<AddonResponseType>)
    ensures
        r@ == row_buttons_spec(*a, allow_install),
{
    let mut r: Vec<AddonResponseType> = Vec::new();
    if !allow_install {
        return r;
    }
    if !a.installed {
        r.push(AddonResponseType::Install);
        return r;
    }
    if a.is_upgradable() {
        r.push(AddonResponseType::Update);
    }
    r.push(AddonResponseType::Remove);
    proof {
        assert(r@ =~= row_buttons_spec(*a, allow_install));
    }
    r
}

/// A popular addon, marked with a star: more than 5000 downloads.
pub fn is_popular(a: &AddonShowDetails) -> (r: bool)
    ensures
        r == (count_of(a.download_total) > 5000),
{
    count(&a.download_total) > 5000
}

/// The positions of the addons whose lower-cased name contains the
/// lower-cased filter text.
pub fn filter_positions(list: &Vec<AddonShowDetails>, filter: &str) -> (r: Vec<usize>)
    ensures
        r@ == matched_positions(list@, filter@, None, list@.len() as int),
{
    let f = to_lowercase(filter);
    let fc = str_chars(f.as_str());
    let mut out: Vec<usize> = Vec::new();
    let mut k: usize = 0;
    while k < list.len()
        invariant
            k <= list@.len(),
            fc@ == lowercase(filter@),
            out@ == matched_positions(list@, filter@, None, k as int),
        decreases list.len() - k,
    {
        let name = to_lowercase(list[k].name.as_str());
        let nc = str_chars(name.as_str());
        if chars_contain(&nc, &fc) {
            out.push(k);
        }
        k += 1;
    }
    out
}

} // verus!
