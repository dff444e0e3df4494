//! Tag statistics over parsed addon descriptions: how often each tag
//! occurs, in which addons, and how deeply elements nest.

use vstd::prelude::*;
use crate::bbcode::{Document, Element, Node};
use crate::config::{find_key, keyed_map, unique_keys, upsert};
use crate::text::{push_char, str_chars, str_eq, strings_view};

verus! {

/// A character lower-cased if it is an ASCII capital.
pub open spec fn lower_char(c: char) -> char {
    if 'A' <= c && c <= 'Z' {
        (((c as u8) + 32) as u8) as char
    } else {
        c
    }
}

/// A text with its ASCII capitals lower-cased, as `str::to_ascii_lowercase`
/// gives it.
pub open spec fn ascii_lowercase(s: Seq<char>) -> Seq<char> {
    s.map_values(|c: char| lower_char(c))
}

/// The tags of the elements of a node, lower-cased, in document order.
pub open spec fn tags_of(n: Node) -> Seq<Seq<char>>
    decreases n, 0nat,
{
    match n {
        Node::Text(_) => Seq::empty(),
        Node::Element(e) => seq![ascii_lowercase(e.tag@)] + children_tags(e.children@, e.children@.len()),
    }
}

/// The tags of the first `k` nodes, in document order.
pub open spec fn children_tags(ns: Seq<Node>, k: nat) -> Seq<Seq<char>>
    decreases ns, k,
{
    if k == 0 || k > ns.len() {
        Seq::empty()
    } else {
        children_tags(ns, (k - 1) as nat) + tags_of(ns[k - 1])
    }
}

/// How deeply elements nest in a node: 0 for text.
pub open spec fn nesting(n: Node) -> nat
    decreases n, 0nat,
{
    match n {
        Node::Text(_) => 0,
        Node::Element(e) => 1 + children_nesting(e.children@, e.children@.len()),
    }
}

/// The deepest nesting among the first `k` nodes.
pub open spec fn children_nesting(ns: Seq<Node>, k: nat) -> nat
    decreases ns, k,
{
    if k == 0 || k > ns.len() {
        0
    } else {
        let d = children_nesting(ns, (k - 1) as nat);
        let e = nesting(ns[k - 1]);
        if d >= e {
            d
        } else {
            e
        }
    }
}

/// Counts with the tags `tags` added, in order.
pub open spec fn tally_int(m: Map<Seq<char>, int>, tags: Seq<Seq<char>>) -> Map<Seq<char>, int>
    decreases tags.len(),
{
    if tags.len() == 0 {
        m
    } else {
        let p = tally_int(m, tags.drop_last());
        let t = tags.last();
        p.insert(t, if p.contains_key(t) { p[t] + 1 } else { 1 })
    }
}

/// The addons each tag was seen in, with `addon` added for each of `tags`.
pub open spec fn seen(m: Map<Seq<char>, Set<Seq<char>>>, tags: Seq<Seq<char>>, addon: Seq<char>) -> Map<Seq<char>, Set<Seq<char>>>
    decreases tags.len(),
{
    if tags.len() == 0 {
        m
    } else {
        let p = seen(m, tags.drop_last(), addon);
        let t = tags.last();
        p.insert(t, if p.contains_key(t) { p[t].insert(addon) } else { set![addon] })
    }
}

/// Tag statistics gathered so far.
pub struct TagStats {
    /// How often each tag occurred.
    pub counts: Vec<(String, usize)>,
    /// The addons each tag occurred in, each once.
    pub addons: Vec<(String, Vec<String>)>,
    /// How many tags were counted in all.
    pub hits: usize,
    /// The deepest nesting seen.
    pub max_depth: usize,
}

impl TagStats {
    pub open spec fn count_map(&self) -> Map<Seq<char>, int> {
        keyed_map(self.counts@).map_values(|v: usize| v as int)
    }

    pub open spec fn addon_map(&self) -> Map<Seq<char>, Set<Seq<char>>> {
        keyed_map(self.addons@).map_values(|v: Vec<String>| strings_view(v@).to_set())
    }

    pub open spec fn wf(&self) -> bool {
        &&& unique_keys(self.counts@)
        &&& unique_keys(self.addons@)
        &&& forall|k: Seq<char>| #[trigger] keyed_map(self.addons@).contains_key(k) ==> strings_view(
            keyed_map(self.addons@)[k]@,
        ).no_duplicates()
        &&& forall|k: Seq<char>| #[trigger] keyed_map(self.counts@).contains_key(k) ==> keyed_map(self.counts@)[k] <= self.hits
    }

    pub fn new() -> (s: TagStats)
        ensures
            s.wf(),
            s.count_map() == Map::<Seq<char>, int>::empty(),
            s.addon_map() == Map::<Seq<char>, Set<Seq<char>>>::empty(),
            s.hits == 0,
            s.max_depth == 0,
            s.counts@.len() == 0,
            s.addons@.len() == 0,
    {
        let s = TagStats { counts: Vec::new(), addons: Vec::new(), hits: 0, max_depth: 0 };
        proof {
            assert(s.count_map() =~= Map::<Seq<char>, int>::empty());
            assert(s.addon_map() =~= Map::<Seq<char>, Set<Seq<char>>>::empty());
        }
        s
    }

    /// Counts one occurrence of `tag` in `addon`.
    fn record(&mut self, tag: String, addon: &str)
        requires
            old(self).wf(),
            old(self).hits < usize::MAX,
        ensures
            final(self).wf(),
            final(self).hits == old(self).hits + 1,
            final(self).max_depth == old(self).max_depth,
            final(self).count_map() == tally_int(old(self).count_map(), seq![tag@]),
            final(self).addon_map() == seen(old(self).addon_map(), seq![tag@], addon@),
    {
        let n: usize = match find_key(&self.counts, tag.as_str()) {
            Some(i) => self.counts[i].1 + 1,
            None => 1,
        };
        let ghost before = keyed_map(self.counts@);
        let key = tag.clone();
        upsert(&mut self.counts, key, n);
        proof {
            assert(keyed_map(self.counts@) == before.insert(tag@, n));
            assert(self.count_map() =~= old(self).count_map().insert(tag@, n as int));
            assert forall|k: Seq<char>| #[trigger] keyed_map(self.counts@).contains_key(k) implies keyed_map(self.counts@)[k] <= old(self).hits + 1 by {
                if k != tag@ {
                    assert(before.contains_key(k));
                }
            }
        }
        let ghost counted = self.count_map();
        let mut list: Vec<String> = match find_key(&self.addons, tag.as_str()) {
            Some(i) => copy_list(&self.addons[i].1),
            None => Vec::new(),
        };
        let ghost lbefore = strings_view(list@).to_set();
        proof {
            assert(strings_view(list@).no_duplicates());
            let m = old(self).addon_map();
            if m.contains_key(tag@) {
                assert(lbefore == m[tag@]);
            } else {
                assert(lbefore =~= Set::<Seq<char>>::empty());
            }
        }
        let mut present = false;
        let mut k: usize = 0;
        while k < list.len()
            invariant
                k <= list@.len(),
                strings_view(list@).to_set() == lbefore,
                strings_view(list@).no_duplicates(),
                present == exists|j: int| 0 <= j < k && (#[trigger] list@[j])@ == addon@,
            decreases list.len() - k,
        {
            if str_eq(list[k].as_str(), addon) {
                present = true;
            }
            k += 1;
        }
        if !present {
            let ghost pre = list@;
            list.push(addon.to_string());
            proof {
                let sv = strings_view(list@);
                let sp = strings_view(pre);
                assert(sp.to_set() == lbefore);
                assert(sv =~= sp.push(addon@));
                assert forall|x: Seq<char>| sv.contains(x) == (sp.contains(x) || x == addon@) by {
                    if sv.contains(x) && x != addon@ {
                        let j = choose|j: int| 0 <= j < sv.len() && sv[j] == x;
                        assert(sp[j] == x);
                    }
                    if sp.contains(x) {
                        let j = choose|j: int| 0 <= j < sp.len() && sp[j] == x;
                        assert(sv[j] == x);
                    }
                    if x == addon@ {
                        assert(sv[sv.len() - 1] == x);
                    }
                }
                assert(sv.to_set() =~= lbefore.insert(addon@));
                assert(!sp.contains(addon@)) by {
                    if sp.contains(addon@) {
                        let j = choose|j: int| 0 <= j < sp.len() && sp[j] == addon@;
                        assert((pre[j])@ == addon@);
                    }
                }
                assert(sv.no_duplicates()) by {
                    assert forall|a: int, b: int| 0 <= a < sv.len() && 0 <= b < sv.len() && a != b implies sv[a] != sv[b] by {
                        if a < sp.len() && b < sp.len() {
                            assert(sp[a] != sp[b]);
                        } else if a < sp.len() {
                            assert(sp.contains(sp[a]));
                        } else {
                            assert(sp.contains(sp[b]));
                        }
                    }
                }
            }
        } else {
            proof {
                let j = choose|j: int| 0 <= j < list@.len() && (#[trigger] list@[j])@ == addon@;
                assert(strings_view(list@)[j] == addon@);
                assert(strings_view(list@).to_set().contains(addon@));
                assert(lbefore.insert(addon@) =~= lbefore);
            }
        }
        let ghost abefore = keyed_map(self.addons@);
        let ghost newset = strings_view(list@).to_set();
        upsert(&mut self.addons, tag, list);
        proof {
            assert(newset == lbefore.insert(addon@));
            assert(keyed_map(self.addons@) == abefore.insert(tag@, list));
            assert(self.addon_map() =~= old(self).addon_map().insert(tag@, newset));
            assert forall|k: Seq<char>| #[trigger] keyed_map(self.addons@).contains_key(k) implies strings_view(
                keyed_map(self.addons@)[k]@,
            ).no_duplicates() by {
                if k != tag@ {
                    assert(abefore.contains_key(k));
                }
            }
        }
        self.hits = self.hits + 1;
        proof {
            assert(self.count_map() == counted);
            assert(counted =~= tally_int(old(self).count_map(), seq![tag@])) by {
                let m = old(self).count_map();
                assert(seq![tag@].drop_last() =~= Seq::<Seq<char>>::empty());
                assert(tally_int(m, Seq::<Seq<char>>::empty()) == m);
                assert(tally_int(m, seq![tag@]) == m.insert(tag@, if m.contains_key(tag@) { m[tag@] + 1 } else { 1 }));
            }
            assert(self.addon_map() =~= seen(old(self).addon_map(), seq![tag@], addon@)) by {
                let m = old(self).addon_map();
                assert(seq![tag@].drop_last() =~= Seq::<Seq<char>>::empty());
                assert(seen(m, Seq::<Seq<char>>::empty(), addon@) == m);
                if !m.contains_key(tag@) {
                    assert(Set::<Seq<char>>::empty().insert(addon@) =~= set![addon@]);
                }
            }
        }
    }
}

fn copy_list(v: &Vec<String>) -> (r: Vec<String>)
    ensures
        r@ == v@,
{
    let mut out: Vec<String> = Vec::new();
    let mut k: usize = 0;
    while k < v.len()
        invariant
            k <= v@.len(),
            out@ == v@.take(k as int),
        decreases v.len() - k,
    {
        out.push(v[k].clone());
        proof {
            assert(out@ =~= v@.take(k + 1));
        }
        k += 1;
    }
    proof {
        assert(v@.take(k as int) =~= v@);
    }
    out
}

/// A tag with its ASCII capitals lower-cased.
pub fn ascii_lower(s: &str) -> (r: String)
    ensures
        r@ == ascii_lowercase(s@),
{
    let cs = str_chars(s);
    let mut out = String::new();
    let mut k: usize = 0;
    while k < cs.len()
        invariant
            k <= cs@.len(),
            out@ == ascii_lowercase(cs@.take(k as int)),
        decreases cs.len() - k,
    {
        let c = cs[k];
        let l = if 'A' <= c && c <= 'Z' {
            let b: u8 = (c as u8) + 32;
            b as char
        } else {
            c
        };
        assert(l == lower_char(c));
        push_char(&mut out, l);
        proof {
            assert(ascii_lowercase(cs@.take(k + 1)) =~= ascii_lowercase(cs@.take(k as int)).push(lower_char(c)));
        }
        k += 1;
    }
    proof {
        assert(cs@.take(k as int) =~= cs@);
    }
    out
}

proof fn lemma_tally_concat(m: Map<Seq<char>, int>, a: Seq<Seq<char>>, b: Seq<Seq<char>>)
    ensures
        tally_int(m, a + b) == tally_int(tally_int(m, a), b),
    decreases b.len(),
{
    if b.len() == 0 {
        assert(a + b =~= a);
    } else {
        assert((a + b).drop_last() =~= a + b.drop_last());
        lemma_tally_concat(m, a, b.drop_last());
    }
}

proof fn lemma_seen_concat(m: Map<Seq<char>, Set<Seq<char>>>, a: Seq<Seq<char>>, b: Seq<Seq<char>>, addon: Seq<char>)
    ensures
        seen(m, a + b, addon) == seen(seen(m, a, addon), b, addon),
    decreases b.len(),
{
    if b.len() == 0 {
        assert(a + b =~= a);
    } else {
        assert((a + b).drop_last() =~= a + b.drop_last());
        lemma_seen_concat(m, a, b.drop_last(), addon);
    }
}

proof fn lemma_children_bounds(ns: Seq<Node>, i: nat, k: nat)
    requires
        i <= k <= ns.len(),
    ensures
        children_tags(ns, i).len() <= children_tags(ns, k).len(),
        children_nesting(ns, i) <= children_nesting(ns, k),
        i < k ==> nesting(ns[i as int]) <= children_nesting(ns, k),
        i < k ==> children_tags(ns, i).len() + tags_of(ns[i as int]).len() <= children_tags(ns, k).len(),
    decreases k,
{
    if i < k {
        lemma_children_bounds(ns, i, (k - 1) as nat);
        if i < k - 1 {
            lemma_children_bounds(ns, (i + 1) as nat, (k - 1) as nat);
        }
    }
}

impl TagStats {
    /// Counts the tags of `n`, found in `addon`, with `depth` the nesting of
    /// the elements around it.
    pub fn count_node(&mut self, n: &Node, addon: &str, depth: usize)
        requires
            old(self).wf(),
            old(self).hits + tags_of(*n).len() <= usize::MAX,
            depth + nesting(*n) <= usize::MAX,
        ensures
            final(self).wf(),
            final(self).count_map() == tally_int(old(self).count_map(), tags_of(*n)),
            final(self).addon_map() == seen(old(self).addon_map(), tags_of(*n), addon@),
            final(self).hits == old(self).hits + tags_of(*n).len(),
            final(self).max_depth == (if nesting(*n) == 0 || old(self).max_depth >= depth + nesting(*n) {
                old(self).max_depth as int
            } else {
                depth + nesting(*n)
            }),
        decreases n, 0nat,
    {
        match n {
            Node::Text(_) => {
                proof {
                    assert(tags_of(*n) =~= Seq::<Seq<char>>::empty());
                }
            },
            Node::Element(e) => self.count_element(e, addon, depth),
        }
    }

    fn count_element(&mut self, e: &Element, addon: &str, depth: usize)
        requires
            old(self).wf(),
            old(self).hits + tags_of(Node::Element(*e)).len() <= usize::MAX,
            depth + nesting(Node::Element(*e)) <= usize::MAX,
        ensures
            final(self).wf(),
            final(self).count_map() == tally_int(old(self).count_map(), tags_of(Node::Element(*e))),
            final(self).addon_map() == seen(old(self).addon_map(), tags_of(Node::Element(*e)), addon@),
            final(self).hits == old(self).hits + tags_of(Node::Element(*e)).len(),
            final(self).max_depth == (if old(self).max_depth >= depth + nesting(Node::Element(*e)) {
                old(self).max_depth as int
            } else {
                depth + nesting(Node::Element(*e))
            }),
        decreases e, 0nat,
    {
        let ghost m0 = old(self).count_map();
        let ghost a0 = old(self).addon_map();
        let ghost h0 = old(self).hits;
        let ghost md0 = old(self).max_depth;
        let ghost ns = e.children@;
        let ghost total = children_tags(ns, ns.len());
        let tag = ascii_lower(e.tag);
        self.record(tag, addon);
        let inner = depth + 1;
        if self.max_depth < inner {
            self.max_depth = inner;
        }
        let mut i: usize = 0;
        proof {
            assert(children_tags(ns, 0) =~= Seq::<Seq<char>>::empty());
            assert(seq![ascii_lowercase(e.tag@)] + children_tags(ns, 0) =~= seq![ascii_lowercase(e.tag@)]);
        }
        while i < e.children.len()
            invariant
                i <= ns.len(),
                ns == e.children@,
                total == children_tags(ns, ns.len()),
                self.wf(),
                self.count_map() == tally_int(m0, seq![ascii_lowercase(e.tag@)] + children_tags(ns, i as nat)),
                self.addon_map() == seen(a0, seq![ascii_lowercase(e.tag@)] + children_tags(ns, i as nat), addon@),
                self.hits == h0 + 1 + children_tags(ns, i as nat).len(),
                h0 + 1 + total.len() <= usize::MAX,
                inner == depth + 1,
                inner + children_nesting(ns, ns.len()) <= usize::MAX,
                self.max_depth == (if md0 >= inner + children_nesting(ns, i as nat) {
                    md0 as int
                } else {
                    inner + children_nesting(ns, i as nat)
                }),
            decreases ns.len() - i,
        {
            proof {
                lemma_children_bounds(ns, i as nat, ns.len());
                lemma_tally_concat(m0, seq![ascii_lowercase(e.tag@)] + children_tags(ns, i as nat), tags_of(ns[i as int]));
                lemma_seen_concat(a0, seq![ascii_lowercase(e.tag@)] + children_tags(ns, i as nat), tags_of(ns[i as int]), addon@);
                assert(seq![ascii_lowercase(e.tag@)] + children_tags(ns, (i + 1) as nat) =~= seq![ascii_lowercase(e.tag@)]
                    + children_tags(ns, i as nat) + tags_of(ns[i as int]));
            }
            self.count_node(&e.children[i], addon, inner);
            i += 1;
        }
    }
}

impl TagStats {
    /// Counts the tags of a parsed description of `addon`.
    pub fn count_document(&mut self, doc: &Document, addon: &str)
        requires
            old(self).wf(),
            old(self).hits + children_tags(doc.children@, doc.children@.len()).len() <= usize::MAX,
            children_nesting(doc.children@, doc.children@.len()) <= usize::MAX,
        ensures
            final(self).wf(),
            final(self).count_map() == tally_int(old(self).count_map(), children_tags(doc.children@, doc.children@.len())),
            final(self).addon_map() == seen(old(self).addon_map(), children_tags(doc.children@, doc.children@.len()), addon@),
            final(self).hits == old(self).hits + children_tags(doc.children@, doc.children@.len()).len(),
            final(self).max_depth == (if old(self).max_depth >= children_nesting(doc.children@, doc.children@.len()) {
                old(self).max_depth as int
            } else {
                children_nesting(doc.children@, doc.children@.len()) as int
            }),
    {
        let ghost ns = doc.children@;
        let ghost m0 = old(self).count_map();
        let ghost a0 = old(self).addon_map();
        let ghost h0 = old(self).hits;
        let ghost md0 = old(self).max_depth;
        let mut i: usize = 0;
        proof {
            assert(children_tags(ns, 0) =~= Seq::<Seq<char>>::empty());
            assert(tally_int(m0, Seq::<Seq<char>>::empty()) == m0);
            assert(seen(a0, Seq::<Seq<char>>::empty(), addon@) == a0);
        }
        while i < doc.children.len()
            invariant
                i <= ns.len(),
                ns == doc.children@,
                self.wf(),
                self.count_map() == tally_int(m0, children_tags(ns, i as nat)),
                self.addon_map() == seen(a0, children_tags(ns, i as nat), addon@),
                self.hits == h0 + children_tags(ns, i as nat).len(),
                h0 + children_tags(ns, ns.len()).len() <= usize::MAX,
                children_nesting(ns, ns.len()) <= usize::MAX,
                self.max_depth == (if md0 >= children_nesting(ns, i as nat) {
                    md0 as int
                } else {
                    children_nesting(ns, i as nat) as int
                }),
            decreases ns.len() - i,
        {
            proof {
                lemma_children_bounds(ns, i as nat, ns.len());
                lemma_tally_concat(m0, children_tags(ns, i as nat), tags_of(ns[i as int]));
                lemma_seen_concat(a0, children_tags(ns, i as nat), tags_of(ns[i as int]), addon@);
            }
            self.count_node(&doc.children[i], addon, 0);
            i += 1;
        }
    }

    /// How often `tag` occurred.
    pub fn hits_of(&self, tag: &str) -> (r: usize)
        requires
            self.wf(),
        ensures
            r == (if self.count_map().contains_key(tag@) { self.count_map()[tag@] } else { 0 }),
    {
        match find_key(&self.counts, tag) {
            Some(i) => self.counts[i].1,
            None => 0,
        }
    }

    /// In how many addons `tag` occurred.
    pub fn addons_of(&self, tag: &str) -> (r: usize)
        requires
            self.wf(),
        ensures
            r == (if self.addon_map().contains_key(tag@) { self.addon_map()[tag@].len() } else { 0 }),
    {
        match find_key(&self.addons, tag) {
            Some(i) => {
                proof {
                    let l = self.addons@[i as int].1;
                    strings_view(l@).unique_seq_to_set();
                }
                self.addons[i].1.len()
            },
            None => 0,
        }
    }
}

/// How long the cached file list stays fresh: a day.
pub const FILE_LIST_TTL_SECS: u64 = 86400;

/// Whether a cached download must be fetched again: when it is missing, or
/// when it expires and its age is unknown or beyond the time it stays fresh.
/// A cache without an expiry stays fresh for ever.
pub fn cache_stale(present: bool, age_secs: Option<u64>, ttl_secs: Option<u64>) -> (r: bool)
    ensures
        r == (!present || (ttl_secs is Some && (age_secs is None || age_secs->0 > ttl_secs->0))),
{
    if !present {
        return true;
    }
    match ttl_secs {
        None => false,
        Some(ttl) => match age_secs {
            None => true,
            Some(age) => age > ttl,
        },
    }
}

} // verus!
