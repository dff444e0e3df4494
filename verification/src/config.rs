//! The persisted settings and the deltas that background downloads hand
//! back for merging into them.

use vstd::prelude::*;
use crate::text::str_eq;

verus! {

/// A point in time in UTC: whole seconds since the Unix epoch and the
/// nanoseconds past that second.
#[derive(Clone, Copy, Debug, PartialEq, Eq, Structural)]
pub struct Timestamp {
    pub secs: i64,
    pub nanos: u32,
}

/// Which Tamriel Trade Centre price table to download.
#[derive(Clone, Copy, Debug, PartialEq, Eq, Structural)]
pub enum TTCRegion {
    NA,
    EU,
    ALL,
}

impl Default for TTCRegion {
    fn default() -> (r: TTCRegion)
        ensures
            r == TTCRegion::NA,
    {
        TTCRegion::NA
    }
}

/// The colour theme of the interface.
#[derive(Clone, Copy, Debug, PartialEq, Eq, Structural)]
pub enum Style {
    Light,
    Dark,
    System,
}

impl Default for Style {
    fn default() -> (r: Style)
        ensures
            r == Style::System,
    {
        Style::System
    }
}

/// An addon listed in a user's addon file.
#[derive(Clone, Debug)]
pub struct AddonEntry {
    pub name: String,
    pub url: Option<String>,
    pub dependency: bool,
}

/// What a price-table download changed; only the fields that are `Some`
/// are merged into the settings.
#[derive(Clone, Debug)]
pub struct TtcConfigUpdate {
    pub na_version: Option<u64>,
    pub eu_version: Option<u64>,
    pub download_last: Option<Timestamp>,
}

/// What a HarvestMap sync changed: the new data hash of each zone it merged,
/// and when.
#[derive(Clone, Debug)]
pub struct HmConfigUpdate {
    pub zone_hashes: Vec<(String, String)>,
    pub synced_at: Option<Timestamp>,
}

/// The settings. Per-zone records are lists keyed by zone name, each name
/// at most once.
#[derive(Clone, Debug)]
pub struct Config {
    pub version: String,
    pub addon_dir: String,
    pub file_list: String,
    pub file_details: String,
    pub list_files: String,
    pub category_list: String,
    pub update_ttc_pricetable: bool,
    pub ttc_na_version: Option<u64>,
    pub ttc_eu_version: Option<u64>,
    pub ttc_download_last: Option<Timestamp>,
    pub update_on_launch: bool,
    pub onboard: bool,
    pub update_hm_data: bool,
    pub hm_zone_hashes: Vec<(String, String)>,
    pub hm_zone_synced: Vec<(String, Timestamp)>,
    pub hm_last_sync: Option<Timestamp>,
    pub style: Style,
    pub ttc_region: TTCRegion,
}

/// The map a list of keyed entries stands for; a later entry for a key
/// overrides an earlier one.
pub open spec fn keyed_map<V>(s: Seq<(String, V)>) -> Map<Seq<char>, V>
    decreases s.len(),
{
    if s.len() == 0 {
        Map::empty()
    } else {
        keyed_map(s.drop_last()).insert(s.last().0@, s.last().1)
    }
}

/// No key occurs twice.
pub open spec fn unique_keys<V>(s: Seq<(String, V)>) -> bool {
    forall|i: int, j: int| 0 <= i < j < s.len() ==> (#[trigger] s[i]).0@ != (#[trigger] s[j]).0@
}

/// `m` with every key of `keys` mapped to `v`.
pub open spec fn stamp<V>(m: Map<Seq<char>, V>, keys: Set<Seq<char>>, v: V) -> Map<Seq<char>, V> {
    Map::new(|k: Seq<char>| m.contains_key(k) || keys.contains(k), |k: Seq<char>| if keys.contains(k) { v } else { m[k] })
}

impl Config {
    pub open spec fn well_formed(&self) -> bool {
        unique_keys(self.hm_zone_hashes@) && unique_keys(self.hm_zone_synced@)
    }

    /// Merges a price-table delta: each field that is `Some` replaces the
    /// setting, the others leave it as it was.
    pub fn apply_ttc_update(&mut self, update: TtcConfigUpdate)
        ensures
            final(self).ttc_na_version == (if update.na_version is Some { update.na_version } else { old(self).ttc_na_version }),
            final(self).ttc_eu_version == (if update.eu_version is Some { update.eu_version } else { old(self).ttc_eu_version }),
            final(self).ttc_download_last == (if update.download_last is Some { update.download_last } else { old(self).ttc_download_last }),
            *final(self) == (Config {
                ttc_na_version: final(self).ttc_na_version,
                ttc_eu_version: final(self).ttc_eu_version,
                ttc_download_last: final(self).ttc_download_last,
                ..*old(self)
            }),
    {
        if update.na_version.is_some() {
            self.ttc_na_version = update.na_version;
        }
        if update.eu_version.is_some() {
            self.ttc_eu_version = update.eu_version;
        }
        if update.download_last.is_some() {
            self.ttc_download_last = update.download_last;
        }
    }

    /// Merges a HarvestMap delta: every zone's hash is set, each of those
    /// zones is stamped with the sync time when there is one, and the time
    /// of the last sync moves only when there is one.
    pub fn apply_hm_update(&mut self, update: HmConfigUpdate)
        requires
            old(self).well_formed(),
        ensures
            final(self).well_formed(),
            keyed_map(final(self).hm_zone_hashes@) == keyed_map(old(self).hm_zone_hashes@).union_prefer_right(
                keyed_map(update.zone_hashes@),
            ),
            match update.synced_at {
                Some(ts) => keyed_map(final(self).hm_zone_synced@) == stamp(
                    keyed_map(old(self).hm_zone_synced@),
                    keyed_map(update.zone_hashes@).dom(),
                    ts,
                ),
                None => final(self).hm_zone_synced == old(self).hm_zone_synced,
            },
            final(self).hm_last_sync == (if update.synced_at is Some { update.synced_at } else { old(self).hm_last_sync }),
            *final(self) == (Config {
                hm_zone_hashes: final(self).hm_zone_hashes,
                hm_zone_synced: final(self).hm_zone_synced,
                hm_last_sync: final(self).hm_last_sync,
                ..*old(self)
            }),
    {
        let n = update.zone_hashes.len();
        let mut k: usize = 0;
        proof {
            assert(update.zone_hashes@.take(0) =~= Seq::<(String, String)>::empty());
            assert(keyed_map(old(self).hm_zone_hashes@).union_prefer_right(Map::empty()) =~= keyed_map(
                old(self).hm_zone_hashes@,
            ));
            assert(stamp(keyed_map(old(self).hm_zone_synced@), Set::empty(), update.synced_at->0) =~= keyed_map(
                old(self).hm_zone_synced@,
            ));
        }
        while k < n
            invariant
                k <= n,
                n == update.zone_hashes@.len(),
                self.well_formed(),
                keyed_map(self.hm_zone_hashes@) == keyed_map(old(self).hm_zone_hashes@).union_prefer_right(
                    keyed_map(update.zone_hashes@.take(k as int)),
                ),
                match update.synced_at {
                    Some(ts) => keyed_map(self.hm_zone_synced@) == stamp(
                        keyed_map(old(self).hm_zone_synced@),
                        keyed_map(update.zone_hashes@.take(k as int)).dom(),
                        ts,
                    ),
                    None => self.hm_zone_synced == old(self).hm_zone_synced,
                },
                *self == (Config {
                    hm_zone_hashes: self.hm_zone_hashes,
                    hm_zone_synced: self.hm_zone_synced,
                    ..*old(self)
                }),
            decreases n - k,
        {
            let zone = update.zone_hashes[k].0.clone();
            let hash = update.zone_hashes[k].1.clone();
            let ghost pre = update.zone_hashes@.take(k as int);
            proof {
                assert(update.zone_hashes@.take(k + 1).drop_last() =~= pre);
                assert(update.zone_hashes@.take(k + 1).last() == update.zone_hashes@[k as int]);
            }
            if let Some(ts) = update.synced_at {
                let ghost before = keyed_map(self.hm_zone_synced@);
                upsert(&mut self.hm_zone_synced, zone.clone(), ts);
                proof {
                    assert(stamp(keyed_map(old(self).hm_zone_synced@), keyed_map(update.zone_hashes@.take(k + 1)).dom(), ts)
                        =~= before.insert(zone@, ts));
                }
            }
            let ghost before_h = keyed_map(self.hm_zone_hashes@);
            upsert(&mut self.hm_zone_hashes, zone, hash);
            proof {
                assert(keyed_map(old(self).hm_zone_hashes@).union_prefer_right(keyed_map(update.zone_hashes@.take(k + 1)))
                    =~= before_h.insert(update.zone_hashes@[k as int].0@, update.zone_hashes@[k as int].1));
            }
            k += 1;
        }
        proof {
            assert(update.zone_hashes@.take(n as int) =~= update.zone_hashes@);
        }
        if update.synced_at.is_some() {
            self.hm_last_sync = update.synced_at;
        }
    }
}

/// Replacing the entry of a key that occurs once is inserting into the map.
pub(crate) proof fn lemma_keyed_replace<V>(s: Seq<(String, V)>, j: int, e: (String, V))
    requires
        unique_keys(s),
        0 <= j < s.len(),
        s[j].0@ == e.0@,
    ensures
        keyed_map(s.update(j, e)) == keyed_map(s).insert(e.0@, e.1),
        unique_keys(s.update(j, e)),
    decreases s.len(),
{
    let t = s.update(j, e);
    assert(unique_keys(t)) by {
        assert forall|a: int, b: int| 0 <= a < b < t.len() implies (#[trigger] t[a]).0@ != (#[trigger] t[b]).0@ by {
            assert(s[a].0@ != s[b].0@);
        }
    }
    if j == s.len() - 1 {
        assert(t.drop_last() =~= s.drop_last());
        assert(keyed_map(t) =~= keyed_map(s).insert(e.0@, e.1));
    } else {
        let d = s.drop_last();
        assert(unique_keys(d)) by {
            assert forall|a: int, b: int| 0 <= a < b < d.len() implies (#[trigger] d[a]).0@ != (#[trigger] d[b]).0@ by {
                assert(s[a].0@ != s[b].0@);
            }
        }
        lemma_keyed_replace(d, j, e);
        assert(t.drop_last() =~= d.update(j, e));
        assert(s.last().0@ != e.0@) by {
            assert(s[j].0@ != s[s.len() - 1].0@);
        }
        assert(keyed_map(t) =~= keyed_map(s).insert(e.0@, e.1));
    }
}

/// Sets `key` to `value` in a keyed list: replaces the key's entry, or
/// appends one.
pub(crate) fn upsert<V>(v: &mut Vec<(String, V)>, key: String, value: V)
    requires
        unique_keys(old(v)@),
    ensures
        unique_keys(final(v)@),
        keyed_map(final(v)@) == keyed_map(old(v)@).insert(key@, value),
{
    let mut i: usize = 0;
    while i < v.len()
        invariant
            i <= v@.len(),
            v@ == old(v)@,
            unique_keys(v@),
            forall|j: int| 0 <= j < i ==> (#[trigger] v@[j]).0@ != key@,
        decreases v.len() - i,
    {
        if str_eq(v[i].0.as_str(), key.as_str()) {
            let ghost e = (key, value);
            proof {
                lemma_keyed_replace(v@, i as int, e);
            }
            v.set(i, (key, value));
            return;
        }
        i += 1;
    }
    let ghost before = v@;
    v.push((key, value));
    proof {
        assert(v@.drop_last() =~= before);
        assert(unique_keys(v@)) by {
            assert forall|a: int, b: int| 0 <= a < b < v@.len() implies (#[trigger] v@[a]).0@ != (#[trigger] v@[b]).0@ by {
                if b < before.len() {
                    assert(before[a].0@ != before[b].0@);
                }
            }
        }
    }
}

/// `""`, the default of the address settings.
pub fn default_str() -> (r: String)
    ensures
        r@ == Seq::<char>::empty(),
{
    String::new()
}

/// `true`, the default of the switches that are on unless turned off.
pub fn default_true() -> (r: bool)
    ensures
        r,
{
    true
}

/// The settings format version assumed when a file names none.
pub fn default_version() -> (r: String)
    ensures
        r@ == seq!['0', '.', '1', '.', '1'],
{
    let s = "0.1.1";
    proof {
        reveal_strlit("0.1.1");
    }
    s.to_owned()
}

/// In a list with unique keys, the entry of a key is what the map holds.
proof fn lemma_keyed_lookup<V>(s: Seq<(String, V)>, i: int)
    requires
        unique_keys(s),
        0 <= i < s.len(),
    ensures
        keyed_map(s).contains_key(s[i].0@),
        keyed_map(s)[s[i].0@] == s[i].1,
    decreases s.len(),
{
    if i < s.len() - 1 {
        let d = s.drop_last();
        assert(unique_keys(d)) by {
            assert forall|a: int, b: int| 0 <= a < b < d.len() implies (#[trigger] d[a]).0@ != (#[trigger] d[b]).0@ by {
                assert(s[a].0@ != s[b].0@);
            }
        }
        lemma_keyed_lookup(d, i);
        assert(s[i].0@ != s.last().0@) by {
            assert(s[i].0@ != s[s.len() - 1].0@);
        }
    }
}

/// A key that no entry has is not in the map.
proof fn lemma_keyed_absent<V>(s: Seq<(String, V)>, k: Seq<char>)
    requires
        forall|j: int| 0 <= j < s.len() ==> (#[trigger] s[j]).0@ != k,
    ensures
        !keyed_map(s).contains_key(k),
    decreases s.len(),
{
    if s.len() > 0 {
        lemma_keyed_absent(s.drop_last(), k);
    }
}

/// The position of the entry for `key`, if there is one.
pub(crate) fn find_key<V>(v: &Vec<(String, V)>, key: &str) -> (r: Option<usize>)
    requires
        unique_keys(v@),
    ensures
        match r {
            Some(i) => i < v@.len() && v@[i as int].0@ == key@ && keyed_map(v@).contains_key(key@)
                && keyed_map(v@)[key@] == v@[i as int].1,
            None => !keyed_map(v@).contains_key(key@),
        },
{
    let mut i: usize = 0;
    while i < v.len()
        invariant
            i <= v@.len(),
            unique_keys(v@),
            forall|j: int| 0 <= j < i ==> (#[trigger] v@[j]).0@ != key@,
        decreases v.len() - i,
    {
        if str_eq(v[i].0.as_str(), key) {
            proof {
                lemma_keyed_lookup(v@, i as int);
            }
            return Some(i);
        }
        i += 1;
    }
    proof {
        lemma_keyed_absent(v@, key@);
    }
    None
}

/// What the `version_compare` crate says of two version texts: whether the
/// first orders before the second, or `None` when either does not parse as
/// a version.
pub uninterp spec fn version_less(a: Seq<char>, b: Seq<char>) -> Option<bool>;

/// Parses both texts with `version_compare::Version::from` and compares
/// them with `<`. The contract claims only that the result is
/// `version_less` of the two texts: it depends on them alone.
#[verifier::external_body]
pub(crate) fn version_lt(a: &str, b: &str) -> (r: Option<bool>)
    ensures
        r == version_less(a@, b@),
{
    match (version_compare::Version::from(a), version_compare::Version::from(b)) {
        (Some(x), Some(y)) => Some(x < y),
        _ => None,
    }
}

/// The settings version whose files had launch-time updates off.
pub open spec fn first_auto_update_version() -> Seq<char> {
    "0.1.2"@
}

/// A settings version that is not a version.
#[derive(Debug, PartialEq, Eq, Structural)]
pub enum VersionError {
    Unparsable,
}

impl Config {
    /// Brings settings written by an older version up to date: files older
    /// than 0.1.2 get launch-time updates turned on, and the recorded
    /// version becomes `current` when it is older. Fails, changing nothing,
    /// when the recorded or the current version does not parse.
    pub fn upgrade(&mut self, current: &str) -> (r: Result<(), VersionError>)
        ensures
            r is Err <==> (version_less(old(self).version@, first_auto_update_version()) is None
                || version_less(old(self).version@, current@) is None),
            r is Err ==> *final(self) == *old(self),
            r is Ok ==> {
                &&& final(self).update_on_launch == (old(self).update_on_launch || version_less(
                    old(self).version@,
                    first_auto_update_version(),
                ) == Some(true))
                &&& final(self).version@ == (if version_less(old(self).version@, current@) == Some(true) {
                    current@
                } else {
                    old(self).version@
                })
                &&& final(self).hm_zone_hashes == old(self).hm_zone_hashes
                &&& final(self).hm_zone_synced == old(self).hm_zone_synced
                &&& final(self).addon_dir == old(self).addon_dir
            },
    {
        let older_than_auto = version_lt(self.version.as_str(), "0.1.2");
        let older_than_current = version_lt(self.version.as_str(), current);
        match (older_than_auto, older_than_current) {
            (Some(a), Some(b)) => {
                if a {
                    self.update_on_launch = true;
                }
                if b {
                    self.version = current.to_owned();
                }
                Ok(())
            },
            _ => Err(VersionError::Unparsable),
        }
    }
}

} // verus!
