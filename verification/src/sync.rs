//! Decisions of the downloads that keep game data fresh: the MD5 check of a
//! downloaded archive, which Tamriel Trade Centre price tables to fetch,
//! and which HarvestMap zones to sync. The transfers are the caller's.

use vstd::prelude::*;
use vstd::string::*;
use md5::Digest;
use crate::config::{keyed_map, unique_keys, upsert, Config, HmConfigUpdate, TTCRegion, Timestamp, TtcConfigUpdate, find_key};
use crate::text::{push_char, push_str, str_eq, trim, trim_spec};

verus! {

/// The MD5 digest of `data`.
pub uninterp spec fn md5_digest_of(data: Seq<u8>) -> Seq<u8>;

/// md-5's `Md5::digest`: the 16-byte MD5 digest of `data`.
#[verifier::external_body]
fn md5_digest(data: &[u8]) -> (r: Vec<u8>)
    ensures
        r@ == md5_digest_of(data@),
        r@.len() == 16,
{
    md5::Md5::digest(data).to_vec()
}

/// A lower-case hexadecimal digit.
pub open spec fn hex_digit(n: int) -> char {
    if n < 10 {
        (n + 0x30) as char
    } else {
        (n - 10 + 0x61) as char
    }
}

/// Each byte as two lower-case hexadecimal digits, as `{:02x}` writes it.
pub open spec fn hex_text(b: Seq<u8>) -> Seq<char>
    decreases b.len(),
{
    if b.len() == 0 {
        Seq::empty()
    } else {
        hex_text(b.drop_last()) + seq![hex_digit((b.last() / 16) as int), hex_digit((b.last() % 16) as int)]
    }
}

fn hex_char(d: u8) -> (c: char)
    requires
        d < 16,
    ensures
        c == hex_digit(d as int),
{
    let ds: [char; 16] = ['0', '1', '2', '3', '4', '5', '6', '7', '8', '9', 'a', 'b', 'c', 'd', 'e', 'f'];
    proof {
        assert(ds@ =~= seq![hex_digit(0), hex_digit(1), hex_digit(2), hex_digit(3), hex_digit(4), hex_digit(5),
            hex_digit(6), hex_digit(7), hex_digit(8), hex_digit(9), hex_digit(10), hex_digit(11), hex_digit(12),
            hex_digit(13), hex_digit(14), hex_digit(15)]);
    }
    ds[d as usize]
}

/// The bytes in lower-case hexadecimal.
pub fn hex_lower(b: &[u8]) -> (r: String)
    ensures
        r@ == hex_text(b@),
{
    let mut out = String::new();
    let mut k: usize = 0;
    while k < b.len()
        invariant
            k <= b@.len(),
            out@ == hex_text(b@.take(k as int)),
        decreases b.len() - k,
    {
        proof {
            assert(b@.take(k + 1).drop_last() =~= b@.take(k as int));
        }
        let x = b[k];
        push_char(&mut out, hex_char(x / 16));
        push_char(&mut out, hex_char(x % 16));
        proof {
            assert(out@ =~= hex_text(b@.take(k + 1)));
        }
        k += 1;
    }
    proof {
        assert(b@.take(k as int) =~= b@);
    }
    out
}

/// The MD5 digest of `data` in lower-case hexadecimal.
pub fn md5_hex(data: &[u8]) -> (r: String)
    ensures
        r@ == hex_text(md5_digest_of(data@)),
        r@.len() == 32,
{
    let d = md5_digest(data);
    proof {
        lemma_hex_text_len(d@);
    }
    hex_lower(d.as_slice())
}

proof fn lemma_hex_text_len(b: Seq<u8>)
    ensures
        hex_text(b).len() == 2 * b.len(),
    decreases b.len(),
{
    if b.len() > 0 {
        lemma_hex_text_len(b.drop_last());
    }
}

/// The digest of a download differs from the expected one that the
/// catalogue gave (a blank one is not checked): the digest found.
pub open spec fn hash_mismatch_spec(expected: Option<Seq<char>>, data: Seq<u8>) -> Option<Seq<char>> {
    match expected {
        Some(e) => if trim_spec(vstd::utf8::encode_utf8(e)).len() == 0 {
            None
        } else if e == hex_text(md5_digest_of(data)) {
            None
        } else {
            Some(hex_text(md5_digest_of(data)))
        },
        None => None,
    }
}

/// Checks a downloaded archive against the MD5 digest the catalogue gave.
pub fn download_hash_mismatch(expected: Option<&str>, data: &[u8]) -> (r: Option<String>)
    ensures
        match r {
            Some(h) => hash_mismatch_spec(
                match expected {
                    Some(e) => Some(e@),
                    None => None,
                },
                data@,
            ) == Some(h@),
            None => hash_mismatch_spec(
                match expected {
                    Some(e) => Some(e@),
                    None => None,
                },
                data@,
            ) is None,
        },
{
    match expected {
        Some(e) => {
            let t = trim(e);
            if t.as_bytes().len() == 0 {
                proof {
                    assert(e.spec_bytes() == vstd::utf8::encode_utf8(e@));
                }
                return None;
            }
            let h = md5_hex(data);
            if str_eq(e, h.as_str()) {
                None
            } else {
                Some(h)
            }
        },
        None => None,
    }
}

/// A Tamriel Trade Centre server.
#[derive(Clone, Copy, Debug, PartialEq, Eq, Structural)]
pub enum TtcServer {
    Na,
    Eu,
}

/// The host of a price table server.
pub open spec fn ttc_domain(s: TtcServer) -> Seq<char> {
    match s {
        TtcServer::Na => "us.tamrieltradecentre.com"@,
        TtcServer::Eu => "eu.tamrieltradecentre.com"@,
    }
}

/// The servers a region reads from, North America first.
pub open spec fn ttc_servers(region: TTCRegion) -> Seq<TtcServer> {
    match region {
        TTCRegion::NA => seq![TtcServer::Na],
        TTCRegion::EU => seq![TtcServer::Eu],
        TTCRegion::ALL => seq![TtcServer::Na, TtcServer::Eu],
    }
}

/// The price tables to consider for the configured region, each with the
/// version last downloaded from it.
pub fn ttc_targets(config: &Config) -> (r: Vec<(TtcServer, Option<u64>)>)
    ensures
        r@.len() == ttc_servers(config.ttc_region).len(),
        forall|k: int| 0 <= k < r@.len() ==> (#[trigger] r@[k]).0 == ttc_servers(config.ttc_region)[k] && r@[k].1
            == (if r@[k].0 == TtcServer::Na { config.ttc_na_version } else { config.ttc_eu_version }),
{
    let mut r: Vec<(TtcServer, Option<u64>)> = Vec::new();
    match config.ttc_region {
        TTCRegion::NA => {
            r.push((TtcServer::Na, config.ttc_na_version));
        },
        TTCRegion::EU => {
            r.push((TtcServer::Eu, config.ttc_eu_version));
        },
        TTCRegion::ALL => {
            r.push((TtcServer::Na, config.ttc_na_version));
            r.push((TtcServer::Eu, config.ttc_eu_version));
        },
    }
    r
}

/// A price table is fetched unless the server's version is known and is
/// the one last downloaded.
pub fn ttc_needs_download(server: Option<u64>, local: Option<u64>) -> (r: bool)
    ensures
        r == !(server is Some && local is Some && server == local),
{
    match (server, local) {
        (Some(s), Some(l)) => s != l,
        _ => true,
    }
}

/// Where a price table is downloaded from.
pub fn ttc_download_url(s: TtcServer) -> (r: String)
    ensures
        r@ == "https://"@ + ttc_domain(s) + "/download/PriceTable"@,
{
    let mut out = String::new();
    push_str(&mut out, "https://");
    match s {
        TtcServer::Na => push_str(&mut out, "us.tamrieltradecentre.com"),
        TtcServer::Eu => push_str(&mut out, "eu.tamrieltradecentre.com"),
    }
    push_str(&mut out, "/download/PriceTable");
    proof {
        assert(out@ =~= "https://"@ + ttc_domain(s) + "/download/PriceTable"@);
    }
    out
}

/// Records a downloaded price table: the server's version, as far as it
/// is known, becomes the one last downloaded from that server.
pub fn record_ttc_download(update: &mut TtcConfigUpdate, s: TtcServer, server_version: Option<u64>)
    ensures
        s == TtcServer::Na ==> final(update).na_version == server_version && final(update).eu_version == old(
            update,
        ).eu_version,
        s == TtcServer::Eu ==> final(update).eu_version == server_version && final(update).na_version == old(
            update,
        ).na_version,
        final(update).download_last == old(update).download_last,
{
    match s {
        TtcServer::Na => update.na_version = server_version,
        TtcServer::Eu => update.eu_version = server_version,
    }
}

/// Ends a price table update: when anything was downloaded, the time of
/// the download is kept.
pub fn finish_ttc(update: &mut TtcConfigUpdate, downloaded: bool, now: Timestamp)
    ensures
        final(update).download_last == (if downloaded { Some(now) } else { old(update).download_last }),
        final(update).na_version == old(update).na_version,
        final(update).eu_version == old(update).eu_version,
{
    if downloaded {
        update.download_last = Some(now);
    }
}

/// The `k`-th version answer; none when the server could not be asked.
pub open spec fn answer_at(versions: Seq<Option<u64>>, k: int) -> Option<u64> {
    if 0 <= k < versions.len() {
        versions[k]
    } else {
        None
    }
}

/// The version last downloaded from a server.
pub open spec fn local_version(config: Config, s: TtcServer) -> Option<u64> {
    match s {
        TtcServer::Na => config.ttc_na_version,
        TtcServer::Eu => config.ttc_eu_version,
    }
}

/// The first `k` targets of a price-table update, in order: each target
/// whose table is fetched is downloaded and the version its server gave
/// recorded for it.
pub open spec fn ttc_steps(config: Config, versions: Seq<Option<u64>>, k: nat) -> (Seq<TtcServer>, TtcConfigUpdate)
    decreases k,
{
    if k == 0 {
        (Seq::empty(), TtcConfigUpdate { na_version: None, eu_version: None, download_last: None })
    } else {
        let (ds, u) = ttc_steps(config, versions, (k - 1) as nat);
        let s = ttc_servers(config.ttc_region)[k - 1];
        let v = answer_at(versions, k - 1);
        if v is Some && local_version(config, s) is Some && v == local_version(config, s) {
            (ds, u)
        } else {
            (
                ds.push(s),
                match s {
                    TtcServer::Na => TtcConfigUpdate { na_version: v, ..u },
                    TtcServer::Eu => TtcConfigUpdate { eu_version: v, ..u },
                },
            )
        }
    }
}

/// A whole price-table update, given the version each server of the
/// region answered (in the order of `ttc_servers`): the servers downloaded
/// from, and the settings delta once they all were, at `now`.
pub open spec fn ttc_run_spec(config: Config, versions: Seq<Option<u64>>, now: Timestamp) -> (Seq<TtcServer>, TtcConfigUpdate) {
    let (ds, u) = ttc_steps(config, versions, ttc_servers(config.ttc_region).len());
    (ds, TtcConfigUpdate { download_last: if ds.len() > 0 { Some(now) } else { None }, ..u })
}

/// Plans a whole price-table update from the versions the region's servers
/// answered (`None` where a server could not be asked, which fetches its
/// table anyway): the servers to download from, in order, and the settings
/// delta to merge once every download succeeded at `now`.
pub fn ttc_run(config: &Config, versions: &Vec<Option<u64>>, now: Timestamp) -> (r: (Vec<TtcServer>, TtcConfigUpdate))
    ensures
        (r.0@, r.1) == ttc_run_spec(*config, versions@, now),
{
    let targets = ttc_targets(config);
    let mut downloads: Vec<TtcServer> = Vec::new();
    let mut update = TtcConfigUpdate { na_version: None, eu_version: None, download_last: None };
    let mut k: usize = 0;
    while k < targets.len()
        invariant
            k <= targets@.len(),
            targets@.len() == ttc_servers(config.ttc_region).len(),
            forall|j: int| 0 <= j < targets@.len() ==> (#[trigger] targets@[j]).0 == ttc_servers(config.ttc_region)[j]
                && targets@[j].1 == local_version(*config, targets@[j].0),
            (downloads@, update) == ttc_steps(*config, versions@, k as nat),
            update.download_last is None,
        decreases targets.len() - k,
    {
        let (s, local) = targets[k];
        let v = if k < versions.len() { versions[k] } else { None };
        if ttc_needs_download(v, local) {
            downloads.push(s);
            record_ttc_download(&mut update, s, v);
        }
        k += 1;
    }
    let downloaded = downloads.len() > 0;
    finish_ttc(&mut update, downloaded, now);
    (downloads, update)
}

/// The HarvestMap zones, in the order they are synced.
pub open spec fn hm_zones() -> Seq<Seq<char>> {
    seq!["AD"@, "EP"@, "DC"@, "DLC"@, "NF"@]
}

pub fn hm_zone_names() -> (r: Vec<&'static str>)
    ensures
        r@.map_values(|z: &'static str| z@) == hm_zones(),
{
    let r: Vec<&'static str> = vec!["AD", "EP", "DC", "DLC", "NF"];
    proof {
        assert(r@.map_values(|z: &'static str| z@) =~= hm_zones());
    }
    r
}

/// The saved-variables file of a zone.
pub fn hm_file_name(zone: &str) -> (r: String)
    ensures
        r@ == "HarvestMap"@ + zone@ + ".lua"@,
{
    let mut out = String::new();
    push_str(&mut out, "HarvestMap");
    push_str(&mut out, zone);
    push_str(&mut out, ".lua");
    proof {
        assert(out@ =~= "HarvestMap"@ + zone@ + ".lua"@);
    }
    out
}

/// The data sent for a zone: the saved variables when the game wrote
/// them, else an empty table under the zone's name.
pub fn hm_zone_data(zone: &str, saved: Option<String>, empty_table: &str) -> (r: String)
    ensures
        r@ == match saved {
            Some(s) => s@,
            None => "Harvest"@ + zone@ + "_SavedVars"@ + empty_table@,
        },
{
    match saved {
        Some(s) => s,
        None => {
            let mut out = String::new();
            push_str(&mut out, "Harvest");
            push_str(&mut out, zone);
            push_str(&mut out, "_SavedVars");
            push_str(&mut out, empty_table);
            proof {
                assert(out@ =~= "Harvest"@ + zone@ + "_SavedVars"@ + empty_table@);
            }
            out
        },
    }
}

/// Nanoseconds from `t` to `now`.
pub open spec fn elapsed_nanos(t: Timestamp, now: Timestamp) -> int {
    (now.secs - t.secs) * 1_000_000_000 + (now.nanos - t.nanos)
}

/// How long a zone's data stays fresh: one day.
pub open spec fn max_age_nanos() -> int {
    86_400_000_000_000int
}

/// A zone synced less than a day before `now`.
pub fn synced_recently(synced: Option<Timestamp>, now: Timestamp) -> (r: bool)
    ensures
        r == (synced matches Some(t) && elapsed_nanos(t, now) < max_age_nanos()),
{
    match synced {
        Some(t) => {
            let d: i128 = (now.secs as i128 - t.secs as i128) * 1_000_000_000i128 + (now.nanos as i128 - t.nanos as i128);
            d < 86_400i128 * 1_000_000_000i128
        },
        None => false,
    }
}

/// A zone is skipped when its data has the hash of the last sync, the
/// merged file is there, and the last sync is less than a day old.
pub open spec fn hm_skip_spec(config: Config, zone: Seq<char>, hash: Seq<char>, out_exists: bool, now: Timestamp) -> bool {
    let hashes = keyed_map(config.hm_zone_hashes@);
    let synced = keyed_map(config.hm_zone_synced@);
    &&& hashes.contains_key(zone)
    &&& hashes[zone]@ == hash
    &&& out_exists
    &&& synced.contains_key(zone)
    &&& elapsed_nanos(synced[zone], now) < max_age_nanos()
}

pub fn hm_skip_zone(config: &Config, zone: &str, hash: &str, out_exists: bool, now: Timestamp) -> (r: bool)
    requires
        config.well_formed(),
    ensures
        r == hm_skip_spec(*config, zone@, hash@, out_exists, now),
{
    let same = match find_key(&config.hm_zone_hashes, zone) {
        Some(i) => str_eq(config.hm_zone_hashes[i].1.as_str(), hash),
        None => false,
    };
    let fresh = match find_key(&config.hm_zone_synced, zone) {
        Some(i) => synced_recently(Some(config.hm_zone_synced[i].1), now),
        None => false,
    };
    same && out_exists && fresh
}

/// Records a synced zone with the hash of the data sent.
pub fn record_hm_zone(update: &mut HmConfigUpdate, zone: &str, hash: String)
    requires
        unique_keys(old(update).zone_hashes@),
    ensures
        unique_keys(final(update).zone_hashes@),
        keyed_map(final(update).zone_hashes@) == keyed_map(old(update).zone_hashes@).insert(zone@, hash),
        final(update).synced_at == old(update).synced_at,
{
    upsert(&mut update.zone_hashes, zone.to_string(), hash);
}

/// Ends a HarvestMap sync: when any zone was synced, `now` is the time of
/// the sync.
pub fn finish_hm(update: &mut HmConfigUpdate, now: Timestamp)
    ensures
        final(update).synced_at == (if old(update).zone_hashes@.len() > 0 { Some(now) } else { old(update).synced_at }),
        final(update).zone_hashes == old(update).zone_hashes,
{
    if update.zone_hashes.len() > 0 {
        update.synced_at = Some(now);
    }
}

/// The saved variables given for the `k`-th zone, if any.
pub open spec fn saved_at(saved: Seq<Option<String>>, k: int) -> Option<Seq<char>> {
    if 0 <= k < saved.len() {
        match saved[k] {
            Some(s) => Some(s@),
            None => None,
        }
    } else {
        None
    }
}

/// Whether the merged file of the `k`-th zone was found.
pub open spec fn exists_at(out_exists: Seq<bool>, k: int) -> bool {
    0 <= k < out_exists.len() && out_exists[k]
}

/// The data sent for a zone.
pub open spec fn hm_data_spec(zone: Seq<char>, saved: Option<Seq<char>>, empty_table: Seq<char>) -> Seq<char> {
    match saved {
        Some(s) => s,
        None => "Harvest"@ + zone + "_SavedVars"@ + empty_table,
    }
}

/// The hash a zone's data is remembered by: its MD5 digest in hexadecimal.
pub open spec fn hm_hash(data: Seq<char>) -> Seq<char> {
    hex_text(md5_digest_of(vstd::utf8::encode_utf8(data)))
}

/// The first `k` zones of a HarvestMap sync, in order: each zone not
/// skipped has its data sent and its hash recorded.
pub open spec fn hm_steps(
    config: Config,
    saved: Seq<Option<String>>,
    out_exists: Seq<bool>,
    empty_table: Seq<char>,
    now: Timestamp,
    k: nat,
) -> (Seq<(Seq<char>, Seq<char>)>, Map<Seq<char>, Seq<char>>)
    decreases k,
{
    if k == 0 {
        (Seq::empty(), Map::empty())
    } else {
        let (sent, hashes) = hm_steps(config, saved, out_exists, empty_table, now, (k - 1) as nat);
        let zone = hm_zones()[k - 1];
        let data = hm_data_spec(zone, saved_at(saved, k - 1), empty_table);
        if hm_skip_spec(config, zone, hm_hash(data), exists_at(out_exists, k - 1), now) {
            (sent, hashes)
        } else {
            (sent.push((zone, data)), hashes.insert(zone, hm_hash(data)))
        }
    }
}

pub open spec fn pairs_view(v: Seq<(String, String)>) -> Seq<(Seq<char>, Seq<char>)> {
    v.map_values(|p: (String, String)| (p.0@, p.1@))
}

/// Plans a whole HarvestMap sync, given for each zone (in the order of
/// `hm_zones`) the saved variables the game wrote, if any, and whether the
/// zone's merged file exists: the zones to send, each with its data, in
/// order, and the settings delta to merge once every zone was synced at
/// `now`, holding each sent zone's hash.
pub fn hm_run(
    config: &Config,
    saved: &Vec<Option<String>>,
    out_exists: &Vec<bool>,
    empty_table: &str,
    now: Timestamp,
) -> (r: (Vec<(String, String)>, HmConfigUpdate))
    requires
        config.well_formed(),
    ensures
        pairs_view(r.0@) == hm_steps(*config, saved@, out_exists@, empty_table@, now, 5).0,
        unique_keys(r.1.zone_hashes@),
        keyed_map(r.1.zone_hashes@).map_values(|h: String| h@) == hm_steps(*config, saved@, out_exists@, empty_table@, now, 5).1,
        r.1.synced_at == (if r.0@.len() > 0 { Some(now) } else { None }),
{
    let zones = hm_zone_names();
    let mut sent: Vec<(String, String)> = Vec::new();
    let mut update = HmConfigUpdate { zone_hashes: Vec::new(), synced_at: None };
    let mut k: usize = 0;
    proof {
        assert(pairs_view(sent@) =~= Seq::<(Seq<char>, Seq<char>)>::empty());
        assert(keyed_map(update.zone_hashes@).map_values(|h: String| h@) =~= Map::<Seq<char>, Seq<char>>::empty());
    }
    while k < zones.len()
        invariant
            config.well_formed(),
            zones@.map_values(|z: &'static str| z@) == hm_zones(),
            k <= zones@.len(),
            unique_keys(update.zone_hashes@),
            update.synced_at is None,
            pairs_view(sent@) == hm_steps(*config, saved@, out_exists@, empty_table@, now, k as nat).0,
            keyed_map(update.zone_hashes@).map_values(|h: String| h@) == hm_steps(*config, saved@, out_exists@, empty_table@, now, k as nat).1,
            (sent@.len() > 0) == (update.zone_hashes@.len() > 0),
        decreases zones.len() - k,
    {
        let zone = zones[k];
        proof {
            assert(zone@ == hm_zones()[k as int]);
        }
        let s = if k < saved.len() {
            match &saved[k] {
                Some(x) => Some(x.clone()),
                None => None,
            }
        } else {
            None
        };
        let data = hm_zone_data(zone, s, empty_table);
        let hash = md5_hex(data.as_str().as_bytes());
        let ex = k < out_exists.len() && out_exists[k];
        if !hm_skip_zone(config, zone, hash.as_str(), ex, now) {
            let ghost before = keyed_map(update.zone_hashes@);
            let ghost before_sent = sent@;
            let ghost h = hash@;
            record_hm_zone(&mut update, zone, hash);
            sent.push((zone.to_string(), data));
            proof {
                assert(keyed_map(update.zone_hashes@).contains_key(zone@));
                if update.zone_hashes@.len() == 0 {
                    assert(keyed_map(update.zone_hashes@) == Map::<Seq<char>, String>::empty());
                }
                assert(keyed_map(update.zone_hashes@).map_values(|x: String| x@) =~= before.map_values(|x: String| x@).insert(zone@, h));
                assert(pairs_view(sent@) =~= pairs_view(before_sent).push((zone@, data@)));
            }
        }
        k += 1;
    }
    proof {
        assert(zones@.map_values(|z: &'static str| z@).len() == zones@.len());
        assert(hm_zones().len() == 5);
    }
    finish_hm(&mut update, now);
    (sent, update)
}

/// The id of the HarvestMap-Data addon, which a HarvestMap sync writes into.
pub const HARVEST_MAP_DATA_ID: i32 = 3034;

/// Why a HarvestMap sync cannot start.
#[derive(Clone, Copy, Debug, PartialEq, Eq, Structural)]
pub enum HmSyncError {
    /// HarvestMap-Data is not installed.
    HarvestMapDataNotInstalled,
}

/// A HarvestMap sync, given the ids of the installed addons: it fails when
/// HarvestMap-Data is not among them, and is otherwise planned by `hm_run`.
pub fn hm_sync(
    installed: &Vec<i32>,
    config: &Config,
    saved: &Vec<Option<String>>,
    out_exists: &Vec<bool>,
    empty_table: &str,
    now: Timestamp,
) -> (r: Result<(Vec<(String, String)>, HmConfigUpdate), HmSyncError>)
    requires
        config.well_formed(),
    ensures
        r is Err <==> !installed@.contains(HARVEST_MAP_DATA_ID),
        r matches Err(e) ==> e == HmSyncError::HarvestMapDataNotInstalled,
        r matches Ok(p) ==> {
            &&& pairs_view(p.0@) == hm_steps(*config, saved@, out_exists@, empty_table@, now, 5).0
            &&& unique_keys(p.1.zone_hashes@)
            &&& keyed_map(p.1.zone_hashes@).map_values(|h: String| h@) == hm_steps(*config, saved@, out_exists@, empty_table@, now, 5).1
            &&& p.1.synced_at == (if p.0@.len() > 0 { Some(now) } else { None })
        },
{
    let mut found = false;
    let mut k: usize = 0;
    while k < installed.len()
        invariant
            k <= installed@.len(),
            found == exists|j: int| 0 <= j < k && installed@[j] == HARVEST_MAP_DATA_ID,
        decreases installed.len() - k,
    {
        if installed[k] == HARVEST_MAP_DATA_ID {
            found = true;
        }
        k += 1;
    }
    if !found {
        return Err(HmSyncError::HarvestMapDataNotInstalled);
    }
    Ok(hm_run(config, saved, out_exists, empty_table, now))
}

} // verus!
