//! What a scan of the addon directory concludes: the version installed in
//! each top-level directory, the sub-addons nested in a directory, and the
//! dependencies each manifest declares.

use vstd::prelude::*;
use crate::addons::strings_view;
use crate::config::{find_key, keyed_map, lemma_keyed_replace, unique_keys, upsert, version_less, version_lt};
use crate::text::{str_chars, str_eq};

verus! {

/// A manifest found while scanning: the directory holding it, the top-level
/// directory it sits under, its title, version and dependencies.
pub struct ManifestEntry {
    pub dir_name: String,
    pub top_level: String,
    pub title: String,
    pub version: Option<String>,
    pub depends_on: Vec<String>,
}

/// What the scan concludes, each list keyed by directory name.
pub struct ScanPlan {
    pub versions: Vec<(String, String)>,
    pub nested: Vec<(String, Vec<String>)>,
    pub deps: Vec<(String, Vec<String>)>,
}

/// Every top-level directory starts at version `0`.
pub open spec fn initial_versions(dirs: Seq<String>) -> Map<Seq<char>, Seq<char>>
    decreases dirs.len(),
{
    if dirs.len() == 0 {
        Map::empty()
    } else {
        initial_versions(dirs.drop_last()).insert(dirs.last()@, "0"@)
    }
}

/// The version a manifest declares, `0` when it declares none.
pub open spec fn manifest_version(e: ManifestEntry) -> Seq<char> {
    match e.version {
        Some(v) => v@,
        None => "0"@,
    }
}

/// A top-level manifest raises the version recorded for the directory its
/// title names, when that directory is known and both versions parse.
pub open spec fn versions_after(m: Map<Seq<char>, Seq<char>>, es: Seq<ManifestEntry>) -> Map<Seq<char>, Seq<char>>
    decreases es.len(),
{
    if es.len() == 0 {
        m
    } else {
        let before = versions_after(m, es.drop_last());
        let e = es.last();
        if e.dir_name@ == e.top_level@ && before.contains_key(e.title@) && version_less(
            before[e.title@],
            manifest_version(e),
        ) == Some(true) {
            before.insert(e.title@, manifest_version(e))
        } else {
            before
        }
    }
}

/// A manifest below a top-level directory of another name is a nested
/// sub-addon of it.
pub open spec fn nested_after(es: Seq<ManifestEntry>) -> Map<Seq<char>, Seq<Seq<char>>>
    decreases es.len(),
{
    if es.len() == 0 {
        Map::empty()
    } else {
        let before = nested_after(es.drop_last());
        let e = es.last();
        if e.dir_name@ != e.top_level@ {
            let old = if before.contains_key(e.top_level@) { before[e.top_level@] } else { Seq::empty() };
            before.insert(e.top_level@, old.push(e.dir_name@))
        } else {
            before
        }
    }
}

/// The dependencies of each top-level manifest that declares any; a later
/// manifest for a directory replaces an earlier one.
pub open spec fn deps_after(es: Seq<ManifestEntry>) -> Map<Seq<char>, Seq<Seq<char>>>
    decreases es.len(),
{
    if es.len() == 0 {
        Map::empty()
    } else {
        let before = deps_after(es.drop_last());
        let e = es.last();
        if e.dir_name@ == e.top_level@ && e.depends_on@.len() > 0 {
            before.insert(e.dir_name@, strings_view(e.depends_on@))
        } else {
            before
        }
    }
}

pub open spec fn text_map(v: Seq<(String, String)>) -> Map<Seq<char>, Seq<char>> {
    keyed_map(v).map_values(|s: String| s@)
}

pub open spec fn list_map(v: Seq<(String, Vec<String>)>) -> Map<Seq<char>, Seq<Seq<char>>> {
    keyed_map(v).map_values(|l: Vec<String>| strings_view(l@))
}

fn copy_strings(v: &Vec<String>) -> (r: Vec<String>)
    ensures
        r@ == v@,
{
    let mut out: Vec<String> = Vec::new();
    let mut i: usize = 0;
    while i < v.len()
        invariant
            i <= v@.len(),
            out@ == v@.take(i as int),
        decreases v.len() - i,
    {
        out.push(v[i].clone());
        proof {
            assert(out@ =~= v@.take(i + 1));
        }
        i += 1;
    }
    proof {
        assert(v@.take(i as int) =~= v@);
    }
    out
}

/// The position of the last `.` among the first `k` characters of `name`,
/// or -1.
pub open spec fn last_dot(name: Seq<char>, k: int) -> int
    decreases k,
{
    if k <= 0 {
        -1
    } else if name[k - 1] == '.' {
        k - 1
    } else {
        last_dot(name, k - 1)
    }
}

/// A file name's stem and extension, split at its last `.`; a name with no
/// `.`, or whose only `.` begins it, has no extension.
pub open spec fn split_extension(name: Seq<char>) -> Option<(Seq<char>, Seq<char>)> {
    let i = last_dot(name, name.len() as int);
    if i > 0 {
        Some((name.take(i), name.skip(i + 1)))
    } else {
        None
    }
}

/// The manifest rule, for a file whose path below the addon folder has the
/// components `cs`: it lies 2 to 4 levels deep, its stem is the name of the
/// folder holding it, and its extension is `txt` or `addon`. Such a file is
/// the manifest of that folder, under the top-level folder it sits in.
pub open spec fn manifest_location_spec(cs: Seq<Seq<char>>) -> Option<(Seq<char>, Seq<char>)> {
    if 2 <= cs.len() <= 4 {
        match split_extension(cs.last()) {
            Some((stem, ext)) => if stem == cs[cs.len() - 2] && (ext == "txt"@ || ext == "addon"@) {
                Some((cs[cs.len() - 2], cs[0]))
            } else {
                None
            },
            None => None,
        }
    } else {
        None
    }
}

/// Whether `cs[lo..hi]` spells `t`.
fn chars_match(cs: &Vec<char>, lo: usize, hi: usize, t: &str) -> (r: bool)
    requires
        lo <= hi <= cs@.len(),
    ensures
        r == (cs@.subrange(lo as int, hi as int) == t@),
{
    let tc = str_chars(t);
    if hi - lo != tc.len() {
        return false;
    }
    let mut k: usize = 0;
    while k < tc.len()
        invariant
            k <= tc@.len(),
            tc@ == t@,
            hi - lo == tc@.len(),
            lo <= hi <= cs@.len(),
            forall|j: int| 0 <= j < k ==> cs@[lo + j] == tc@[j],
        decreases tc.len() - k,
    {
        if cs[lo + k] != tc[k] {
            proof {
                assert(cs@.subrange(lo as int, hi as int)[k as int] != t@[k as int]);
            }
            return false;
        }
        k += 1;
    }
    proof {
        assert(cs@.subrange(lo as int, hi as int) =~= t@);
    }
    true
}

/// Applies the manifest rule to the components of a path below the addon
/// folder: the folder the manifest belongs to and its top-level folder, or
/// `None` when the file is no manifest.
pub fn manifest_location(components: &Vec<String>) -> (r: Option<(String, String)>)
    ensures
        match r {
            Some(p) => manifest_location_spec(strings_view(components@)) == Some((p.0@, p.1@)),
            None => manifest_location_spec(strings_view(components@)) is None,
        },
{
    let n = components.len();
    if n < 2 || n > 4 {
        return None;
    }
    let ghost cs = strings_view(components@);
    let name = str_chars(components[n - 1].as_str());
    proof {
        assert(cs.last() == name@);
    }
    let mut dot: Option<usize> = None;
    let mut j: usize = 0;
    while j < name.len()
        invariant
            j <= name@.len(),
            match dot {
                Some(d) => last_dot(name@, j as int) == d && d < j,
                None => last_dot(name@, j as int) == -1,
            },
        decreases name.len() - j,
    {
        if name[j] == '.' {
            dot = Some(j);
        }
        j += 1;
    }
    let d = match dot {
        Some(d) => d,
        None => return None,
    };
    if d == 0 {
        return None;
    }
    let parent = components[n - 2].as_str();
    let stem_ok = chars_match(&name, 0, d, parent);
    let ext_ok = chars_match(&name, d + 1, name.len(), "txt") || chars_match(&name, d + 1, name.len(), "addon");
    proof {
        assert(name@.take(d as int) =~= name@.subrange(0, d as int));
        assert(name@.skip(d + 1) =~= name@.subrange(d + 1, name@.len() as int));
        assert(cs[cs.len() - 2] == parent@);
        assert(cs[0] == components@[0]@);
    }
    if stem_ok && ext_ok {
        Some((components[n - 2].clone(), components[0].clone()))
    } else {
        None
    }
}

/// Concludes a scan from the top-level directories and the manifests found,
/// in the order they were found.
pub fn plan_scan(addon_dirs: &Vec<String>, manifests: &Vec<ManifestEntry>) -> (p: ScanPlan)
    ensures
        unique_keys(p.versions@),
        unique_keys(p.nested@),
        unique_keys(p.deps@),
        text_map(p.versions@) == versions_after(initial_versions(addon_dirs@), manifests@),
        list_map(p.nested@) == nested_after(manifests@),
        list_map(p.deps@) == deps_after(manifests@),
{
    let mut versions: Vec<(String, String)> = Vec::new();
    let mut i: usize = 0;
    proof {
        assert(text_map(versions@) =~= Map::<Seq<char>, Seq<char>>::empty());
        assert(addon_dirs@.take(0) =~= Seq::<String>::empty());
    }
    while i < addon_dirs.len()
        invariant
            i <= addon_dirs@.len(),
            unique_keys(versions@),
            text_map(versions@) == initial_versions(addon_dirs@.take(i as int)),
        decreases addon_dirs.len() - i,
    {
        let ghost before = keyed_map(versions@);
        upsert(&mut versions, addon_dirs[i].clone(), "0".to_string());
        proof {
            assert(addon_dirs@.take(i + 1).drop_last() =~= addon_dirs@.take(i as int));
            assert(text_map(versions@) =~= before.map_values(|s: String| s@).insert(addon_dirs@[i as int]@, "0"@));
        }
        i += 1;
    }
    proof {
        assert(addon_dirs@.take(i as int) =~= addon_dirs@);
    }
    let mut nested: Vec<(String, Vec<String>)> = Vec::new();
    let mut deps: Vec<(String, Vec<String>)> = Vec::new();
    let mut k: usize = 0;
    proof {
        assert(list_map(nested@) =~= Map::<Seq<char>, Seq<Seq<char>>>::empty());
        assert(list_map(deps@) =~= Map::<Seq<char>, Seq<Seq<char>>>::empty());
        assert(manifests@.take(0) =~= Seq::<ManifestEntry>::empty());
    }
    while k < manifests.len()
        invariant
            k <= manifests@.len(),
            unique_keys(versions@),
            unique_keys(nested@),
            unique_keys(deps@),
            text_map(versions@) == versions_after(initial_versions(addon_dirs@), manifests@.take(k as int)),
            list_map(nested@) == nested_after(manifests@.take(k as int)),
            list_map(deps@) == deps_after(manifests@.take(k as int)),
        decreases manifests.len() - k,
    {
        let e = &manifests[k];
        proof {
            assert(manifests@.take(k + 1).drop_last() =~= manifests@.take(k as int));
            assert(manifests@.take(k + 1).last() == manifests@[k as int]);
        }
        if !str_eq(e.dir_name.as_str(), e.top_level.as_str()) {
            let ghost before = keyed_map(nested@);
            match find_key(&nested, e.top_level.as_str()) {
                Some(j) => {
                    let ghost pre = nested@;
                    let (key, mut subs) = nested.remove(j);
                    let ghost old_subs = subs@;
                    subs.push(e.dir_name.clone());
                    let ghost entry = (key, subs);
                    nested.insert(j, (key, subs));
                    proof {
                        assert(nested@ =~= pre.update(j as int, entry));
                        lemma_keyed_replace(pre, j as int, entry);
                        assert(strings_view(subs@) =~= strings_view(old_subs).push(e.dir_name@));
                        assert(list_map(nested@) =~= list_map(pre).insert(e.top_level@, strings_view(subs@)));
                    }
                },
                None => {
                    let mut subs: Vec<String> = Vec::new();
                    subs.push(e.dir_name.clone());
                    upsert(&mut nested, e.top_level.clone(), subs);
                    proof {
                        assert(strings_view(subs@) =~= Seq::<Seq<char>>::empty().push(e.dir_name@));
                        assert(list_map(nested@) =~= nested_after(manifests@.take(k + 1)));
                    }
                },
            }
        } else {
            let nv = match &e.version {
                Some(v) => v.clone(),
                None => "0".to_string(),
            };
            match find_key(&versions, e.title.as_str()) {
                Some(j) => {
                    if version_lt(versions[j].1.as_str(), nv.as_str()) == Some(true) {
                        let ghost before = keyed_map(versions@);
                        upsert(&mut versions, e.title.clone(), nv);
                        proof {
                            assert(text_map(versions@) =~= before.map_values(|s: String| s@).insert(e.title@, manifest_version(*e)));
                        }
                    }
                },
                None => {},
            }
            if e.depends_on.len() > 0 {
                let ghost before = keyed_map(deps@);
                let d = copy_strings(&e.depends_on);
                upsert(&mut deps, e.dir_name.clone(), d);
                proof {
                    assert(list_map(deps@) =~= before.map_values(|l: Vec<String>| strings_view(l@)).insert(e.dir_name@, strings_view(e.depends_on@)));
                }
            }
        }
        k += 1;
    }
    proof {
        assert(manifests@.take(k as int) =~= manifests@);
    }
    ScanPlan { versions, nested, deps }
}

} // verus!
