//! Addon download addresses, archive paths and the dependencies an addon
//! manifest declares.

use vstd::prelude::*;
use vstd::string::*;
use vstd::utf8::*;
use crate::text::{char_pieces, split_char};
pub use crate::text::strings_view;

verus! {

broadcast use vstd::utf8::encode_utf8_decode_utf8;

/// The characters of an optional string.
pub open spec fn opt_chars(o: Option<String>) -> Option<Seq<char>> {
    match o {
        Some(s) => Some(s@),
        None => None,
    }
}

/// What capture group `group` of the regular expression `pattern` holds on
/// its first match in `text`, if the pattern compiles, matches and the
/// group takes part.
pub uninterp spec fn regex_group(pattern: Seq<char>, text: Seq<char>, group: int) -> Option<Seq<char>>;

/// Compiles `pattern` with `regex::Regex::new` and takes capture group
/// `group` of `Regex::captures` on `text`. The contract claims only that the
/// result is `regex_group` of the arguments: it depends on them alone, and
/// a pattern that does not compile gives `None`. What a pattern matches is
/// left to the regex crate.
#[verifier::external_body]
fn capture_group(pattern: &str, text: &str, group: usize) -> (r: Option<String>)
    ensures
        opt_chars(r) == regex_group(pattern@, text@, group as int),
{
    match regex::Regex::new(pattern) {
        Ok(re) => match re.captures(text) {
            Some(c) => match c.get(group) {
                Some(m) => Some(m.as_str().to_string()),
                None => None,
            },
            None => None,
        },
        Err(_) => None,
    }
}

/// An addon page address `https://...esoui.com/downloads/infoID-Name`.
pub open spec fn info_pattern() -> Seq<char> {
    r"^https://.*esoui\.com/downloads/info(\d+)-(.+)$"@
}

/// An addon page address `https://...esoui.com/downloads/fileinfo.php?id=ID`.
pub open spec fn fileinfo_pattern() -> Seq<char> {
    r"^https://.+esoui\.com/downloads/fileinfo\.php\?id=(\d+)$"@
}

/// `https://www.esoui.com/downloads/download`
pub open spec fn download_prefix() -> Seq<char> {
    "https://www.esoui.com/downloads/download"@
}

/// The addon id an addon page address carries, by the first form that
/// matches.
pub open spec fn esoui_id(url: Seq<char>) -> Option<Seq<char>> {
    match regex_group(info_pattern(), url, 1) {
        Some(id) => Some(id),
        None => regex_group(fileinfo_pattern(), url, 1),
    }
}

/// The download address of the addon with id `id`.
pub fn download_link(id: &str) -> (r: String)
    ensures
        r@ == download_prefix() + id@,
{
    let mut out = "https://www.esoui.com/downloads/download".to_owned();
    out.append(id);
    out
}

/// The download address for an addon page address, if it is one.
pub fn get_download_url(addon_url: &str) -> (r: Option<String>)
    ensures
        opt_chars(r) == match esoui_id(addon_url@) {
            Some(id) => Some(download_prefix() + id),
            None => None,
        },
{
    let patterns: [&str; 2] = [
        r"^https://.*esoui\.com/downloads/info(\d+)-(.+)$",
        r"^https://.+esoui\.com/downloads/fileinfo\.php\?id=(\d+)$",
    ];
    let mut k: usize = 0;
    while k < 2
        invariant
            k <= 2,
            patterns@[0]@ == info_pattern(),
            patterns@[1]@ == fileinfo_pattern(),
            k >= 1 ==> regex_group(info_pattern(), addon_url@, 1) is None,
            k >= 2 ==> regex_group(fileinfo_pattern(), addon_url@, 1) is None,
        decreases 2 - k,
    {
        if let Some(id) = capture_group(patterns[k], addon_url, 1) {
            return Some(download_link(id.as_str()));
        }
        k += 1;
    }
    None
}

/// A dependency entry: a directory name, then optionally a version
/// constraint such as `>=3`.
pub open spec fn dependency_pattern() -> Seq<char> {
    r"^(.+?)(([<=>]+)(.*))?$"@
}

/// The directory a dependency entry names.
pub fn extract_dependency(dep: &str) -> (r: Option<String>)
    ensures
        opt_chars(r) == regex_group(dependency_pattern(), dep@, 1),
{
    capture_group(r"^(.+?)(([<=>]+)(.*))?$", dep, 1)
}

/// A manifest line of the form `## Key: Value`.
pub open spec fn manifest_pattern() -> Seq<char> {
    r"## (.*): (.*)"@
}

/// The pieces of `cs` between single spaces, empty pieces included, as
/// `str::split(' ')` yields them.
pub open spec fn space_pieces(cs: Seq<char>) -> Seq<Seq<char>> {
    char_pieces(cs, ' ')
}

/// The dependencies a list of entries names, in order, without the entries
/// that name none.
pub open spec fn dependency_dirs(pieces: Seq<Seq<char>>) -> Seq<Seq<char>>
    decreases pieces.len(),
{
    if pieces.len() == 0 {
        Seq::empty()
    } else {
        let rest = dependency_dirs(pieces.drop_last());
        match regex_group(dependency_pattern(), pieces.last(), 1) {
            Some(d) => rest.push(d),
            None => rest,
        }
    }
}

/// The dependencies the `DependsOn` line of a manifest names.
pub open spec fn line_deps(line: Seq<char>) -> Seq<Seq<char>> {
    match regex_group(manifest_pattern(), line, 2) {
        Some(v) => dependency_dirs(space_pieces(v)),
        None => Seq::empty(),
    }
}

/// `## DependsOn:`
pub open spec fn depends_on_key() -> Seq<char> {
    "## DependsOn:"@
}

/// The dependencies of a manifest: those of its last `DependsOn` line.
pub open spec fn manifest_deps(lines: Seq<Seq<char>>) -> Seq<Seq<char>>
    decreases lines.len(),
{
    if lines.len() == 0 {
        Seq::empty()
    } else if lines.last().len() >= depends_on_key().len() && lines.last().take(depends_on_key().len() as int)
        == depends_on_key() {
        line_deps(lines.last())
    } else {
        manifest_deps(lines.drop_last())
    }
}

/// An addon directory and the directories it depends on.
#[derive(Debug)]
pub struct Addon {
    pub name: String,
    pub depends_on: Vec<String>,
}

/// The dependencies one `DependsOn` line names.
fn deps_of_line(line: &str) -> (r: Vec<String>)
    ensures
        strings_view(r@) == line_deps(line@),
{
    let value = match capture_group(r"## (.*): (.*)", line, 2) {
        Some(v) => v,
        None => return Vec::new(),
    };
    let pieces = split_char(value.as_str(), ' ');
    let mut deps: Vec<String> = Vec::new();
    let mut k: usize = 0;
    proof {
        assert(strings_view(pieces@).take(0) =~= Seq::<Seq<char>>::empty());
    }
    while k < pieces.len()
        invariant
            k <= pieces@.len(),
            strings_view(deps@) == dependency_dirs(strings_view(pieces@).take(k as int)),
        decreases pieces.len() - k,
    {
        proof {
            assert(strings_view(pieces@).take(k + 1).drop_last() =~= strings_view(pieces@).take(k as int));
        }
        if let Some(d) = extract_dependency(pieces[k].as_str()) {
            deps.push(d);
            proof {
                assert(strings_view(deps@) =~= strings_view(deps@).drop_last().push(deps@.last()@));
            }
        }
        k += 1;
    }
    proof {
        assert(strings_view(pieces@).take(k as int) =~= strings_view(pieces@));
    }
    deps
}

/// Whether `line` starts with `## DependsOn:`.
fn is_depends_on_line(line: &str) -> (r: bool)
    ensures
        r == (line@.len() >= depends_on_key().len() && line@.take(depends_on_key().len() as int) == depends_on_key()),
{
    let key = crate::text::str_chars("## DependsOn:");
    let cs = crate::text::str_chars(line);
    if cs.len() < key.len() {
        return false;
    }
    let mut i: usize = 0;
    while i < key.len()
        invariant
            key@ == depends_on_key(),
            cs@ == line@,
            key@.len() <= cs@.len(),
            i <= key@.len(),
            forall|j: int| 0 <= j < i ==> cs@[j] == key@[j],
        decreases key.len() - i,
    {
        if cs[i] != key[i] {
            assert(cs@.take(key@.len() as int)[i as int] != key@[i as int]);
            return false;
        }
        i += 1;
    }
    assert(cs@.take(key@.len() as int) =~= key@);
    true
}

/// The addon in directory `name` whose manifest has the lines `lines`.
pub fn addon_from_manifest(name: String, lines: &Vec<String>) -> (a: Addon)
    ensures
        a.name == name,
        strings_view(a.depends_on@) == manifest_deps(strings_view(lines@)),
{
    let mut depends_on: Vec<String> = Vec::new();
    let mut k: usize = 0;
    proof {
        assert(strings_view(lines@).take(0) =~= Seq::<Seq<char>>::empty());
    }
    while k < lines.len()
        invariant
            k <= lines@.len(),
            strings_view(depends_on@) == manifest_deps(strings_view(lines@).take(k as int)),
        decreases lines.len() - k,
    {
        proof {
            assert(strings_view(lines@).take(k + 1).drop_last() =~= strings_view(lines@).take(k as int));
            assert(strings_view(lines@).take(k + 1).last() == lines@[k as int]@);
        }
        if is_depends_on_line(lines[k].as_str()) {
            depends_on = deps_of_line(lines[k].as_str());
        }
        k += 1;
    }
    proof {
        assert(strings_view(lines@).take(k as int) =~= strings_view(lines@));
    }
    Addon { name, depends_on }
}

/// What `std::path::Path::parent` gives for the path `p`: the path without
/// its final component, if it has one.
pub uninterp spec fn path_parent(p: Seq<char>) -> Option<Seq<char>>;

/// Calls `std::path::Path::parent`. The contract claims that the result is
/// `path_parent` of the argument, and that a parent, being the path without
/// its final component, is shorter than the path.
#[verifier::external_body]
fn parent_of(p: &str) -> (r: Option<String>)
    ensures
        opt_chars(r) == path_parent(p@),
        r matches Some(q) ==> q@.len() < p@.len(),
{
    match std::path::Path::new(p).parent() {
        Some(q) => Some(q.to_string_lossy().into_owned()),
        None => None,
    }
}

/// The first component of a relative path: its ancestor whose parent is
/// empty; a path with no parent is its own root.
pub open spec fn root_dir(p: Seq<char>) -> Seq<char>
    decreases p.len(),
{
    match path_parent(p) {
        None => p,
        Some(q) => if q.len() == 0 || q.len() >= p.len() {
            p
        } else {
            root_dir(q)
        },
    }
}

/// The top directory of a path inside an archive.
pub fn get_root_dir(path: &str) -> (r: String)
    ensures
        r@ == root_dir(path@),
    decreases path@.len(),
{
    match parent_of(path) {
        None => path.to_owned(),
        Some(parent) => {
            if parent.as_str().is_empty() {
                path.to_owned()
            } else {
                get_root_dir(parent.as_str())
            }
        },
    }
}

} // verus!
