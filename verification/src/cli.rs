//! What the command-line `show` command prints for an addon.

use vstd::prelude::*;
use crate::service::AddonShowDetails;
use crate::text::push_char;

verus! {

/// `show`: the addon to describe.
pub struct ShowCommand {
    addon_id: i32,
}

impl ShowCommand {
    pub closed spec fn id(&self) -> i32 {
        self.addon_id
    }

    pub fn new(addon_id: i32) -> (c: ShowCommand)
        ensures
            c.id() == addon_id,
    {
        ShowCommand { addon_id }
    }

    pub fn addon_id(&self) -> (r: i32)
        ensures
            r == self.id(),
    {
        self.addon_id
    }
}

/// The decimal digit character for `d` (0 to 9).
pub open spec fn digit_char(d: int) -> char {
    (d + 0x30) as char
}

/// The decimal digits of a natural number, without leading zeros.
pub open spec fn nat_text(n: nat) -> Seq<char>
    decreases n,
{
    if n < 10 {
        seq![digit_char(n as int)]
    } else {
        nat_text(n / 10).push(digit_char((n % 10) as int))
    }
}

/// A whole number as `to_string` writes it.
pub open spec fn int_text(n: int) -> Seq<char> {
    if n < 0 {
        seq!['-'] + nat_text((-n) as nat)
    } else {
        nat_text(n as nat)
    }
}

fn digit(d: u64) -> (c: char)
    requires
        d < 10,
    ensures
        c == digit_char(d as int),
{
    let ds: [char; 10] = ['0', '1', '2', '3', '4', '5', '6', '7', '8', '9'];
    proof {
        assert(ds@[d as int] == digit_char(d as int)) by {
            assert(ds@ =~= seq![digit_char(0), digit_char(1), digit_char(2), digit_char(3), digit_char(4),
                digit_char(5), digit_char(6), digit_char(7), digit_char(8), digit_char(9)]);
        }
    }
    ds[d as usize]
}

/// Appends the decimal digits of `n`.
pub(crate) fn push_nat(out: &mut String, n: u64)
    ensures
        final(out)@ == old(out)@ + nat_text(n as nat),
    decreases n,
{
    if n >= 10 {
        push_nat(out, n / 10);
        push_char(out, digit(n % 10));
        proof {
            assert(out@ =~= old(out)@ + nat_text(n as nat));
        }
    } else {
        push_char(out, digit(n));
        proof {
            assert(out@ =~= old(out)@ + nat_text(n as nat));
        }
    }
}

/// A whole number in decimal.
pub fn int_to_string(n: i32) -> (r: String)
    ensures
        r@ == int_text(n as int),
{
    let mut out = String::new();
    if n < 0 {
        push_char(&mut out, '-');
        let m: u64 = (-(n as i64)) as u64;
        push_nat(&mut out, m);
    } else {
        push_nat(&mut out, n as u64);
    }
    proof {
        assert(out@ =~= int_text(n as int));
    }
    out
}

/// The lines `show` prints: a heading and its value, in order, with the
/// optional ones only when the addon has them.
pub open spec fn show_lines_spec(a: AddonShowDetails) -> Seq<(Seq<char>, Seq<char>)> {
    let name = if a.installed { a.name@ + " (installed)"@ } else { a.name@ };
    let head = seq![
        ("Name"@, name),
        ("ID"@, int_text(a.id as int)),
        ("Author"@, a.author_name@),
        ("Category"@, a.category@),
        ("Version"@, a.version@),
    ];
    let downloads = match a.download_total {
        Some(d) => head.push(("Downloads"@, d@)),
        None => head,
    };
    let url = downloads.push(("URL"@, a.file_info_url@));
    let download = match a.download {
        Some(d) => url.push(("Download"@, d@)),
        None => url,
    };
    let file = match a.file_name {
        Some(f) => download.push(("File"@, f@)),
        None => download,
    };
    match a.md5 {
        Some(m) => file.push(("MD5"@, m@)),
        None => file,
    }
}

pub open spec fn lines_view(v: Seq<(&'static str, String)>) -> Seq<(Seq<char>, Seq<char>)> {
    v.map_values(|l: (&'static str, String)| (l.0@, l.1@))
}

fn push_line(lines: &mut Vec<(&'static str, String)>, h: &'static str, v: String)
    ensures
        lines_view(final(lines)@) == lines_view(old(lines)@).push((h@, v@)),
{
    lines.push((h, v));
    proof {
        assert(lines_view(final(lines)@) =~= lines_view(old(lines)@).push((h@, v@)));
    }
}

/// The lines `show` prints for an addon.
pub fn show_lines(a: &AddonShowDetails) -> (r: Vec<(&'static str, String)>)
    ensures
        lines_view(r@) == show_lines_spec(*a),
{
    let mut lines: Vec<(&'static str, String)> = Vec::new();
    let name = if a.installed {
        let mut n = a.name.clone();
        n.append(" (installed)");
        n
    } else {
        a.name.clone()
    };
    push_line(&mut lines, "Name", name);
    push_line(&mut lines, "ID", int_to_string(a.id));
    push_line(&mut lines, "Author", a.author_name.clone());
    push_line(&mut lines, "Category", a.category.clone());
    push_line(&mut lines, "Version", a.version.clone());
    if let Some(d) = &a.download_total {
        push_line(&mut lines, "Downloads", d.clone());
    }
    push_line(&mut lines, "URL", a.file_info_url.clone());
    if let Some(d) = &a.download {
        push_line(&mut lines, "Download", d.clone());
    }
    if let Some(f) = &a.file_name {
        push_line(&mut lines, "File", f.clone());
    }
    if let Some(m) = &a.md5 {
        push_line(&mut lines, "MD5", m.clone());
    }
    proof {
        assert(lines_view(lines@) =~= show_lines_spec(*a));
    }
    lines
}

/// The widest heading, in characters, among the first `k` lines.
pub open spec fn heading_width_spec(v: Seq<(Seq<char>, Seq<char>)>, k: int) -> nat
    decreases k,
{
    if k <= 0 || k > v.len() {
        0
    } else {
        let w = heading_width_spec(v, k - 1);
        if v[k - 1].0.len() > w {
            v[k - 1].0.len()
        } else {
            w
        }
    }
}

/// The width the headings are padded to.
pub fn heading_width(lines: &Vec<(&'static str, String)>) -> (r: usize)
    ensures
        r == heading_width_spec(lines_view(lines@), lines@.len() as int),
{
    let mut w: usize = 0;
    let mut k: usize = 0;
    while k < lines.len()
        invariant
            k <= lines@.len(),
            w == heading_width_spec(lines_view(lines@), k as int),
        decreases lines.len() - k,
    {
        let cs = crate::text::str_chars(lines[k].0);
        if cs.len() > w {
            w = cs.len();
        }
        k += 1;
    }
    w
}

/// A line of `search` output: the addon's id and name, and a mark when it
/// is installed.
pub open spec fn search_line_spec(id: i32, name: Seq<char>, installed: bool) -> Seq<char> {
    int_text(id as int) + " "@ + name + (if installed { " (installed)"@ } else { Seq::empty() })
}

pub fn search_line(id: i32, name: &str, installed: bool) -> (r: String)
    ensures
        r@ == search_line_spec(id, name@, installed),
{
    let mut out = int_to_string(id);
    crate::text::push_str(&mut out, " ");
    crate::text::push_str(&mut out, name);
    if installed {
        crate::text::push_str(&mut out, " (installed)");
    }
    proof {
        if installed {
            assert(out@ =~= search_line_spec(id, name@, installed));
        } else {
            assert(out@ =~= search_line_spec(id, name@, installed));
        }
    }
    out
}

} // verus!
