//! What the renderer keeps between frames, and the host name shown for an
//! image address.

use vstd::prelude::*;
use vstd::string::*;
use vstd::utf8::*;
use crate::bbcode::Document;
use crate::ir::{build_blocks, build_spec, bvs, cow_str, ivs, Block, HiddenKind, Inline, SpecBlock, SpecInline};
use crate::cli::{nat_text, push_nat};
use crate::text::push_str;
use crate::style::{default_style, Style};
use crate::text::{byte_slice, lemma_after_ascii, lemma_ascii_boundary, lemma_str_valid};

verus! {

broadcast use vstd::utf8::encode_utf8_decode_utf8;

/// A document laid out as blocks, ready to draw.
pub struct BBView<'a> {
    blocks: Vec<Block<'a>>,
}

impl<'a> BBView<'a> {
    /// The blocks the view draws.
    pub closed spec fn shown(&self) -> Seq<SpecBlock> {
        bvs(self.blocks@)
    }

    /// Lays out a parsed document in the default style. The document is
    /// parsed by the caller so that it outlives the view, which borrows its
    /// text.
    pub fn parse(doc: &'a Document<'a>) -> (v: Self)
        ensures
            v.shown() == build_spec(doc.children@, default_style()),
    {
        let blocks = build_blocks(&doc.children, &Style::default());
        BBView { blocks }
    }

    /// The blocks, to draw them.
    pub fn blocks(&self) -> (r: &Vec<Block<'a>>)
        ensures
            bvs(r@) == self.shown(),
    {
        &self.blocks
    }
}

/// State that outlives a frame: the image opened in its own window, if any.
pub struct BBState {
    pub open_image: Option<String>,
}

impl Default for BBState {
    fn default() -> (s: BBState)
        ensures
            s.open_image is None,
    {
        BBState { open_image: None }
    }
}

/// Whether `://` starts at `i`.
pub open spec fn scheme_sep_at(b: Seq<u8>, i: int) -> bool {
    0 <= i && i + 3 <= b.len() && b[i] == 0x3a && b[i + 1] == 0x2f && b[i + 2] == 0x2f
}

/// The first position at or after `k` where `://` starts, or -1.
pub open spec fn scheme_sep(b: Seq<u8>, k: int) -> int
    decreases b.len() - k,
{
    if k < 0 || k + 3 > b.len() {
        -1
    } else if scheme_sep_at(b, k) {
        k
    } else {
        scheme_sep(b, k + 1)
    }
}

pub open spec fn is_host_end(c: u8) -> bool {
    c == 0x2f || c == 0x3f || c == 0x23
}

/// The first position at or after `k` holding `/`, `?` or `#`, or the length.
pub open spec fn host_end(b: Seq<u8>, k: int) -> int
    decreases b.len() - k,
{
    if k < 0 || k >= b.len() {
        b.len() as int
    } else if is_host_end(b[k]) {
        k
    } else {
        host_end(b, k + 1)
    }
}

/// The address with what precedes the first `://` removed, cut at the first
/// `/`, `?` or `#`.
pub open spec fn short_host_spec(b: Seq<u8>) -> Seq<u8> {
    let p = scheme_sep(b, 0);
    let rest = if p >= 0 { b.skip(p + 3) } else { b };
    rest.take(host_end(rest, 0))
}

proof fn lemma_scheme_sep(b: Seq<u8>, k: int)
    requires
        0 <= k,
    ensures
        scheme_sep(b, k) == -1 || (k <= scheme_sep(b, k) && scheme_sep_at(b, scheme_sep(b, k))),
    decreases b.len() - k,
{
    if k + 3 <= b.len() && !scheme_sep_at(b, k) {
        lemma_scheme_sep(b, k + 1);
    }
}

/// The host part of an address, as the hover text of an image shows it.
pub fn short_host(url: &str) -> (r: String)
    ensures
        encode_utf8(r@) == short_host_spec(url.spec_bytes()),
{
    let b = url.as_bytes();
    let n = b.len();
    let ghost bs = url.spec_bytes();
    proof {
        lemma_str_valid(url);
    }
    let mut p: usize = 0;
    let mut found = false;
    while n >= 3 && p <= n - 3
        invariant_except_break
            !found,
        invariant
            b@ == bs,
            n == bs.len(),
            p <= n,
            scheme_sep(bs, 0) == scheme_sep(bs, p as int),
        ensures
            p <= n,
            found ==> scheme_sep(bs, 0) == p && p + 3 <= n,
            !found ==> scheme_sep(bs, 0) == -1,
        decreases n - p,
    {
        if b[p] == 0x3a && b[p + 1] == 0x2f && b[p + 2] == 0x2f {
            found = true;
            break;
        }
        p += 1;
    }
    let rest = if found {
        proof {
            lemma_scheme_sep(bs, 0);
            lemma_after_ascii(bs, p + 2);
        }
        let t = byte_slice(url, p + 3, n);
        proof {
            assert(t.spec_bytes() =~= bs.skip(p + 3));
        }
        t
    } else {
        url
    };
    let rb = rest.as_bytes();
    let m = rb.len();
    let ghost rs = rest.spec_bytes();
    proof {
        lemma_str_valid(rest);
    }
    let mut q: usize = 0;
    while q < m
        invariant
            rb@ == rs,
            m == rs.len(),
            q <= m,
            host_end(rs, 0) == host_end(rs, q as int),
        ensures
            q <= m,
            host_end(rs, 0) == host_end(rs, q as int),
            q < m ==> is_host_end(rs[q as int]),
        decreases m - q,
    {
        if rb[q] == 0x2f || rb[q] == 0x3f || rb[q] == 0x23 {
            break;
        }
        q += 1;
    }
    proof {
        if q < m {
            assert(host_end(rs, q as int) == q);
            lemma_ascii_boundary(rs, q as int);
        }
    }
    let host = byte_slice(rest, 0, q);
    proof {
        assert(host.spec_bytes() =~= rs.take(q as int));
    }
    host.to_owned()
}

/// A text piece drawn with its style.
pub open spec fn piece_model(p: (String, Style)) -> (Seq<char>, Style) {
    (p.0@, p.1)
}

pub open spec fn pieces_model(v: Seq<(String, Style)>) -> Seq<(Seq<char>, Style)> {
    v.map_values(|p: (String, Style)| piece_model(p))
}

/// A piece of a drawn paragraph.
pub enum Run {
    /// Texts that follow each other, drawn as one label.
    Text(Vec<(String, Style)>),
    /// A clickable link: the texts of its label, underlined (no text means
    /// the address itself is shown).
    Link { label: Vec<(String, Style)>, url: String },
    Image(String),
    /// A YouTube video, by id.
    Youtube(String),
}

/// Model of a run.
pub enum SpecRun {
    Text(Seq<(Seq<char>, Style)>),
    Link(Seq<(Seq<char>, Style)>, Seq<u8>),
    Image(Seq<u8>),
    Youtube(Seq<u8>),
}

pub open spec fn run_model(r: Run) -> SpecRun {
    match r {
        Run::Text(v) => SpecRun::Text(pieces_model(v@)),
        Run::Link { label, url } => SpecRun::Link(pieces_model(label@), encode_utf8(url@)),
        Run::Image(u) => SpecRun::Image(encode_utf8(u@)),
        Run::Youtube(u) => SpecRun::Youtube(encode_utf8(u@)),
    }
}

pub open spec fn runs_model(v: Seq<Run>) -> Seq<SpecRun> {
    v.map_values(|r: Run| run_model(r))
}

/// A style as a link draws it: underlined.
pub open spec fn link_style(s: Style) -> Style {
    Style { underline: true, ..s }
}

/// The texts of a link's label, from position `k` on, in the link style;
/// other pieces of the label are not drawn.
pub open spec fn label_pieces(s: Seq<SpecInline>, k: int) -> Seq<(Seq<char>, Style)>
    decreases s.len() - k,
{
    if k < 0 || k >= s.len() {
        Seq::empty()
    } else {
        match s[k] {
            SpecInline::Text(t, st) => seq![(t, link_style(st))] + label_pieces(s, k + 1),
            _ => label_pieces(s, k + 1),
        }
    }
}

/// The runs of a paragraph from position `k` on, with `cur` the texts
/// gathered so far: texts are gathered (empty ones skipped), and anything
/// else first closes the gathered texts as one run.
pub open spec fn runs_from(s: Seq<SpecInline>, k: int, cur: Seq<(Seq<char>, Style)>) -> Seq<SpecRun>
    decreases s.len() - k,
{
    if k < 0 || k >= s.len() {
        flush(cur)
    } else {
        match s[k] {
            SpecInline::Text(t, st) => if t.len() == 0 {
                runs_from(s, k + 1, cur)
            } else {
                runs_from(s, k + 1, cur.push((t, st)))
            },
            SpecInline::Link(label, url) => flush(cur) + seq![SpecRun::Link(label_pieces(label, 0), url)]
                + runs_from(s, k + 1, Seq::empty()),
            SpecInline::Image(u) => flush(cur) + seq![SpecRun::Image(u)] + runs_from(s, k + 1, Seq::empty()),
            SpecInline::Youtube(u) => flush(cur) + seq![SpecRun::Youtube(u)] + runs_from(s, k + 1, Seq::empty()),
        }
    }
}

pub open spec fn flush(cur: Seq<(Seq<char>, Style)>) -> Seq<SpecRun> {
    if cur.len() == 0 {
        Seq::empty()
    } else {
        seq![SpecRun::Text(cur)]
    }
}

fn close_text(out: &mut Vec<Run>, cur: &mut Vec<(String, Style)>)
    ensures
        runs_model(final(out)@) == runs_model(old(out)@) + flush(pieces_model(old(cur)@)),
        final(cur)@.len() == 0,
{
    if cur.len() > 0 {
        let mut taken: Vec<(String, Style)> = Vec::new();
        std::mem::swap(&mut taken, cur);
        let ghost t = taken@;
        out.push(Run::Text(taken));
        proof {
            assert(runs_model(out@) =~= runs_model(old(out)@) + seq![SpecRun::Text(pieces_model(t))]);
        }
    } else {
        proof {
            assert(pieces_model(old(cur)@) =~= Seq::<(Seq<char>, Style)>::empty());
            assert(runs_model(out@) =~= runs_model(old(out)@) + Seq::<SpecRun>::empty());
        }
    }
}

fn link_label(label: &Vec<Inline>) -> (r: Vec<(String, Style)>)
    ensures
        pieces_model(r@) == label_pieces(ivs(label@), 0),
{
    let mut out: Vec<(String, Style)> = Vec::new();
    let mut k: usize = label.len();
    proof {
        crate::ir::lemma_ivs_count(label@);
        assert(pieces_model(out@) =~= label_pieces(ivs(label@), label@.len() as int));
    }
    while k > 0
        invariant
            k <= label@.len(),
            pieces_model(out@) == label_pieces(ivs(label@), k as int),
        decreases k,
    {
        k -= 1;
        proof {
            crate::ir::lemma_ivs_index(label@, k as int);
        }
        match &label[k] {
            Inline::Text { text, style } => {
                let t = cow_str(text).to_owned();
                let mut st = *style;
                st.underline = true;
                let mut front: Vec<(String, Style)> = Vec::new();
                front.push((t, st));
                let ghost prev = out@;
                front.append(&mut out);
                out = front;
                proof {
                    assert(pieces_model(out@) =~= seq![(text@, link_style(*style))] + pieces_model(prev));
                }
            },
            _ => {},
        }
    }
    out
}

/// The runs a paragraph is drawn as.
pub fn paragraph_runs(inlines: &Vec<Inline>) -> (r: Vec<Run>)
    ensures
        runs_model(r@) == runs_from(ivs(inlines@), 0, Seq::empty()),
{
    let ghost s = ivs(inlines@);
    let mut out: Vec<Run> = Vec::new();
    let mut cur: Vec<(String, Style)> = Vec::new();
    let mut k: usize = 0;
    proof {
        crate::ir::lemma_ivs_count(inlines@);
        assert(runs_model(out@) =~= Seq::<SpecRun>::empty());
        assert(pieces_model(cur@) =~= Seq::<(Seq<char>, Style)>::empty());
    }
    while k < inlines.len()
        invariant
            k <= inlines@.len(),
            s == ivs(inlines@),
            s.len() == inlines@.len(),
            runs_model(out@) + runs_from(s, k as int, pieces_model(cur@)) == runs_from(s, 0, Seq::empty()),
        decreases inlines.len() - k,
    {
        proof {
            crate::ir::lemma_ivs_index(inlines@, k as int);
        }
        let ghost before = runs_model(out@);
        let ghost c0 = pieces_model(cur@);
        match &inlines[k] {
            Inline::Text { text, style } => {
                let t = cow_str(text);
                if !t.is_empty() {
                    cur.push((t.to_owned(), *style));
                    proof {
                        assert(pieces_model(cur@) =~= c0.push((text@, *style)));
                    }
                }
            },
            Inline::Link { label, url } => {
                close_text(&mut out, &mut cur);
                let l = link_label(label);
                out.push(Run::Link { label: l, url: url.clone() });
                proof {
                    assert(runs_model(out@) =~= before + flush(c0) + seq![SpecRun::Link(label_pieces(ivs(label@), 0), encode_utf8(url@))]);
                    assert(pieces_model(cur@) =~= Seq::<(Seq<char>, Style)>::empty());
                }
            },
            Inline::Image(u) => {
                close_text(&mut out, &mut cur);
                out.push(Run::Image(u.clone()));
                proof {
                    assert(runs_model(out@) =~= before + flush(c0) + seq![SpecRun::Image(encode_utf8(u@))]);
                    assert(pieces_model(cur@) =~= Seq::<(Seq<char>, Style)>::empty());
                }
            },
            Inline::Youtube(u) => {
                close_text(&mut out, &mut cur);
                out.push(Run::Youtube(u.clone()));
                proof {
                    assert(runs_model(out@) =~= before + flush(c0) + seq![SpecRun::Youtube(encode_utf8(u@))]);
                    assert(pieces_model(cur@) =~= Seq::<(Seq<char>, Style)>::empty());
                }
            },
        }
        k += 1;
    }
    close_text(&mut out, &mut cur);
    proof {
        assert(runs_model(out@) =~= runs_model(out@) + Seq::<SpecRun>::empty());
    }
    out
}

/// The address a YouTube run opens.
pub fn youtube_url(id: &str) -> (r: String)
    ensures
        r@ == "https://www.youtube.com/watch?v="@ + id@,
{
    let mut out = String::new();
    push_str(&mut out, "https://www.youtube.com/watch?v=");
    push_str(&mut out, id);
    proof {
        assert(out@ =~= "https://www.youtube.com/watch?v="@ + id@);
    }
    out
}

/// The text of a YouTube run.
pub fn youtube_label(id: &str) -> (r: String)
    ensures
        r@ == "▶ youtube:"@ + id@,
{
    let mut out = String::new();
    push_str(&mut out, "▶ youtube:");
    push_str(&mut out, id);
    proof {
        assert(out@ =~= "▶ youtube:"@ + id@);
    }
    out
}

/// The bullet of item `i` of a list: its number and a period when the list
/// is ordered, a dot otherwise.
pub fn list_bullet(ordered: bool, i: usize) -> (r: String)
    requires
        i < u64::MAX,
    ensures
        r@ == (if ordered { nat_text((i + 1) as nat) + "."@ } else { "•"@ }),
{
    let mut out = String::new();
    if ordered {
        push_nat(&mut out, i as u64 + 1);
        push_str(&mut out, ".");
        proof {
            assert(out@ =~= nat_text((i + 1) as nat) + "."@);
        }
    } else {
        push_str(&mut out, "•");
        proof {
            assert(out@ =~= "•"@);
        }
    }
    out
}

/// The heading of a hidden section.
pub fn hidden_label(kind: HiddenKind) -> (r: &'static str)
    ensures
        r@ == (match kind {
            HiddenKind::Spoiler => "Spoiler"@,
            HiddenKind::Blur => "Hidden"@,
        }),
{
    match kind {
        HiddenKind::Spoiler => "Spoiler",
        HiddenKind::Blur => "Hidden",
    }
}

impl BBState {
    /// An image was clicked: it opens in its own window.
    pub fn open(&mut self, url: String)
        ensures
            final(self).open_image == Some(url),
    {
        self.open_image = Some(url);
    }

    /// The image window was closed.
    pub fn close(&mut self)
        ensures
            final(self).open_image is None,
    {
        self.open_image = None;
    }
}

} // verus!
