//! The intermediate form between the markup tree and the widgets: blocks
//! of paragraphs, lists and frames holding styled runs of text, links,
//! images and videos; and the rules for link addresses.

use vstd::prelude::*;
use vstd::string::*;
use vstd::utf8::*;
use std::borrow::Cow;
use crate::bbcode::{opt_bytes, unquote, unquote_spec, Element, Node};
use crate::decode::{decode, decode_spec, is_dangerous_spec, lemma_decode_is_safe, lemma_strip_is_safe, strip_dangerous, strip_dangerous_spec};
use crate::style::{default_style, size_from_attr, size_from_attr_spec, Style};
use crate::sanitize::{
    attr_text, image_schemes, link_schemes, mailto_scheme, scheme_allowed, starts_with_lower, opt_utf8, parse_color, parse_color_spec,
    is_id_byte, sanitize_image_url, sanitize_url, sanitize_youtube_id, sanitized, youtube_id_spec,
};
use crate::text::{
    eq_ignore_case, eq_ignore_case_bytes, byte_slice, is_ascii_ws, is_ws3, lemma_after_ascii, lemma_encode_concat, lemma_str_valid, push_str,
    trim, trim_end_len, trim_spec, trim_start_len, ws_front, ws_len_back, ws_len_front,
};

verus! {

broadcast use vstd::utf8::encode_utf8_decode_utf8;

/// Horizontal alignment of a block.
#[derive(Clone, Copy, Debug, PartialEq, Eq, Structural)]
pub enum HAlign {
    Left,
    Center,
    Right,
}

/// How hidden content is revealed.
#[derive(Clone, Copy, Debug, PartialEq, Eq, Structural)]
pub enum HiddenKind {
    Spoiler,
    Blur,
}

/// Whether a white-space character starts at some position of `b`.
pub open spec fn has_ws(b: Seq<u8>) -> bool {
    exists|i: int| 0 <= i < b.len() && ws_len_front(#[trigger] b.subrange(i, b.len() as int)) > 0
}

/// The first position at or after `k` holding `@`, or -1.
pub open spec fn first_at(b: Seq<u8>, k: int) -> int
    decreases b.len() - k,
{
    if k < 0 || k >= b.len() {
        -1
    } else if b[k] == 0x40 {
        k
    } else {
        first_at(b, k + 1)
    }
}

/// A plausible mail address: a non-empty part before the first `@`, a
/// non-empty part after it holding a `.`, and no white space anywhere.
pub open spec fn email_addr_ok(b: Seq<u8>) -> bool {
    &&& email_local(b).len() > 0
    &&& email_domain(b).len() > 0
    &&& has_dot(email_domain(b))
    &&& !has_ws(b)
}

/// The part of an address before its first `@` (all of it if there is none).
pub open spec fn email_local(b: Seq<u8>) -> Seq<u8> {
    if first_at(b, 0) >= 0 {
        b.take(first_at(b, 0))
    } else {
        b
    }
}

/// The part of an address after its first `@` (empty if there is none).
pub open spec fn email_domain(b: Seq<u8>) -> Seq<u8> {
    if first_at(b, 0) >= 0 {
        b.skip(first_at(b, 0) + 1)
    } else {
        Seq::empty()
    }
}

pub open spec fn has_dot(d: Seq<u8>) -> bool {
    exists|i: int| 0 <= i < d.len() && d[i] == 0x2e
}

proof fn lemma_first_at(b: Seq<u8>, k: int)
    requires
        0 <= k <= b.len(),
    ensures
        first_at(b, k) == -1 ==> forall|j: int| k <= j < b.len() ==> b[j] != 0x40,
        first_at(b, k) != -1 ==> k <= first_at(b, k) < b.len() && b[first_at(b, k)] == 0x40,
    decreases b.len() - k,
{
    if k < b.len() && b[k] != 0x40 {
        lemma_first_at(b, k + 1);
    }
}

/// Whether `s` looks like a mail address.
pub fn is_email_addr(s: &str) -> (r: bool)
    ensures
        r == email_addr_ok(s.spec_bytes()),
{
    let b = s.as_bytes();
    let n = b.len();
    let ghost bs = s.spec_bytes();
    let mut at: usize = 0;
    while at < n
        invariant
            b@ == bs,
            n == bs.len(),
            at <= n,
            first_at(bs, 0) == first_at(bs, at as int),
        ensures
            at <= n,
            first_at(bs, 0) == first_at(bs, at as int),
            at < n ==> bs[at as int] == 0x40,
        decreases n - at,
    {
        if b[at] == 0x40 {
            break;
        }
        at += 1;
    }
    proof {
        lemma_first_at(bs, at as int);
    }
    let local_len = at;
    let domain_start = if at < n { at + 1 } else { n };
    if local_len == 0 || domain_start >= n {
        proof {
            if at < n {
                assert(bs.take(at as int).len() == 0 || bs.skip(at + 1).len() == 0);
            }
        }
        return false;
    }
    let mut dot = false;
    let mut k: usize = domain_start;
    while k < n
        invariant
            b@ == bs,
            n == bs.len(),
            domain_start <= k <= n,
            dot == exists|i: int| domain_start <= i < k && bs[i] == 0x2e,
        decreases n - k,
    {
        if b[k] == 0x2e {
            dot = true;
        }
        k += 1;
    }
    let ghost domain = bs.skip(at + 1);
    proof {
        assert(first_at(bs, 0) == at);
        if dot {
            let i = choose|i: int| domain_start <= i < n && bs[i] == 0x2e;
            assert(domain[i - domain_start] == 0x2e);
        } else {
            assert forall|i: int| 0 <= i < domain.len() implies domain[i] != 0x2e by {
                assert(domain[i] == bs[i + domain_start]);
            }
        }
    }
    if !dot {
        return false;
    }
    let mut j: usize = 0;
    while j < n
        invariant
            b@ == bs,
            bs == s.spec_bytes(),
            n == bs.len(),
            j <= n,
            forall|i: int| 0 <= i < j ==> ws_len_front(#[trigger] bs.subrange(i, n as int)) == 0,
        decreases n - j,
    {
        if ws_front(b, j, n) > 0 {
            assert(ws_len_front(bs.subrange(j as int, bs.len() as int)) > 0);
            assert(has_ws(bs));
            return false;
        }
        j += 1;
    }
    proof {
        assert forall|i: int| 0 <= i < bs.len() implies ws_len_front(#[trigger] bs.subrange(i, bs.len() as int)) == 0 by {
            assert(bs.subrange(i, bs.len() as int) == bs.subrange(i, n as int));
        }
    }
    true
}

/// The link a `[email]` element gets for the attribute text `raw`: the
/// address with a `mailto:` prefix, kept or added, if it is a plausible
/// address.
pub open spec fn sanitize_email_spec(raw: Seq<u8>) -> Option<Seq<u8>> {
    let t = attr_text(raw);
    if t.len() == 0 {
        None
    } else if t.len() >= 7 && t.take(7) == mailto_scheme() {
        if email_addr_ok(t.skip(7)) {
            Some(mailto_scheme() + t.skip(7))
        } else {
            None
        }
    } else if email_addr_ok(t) {
        Some(mailto_scheme() + t)
    } else {
        None
    }
}

fn with_mailto(s: &str) -> (r: String)
    ensures
        encode_utf8(r@) == mailto_scheme() + s.spec_bytes(),
{
    let p = "mailto:";
    proof {
        reveal_strlit("mailto:");
        assert(is_ascii_chars(p@));
        is_ascii_chars_encode_utf8(p@);
        assert(p.spec_bytes() =~= mailto_scheme());
    }
    let mut out = p.to_owned();
    push_str(&mut out, s);
    proof {
        lemma_encode_concat(p@, s@);
    }
    out
}

/// The `mailto:` link for an address, if it is one.
pub fn sanitize_email(raw: &str) -> (r: Option<String>)
    ensures
        match r {
            Some(o) => sanitize_email_spec(raw.spec_bytes()) == Some(encode_utf8(o@)),
            None => sanitize_email_spec(raw.spec_bytes()) is None,
        },
{
    let s = trim(unquote(raw));
    let b = s.as_bytes();
    let n = b.len();
    if n == 0 {
        return None;
    }
    let pre: [u8; 7] = [0x6d, 0x61, 0x69, 0x6c, 0x74, 0x6f, 0x3a];
    let mut is_mailto = n >= 7;
    let mut k: usize = 0;
    while k < 7 && is_mailto
        invariant
            b@ == s.spec_bytes(),
            n == b@.len(),
            k <= 7,
            pre@ == mailto_scheme(),
            is_mailto ==> n >= 7 && forall|j: int| 0 <= j < k ==> b@[j] == pre@[j],
            !is_mailto ==> !(n >= 7 && b@.take(7) == mailto_scheme()),
        decreases 7 - k,
    {
        if b[k] != pre[k] {
            is_mailto = false;
            proof {
                assert(b@.take(7)[k as int] != mailto_scheme()[k as int]);
            }
        }
        k += 1;
    }
    proof {
        assert(pre@ =~= mailto_scheme());
        if is_mailto {
            assert(b@.take(7) =~= mailto_scheme());
        }
    }
    if is_mailto {
        proof {
            lemma_str_valid(s);
            lemma_after_ascii(s.spec_bytes(), 6);
        }
        let rest = byte_slice(s, 7, n);
        proof {
            assert(rest.spec_bytes() =~= s.spec_bytes().skip(7));
        }
        if is_email_addr(rest) {
            return Some(with_mailto(rest));
        }
        return None;
    }
    if is_email_addr(s) {
        Some(with_mailto(s))
    } else {
        None
    }
}

/// A block of rendered content.
pub enum Block<'a> {
    Para(Vec<Inline<'a>>),
    List { ordered: bool, items: Vec<Vec<Block<'a>>> },
    Indent(Vec<Block<'a>>),
    Code(Cow<'a, str>),
    Hidden(HiddenKind, Vec<Block<'a>>),
    Quote(Vec<Block<'a>>),
    Align(HAlign, Vec<Block<'a>>),
}

/// A piece of a paragraph.
pub enum Inline<'a> {
    Text { text: Cow<'a, str>, style: Style },
    Link { label: Vec<Inline<'a>>, url: String },
    Image(String),
    Youtube(String),
}

/// Model of an inline piece: texts as characters, addresses and ids as
/// their UTF-8 bytes.
pub enum SpecInline {
    Text(Seq<char>, Style),
    Link(Seq<SpecInline>, Seq<u8>),
    Image(Seq<u8>),
    Youtube(Seq<u8>),
}

/// Model of a block.
pub enum SpecBlock {
    Para(Seq<SpecInline>),
    List(bool, Seq<Seq<SpecBlock>>),
    Indent(Seq<SpecBlock>),
    Code(Seq<char>),
    Hidden(HiddenKind, Seq<SpecBlock>),
    Quote(Seq<SpecBlock>),
    Align(HAlign, Seq<SpecBlock>),
}

pub open spec fn inline_view(i: Inline) -> SpecInline
    decreases i, 0nat,
{
    match i {
        Inline::Text { text, style } => SpecInline::Text(text@, style),
        Inline::Link { label, url } => SpecInline::Link(inlines_view(label@, label@.len()), encode_utf8(url@)),
        Inline::Image(u) => SpecInline::Image(encode_utf8(u@)),
        Inline::Youtube(u) => SpecInline::Youtube(encode_utf8(u@)),
    }
}

/// The models of the first `k` pieces of `s`.
pub open spec fn inlines_view(s: Seq<Inline>, k: nat) -> Seq<SpecInline>
    decreases s, k,
{
    if k == 0 || k > s.len() {
        Seq::empty()
    } else {
        inlines_view(s, (k - 1) as nat).push(inline_view(s[k - 1]))
    }
}

pub open spec fn block_view(b: Block) -> SpecBlock
    decreases b, 0nat,
{
    match b {
        Block::Para(v) => SpecBlock::Para(inlines_view(v@, v@.len())),
        Block::List { ordered, items } => SpecBlock::List(ordered, items_view(items@, items@.len())),
        Block::Indent(v) => SpecBlock::Indent(blocks_view(v@, v@.len())),
        Block::Code(t) => SpecBlock::Code(t@),
        Block::Hidden(k, v) => SpecBlock::Hidden(k, blocks_view(v@, v@.len())),
        Block::Quote(v) => SpecBlock::Quote(blocks_view(v@, v@.len())),
        Block::Align(a, v) => SpecBlock::Align(a, blocks_view(v@, v@.len())),
    }
}

/// The models of the first `k` blocks of `s`.
pub open spec fn blocks_view(s: Seq<Block>, k: nat) -> Seq<SpecBlock>
    decreases s, k,
{
    if k == 0 || k > s.len() {
        Seq::empty()
    } else {
        blocks_view(s, (k - 1) as nat).push(block_view(s[k - 1]))
    }
}

/// The models of the first `k` list items of `s`.
pub open spec fn items_view(s: Seq<Vec<Block>>, k: nat) -> Seq<Seq<SpecBlock>>
    decreases s, k,
{
    if k == 0 || k > s.len() {
        Seq::empty()
    } else {
        items_view(s, (k - 1) as nat).push(blocks_view(s[k - 1]@, s[k - 1]@.len()))
    }
}

pub open spec fn ivs(s: Seq<Inline>) -> Seq<SpecInline> {
    inlines_view(s, s.len())
}

pub open spec fn bvs(s: Seq<Block>) -> Seq<SpecBlock> {
    blocks_view(s, s.len())
}

proof fn lemma_inlines_view_prefix(s: Seq<Inline>, t: Seq<Inline>, k: nat)
    requires
        k <= s.len(),
        k <= t.len(),
        forall|i: int| 0 <= i < k ==> s[i] == t[i],
    ensures
        inlines_view(s, k) == inlines_view(t, k),
    decreases k,
{
    if k > 0 {
        lemma_inlines_view_prefix(s, t, (k - 1) as nat);
    }
}

proof fn lemma_inlines_view_index(s: Seq<Inline>, k: nat, i: int)
    requires
        k <= s.len(),
        0 <= i < k,
    ensures
        inlines_view(s, k).len() == k,
        inlines_view(s, k)[i] == inline_view(s[i]),
    decreases k,
{
    lemma_ivs_len(s, (k - 1) as nat);
    if i < k - 1 {
        lemma_inlines_view_index(s, (k - 1) as nat, i);
    }
}

pub(crate) proof fn lemma_ivs_count(s: Seq<Inline>)
    ensures
        ivs(s).len() == s.len(),
{
    lemma_ivs_len(s, s.len());
}

/// The model of a piece list has a model per piece, in order.
pub(crate) proof fn lemma_ivs_index(s: Seq<Inline>, i: int)
    requires
        0 <= i < s.len(),
    ensures
        ivs(s).len() == s.len(),
        ivs(s)[i] == inline_view(s[i]),
{
    lemma_inlines_view_index(s, s.len(), i);
}

proof fn lemma_ivs_push(s: Seq<Inline>, x: Inline)
    ensures
        ivs(s.push(x)) == ivs(s).push(inline_view(x)),
{
    lemma_inlines_view_prefix(s.push(x), s, s.len());
}

proof fn lemma_blocks_view_prefix(s: Seq<Block>, t: Seq<Block>, k: nat)
    requires
        k <= s.len(),
        k <= t.len(),
        forall|i: int| 0 <= i < k ==> s[i] == t[i],
    ensures
        blocks_view(s, k) == blocks_view(t, k),
    decreases k,
{
    if k > 0 {
        lemma_blocks_view_prefix(s, t, (k - 1) as nat);
    }
}

proof fn lemma_bvs_push(s: Seq<Block>, x: Block)
    ensures
        bvs(s.push(x)) == bvs(s).push(block_view(x)),
{
    lemma_blocks_view_prefix(s.push(x), s, s.len());
}

proof fn lemma_items_view_prefix(s: Seq<Vec<Block>>, t: Seq<Vec<Block>>, k: nat)
    requires
        k <= s.len(),
        k <= t.len(),
        forall|i: int| 0 <= i < k ==> s[i] == t[i],
    ensures
        items_view(s, k) == items_view(t, k),
    decreases k,
{
    if k > 0 {
        lemma_items_view_prefix(s, t, (k - 1) as nat);
    }
}

/// What a tag does.
#[derive(Clone, Copy, Debug, PartialEq, Eq, Structural)]
pub enum TagKind {
    Bold,
    Italic,
    Underline,
    Strike,
    Color,
    Size,
    Font,
    Url,
    Email,
    Img,
    Youtube,
    List,
    Ol,
    Item,
    Indent,
    Code,
    Spoiler,
    Blur,
    Quote,
    Center,
    Left,
    Right,
    Other,
}

/// What a tag does, by its name in any case.
pub open spec fn tag_kind(tag: Seq<u8>) -> TagKind {
    if eq_ignore_case(tag, seq![0x62u8]) {
        TagKind::Bold
    } else if eq_ignore_case(tag, seq![0x69u8]) {
        TagKind::Italic
    } else if eq_ignore_case(tag, seq![0x75u8]) {
        TagKind::Underline
    } else if eq_ignore_case(tag, seq![0x73u8]) {
        TagKind::Strike
    } else if eq_ignore_case(tag, seq![0x73u8, 0x74, 0x72, 0x69, 0x6b, 0x65]) {
        TagKind::Strike
    } else if eq_ignore_case(tag, seq![0x63u8, 0x6f, 0x6c, 0x6f, 0x72]) {
        TagKind::Color
    } else if eq_ignore_case(tag, seq![0x73u8, 0x69, 0x7a, 0x65]) {
        TagKind::Size
    } else if eq_ignore_case(tag, seq![0x66u8, 0x6f, 0x6e, 0x74]) {
        TagKind::Font
    } else if eq_ignore_case(tag, seq![0x75u8, 0x72, 0x6c]) {
        TagKind::Url
    } else if eq_ignore_case(tag, seq![0x65u8, 0x6d, 0x61, 0x69, 0x6c]) {
        TagKind::Email
    } else if eq_ignore_case(tag, seq![0x69u8, 0x6d, 0x67]) {
        TagKind::Img
    } else if eq_ignore_case(tag, seq![0x79u8, 0x6f, 0x75, 0x74, 0x75, 0x62, 0x65]) {
        TagKind::Youtube
    } else if eq_ignore_case(tag, seq![0x6cu8, 0x69, 0x73, 0x74]) {
        TagKind::List
    } else if eq_ignore_case(tag, seq![0x75u8, 0x6c]) {
        TagKind::List
    } else if eq_ignore_case(tag, seq![0x6fu8, 0x6c]) {
        TagKind::Ol
    } else if eq_ignore_case(tag, seq![0x2au8]) {
        TagKind::Item
    } else if eq_ignore_case(tag, seq![0x6cu8, 0x69]) {
        TagKind::Item
    } else if eq_ignore_case(tag, seq![0x69u8, 0x6e, 0x64, 0x65, 0x6e, 0x74]) {
        TagKind::Indent
    } else if eq_ignore_case(tag, seq![0x63u8, 0x6f, 0x64, 0x65]) {
        TagKind::Code
    } else if eq_ignore_case(tag, seq![0x68u8, 0x69, 0x67, 0x68, 0x6c, 0x69, 0x67, 0x68, 0x74]) {
        TagKind::Code
    } else if eq_ignore_case(tag, seq![0x70u8, 0x72, 0x65]) {
        TagKind::Code
    } else if eq_ignore_case(tag, seq![0x73u8, 0x70, 0x6f, 0x69, 0x6c, 0x65, 0x72]) {
        TagKind::Spoiler
    } else if eq_ignore_case(tag, seq![0x62u8, 0x6c, 0x75, 0x72]) {
        TagKind::Blur
    } else if eq_ignore_case(tag, seq![0x71u8, 0x75, 0x6f, 0x74, 0x65]) {
        TagKind::Quote
    } else if eq_ignore_case(tag, seq![0x63u8, 0x65, 0x6e, 0x74, 0x65, 0x72]) {
        TagKind::Center
    } else if eq_ignore_case(tag, seq![0x6cu8, 0x65, 0x66, 0x74]) {
        TagKind::Left
    } else if eq_ignore_case(tag, seq![0x72u8, 0x69, 0x67, 0x68, 0x74]) {
        TagKind::Right
    } else {
        TagKind::Other
    }
}

fn classify_tag(tag: &str) -> (k: TagKind)
    ensures
        k == tag_kind(tag.spec_bytes()),
{
    let n0: [u8; 1] = [0x62];
    assert(n0@ =~= seq![0x62u8]);
    if eq_ignore_case_bytes(tag, n0.as_slice()) {
        return TagKind::Bold;
    }
    let n1: [u8; 1] = [0x69];
    assert(n1@ =~= seq![0x69u8]);
    if eq_ignore_case_bytes(tag, n1.as_slice()) {
        return TagKind::Italic;
    }
    let n2: [u8; 1] = [0x75];
    assert(n2@ =~= seq![0x75u8]);
    if eq_ignore_case_bytes(tag, n2.as_slice()) {
        return TagKind::Underline;
    }
    let n3: [u8; 1] = [0x73];
    assert(n3@ =~= seq![0x73u8]);
    if eq_ignore_case_bytes(tag, n3.as_slice()) {
        return TagKind::Strike;
    }
    let n4: [u8; 6] = [0x73, 0x74, 0x72, 0x69, 0x6b, 0x65];
    assert(n4@ =~= seq![0x73u8, 0x74, 0x72, 0x69, 0x6b, 0x65]);
    if eq_ignore_case_bytes(tag, n4.as_slice()) {
        return TagKind::Strike;
    }
    let n5: [u8; 5] = [0x63, 0x6f, 0x6c, 0x6f, 0x72];
    assert(n5@ =~= seq![0x63u8, 0x6f, 0x6c, 0x6f, 0x72]);
    if eq_ignore_case_bytes(tag, n5.as_slice()) {
        return TagKind::Color;
    }
    let n6: [u8; 4] = [0x73, 0x69, 0x7a, 0x65];
    assert(n6@ =~= seq![0x73u8, 0x69, 0x7a, 0x65]);
    if eq_ignore_case_bytes(tag, n6.as_slice()) {
        return TagKind::Size;
    }
    let n7: [u8; 4] = [0x66, 0x6f, 0x6e, 0x74];
    assert(n7@ =~= seq![0x66u8, 0x6f, 0x6e, 0x74]);
    if eq_ignore_case_bytes(tag, n7.as_slice()) {
        return TagKind::Font;
    }
    let n8: [u8; 3] = [0x75, 0x72, 0x6c];
    assert(n8@ =~= seq![0x75u8, 0x72, 0x6c]);
    if eq_ignore_case_bytes(tag, n8.as_slice()) {
        return TagKind::Url;
    }
    let n9: [u8; 5] = [0x65, 0x6d, 0x61, 0x69, 0x6c];
    assert(n9@ =~= seq![0x65u8, 0x6d, 0x61, 0x69, 0x6c]);
    if eq_ignore_case_bytes(tag, n9.as_slice()) {
        return TagKind::Email;
    }
    let n10: [u8; 3] = [0x69, 0x6d, 0x67];
    assert(n10@ =~= seq![0x69u8, 0x6d, 0x67]);
    if eq_ignore_case_bytes(tag, n10.as_slice()) {
        return TagKind::Img;
    }
    let n11: [u8; 7] = [0x79, 0x6f, 0x75, 0x74, 0x75, 0x62, 0x65];
    assert(n11@ =~= seq![0x79u8, 0x6f, 0x75, 0x74, 0x75, 0x62, 0x65]);
    if eq_ignore_case_bytes(tag, n11.as_slice()) {
        return TagKind::Youtube;
    }
    let n12: [u8; 4] = [0x6c, 0x69, 0x73, 0x74];
    assert(n12@ =~= seq![0x6cu8, 0x69, 0x73, 0x74]);
    if eq_ignore_case_bytes(tag, n12.as_slice()) {
        return TagKind::List;
    }
    let n13: [u8; 2] = [0x75, 0x6c];
    assert(n13@ =~= seq![0x75u8, 0x6c]);
    if eq_ignore_case_bytes(tag, n13.as_slice()) {
        return TagKind::List;
    }
    let n14: [u8; 2] = [0x6f, 0x6c];
    assert(n14@ =~= seq![0x6fu8, 0x6c]);
    if eq_ignore_case_bytes(tag, n14.as_slice()) {
        return TagKind::Ol;
    }
    let n15: [u8; 1] = [0x2a];
    assert(n15@ =~= seq![0x2au8]);
    if eq_ignore_case_bytes(tag, n15.as_slice()) {
        return TagKind::Item;
    }
    let n16: [u8; 2] = [0x6c, 0x69];
    assert(n16@ =~= seq![0x6cu8, 0x69]);
    if eq_ignore_case_bytes(tag, n16.as_slice()) {
        return TagKind::Item;
    }
    let n17: [u8; 6] = [0x69, 0x6e, 0x64, 0x65, 0x6e, 0x74];
    assert(n17@ =~= seq![0x69u8, 0x6e, 0x64, 0x65, 0x6e, 0x74]);
    if eq_ignore_case_bytes(tag, n17.as_slice()) {
        return TagKind::Indent;
    }
    let n18: [u8; 4] = [0x63, 0x6f, 0x64, 0x65];
    assert(n18@ =~= seq![0x63u8, 0x6f, 0x64, 0x65]);
    if eq_ignore_case_bytes(tag, n18.as_slice()) {
        return TagKind::Code;
    }
    let n19: [u8; 9] = [0x68, 0x69, 0x67, 0x68, 0x6c, 0x69, 0x67, 0x68, 0x74];
    assert(n19@ =~= seq![0x68u8, 0x69, 0x67, 0x68, 0x6c, 0x69, 0x67, 0x68, 0x74]);
    if eq_ignore_case_bytes(tag, n19.as_slice()) {
        return TagKind::Code;
    }
    let n20: [u8; 3] = [0x70, 0x72, 0x65];
    assert(n20@ =~= seq![0x70u8, 0x72, 0x65]);
    if eq_ignore_case_bytes(tag, n20.as_slice()) {
        return TagKind::Code;
    }
    let n21: [u8; 7] = [0x73, 0x70, 0x6f, 0x69, 0x6c, 0x65, 0x72];
    assert(n21@ =~= seq![0x73u8, 0x70, 0x6f, 0x69, 0x6c, 0x65, 0x72]);
    if eq_ignore_case_bytes(tag, n21.as_slice()) {
        return TagKind::Spoiler;
    }
    let n22: [u8; 4] = [0x62, 0x6c, 0x75, 0x72];
    assert(n22@ =~= seq![0x62u8, 0x6c, 0x75, 0x72]);
    if eq_ignore_case_bytes(tag, n22.as_slice()) {
        return TagKind::Blur;
    }
    let n23: [u8; 5] = [0x71, 0x75, 0x6f, 0x74, 0x65];
    assert(n23@ =~= seq![0x71u8, 0x75, 0x6f, 0x74, 0x65]);
    if eq_ignore_case_bytes(tag, n23.as_slice()) {
        return TagKind::Quote;
    }
    let n24: [u8; 6] = [0x63, 0x65, 0x6e, 0x74, 0x65, 0x72];
    assert(n24@ =~= seq![0x63u8, 0x65, 0x6e, 0x74, 0x65, 0x72]);
    if eq_ignore_case_bytes(tag, n24.as_slice()) {
        return TagKind::Center;
    }
    let n25: [u8; 4] = [0x6c, 0x65, 0x66, 0x74];
    assert(n25@ =~= seq![0x6cu8, 0x65, 0x66, 0x74]);
    if eq_ignore_case_bytes(tag, n25.as_slice()) {
        return TagKind::Left;
    }
    let n26: [u8; 5] = [0x72, 0x69, 0x67, 0x68, 0x74];
    assert(n26@ =~= seq![0x72u8, 0x69, 0x67, 0x68, 0x74]);
    if eq_ignore_case_bytes(tag, n26.as_slice()) {
        return TagKind::Right;
    }
    TagKind::Other
}

/// What the emission has built so far: finished blocks, and the pieces of
/// the paragraph under way.
pub struct Emit {
    pub blocks: Seq<SpecBlock>,
    pub inline: Seq<SpecInline>,
}

pub open spec fn emit_of(b: Seq<Block>, i: Seq<Inline>) -> Emit {
    Emit { blocks: bvs(b), inline: ivs(i) }
}

/// Ends the paragraph under way, if it has anything in it.
pub open spec fn flush_spec(st: Emit) -> Emit {
    if st.inline.len() == 0 {
        st
    } else {
        Emit { blocks: st.blocks.push(SpecBlock::Para(st.inline)), inline: Seq::empty() }
    }
}

pub open spec fn with_inline(st: Emit, x: SpecInline) -> Emit {
    Emit { blocks: st.blocks, inline: st.inline.push(x) }
}

pub open spec fn with_block(st: Emit, x: SpecBlock) -> Emit {
    let f = flush_spec(st);
    Emit { blocks: f.blocks.push(x), inline: f.inline }
}

/// The text a node holds, markup removed.
pub open spec fn flatten_node(n: Node) -> Seq<char>
    decreases n, 0nat,
{
    match n {
        Node::Text(s) => s@,
        Node::Element(e) => flatten_nodes(e.children@, e.children@.len()),
    }
}

/// The text the first `k` nodes of `ns` hold.
pub open spec fn flatten_nodes(ns: Seq<Node>, k: nat) -> Seq<char>
    decreases ns, k,
{
    if k == 0 || k > ns.len() {
        Seq::empty()
    } else {
        flatten_nodes(ns, (k - 1) as nat) + flatten_node(ns[k - 1])
    }
}

/// The decoded text of a list of nodes.
pub open spec fn collect_text_spec(ns: Seq<Node>) -> Seq<char> {
    decode_spec(flatten_nodes(ns, ns.len()))
}

/// The UTF-8 bytes of the decoded text `s`.
pub open spec fn decoded_bytes(s: &str) -> Seq<u8> {
    encode_utf8(decode_spec(s@))
}

/// The address a link to `b` gets, if it is allowed.
pub open spec fn resolve_link_spec(b: Seq<u8>, email: bool) -> Option<Seq<u8>> {
    if email {
        sanitize_email_spec(b)
    } else {
        sanitized(b, link_schemes())
    }
}

/// The address of a link element: its attribute's, else the one its single
/// text child spells.
pub open spec fn link_target(e: Element, email: bool) -> Option<Seq<u8>> {
    let from_attr = match e.attr {
        Some(a) => resolve_link_spec(decoded_bytes(a), email),
        None => None,
    };
    match from_attr {
        Some(u) => Some(u),
        None => if e.children@.len() == 1 {
            match e.children@[0] {
                Node::Text(t) => resolve_link_spec(decoded_bytes(t), email),
                _ => None,
            }
        } else {
            None
        },
    }
}

/// A link whose label is nothing but an address shows the address.
pub open spec fn label_is_url(e: Element, email: bool) -> bool {
    e.children@.len() == 0 || (e.children@.len() == 1 && match e.children@[0] {
        Node::Text(t) => resolve_link_spec(decoded_bytes(t), email) is Some,
        _ => false,
    })
}

/// The address as a label shows it: a mail link without its `mailto:`.
pub open spec fn link_display(u: Seq<u8>, email: bool) -> Seq<char> {
    if email && u.len() >= 7 && u.take(7) == mailto_scheme() {
        decode_utf8(u.skip(7))
    } else {
        decode_utf8(u)
    }
}

/// `[img]`: the image its text names, or the tag as text.
pub open spec fn image_inline(e: Element) -> SpecInline {
    match sanitized(encode_utf8(collect_text_spec(e.children@)), image_schemes()) {
        Some(u) => SpecInline::Image(u),
        None => SpecInline::Text(strip_dangerous_spec(e.raw_open@), default_style()),
    }
}

/// `[youtube]`: the video its text names, or the tag as text.
pub open spec fn youtube_inline(e: Element) -> SpecInline {
    match youtube_id_spec(trim_spec(encode_utf8(collect_text_spec(e.children@)))) {
        Some(id) => SpecInline::Youtube(id),
        None => SpecInline::Text(strip_dangerous_spec(e.raw_open@), default_style()),
    }
}

/// `[color]`: the style with the colour its attribute names, if any.
pub open spec fn color_style(e: Element, style: Style) -> Style {
    match e.attr {
        Some(a) => match parse_color_spec(a.spec_bytes()) {
            Some(c) => Style { color: Some(c), ..style },
            None => style,
        },
        None => style,
    }
}

/// `[size]`: the style with the size its attribute selects, if any.
pub open spec fn size_style(e: Element, style: Style) -> Style {
    match size_from_attr_spec(opt_bytes(e.attr)) {
        Some(p) => Style { size_pt: p, ..style },
        None => style,
    }
}

/// A list is numbered when it is an `[ol]`, or its attribute is neither
/// empty nor `*`.
pub open spec fn list_ordered(e: Element, is_ol: bool) -> bool {
    is_ol || match e.attr {
        Some(a) => {
            let v = unquote_spec(a.spec_bytes());
            v.len() > 0 && v != seq![0x2au8]
        },
        None => false,
    }
}

/// A child of a list that is one of its items: `[*]`, or `[li]` in any case.
pub open spec fn is_item(n: Node) -> bool {
    match n {
        Node::Element(item) => item.tag.spec_bytes() == seq![0x2au8] || eq_ignore_case(
            item.tag.spec_bytes(),
            seq![0x6cu8, 0x69],
        ),
        Node::Text(_) => false,
    }
}

pub open spec fn emit_nodes_spec(ns: Seq<Node>, k: nat, style: Style, st: Emit) -> Emit
    decreases ns, k,
{
    if k == 0 || k > ns.len() {
        st
    } else {
        emit_node_spec(ns[k - 1], style, emit_nodes_spec(ns, (k - 1) as nat, style, st))
    }
}

pub open spec fn emit_node_spec(n: Node, style: Style, st: Emit) -> Emit
    decreases n, 0nat,
{
    match n {
        Node::Text(s) => with_inline(st, SpecInline::Text(decode_spec(s@), style)),
        Node::Element(e) => emit_element_spec(e, style, st),
    }
}

/// An element that renders as text: its opening tag, stripped of control
/// and bidirectional formatting characters, then its children.
pub open spec fn passthrough_spec(e: Element, style: Style, st: Emit) -> Emit
    decreases e, 1nat,
{
    emit_nodes_spec(e.children@, e.children@.len(), style, with_inline(st, SpecInline::Text(strip_dangerous_spec(e.raw_open@), style)))
}

/// The blocks a list of nodes renders as.
pub open spec fn build_spec(ns: Seq<Node>, style: Style) -> Seq<SpecBlock>
    decreases ns, ns.len() + 1,
{
    flush_spec(emit_nodes_spec(ns, ns.len(), style, Emit { blocks: Seq::empty(), inline: Seq::empty() })).blocks
}

/// The items of a list among its first `k` children.
pub open spec fn list_items_spec(ns: Seq<Node>, k: nat, style: Style) -> Seq<Seq<SpecBlock>>
    decreases ns, k,
{
    if k == 0 || k > ns.len() {
        Seq::empty()
    } else {
        let rest = list_items_spec(ns, (k - 1) as nat, style);
        match ns[k - 1] {
            Node::Element(item) => if is_item(ns[k - 1]) {
                rest.push(build_spec(item.children@, style))
            } else {
                rest
            },
            Node::Text(_) => rest,
        }
    }
}

pub open spec fn collect_inlines_spec(ns: Seq<Node>, k: nat, style: Style, out: Seq<SpecInline>) -> Seq<SpecInline>
    decreases ns, k,
{
    if k == 0 || k > ns.len() {
        out
    } else {
        collect_inline_spec(ns[k - 1], style, collect_inlines_spec(ns, (k - 1) as nat, style, out))
    }
}

/// A node rendered into a link label: blocks it would end are dropped.
pub open spec fn collect_inline_spec(n: Node, style: Style, out: Seq<SpecInline>) -> Seq<SpecInline>
    decreases n, 0nat,
{
    match n {
        Node::Text(s) => out.push(SpecInline::Text(decode_spec(s@), style)),
        Node::Element(e) => emit_element_spec(e, style, Emit { blocks: Seq::empty(), inline: out }).inline,
    }
}

/// `[url]` and `[email]`: a link when the address is allowed, else the tag
/// as text followed by the children.
pub open spec fn emit_url_spec(e: Element, style: Style, out: Seq<SpecInline>, email: bool) -> Seq<SpecInline>
    decreases e, 1nat,
{
    match link_target(e, email) {
        None => collect_inlines_spec(e.children@, e.children@.len(), style, out.push(SpecInline::Text(strip_dangerous_spec(e.raw_open@), style))),
        Some(u) => {
            let label = if label_is_url(e, email) {
                seq![SpecInline::Text(link_display(u, email), style)]
            } else {
                collect_inlines_spec(e.children@, e.children@.len(), style, Seq::empty())
            };
            out.push(SpecInline::Link(label, u))
        },
    }
}

pub open spec fn emit_element_spec(e: Element, style: Style, st: Emit) -> Emit
    decreases e, 2nat,
{
    let ns = e.children@;
    match tag_kind(e.tag.spec_bytes()) {
        TagKind::Bold => emit_nodes_spec(ns, ns.len(), Style { bold: true, ..style }, st),
        TagKind::Italic => emit_nodes_spec(ns, ns.len(), Style { italic: true, ..style }, st),
        TagKind::Underline => emit_nodes_spec(ns, ns.len(), Style { underline: true, ..style }, st),
        TagKind::Strike => emit_nodes_spec(ns, ns.len(), Style { strike: true, ..style }, st),
        TagKind::Color => emit_nodes_spec(ns, ns.len(), color_style(e, style), st),
        TagKind::Size => emit_nodes_spec(ns, ns.len(), size_style(e, style), st),
        TagKind::Font => emit_nodes_spec(ns, ns.len(), style, st),
        TagKind::Url => Emit { blocks: st.blocks, inline: emit_url_spec(e, style, st.inline, false) },
        TagKind::Email => Emit { blocks: st.blocks, inline: emit_url_spec(e, style, st.inline, true) },
        TagKind::Img => with_inline(st, image_inline(e)),
        TagKind::Youtube => with_inline(st, youtube_inline(e)),
        TagKind::List => with_block(st, SpecBlock::List(list_ordered(e, false), list_items_spec(ns, ns.len(), style))),
        TagKind::Ol => with_block(st, SpecBlock::List(list_ordered(e, true), list_items_spec(ns, ns.len(), style))),
        TagKind::Indent => with_block(st, SpecBlock::Indent(build_spec(ns, style))),
        TagKind::Code => with_block(st, SpecBlock::Code(collect_text_spec(ns))),
        TagKind::Spoiler => with_block(st, SpecBlock::Hidden(HiddenKind::Spoiler, build_spec(ns, style))),
        TagKind::Blur => with_block(st, SpecBlock::Hidden(HiddenKind::Blur, build_spec(ns, style))),
        TagKind::Quote => with_block(st, SpecBlock::Quote(build_spec(ns, style))),
        TagKind::Center => with_block(st, SpecBlock::Align(HAlign::Center, build_spec(ns, style))),
        TagKind::Left => with_block(st, SpecBlock::Align(HAlign::Left, build_spec(ns, style))),
        TagKind::Right => with_block(st, SpecBlock::Align(HAlign::Right, build_spec(ns, style))),
        _ => passthrough_spec(e, style, st),
    }
}

proof fn lemma_ivs_len(s: Seq<Inline>, k: nat)
    requires
        k <= s.len(),
    ensures
        inlines_view(s, k).len() == k,
    decreases k,
{
    if k > 0 {
        lemma_ivs_len(s, (k - 1) as nat);
    }
}

proof fn lemma_items_push(s: Seq<Vec<Block>>, x: Vec<Block>)
    ensures
        items_view(s.push(x), s.len() + 1) == items_view(s, s.len()).push(bvs(x@)),
{
    lemma_items_view_prefix(s.push(x), s, s.len());
}

fn push_inline<'a>(inline: &mut Vec<Inline<'a>>, x: Inline<'a>)
    ensures
        ivs(final(inline)@) == ivs(old(inline)@).push(inline_view(x)),
{
    proof {
        lemma_ivs_push(inline@, x);
    }
    inline.push(x);
}

fn push_block<'a>(blocks: &mut Vec<Block<'a>>, x: Block<'a>)
    ensures
        bvs(final(blocks)@) == bvs(old(blocks)@).push(block_view(x)),
{
    proof {
        lemma_bvs_push(blocks@, x);
    }
    blocks.push(x);
}

/// Ends the paragraph under way, if it has anything in it.
fn flush_para<'a>(inline: &mut Vec<Inline<'a>>, blocks: &mut Vec<Block<'a>>)
    ensures
        emit_of(final(blocks)@, final(inline)@) == flush_spec(emit_of(old(blocks)@, old(inline)@)),
{
    proof {
        lemma_ivs_len(inline@, inline@.len());
    }
    if inline.len() == 0 {
        return;
    }
    let mut para: Vec<Inline<'a>> = Vec::new();
    std::mem::swap(&mut para, inline);
    push_block(blocks, Block::Para(para));
    proof {
        assert(ivs(inline@) =~= Seq::<SpecInline>::empty());
    }
}

/// The text of a borrowed or owned string.
pub(crate) fn cow_str<'b>(c: &'b Cow<'_, str>) -> (r: &'b str)
    ensures
        r@ == c@,
{
    match c {
        Cow::Borrowed(b) => b,
        Cow::Owned(o) => o.as_str(),
    }
}

fn flatten_text(node: &Node, out: &mut String)
    ensures
        final(out)@ == old(out)@ + flatten_node(*node),
    decreases node, 0nat,
{
    match node {
        Node::Text(s) => push_str(out, s),
        Node::Element(e) => flatten_children(&e.children, out),
    }
}

fn flatten_children(ns: &Vec<Node>, out: &mut String)
    ensures
        final(out)@ == old(out)@ + flatten_nodes(ns@, ns@.len()),
    decreases ns, 1nat,
{
    let ghost start = out@;
    let mut i: usize = 0;
    proof {
        assert(out@ =~= start + flatten_nodes(ns@, 0));
    }
    while i < ns.len()
        invariant
            i <= ns@.len(),
            out@ == start + flatten_nodes(ns@, i as nat),
        decreases ns.len() - i,
    {
        flatten_text(&ns[i], out);
        proof {
            assert(out@ =~= start + flatten_nodes(ns@, (i + 1) as nat));
        }
        i += 1;
    }
}

/// The decoded text of a list of nodes, markup removed.
fn collect_text<'a>(nodes: &'a Vec<Node<'a>>) -> (r: Cow<'a, str>)
    ensures
        r@ == collect_text_spec(nodes@),
{
    if nodes.len() == 1 {
        if let Node::Text(s) = &nodes[0] {
            proof {
                assert(flatten_node(nodes@[0]) == s@);
                assert(flatten_nodes(nodes@, 0) =~= Seq::<char>::empty());
                assert(flatten_nodes(nodes@, 1) =~= flatten_nodes(nodes@, 0) + flatten_node(nodes@[0]));
                assert(flatten_nodes(nodes@, 1) =~= s@);
            }
            return decode(s);
        }
    }
    let mut s = String::new();
    flatten_children(nodes, &mut s);
    proof {
        assert(s@ =~= flatten_nodes(nodes@, nodes@.len()));
    }
    let d = decode(s.as_str());
    let owned = match d {
        Cow::Borrowed(b) => b.to_owned(),
        Cow::Owned(o) => o,
    };
    Cow::Owned(owned)
}

/// The address a link to `s` gets, if it is allowed.
fn resolve_link(s: &str, email: bool) -> (r: Option<String>)
    ensures
        opt_utf8(r) == resolve_link_spec(s.spec_bytes(), email),
{
    if email {
        sanitize_email(s)
    } else {
        sanitize_url(s)
    }
}

fn emit_image<'a>(e: &'a Element<'a>, inline: &mut Vec<Inline<'a>>)
    ensures
        ivs(final(inline)@) == ivs(old(inline)@).push(image_inline(*e)),
{
    let url = collect_text(&e.children);
    match sanitize_image_url(cow_str(&url)) {
        Some(u) => push_inline(inline, Inline::Image(u)),
        None => push_inline(inline, Inline::Text { text: strip_dangerous(e.raw_open), style: Style::default() }),
    }
}

fn emit_youtube<'a>(e: &'a Element<'a>, inline: &mut Vec<Inline<'a>>)
    ensures
        ivs(final(inline)@) == ivs(old(inline)@).push(youtube_inline(*e)),
{
    let id = collect_text(&e.children);
    match sanitize_youtube_id(trim(cow_str(&id))) {
        Some(u) => push_inline(inline, Inline::Youtube(u)),
        None => push_inline(inline, Inline::Text { text: strip_dangerous(e.raw_open), style: Style::default() }),
    }
}

/// The label text of a link whose label is its address.
fn display_of(u: &String, email: bool) -> (r: String)
    ensures
        r@ == link_display(encode_utf8(u@), email),
{
    let s = u.as_str();
    let b = s.as_bytes();
    if email && b.len() >= 7 {
        let pre: [u8; 7] = [0x6d, 0x61, 0x69, 0x6c, 0x74, 0x6f, 0x3a];
        let mut same = true;
        let mut k: usize = 0;
        while k < 7
            invariant
                k <= 7,
                b@.len() >= 7,
                pre@ == mailto_scheme(),
                same == forall|j: int| 0 <= j < k ==> b@[j] == pre@[j],
            decreases 7 - k,
        {
            if b[k] != pre[k] {
                same = false;
            }
            k += 1;
        }
        proof {
            assert(pre@ =~= mailto_scheme());
            if same {
                assert(b@.take(7) =~= mailto_scheme());
            } else {
                let j = choose|j: int| 0 <= j < 7 && b@[j] != pre@[j];
                assert(b@.take(7)[j] != mailto_scheme()[j]);
            }
        }
        if same {
            proof {
                lemma_str_valid(s);
                lemma_after_ascii(s.spec_bytes(), 6);
            }
            let rest = byte_slice(s, 7, b.len());
            proof {
                assert(rest.spec_bytes() =~= encode_utf8(u@).skip(7));
            }
            return rest.to_owned();
        }
    }
    u.clone()
}

fn emit_nodes<'a>(ns: &'a Vec<Node<'a>>, style: &Style, blocks: &mut Vec<Block<'a>>, inline: &mut Vec<Inline<'a>>)
    ensures
        emit_of(final(blocks)@, final(inline)@) == emit_nodes_spec(ns@, ns@.len(), *style, emit_of(old(blocks)@, old(inline)@)),
    decreases ns, 0nat,
{
    let ghost start = emit_of(blocks@, inline@);
    let mut i: usize = 0;
    while i < ns.len()
        invariant
            i <= ns@.len(),
            emit_of(blocks@, inline@) == emit_nodes_spec(ns@, i as nat, *style, start),
        decreases ns.len() - i,
    {
        emit_node(&ns[i], style, blocks, inline);
        i += 1;
    }
}

fn emit_node<'a>(node: &'a Node<'a>, style: &Style, blocks: &mut Vec<Block<'a>>, inline: &mut Vec<Inline<'a>>)
    ensures
        emit_of(final(blocks)@, final(inline)@) == emit_node_spec(*node, *style, emit_of(old(blocks)@, old(inline)@)),
    decreases node, 0nat,
{
    match node {
        Node::Text(s) => push_inline(inline, Inline::Text { text: decode(s), style: *style }),
        Node::Element(e) => emit_element(e, style, blocks, inline),
    }
}

fn emit_passthrough<'a>(e: &'a Element<'a>, style: &Style, blocks: &mut Vec<Block<'a>>, inline: &mut Vec<Inline<'a>>)
    ensures
        emit_of(final(blocks)@, final(inline)@) == passthrough_spec(*e, *style, emit_of(old(blocks)@, old(inline)@)),
    decreases e, 1nat,
{
    push_inline(inline, Inline::Text { text: strip_dangerous(e.raw_open), style: *style });
    emit_nodes(&e.children, style, blocks, inline);
}

fn collect_inline<'a>(node: &'a Node<'a>, style: &Style, out: &mut Vec<Inline<'a>>)
    ensures
        ivs(final(out)@) == collect_inline_spec(*node, *style, ivs(old(out)@)),
    decreases node, 0nat,
{
    match node {
        Node::Text(s) => push_inline(out, Inline::Text { text: decode(s), style: *style }),
        Node::Element(e) => {
            let mut blocks: Vec<Block<'a>> = Vec::new();
            proof {
                assert(bvs(blocks@) =~= Seq::<SpecBlock>::empty());
            }
            emit_element(e, style, &mut blocks, out);
        },
    }
}

fn collect_inlines<'a>(e: &'a Element<'a>, style: &Style, out: &mut Vec<Inline<'a>>)
    ensures
        ivs(final(out)@) == collect_inlines_spec(e.children@, e.children@.len(), *style, ivs(old(out)@)),
    decreases e, 0nat,
{
    let ghost start = ivs(out@);
    let mut i: usize = 0;
    while i < e.children.len()
        invariant
            i <= e.children@.len(),
            ivs(out@) == collect_inlines_spec(e.children@, i as nat, *style, start),
        decreases e.children.len() - i,
    {
        collect_inline(&e.children[i], style, out);
        i += 1;
    }
}

fn emit_url<'a>(e: &'a Element<'a>, style: &Style, inline: &mut Vec<Inline<'a>>, email: bool)
    ensures
        ivs(final(inline)@) == emit_url_spec(*e, *style, ivs(old(inline)@), email),
    decreases e, 1nat,
{
    let mut url: Option<String> = match e.attr {
        Some(a) => {
            let d = decode(a);
            resolve_link(cow_str(&d), email)
        },
        None => None,
    };
    if url.is_none() && e.children.len() == 1 {
        if let Node::Text(t) = &e.children[0] {
            let d = decode(t);
            url = resolve_link(cow_str(&d), email);
        }
    }
    match url {
        None => {
            push_inline(inline, Inline::Text { text: strip_dangerous(e.raw_open), style: *style });
            collect_inlines(e, style, inline);
        },
        Some(u) => {
            let mut label_only = e.children.len() == 0;
            if e.children.len() == 1 {
                if let Node::Text(t) = &e.children[0] {
                    let d = decode(t);
                    label_only = resolve_link(cow_str(&d), email).is_some();
                }
            }
            let mut label: Vec<Inline<'a>> = Vec::new();
            proof {
                assert(ivs(label@) =~= Seq::<SpecInline>::empty());
            }
            if label_only {
                let display = display_of(&u, email);
                push_inline(&mut label, Inline::Text { text: Cow::Owned(display), style: *style });
            } else {
                collect_inlines(e, style, &mut label);
            }
            push_inline(inline, Inline::Link { label, url: u });
        },
    }
}

/// The blocks a list of nodes renders as, in the given style. Texts are
/// decoded and, like the raw form of tags shown as text, hold no control or
/// bidirectional formatting characters.
pub fn build_blocks<'a>(nodes: &'a Vec<Node<'a>>, style: &Style) -> (r: Vec<Block<'a>>)
    ensures
        bvs(r@) == build_spec(nodes@, *style),
    decreases nodes, 1nat,
{
    let mut blocks: Vec<Block<'a>> = Vec::new();
    let mut inline: Vec<Inline<'a>> = Vec::new();
    proof {
        assert(emit_of(blocks@, inline@) =~= Emit { blocks: Seq::empty(), inline: Seq::empty() });
    }
    emit_nodes(nodes, style, &mut blocks, &mut inline);
    flush_para(&mut inline, &mut blocks);
    blocks
}

fn list_items<'a>(e: &'a Element<'a>, style: &Style) -> (r: Vec<Vec<Block<'a>>>)
    ensures
        items_view(r@, r@.len()) == list_items_spec(e.children@, e.children@.len(), *style),
    decreases e, 1nat,
{
    let mut items: Vec<Vec<Block<'a>>> = Vec::new();
    let mut i: usize = 0;
    let star: [u8; 1] = [0x2a];
    let li: [u8; 2] = [0x6c, 0x69];
    assert(star@ =~= seq![0x2au8]);
    assert(li@ =~= seq![0x6cu8, 0x69]);
    while i < e.children.len()
        invariant
            i <= e.children@.len(),
            star@ == seq![0x2au8],
            li@ == seq![0x6cu8, 0x69],
            items_view(items@, items@.len()) == list_items_spec(e.children@, i as nat, *style),
        decreases e.children.len() - i,
    {
        if let Node::Element(item) = &e.children[i] {
            let tb = item.tag.as_bytes();
            let is_star = tb.len() == 1 && tb[0] == 0x2a;
            proof {
                if is_star {
                    assert(tb@ =~= seq![0x2au8]);
                }
            }
            if is_star || eq_ignore_case_bytes(item.tag, li.as_slice()) {
                let b = build_blocks(&item.children, style);
                proof {
                    lemma_items_push(items@, b);
                }
                items.push(b);
            }
        }
        i += 1;
    }
    items
}

fn list_is_ordered(e: &Element, is_ol: bool) -> (r: bool)
    ensures
        r == list_ordered(*e, is_ol),
{
    if is_ol {
        return true;
    }
    match e.attr_value() {
        Some(v) => {
            let vb = v.as_bytes();
            proof {
                if vb@.len() == 1 && vb@[0] == 0x2a {
                    assert(vb@ =~= seq![0x2au8]);
                }
            }
            vb.len() > 0 && !(vb.len() == 1 && vb[0] == 0x2a)
        },
        None => false,
    }
}

fn emit_element<'a>(e: &'a Element<'a>, style: &Style, blocks: &mut Vec<Block<'a>>, inline: &mut Vec<Inline<'a>>)
    ensures
        emit_of(final(blocks)@, final(inline)@) == emit_element_spec(*e, *style, emit_of(old(blocks)@, old(inline)@)),
    decreases e, 2nat,
{
    let kind = classify_tag(e.tag);
    match kind {
        TagKind::Bold => emit_nodes(&e.children, &Style { bold: true, ..*style }, blocks, inline),
        TagKind::Italic => emit_nodes(&e.children, &Style { italic: true, ..*style }, blocks, inline),
        TagKind::Underline => emit_nodes(&e.children, &Style { underline: true, ..*style }, blocks, inline),
        TagKind::Strike => emit_nodes(&e.children, &Style { strike: true, ..*style }, blocks, inline),
        TagKind::Color => {
            let mut s = *style;
            if let Some(a) = e.attr {
                if let Some(c) = parse_color(a) {
                    s.color = Some(c);
                }
            }
            emit_nodes(&e.children, &s, blocks, inline);
        },
        TagKind::Size => {
            let mut s = *style;
            if let Some(p) = size_from_attr(e.attr, style.size_pt) {
                s.size_pt = p;
            }
            emit_nodes(&e.children, &s, blocks, inline);
        },
        TagKind::Font => emit_nodes(&e.children, style, blocks, inline),
        TagKind::Url => emit_url(e, style, inline, false),
        TagKind::Email => emit_url(e, style, inline, true),
        TagKind::Img => emit_image(e, inline),
        TagKind::Youtube => emit_youtube(e, inline),
        TagKind::List | TagKind::Ol => {
            flush_para(inline, blocks);
            let ordered = list_is_ordered(e, kind == TagKind::Ol);
            let items = list_items(e, style);
            push_block(blocks, Block::List { ordered, items });
        },
        TagKind::Indent => {
            flush_para(inline, blocks);
            let b = build_blocks(&e.children, style);
            push_block(blocks, Block::Indent(b));
        },
        TagKind::Code => {
            flush_para(inline, blocks);
            let t = collect_text(&e.children);
            push_block(blocks, Block::Code(t));
        },
        TagKind::Spoiler => {
            flush_para(inline, blocks);
            let b = build_blocks(&e.children, style);
            push_block(blocks, Block::Hidden(HiddenKind::Spoiler, b));
        },
        TagKind::Blur => {
            flush_para(inline, blocks);
            let b = build_blocks(&e.children, style);
            push_block(blocks, Block::Hidden(HiddenKind::Blur, b));
        },
        TagKind::Quote => {
            flush_para(inline, blocks);
            let b = build_blocks(&e.children, style);
            push_block(blocks, Block::Quote(b));
        },
        TagKind::Center => {
            flush_para(inline, blocks);
            let b = build_blocks(&e.children, style);
            push_block(blocks, Block::Align(HAlign::Center, b));
        },
        TagKind::Left => {
            flush_para(inline, blocks);
            let b = build_blocks(&e.children, style);
            push_block(blocks, Block::Align(HAlign::Left, b));
        },
        TagKind::Right => {
            flush_para(inline, blocks);
            let b = build_blocks(&e.children, style);
            push_block(blocks, Block::Align(HAlign::Right, b));
        },
        _ => emit_passthrough(e, style, blocks, inline),
    }
}

/// No character of `t` is a control or bidirectional formatting character.
pub open spec fn chars_safe(t: Seq<char>) -> bool {
    forall|k: int| 0 <= k < t.len() ==> !is_dangerous_spec(#[trigger] t[k])
}

/// A video id of 1 to 32 letters, digits, `_` and `-`.
pub open spec fn youtube_id_ok(id: Seq<u8>) -> bool {
    0 < id.len() <= 32 && forall|k: int| 0 <= k < id.len() ==> is_id_byte(#[trigger] id[k])
}

/// A text holds no dangerous character; a link goes to an allowed address
/// and its label is safe in turn; an image loads from an allowed address; a
/// video id is short and plain.
pub open spec fn inline_safe(i: SpecInline) -> bool
    decreases i, 0nat,
{
    match i {
        SpecInline::Text(t, _) => chars_safe(t),
        SpecInline::Link(label, u) => scheme_allowed(u, link_schemes()) && inlines_safe(label, label.len()),
        SpecInline::Image(u) => scheme_allowed(u, image_schemes()),
        SpecInline::Youtube(id) => youtube_id_ok(id),
    }
}

/// The first `k` pieces of `s` are safe.
pub open spec fn inlines_safe(s: Seq<SpecInline>, k: nat) -> bool
    decreases s, k,
{
    if k == 0 || k > s.len() {
        true
    } else {
        inlines_safe(s, (k - 1) as nat) && inline_safe(s[k - 1])
    }
}

pub open spec fn block_safe(b: SpecBlock) -> bool
    decreases b, 0nat,
{
    match b {
        SpecBlock::Para(is) => inlines_safe(is, is.len()),
        SpecBlock::List(_, items) => items_safe(items, items.len()),
        SpecBlock::Indent(bs) => blocks_safe(bs, bs.len()),
        SpecBlock::Code(t) => chars_safe(t),
        SpecBlock::Hidden(_, bs) => blocks_safe(bs, bs.len()),
        SpecBlock::Quote(bs) => blocks_safe(bs, bs.len()),
        SpecBlock::Align(_, bs) => blocks_safe(bs, bs.len()),
    }
}

/// The first `k` blocks of `s` are safe.
pub open spec fn blocks_safe(s: Seq<SpecBlock>, k: nat) -> bool
    decreases s, k,
{
    if k == 0 || k > s.len() {
        true
    } else {
        blocks_safe(s, (k - 1) as nat) && block_safe(s[k - 1])
    }
}

/// The first `k` list items of `s` are safe.
pub open spec fn items_safe(s: Seq<Seq<SpecBlock>>, k: nat) -> bool
    decreases s, k,
{
    if k == 0 || k > s.len() {
        true
    } else {
        items_safe(s, (k - 1) as nat) && blocks_safe(s[k - 1], s[k - 1].len())
    }
}

pub open spec fn is_safe(s: Seq<SpecInline>) -> bool {
    inlines_safe(s, s.len())
}

pub open spec fn bs_safe(s: Seq<SpecBlock>) -> bool {
    blocks_safe(s, s.len())
}

pub open spec fn st_safe(st: Emit) -> bool {
    bs_safe(st.blocks) && is_safe(st.inline)
}

proof fn lemma_inlines_safe_prefix(s: Seq<SpecInline>, t: Seq<SpecInline>, k: nat)
    requires
        k <= s.len(),
        k <= t.len(),
        forall|i: int| 0 <= i < k ==> s[i] == t[i],
    ensures
        inlines_safe(s, k) == inlines_safe(t, k),
    decreases k,
{
    if k > 0 {
        lemma_inlines_safe_prefix(s, t, (k - 1) as nat);
    }
}

proof fn lemma_is_safe_push(s: Seq<SpecInline>, x: SpecInline)
    ensures
        is_safe(s.push(x)) == (is_safe(s) && inline_safe(x)),
{
    lemma_inlines_safe_prefix(s.push(x), s, s.len());
}

proof fn lemma_blocks_safe_prefix(s: Seq<SpecBlock>, t: Seq<SpecBlock>, k: nat)
    requires
        k <= s.len(),
        k <= t.len(),
        forall|i: int| 0 <= i < k ==> s[i] == t[i],
    ensures
        blocks_safe(s, k) == blocks_safe(t, k),
    decreases k,
{
    if k > 0 {
        lemma_blocks_safe_prefix(s, t, (k - 1) as nat);
    }
}

proof fn lemma_bs_safe_push(s: Seq<SpecBlock>, x: SpecBlock)
    ensures
        bs_safe(s.push(x)) == (bs_safe(s) && block_safe(x)),
{
    lemma_blocks_safe_prefix(s.push(x), s, s.len());
}

proof fn lemma_items_safe_prefix(s: Seq<Seq<SpecBlock>>, t: Seq<Seq<SpecBlock>>, k: nat)
    requires
        k <= s.len(),
        k <= t.len(),
        forall|i: int| 0 <= i < k ==> s[i] == t[i],
    ensures
        items_safe(s, k) == items_safe(t, k),
    decreases k,
{
    if k > 0 {
        lemma_items_safe_prefix(s, t, (k - 1) as nat);
    }
}

proof fn lemma_items_safe_push(s: Seq<Seq<SpecBlock>>, x: Seq<SpecBlock>)
    ensures
        items_safe(s.push(x), s.len() + 1) == (items_safe(s, s.len()) && bs_safe(x)),
{
    lemma_items_safe_prefix(s.push(x), s, s.len());
}

proof fn lemma_flush_safe(st: Emit)
    requires
        st_safe(st),
    ensures
        st_safe(flush_spec(st)),
{
    if st.inline.len() > 0 {
        lemma_bs_safe_push(st.blocks, SpecBlock::Para(st.inline));
        assert(is_safe(Seq::<SpecInline>::empty()));
    }
}

proof fn lemma_with_block_safe(st: Emit, b: SpecBlock)
    requires
        st_safe(st),
        block_safe(b),
    ensures
        st_safe(with_block(st, b)),
{
    lemma_flush_safe(st);
    lemma_bs_safe_push(flush_spec(st).blocks, b);
}

proof fn lemma_with_inline_safe(st: Emit, x: SpecInline)
    requires
        st_safe(st),
        inline_safe(x),
    ensures
        st_safe(with_inline(st, x)),
{
    lemma_is_safe_push(st.inline, x);
}

/// Valid UTF-8 whose characters are all safe.
pub open spec fn safe_bytes(x: Seq<u8>) -> bool {
    valid_utf8(x) && chars_safe(decode_utf8(x))
}

/// The bytes of decoded text are safe.
proof fn lemma_decoded_bytes_safe(s: &str)
    ensures
        safe_bytes(decoded_bytes(s)),
{
    broadcast use vstd::utf8::encode_utf8_valid_utf8;
    lemma_decode_is_safe(s@);
}

/// Dropping the first character of safe bytes leaves safe bytes.
proof fn lemma_pop_safe(x: Seq<u8>)
    requires
        safe_bytes(x),
        x.len() > 0,
    ensures
        safe_bytes(pop_first_scalar(x)),
        pop_first_scalar(x) == x.skip(length_of_first_scalar(x)),
        1 <= length_of_first_scalar(x) <= x.len(),
{
    let d = decode_utf8(x);
    let r = decode_utf8(pop_first_scalar(x));
    assert(d == seq![decode_first_scalar(x) as char] + r);
    assert forall|k: int| 0 <= k < r.len() implies !is_dangerous_spec(#[trigger] r[k]) by {
        assert(r[k] == d[k + 1]);
    }
    assert(pop_first_scalar(x) =~= x.skip(length_of_first_scalar(x)));
}

/// Dropping `n` leading ASCII bytes of safe bytes leaves safe bytes.
proof fn lemma_skip_ascii_safe(x: Seq<u8>, n: int)
    requires
        safe_bytes(x),
        0 <= n <= x.len(),
        forall|i: int| 0 <= i < n ==> #[trigger] x[i] < 0x80,
    ensures
        safe_bytes(x.skip(n)),
    decreases n,
{
    if n > 0 {
        lemma_pop_safe(x);
        let y = x.skip(1);
        assert(length_of_first_scalar(x) == 1);
        assert forall|i: int| 0 <= i < n - 1 implies #[trigger] y[i] < 0x80 by {
            assert(y[i] == x[i + 1]);
        }
        lemma_skip_ascii_safe(y, n - 1);
        assert(y.skip(n - 1) =~= x.skip(n));
    } else {
        assert(x.skip(0) =~= x);
    }
}

/// Cutting safe bytes where no character continues leaves safe bytes.
proof fn lemma_take_safe(x: Seq<u8>, i: int)
    requires
        safe_bytes(x),
        0 <= i <= x.len(),
        i < x.len() ==> !is_continuation_byte(x[i]),
    ensures
        safe_bytes(x.take(i)),
{
    broadcast use vstd::utf8::is_char_boundary_start_end_of_seq;
    if i < x.len() {
        vstd::utf8::is_char_boundary_iff_not_is_continuation_byte(x, i);
    }
    assert(is_char_boundary(x, i));
    vstd::utf8::valid_utf8_split(x, i);
    vstd::utf8::decode_utf8_split(x, i);
    let a = decode_utf8(x.subrange(0, i));
    assert forall|k: int| 0 <= k < a.len() implies !is_dangerous_spec(#[trigger] a[k]) by {
        assert(a[k] == decode_utf8(x)[k]);
    }
    assert(x.take(i) =~= x.subrange(0, i));
}

/// The byte length of a leading white-space character is the length of the
/// first character.
proof fn lemma_ws_front_scalar(x: Seq<u8>)
    requires
        valid_utf8(x),
        ws_len_front(x) > 0,
    ensures
        ws_len_front(x) == length_of_first_scalar(x),
{
}

proof fn lemma_trim_lens(x: Seq<u8>)
    ensures
        0 <= trim_start_len(x) <= x.len(),
        0 <= trim_end_len(x) <= x.len(),
    decreases x.len(),
{
    let k = ws_len_front(x);
    if k > 0 && k <= x.len() {
        lemma_trim_lens(x.skip(k));
    }
    let j = ws_len_back(x);
    if j > 0 && j <= x.len() {
        lemma_trim_lens(x.take(x.len() - j));
    }
}

/// Safe bytes stay safe when leading white space is dropped.
proof fn lemma_trim_start_safe(x: Seq<u8>)
    requires
        safe_bytes(x),
    ensures
        safe_bytes(x.skip(trim_start_len(x))),
    decreases x.len(),
{
    let k = ws_len_front(x);
    if k > 0 && k <= x.len() {
        lemma_pop_safe(x);
        lemma_ws_front_scalar(x);
        let y = x.skip(k);
        lemma_trim_start_safe(y);
        lemma_trim_lens(y);
        assert(trim_start_len(x) == k + trim_start_len(y));
        assert(y.skip(trim_start_len(y)) =~= x.skip(trim_start_len(x)));
    } else {
        assert(x.skip(0) =~= x);
    }
}

/// Safe bytes stay safe when trailing white space is dropped.
proof fn lemma_trim_end_safe(x: Seq<u8>)
    requires
        safe_bytes(x),
    ensures
        safe_bytes(x.take(x.len() - trim_end_len(x))),
    decreases x.len(),
{
    let k = ws_len_back(x);
    let n = x.len() as int;
    if k > 0 && k <= n {
        assert(!is_continuation_byte(x[n - k]));
        lemma_take_safe(x, n - k);
        let y = x.take(n - k);
        lemma_trim_end_safe(y);
        lemma_trim_lens(y);
        assert(trim_end_len(x) == k + trim_end_len(y));
        assert(y.take(y.len() - trim_end_len(y)) =~= x.take(x.len() - trim_end_len(x)));
    } else {
        assert(x.take(n) =~= x);
    }
}

proof fn lemma_trim_safe(x: Seq<u8>)
    requires
        safe_bytes(x),
    ensures
        safe_bytes(trim_spec(x)),
{
    lemma_trim_start_safe(x);
    let t = x.skip(trim_start_len(x));
    lemma_trim_end_safe(t);
}

/// Safe bytes stay safe as an attribute's text.
proof fn lemma_attr_text_safe(x: Seq<u8>)
    requires
        safe_bytes(x),
    ensures
        safe_bytes(attr_text(x)),
{
    lemma_trim_safe(x);
    let t = trim_spec(x);
    if t.len() >= 2 && ((t[0] == 0x22 && t.last() == 0x22) || (t[0] == 0x27 && t.last() == 0x27)) {
        lemma_skip_ascii_safe(t, 1);
        let y = t.skip(1);
        assert(y[y.len() - 1] == t.last());
        lemma_take_safe(y, y.len() - 1);
        assert(y.take(y.len() - 1) =~= t.subrange(1, t.len() - 1));
        lemma_trim_safe(t.subrange(1, t.len() - 1));
    } else {
        lemma_trim_safe(t);
    }
}

/// The label a link shows for its own address holds no dangerous character
/// when the address was read from safe bytes.
proof fn lemma_display_safe(b: Seq<u8>, email: bool)
    requires
        safe_bytes(b),
    ensures
        resolve_link_spec(b, email) matches Some(u) ==> chars_safe(link_display(u, email)),
{
    lemma_attr_text_safe(b);
    let t = attr_text(b);
    let m = mailto_scheme();
    if email {
        if let Some(u) = sanitize_email_spec(b) {
            if t.len() >= 7 && t.take(7) == m {
                assert(u =~= t);
                assert forall|i: int| 0 <= i < 7 implies #[trigger] t[i] < 0x80 by {
                    assert(t[i] == t.take(7)[i]);
                }
                lemma_skip_ascii_safe(t, 7);
                assert(u.take(7) =~= m);
                assert(u.skip(7) =~= t.skip(7));
            } else {
                assert(u == m + t);
                assert(u.take(7) =~= m);
                assert(u.skip(7) =~= t);
            }
        }
    }
}

/// Every address a link resolves to has an allowed scheme.
proof fn lemma_resolve_allowed(b: Seq<u8>, email: bool)
    ensures
        resolve_link_spec(b, email) matches Some(u) ==> scheme_allowed(u, link_schemes()),
{
    if email {
        if let Some(u) = sanitize_email_spec(b) {
            let m = mailto_scheme();
            assert(u.take(7) =~= m) by {
                let t = attr_text(b);
                if t.len() >= 7 && t.take(7) == m {
                    assert(u == m + t.skip(7));
                } else {
                    assert(u == m + t);
                }
            }
            assert forall|i: int| 0 <= i < m.len() implies crate::text::ascii_lower(#[trigger] u[i]) == m[i] by {
                assert(u[i] == u.take(7)[i]);
            }
            assert(starts_with_lower(u, link_schemes()[2]));
        }
    }
}

proof fn lemma_nodes_safe(ns: Seq<Node>, k: nat, style: Style, st: Emit)
    requires
        st_safe(st),
    ensures
        st_safe(emit_nodes_spec(ns, k, style, st)),
    decreases ns, k,
{
    if k > 0 && k <= ns.len() {
        lemma_nodes_safe(ns, (k - 1) as nat, style, st);
        lemma_node_safe(ns[k - 1], style, emit_nodes_spec(ns, (k - 1) as nat, style, st));
    }
}

proof fn lemma_node_safe(n: Node, style: Style, st: Emit)
    requires
        st_safe(st),
    ensures
        st_safe(emit_node_spec(n, style, st)),
    decreases n, 0nat,
{
    match n {
        Node::Text(s) => {
            lemma_decode_is_safe(s@);
            lemma_with_inline_safe(st, SpecInline::Text(decode_spec(s@), style));
        },
        Node::Element(e) => lemma_element_safe(e, style, st),
    }
}

proof fn lemma_passthrough_safe(e: Element, style: Style, st: Emit)
    requires
        st_safe(st),
    ensures
        st_safe(passthrough_spec(e, style, st)),
    decreases e, 1nat,
{
    let st1 = with_inline(st, SpecInline::Text(strip_dangerous_spec(e.raw_open@), style));
    lemma_strip_is_safe(e.raw_open@);
    lemma_with_inline_safe(st, SpecInline::Text(strip_dangerous_spec(e.raw_open@), style));
    lemma_nodes_safe(e.children@, e.children@.len(), style, st1);
}

proof fn lemma_build_safe(ns: Seq<Node>, style: Style)
    ensures
        bs_safe(build_spec(ns, style)),
    decreases ns, ns.len() + 1,
{
    let st0 = Emit { blocks: Seq::empty(), inline: Seq::empty() };
    lemma_nodes_safe(ns, ns.len(), style, st0);
    lemma_flush_safe(emit_nodes_spec(ns, ns.len(), style, st0));
}

proof fn lemma_items_safe(ns: Seq<Node>, k: nat, style: Style)
    ensures
        items_safe(list_items_spec(ns, k, style), list_items_spec(ns, k, style).len()),
    decreases ns, k,
{
    if k > 0 && k <= ns.len() {
        lemma_items_safe(ns, (k - 1) as nat, style);
        let rest = list_items_spec(ns, (k - 1) as nat, style);
        match ns[k - 1] {
            Node::Element(item) => if is_item(ns[k - 1]) {
                lemma_build_safe(item.children@, style);
                lemma_items_safe_push(rest, build_spec(item.children@, style));
            },
            Node::Text(_) => {},
        }
    }
}

proof fn lemma_collect_inlines_safe(ns: Seq<Node>, k: nat, style: Style, out: Seq<SpecInline>)
    requires
        is_safe(out),
    ensures
        is_safe(collect_inlines_spec(ns, k, style, out)),
    decreases ns, k,
{
    if k > 0 && k <= ns.len() {
        lemma_collect_inlines_safe(ns, (k - 1) as nat, style, out);
        lemma_collect_inline_safe(ns[k - 1], style, collect_inlines_spec(ns, (k - 1) as nat, style, out));
    }
}

proof fn lemma_collect_inline_safe(n: Node, style: Style, out: Seq<SpecInline>)
    requires
        is_safe(out),
    ensures
        is_safe(collect_inline_spec(n, style, out)),
    decreases n, 0nat,
{
    match n {
        Node::Text(s) => {
            lemma_decode_is_safe(s@);
            lemma_is_safe_push(out, SpecInline::Text(decode_spec(s@), style));
        },
        Node::Element(e) => {
            let st = Emit { blocks: Seq::empty(), inline: out };
            assert(bs_safe(st.blocks));
            lemma_element_safe(e, style, st);
        },
    }
}

proof fn lemma_url_safe(e: Element, style: Style, out: Seq<SpecInline>, email: bool)
    requires
        is_safe(out),
    ensures
        is_safe(emit_url_spec(e, style, out, email)),
    decreases e, 1nat,
{
    match link_target(e, email) {
        None => {
            lemma_strip_is_safe(e.raw_open@);
            lemma_is_safe_push(out, SpecInline::Text(strip_dangerous_spec(e.raw_open@), style));
            lemma_collect_inlines_safe(e.children@, e.children@.len(), style, out.push(SpecInline::Text(strip_dangerous_spec(e.raw_open@), style)));
        },
        Some(u) => {
            let from_attr = match e.attr {
                Some(a) => resolve_link_spec(decoded_bytes(a), email),
                None => None,
            };
            match e.attr {
                Some(a) => {
                    lemma_resolve_allowed(decoded_bytes(a), email);
                    lemma_decoded_bytes_safe(a);
                    lemma_display_safe(decoded_bytes(a), email);
                },
                None => {},
            }
            if from_attr is None && e.children@.len() == 1 {
                match e.children@[0] {
                    Node::Text(t) => {
                        lemma_resolve_allowed(decoded_bytes(t), email);
                        lemma_decoded_bytes_safe(t);
                        lemma_display_safe(decoded_bytes(t), email);
                    },
                    _ => {},
                }
            }
            assert(scheme_allowed(u, link_schemes()));
            let label = if label_is_url(e, email) {
                seq![SpecInline::Text(link_display(u, email), style)]
            } else {
                collect_inlines_spec(e.children@, e.children@.len(), style, Seq::empty())
            };
            if label_is_url(e, email) {
                lemma_is_safe_push(Seq::empty(), SpecInline::Text(link_display(u, email), style));
                assert(seq![SpecInline::Text(link_display(u, email), style)] =~= Seq::<SpecInline>::empty().push(
                    SpecInline::Text(link_display(u, email), style),
                ));
            } else {
                lemma_collect_inlines_safe(e.children@, e.children@.len(), style, Seq::empty());
            }
            lemma_is_safe_push(out, SpecInline::Link(label, u));
        },
    }
}

proof fn lemma_element_safe(e: Element, style: Style, st: Emit)
    requires
        st_safe(st),
    ensures
        st_safe(emit_element_spec(e, style, st)),
    decreases e, 2nat,
{
    let ns = e.children@;
    match tag_kind(e.tag.spec_bytes()) {
        TagKind::Bold => lemma_nodes_safe(ns, ns.len(), Style { bold: true, ..style }, st),
        TagKind::Italic => lemma_nodes_safe(ns, ns.len(), Style { italic: true, ..style }, st),
        TagKind::Underline => lemma_nodes_safe(ns, ns.len(), Style { underline: true, ..style }, st),
        TagKind::Strike => lemma_nodes_safe(ns, ns.len(), Style { strike: true, ..style }, st),
        TagKind::Color => lemma_nodes_safe(ns, ns.len(), color_style(e, style), st),
        TagKind::Size => lemma_nodes_safe(ns, ns.len(), size_style(e, style), st),
        TagKind::Font => lemma_nodes_safe(ns, ns.len(), style, st),
        TagKind::Url => lemma_url_safe(e, style, st.inline, false),
        TagKind::Email => lemma_url_safe(e, style, st.inline, true),
        TagKind::Img => {
            lemma_strip_is_safe(e.raw_open@);
            lemma_with_inline_safe(st, image_inline(e));
        },
        TagKind::Youtube => {
            lemma_strip_is_safe(e.raw_open@);
            lemma_with_inline_safe(st, youtube_inline(e));
        },
        TagKind::List => {
            lemma_items_safe(ns, ns.len(), style);
            lemma_with_block_safe(st, SpecBlock::List(list_ordered(e, false), list_items_spec(ns, ns.len(), style)));
        },
        TagKind::Ol => {
            lemma_items_safe(ns, ns.len(), style);
            lemma_with_block_safe(st, SpecBlock::List(list_ordered(e, true), list_items_spec(ns, ns.len(), style)));
        },
        TagKind::Indent => {
            lemma_build_safe(ns, style);
            lemma_with_block_safe(st, SpecBlock::Indent(build_spec(ns, style)));
        },
        TagKind::Code => {
            lemma_decode_is_safe(flatten_nodes(ns, ns.len()));
            lemma_with_block_safe(st, SpecBlock::Code(collect_text_spec(ns)));
        },
        TagKind::Spoiler => {
            lemma_build_safe(ns, style);
            lemma_with_block_safe(st, SpecBlock::Hidden(HiddenKind::Spoiler, build_spec(ns, style)));
        },
        TagKind::Blur => {
            lemma_build_safe(ns, style);
            lemma_with_block_safe(st, SpecBlock::Hidden(HiddenKind::Blur, build_spec(ns, style)));
        },
        TagKind::Quote => {
            lemma_build_safe(ns, style);
            lemma_with_block_safe(st, SpecBlock::Quote(build_spec(ns, style)));
        },
        TagKind::Center => {
            lemma_build_safe(ns, style);
            lemma_with_block_safe(st, SpecBlock::Align(HAlign::Center, build_spec(ns, style)));
        },
        TagKind::Left => {
            lemma_build_safe(ns, style);
            lemma_with_block_safe(st, SpecBlock::Align(HAlign::Left, build_spec(ns, style)));
        },
        TagKind::Right => {
            lemma_build_safe(ns, style);
            lemma_with_block_safe(st, SpecBlock::Align(HAlign::Right, build_spec(ns, style)));
        },
        _ => lemma_passthrough_safe(e, style, st),
    }
}

proof fn lemma_one_byte_case(x: u8, y: u8)
    ensures
        eq_ignore_case(seq![x], seq![y]) == (crate::text::ascii_lower(x) == crate::text::ascii_lower(y)),
{
    if crate::text::ascii_lower(x) == crate::text::ascii_lower(y) {
        assert forall|i: int| 0 <= i < 1 implies crate::text::ascii_lower(#[trigger] seq![x][i]) == crate::text::ascii_lower(seq![y][i]) by {
            assert(seq![x][i] == x && seq![y][i] == y);
        }
    } else {
        assert(seq![x][0] == x && seq![y][0] == y);
    }
}

/// A lone text node renders as one text piece in the given style.
proof fn lemma_lone_text(kids: Seq<Node>, t: &str, s2: Style)
    requires
        kids == seq![Node::Text(t)],
    ensures
        emit_nodes_spec(kids, kids.len(), s2, Emit { blocks: Seq::empty(), inline: Seq::empty() }) == (Emit {
            blocks: Seq::empty(),
            inline: seq![SpecInline::Text(decode_spec(t@), s2)],
        }),
{
    let st0 = Emit { blocks: Seq::empty(), inline: Seq::empty() };
    assert(kids.len() == 1);
    assert(emit_nodes_spec(kids, 0, s2, st0) == st0);
    assert(kids[0] == Node::Text(t));
    assert(emit_nodes_spec(kids, 1, s2, st0) == emit_node_spec(kids[0], s2, st0));
    let w = with_inline(st0, SpecInline::Text(decode_spec(t@), s2));
    assert(emit_node_spec(kids[0], s2, st0) == w);
    assert(w.inline =~= seq![SpecInline::Text(decode_spec(t@), s2)]);
    assert(w.blocks =~= Seq::<SpecBlock>::empty());
}

/// What a one-letter tag does, by its letter in either case.
proof fn lemma_letter_kind(x: u8)
    ensures
        crate::text::ascii_lower(x) == 0x62 ==> tag_kind(seq![x]) == TagKind::Bold,
        crate::text::ascii_lower(x) == 0x69 ==> tag_kind(seq![x]) == TagKind::Italic,
        crate::text::ascii_lower(x) == 0x75 ==> tag_kind(seq![x]) == TagKind::Underline,
        crate::text::ascii_lower(x) == 0x73 ==> tag_kind(seq![x]) == TagKind::Strike,
{
    lemma_one_byte_case(x, 0x62);
    lemma_one_byte_case(x, 0x69);
    lemma_one_byte_case(x, 0x75);
    lemma_one_byte_case(x, 0x73);
}

/// A one-letter tag in either case: its byte is `lower` or `lower - 32`.
pub open spec fn is_letter_tag(tag: Seq<u8>, lower: u8) -> bool {
    tag == seq![lower] || tag == seq![(lower - 32) as u8]
}

/// Text in a `[b]`, `[i]`, `[u]` or `[s]` element (in either case) renders
/// as one paragraph holding the decoded text in the surrounding style with
/// bold, italic, underline or strike-through set, every other style
/// setting kept.
pub proof fn lemma_styled_text(e: Element, t: &str, style: Style)
    requires
        e.children@ == seq![Node::Text(t)],
    ensures
        is_letter_tag(e.tag.spec_bytes(), 0x62) ==> build_spec(seq![Node::Element(e)], style) == seq![
            SpecBlock::Para(seq![SpecInline::Text(decode_spec(t@), Style { bold: true, ..style })]),
        ],
        is_letter_tag(e.tag.spec_bytes(), 0x69) ==> build_spec(seq![Node::Element(e)], style) == seq![
            SpecBlock::Para(seq![SpecInline::Text(decode_spec(t@), Style { italic: true, ..style })]),
        ],
        is_letter_tag(e.tag.spec_bytes(), 0x75) ==> build_spec(seq![Node::Element(e)], style) == seq![
            SpecBlock::Para(seq![SpecInline::Text(decode_spec(t@), Style { underline: true, ..style })]),
        ],
        is_letter_tag(e.tag.spec_bytes(), 0x73) ==> build_spec(seq![Node::Element(e)], style) == seq![
            SpecBlock::Para(seq![SpecInline::Text(decode_spec(t@), Style { strike: true, ..style })]),
        ],
{
    let tag = e.tag.spec_bytes();
    let ns = seq![Node::Element(e)];
    let st0 = Emit { blocks: Seq::empty(), inline: Seq::empty() };
    let kids = e.children@;
    assert(emit_nodes_spec(ns, 0, style, st0) == st0);
    assert(ns[0] == Node::Element(e));
    assert(ns.len() == 1);
    assert(emit_nodes_spec(ns, 1, style, st0) == emit_node_spec(ns[0], style, emit_nodes_spec(ns, 0, style, st0)));
    assert(emit_node_spec(Node::Element(e), style, st0) == emit_element_spec(e, style, st0));
    if tag.len() == 1 {
        let x = tag[0];
        assert(tag =~= seq![x]);
        lemma_letter_kind(x);
        let lx = crate::text::ascii_lower(x);
        if lx == 0x62 || lx == 0x69 || lx == 0x75 || lx == 0x73 {
            let s2 = if lx == 0x62 {
                Style { bold: true, ..style }
            } else if lx == 0x69 {
                Style { italic: true, ..style }
            } else if lx == 0x75 {
                Style { underline: true, ..style }
            } else {
                Style { strike: true, ..style }
            };
            lemma_lone_text(kids, t, s2);
            assert(emit_element_spec(e, style, st0) == emit_nodes_spec(kids, kids.len(), s2, st0));
            let done = emit_nodes_spec(kids, kids.len(), s2, st0);
            assert(flush_spec(done).blocks =~= seq![SpecBlock::Para(seq![SpecInline::Text(decode_spec(t@), s2)])]);
        }
    }
}

/// Whatever the markup, at any depth of the rendered blocks: every link
/// goes to an `http://`, `https://` or `mailto:` address; every image loads
/// from an `http://` or `https://` address; every video id is 1 to 32
/// letters, digits, `_` and `-`; and no text piece or code block holds a
/// control or bidirectional formatting character.
pub proof fn lemma_build_blocks_safe(ns: Seq<Node>, style: Style)
    ensures
        bs_safe(build_spec(ns, style)),
{
    lemma_build_safe(ns, style);
}

} // verus!
