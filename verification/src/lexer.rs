//! BBCode tokenizer.

use vstd::prelude::*;
use vstd::string::*;
use vstd::utf8::*;
use crate::text::{boundary, byte_slice, lemma_after_ascii, lemma_ascii_boundary, lemma_str_valid};

verus! {

/// Model of a token: every piece is the byte sequence it covers in the input.
pub enum SpecToken {
    Text(Seq<u8>),
    Open { tag: Seq<u8>, attr: Option<Seq<u8>>, raw: Seq<u8> },
    Close { tag: Seq<u8>, raw: Seq<u8> },
    Star { raw: Seq<u8> },
}

#[derive(Debug, Clone, Copy, PartialEq, Eq)]
pub enum Token<'a> {
    Text(&'a str),
    Open { tag: &'a str, attr: Option<&'a str>, raw: &'a str },
    Close { tag: &'a str, raw: &'a str },
    Star { raw: &'a str },
}

impl<'a> Token<'a> {
    pub open spec fn spec_view(self) -> SpecToken {
        match self {
            Token::Text(s) => SpecToken::Text(s.spec_bytes()),
            Token::Open { tag, attr, raw } => SpecToken::Open {
                tag: tag.spec_bytes(),
                attr: match attr {
                    Some(a) => Some(a.spec_bytes()),
                    None => None,
                },
                raw: raw.spec_bytes(),
            },
            Token::Close { tag, raw } => SpecToken::Close { tag: tag.spec_bytes(), raw: raw.spec_bytes() },
            Token::Star { raw } => SpecToken::Star { raw: raw.spec_bytes() },
        }
    }
}

pub open spec fn tokens_view(ts: Seq<Token>) -> Seq<SpecToken> {
    ts.map_values(|t: Token| t.spec_view())
}

/// The source text a token stands for.
pub open spec fn token_raw(t: SpecToken) -> Seq<u8> {
    match t {
        SpecToken::Text(s) => s,
        SpecToken::Open { raw, .. } => raw,
        SpecToken::Close { raw, .. } => raw,
        SpecToken::Star { raw } => raw,
    }
}

/// The concatenated source text of a token sequence.
pub open spec fn tokens_raw(ts: Seq<SpecToken>) -> Seq<u8>
    decreases ts.len(),
{
    if ts.len() == 0 {
        Seq::empty()
    } else {
        tokens_raw(ts.drop_last()) + token_raw(ts.last())
    }
}

pub open spec fn is_alpha(c: u8) -> bool {
    (0x41 <= c <= 0x5a) || (0x61 <= c <= 0x7a)
}

pub open spec fn is_digit(c: u8) -> bool {
    0x30 <= c <= 0x39
}

pub open spec fn is_alnum(c: u8) -> bool {
    is_alpha(c) || is_digit(c)
}

/// Bytes allowed after the first letter of a tag name.
pub open spec fn is_name_byte(c: u8) -> bool {
    is_alnum(c) || c == 0x5f || c == 0x2a
}

pub open spec fn is_newline(c: u8) -> bool {
    c == 0x0a || c == 0x0d
}

/// End of the run of name bytes starting at `p`.
pub open spec fn name_end(b: Seq<u8>, p: int) -> int
    decreases b.len() - p,
{
    if 0 <= p < b.len() && is_name_byte(b[p]) {
        name_end(b, p + 1)
    } else {
        p
    }
}

/// Where an attribute value starting at `p` stops: at the closing quote
/// (just after it) when quoted, else at the first `]`; `None` when a line
/// break comes first. Running out of input stops at the end.
pub open spec fn attr_end(b: Seq<u8>, p: int, quote: Option<u8>) -> Option<int>
    decreases b.len() - p,
{
    if p < 0 || p >= b.len() {
        Some(p)
    } else {
        match quote {
            Some(q) => if b[p] == q {
                Some(p + 1)
            } else if is_newline(b[p]) {
                None
            } else {
                attr_end(b, p + 1, quote)
            },
            None => if b[p] == 0x5d {
                Some(p)
            } else if is_newline(b[p]) {
                None
            } else {
                attr_end(b, p + 1, quote)
            },
        }
    }
}

/// The token that the `[` at `start` opens, and where it ends; `None` when
/// the bracket does not start a well-formed tag.
pub open spec fn scan_tag_spec(b: Seq<u8>, start: int) -> Option<(SpecToken, int)> {
    let len = b.len() as int;
    let p0 = start + 1;
    let closing = p0 < len && b[p0] == 0x2f;
    let p1 = if closing { p0 + 1 } else { p0 };
    if p1 < len && b[p1] == 0x2a && !closing {
        if p1 + 1 < len && b[p1 + 1] == 0x5d {
            Some((SpecToken::Star { raw: b.subrange(start, p1 + 2) }, p1 + 2))
        } else {
            None
        }
    } else if p1 >= len || !is_alpha(b[p1]) {
        None
    } else {
        let p2 = name_end(b, p1 + 1);
        let name = b.subrange(p1, p2);
        if closing {
            if p2 < len && b[p2] == 0x5d {
                Some((SpecToken::Close { tag: name, raw: b.subrange(start, p2 + 1) }, p2 + 1))
            } else {
                None
            }
        } else if p2 < len && b[p2] == 0x3d {
            let a0 = p2 + 1;
            let quoted = a0 < len && (b[a0] == 0x22 || b[a0] == 0x27);
            let q = if quoted { Some(b[a0]) } else { None };
            let s = if quoted { a0 + 1 } else { a0 };
            match attr_end(b, s, q) {
                None => None,
                Some(p3) => if p3 < len && b[p3] == 0x5d {
                    Some((SpecToken::Open { tag: name, attr: Some(b.subrange(a0, p3)), raw: b.subrange(start, p3 + 1) }, p3 + 1))
                } else {
                    None
                },
            }
        } else if p2 < len && b[p2] == 0x5d {
            Some((SpecToken::Open { tag: name, attr: None, raw: b.subrange(start, p2 + 1) }, p2 + 1))
        } else {
            None
        }
    }
}

/// Tokens of `b` from position `i` on, where the pending text run started at `ts`.
pub open spec fn tokenize_from(b: Seq<u8>, ts: int, i: int) -> Seq<SpecToken>
    decreases b.len() - i,
{
    if i < 0 || i >= b.len() {
        if 0 <= ts < b.len() {
            seq![SpecToken::Text(b.subrange(ts, b.len() as int))]
        } else {
            Seq::empty()
        }
    } else if b[i] != 0x5b {
        tokenize_from(b, ts, i + 1)
    } else {
        match scan_tag_spec(b, i) {
            Some((tok, end)) => if end > i {
                pending_text(b, ts, i) + seq![tok] + tokenize_from(b, end, end)
            } else {
                Seq::empty()
            },
            None => tokenize_from(b, ts, i + 1),
        }
    }
}

/// The text token for the bytes `ts..i`, if that run is not empty.
pub open spec fn pending_text(b: Seq<u8>, ts: int, i: int) -> Seq<SpecToken> {
    if ts < i {
        seq![SpecToken::Text(b.subrange(ts, i))]
    } else {
        Seq::empty()
    }
}

/// The token sequence of an input: tags that scan cleanly become tag tokens,
/// everything between them becomes text.
pub open spec fn tokenize_spec(b: Seq<u8>) -> Seq<SpecToken> {
    tokenize_from(b, 0, 0)
}

proof fn lemma_name_end(b: Seq<u8>, p: int)
    requires
        0 <= p <= b.len(),
    ensures
        p <= name_end(b, p) <= b.len(),
        forall|k: int| p <= k < name_end(b, p) ==> is_name_byte(#[trigger] b[k]),
    decreases b.len() - p,
{
    if p < b.len() && is_name_byte(b[p]) {
        lemma_name_end(b, p + 1);
    }
}

proof fn lemma_attr_end(b: Seq<u8>, p: int, q: Option<u8>)
    requires
        0 <= p <= b.len(),
    ensures
        attr_end(b, p, q) matches Some(r) ==> p <= r <= b.len(),
    decreases b.len() - p,
{
    if p < b.len() {
        lemma_attr_end(b, p + 1, q);
    }
}

/// A byte that may follow the first letter of a tag name: an ASCII letter
/// of either case, a digit, `_` or `*`.
pub open spec fn tag_name_tail_byte(c: u8) -> bool {
    (0x41 <= c <= 0x5a) || (0x61 <= c <= 0x7a) || (0x30 <= c <= 0x39) || c == 0x5f || c == 0x2a
}

/// An ASCII letter of either case.
pub open spec fn ascii_letter(c: u8) -> bool {
    (0x41 <= c <= 0x5a) || (0x61 <= c <= 0x7a)
}

proof fn lemma_name_runs_to(b: Seq<u8>, p: int, end: int)
    requires
        0 <= p <= end < b.len(),
        forall|k: int| p <= k < end ==> tag_name_tail_byte(#[trigger] b[k]),
        b[end] == 0x5d,
    ensures
        name_end(b, p) == end,
    decreases end - p,
{
    if p < end {
        assert(tag_name_tail_byte(b[p]));
        lemma_name_runs_to(b, p + 1, end);
    }
}

/// Tag names are read whatever the case of their letters: `[name]`, where
/// the name is an ASCII letter followed by ASCII letters of either case,
/// digits, `_` or `*`, scans as an opening tag of exactly that name with no
/// attribute, covering the brackets; `[/name]` scans as the closing tag of
/// that name.
pub proof fn lemma_tag_names(b: Seq<u8>, start: int, first: int, end: int)
    requires
        0 <= start < first < end < b.len(),
        b[start] == 0x5b,
        first == start + 1 || (first == start + 2 && b[start + 1] == 0x2f),
        ascii_letter(b[first]),
        forall|k: int| first < k < end ==> tag_name_tail_byte(#[trigger] b[k]),
        b[end] == 0x5d,
    ensures
        first == start + 1 ==> scan_tag_spec(b, start) == Some(
            (SpecToken::Open { tag: b.subrange(first, end), attr: None, raw: b.subrange(start, end + 1) }, end + 1),
        ),
        first == start + 2 ==> scan_tag_spec(b, start) == Some(
            (SpecToken::Close { tag: b.subrange(first, end), raw: b.subrange(start, end + 1) }, end + 1),
        ),
{
    lemma_name_runs_to(b, first + 1, end);
}

proof fn lemma_attr_runs_to(b: Seq<u8>, p: int, close: int)
    requires
        0 <= p <= close < b.len(),
        forall|k: int| p <= k < close ==> (#[trigger] b[k]) != 0x5d && !is_newline(b[k]),
        b[close] == 0x5d,
    ensures
        attr_end(b, p, None) == Some(close),
    decreases close - p,
{
    if p < close {
        assert(b[p] != 0x5d && !is_newline(b[p]));
        lemma_attr_runs_to(b, p + 1, close);
    }
}

/// `[name=value]`, with a name as `lemma_tag_names` allows and an unquoted
/// value holding no `]` or line break, scans as an opening tag of that name
/// whose attribute is exactly the value.
pub proof fn lemma_tag_attribute(b: Seq<u8>, start: int, eq: int, close: int)
    requires
        0 <= start && start + 1 < eq < close < b.len(),
        b[start] == 0x5b,
        ascii_letter(b[start + 1]),
        forall|k: int| start + 1 < k < eq ==> tag_name_tail_byte(#[trigger] b[k]),
        b[eq] == 0x3d,
        eq + 1 < close ==> b[eq + 1] != 0x22 && b[eq + 1] != 0x27,
        forall|k: int| eq < k < close ==> (#[trigger] b[k]) != 0x5d && !is_newline(b[k]),
        b[close] == 0x5d,
    ensures
        scan_tag_spec(b, start) == Some(
            (
                SpecToken::Open { tag: b.subrange(start + 1, eq), attr: Some(b.subrange(eq + 1, close)), raw: b.subrange(start, close + 1) },
                close + 1,
            ),
        ),
{
    assert forall|k: int| start + 2 <= k < eq implies tag_name_tail_byte(#[trigger] b[k]) by {}
    lemma_name_runs_to_eq(b, start + 2, eq);
    lemma_attr_runs_to(b, eq + 1, close);
}

proof fn lemma_name_runs_to_eq(b: Seq<u8>, p: int, end: int)
    requires
        0 <= p <= end < b.len(),
        forall|k: int| p <= k < end ==> tag_name_tail_byte(#[trigger] b[k]),
        b[end] == 0x3d,
    ensures
        name_end(b, p) == end,
    decreases end - p,
{
    if p < end {
        assert(tag_name_tail_byte(b[p]));
        lemma_name_runs_to_eq(b, p + 1, end);
    }
}

/// A scanned tag covers exactly the bytes from its `[` to its end.
pub proof fn lemma_scan_tag(b: Seq<u8>, start: int)
    requires
        valid_utf8(b),
        0 <= start < b.len(),
        b[start] == 0x5b,
    ensures
        scan_tag_spec(b, start) matches Some((tok, end)) ==> {
            &&& start + 2 <= end <= b.len()
            &&& boundary(b, end)
            &&& token_raw(tok) == b.subrange(start, end)
        },
{
    let len = b.len() as int;
    let p0 = start + 1;
    let closing = p0 < len && b[p0] == 0x2f;
    let p1 = if closing { p0 + 1 } else { p0 };
    if p1 < len && b[p1] == 0x2a && !closing {
        if p1 + 1 < len && b[p1 + 1] == 0x5d {
            lemma_after_ascii(b, p1 + 1);
        }
    } else if p1 >= len || !is_alpha(b[p1]) {
    } else {
        lemma_name_end(b, p1 + 1);
        let p2 = name_end(b, p1 + 1);
        if p2 < len && (b[p2] == 0x5d || b[p2] == 0x3d) {
            lemma_after_ascii(b, p2);
        }
        if !closing && p2 < len && b[p2] == 0x3d {
            let a0 = p2 + 1;
            let quoted = a0 < len && (b[a0] == 0x22 || b[a0] == 0x27);
            let q = if quoted { Some(b[a0]) } else { None };
            let s = if quoted { a0 + 1 } else { a0 };
            lemma_attr_end(b, s, q);
            if let Some(p3) = attr_end(b, s, q) {
                if p3 < len && b[p3] == 0x5d {
                    lemma_after_ascii(b, p3);
                }
            }
        }
    }
}

proof fn lemma_tokens_raw_concat(a: Seq<SpecToken>, c: Seq<SpecToken>)
    ensures
        tokens_raw(a + c) == tokens_raw(a) + tokens_raw(c),
    decreases c.len(),
{
    if c.len() == 0 {
        assert(a + c =~= a);
        assert(tokens_raw(a) + tokens_raw(c) =~= tokens_raw(a));
    } else {
        lemma_tokens_raw_concat(a, c.drop_last());
        assert((a + c).drop_last() =~= a + c.drop_last());
        assert((a + c).last() == c.last());
        assert(tokens_raw(a + c) =~= tokens_raw(a) + tokens_raw(c));
    }
}

proof fn lemma_tokens_raw_single(t: SpecToken)
    ensures
        tokens_raw(seq![t]) == token_raw(t),
{
    let s = seq![t];
    assert(s.drop_last() =~= Seq::<SpecToken>::empty());
    assert(tokens_raw(Seq::<SpecToken>::empty()) == Seq::<u8>::empty());
    assert(tokens_raw(s) == tokens_raw(s.drop_last()) + token_raw(s.last()));
    assert(Seq::<u8>::empty() + token_raw(t) =~= token_raw(t));
}

proof fn lemma_tokenize_from_raw(b: Seq<u8>, ts: int, i: int)
    requires
        valid_utf8(b),
        0 <= ts <= i <= b.len(),
    ensures
        tokens_raw(tokenize_from(b, ts, i)) == b.subrange(ts, b.len() as int),
    decreases b.len() - i,
{
    if i >= b.len() {
        if ts < b.len() {
            let t = SpecToken::Text(b.subrange(ts, b.len() as int));
            lemma_tokens_raw_single(t);
        } else {
            assert(b.subrange(ts, b.len() as int) =~= Seq::<u8>::empty());
        }
    } else if b[i] != 0x5b {
        lemma_tokenize_from_raw(b, ts, i + 1);
    } else {
        lemma_scan_tag(b, i);
        match scan_tag_spec(b, i) {
            Some((tok, end)) => {
                lemma_tokenize_from_raw(b, end, end);
                let pt = pending_text(b, ts, i);
                lemma_tokens_raw_concat(pt + seq![tok], tokenize_from(b, end, end));
                lemma_tokens_raw_concat(pt, seq![tok]);
                lemma_tokens_raw_single(tok);
                if ts < i {
                    let t = SpecToken::Text(b.subrange(ts, i));
                    lemma_tokens_raw_single(t);
                } else {
                    assert(tokens_raw(pt) =~= Seq::<u8>::empty());
                }
                assert(b.subrange(ts, b.len() as int) =~= tokens_raw(pt) + token_raw(tok) + b.subrange(end, b.len() as int));
            },
            None => {
                lemma_tokenize_from_raw(b, ts, i + 1);
            },
        }
    }
}

/// Tokenizing loses nothing: the tokens' source texts, concatenated in
/// order, give back the input.
pub proof fn lemma_tokenize_lossless(input: &str)
    ensures
        tokens_raw(tokenize_spec(input.spec_bytes())) == input.spec_bytes(),
{
    lemma_str_valid(input);
    lemma_tokenize_from_raw(input.spec_bytes(), 0, 0);
    assert(input.spec_bytes().subrange(0, input.spec_bytes().len() as int) =~= input.spec_bytes());
}

fn is_ascii_alpha(c: u8) -> (r: bool)
    ensures
        r == is_alpha(c),
{
    (0x41 <= c && c <= 0x5a) || (0x61 <= c && c <= 0x7a)
}

fn is_name_byte_exec(c: u8) -> (r: bool)
    ensures
        r == is_name_byte(c),
{
    is_ascii_alpha(c) || (0x30 <= c && c <= 0x39) || c == 0x5f || c == 0x2a
}

/// Scans the tag that the `[` at byte `start` of `input` opens.
fn scan_tag<'a>(input: &'a str, start: usize) -> (r: Option<(Token<'a>, usize)>)
    requires
        start < input.spec_bytes().len(),
        input.spec_bytes()[start as int] == 0x5b,
    ensures
        match r {
            Some((t, e)) => scan_tag_spec(input.spec_bytes(), start as int) == Some((t.spec_view(), e as int)),
            None => scan_tag_spec(input.spec_bytes(), start as int) is None,
        },
{
    let ghost b = input.spec_bytes();
    let bytes = input.as_bytes();
    let len = bytes.len();
    proof {
        lemma_str_valid(input);
        lemma_ascii_boundary(b, start as int);
        lemma_after_ascii(b, start as int);
    }
    let mut p = start + 1;
    let mut closing = false;
    if p < len && bytes[p] == 0x2f {
        proof {
            lemma_after_ascii(b, p as int);
        }
        closing = true;
        p += 1;
    }
    if p < len && bytes[p] == 0x2a && !closing {
        if p + 1 < len && bytes[p + 1] == 0x5d {
            let end = p + 2;
            proof {
                lemma_after_ascii(b, p + 1);
            }
            let raw = byte_slice(input, start, end);
            return Some((Token::Star { raw }, end));
        }
        return None;
    }
    let name_start = p;
    if p >= len || !is_ascii_alpha(bytes[p]) {
        return None;
    }
    proof {
        lemma_after_ascii(b, p as int);
    }
    p += 1;
    while p < len && is_name_byte_exec(bytes[p])
        invariant
            b == input.spec_bytes(),
            bytes@ == b,
            len == b.len(),
            valid_utf8(b),
            name_start + 1 <= p <= len,
            name_end(b, name_start + 1) == name_end(b, p as int),
            boundary(b, p as int),
        decreases len - p,
    {
        proof {
            lemma_after_ascii(b, p as int);
        }
        p += 1;
    }
    assert(name_end(b, p as int) == p);
    let name = byte_slice(input, name_start, p);
    if closing {
        if p < len && bytes[p] == 0x5d {
            let end = p + 1;
            proof {
                lemma_after_ascii(b, p as int);
            }
            let raw = byte_slice(input, start, end);
            return Some((Token::Close { tag: name, raw }, end));
        }
        return None;
    }
    let mut attr: Option<&str> = None;
    if p < len && bytes[p] == 0x3d {
        proof {
            lemma_after_ascii(b, p as int);
        }
        p += 1;
        let attr_start = p;
        let mut quoted = false;
        let mut q: u8 = 0;
        if p < len && (bytes[p] == 0x22 || bytes[p] == 0x27) {
            quoted = true;
            q = bytes[p];
            proof {
                lemma_after_ascii(b, p as int);
            }
            p += 1;
        }
        let ghost qo: Option<u8> = if quoted { Some(q) } else { None };
        let ghost s0 = p as int;
        assert(attr_end(b, s0, qo) is None ==> scan_tag_spec(b, start as int) is None);
        loop
            invariant_except_break
                b == input.spec_bytes(),
                bytes@ == b,
                len == b.len(),
                valid_utf8(b),
                s0 <= p <= len,
                attr_end(b, s0, qo) is None ==> scan_tag_spec(b, start as int) is None,
                attr_end(b, s0, qo) == attr_end(b, p as int, qo),
                qo == (if quoted { Some(q) } else { None::<u8> }),
                quoted ==> q < 0x80,
            ensures
                s0 <= p <= len,
                attr_end(b, s0, qo) == Some(p as int),
                boundary(b, p as int),
            decreases len - p,
        {
            if p >= len {
                break;
            }
            let c = bytes[p];
            if quoted {
                if c == q {
                    proof {
                        lemma_after_ascii(b, p as int);
                    }
                    p += 1;
                    break;
                }
                if c == 0x0a || c == 0x0d {
                    return None;
                }
                p += 1;
            } else {
                if c == 0x5d {
                    proof {
                        lemma_ascii_boundary(b, p as int);
                    }
                    break;
                }
                if c == 0x0a || c == 0x0d {
                    return None;
                }
                p += 1;
            }
        }
        attr = Some(byte_slice(input, attr_start, p));
    }
    if p >= len || bytes[p] != 0x5d {
        return None;
    }
    let end = p + 1;
    proof {
        lemma_after_ascii(b, p as int);
    }
    let raw = byte_slice(input, start, end);
    Some((Token::Open { tag: name, attr, raw }, end))
}

/// Splits `input` into text runs and well-formed tags. Brackets that do not
/// start a well-formed tag stay in the surrounding text.
pub fn tokenize(input: &str) -> (out: Vec<Token<'_>>)
    ensures
        tokens_view(out@) == tokenize_spec(input.spec_bytes()),
{
    let ghost b = input.spec_bytes();
    let bytes = input.as_bytes();
    let len = bytes.len();
    let mut out: Vec<Token<'_>> = Vec::new();
    let mut text_start: usize = 0;
    let mut i: usize = 0;
    proof {
        lemma_str_valid(input);
        assert(tokens_view(out@) =~= Seq::<SpecToken>::empty());
    }
    while i < len
        invariant
            b == input.spec_bytes(),
            bytes@ == b,
            len == b.len(),
            valid_utf8(b),
            0 <= text_start <= i <= len,
            boundary(b, text_start as int),
            tokens_view(out@) + tokenize_from(b, text_start as int, i as int) == tokenize_spec(b),
        decreases len - i,
    {
        if bytes[i] != 0x5b {
            i += 1;
            continue;
        }
        proof {
            lemma_scan_tag(b, i as int);
        }
        match scan_tag(input, i) {
            Some((tok, end)) => {
                let ghost before = tokens_view(out@);
                if text_start < i {
                    proof {
                        lemma_ascii_boundary(b, i as int);
                    }
                    let t = byte_slice(input, text_start, i);
                    out.push(Token::Text(t));
                }
                out.push(tok);
                proof {
                    assert(tokens_view(out@) =~= before + pending_text(b, text_start as int, i as int) + seq![tok.spec_view()]);
                }
                i = end;
                text_start = end;
            },
            None => {
                i += 1;
            },
        }
    }
    if text_start < len {
        let ghost before = tokens_view(out@);
        let t = byte_slice(input, text_start, len);
        out.push(Token::Text(t));
        proof {
            assert(tokens_view(out@) =~= before + tokenize_from(b, text_start as int, i as int));
        }
    } else {
        proof {
            assert(tokens_view(out@) =~= tokens_view(out@) + tokenize_from(b, text_start as int, i as int));
        }
    }
    out
}

} // verus!
