//! Decoding of HTML numeric and named entities in text, with control and
//! bidirectional formatting characters stripped.

use std::borrow::Cow;
use vstd::prelude::*;
use vstd::string::*;
use vstd::utf8::*;
use crate::text::{push_char, str_chars};

verus! {

/// Characters removed from decoded text: C0 controls other than tab, line
/// feed and carriage return; DEL; C1 controls; bidirectional embedding,
/// override and isolate controls; the byte order mark; tag characters.
pub open spec fn is_dangerous_spec(c: char) -> bool {
    let n = c as u32;
    ||| (n < 0x20 && c != '\t' && c != '\n' && c != '\r')
    ||| n == 0x7f
    ||| (0x80 <= n <= 0x9f)
    ||| (0x202a <= n <= 0x202e)
    ||| (0x2066 <= n <= 0x2069)
    ||| n == 0xfeff
    ||| (0xe0000 <= n <= 0xe007f)
}

/// Whether decoding can change the text at all.
pub open spec fn needs_decode_spec(cs: Seq<char>) -> bool {
    exists|i: int| 0 <= i < cs.len() && (cs[i] == '&' || is_dangerous_spec(#[trigger] cs[i]))
}

/// Value of a digit character in the given radix (10 or 16), if it is one.
pub open spec fn digit_value(c: char, radix: u32) -> Option<u32> {
    let n = c as u32;
    if 0x30 <= n <= 0x39 && n - 0x30 < radix {
        Some((n - 0x30) as u32)
    } else if radix == 16 && 0x61 <= n <= 0x66 {
        Some((n - 0x61 + 10) as u32)
    } else if radix == 16 && 0x41 <= n <= 0x46 {
        Some((n - 0x41 + 10) as u32)
    } else {
        None
    }
}

/// The number written by the digits `ds`, if every one of them is a digit.
pub open spec fn digits_value(ds: Seq<char>, radix: u32) -> Option<int>
    decreases ds.len(),
{
    if ds.len() == 0 {
        Some(0)
    } else {
        match (digits_value(ds.drop_last(), radix), digit_value(ds.last(), radix)) {
            (Some(v), Some(d)) => Some(v * radix + d),
            _ => None,
        }
    }
}

/// `u32::from_str_radix`: an optional `+`, then at least one digit, with a
/// value that fits in `u32`.
pub open spec fn from_str_radix_spec(ds: Seq<char>, radix: u32) -> Option<u32> {
    let body = if ds.len() >= 1 && ds[0] == '+' { ds.drop_first() } else { ds };
    if body.len() == 0 {
        None
    } else {
        match digits_value(body, radix) {
            Some(v) => if v <= u32::MAX { Some(v as u32) } else { None },
            None => None,
        }
    }
}

/// The first `;` at or after `start` and before `lim`.
pub open spec fn first_semi(cs: Seq<char>, start: int, lim: int) -> Option<int>
    decreases lim - start,
{
    if start >= lim || start < 0 || start >= cs.len() {
        None
    } else if cs[start] == ';' {
        Some(start)
    } else {
        first_semi(cs, start + 1, lim)
    }
}

/// `d` is `c`, or `c` is an upper-case ASCII letter and `d` its lower case.
pub open spec fn same_ignoring_case(c: char, d: char) -> bool {
    d == c || ('A' <= c <= 'Z' && d as u32 == c as u32 + 32)
}

/// Digits are read whatever the case of their letters: a letter and its
/// lower case have the same value as a digit, and each of `0`-`9`, `a`-`f`
/// and `A`-`F` is a hexadecimal digit with a value below 16.
pub proof fn lemma_digit_case(c: char, d: char, radix: u32)
    requires
        same_ignoring_case(c, d),
        radix == 10 || radix == 16,
    ensures
        digit_value(c, radix) == digit_value(d, radix),
        ('0' <= c <= '9' || 'a' <= c <= 'f' || 'A' <= c <= 'F') ==> (digit_value(c, 16) matches Some(v) && v < 16),
        '0' <= c <= '9' ==> digit_value(c, radix) == Some((c as u32 - 0x30) as u32),
        'a' <= c <= 'f' ==> digit_value(c, 16) == Some((c as u32 - 0x61 + 10) as u32),
        'A' <= c <= 'F' ==> digit_value(c, 16) == Some((c as u32 - 0x41 + 10) as u32),
        !('0' <= c <= '9') ==> digit_value(c, 10) is None,
{
}

proof fn lemma_digits_case(cs: Seq<char>, ds: Seq<char>, radix: u32)
    requires
        cs.len() == ds.len(),
        forall|i: int| 0 <= i < cs.len() ==> same_ignoring_case(#[trigger] cs[i], ds[i]),
        radix == 10 || radix == 16,
    ensures
        digits_value(cs, radix) == digits_value(ds, radix),
    decreases cs.len(),
{
    if cs.len() > 0 {
        lemma_digits_case(cs.drop_last(), ds.drop_last(), radix);
        assert(same_ignoring_case(cs[cs.len() - 1], ds[ds.len() - 1]));
        lemma_digit_case(cs.last(), ds.last(), radix);
    }
}

proof fn lemma_first_semi_case(cs: Seq<char>, ds: Seq<char>, start: int, lim: int)
    requires
        cs.len() == ds.len(),
        forall|i: int| 0 <= i < cs.len() ==> same_ignoring_case(#[trigger] cs[i], ds[i]),
    ensures
        first_semi(cs, start, lim) == first_semi(ds, start, lim),
    decreases lim - start,
{
    if !(start >= lim || start < 0 || start >= cs.len()) {
        assert(same_ignoring_case(cs[start], ds[start]));
        lemma_first_semi_case(cs, ds, start + 1, lim);
    }
}

/// A numeric character reference reads the same whatever the case of its
/// letters: `&#xe9;` and `&#xE9;` (or any mix) stand for the same character
/// and span the same length.
pub proof fn lemma_entity_case(cs: Seq<char>, ds: Seq<char>)
    requires
        cs.len() == ds.len(),
        cs.len() >= 3,
        cs[0] == '&' && cs[1] == '#',
        cs[0] == ds[0] && cs[1] == ds[1] && cs[2] == ds[2],
        forall|i: int| 0 <= i < cs.len() ==> same_ignoring_case(#[trigger] cs[i], ds[i]),
    ensures
        parse_entity_spec(cs) == parse_entity_spec(ds),
{
    let hex = cs[2] == 'x' || cs[2] == 'X';
    let radix: u32 = if hex { 16 } else { 10 };
    let start = if hex { 3int } else { 2int };
    let lim = if start + 8 < cs.len() { start + 8 } else { cs.len() as int };
    lemma_first_semi_case(cs, ds, start, lim);
    lemma_first_semi_bounds(cs, start, lim);
    match first_semi(cs, start, lim) {
        Some(end) => {
            if end > start {
                lemma_first_semi_bounds(cs, start, lim);
                let a = cs.subrange(start, end);
                let b = ds.subrange(start, end);
                assert forall|i: int| 0 <= i < a.len() implies same_ignoring_case(#[trigger] a[i], b[i]) by {
                    assert(a[i] == cs[start + i] && b[i] == ds[start + i]);
                }
                if a.len() >= 1 {
                    assert(same_ignoring_case(a[0], b[0]));
                }
                let ab = if a.len() >= 1 && a[0] == '+' { a.drop_first() } else { a };
                let bb = if b.len() >= 1 && b[0] == '+' { b.drop_first() } else { b };
                assert forall|i: int| 0 <= i < ab.len() implies same_ignoring_case(#[trigger] ab[i], bb[i]) by {
                    if a.len() >= 1 && a[0] == '+' {
                        assert(ab[i] == a[i + 1] && bb[i] == b[i + 1]);
                    }
                }
                lemma_digits_case(ab, bb, radix);
                assert((a.len() >= 1 && a[0] == '+') == (b.len() >= 1 && b[0] == '+'));
                assert(ab.len() == bb.len());
                assert(from_str_radix_spec(a, radix) == from_str_radix_spec(b, radix));
                assert(ds.subrange(start, end) == b);
                assert(first_semi(ds, start, lim) == Some(end));
                assert(parse_entity_spec(cs) == parse_entity_spec(ds));
            } else {
                assert(parse_entity_spec(cs) == parse_entity_spec(ds));
            }
        },
        None => {
            assert(parse_entity_spec(cs) == parse_entity_spec(ds));
        },
    }
}

/// A text that is one whole numeric character reference decodes to the
/// same text whatever the case of its letters: `&#xe9;` and `&#xE9;` both
/// decode to `é`.
pub proof fn lemma_decode_reference_case(cs: Seq<char>, ds: Seq<char>)
    requires
        cs.len() == ds.len(),
        cs.len() >= 3,
        cs[0] == '&' && cs[1] == '#',
        cs[0] == ds[0] && cs[1] == ds[1] && cs[2] == ds[2],
        forall|i: int| 0 <= i < cs.len() ==> same_ignoring_case(#[trigger] cs[i], ds[i]),
        parse_entity_spec(cs) matches Some((_, n)) && n == cs.len(),
    ensures
        decode_spec(cs) == decode_spec(ds),
        decode_spec(cs) == keep((parse_entity_spec(cs)->0).0),
{
    lemma_entity_case(cs, ds);
    assert(cs.skip(0) =~= cs);
    assert(ds.skip(0) =~= ds);
    let ch = (parse_entity_spec(cs)->0).0;
    assert(decode_from(cs, cs.len() as int) == Seq::<char>::empty());
    assert(decode_from(ds, ds.len() as int) == Seq::<char>::empty());
    assert(keep(ch) + Seq::<char>::empty() =~= keep(ch));
}

proof fn lemma_first_semi_bounds(cs: Seq<char>, start: int, lim: int)
    ensures
        first_semi(cs, start, lim) matches Some(e) ==> start <= e < lim && 0 <= e < cs.len(),
    decreases lim - start,
{
    if !(start >= lim || start < 0 || start >= cs.len()) && cs[start] != ';' {
        lemma_first_semi_bounds(cs, start + 1, lim);
    }
}

pub open spec fn named_entities() -> Seq<(Seq<char>, char)> {
    seq![
        (seq!['a', 'm', 'p', ';'], '&'),
        (seq!['l', 't', ';'], '<'),
        (seq!['g', 't', ';'], '>'),
        (seq!['q', 'u', 'o', 't', ';'], '"'),
        (seq!['a', 'p', 'o', 's', ';'], '\''),
        (seq!['n', 'b', 's', 'p', ';'], '\u{a0}'),
    ]
}

/// The first named entity (in table order) that `rest` starts with, from index `k`.
pub open spec fn named_from(rest: Seq<char>, k: int) -> Option<(char, int)>
    decreases named_entities().len() - k,
{
    if k < 0 || k >= named_entities().len() {
        None
    } else {
        let (name, ch) = named_entities()[k];
        if name.len() <= rest.len() && rest.subrange(0, name.len() as int) == name {
            Some((ch, 1 + name.len() as int))
        } else {
            named_from(rest, k + 1)
        }
    }
}

/// The character an entity at the start of `cs` (which starts with `&`)
/// stands for, and how many characters it spans.
pub open spec fn parse_entity_spec(cs: Seq<char>) -> Option<(char, int)> {
    if cs.len() >= 2 && cs[1] == '#' {
        let hex = cs.len() > 2 && (cs[2] == 'x' || cs[2] == 'X');
        let radix: u32 = if hex { 16 } else { 10 };
        let start = if hex { 3int } else { 2int };
        let lim = if start + 8 < cs.len() { start + 8 } else { cs.len() as int };
        match first_semi(cs, start, lim) {
            None => None,
            Some(end) => if end == start {
                None
            } else {
                match from_str_radix_spec(cs.subrange(start, end), radix) {
                    Some(n) => if is_scalar(n) { Some((n as char, end + 1)) } else { None },
                    None => None,
                }
            },
        }
    } else {
        named_from(cs.subrange(1, cs.len() as int), 0)
    }
}

pub open spec fn keep(c: char) -> Seq<char> {
    if is_dangerous_spec(c) {
        Seq::empty()
    } else {
        seq![c]
    }
}

/// Decoded form of `cs` from index `i` on.
pub open spec fn decode_from(cs: Seq<char>, i: int) -> Seq<char>
    decreases cs.len() - i,
{
    if i < 0 || i >= cs.len() {
        Seq::empty()
    } else {
        match entity_at(cs, i) {
            Some((ch, n)) => if n > 0 && i + n <= cs.len() {
                keep(ch) + decode_from(cs, i + n)
            } else {
                keep(cs[i]) + decode_from(cs, i + 1)
            },
            None => keep(cs[i]) + decode_from(cs, i + 1),
        }
    }
}

/// The entity at index `i`, when `cs[i]` is `&` and one parses there.
pub open spec fn entity_at(cs: Seq<char>, i: int) -> Option<(char, int)> {
    if 0 <= i < cs.len() && cs[i] == '&' {
        match parse_entity_spec(cs.skip(i)) {
            Some((ch, n)) => if n > 0 { Some((ch, n)) } else { None },
            None => None,
        }
    } else {
        None
    }
}

/// The decoded text: entities replaced by their characters, dangerous
/// characters dropped, everything else kept.
pub open spec fn decode_spec(cs: Seq<char>) -> Seq<char> {
    decode_from(cs, 0)
}

fn is_dangerous(c: char) -> (r: bool)
    ensures
        r == is_dangerous_spec(c),
{
    let n = c as u32;
    if n < 0x20 && c != '\t' && c != '\n' && c != '\r' {
        return true;
    }
    if n == 0x7f {
        return true;
    }
    if 0x80 <= n && n <= 0x9f {
        return true;
    }
    if 0x202a <= n && n <= 0x202e {
        return true;
    }
    if 0x2066 <= n && n <= 0x2069 {
        return true;
    }
    if n == 0xfeff {
        return true;
    }
    if 0xe0000 <= n && n <= 0xe007f {
        return true;
    }
    false
}

fn needs_decode(cs: &Vec<char>) -> (r: bool)
    ensures
        r == needs_decode_spec(cs@),
{
    let mut i: usize = 0;
    while i < cs.len()
        invariant
            i <= cs.len(),
            forall|j: int| 0 <= j < i ==> !(cs@[j] == '&' || is_dangerous_spec(#[trigger] cs@[j])),
        decreases cs.len() - i,
    {
        if cs[i] == '&' || is_dangerous(cs[i]) {
            return true;
        }
        i += 1;
    }
    false
}

/// `char::from_u32`.
#[verifier::external_body]
pub(crate) fn char_from_u32(n: u32) -> (r: Option<char>)
    ensures
        r is Some <==> is_scalar(n),
        r matches Some(c) ==> c as u32 == n,
{
    char::from_u32(n)
}

fn digit_of(c: char, radix: u32) -> (r: Option<u32>)
    requires
        radix == 10 || radix == 16,
    ensures
        r == digit_value(c, radix),
{
    let n = c as u32;
    if 0x30 <= n && n <= 0x39 && n - 0x30 < radix {
        Some(n - 0x30)
    } else if radix == 16 && 0x61 <= n && n <= 0x66 {
        Some(n - 0x61 + 10)
    } else if radix == 16 && 0x41 <= n && n <= 0x46 {
        Some(n - 0x41 + 10)
    } else {
        None
    }
}

pub open spec fn pow16(k: nat) -> int
    decreases k,
{
    if k == 0 {
        1
    } else {
        16 * pow16((k - 1) as nat)
    }
}

proof fn lemma_digits_step(ds: Seq<char>, k: int, radix: u32)
    requires
        0 <= k < ds.len(),
    ensures
        digits_value(ds.take(k + 1), radix) == match (digits_value(ds.take(k), radix), digit_value(ds[k], radix)) {
            (Some(v), Some(d)) => Some(v * radix + d),
            _ => None::<int>,
        },
{
    assert(ds.take(k + 1).drop_last() =~= ds.take(k));
}

proof fn lemma_digit_bound(c: char, radix: u32)
    requires
        radix == 10 || radix == 16,
    ensures
        digit_value(c, radix) matches Some(d) ==> d < radix,
{
}

/// `u32::from_str_radix` on the characters `start..end` of `cs`.
fn from_str_radix(cs: &Vec<char>, start: usize, end: usize, radix: u32) -> (r: Option<u32>)
    requires
        start <= end <= cs@.len(),
        end - start <= 8,
        radix == 10 || radix == 16,
    ensures
        r == from_str_radix_spec(cs@.subrange(start as int, end as int), radix),
{
    let ghost ds = cs@.subrange(start as int, end as int);
    let mut p = start;
    if p < end && cs[p] == '+' {
        p += 1;
    }
    let ghost body = if ds.len() >= 1 && ds[0] == '+' { ds.drop_first() } else { ds };
    assert(body =~= cs@.subrange(p as int, end as int));
    if p == end {
        return None;
    }
    let mut v: u64 = 0;
    let mut k: usize = p;
    assert(body.take(0) =~= Seq::<char>::empty());
    while k < end
        invariant
            start <= p <= k <= end,
            end <= cs@.len(),
            ds == cs@.subrange(start as int, end as int),
            body == (if ds.len() >= 1 && ds[0] == '+' { ds.drop_first() } else { ds }),
            body.len() > 0,
            end - p <= 8,
            body =~= cs@.subrange(p as int, end as int),
            radix == 10 || radix == 16,
            digits_value(body.take(k - p), radix) == Some(v as int),
            v < pow16((k - p) as nat),
        decreases end - k,
    {
        let d = digit_of(cs[k], radix);
        proof {
            lemma_digits_step(body, (k - p) as int, radix);
            assert(body[k - p] == cs@[k as int]);
            lemma_digit_bound(cs@[k as int], radix);
        }
        match d {
            None => {
                proof {
                    lemma_digits_none(body, (k - p + 1) as int, body.len() as int, radix);
                    assert(body.take(body.len() as int) =~= body);
                }
                return None;
            },
            Some(d) => {
                proof {
                    assert(pow16((k - p + 1) as nat) == 16 * pow16((k - p) as nat));
                    lemma_pow16_bound((k - p) as nat);
                    assert(v * radix + d < pow16((k - p + 1) as nat)) by (nonlinear_arith)
                        requires
                            v < pow16((k - p) as nat),
                            d < radix,
                            radix <= 16,
                            pow16((k - p + 1) as nat) == 16 * pow16((k - p) as nat),
                    ;
                }
                v = v * (radix as u64) + (d as u64);
            },
        }
        k += 1;
    }
    proof {
        assert(body.take(body.len() as int) =~= body);
    }
    if v <= 0xffff_ffff {
        Some(v as u32)
    } else {
        None
    }
}

proof fn lemma_pow16_bound(k: nat)
    requires
        k <= 8,
    ensures
        pow16(k) <= 0x1_0000_0000,
        pow16(k) >= 1,
    decreases k,
{
    if k > 0 {
        lemma_pow16_bound((k - 1) as nat);
        assert(pow16((k - 1) as nat) <= 0x1000_0000) by {
            if k - 1 <= 7 {
                lemma_pow16_bound7((k - 1) as nat);
            }
        }
    }
}

proof fn lemma_pow16_bound7(k: nat)
    requires
        k <= 7,
    ensures
        pow16(k) <= 0x1000_0000,
    decreases k,
{
    if k > 0 {
        lemma_pow16_bound7((k - 1) as nat);
        assert(pow16((k - 1) as nat) <= 0x100_0000) by {
            lemma_pow16_bound6((k - 1) as nat);
        }
    }
}

proof fn lemma_pow16_bound6(k: nat)
    requires
        k <= 6,
    ensures
        pow16(k) <= 0x100_0000,
    decreases k,
{
    if k > 0 {
        assert(pow16((k - 1) as nat) <= 0x10_0000) by {
            lemma_pow16_small((k - 1) as nat);
        }
    }
}

proof fn lemma_pow16_small(k: nat)
    requires
        k <= 5,
    ensures
        pow16(k) <= 0x10_0000,
{
    reveal_with_fuel(pow16, 6);
}

/// Once a non-digit appears, no longer prefix has a value either.
proof fn lemma_digits_none(ds: Seq<char>, k: int, n: int, radix: u32)
    requires
        1 <= k <= n <= ds.len(),
        digit_value(ds[k - 1], radix) is None,
    ensures
        digits_value(ds.take(n), radix) is None,
    decreases n - k,
{
    if n == k {
        assert(ds.take(n).drop_last() =~= ds.take(n - 1));
    } else {
        lemma_digits_none(ds, k, n - 1, radix);
        assert(ds.take(n).drop_last() =~= ds.take(n - 1));
    }
}

/// Whether `cs` has `name` at position `pos`.
fn has_at(cs: &Vec<char>, pos: usize, name: &[char]) -> (r: bool)
    ensures
        r == (pos + name@.len() <= cs@.len() && cs@.subrange(pos as int, pos + name@.len()) == name@),
{
    if pos > cs.len() || name.len() > cs.len() - pos {
        return false;
    }
    let mut k: usize = 0;
    let cl = cs.len();
    while k < name.len()
        invariant
            cl == cs@.len(),
            pos + name@.len() <= cs@.len(),
            k <= name@.len(),
            pos + k <= cs@.len(),
            forall|j: int| 0 <= j < k ==> cs@[pos + j] == name@[j],
        decreases name.len() - k,
    {
        if cs[pos + k] != name[k] {
            proof {
                assert(cs@.subrange(pos as int, pos + name@.len())[k as int] != name@[k as int]);
            }
            return false;
        }
        k += 1;
    }
    proof {
        assert(cs@.subrange(pos as int, pos + name@.len()) =~= name@);
    }
    true
}

/// The entity that starts at the `&` at index `i` of `cs`.
fn parse_entity(cs: &Vec<char>, i: usize) -> (r: Option<(char, usize)>)
    requires
        i < cs@.len(),
    ensures
        match r {
            Some((c, n)) => parse_entity_spec(cs@.skip(i as int)) == Some((c, n as int)),
            None => parse_entity_spec(cs@.skip(i as int)) is None,
        },
{
    let ghost t = cs@.skip(i as int);
    let len = cs.len();
    proof {
        if i + 1 < len {
            assert(t[1] == cs@[i + 1]);
        }
        if i + 2 < len {
            assert(t[2] == cs@[i + 2]);
        }
    }
    if i + 1 < len && cs[i + 1] == '#' {
        let hex = i + 2 < len && (cs[i + 2] == 'x' || cs[i + 2] == 'X');
        let radix: u32 = if hex { 16 } else { 10 };
        let start: usize = if hex { i + 3 } else { i + 2 };
        let lim: usize = if len - start > 8 { start + 8 } else { len };
        proof {
            assert(t.len() == len - i);
            assert(t[1] == '#');
            assert((t.len() > 2 && (t[2] == 'x' || t[2] == 'X')) == hex);
            let st = if hex { 3int } else { 2int };
            assert(st == start - i);
            assert((if st + 8 < t.len() { st + 8 } else { t.len() as int }) == lim - i);
        }
        let mut end = start;
        while end < lim
            invariant
                i < start <= end <= lim,
                lim <= len,
                len == cs@.len(),
                t == cs@.skip(i as int),
                first_semi(t, (start - i) as int, (lim - i) as int) == first_semi(t, (end - i) as int, (lim - i) as int),
            ensures
                i < start <= end,
                end <= lim,
                end < lim ==> cs@[end as int] == ';',
                first_semi(t, (start - i) as int, (lim - i) as int) == first_semi(t, (end - i) as int, (lim - i) as int),
            decreases lim - end,
        {
            proof {
                assert(t[end - i] == cs@[end as int]);
            }
            if cs[end] == ';' {
                break;
            }
            end += 1;
        }
        proof {
            if end < lim {
                assert(t[end - i] == cs@[end as int]);
                assert(first_semi(t, (end - i) as int, (lim - i) as int) == Some((end - i) as int));
            }
        }
        if end >= lim {
            return None;
        }
        if end == start {
            return None;
        }
        proof {
            assert(cs@.subrange(start as int, end as int) =~= t.subrange(start - i, end - i));
        }
        let n = match from_str_radix(cs, start, end, radix) {
            Some(n) => n,
            None => return None,
        };
        match char_from_u32(n) {
            Some(c) => {
                proof {
                    vstd::utf8::char_u32_cast(c, n);
                }
                return Some((c, end + 1 - i));
            },
            None => return None,
        }
    }
    proof {
        assert(cs@.skip(i + 1) =~= t.subrange(1, t.len() as int));
    }
    let amp: [char; 4] = ['a', 'm', 'p', ';'];
    let lt: [char; 3] = ['l', 't', ';'];
    let gt: [char; 3] = ['g', 't', ';'];
    let quot: [char; 5] = ['q', 'u', 'o', 't', ';'];
    let apos: [char; 5] = ['a', 'p', 'o', 's', ';'];
    let nbsp: [char; 5] = ['n', 'b', 's', 'p', ';'];
    proof {
        lemma_named_at(cs@, i as int);
        assert(amp@ =~= named_entities()[0].0);
        assert(lt@ =~= named_entities()[1].0);
        assert(gt@ =~= named_entities()[2].0);
        assert(quot@ =~= named_entities()[3].0);
        assert(apos@ =~= named_entities()[4].0);
        assert(nbsp@ =~= named_entities()[5].0);
    }
    if has_at(cs, i + 1, amp.as_slice()) {
        return Some(('&', 5));
    }
    if has_at(cs, i + 1, lt.as_slice()) {
        return Some(('<', 4));
    }
    if has_at(cs, i + 1, gt.as_slice()) {
        return Some(('>', 4));
    }
    if has_at(cs, i + 1, quot.as_slice()) {
        return Some(('"', 6));
    }
    if has_at(cs, i + 1, apos.as_slice()) {
        return Some(('\'', 6));
    }
    if has_at(cs, i + 1, nbsp.as_slice()) {
        return Some(('\u{a0}', 6));
    }
    None
}

/// The named-entity lookup for the text after the `&` at `i`, entry by entry.
proof fn lemma_named_at(cs: Seq<char>, i: int)
    requires
        0 <= i < cs.len(),
    ensures
        ({
            let rest = cs.skip(i).subrange(1, cs.len() - i);
            let at = |k: int| i + 1 + named_entities()[k].0.len() <= cs.len() && cs.subrange(i + 1, i + 1 + named_entities()[k].0.len()) == named_entities()[k].0;
            named_from(rest, 0) == if at(0) {
                Some(('&', 5int))
            } else if at(1) {
                Some(('<', 4int))
            } else if at(2) {
                Some(('>', 4int))
            } else if at(3) {
                Some(('"', 6int))
            } else if at(4) {
                Some(('\'', 6int))
            } else if at(5) {
                Some(('\u{a0}', 6int))
            } else {
                None
            }
        }),
{
    let rest = cs.skip(i).subrange(1, cs.len() - i);
    assert forall|l: int| 0 <= l <= rest.len() implies #[trigger] rest.subrange(0, l) =~= cs.subrange(i + 1, i + 1 + l) by {}
    reveal_with_fuel(named_from, 7);
}


proof fn lemma_first_semi_range(cs: Seq<char>, start: int, lim: int)
    ensures
        first_semi(cs, start, lim) matches Some(e) ==> start <= e < lim && e < cs.len() && cs[e] == ';',
    decreases lim - start,
{
    if !(start >= lim || start < 0 || start >= cs.len()) && cs[start] != ';' {
        lemma_first_semi_range(cs, start + 1, lim);
    }
}

proof fn lemma_named_from_range(rest: Seq<char>, k: int)
    ensures
        named_from(rest, k) matches Some((c, n)) ==> 2 <= n <= rest.len() + 1,
    decreases named_entities().len() - k,
{
    if 0 <= k < named_entities().len() {
        lemma_named_from_range(rest, k + 1);
    }
}

/// An entity spans at least its `&` and never runs past the text.
proof fn lemma_entity_len(cs: Seq<char>)
    requires
        cs.len() >= 1,
    ensures
        parse_entity_spec(cs) matches Some((c, n)) ==> 1 <= n <= cs.len(),
{
    if cs.len() >= 2 && cs[1] == '#' {
        let hex = cs.len() > 2 && (cs[2] == 'x' || cs[2] == 'X');
        let start = if hex { 3int } else { 2int };
        let lim = if start + 8 < cs.len() { start + 8 } else { cs.len() as int };
        lemma_first_semi_range(cs, start, lim);
    } else {
        lemma_named_from_range(cs.subrange(1, cs.len() as int), 0);
    }
}

/// Text with no `&` and no dangerous character decodes to itself.
proof fn lemma_decode_identity(cs: Seq<char>, i: int)
    requires
        0 <= i <= cs.len(),
        !needs_decode_spec(cs),
    ensures
        decode_from(cs, i) == cs.skip(i),
    decreases cs.len() - i,
{
    if i < cs.len() {
        assert(!(cs[i] == '&' || is_dangerous_spec(cs[i])));
        lemma_decode_identity(cs, i + 1);
        assert(cs.skip(i) =~= seq![cs[i]] + cs.skip(i + 1));
    } else {
        assert(cs.skip(i) =~= Seq::<char>::empty());
    }
}

/// Decoding never produces a control, bidirectional-formatting or tag
/// character, whatever the input and whatever its entities spell.
pub proof fn lemma_decode_is_safe(cs: Seq<char>)
    ensures
        forall|k: int| 0 <= k < decode_spec(cs).len() ==> !is_dangerous_spec(#[trigger] decode_spec(cs)[k]),
{
    lemma_decode_from_safe(cs, 0);
}

proof fn lemma_decode_from_safe(cs: Seq<char>, i: int)
    ensures
        forall|k: int| 0 <= k < decode_from(cs, i).len() ==> !is_dangerous_spec(#[trigger] decode_from(cs, i)[k]),
    decreases cs.len() - i,
{
    if 0 <= i < cs.len() {
        let (c, next) = match entity_at(cs, i) {
            Some((ch, n)) => if n > 0 && i + n <= cs.len() {
                (ch, i + n)
            } else {
                (cs[i], i + 1)
            },
            None => (cs[i], i + 1),
        };
        lemma_decode_from_safe(cs, next);
        let rest = decode_from(cs, next);
        assert(decode_from(cs, i) == keep(c) + rest);
        assert forall|k: int| 0 <= k < decode_from(cs, i).len() implies !is_dangerous_spec(#[trigger] decode_from(cs, i)[k]) by {
            if k >= keep(c).len() {
                assert(decode_from(cs, i)[k] == rest[k - keep(c).len()]);
            }
        }
    }
}

/// Decodes HTML numeric (`&#65;`, `&#x41;`) and named (`&amp;`, `&lt;`,
/// `&gt;`, `&quot;`, `&apos;`, `&nbsp;`) entities and drops control and
/// bidirectional formatting characters. Text with nothing to change is
/// handed back borrowed.
pub fn decode(s: &str) -> (r: Cow<'_, str>)
    ensures
        r@ == decode_spec(s@),
        (r is Borrowed) <==> !needs_decode_spec(s@),
        !needs_decode_spec(s@) ==> r@ == s@,
{
    let cs = str_chars(s);
    if !needs_decode(&cs) {
        proof {
            lemma_decode_identity(s@, 0);
            assert(s@.skip(0) =~= s@);
        }
        return Cow::Borrowed(s);
    }
    let mut out = String::new();
    let mut i: usize = 0;
    proof {
        assert(out@ + decode_from(cs@, 0) =~= decode_from(cs@, 0));
    }
    while i < cs.len()
        invariant
            cs@ == s@,
            i <= cs@.len(),
            decode_spec(cs@) == out@ + decode_from(cs@, i as int),
        decreases cs.len() - i,
    {
        if cs[i] == '&' {
            match parse_entity(&cs, i) {
                Some((ch, n)) => {
                    proof {
                        lemma_entity_len(cs@.skip(i as int));
                        assert(entity_at(cs@, i as int) == Some((ch, n as int)));
                        assert(out@ + decode_from(cs@, i as int) =~= out@ + keep(ch) + decode_from(cs@, i + n));
                    }
                    if !is_dangerous(ch) {
                        push_char(&mut out, ch);
                    } else {
                        assert(out@ + keep(ch) =~= out@);
                    }
                    i += n;
                    continue;
                },
                None => {},
            }
        }
        let ch = cs[i];
        proof {
            assert(entity_at(cs@, i as int) is None);
            assert(out@ + decode_from(cs@, i as int) =~= out@ + keep(ch) + decode_from(cs@, i + 1));
        }
        if !is_dangerous(ch) {
            push_char(&mut out, ch);
        } else {
            assert(out@ + keep(ch) =~= out@);
        }
        i += 1;
    }
    proof {
        assert(out@ + decode_from(cs@, i as int) =~= out@);
    }
    Cow::Owned(out)
}

/// `cs` with its dangerous characters removed, all others kept in order.
pub open spec fn strip_dangerous_spec(cs: Seq<char>) -> Seq<char>
    decreases cs.len(),
{
    if cs.len() == 0 {
        Seq::empty()
    } else {
        let r = strip_dangerous_spec(cs.drop_last());
        if is_dangerous_spec(cs.last()) {
            r
        } else {
            r.push(cs.last())
        }
    }
}

/// No dangerous character is left after stripping.
pub proof fn lemma_strip_is_safe(cs: Seq<char>)
    ensures
        forall|k: int| 0 <= k < strip_dangerous_spec(cs).len() ==> !is_dangerous_spec(#[trigger] strip_dangerous_spec(cs)[k]),
    decreases cs.len(),
{
    if cs.len() > 0 {
        let r = strip_dangerous_spec(cs.drop_last());
        lemma_strip_is_safe(cs.drop_last());
        assert forall|k: int| 0 <= k < strip_dangerous_spec(cs).len() implies !is_dangerous_spec(#[trigger] strip_dangerous_spec(cs)[k]) by {
            if k < r.len() {
                assert(strip_dangerous_spec(cs)[k] == r[k]);
            }
        }
    }
}

/// Stripping a text without dangerous characters leaves it as it is.
proof fn lemma_strip_identity(cs: Seq<char>)
    requires
        forall|k: int| 0 <= k < cs.len() ==> !is_dangerous_spec(#[trigger] cs[k]),
    ensures
        strip_dangerous_spec(cs) == cs,
    decreases cs.len(),
{
    if cs.len() > 0 {
        lemma_strip_identity(cs.drop_last());
        assert(cs.drop_last().push(cs.last()) =~= cs);
    }
}

/// `s` with control and bidirectional formatting characters removed; `s`
/// itself when it has none.
pub fn strip_dangerous(s: &str) -> (r: Cow<'_, str>)
    ensures
        r@ == strip_dangerous_spec(s@),
{
    let cs = str_chars(s);
    let mut out = String::new();
    let mut found = false;
    let mut i: usize = 0;
    while i < cs.len()
        invariant
            cs@ == s@,
            i <= cs@.len(),
            out@ == strip_dangerous_spec(cs@.take(i as int)),
            !found ==> forall|k: int| 0 <= k < i ==> !is_dangerous_spec(#[trigger] cs@[k]),
        decreases cs.len() - i,
    {
        let c = cs[i];
        proof {
            assert(cs@.take(i + 1).drop_last() =~= cs@.take(i as int));
        }
        if is_dangerous(c) {
            found = true;
        } else {
            push_char(&mut out, c);
        }
        i += 1;
    }
    proof {
        assert(cs@.take(i as int) =~= cs@);
    }
    if !found {
        proof {
            lemma_strip_identity(s@);
        }
        Cow::Borrowed(s)
    } else {
        Cow::Owned(out)
    }
}

} // verus!
