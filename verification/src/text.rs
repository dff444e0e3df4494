//! Byte-level string helpers shared by the BBCode modules.

use vstd::prelude::*;
use vstd::utf8::*;
use vstd::string::*;

verus! {

broadcast use vstd::utf8::encode_utf8_valid_utf8;

/// A byte position that starts a character of `b` (or is its end).
pub open spec fn boundary(b: Seq<u8>, i: int) -> bool {
    i == 0 || i == b.len() || (0 < i < b.len() && !is_continuation_byte(b[i]))
}

/// An ASCII byte is never in the middle of a character.
pub proof fn lemma_ascii_boundary(b: Seq<u8>, i: int)
    requires
        0 <= i < b.len(),
        b[i] < 0x80,
    ensures
        boundary(b, i),
{
}

proof fn lemma_boundary_char_boundary(b: Seq<u8>, i: int)
    requires
        valid_utf8(b),
        boundary(b, i),
    ensures
        is_char_boundary(b, i),
{
    is_char_boundary_start_end_of_seq(b);
    if 0 < i < b.len() {
        is_char_boundary_iff_not_is_continuation_byte(b, i);
    }
}

/// The position right after an ASCII byte starts a character.
pub proof fn lemma_after_ascii(b: Seq<u8>, i: int)
    requires
        valid_utf8(b),
        0 <= i < b.len(),
        b[i] < 0x80,
    ensures
        boundary(b, i + 1),
{
    is_char_boundary_iff_not_is_continuation_byte(b, i);
    valid_utf8_split(b, i);
    let suf = b.subrange(i, b.len() as int);
    assert(valid_utf8(suf));
    assert(suf.len() != 0);
    assert(suf[0] == b[i]);
    let rest = pop_first_scalar(suf);
    assert(valid_utf8(rest));
    assert(rest =~= b.subrange(i + 1, b.len() as int));
    if i + 1 < b.len() {
        assert(rest.len() != 0);
        assert(valid_first_scalar(rest));
        assert(rest[0] == b[i + 1]);
    }
}

/// Past a complete character encoding that starts at a boundary lies
/// another boundary.
pub proof fn lemma_after_char(b: Seq<u8>, i: int, k: int)
    requires
        valid_utf8(b),
        boundary(b, i),
        0 <= i,
        i + k <= b.len(),
        (k == 1 && b[i] < 0x80) || (k == 2 && is_leading_byte_width_2(b[i])) || (k == 3
            && is_leading_byte_width_3(b[i])),
    ensures
        boundary(b, i + k),
{
    lemma_boundary_char_boundary(b, i);
    valid_utf8_split(b, i);
    let suf = b.subrange(i, b.len() as int);
    assert(valid_utf8(suf));
    assert(suf[0] == b[i]);
    assert(length_of_first_scalar(suf) == k);
    let rest = pop_first_scalar(suf);
    assert(rest =~= b.subrange(i + k, b.len() as int));
    assert(valid_utf8(rest));
    if i + k < b.len() {
        assert(rest.len() != 0);
        assert(valid_first_scalar(rest));
        assert(rest[0] == b[i + k]);
    }
}

/// A string has bytes exactly when it has characters.
pub proof fn lemma_nonempty_bytes(s: &str)
    ensures
        s@.len() == 0 <==> s.spec_bytes().len() == 0,
{
    if s@.len() > 0 {
        assert(encode_utf8(s@) == encode_scalar(s@[0] as u32) + encode_utf8(s@.drop_first()));
    }
}

/// The bytes of a string are well-formed UTF-8.
pub proof fn lemma_str_valid(s: &str)
    ensures
        valid_utf8(s.spec_bytes()),
{
}

/// The bytes `start..end` of `s`, as a string slice.
pub fn byte_slice<'a>(s: &'a str, start: usize, end: usize) -> (r: &'a str)
    requires
        start <= end <= s.spec_bytes().len(),
        boundary(s.spec_bytes(), start as int),
        boundary(s.spec_bytes(), end as int),
    ensures
        r.spec_bytes() == s.spec_bytes().subrange(start as int, end as int),
{
    let ghost b = s.spec_bytes();
    proof {
        lemma_boundary_char_boundary(b, end as int);
    }
    let (a, _) = s.split_at(end);
    proof {
        let ab = a.spec_bytes();
        assert(ab =~= b.subrange(0, end as int));
        assert(valid_utf8(ab));
        if 0 < start < end {
            assert(ab[start as int] == b[start as int]);
        }
        lemma_boundary_char_boundary(ab, start as int);
    }
    let (_, r) = a.split_at(start);
    proof {
        assert(r.spec_bytes() =~= b.subrange(start as int, end as int));
    }
    r
}

/// The characters of `s`.
pub fn str_chars(s: &str) -> (v: Vec<char>)
    ensures
        v@ == s@,
{
    broadcast use vstd::string::group_string_axioms;

    let mut v: Vec<char> = Vec::new();
    let mut it = s.chars();
    loop
        invariant_except_break
            v@ + vstd::std_specs::iter::IteratorSpec::remaining(&it) == s@,
            vstd::std_specs::iter::IteratorSpec::obeys_prophetic_iter_laws(&it),
            vstd::std_specs::iter::IteratorSpec::decrease(&it) is Some,
        ensures
            v@ == s@,
        decreases vstd::std_specs::iter::IteratorSpec::decrease(&it)->0,
    {
        let ghost before = vstd::std_specs::iter::IteratorSpec::remaining(&it);
        match it.next() {
            Some(c) => {
                proof {
                    assert(v@.push(c) + vstd::std_specs::iter::IteratorSpec::remaining(&it) =~= v@ + before);
                }
                v.push(c);
            },
            None => {
                proof {
                    assert(v@ =~= v@ + vstd::std_specs::iter::IteratorSpec::remaining(&it));
                }
                break;
            },
        }
    }
    v
}

/// Appends `c` to `s`.
#[verifier::external_body]
pub(crate) fn push_char(s: &mut String, c: char)
    ensures
        final(s)@ == old(s)@.push(c),
{
    s.push(c);
}

pub open spec fn strings_view(v: Seq<String>) -> Seq<Seq<char>> {
    v.map_values(|s: String| s@)
}

/// The pieces of `cs` between the separators `sep`, empty pieces
/// included, as `str::split` with a character yields them.
pub open spec fn char_pieces(cs: Seq<char>, sep: char) -> Seq<Seq<char>>
    decreases cs.len(),
{
    if cs.len() == 0 {
        seq![Seq::empty()]
    } else {
        let rest = char_pieces(cs.drop_last(), sep);
        if cs.last() == sep {
            rest.push(Seq::empty())
        } else {
            rest.update(rest.len() - 1, rest.last().push(cs.last()))
        }
    }
}

proof fn lemma_char_pieces_nonempty(cs: Seq<char>, sep: char)
    ensures
        char_pieces(cs, sep).len() >= 1,
    decreases cs.len(),
{
    if cs.len() > 0 {
        lemma_char_pieces_nonempty(cs.drop_last(), sep);
    }
}

/// Splits `s` at every `sep`.
pub fn split_char(s: &str, sep: char) -> (r: Vec<String>)
    ensures
        strings_view(r@) == char_pieces(s@, sep),
{
    let cs = str_chars(s);
    let mut pieces: Vec<String> = Vec::new();
    let mut cur = String::new();
    let mut i: usize = 0;
    proof {
        assert(cs@.take(0) =~= Seq::<char>::empty());
    }
    while i < cs.len()
        invariant
            i <= cs@.len(),
            strings_view(pieces@).push(cur@) == char_pieces(cs@.take(i as int), sep),
        decreases cs.len() - i,
    {
        let c = cs[i];
        proof {
            assert(cs@.take(i + 1).drop_last() =~= cs@.take(i as int));
            assert(cs@.take(i + 1).last() == c);
            lemma_char_pieces_nonempty(cs@.take(i as int), sep);
        }
        if c == sep {
            let done = cur;
            pieces.push(done);
            cur = String::new();
            proof {
                assert(strings_view(pieces@).push(cur@) =~= char_pieces(cs@.take(i + 1), sep));
            }
        } else {
            push_char(&mut cur, c);
            proof {
                assert(strings_view(pieces@).push(cur@) =~= char_pieces(cs@.take(i + 1), sep));
            }
        }
        i += 1;
    }
    proof {
        assert(cs@.take(i as int) =~= cs@);
    }
    pieces.push(cur);
    proof {
        assert(strings_view(pieces@) =~= char_pieces(s@, sep));
    }
    pieces
}

/// Appends `t` to `s`.
pub fn push_str(s: &mut String, t: &str)
    ensures
        final(s)@ == old(s)@ + t@,
{
    s.append(t);
}

pub open spec fn is_ascii_ws(c: u8) -> bool {
    c == 0x09 || c == 0x0a || c == 0x0b || c == 0x0c || c == 0x0d || c == 0x20
}

/// Byte length of the white-space character (Unicode `White_Space`) that
/// `b` starts with, or 0. Besides ASCII white space these are U+0085,
/// U+00A0, U+1680, U+2000..U+200A, U+2028, U+2029, U+202F, U+205F, U+3000.
pub open spec fn ws_len_front(b: Seq<u8>) -> int {
    if b.len() >= 1 && is_ascii_ws(b[0]) {
        1
    } else if b.len() >= 2 && b[0] == 0xc2 && (b[1] == 0x85 || b[1] == 0xa0) {
        2
    } else if b.len() >= 3 && is_ws3(b[0], b[1], b[2]) {
        3
    } else {
        0
    }
}

/// The three-byte encodings of white-space characters.
pub open spec fn is_ws3(x: u8, y: u8, z: u8) -> bool {
    ||| (x == 0xe1 && y == 0x9a && z == 0x80)
    ||| (x == 0xe2 && y == 0x80 && ((0x80 <= z <= 0x8a) || z == 0xa8 || z == 0xa9 || z == 0xaf))
    ||| (x == 0xe2 && y == 0x81 && z == 0x9f)
    ||| (x == 0xe3 && y == 0x80 && z == 0x80)
}

/// Byte length of the white-space character that `b` ends with, or 0.
pub open spec fn ws_len_back(b: Seq<u8>) -> int {
    let n = b.len() as int;
    if n >= 1 && is_ascii_ws(b[n - 1]) {
        1
    } else if n >= 2 && b[n - 2] == 0xc2 && (b[n - 1] == 0x85 || b[n - 1] == 0xa0) {
        2
    } else if n >= 3 && is_ws3(b[n - 3], b[n - 2], b[n - 1]) {
        3
    } else {
        0
    }
}

/// Number of leading bytes that are white space.
pub open spec fn trim_start_len(b: Seq<u8>) -> int
    decreases b.len(),
{
    let k = ws_len_front(b);
    if k > 0 && k <= b.len() {
        k + trim_start_len(b.skip(k))
    } else {
        0
    }
}

/// Number of trailing bytes that are white space.
pub open spec fn trim_end_len(b: Seq<u8>) -> int
    decreases b.len(),
{
    let k = ws_len_back(b);
    if k > 0 && k <= b.len() {
        k + trim_end_len(b.take(b.len() - k))
    } else {
        0
    }
}

/// `b` without leading and trailing white space.
pub open spec fn trim_spec(b: Seq<u8>) -> Seq<u8> {
    let t = b.skip(trim_start_len(b));
    t.take(t.len() - trim_end_len(t))
}

pub open spec fn ascii_lower(c: u8) -> u8 {
    if 0x41 <= c <= 0x5a {
        (c + 0x20) as u8
    } else {
        c
    }
}

/// Equality up to ASCII case.
pub open spec fn eq_ignore_case(a: Seq<u8>, b: Seq<u8>) -> bool {
    a.len() == b.len() && forall|i: int| 0 <= i < a.len() ==> ascii_lower(#[trigger] a[i]) == ascii_lower(b[i])
}

pub fn ascii_lower_byte(c: u8) -> (r: u8)
    ensures
        r == ascii_lower(c),
{
    if 0x41 <= c && c <= 0x5a {
        c + 0x20
    } else {
        c
    }
}

/// Compares two strings byte by byte, ignoring ASCII case.
pub fn eq_ignore_ascii_case(a: &str, b: &str) -> (r: bool)
    ensures
        r == eq_ignore_case(a.spec_bytes(), b.spec_bytes()),
{
    let x = a.as_bytes();
    let y = b.as_bytes();
    if x.len() != y.len() {
        return false;
    }
    let mut i: usize = 0;
    while i < x.len()
        invariant
            x@ == a.spec_bytes(),
            y@ == b.spec_bytes(),
            x.len() == y.len(),
            i <= x.len(),
            forall|j: int| 0 <= j < i ==> ascii_lower(#[trigger] x@[j]) == ascii_lower(y@[j]),
        decreases x.len() - i,
    {
        if ascii_lower_byte(x[i]) != ascii_lower_byte(y[i]) {
            return false;
        }
        i += 1;
    }
    true
}

/// Compares a string with a byte string, ignoring ASCII case.
pub fn eq_ignore_case_bytes(a: &str, y: &[u8]) -> (r: bool)
    ensures
        r == eq_ignore_case(a.spec_bytes(), y@),
{
    let x = a.as_bytes();
    if x.len() != y.len() {
        return false;
    }
    let mut i: usize = 0;
    while i < x.len()
        invariant
            x@ == a.spec_bytes(),
            x.len() == y.len(),
            i <= x.len(),
            forall|j: int| 0 <= j < i ==> ascii_lower(#[trigger] x@[j]) == ascii_lower(y@[j]),
        decreases x.len() - i,
    {
        if ascii_lower_byte(x[i]) != ascii_lower_byte(y[i]) {
            return false;
        }
        i += 1;
    }
    true
}

fn is_ascii_ws_exec(c: u8) -> (r: bool)
    ensures
        r == is_ascii_ws(c),
{
    c == 0x09 || c == 0x0a || c == 0x0b || c == 0x0c || c == 0x0d || c == 0x20
}

fn is_ws3_exec(x: u8, y: u8, z: u8) -> (r: bool)
    ensures
        r == is_ws3(x, y, z),
{
    (x == 0xe1 && y == 0x9a && z == 0x80) || (x == 0xe2 && y == 0x80 && ((0x80 <= z && z <= 0x8a)
        || z == 0xa8 || z == 0xa9 || z == 0xaf)) || (x == 0xe2 && y == 0x81 && z == 0x9f) || (x
        == 0xe3 && y == 0x80 && z == 0x80)
}

/// `ws_len_front` of the bytes `lo..hi`.
pub fn ws_front(b: &[u8], lo: usize, hi: usize) -> (k: usize)
    requires
        lo <= hi <= b@.len(),
    ensures
        k == ws_len_front(b@.subrange(lo as int, hi as int)),
{
    let ghost t = b@.subrange(lo as int, hi as int);
    let n = hi - lo;
    if n >= 1 && is_ascii_ws_exec(b[lo]) {
        1
    } else if n >= 2 && b[lo] == 0xc2 && (b[lo + 1] == 0x85 || b[lo + 1] == 0xa0) {
        2
    } else if n >= 3 && is_ws3_exec(b[lo], b[lo + 1], b[lo + 2]) {
        3
    } else {
        0
    }
}

/// `ws_len_back` of the bytes `lo..hi`.
fn ws_back(b: &[u8], lo: usize, hi: usize) -> (k: usize)
    requires
        lo <= hi <= b@.len(),
    ensures
        k == ws_len_back(b@.subrange(lo as int, hi as int)),
{
    let n = hi - lo;
    if n >= 1 && is_ascii_ws_exec(b[hi - 1]) {
        1
    } else if n >= 2 && b[hi - 2] == 0xc2 && (b[hi - 1] == 0x85 || b[hi - 1] == 0xa0) {
        2
    } else if n >= 3 && is_ws3_exec(b[hi - 3], b[hi - 2], b[hi - 1]) {
        3
    } else {
        0
    }
}

proof fn lemma_trim_start_step(b: Seq<u8>, lo: int, k: int)
    requires
        0 <= lo <= b.len(),
        k == ws_len_front(b.subrange(lo, b.len() as int)),
        0 < k,
    ensures
        trim_start_len(b.subrange(lo, b.len() as int)) == k + trim_start_len(
            b.subrange(lo + k, b.len() as int),
        ),
{
    assert(b.subrange(lo, b.len() as int).skip(k) =~= b.subrange(lo + k, b.len() as int));
}

/// Removes leading and trailing white space.
pub fn trim(s: &str) -> (r: &str)
    ensures
        r.spec_bytes() == trim_spec(s.spec_bytes()),
{
    let ghost b = s.spec_bytes();
    let bytes = s.as_bytes();
    let len = bytes.len();
    proof {
        lemma_str_valid(s);
    }
    let mut lo: usize = 0;
    assert(b.subrange(0, len as int) =~= b);
    loop
        invariant_except_break
            bytes@ == b,
            len == b.len(),
            valid_utf8(b),
            lo <= len,
            boundary(b, lo as int),
            trim_start_len(b) == lo + trim_start_len(b.subrange(lo as int, len as int)),
        ensures
            lo <= len,
            boundary(b, lo as int),
            trim_start_len(b) == lo,
        decreases len - lo,
    {
        let k = ws_front(bytes, lo, len);
        if k == 0 {
            break;
        }
        proof {
            lemma_trim_start_step(b, lo as int, k as int);
            assert(b.subrange(lo as int, len as int)[0] == b[lo as int]);
            if k == 2 {
                assert(b.subrange(lo as int, len as int)[1] == b[lo + 1]);
            }
            lemma_after_char(b, lo as int, k as int);
        }
        lo = lo + k;
    }
    let ghost t = b.skip(lo as int);
    let mut hi: usize = len;
    assert(t =~= b.subrange(lo as int, len as int));
    assert(t.take(t.len() as int) =~= t);
    loop
        invariant_except_break
            bytes@ == b,
            len == b.len(),
            valid_utf8(b),
            lo <= hi <= len,
            t =~= b.subrange(lo as int, len as int),
            boundary(b, lo as int),
            boundary(b, hi as int),
            trim_end_len(t) == (len - hi) + trim_end_len(b.subrange(lo as int, hi as int)),
        ensures
            lo <= hi <= len,
            boundary(b, hi as int),
            trim_end_len(t) == len - hi,
        decreases hi - lo,
    {
        let k = ws_back(bytes, lo, hi);
        if k == 0 {
            break;
        }
        proof {
            let u = b.subrange(lo as int, hi as int);
            assert(u.take(u.len() - k) =~= b.subrange(lo as int, hi - k));
            let j = hi - k;
            if j > 0 && j < len {
                assert(u[u.len() - k] == b[j]);
                assert(!is_continuation_byte(b[j]));
            }
        }
        hi = hi - k;
    }
    let r = byte_slice(s, lo, hi);
    proof {
        assert(r.spec_bytes() =~= t.take(t.len() - trim_end_len(t)));
    }
    r
}

/// Whether every byte of `ds` is an ASCII digit.
pub open spec fn all_digits(ds: Seq<u8>) -> bool {
    forall|i: int| 0 <= i < ds.len() ==> 0x30 <= #[trigger] ds[i] <= 0x39
}

/// The decimal number written by the digits `ds`.
pub open spec fn digits_val(ds: Seq<u8>) -> int
    decreases ds.len(),
{
    if ds.len() == 0 {
        0
    } else {
        digits_val(ds.drop_last()) * 10 + (ds.last() - 0x30)
    }
}

/// `i32::from_str`: an optional sign, then at least one digit, with a value
/// in range.
pub open spec fn parse_i32_spec(b: Seq<u8>) -> Option<i32> {
    let signed = b.len() > 0 && (b[0] == 0x2b || b[0] == 0x2d);
    let ds = if signed { b.drop_first() } else { b };
    let v = if b.len() > 0 && b[0] == 0x2d { -digits_val(ds) } else { digits_val(ds) };
    if ds.len() == 0 || !all_digits(ds) || v < i32::MIN || v > i32::MAX {
        None
    } else {
        Some(v as i32)
    }
}

proof fn lemma_digits_val_step(ds: Seq<u8>, k: int)
    requires
        0 <= k < ds.len(),
    ensures
        digits_val(ds.take(k + 1)) == digits_val(ds.take(k)) * 10 + (ds[k] - 0x30),
{
    assert(ds.take(k + 1).drop_last() =~= ds.take(k));
}

/// A longer run of digits is worth at least as much as its prefix.
proof fn lemma_digits_val_prefix(ds: Seq<u8>, k: int)
    requires
        0 <= k <= ds.len(),
        all_digits(ds),
    ensures
        digits_val(ds.take(k)) <= digits_val(ds),
        digits_val(ds) >= 0,
    decreases ds.len() - k,
{
    if k < ds.len() {
        lemma_digits_val_prefix(ds, k + 1);
        lemma_digits_val_step(ds, k);
        lemma_digits_val_nonneg(ds.take(k));
    } else {
        assert(ds.take(k) =~= ds);
        lemma_digits_val_nonneg(ds);
    }
}

proof fn lemma_digits_val_nonneg(ds: Seq<u8>)
    requires
        all_digits(ds),
    ensures
        digits_val(ds) >= 0,
    decreases ds.len(),
{
    if ds.len() > 0 {
        lemma_digits_val_nonneg(ds.drop_last());
    }
}

/// Parses a decimal `i32` as `str::parse::<i32>` does.
pub fn parse_i32(s: &str) -> (r: Option<i32>)
    ensures
        r == parse_i32_spec(s.spec_bytes()),
{
    let b = s.as_bytes();
    let n = b.len();
    if n == 0 {
        return None;
    }
    let neg = b[0] == 0x2d;
    let start: usize = if b[0] == 0x2b || b[0] == 0x2d { 1 } else { 0 };
    let ghost ds = if start == 1 { b@.drop_first() } else { b@ };
    proof {
        assert(ds =~= b@.subrange(start as int, n as int));
    }
    if start == n {
        return None;
    }
    let mut v: u64 = 0;
    let mut i: usize = start;
    assert(ds.take(0) =~= Seq::<u8>::empty());
    while i < n
        invariant
            start <= i <= n,
            n == b@.len(),
            n > 0,
            b@ == s.spec_bytes(),
            start == (if b@[0] == 0x2b || b@[0] == 0x2d { 1usize } else { 0usize }),
            neg == (b@[0] == 0x2d),
            ds == (if start == 1 { b@.drop_first() } else { b@ }),
            ds =~= b@.subrange(start as int, n as int),
            v == digits_val(ds.take(i - start)),
            v <= 0x8000_0000,
            all_digits(ds.take(i - start)),
        decreases n - i,
    {
        let c = b[i];
        proof {
            assert(ds[i - start] == c);
        }
        if c < 0x30 || c > 0x39 {
            proof {
                assert(!all_digits(ds));
            }
            return None;
        }
        proof {
            lemma_digits_val_step(ds, i - start);
            assert(ds.take(i - start + 1) =~= ds.take(i - start).push(c));
        }
        v = v * 10 + (c - 0x30) as u64;
        if v > 0x8000_0000 {
            proof {
                if all_digits(ds) {
                    lemma_digits_val_prefix(ds, i - start + 1);
                }
            }
            return None;
        }
        i += 1;
    }
    proof {
        assert(ds.take(ds.len() as int) =~= ds);
    }
    if neg {
        if v == 0x8000_0000 {
            Some(-2147483648i32)
        } else {
            Some(-(v as i32))
        }
    } else if v > 0x7fff_ffff {
        None
    } else {
        Some(v as i32)
    }
}

/// Whether two strings are equal.
pub fn str_eq(a: &str, b: &str) -> (r: bool)
    ensures
        r == (a@ == b@),
{
    let x = a.as_bytes();
    let y = b.as_bytes();
    proof {
        vstd::utf8::encode_utf8_decode_utf8(a@);
        vstd::utf8::encode_utf8_decode_utf8(b@);
    }
    if x.len() != y.len() {
        return false;
    }
    let mut i: usize = 0;
    while i < x.len()
        invariant
            x@ == a.spec_bytes(),
            y@ == b.spec_bytes(),
            x.len() == y.len(),
            i <= x.len(),
            forall|j: int| 0 <= j < i ==> x@[j] == y@[j],
        decreases x.len() - i,
    {
        if x[i] != y[i] {
            assert(x@[i as int] != y@[i as int]);
            return false;
        }
        i += 1;
    }
    proof {
        assert(x@ =~= y@);
    }
    true
}

/// Encoding distributes over concatenation.
pub proof fn lemma_encode_concat(a: Seq<char>, b: Seq<char>)
    ensures
        encode_utf8(a + b) == encode_utf8(a) + encode_utf8(b),
    decreases a.len(),
{
    if a.len() == 0 {
        assert(a + b =~= b);
        assert(encode_utf8(a) + encode_utf8(b) =~= encode_utf8(b));
    } else {
        assert((a + b).drop_first() =~= a.drop_first() + b);
        assert((a + b)[0] == a[0]);
        lemma_encode_concat(a.drop_first(), b);
        assert(encode_utf8(a + b) =~= encode_utf8(a) + encode_utf8(b));
    }
}

} // verus!
