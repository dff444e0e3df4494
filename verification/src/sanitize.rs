//! Allow-listing of link and image addresses and video ids, and parsing of
//! colour values, for attribute text taken from markup.

use vstd::prelude::*;
use vstd::string::*;
use vstd::utf8::*;
use crate::bbcode::{unquote, unquote_spec};
use crate::text::{ascii_lower, ascii_lower_byte, trim, trim_end_len, trim_spec, trim_start_len};

verus! {

broadcast use vstd::utf8::encode_utf8_decode_utf8;

/// An opaque 24-bit colour.
#[derive(Clone, Copy, Debug, PartialEq, Eq, Structural)]
pub struct Rgb {
    pub r: u8,
    pub g: u8,
    pub b: u8,
}

impl Rgb {
    pub fn from_rgb(r: u8, g: u8, b: u8) -> (c: Rgb)
        ensures
            c == (Rgb { r, g, b }),
    {
        Rgb { r, g, b }
    }
}

/// The text an attribute carries: unquoted, then trimmed again.
pub open spec fn attr_text(raw: Seq<u8>) -> Seq<u8> {
    trim_spec(unquote_spec(raw))
}

/// Whether `s` starts with `p` (which is lower case) when `s` is lowered.
pub open spec fn starts_with_lower(s: Seq<u8>, p: Seq<u8>) -> bool {
    p.len() <= s.len() && forall|i: int| 0 <= i < p.len() ==> ascii_lower(#[trigger] s[i]) == p[i]
}

/// `http://`
pub open spec fn http_scheme() -> Seq<u8> {
    seq![0x68u8, 0x74, 0x74, 0x70, 0x3a, 0x2f, 0x2f]
}

/// `https://`
pub open spec fn https_scheme() -> Seq<u8> {
    seq![0x68u8, 0x74, 0x74, 0x70, 0x73, 0x3a, 0x2f, 0x2f]
}

/// `mailto:`
pub open spec fn mailto_scheme() -> Seq<u8> {
    seq![0x6du8, 0x61, 0x69, 0x6c, 0x74, 0x6f, 0x3a]
}

/// Schemes a link may use.
pub open spec fn link_schemes() -> Seq<Seq<u8>> {
    seq![http_scheme(), https_scheme(), mailto_scheme()]
}

/// Schemes an image may be loaded from.
pub open spec fn image_schemes() -> Seq<Seq<u8>> {
    seq![http_scheme(), https_scheme()]
}

/// Whether the address `t` is non-empty and starts with one of `schemes`, in any case.
pub open spec fn scheme_allowed(t: Seq<u8>, schemes: Seq<Seq<u8>>) -> bool {
    t.len() > 0 && exists|k: int| 0 <= k < schemes.len() && starts_with_lower(t, #[trigger] schemes[k])
}

/// The address kept for the attribute `raw`, if its scheme is allowed.
pub open spec fn sanitized(raw: Seq<u8>, schemes: Seq<Seq<u8>>) -> Option<Seq<u8>> {
    if scheme_allowed(attr_text(raw), schemes) {
        Some(attr_text(raw))
    } else {
        None
    }
}

/// The UTF-8 bytes of an optional string.
pub open spec fn opt_utf8(o: Option<String>) -> Option<Seq<u8>> {
    match o {
        Some(s) => Some(encode_utf8(s@)),
        None => None,
    }
}

fn to_string(s: &str) -> (r: String)
    ensures
        encode_utf8(r@) == s.spec_bytes(),
{
    s.to_owned()
}

fn starts_with_lower_exec(s: &[u8], p: &[u8]) -> (r: bool)
    ensures
        r == starts_with_lower(s@, p@),
{
    if p.len() > s.len() {
        return false;
    }
    let mut i: usize = 0;
    while i < p.len()
        invariant
            p.len() <= s.len(),
            i <= p.len(),
            forall|j: int| 0 <= j < i ==> ascii_lower(#[trigger] s@[j]) == p@[j],
        decreases p.len() - i,
    {
        if ascii_lower_byte(s[i]) != p[i] {
            return false;
        }
        i += 1;
    }
    true
}

/// The byte strings that a list of schemes holds.
pub open spec fn scheme_views(schemes: Seq<&[u8]>) -> Seq<Seq<u8>> {
    schemes.map_values(|p: &[u8]| p@)
}

fn sanitize_with_schemes(raw: &str, schemes: &[&[u8]]) -> (r: Option<String>)
    ensures
        opt_utf8(r) == sanitized(raw.spec_bytes(), scheme_views(schemes@)),
{
    let s = trim(unquote(raw));
    let b = s.as_bytes();
    if b.len() == 0 {
        return None;
    }
    let mut k: usize = 0;
    while k < schemes.len()
        invariant
            k <= schemes@.len(),
            b@ == attr_text(raw.spec_bytes()),
            b@ == s.spec_bytes(),
            b@.len() > 0,
            forall|j: int| 0 <= j < k ==> !starts_with_lower(b@, #[trigger] scheme_views(schemes@)[j]),
        decreases schemes.len() - k,
    {
        if starts_with_lower_exec(b, schemes[k]) {
            proof {
                assert(starts_with_lower(b@, scheme_views(schemes@)[k as int]));
            }
            return Some(to_string(s));
        }
        k += 1;
    }
    None
}

/// Keeps a link address only if it uses `http://`, `https://` or `mailto:`.
pub fn sanitize_url(raw: &str) -> (r: Option<String>)
    ensures
        opt_utf8(r) == sanitized(raw.spec_bytes(), link_schemes()),
{
    let http: [u8; 7] = [0x68, 0x74, 0x74, 0x70, 0x3a, 0x2f, 0x2f];
    let https: [u8; 8] = [0x68, 0x74, 0x74, 0x70, 0x73, 0x3a, 0x2f, 0x2f];
    let mailto: [u8; 7] = [0x6d, 0x61, 0x69, 0x6c, 0x74, 0x6f, 0x3a];
    let schemes: [&[u8]; 3] = [http.as_slice(), https.as_slice(), mailto.as_slice()];
    proof {
        assert(http@ =~= http_scheme());
        assert(https@ =~= https_scheme());
        assert(mailto@ =~= mailto_scheme());
    }
    let list = schemes.as_slice();
    proof {
        assert(scheme_views(list@) =~= link_schemes());
    }
    sanitize_with_schemes(raw, list)
}

/// Keeps an image address only if it uses `http://` or `https://`.
pub fn sanitize_image_url(raw: &str) -> (r: Option<String>)
    ensures
        opt_utf8(r) == sanitized(raw.spec_bytes(), image_schemes()),
{
    let http: [u8; 7] = [0x68, 0x74, 0x74, 0x70, 0x3a, 0x2f, 0x2f];
    let https: [u8; 8] = [0x68, 0x74, 0x74, 0x70, 0x73, 0x3a, 0x2f, 0x2f];
    let schemes: [&[u8]; 2] = [http.as_slice(), https.as_slice()];
    proof {
        assert(http@ =~= http_scheme());
        assert(https@ =~= https_scheme());
    }
    let list = schemes.as_slice();
    proof {
        assert(scheme_views(list@) =~= image_schemes());
    }
    sanitize_with_schemes(raw, list)
}

/// A byte that may appear in a video id: ASCII letter, digit, `_` or `-`.
pub open spec fn is_id_byte(c: u8) -> bool {
    (0x30 <= c <= 0x39) || (0x41 <= c <= 0x5a) || (0x61 <= c <= 0x7a) || c == 0x5f || c == 0x2d
}

/// The video id kept for `raw`: the trimmed text, when it has 1 to 32 bytes
/// and all of them are id bytes.
pub open spec fn youtube_id_spec(raw: Seq<u8>) -> Option<Seq<u8>> {
    let t = trim_spec(raw);
    if 0 < t.len() <= 32 && forall|i: int| 0 <= i < t.len() ==> is_id_byte(#[trigger] t[i]) {
        Some(t)
    } else {
        None
    }
}

fn is_id_byte_exec(c: u8) -> (r: bool)
    ensures
        r == is_id_byte(c),
{
    (0x30 <= c && c <= 0x39) || (0x41 <= c && c <= 0x5a) || (0x61 <= c && c <= 0x7a) || c == 0x5f
        || c == 0x2d
}

/// Keeps a video id only if it is short and made of letters, digits, `_` and `-`.
pub fn sanitize_youtube_id(raw: &str) -> (r: Option<String>)
    ensures
        opt_utf8(r) == youtube_id_spec(raw.spec_bytes()),
{
    let s = trim(raw);
    let b = s.as_bytes();
    if b.len() == 0 || b.len() > 32 {
        return None;
    }
    let mut i: usize = 0;
    while i < b.len()
        invariant
            i <= b@.len(),
            b@ == trim_spec(raw.spec_bytes()),
            forall|j: int| 0 <= j < i ==> is_id_byte(#[trigger] b@[j]),
        decreases b.len() - i,
    {
        if !is_id_byte_exec(b[i]) {
            assert(!is_id_byte(b@[i as int]));
            return None;
        }
        i += 1;
    }
    Some(to_string(s))
}

/// Value of a hexadecimal digit byte.
pub open spec fn hex_val(c: u8) -> Option<u8> {
    if 0x30 <= c <= 0x39 {
        Some((c - 0x30) as u8)
    } else if 0x61 <= c <= 0x66 {
        Some((c - 0x61 + 10) as u8)
    } else if 0x41 <= c <= 0x46 {
        Some((c - 0x41 + 10) as u8)
    } else {
        None
    }
}

/// The digit value of a byte known to be a hexadecimal digit.
pub open spec fn hv(c: u8) -> int {
    match hex_val(c) {
        Some(v) => v as int,
        None => 0,
    }
}

/// `s` without one leading `#`.
pub open spec fn hex_body(s: Seq<u8>) -> Seq<u8> {
    if s.len() > 0 && s[0] == 0x23 {
        s.drop_first()
    } else {
        s
    }
}

/// `#rgb` or `#rrggbb`, with or without the `#`.
pub open spec fn parse_hex_spec(s: Seq<u8>) -> Option<Rgb> {
    let body = hex_body(s);
    if !((body.len() == 3 || body.len() == 6) && forall|i: int|
        0 <= i < body.len() ==> (#[trigger] hex_val(body[i])) is Some) {
        None
    } else if body.len() == 3 {
        Some(
            Rgb {
                r: (hv(body[0]) * 17) as u8,
                g: (hv(body[1]) * 17) as u8,
                b: (hv(body[2]) * 17) as u8,
            },
        )
    } else {
        Some(
            Rgb {
                r: (hv(body[0]) * 16 + hv(body[1])) as u8,
                g: (hv(body[2]) * 16 + hv(body[3])) as u8,
                b: (hv(body[4]) * 16 + hv(body[5])) as u8,
            },
        )
    }
}

/// The lower-case hexadecimal digit byte of `n`, for `n` below 16.
pub open spec fn hex_digit_byte(n: int) -> u8 {
    if n < 10 {
        (0x30 + n) as u8
    } else {
        (0x61 + n - 10) as u8
    }
}

/// `#` followed by each channel in two hexadecimal digits, high digit first.
pub open spec fn hex_color_text(c: Rgb) -> Seq<u8> {
    seq![
        0x23u8,
        hex_digit_byte(c.r as int / 16),
        hex_digit_byte(c.r as int % 16),
        hex_digit_byte(c.g as int / 16),
        hex_digit_byte(c.g as int % 16),
        hex_digit_byte(c.b as int / 16),
        hex_digit_byte(c.b as int % 16),
    ]
}

proof fn lemma_hex_digit_byte(n: int)
    requires
        0 <= n < 16,
    ensures
        hex_val(hex_digit_byte(n)) == Some(n as u8),
        hv(hex_digit_byte(n)) == n,
        0x30 <= hex_digit_byte(n) <= 0x39 || 0x61 <= hex_digit_byte(n) <= 0x66,
{
}

proof fn lemma_channel(x: u8)
    ensures
        hv(hex_digit_byte(x as int / 16)) * 16 + hv(hex_digit_byte(x as int % 16)) == x as int,
        hex_val(hex_digit_byte(x as int / 16)) is Some,
        hex_val(hex_digit_byte(x as int % 16)) is Some,
        0x30 <= hex_digit_byte(x as int % 16) <= 0x39 || 0x61 <= hex_digit_byte(x as int % 16) <= 0x66,
        0x30 <= hex_digit_byte(x as int / 16) <= 0x39 || 0x61 <= hex_digit_byte(x as int / 16) <= 0x66,
{
    assert(0 <= x as int / 16 < 16) by (nonlinear_arith);
    assert(0 <= x as int % 16 < 16) by (nonlinear_arith);
    assert((x as int / 16) * 16 + x as int % 16 == x as int) by (nonlinear_arith);
    lemma_hex_digit_byte(x as int / 16);
    lemma_hex_digit_byte(x as int % 16);
}

/// Reading back a colour written as `#rrggbb` gives the colour: the first
/// digit of each pair is the high one.
pub proof fn lemma_hex_color_round_trip(c: Rgb)
    ensures
        parse_hex_spec(hex_color_text(c)) == Some(c),
        parse_color_spec(hex_color_text(c)) == Some(c),
{
    let s = hex_color_text(c);
    lemma_channel(c.r);
    lemma_channel(c.g);
    lemma_channel(c.b);
    let body = hex_body(s);
    assert(body =~= s.drop_first());
    assert forall|i: int| 0 <= i < body.len() implies (#[trigger] hex_val(body[i])) is Some by {
        assert(body[i] == s[i + 1]);
    }
    assert(parse_hex_spec(s) == Some(c));
    assert(trim_start_len(s) == 0);
    assert(s.skip(0) =~= s);
    assert(trim_end_len(s) == 0);
    assert(s.take(s.len() - 0) =~= s);
    assert(trim_spec(s) == s);
    assert(unquote_spec(s) == s);
    assert(attr_text(s) == s);
}

/// The short form `#rgb` is the long form with each digit doubled.
pub proof fn lemma_short_hex_doubles(x: u8, y: u8, z: u8)
    ensures
        parse_hex_spec(seq![0x23u8, x, y, z]) == parse_hex_spec(seq![0x23u8, x, x, y, y, z, z]),
{
    let s3 = seq![0x23u8, x, y, z];
    let s6 = seq![0x23u8, x, x, y, y, z, z];
    let b3 = hex_body(s3);
    let b6 = hex_body(s6);
    assert(b3 =~= seq![x, y, z]);
    assert(b6 =~= seq![x, x, y, y, z, z]);
    if hex_val(x) is Some && hex_val(y) is Some && hex_val(z) is Some {
        assert forall|i: int| 0 <= i < b3.len() implies (#[trigger] hex_val(b3[i])) is Some by {}
        assert forall|i: int| 0 <= i < b6.len() implies (#[trigger] hex_val(b6[i])) is Some by {}
    } else {
        if hex_val(x) is None {
            assert(hex_val(b3[0]) is None && hex_val(b6[0]) is None);
        } else if hex_val(y) is None {
            assert(hex_val(b3[1]) is None && hex_val(b6[2]) is None);
        } else {
            assert(hex_val(b3[2]) is None && hex_val(b6[4]) is None);
        }
    }
}

/// Hexadecimal colours are read whatever the case of their digits.
pub proof fn lemma_hex_case(s: Seq<u8>)
    ensures
        parse_hex_spec(s) == parse_hex_spec(s.map_values(|c: u8| ascii_lower(c))),
{
    let t = s.map_values(|c: u8| ascii_lower(c));
    let bs = hex_body(s);
    let bt = hex_body(t);
    if s.len() > 0 && s[0] == 0x23 {
        assert(t[0] == 0x23);
        assert(bt =~= bs.map_values(|c: u8| ascii_lower(c)));
    } else {
        if s.len() > 0 {
            assert(t[0] != 0x23);
        }
        assert(bt =~= bs.map_values(|c: u8| ascii_lower(c)));
    }
    assert forall|i: int| 0 <= i < bs.len() implies #[trigger] hex_val(bs[i]) == hex_val(bt[i]) by {
        assert(bt[i] == ascii_lower(bs[i]));
    }
    if (bs.len() == 3 || bs.len() == 6) {
        if !(forall|i: int| 0 <= i < bs.len() ==> (#[trigger] hex_val(bs[i])) is Some) {
            let i = choose|i: int| 0 <= i < bs.len() && hex_val(bs[i]) is None;
            assert(hex_val(bt[i]) is None);
        } else {
            assert forall|i: int| 0 <= i < bt.len() implies (#[trigger] hex_val(bt[i])) is Some by {
                assert(hex_val(bs[i]) is Some);
            }
            assert forall|i: int| 0 <= i < bs.len() implies #[trigger] hv(bs[i]) == hv(bt[i]) by {
                assert(hex_val(bs[i]) == hex_val(bt[i]));
            }
            if bs.len() == 3 {
                assert(hv(bs[0]) == hv(bt[0]) && hv(bs[1]) == hv(bt[1]) && hv(bs[2]) == hv(bt[2]));
            } else {
                assert(hv(bs[0]) == hv(bt[0]) && hv(bs[1]) == hv(bt[1]) && hv(bs[2]) == hv(bt[2]));
                assert(hv(bs[3]) == hv(bt[3]) && hv(bs[4]) == hv(bt[4]) && hv(bs[5]) == hv(bt[5]));
            }
        }
    }
}

/// The CSS colour keywords.
pub open spec fn named_colors() -> Seq<(&'static str, Rgb)> {
    seq![
        ("aliceblue", Rgb { r: 240, g: 248, b: 255 }),
        ("antiquewhite", Rgb { r: 250, g: 235, b: 215 }),
        ("aqua", Rgb { r: 0, g: 255, b: 255 }),
        ("aquamarine", Rgb { r: 127, g: 255, b: 212 }),
        ("azure", Rgb { r: 240, g: 255, b: 255 }),
        ("beige", Rgb { r: 245, g: 245, b: 220 }),
        ("bisque", Rgb { r: 255, g: 228, b: 196 }),
        ("black", Rgb { r: 0, g: 0, b: 0 }),
        ("blanchedalmond", Rgb { r: 255, g: 235, b: 205 }),
        ("blue", Rgb { r: 0, g: 0, b: 255 }),
        ("blueviolet", Rgb { r: 138, g: 43, b: 226 }),
        ("brown", Rgb { r: 165, g: 42, b: 42 }),
        ("burlywood", Rgb { r: 222, g: 184, b: 135 }),
        ("cadetblue", Rgb { r: 95, g: 158, b: 160 }),
        ("chartreuse", Rgb { r: 127, g: 255, b: 0 }),
        ("chocolate", Rgb { r: 210, g: 105, b: 30 }),
        ("coral", Rgb { r: 255, g: 127, b: 80 }),
        ("cornflowerblue", Rgb { r: 100, g: 149, b: 237 }),
        ("cornsilk", Rgb { r: 255, g: 248, b: 220 }),
        ("crimson", Rgb { r: 220, g: 20, b: 60 }),
        ("cyan", Rgb { r: 0, g: 255, b: 255 }),
        ("darkblue", Rgb { r: 0, g: 0, b: 139 }),
        ("darkcyan", Rgb { r: 0, g: 139, b: 139 }),
        ("darkgoldenrod", Rgb { r: 184, g: 134, b: 11 }),
        ("darkgray", Rgb { r: 169, g: 169, b: 169 }),
        ("darkgreen", Rgb { r: 0, g: 100, b: 0 }),
        ("darkgrey", Rgb { r: 169, g: 169, b: 169 }),
        ("darkkhaki", Rgb { r: 189, g: 183, b: 107 }),
        ("darkmagenta", Rgb { r: 139, g: 0, b: 139 }),
        ("darkolivegreen", Rgb { r: 85, g: 107, b: 47 }),
        ("darkorange", Rgb { r: 255, g: 140, b: 0 }),
        ("darkorchid", Rgb { r: 153, g: 50, b: 204 }),
        ("darkred", Rgb { r: 139, g: 0, b: 0 }),
        ("darksalmon", Rgb { r: 233, g: 150, b: 122 }),
        ("darkseagreen", Rgb { r: 143, g: 188, b: 143 }),
        ("darkslateblue", Rgb { r: 72, g: 61, b: 139 }),
        ("darkslategray", Rgb { r: 47, g: 79, b: 79 }),
        ("darkslategrey", Rgb { r: 47, g: 79, b: 79 }),
        ("darkturquoise", Rgb { r: 0, g: 206, b: 209 }),
        ("darkviolet", Rgb { r: 148, g: 0, b: 211 }),
        ("deeppink", Rgb { r: 255, g: 20, b: 147 }),
        ("deepskyblue", Rgb { r: 0, g: 191, b: 255 }),
        ("dimgray", Rgb { r: 105, g: 105, b: 105 }),
        ("dimgrey", Rgb { r: 105, g: 105, b: 105 }),
        ("dodgerblue", Rgb { r: 30, g: 144, b: 255 }),
        ("firebrick", Rgb { r: 178, g: 34, b: 34 }),
        ("floralwhite", Rgb { r: 255, g: 250, b: 240 }),
        ("forestgreen", Rgb { r: 34, g: 139, b: 34 }),
        ("fuchsia", Rgb { r: 255, g: 0, b: 255 }),
        ("gainsboro", Rgb { r: 220, g: 220, b: 220 }),
        ("ghostwhite", Rgb { r: 248, g: 248, b: 255 }),
        ("gold", Rgb { r: 255, g: 215, b: 0 }),
        ("goldenrod", Rgb { r: 218, g: 165, b: 32 }),
        ("gray", Rgb { r: 128, g: 128, b: 128 }),
        ("green", Rgb { r: 0, g: 128, b: 0 }),
        ("greenyellow", Rgb { r: 173, g: 255, b: 47 }),
        ("grey", Rgb { r: 128, g: 128, b: 128 }),
        ("honeydew", Rgb { r: 240, g: 255, b: 240 }),
        ("hotpink", Rgb { r: 255, g: 105, b: 180 }),
        ("indianred", Rgb { r: 205, g: 92, b: 92 }),
        ("indigo", Rgb { r: 75, g: 0, b: 130 }),
        ("ivory", Rgb { r: 255, g: 255, b: 240 }),
        ("khaki", Rgb { r: 240, g: 230, b: 140 }),
        ("lavender", Rgb { r: 230, g: 230, b: 250 }),
        ("lavenderblush", Rgb { r: 255, g: 240, b: 245 }),
        ("lawngreen", Rgb { r: 124, g: 252, b: 0 }),
        ("lemonchiffon", Rgb { r: 255, g: 250, b: 205 }),
        ("lightblue", Rgb { r: 173, g: 216, b: 230 }),
        ("lightcoral", Rgb { r: 240, g: 128, b: 128 }),
        ("lightcyan", Rgb { r: 224, g: 255, b: 255 }),
        ("lightgoldenrodyellow", Rgb { r: 250, g: 250, b: 210 }),
        ("lightgray", Rgb { r: 211, g: 211, b: 211 }),
        ("lightgreen", Rgb { r: 144, g: 238, b: 144 }),
        ("lightgrey", Rgb { r: 211, g: 211, b: 211 }),
        ("lightpink", Rgb { r: 255, g: 182, b: 193 }),
        ("lightsalmon", Rgb { r: 255, g: 160, b: 122 }),
        ("lightseagreen", Rgb { r: 32, g: 178, b: 170 }),
        ("lightskyblue", Rgb { r: 135, g: 206, b: 250 }),
        ("lightslategray", Rgb { r: 119, g: 136, b: 153 }),
        ("lightslategrey", Rgb { r: 119, g: 136, b: 153 }),
        ("lightsteelblue", Rgb { r: 176, g: 196, b: 222 }),
        ("lightyellow", Rgb { r: 255, g: 255, b: 224 }),
        ("lime", Rgb { r: 0, g: 255, b: 0 }),
        ("limegreen", Rgb { r: 50, g: 205, b: 50 }),
        ("linen", Rgb { r: 250, g: 240, b: 230 }),
        ("magenta", Rgb { r: 255, g: 0, b: 255 }),
        ("maroon", Rgb { r: 128, g: 0, b: 0 }),
        ("mediumaquamarine", Rgb { r: 102, g: 205, b: 170 }),
        ("mediumblue", Rgb { r: 0, g: 0, b: 205 }),
        ("mediumorchid", Rgb { r: 186, g: 85, b: 211 }),
        ("mediumpurple", Rgb { r: 147, g: 112, b: 219 }),
        ("mediumseagreen", Rgb { r: 60, g: 179, b: 113 }),
        ("mediumslateblue", Rgb { r: 123, g: 104, b: 238 }),
        ("mediumspringgreen", Rgb { r: 0, g: 250, b: 154 }),
        ("mediumturquoise", Rgb { r: 72, g: 209, b: 204 }),
        ("mediumvioletred", Rgb { r: 199, g: 21, b: 133 }),
        ("midnightblue", Rgb { r: 25, g: 25, b: 112 }),
        ("mintcream", Rgb { r: 245, g: 255, b: 250 }),
        ("mistyrose", Rgb { r: 255, g: 228, b: 225 }),
        ("moccasin", Rgb { r: 255, g: 228, b: 181 }),
        ("navajowhite", Rgb { r: 255, g: 222, b: 173 }),
        ("navy", Rgb { r: 0, g: 0, b: 128 }),
        ("oldlace", Rgb { r: 253, g: 245, b: 230 }),
        ("olive", Rgb { r: 128, g: 128, b: 0 }),
        ("olivedrab", Rgb { r: 107, g: 142, b: 35 }),
        ("orange", Rgb { r: 255, g: 165, b: 0 }),
        ("orangered", Rgb { r: 255, g: 69, b: 0 }),
        ("orchid", Rgb { r: 218, g: 112, b: 214 }),
        ("palegoldenrod", Rgb { r: 238, g: 232, b: 170 }),
        ("palegreen", Rgb { r: 152, g: 251, b: 152 }),
        ("paleturquoise", Rgb { r: 175, g: 238, b: 238 }),
        ("palevioletred", Rgb { r: 219, g: 112, b: 147 }),
        ("papayawhip", Rgb { r: 255, g: 239, b: 213 }),
        ("peachpuff", Rgb { r: 255, g: 218, b: 185 }),
        ("peru", Rgb { r: 205, g: 133, b: 63 }),
        ("pink", Rgb { r: 255, g: 192, b: 203 }),
        ("plum", Rgb { r: 221, g: 160, b: 221 }),
        ("powderblue", Rgb { r: 176, g: 224, b: 230 }),
        ("purple", Rgb { r: 128, g: 0, b: 128 }),
        ("rebeccapurple", Rgb { r: 102, g: 51, b: 153 }),
        ("red", Rgb { r: 255, g: 0, b: 0 }),
        ("rosybrown", Rgb { r: 188, g: 143, b: 143 }),
        ("royalblue", Rgb { r: 65, g: 105, b: 225 }),
        ("saddlebrown", Rgb { r: 139, g: 69, b: 19 }),
        ("salmon", Rgb { r: 250, g: 128, b: 114 }),
        ("sandybrown", Rgb { r: 244, g: 164, b: 96 }),
        ("seagreen", Rgb { r: 46, g: 139, b: 87 }),
        ("seashell", Rgb { r: 255, g: 245, b: 238 }),
        ("sienna", Rgb { r: 160, g: 82, b: 45 }),
        ("silver", Rgb { r: 192, g: 192, b: 192 }),
        ("skyblue", Rgb { r: 135, g: 206, b: 235 }),
        ("slateblue", Rgb { r: 106, g: 90, b: 205 }),
        ("slategray", Rgb { r: 112, g: 128, b: 144 }),
        ("slategrey", Rgb { r: 112, g: 128, b: 144 }),
        ("snow", Rgb { r: 255, g: 250, b: 250 }),
        ("springgreen", Rgb { r: 0, g: 255, b: 127 }),
        ("steelblue", Rgb { r: 70, g: 130, b: 180 }),
        ("tan", Rgb { r: 210, g: 180, b: 140 }),
        ("teal", Rgb { r: 0, g: 128, b: 128 }),
        ("thistle", Rgb { r: 216, g: 191, b: 216 }),
        ("tomato", Rgb { r: 255, g: 99, b: 71 }),
        ("turquoise", Rgb { r: 64, g: 224, b: 208 }),
        ("violet", Rgb { r: 238, g: 130, b: 238 }),
        ("wheat", Rgb { r: 245, g: 222, b: 179 }),
        ("white", Rgb { r: 255, g: 255, b: 255 }),
        ("whitesmoke", Rgb { r: 245, g: 245, b: 245 }),
        ("yellow", Rgb { r: 255, g: 255, b: 0 }),
        ("yellowgreen", Rgb { r: 154, g: 205, b: 50 }),
    ]
}

/// The colour named `lower` (lower case), looking from table entry `k` on.
pub open spec fn lookup_color(lower: Seq<u8>, k: int) -> Option<Rgb>
    decreases named_colors().len() - k,
{
    if k < 0 || k >= named_colors().len() {
        None
    } else if named_colors()[k].0.spec_bytes() == lower {
        Some(named_colors()[k].1)
    } else {
        lookup_color(lower, k + 1)
    }
}

/// The colour an attribute names: a hexadecimal form first, else a keyword
/// in any case.
pub open spec fn parse_color_spec(raw: Seq<u8>) -> Option<Rgb> {
    let s = attr_text(raw);
    if s.len() == 0 {
        None
    } else {
        match parse_hex_spec(s) {
            Some(c) => Some(c),
            None => lookup_color(s.map_values(|c: u8| ascii_lower(c)), 0),
        }
    }
}

fn hex_val_exec(c: u8) -> (r: Option<u8>)
    ensures
        r == hex_val(c),
{
    if 0x30 <= c && c <= 0x39 {
        Some(c - 0x30)
    } else if 0x61 <= c && c <= 0x66 {
        Some(c - 0x61 + 10)
    } else if 0x41 <= c && c <= 0x46 {
        Some(c - 0x41 + 10)
    } else {
        None
    }
}

fn parse_hex(s: &[u8]) -> (r: Option<Rgb>)
    ensures
        r == parse_hex_spec(s@),
{
    let start: usize = if s.len() > 0 && s[0] == 0x23 { 1 } else { 0 };
    let n = s.len() - start;
    let ghost body = hex_body(s@);
    proof {
        assert(body =~= s@.subrange(start as int, s@.len() as int));
    }
    if n != 3 && n != 6 {
        return None;
    }
    let mut d: Vec<u8> = Vec::new();
    let mut i: usize = 0;
    while i < n
        invariant
            i <= n,
            n == body.len(),
            body == hex_body(s@),
            body =~= s@.subrange(start as int, s@.len() as int),
            start + n == s@.len(),
            s@.len() == s.len(),
            d@.len() == i,
            forall|j: int| 0 <= j < i ==> (#[trigger] hex_val(body[j])) is Some && d@[j] == hv(body[j]),
        decreases n - i,
    {
        assert(body[i as int] == s@[(start + i) as int]);
        match hex_val_exec(s[start + i]) {
            Some(v) => d.push(v),
            None => {
                proof {
                    assert(hex_val(body[i as int]) is None);
                }
                return None;
            },
        }
        i += 1;
    }
    if n == 3 {
        Some(Rgb { r: d[0] * 17, g: d[1] * 17, b: d[2] * 17 })
    } else {
        Some(Rgb { r: d[0] * 16 + d[1], g: d[2] * 16 + d[3], b: d[4] * 16 + d[5] })
    }
}

fn bytes_eq(a: &[u8], b: &[u8]) -> (r: bool)
    ensures
        r == (a@ == b@),
{
    if a.len() != b.len() {
        return false;
    }
    let mut i: usize = 0;
    while i < a.len()
        invariant
            a.len() == b.len(),
            i <= a.len(),
            forall|j: int| 0 <= j < i ==> a@[j] == b@[j],
        decreases a.len() - i,
    {
        if a[i] != b[i] {
            return false;
        }
        i += 1;
    }
    proof {
        assert(a@ =~= b@);
    }
    true
}

fn lookup_named(lower: &[u8]) -> (r: Option<Rgb>)
    ensures
        r == lookup_color(lower@, 0),
{
    let table: [(&'static str, Rgb); 148] = [
        ("aliceblue", Rgb { r: 240, g: 248, b: 255 }),
        ("antiquewhite", Rgb { r: 250, g: 235, b: 215 }),
        ("aqua", Rgb { r: 0, g: 255, b: 255 }),
        ("aquamarine", Rgb { r: 127, g: 255, b: 212 }),
        ("azure", Rgb { r: 240, g: 255, b: 255 }),
        ("beige", Rgb { r: 245, g: 245, b: 220 }),
        ("bisque", Rgb { r: 255, g: 228, b: 196 }),
        ("black", Rgb { r: 0, g: 0, b: 0 }),
        ("blanchedalmond", Rgb { r: 255, g: 235, b: 205 }),
        ("blue", Rgb { r: 0, g: 0, b: 255 }),
        ("blueviolet", Rgb { r: 138, g: 43, b: 226 }),
        ("brown", Rgb { r: 165, g: 42, b: 42 }),
        ("burlywood", Rgb { r: 222, g: 184, b: 135 }),
        ("cadetblue", Rgb { r: 95, g: 158, b: 160 }),
        ("chartreuse", Rgb { r: 127, g: 255, b: 0 }),
        ("chocolate", Rgb { r: 210, g: 105, b: 30 }),
        ("coral", Rgb { r: 255, g: 127, b: 80 }),
        ("cornflowerblue", Rgb { r: 100, g: 149, b: 237 }),
        ("cornsilk", Rgb { r: 255, g: 248, b: 220 }),
        ("crimson", Rgb { r: 220, g: 20, b: 60 }),
        ("cyan", Rgb { r: 0, g: 255, b: 255 }),
        ("darkblue", Rgb { r: 0, g: 0, b: 139 }),
        ("darkcyan", Rgb { r: 0, g: 139, b: 139 }),
        ("darkgoldenrod", Rgb { r: 184, g: 134, b: 11 }),
        ("darkgray", Rgb { r: 169, g: 169, b: 169 }),
        ("darkgreen", Rgb { r: 0, g: 100, b: 0 }),
        ("darkgrey", Rgb { r: 169, g: 169, b: 169 }),
        ("darkkhaki", Rgb { r: 189, g: 183, b: 107 }),
        ("darkmagenta", Rgb { r: 139, g: 0, b: 139 }),
        ("darkolivegreen", Rgb { r: 85, g: 107, b: 47 }),
        ("darkorange", Rgb { r: 255, g: 140, b: 0 }),
        ("darkorchid", Rgb { r: 153, g: 50, b: 204 }),
        ("darkred", Rgb { r: 139, g: 0, b: 0 }),
        ("darksalmon", Rgb { r: 233, g: 150, b: 122 }),
        ("darkseagreen", Rgb { r: 143, g: 188, b: 143 }),
        ("darkslateblue", Rgb { r: 72, g: 61, b: 139 }),
        ("darkslategray", Rgb { r: 47, g: 79, b: 79 }),
        ("darkslategrey", Rgb { r: 47, g: 79, b: 79 }),
        ("darkturquoise", Rgb { r: 0, g: 206, b: 209 }),
        ("darkviolet", Rgb { r: 148, g: 0, b: 211 }),
        ("deeppink", Rgb { r: 255, g: 20, b: 147 }),
        ("deepskyblue", Rgb { r: 0, g: 191, b: 255 }),
        ("dimgray", Rgb { r: 105, g: 105, b: 105 }),
        ("dimgrey", Rgb { r: 105, g: 105, b: 105 }),
        ("dodgerblue", Rgb { r: 30, g: 144, b: 255 }),
        ("firebrick", Rgb { r: 178, g: 34, b: 34 }),
        ("floralwhite", Rgb { r: 255, g: 250, b: 240 }),
        ("forestgreen", Rgb { r: 34, g: 139, b: 34 }),
        ("fuchsia", Rgb { r: 255, g: 0, b: 255 }),
        ("gainsboro", Rgb { r: 220, g: 220, b: 220 }),
        ("ghostwhite", Rgb { r: 248, g: 248, b: 255 }),
        ("gold", Rgb { r: 255, g: 215, b: 0 }),
        ("goldenrod", Rgb { r: 218, g: 165, b: 32 }),
        ("gray", Rgb { r: 128, g: 128, b: 128 }),
        ("green", Rgb { r: 0, g: 128, b: 0 }),
        ("greenyellow", Rgb { r: 173, g: 255, b: 47 }),
        ("grey", Rgb { r: 128, g: 128, b: 128 }),
        ("honeydew", Rgb { r: 240, g: 255, b: 240 }),
        ("hotpink", Rgb { r: 255, g: 105, b: 180 }),
        ("indianred", Rgb { r: 205, g: 92, b: 92 }),
        ("indigo", Rgb { r: 75, g: 0, b: 130 }),
        ("ivory", Rgb { r: 255, g: 255, b: 240 }),
        ("khaki", Rgb { r: 240, g: 230, b: 140 }),
        ("lavender", Rgb { r: 230, g: 230, b: 250 }),
        ("lavenderblush", Rgb { r: 255, g: 240, b: 245 }),
        ("lawngreen", Rgb { r: 124, g: 252, b: 0 }),
        ("lemonchiffon", Rgb { r: 255, g: 250, b: 205 }),
        ("lightblue", Rgb { r: 173, g: 216, b: 230 }),
        ("lightcoral", Rgb { r: 240, g: 128, b: 128 }),
        ("lightcyan", Rgb { r: 224, g: 255, b: 255 }),
        ("lightgoldenrodyellow", Rgb { r: 250, g: 250, b: 210 }),
        ("lightgray", Rgb { r: 211, g: 211, b: 211 }),
        ("lightgreen", Rgb { r: 144, g: 238, b: 144 }),
        ("lightgrey", Rgb { r: 211, g: 211, b: 211 }),
        ("lightpink", Rgb { r: 255, g: 182, b: 193 }),
        ("lightsalmon", Rgb { r: 255, g: 160, b: 122 }),
        ("lightseagreen", Rgb { r: 32, g: 178, b: 170 }),
        ("lightskyblue", Rgb { r: 135, g: 206, b: 250 }),
        ("lightslategray", Rgb { r: 119, g: 136, b: 153 }),
        ("lightslategrey", Rgb { r: 119, g: 136, b: 153 }),
        ("lightsteelblue", Rgb { r: 176, g: 196, b: 222 }),
        ("lightyellow", Rgb { r: 255, g: 255, b: 224 }),
        ("lime", Rgb { r: 0, g: 255, b: 0 }),
        ("limegreen", Rgb { r: 50, g: 205, b: 50 }),
        ("linen", Rgb { r: 250, g: 240, b: 230 }),
        ("magenta", Rgb { r: 255, g: 0, b: 255 }),
        ("maroon", Rgb { r: 128, g: 0, b: 0 }),
        ("mediumaquamarine", Rgb { r: 102, g: 205, b: 170 }),
        ("mediumblue", Rgb { r: 0, g: 0, b: 205 }),
        ("mediumorchid", Rgb { r: 186, g: 85, b: 211 }),
        ("mediumpurple", Rgb { r: 147, g: 112, b: 219 }),
        ("mediumseagreen", Rgb { r: 60, g: 179, b: 113 }),
        ("mediumslateblue", Rgb { r: 123, g: 104, b: 238 }),
        ("mediumspringgreen", Rgb { r: 0, g: 250, b: 154 }),
        ("mediumturquoise", Rgb { r: 72, g: 209, b: 204 }),
        ("mediumvioletred", Rgb { r: 199, g: 21, b: 133 }),
        ("midnightblue", Rgb { r: 25, g: 25, b: 112 }),
        ("mintcream", Rgb { r: 245, g: 255, b: 250 }),
        ("mistyrose", Rgb { r: 255, g: 228, b: 225 }),
        ("moccasin", Rgb { r: 255, g: 228, b: 181 }),
        ("navajowhite", Rgb { r: 255, g: 222, b: 173 }),
        ("navy", Rgb { r: 0, g: 0, b: 128 }),
        ("oldlace", Rgb { r: 253, g: 245, b: 230 }),
        ("olive", Rgb { r: 128, g: 128, b: 0 }),
        ("olivedrab", Rgb { r: 107, g: 142, b: 35 }),
        ("orange", Rgb { r: 255, g: 165, b: 0 }),
        ("orangered", Rgb { r: 255, g: 69, b: 0 }),
        ("orchid", Rgb { r: 218, g: 112, b: 214 }),
        ("palegoldenrod", Rgb { r: 238, g: 232, b: 170 }),
        ("palegreen", Rgb { r: 152, g: 251, b: 152 }),
        ("paleturquoise", Rgb { r: 175, g: 238, b: 238 }),
        ("palevioletred", Rgb { r: 219, g: 112, b: 147 }),
        ("papayawhip", Rgb { r: 255, g: 239, b: 213 }),
        ("peachpuff", Rgb { r: 255, g: 218, b: 185 }),
        ("peru", Rgb { r: 205, g: 133, b: 63 }),
        ("pink", Rgb { r: 255, g: 192, b: 203 }),
        ("plum", Rgb { r: 221, g: 160, b: 221 }),
        ("powderblue", Rgb { r: 176, g: 224, b: 230 }),
        ("purple", Rgb { r: 128, g: 0, b: 128 }),
        ("rebeccapurple", Rgb { r: 102, g: 51, b: 153 }),
        ("red", Rgb { r: 255, g: 0, b: 0 }),
        ("rosybrown", Rgb { r: 188, g: 143, b: 143 }),
        ("royalblue", Rgb { r: 65, g: 105, b: 225 }),
        ("saddlebrown", Rgb { r: 139, g: 69, b: 19 }),
        ("salmon", Rgb { r: 250, g: 128, b: 114 }),
        ("sandybrown", Rgb { r: 244, g: 164, b: 96 }),
        ("seagreen", Rgb { r: 46, g: 139, b: 87 }),
        ("seashell", Rgb { r: 255, g: 245, b: 238 }),
        ("sienna", Rgb { r: 160, g: 82, b: 45 }),
        ("silver", Rgb { r: 192, g: 192, b: 192 }),
        ("skyblue", Rgb { r: 135, g: 206, b: 235 }),
        ("slateblue", Rgb { r: 106, g: 90, b: 205 }),
        ("slategray", Rgb { r: 112, g: 128, b: 144 }),
        ("slategrey", Rgb { r: 112, g: 128, b: 144 }),
        ("snow", Rgb { r: 255, g: 250, b: 250 }),
        ("springgreen", Rgb { r: 0, g: 255, b: 127 }),
        ("steelblue", Rgb { r: 70, g: 130, b: 180 }),
        ("tan", Rgb { r: 210, g: 180, b: 140 }),
        ("teal", Rgb { r: 0, g: 128, b: 128 }),
        ("thistle", Rgb { r: 216, g: 191, b: 216 }),
        ("tomato", Rgb { r: 255, g: 99, b: 71 }),
        ("turquoise", Rgb { r: 64, g: 224, b: 208 }),
        ("violet", Rgb { r: 238, g: 130, b: 238 }),
        ("wheat", Rgb { r: 245, g: 222, b: 179 }),
        ("white", Rgb { r: 255, g: 255, b: 255 }),
        ("whitesmoke", Rgb { r: 245, g: 245, b: 245 }),
        ("yellow", Rgb { r: 255, g: 255, b: 0 }),
        ("yellowgreen", Rgb { r: 154, g: 205, b: 50 }),
    ];
    proof {
        assert(table@ =~= named_colors());
    }
    let mut k: usize = 0;
    while k < 148
        invariant
            k <= 148,
            table@ == named_colors(),
            lookup_color(lower@, 0) == lookup_color(lower@, k as int),
        decreases 148 - k,
    {
        let (name, c) = table[k];
        if bytes_eq(name.as_bytes(), lower) {
            return Some(c);
        }
        k += 1;
    }
    None
}

/// Parses a colour attribute: `#rgb`, `#rrggbb` (the `#` is optional) or a
/// CSS colour keyword in any case, after unquoting and trimming.
pub fn parse_color(raw: &str) -> (r: Option<Rgb>)
    ensures
        r == parse_color_spec(raw.spec_bytes()),
{
    let s = trim(unquote(raw));
    let b = s.as_bytes();
    if b.len() == 0 {
        return None;
    }
    if let Some(c) = parse_hex(b) {
        return Some(c);
    }
    let mut lower: Vec<u8> = Vec::new();
    let mut i: usize = 0;
    while i < b.len()
        invariant
            i <= b@.len(),
            lower@ =~= b@.subrange(0, i as int).map_values(|c: u8| ascii_lower(c)),
        decreases b.len() - i,
    {
        lower.push(ascii_lower_byte(b[i]));
        i += 1;
    }
    proof {
        assert(b@.subrange(0, b@.len() as int) =~= b@);
    }
    lookup_named(lower.as_slice())
}

} // verus!
