//! The inline text style carried through the markup, and the `[size]`
//! attribute.

use vstd::prelude::*;
use vstd::string::*;
use crate::bbcode::{opt_bytes, unquote, unquote_spec};
use crate::sanitize::Rgb;
use crate::text::{
    byte_slice, lemma_after_ascii, lemma_str_valid, parse_i32, parse_i32_spec, trim, trim_spec,
};

verus! {

/// How a run of text is drawn.
#[derive(Clone, Copy, Debug, PartialEq, Eq, Structural)]
pub struct Style {
    pub bold: bool,
    pub italic: bool,
    pub underline: bool,
    pub strike: bool,
    pub color: Option<Rgb>,
    /// Font size in points; every size the markup can select is a whole number.
    pub size_pt: u8,
    pub monospace: bool,
}

/// Plain text at 14 points in the theme's colour.
pub open spec fn default_style() -> Style {
    Style {
        bold: false,
        italic: false,
        underline: false,
        strike: false,
        color: None,
        size_pt: 14,
        monospace: false,
    }
}

impl Default for Style {
    fn default() -> (s: Style)
        ensures
            s == default_style(),
    {
        Style {
            bold: false,
            italic: false,
            underline: false,
            strike: false,
            color: None,
            size_pt: 14,
            monospace: false,
        }
    }
}

/// Point sizes of the seven size levels.
pub open spec fn size_table() -> Seq<u8> {
    seq![10u8, 12, 14, 16, 18, 22, 28]
}

/// `l` brought into `1..=7`.
pub open spec fn clamp_level(l: int) -> int {
    if l < 1 {
        1
    } else if l > 7 {
        7
    } else {
        l
    }
}

/// The level a size text selects: a bare number is absolute; `+n` and `-n`
/// are relative to the middle level 4.
pub open spec fn size_level(t: Seq<u8>) -> Option<int> {
    let sign: int = if t[0] == 0x2b {
        1
    } else if t[0] == 0x2d {
        -1
    } else {
        0
    };
    let num = if sign == 0 { t } else { t.drop_first() };
    match parse_i32_spec(num) {
        Some(n) => Some(if sign == 0 { n as int } else { 4 + sign * n }),
        None => None,
    }
}

/// The point size a `[size]` attribute selects, if it holds a number.
pub open spec fn size_from_attr_spec(attr: Option<Seq<u8>>) -> Option<u8> {
    match attr {
        None => None,
        Some(a) => {
            let t = trim_spec(unquote_spec(a));
            if t.len() == 0 {
                None
            } else {
                match size_level(t) {
                    Some(l) => Some(size_table()[clamp_level(l) - 1]),
                    None => None,
                }
            }
        },
    }
}

/// The point size for a `[size]` attribute. Absolute levels run from 1 to 7
/// and relative ones are taken from level 4; out-of-range levels are clamped.
pub fn size_from_attr(attr: Option<&str>, _base_pt: u8) -> (r: Option<u8>)
    ensures
        r == size_from_attr_spec(opt_bytes(attr)),
{
    let a = match attr {
        Some(a) => a,
        None => return None,
    };
    let raw = trim(unquote(a));
    let b = raw.as_bytes();
    let n = b.len();
    if n == 0 {
        return None;
    }
    let sign: i64 = if b[0] == 0x2b {
        1
    } else if b[0] == 0x2d {
        -1
    } else {
        0
    };
    let num = if sign == 0 {
        raw
    } else {
        proof {
            lemma_str_valid(raw);
            lemma_after_ascii(raw.spec_bytes(), 0);
        }
        let t = byte_slice(raw, 1, n);
        assert(t.spec_bytes() =~= raw.spec_bytes().drop_first());
        t
    };
    let v = match parse_i32(num) {
        Some(v) => v,
        None => return None,
    };
    let level: i64 = if sign == 0 {
        v as i64
    } else {
        4 + sign * (v as i64)
    };
    let level: i64 = if level < 1 {
        1
    } else if level > 7 {
        7
    } else {
        level
    };
    let table: [u8; 7] = [10, 12, 14, 16, 18, 22, 28];
    assert(table@ =~= size_table());
    Some(table[(level - 1) as usize])
}

} // verus!
