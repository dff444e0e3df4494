use std::borrow::Cow;

use eso_addons::decode::decode;

#[test]
fn passthrough_when_safe() {
    assert!(matches!(decode("hello world"), Cow::Borrowed(_)));
    assert!(matches!(decode("привет мир"), Cow::Borrowed(_)));
    assert!(matches!(decode(""), Cow::Borrowed(_)));
}

#[test]
fn decimal_entity() {
    assert_eq!(decode("&#1056;"), "Р");
    assert_eq!(decode("&#65;"), "A");
}

#[test]
fn hex_entity() {
    assert_eq!(decode("&#x420;"), "Р");
    assert_eq!(decode("&#X420;"), "Р");
}

#[test]
fn named_entities() {
    assert_eq!(decode("&amp;&lt;&gt;&quot;&apos;"), "&<>\"'");
    assert_eq!(decode("a&nbsp;b"), "a\u{00A0}b");
}

#[test]
fn unknown_entity_kept_as_literal() {
    assert_eq!(decode("&copy;"), "&copy;");
    assert_eq!(decode("&"), "&");
    assert_eq!(decode("a & b"), "a & b");
}

#[test]
fn malformed_numeric_kept_as_literal() {
    assert_eq!(decode("&#xyz;"), "&#xyz;");
    assert_eq!(decode("&#;"), "&#;");
    assert_eq!(decode("&#x;"), "&#x;");
}

#[test]
fn surrogate_kept_as_literal() {
    assert_eq!(decode("&#xD800;"), "&#xD800;");
}

#[test]
fn control_chars_stripped() {
    assert_eq!(decode("a\u{0001}b"), "ab");
    assert_eq!(decode("&#1;"), "");
    assert_eq!(decode("a\u{007F}b"), "ab");
}

#[test]
fn bidi_stripped() {
    assert_eq!(decode("a\u{202E}b"), "ab");
    assert_eq!(decode("a&#x202E;b"), "ab");
    assert_eq!(decode("a\u{2068}b"), "ab");
}

#[test]
fn tag_chars_stripped() {
    assert_eq!(decode("a\u{E0041}b"), "ab");
}

#[test]
fn whitespace_preserved() {
    assert_eq!(decode("a\tb\nc\rd"), "a\tb\nc\rd");
}

#[test]
fn zwj_preserved() {
    assert_eq!(decode("a\u{200D}b"), "a\u{200D}b");
}

#[test]
fn bandits_sample() {
    let s = "&#1054;&#1087;&#1080;&#1089;&#1072;&#1085;&#1080;&#1077;";
    assert_eq!(decode(s), "Описание");
}

#[test]
fn entity_with_plus_sign_and_long_digits() {
    assert_eq!(decode("&#+65;"), "A");
    assert_eq!(decode("&#x0041;"), "A");
    // more than eight digits before the `;` is not an entity
    assert_eq!(decode("&#000000065;"), "&#000000065;");
    assert_eq!(decode("&#99999999;"), "&#99999999;");
}

#[test]
fn decoded_entity_that_is_dangerous_is_dropped() {
    assert_eq!(decode("x&#x200E;y&#xFEFF;z&#127;"), "x\u{200E}yz");
    assert_eq!(decode("&amp;amp;"), "&amp;");
}

#[test]
fn decode_output_never_holds_dangerous_chars() {
    for s in ["\u{1}\u{7f}\u{85}", "&#x202A;&#x2069;&#xE007F;", "a\u{FEFF}b", "&#9;&#10;"] {
        let out = decode(s);
        for c in out.chars() {
            let n = c as u32;
            assert!(!(n < 0x20 && c != '\t' && c != '\n' && c != '\r'));
            assert!(n != 0x7f && !(0x80..=0x9f).contains(&n));
            assert!(!(0x202a..=0x202e).contains(&n) && !(0x2066..=0x2069).contains(&n));
            assert!(n != 0xfeff && !(0xe0000..=0xe007f).contains(&n));
        }
    }
    assert_eq!(decode("&#9;&#10;"), "\t\n");
}

#[test]
fn strip_dangerous_keeps_everything_else() {
    assert_eq!(eso_addons::decode::strip_dangerous("a\u{202E}b\u{FEFF}c\td"), "abc\td");
    assert!(matches!(eso_addons::decode::strip_dangerous("plain"), std::borrow::Cow::Borrowed("plain")));
}
