use eso_addons::parser::parse;

#[test]
fn round_trip_sexp() {
    let s = parse(r#"[b]hello[i]world[/i][/b]"#).to_string();
    assert_eq!(s, r#"(doc (b "hello" (i "world")))"#);
}

#[test]
fn list_sexp() {
    let s = parse("[list][*]a[*]b[/list]").to_string();
    assert_eq!(
        s,
        r#"(doc (list (* :auto-closed "a") (* :auto-closed "b")))"#
    );
}

#[test]
fn attr_sexp() {
    let s = parse(r#"[color="Red"]hi[/color]"#).to_string();
    assert_eq!(s, r#"(doc (color :attr "Red" "hi"))"#);
}

#[test]
fn sexp_escapes_specials() {
    let s = parse("a\"b\\c\nd\u{1}e").to_string();
    assert_eq!(s, "(doc \"a\\\"b\\\\c\\nd\\x01e\")");
}

#[test]
fn nodes_and_elements_print_alone() {
    let d = parse(r#"[url="x"]a[/url]t"#);
    assert_eq!(d.children[0].to_string(), r#"(url :attr "x" "a")"#);
    assert_eq!(d.children[1].to_string(), r#""t""#);
    match &d.children[0] {
        eso_addons::bbcode::Node::Element(e) => assert_eq!(e.to_string(), r#"(url :attr "x" "a")"#),
        _ => panic!("expected an element"),
    }
}
