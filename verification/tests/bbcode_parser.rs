use eso_addons::bbcode::Node;
use eso_addons::parser::parse;

fn assert_one_text<'a>(node: &Node<'a>, expected: &str) {
    match node {
        Node::Text(s) => assert_eq!(*s, expected),
        other => panic!("expected text, got {:?}", other),
    }
}

#[test]
fn parser_simple_pair() {
    let d = parse("[b]hi[/b]");
    assert_eq!(d.children.len(), 1);
    if let Node::Element(e) = &d.children[0] {
        assert!(e.is("b"));
        assert!(!e.auto_closed);
        assert_eq!(e.children.len(), 1);
        assert_one_text(&e.children[0], "hi");
    } else {
        panic!();
    }
}

#[test]
fn nested() {
    let d = parse("[b][i]a[/i][/b]");
    if let Node::Element(b) = &d.children[0] {
        assert!(b.is("b"));
        if let Node::Element(i) = &b.children[0] {
            assert!(i.is("i"));
            assert_one_text(&i.children[0], "a");
            return;
        }
    }
    panic!();
}

#[test]
fn unmatched_close_is_text() {
    let d = parse("foo[/b]");
    assert_eq!(d.children.len(), 2);
    assert_one_text(&d.children[0], "foo");
    assert_one_text(&d.children[1], "[/b]");
}

#[test]
fn unclosed_open_auto_closes() {
    let d = parse("[b]hi");
    if let Node::Element(e) = &d.children[0] {
        assert!(e.is("b"));
        assert!(e.auto_closed);
    } else {
        panic!();
    }
}

#[test]
fn list_items() {
    let d = parse("[list][*]a[*]b[/list]");
    let list = if let Node::Element(e) = &d.children[0] { e } else { panic!() };
    assert!(list.is("list"));
    assert_eq!(list.children.len(), 2);
    for (i, expected) in ["a", "b"].iter().enumerate() {
        if let Node::Element(item) = &list.children[i] {
            assert_eq!(item.tag, "*");
            assert!(item.auto_closed);
            assert_one_text(&item.children[0], expected);
        } else {
            panic!();
        }
    }
}

#[test]
fn star_outside_list_is_text() {
    let d = parse("[*]hi");
    assert_eq!(d.children.len(), 2);
    assert_one_text(&d.children[0], "[*]");
    assert_one_text(&d.children[1], "hi");
}

#[test]
fn case_insensitive_close() {
    let d = parse("[B]hi[/b]");
    if let Node::Element(e) = &d.children[0] {
        assert!(e.is("b"));
        assert!(!e.auto_closed);
    } else {
        panic!();
    }
}

#[test]
fn cross_close_auto_closes_inner() {
    let d = parse("[b][i]hi[/b]");
    if let Node::Element(b) = &d.children[0] {
        assert!(b.is("b"));
        assert!(!b.auto_closed);
        if let Node::Element(i) = &b.children[0] {
            assert!(i.is("i"));
            assert!(i.auto_closed);
            return;
        }
    }
    panic!();
}

#[test]
fn attrs() {
    let d = parse(r#"[url="http://x"]y[/url]"#);
    if let Node::Element(e) = &d.children[0] {
        assert!(e.is("url"));
        assert_eq!(e.attr, Some(r#""http://x""#));
        assert_eq!(e.attr_value(), Some("http://x"));
    } else {
        panic!();
    }
}

#[test]
fn ul_li_aliases() {
    let d = parse("[ul][li]a[/li][li]b[/li][/ul]");
    let list = if let Node::Element(e) = &d.children[0] { e } else { panic!() };
    assert!(list.is("ul"));
    assert_eq!(list.children.len(), 2);
    for (i, expected) in ["a", "b"].iter().enumerate() {
        if let Node::Element(item) = &list.children[i] {
            assert!(item.is("li"));
            assert!(!item.auto_closed);
            assert_one_text(&item.children[0], expected);
        } else {
            panic!();
        }
    }
}

#[test]
fn ol_li_implicit_close() {
    let d = parse("[ol][li]a[li]b[/ol]");
    let list = if let Node::Element(e) = &d.children[0] { e } else { panic!() };
    assert!(list.is("ol"));
    assert_eq!(list.children.len(), 2);
    for (i, expected) in ["a", "b"].iter().enumerate() {
        if let Node::Element(item) = &list.children[i] {
            assert!(item.is("li"));
            assert!(item.auto_closed);
            assert_one_text(&item.children[0], expected);
        } else {
            panic!();
        }
    }
}

#[test]
fn star_inside_ul() {
    let d = parse("[ul][*]a[*]b[/ul]");
    let list = if let Node::Element(e) = &d.children[0] { e } else { panic!() };
    assert!(list.is("ul"));
    assert_eq!(list.children.len(), 2);
}

#[test]
fn unmatched_close_split_into_text() {
    let d = parse("foo[/b]bar");
    assert_eq!(d.children.len(), 3);
    assert_one_text(&d.children[0], "foo");
    assert_one_text(&d.children[1], "[/b]");
    assert_one_text(&d.children[2], "bar");
}

#[test]
fn deep_nesting_turns_into_text() {
    let input = "[b]".repeat(100);
    let d = parse(&input);
    let mut depth = 0;
    let mut node = &d.children[0];
    while let Node::Element(e) = node {
        depth += 1;
        match e.children.first() {
            Some(n) => node = n,
            None => break,
        }
    }
    assert_eq!(depth, 64);
}

#[test]
fn unquote_strips_matching_quotes() {
    assert_eq!(eso_addons::bbcode::unquote("  'abc' "), "abc");
    assert_eq!(eso_addons::bbcode::unquote("\u{a0}\"x\"\u{3000}"), "x");
    assert_eq!(eso_addons::bbcode::unquote("\"x'"), "\"x'");
    assert_eq!(eso_addons::bbcode::unquote("\""), "\"");
}

fn depth_of(nodes: &[Node<'_>]) -> usize {
    nodes
        .iter()
        .map(|n| match n {
            Node::Text(_) => 0,
            Node::Element(e) => 1 + depth_of(&e.children),
        })
        .max()
        .unwrap_or(0)
}

#[test]
fn star_items_reach_one_level_past_the_limit() {
    let src = "[list]".repeat(64) + "[*]x[*]y[b]z[*]w";
    let d = parse(&src);
    assert_eq!(depth_of(&d.children), 65);
    let deeper = "[ul]".repeat(100) + &"[*]".repeat(10) + "[li]q";
    assert!(depth_of(&parse(&deeper).children) <= 65);
}
