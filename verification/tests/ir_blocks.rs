use eso_addons::bbcode::Node;
use eso_addons::ir::{build_blocks, Block, HAlign, HiddenKind, Inline};
use eso_addons::parser::parse;
use eso_addons::render::BBView;
use eso_addons::sanitize::Rgb;
use eso_addons::style::Style;

fn texts(inl: &[Inline<'_>]) -> Vec<String> {
    inl.iter()
        .map(|i| match i {
            Inline::Text { text, .. } => text.to_string(),
            Inline::Link { url, .. } => format!("<link {url}>"),
            Inline::Image(u) => format!("<img {u}>"),
            Inline::Youtube(id) => format!("<yt {id}>"),
        })
        .collect()
}

#[test]
fn styled_text_becomes_one_paragraph() {
    let d = parse("a[b]b[/b][color=red]c[/color][size=7]d[/size]");
    let blocks = build_blocks(&d.children, &Style::default());
    assert_eq!(blocks.len(), 1);
    let Block::Para(p) = &blocks[0] else { panic!("expected a paragraph") };
    assert_eq!(texts(p), vec!["a", "b", "c", "d"]);
    match (&p[1], &p[2], &p[3]) {
        (Inline::Text { style: b, .. }, Inline::Text { style: c, .. }, Inline::Text { style: s, .. }) => {
            assert!(b.bold && !c.bold);
            assert_eq!(c.color, Some(Rgb::from_rgb(255, 0, 0)));
            assert_eq!(s.size_pt, 28);
        }
        _ => panic!("expected texts"),
    }
}

#[test]
fn blocks_split_paragraphs() {
    let d = parse("x[quote]q[/quote]y[center]c[/center][spoiler]s[/spoiler][blur]b[/blur][code][b]k[/b][/code]");
    let blocks = build_blocks(&d.children, &Style::default());
    assert_eq!(blocks.len(), 7);
    assert!(matches!(&blocks[0], Block::Para(p) if texts(p) == vec!["x"]));
    assert!(matches!(&blocks[1], Block::Quote(_)));
    assert!(matches!(&blocks[2], Block::Para(p) if texts(p) == vec!["y"]));
    assert!(matches!(&blocks[3], Block::Align(HAlign::Center, _)));
    assert!(matches!(&blocks[4], Block::Hidden(HiddenKind::Spoiler, _)));
    assert!(matches!(&blocks[5], Block::Hidden(HiddenKind::Blur, _)));
    assert!(matches!(&blocks[6], Block::Code(t) if t == "k"));
}

#[test]
fn lists_collect_items() {
    let d = parse("[list=1][*]a[*]b[/list][ul][li]c[/li]x[/ul]");
    let blocks = build_blocks(&d.children, &Style::default());
    assert_eq!(blocks.len(), 2);
    match &blocks[0] {
        Block::List { ordered, items } => {
            assert!(*ordered);
            assert_eq!(items.len(), 2);
        }
        _ => panic!("expected a list"),
    }
    match &blocks[1] {
        Block::List { ordered, items } => {
            assert!(!*ordered);
            assert_eq!(items.len(), 1);
        }
        _ => panic!("expected a list"),
    }
}

#[test]
fn links_images_and_videos() {
    let d = parse("[url=https://a.b/c]label[/url][url]https://x.y[/url][url=javascript:alert(1)]bad[/url][email]me@x.org[/email][img]https://i.png[/img][img]file:///x[/img][youtube] abc_1 [/youtube]");
    let blocks = build_blocks(&d.children, &Style::default());
    let Block::Para(p) = &blocks[0] else { panic!("expected a paragraph") };
    assert_eq!(
        texts(p),
        vec![
            "<link https://a.b/c>",
            "<link https://x.y>",
            "[url=javascript:alert(1)]",
            "bad",
            "<link mailto:me@x.org>",
            "<img https://i.png>",
            "[img]",
            "<yt abc_1>",
        ]
    );
    match &p[4] {
        Inline::Link { label, .. } => assert_eq!(texts(label), vec!["me@x.org"]),
        _ => panic!("expected a link"),
    }
    match &p[0] {
        Inline::Link { label, .. } => assert_eq!(texts(label), vec!["label"]),
        _ => panic!("expected a link"),
    }
}

#[test]
fn unknown_tags_and_entities() {
    let d = parse("[foo]a &amp; b[/foo]");
    let blocks = build_blocks(&d.children, &Style::default());
    let Block::Para(p) = &blocks[0] else { panic!("expected a paragraph") };
    assert_eq!(texts(p), vec!["[foo]", "a & b"]);
    let empty = parse("");
    assert!(build_blocks(&empty.children, &Style::default()).is_empty());
    assert!(matches!(&d.children[0], Node::Element(_)));
}

#[test]
fn view_lays_out_a_document() {
    let d = parse("[indent]i[/indent]");
    let v = BBView::parse(&d);
    assert_eq!(v.blocks().len(), 1);
    assert!(matches!(&v.blocks()[0], Block::Indent(b) if b.len() == 1));
}

#[test]
fn raw_tags_lose_control_and_bidi_characters() {
    let d = parse("[foo=a\u{202E}b\u{7}c]x[/foo]");
    let blocks = build_blocks(&d.children, &Style::default());
    let Block::Para(p) = &blocks[0] else { panic!("expected a paragraph") };
    assert_eq!(texts(p), vec!["[foo=abc]", "x"]);
    let d = parse("[url=javascript:\u{2066}go]y[/url]");
    let blocks = build_blocks(&d.children, &Style::default());
    let Block::Para(p) = &blocks[0] else { panic!("expected a paragraph") };
    assert_eq!(texts(p), vec!["[url=javascript:go]", "y"]);
    let d = parse("[bar]plain[/bar]");
    let blocks = build_blocks(&d.children, &Style::default());
    let Block::Para(p) = &blocks[0] else { panic!("expected a paragraph") };
    assert_eq!(texts(p), vec!["[bar]", "plain"]);
}
