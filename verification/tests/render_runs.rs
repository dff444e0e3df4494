use eso_addons::ir::{build_blocks, Block, HiddenKind};
use eso_addons::parser::parse;
use eso_addons::render::{hidden_label, list_bullet, paragraph_runs, youtube_label, youtube_url, BBState, Run};
use eso_addons::style::Style;

fn describe(runs: &[Run]) -> Vec<String> {
    runs.iter()
        .map(|r| match r {
            Run::Text(v) => format!("text:{}", v.iter().map(|p| p.0.clone()).collect::<Vec<_>>().join("|")),
            Run::Link { label, url } => format!(
                "link:{}:{}:{}",
                label.iter().map(|p| p.0.clone()).collect::<Vec<_>>().join("|"),
                label.iter().all(|p| p.1.underline),
                url
            ),
            Run::Image(u) => format!("img:{u}"),
            Run::Youtube(id) => format!("yt:{id}"),
        })
        .collect()
}

#[test]
fn paragraphs_group_texts_between_other_pieces() {
    let d = parse("a[b]b[/b][url=https://x.org]go [i]there[/i][/url]c[img]https://i.org/p.png[/img][youtube]abc[/youtube]");
    let blocks = build_blocks(&d.children, &Style::default());
    let Block::Para(p) = &blocks[0] else { panic!("expected a paragraph") };
    let runs = paragraph_runs(p);
    assert_eq!(
        describe(&runs),
        vec![
            "text:a|b",
            "link:go |there:true:https://x.org",
            "text:c",
            "img:https://i.org/p.png",
            "yt:abc",
        ]
    );
}

#[test]
fn render_texts() {
    assert_eq!(youtube_url("abc"), "https://www.youtube.com/watch?v=abc");
    assert_eq!(youtube_label("abc"), "▶ youtube:abc");
    assert_eq!(list_bullet(true, 0), "1.");
    assert_eq!(list_bullet(true, 9), "10.");
    assert_eq!(list_bullet(false, 3), "•");
    assert_eq!(hidden_label(HiddenKind::Spoiler), "Spoiler");
    assert_eq!(hidden_label(HiddenKind::Blur), "Hidden");
    let mut s = BBState::default();
    s.open("https://i.org/p.png".into());
    assert_eq!(s.open_image.as_deref(), Some("https://i.org/p.png"));
    s.close();
    assert!(s.open_image.is_none());
}
