use eso_addons::lexer::{Token, tokenize};

#[test]
fn plain_text() {
    let toks = tokenize("hello world");
    assert_eq!(toks, vec![Token::Text("hello world")]);
}

#[test]
fn lexer_simple_pair() {
    let toks = tokenize("[b]hi[/b]");
    assert_eq!(
        toks,
        vec![
            Token::Open {
                tag: "b",
                attr: None,
                raw: "[b]"
            },
            Token::Text("hi"),
            Token::Close {
                tag: "b",
                raw: "[/b]"
            },
        ]
    );
}

#[test]
fn quoted_attr() {
    let toks = tokenize(r#"[color="Red"]x[/color]"#);
    assert_eq!(
        toks[0],
        Token::Open {
            tag: "color",
            attr: Some(r#""Red""#),
            raw: r#"[color="Red"]"#,
        }
    );
}

#[test]
fn unquoted_attr() {
    let toks = tokenize("[size=4]x[/size]");
    assert_eq!(
        toks[0],
        Token::Open {
            tag: "size",
            attr: Some("4"),
            raw: "[size=4]",
        }
    );
}

#[test]
fn star() {
    let toks = tokenize("[*]item");
    assert_eq!(toks[0], Token::Star { raw: "[*]" });
}

#[test]
fn malformed_left_alone() {
    let toks = tokenize("price [25] tokens");
    assert_eq!(toks, vec![Token::Text("price [25] tokens")]);
}

#[test]
fn unterminated_open() {
    let toks = tokenize("foo [b bar");
    assert_eq!(toks, vec![Token::Text("foo [b bar")]);
}

#[test]
fn newline_breaks_attr() {
    let toks = tokenize("[url=http://x\n]y[/url]");
    assert!(matches!(toks[0], Token::Text(_)));
}

#[test]
fn tokens_cover_whole_input() {
    let input = "a [b]é[/b] [url='x y']z[/url] [*] [/*] [ok";
    let toks = tokenize(input);
    let mut joined = String::new();
    for t in &toks {
        match t {
            Token::Text(s) => joined.push_str(s),
            Token::Open { raw, .. } | Token::Close { raw, .. } | Token::Star { raw } => {
                joined.push_str(raw)
            }
        }
    }
    assert_eq!(joined, input);
    assert_eq!(
        toks[1],
        Token::Open {
            tag: "b",
            attr: None,
            raw: "[b]"
        }
    );
}

#[test]
fn closing_star_is_text() {
    let toks = tokenize("[/*]");
    assert_eq!(toks, vec![Token::Text("[/*]")]);
}
