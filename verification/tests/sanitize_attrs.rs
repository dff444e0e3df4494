use eso_addons::sanitize::{parse_color, sanitize_image_url, sanitize_url, sanitize_youtube_id, Rgb};

#[test]
fn named_color() {
    assert_eq!(parse_color("\"DarkOrange\""), Some(Rgb::from_rgb(255, 140, 0)));
    assert_eq!(parse_color("red"), Some(Rgb::from_rgb(255, 0, 0)));
}

#[test]
fn hex_color() {
    assert_eq!(parse_color("#FF8800"), Some(Rgb::from_rgb(0xff, 0x88, 0x00)));
    assert_eq!(parse_color("ff8800"), Some(Rgb::from_rgb(0xff, 0x88, 0x00)));
    assert_eq!(parse_color("#abc"), Some(Rgb::from_rgb(0xaa, 0xbb, 0xcc)));
}

#[test]
fn invalid_color() {
    assert_eq!(parse_color("not-a-color"), None);
    assert_eq!(parse_color(""), None);
    assert_eq!(parse_color("#xyz"), None);
}

#[test]
fn url_allowlist() {
    assert!(sanitize_url("https://example.com").is_some());
    assert!(sanitize_url("\"http://x\"").is_some());
    assert!(sanitize_url("mailto:a@b").is_some());
    assert!(sanitize_url("javascript:alert(1)").is_none());
    assert!(sanitize_url("file:///etc/passwd").is_none());
    assert!(sanitize_url("ftp://example.com").is_none());
}

#[test]
fn image_url_allowlist() {
    assert!(sanitize_image_url("https://example.com/x.png").is_some());
    assert!(sanitize_image_url("http://example.com/x.png").is_some());
    assert!(sanitize_image_url("mailto:a@b").is_none());
    assert!(sanitize_image_url("javascript:alert(1)").is_none());
    assert!(sanitize_image_url("file:///etc/passwd").is_none());
}

#[test]
fn youtube_id() {
    assert_eq!(sanitize_youtube_id("abc-DEF_123"), Some("abc-DEF_123".to_string()));
    assert!(sanitize_youtube_id("a b").is_none());
    assert!(sanitize_youtube_id("a; rm -rf /").is_none());
}

#[test]
fn sanitized_url_is_unquoted_and_trimmed_but_keeps_case() {
    assert_eq!(sanitize_url("  'HTTPS://Example.com/A'  "), Some("HTTPS://Example.com/A".to_string()));
    assert_eq!(sanitize_url("\" https://x \""), Some("https://x".to_string()));
    assert_eq!(sanitize_url("   "), None);
    assert_eq!(sanitize_url("\"\""), None);
}

#[test]
fn youtube_id_length_limit() {
    let id32 = "a".repeat(32);
    let id33 = "a".repeat(33);
    assert_eq!(sanitize_youtube_id(&format!(" {id32}\n")), Some(id32.clone()));
    assert_eq!(sanitize_youtube_id(&id33), None);
    assert_eq!(sanitize_youtube_id(""), None);
    assert_eq!(sanitize_youtube_id("é"), None);
}

#[test]
fn color_forms() {
    assert_eq!(parse_color("  '#0f0' "), Some(Rgb::from_rgb(0, 0xff, 0)));
    assert_eq!(parse_color("RebeccaPurple"), Some(Rgb::from_rgb(102, 51, 153)));
    assert_eq!(parse_color("yellowgreen"), Some(Rgb::from_rgb(154, 205, 50)));
    assert_eq!(parse_color("aliceblue"), Some(Rgb::from_rgb(240, 248, 255)));
    assert_eq!(parse_color("#12345"), None);
    assert_eq!(parse_color("##abc"), None);
    assert_eq!(parse_color("abc"), Some(Rgb::from_rgb(0xaa, 0xbb, 0xcc)));
}
