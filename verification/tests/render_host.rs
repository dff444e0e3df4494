use eso_addons::render::{short_host, BBState};

#[test]
fn short_host_strips_path() {
    assert_eq!(short_host("https://i.imgur.com/foo.png"), "i.imgur.com");
    assert_eq!(short_host("http://example.com/a?b=1"), "example.com");
}

#[test]
fn short_host_without_scheme_or_path() {
    assert_eq!(short_host("example.com#top"), "example.com");
    assert_eq!(short_host("plain"), "plain");
    assert_eq!(short_host("a://b://c/d"), "b:");
    assert_eq!(short_host(""), "");
}

#[test]
fn state_starts_with_no_image_open() {
    let s = BBState::default();
    assert!(s.open_image.is_none());
}
