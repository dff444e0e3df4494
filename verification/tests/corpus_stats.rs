use eso_addons::corpus::{ascii_lower, cache_stale, TagStats, FILE_LIST_TTL_SECS};
use eso_addons::parser::parse;

#[test]
fn tag_statistics_over_descriptions() {
    let mut s = TagStats::new();
    let d1 = parse("[B]bold[/B] [list][*]one[*][url=x]two[/url][/list]");
    s.count_document(&d1, "101");
    let d2 = parse("plain [b]x[/b][b]y[/b]");
    s.count_document(&d2, "202");
    assert_eq!(s.hits_of("b"), 3);
    assert_eq!(s.addons_of("b"), 2);
    assert_eq!(s.hits_of("list"), 1);
    assert_eq!(s.addons_of("list"), 1);
    assert_eq!(s.hits_of("url"), 1);
    assert_eq!(s.hits_of("i"), 0);
    assert_eq!(s.addons_of("i"), 0);
    assert_eq!(s.max_depth, 3);
    assert_eq!(s.hits, s.counts.iter().map(|c| c.1).sum::<usize>());
}

#[test]
fn ascii_lowering() {
    assert_eq!(ascii_lower("URL"), "url");
    assert_eq!(ascii_lower("Ä-Q1"), "Ä-q1");
}

#[test]
fn cache_freshness_rule() {
    assert!(cache_stale(false, None, None));
    assert!(cache_stale(false, Some(1), Some(FILE_LIST_TTL_SECS)));
    assert!(!cache_stale(true, None, None));
    assert!(!cache_stale(true, Some(999_999), None));
    assert!(cache_stale(true, None, Some(FILE_LIST_TTL_SECS)));
    assert!(!cache_stale(true, Some(86_400), Some(FILE_LIST_TTL_SECS)));
    assert!(cache_stale(true, Some(86_401), Some(FILE_LIST_TTL_SECS)));
}
