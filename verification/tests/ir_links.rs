use eso_addons::ir::{is_email_addr, sanitize_email};

#[test]
fn email_addr_validation() {
    assert!(is_email_addr("a@b.c"));
    assert!(!is_email_addr("a@b"));
    assert!(!is_email_addr("@b.c"));
    assert!(!is_email_addr("a@"));
    assert!(!is_email_addr("a b@c.d"));
}

#[test]
fn email_sanitize_prefixes_mailto() {
    assert_eq!(sanitize_email("user@example.com"), Some("mailto:user@example.com".to_string()));
    assert_eq!(sanitize_email("mailto:user@example.com"), Some("mailto:user@example.com".to_string()));
    assert_eq!(sanitize_email("not-an-email"), None);
    assert_eq!(sanitize_email("javascript:alert(1)"), None);
}

#[test]
fn email_edge_cases() {
    assert!(is_email_addr("a@b@c.d"));
    assert!(!is_email_addr("a@bc\u{00A0}.d"));
    assert!(!is_email_addr("abc"));
    assert_eq!(sanitize_email("mailto:nobody"), None);
    assert_eq!(sanitize_email("MAILTO:a@b.c"), Some("mailto:MAILTO:a@b.c".to_string()));
    assert_eq!(sanitize_email(" \"x@y.z\" "), Some("mailto:x@y.z".to_string()));
    assert_eq!(sanitize_email(""), None);
}
