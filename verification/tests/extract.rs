//! Per-line extraction behavior on concrete lines.

use baker::extract::extract_domain;

#[test]
fn plain_domain_line() {
    assert_eq!(extract_domain("example.com"), Some(String::from("example.com")));
}

#[test]
fn hosts_prefix_line() {
    assert_eq!(
        extract_domain("0.0.0.0 ads.example.com"),
        Some(String::from("ads.example.com"))
    );
}

#[test]
fn loopback_prefix_line() {
    assert_eq!(extract_domain("127.0.0.1 x.y"), Some(String::from("x.y")));
}

#[test]
fn adblock_marker_line() {
    assert_eq!(
        extract_domain("||tracker.example.net^"),
        Some(String::from("tracker.example.net"))
    );
}

#[test]
fn absolute_url_line() {
    assert_eq!(
        extract_domain("https://sub.example.org/path?x=1"),
        Some(String::from("sub.example.org"))
    );
}

#[test]
fn url_with_port_line() {
    assert_eq!(
        extract_domain("http://example.com:8080/x"),
        Some(String::from("example.com"))
    );
}

#[test]
fn url_without_host_line() {
    assert_eq!(extract_domain("mailto:user@example.com"), None);
}

#[test]
fn comment_line() {
    assert_eq!(extract_domain("# comment"), None);
}

#[test]
fn empty_and_blank_lines() {
    assert_eq!(extract_domain(""), None);
    assert_eq!(extract_domain("   "), None);
    assert_eq!(extract_domain("\t"), None);
}

#[test]
fn port_qualified_token_line() {
    assert_eq!(extract_domain("10.0.0.5:8080"), None);
}

#[test]
fn internal_whitespace_line() {
    assert_eq!(extract_domain("foo bar.com extra"), None);
}

#[test]
fn dotless_token_line() {
    assert_eq!(extract_domain("localhost"), None);
}

#[test]
fn path_token_line() {
    assert_eq!(extract_domain("example.com/ads"), None);
}

#[test]
fn surrounding_whitespace_is_trimmed() {
    assert_eq!(extract_domain("  example.com  "), Some(String::from("example.com")));
    assert_eq!(extract_domain("\t0.0.0.0 ads.example.com\r"), Some(String::from("ads.example.com")));
}

#[test]
fn accepted_domains_are_bare() {
    let lines = [
        "example.com",
        "0.0.0.0 ads.example.com",
        "||tracker.example.net^",
        "https://sub.example.org/path?x=1",
        "http://example.com:8080/x",
    ];
    for line in lines {
        if let Some(d) = extract_domain(line) {
            assert!(d.contains('.'));
            assert!(!d.contains(':'));
            assert!(!d.contains('/'));
            assert!(!d.chars().any(|c| c.is_whitespace()));
        }
    }
}
