use sysray::log_sources::{is_plain, wildcard_match_path, wildcard_prefix_of};
use sysray::wildcard::wildcard_match;

#[test]
fn wildcard_match_supports_star_and_question_mark() {
    assert!(wildcard_match(b"/var/log/*.log", b"/var/log/sys.log"));
    assert!(wildcard_match(b"/tmp/app-?.txt", b"/tmp/app-1.txt"));
    assert!(!wildcard_match(b"/tmp/app-?.txt", b"/tmp/app-10.txt"));
}

#[test]
fn wildcard_edge_cases() {
    assert!(wildcard_match(b"", b""));
    assert!(!wildcard_match(b"", b"a"));
    assert!(wildcard_match(b"***", b""));
    assert!(wildcard_match(b"*", b"anything at all"));
    assert!(wildcard_match(b"a*b*c", b"aXXbYYc"));
    assert!(!wildcard_match(b"a*b*c", b"aXXbYY"));
    assert!(wildcard_match(b"/var/*/x.log", b"/var/a/b/x.log"));
}

#[test]
fn wildcard_path_helpers() {
    assert!(is_plain("/var/log/syslog"));
    assert!(!is_plain("/var/log/*.log"));
    assert!(!is_plain("/tmp/app-?.txt"));
    assert_eq!(wildcard_prefix_of("/var/log/*.log"), "/var/log/");
    assert_eq!(wildcard_prefix_of("/tmp/app-?.txt"), "/tmp/app-");
    assert_eq!(wildcard_prefix_of("/plain"), "/plain");
    assert!(wildcard_match_path("/var/log/*.log", "/var/log/kern.log"));
    assert!(!wildcard_match_path("/var/log/*.log", "/var/log/kern.txt"));
}
