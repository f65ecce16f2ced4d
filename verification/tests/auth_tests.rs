use openkakao_cli::auth::{
    format_remaining, format_simple_remaining, loco_login_succeeded, token_prefix, CacheWatch,
};

#[test]
fn simple_remaining_formats() {
    assert_eq!(format_simple_remaining(Some(42)), "42s");
    assert_eq!(format_simple_remaining(Some(0)), "0s");
    assert_eq!(format_simple_remaining(None), "now");
}

#[test]
fn remaining_formats() {
    assert_eq!(format_remaining(Some(30), Some("2026-07-01T00:00:00Z")), "30s (until 2026-07-01T00:00:00Z)");
    assert_eq!(format_remaining(Some(30), None), "30s");
    assert_eq!(format_remaining(None, Some("later")), "none");
    assert_eq!(format_remaining(None, None), "none");
}

#[test]
fn token_prefix_is_eight_chars() {
    assert_eq!(token_prefix("abcdefghijkl"), "abcdefgh");
    assert_eq!(token_prefix("abc"), "abc");
    assert_eq!(token_prefix("가나다라마바사아자차"), "가나다라마바사아");
}

#[test]
fn cache_watch_reports_each_new_token_once() {
    let mut w = CacheWatch::new(Some("r1".to_string()), None);
    let round = w.observe(Some("r1".to_string()), Some("o1".to_string()));
    assert!(round.new_refresh_token.is_none());
    assert_eq!(round.new_oauth_token.as_deref(), Some("o1"));
    let round = w.observe(Some("r2".to_string()), Some("o1".to_string()));
    assert_eq!(round.new_refresh_token.as_deref(), Some("r2"));
    assert!(round.new_oauth_token.is_none());
    let round = w.observe(Some("r2".to_string()), None);
    assert!(round.new_refresh_token.is_none() && round.new_oauth_token.is_none());
    assert_eq!(w.last_refresh_token, "r2");
    assert_eq!(w.last_oauth_token, "o1");
}

#[test]
fn loco_login_verdict() {
    assert!(loco_login_succeeded(0, 12345));
    assert!(!loco_login_succeeded(0, 0));
    assert!(!loco_login_succeeded(-950, 12345));
}
