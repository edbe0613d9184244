use rust_daemon::util::{constant_time_eq, is_hex64, millis_since_epoch, mime_for_ext, now_ms, parse_cookies};

#[test]
fn constant_time_comparison() {
    assert!(constant_time_eq(b"abc", b"abc"));
    assert!(!constant_time_eq(b"abc", b"abd"));
    assert!(!constant_time_eq(b"abc", b"ab"));
    assert!(constant_time_eq(b"", b""));
}

#[test]
fn hex64_shape() {
    let ok = "0123456789abcdefABCDEF0123456789abcdef0123456789abcdef0123456789";
    assert_eq!(ok.len(), 64);
    assert!(is_hex64(ok));
    assert!(!is_hex64(&ok[..63]));
    assert!(!is_hex64(&format!("{}0", ok)));
    let bad = ok.replace('0', "g");
    assert!(!is_hex64(&bad));
}

#[test]
fn mime_types() {
    assert_eq!(mime_for_ext(".html"), "text/html; charset=utf-8");
    assert_eq!(mime_for_ext(".css"), "text/css; charset=utf-8");
    assert_eq!(mime_for_ext(".js"), "application/javascript; charset=utf-8");
    assert_eq!(mime_for_ext(".json"), "application/json");
    assert_eq!(mime_for_ext(".png"), "image/png");
    assert_eq!(mime_for_ext(".jpg"), "image/jpeg");
    assert_eq!(mime_for_ext(".jpeg"), "image/jpeg");
    assert_eq!(mime_for_ext(".gif"), "image/gif");
    assert_eq!(mime_for_ext(".svg"), "image/svg+xml");
    assert_eq!(mime_for_ext(".ico"), "image/x-icon");
    assert_eq!(mime_for_ext(".woff"), "font/woff");
    assert_eq!(mime_for_ext(".woff2"), "font/woff2");
    assert_eq!(mime_for_ext(".HTML"), "application/octet-stream");
    assert_eq!(mime_for_ext(""), "application/octet-stream");
}

#[test]
fn cookie_parsing() {
    let c = parse_cookies(Some("a=1; b=2"));
    assert_eq!(c.get("a").map(|s| s.as_str()), Some("1"));
    assert_eq!(c.get("b").map(|s| s.as_str()), Some("2"));
    let c = parse_cookies(Some(" session-id = x=y ;junk; a=1; a=3;"));
    assert_eq!(c.get("session-id").map(|s| s.as_str()), Some("x=y"));
    assert_eq!(c.get("a").map(|s| s.as_str()), Some("3"));
    assert!(!c.contains_key("junk"));
    let c = parse_cookies(None);
    assert!(!c.contains_key("a"));
    let c = parse_cookies(Some("=v"));
    assert_eq!(c.get("").map(|s| s.as_str()), Some("v"));
}

#[test]
fn clock_is_after_2020() {
    assert!(now_ms() > 1_577_836_800_000);
}

#[test]
fn clock_readings_to_timestamps() {
    assert_eq!(millis_since_epoch(Some(1_700_000_000_123)), 1_700_000_000_123);
    assert_eq!(millis_since_epoch(None), 0);
    assert_eq!(millis_since_epoch(Some(u128::from(u64::MAX) + 6)), 5);
    assert_eq!(millis_since_epoch(Some(1u128 << 63)), i64::MIN);
}
