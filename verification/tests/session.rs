use rust_daemon::session::{LoginLimiter, RequestAccess, SessionStore, SESSION_DURATION_MS};

#[test]
fn five_failures_then_blocked_for_a_minute() {
    let mut l = LoginLimiter::new();
    let t0 = 1_700_000_000_000;
    for k in 0..5 {
        assert!(!l.is_blocked_at("1.2.3.4", t0 + k * 1000), "attempt {}", k + 1);
        l.record_failure_at("1.2.3.4", t0 + k * 1000);
    }
    let rec = l.record("1.2.3.4").unwrap();
    assert_eq!(rec.count, 5);
    assert_eq!(rec.first_attempt, t0);
    assert_eq!(rec.blocked_until, t0 + 4000 + 60_000);
    assert!(l.is_blocked_at("1.2.3.4", t0 + 5000));
    // Still blocked just before the end of the block.
    assert!(l.is_blocked_at("1.2.3.4", t0 + 63_999));
    // Other addresses are not affected.
    assert!(!l.is_blocked_at("5.6.7.8", t0 + 5000));
    // After the block a failure beyond the window opens a new window.
    assert!(!l.is_blocked_at("1.2.3.4", t0 + 64_000));
    l.record_failure_at("1.2.3.4", t0 + 64_000);
    let rec = l.record("1.2.3.4").unwrap();
    assert_eq!(rec.count, 1);
    assert_eq!(rec.first_attempt, t0 + 64_000);
    assert!(!l.is_blocked_at("1.2.3.4", t0 + 64_000));
}

#[test]
fn four_failures_do_not_block() {
    let mut l = LoginLimiter::new();
    for k in 0..4 {
        l.record_failure_at("ip", 10_000 + k);
    }
    assert_eq!(l.record("ip").unwrap().count, 4);
    assert_eq!(l.record("ip").unwrap().blocked_until, 0);
    assert!(!l.is_blocked_at("ip", 10_004));
}

#[test]
fn window_resets_after_a_minute() {
    let mut l = LoginLimiter::new();
    let t0 = 1_000_000;
    for k in 0..4 {
        l.record_failure_at("ip", t0 + k);
    }
    // One block duration after the first failure is still the same window.
    l.record_failure_at("other", t0);
    l.record_failure_at("other", t0 + 60_000);
    assert_eq!(l.record("other").unwrap().count, 2);
    // One millisecond later a new window opens, so a fifth failure does not block.
    l.record_failure_at("ip", t0 + 60_001);
    assert_eq!(l.record("ip").unwrap().count, 1);
    assert!(!l.is_blocked_at("ip", t0 + 60_001));
}

#[test]
fn block_end_stops_at_the_largest_time() {
    let mut l = LoginLimiter::new();
    for _ in 0..5 {
        l.record_failure_at("ip", i64::MAX - 10);
    }
    assert_eq!(l.record("ip").unwrap().blocked_until, i64::MAX);
}

#[test]
fn stale_login_records_are_dropped() {
    let mut l = LoginLimiter::new();
    l.record_failure_at("old", 0);
    l.record_failure_at("new", 100_000);
    l.cleanup(120_001);
    assert!(l.record("old").is_none());
    assert!(l.record("new").is_some());
}

#[test]
fn session_lifetime_and_csrf() {
    let mut s = SessionStore::new();
    let now = 1_700_000_000_000;
    let (sid, csrf) = s.create_session_at(now);
    assert_eq!(sid.len(), 64);
    assert_eq!(csrf.len(), 64);
    assert_ne!(sid, csrf);
    let header = format!("session-id={}; csrf-token={}", sid, csrf);
    assert_eq!(s.require_auth_at(Some(&header), now + SESSION_DURATION_MS), Some(sid.clone()));
    assert!(s.verify_csrf(Some(&header), Some(&csrf), &sid));
    assert!(!s.verify_csrf(Some(&header), None, &sid));
    assert!(!s.verify_csrf(Some(&header), Some(&sid), &sid));
    let only_session = format!("session-id={}", sid);
    assert!(!s.verify_csrf(Some(&only_session), Some(&csrf), &sid));
    // Expired one millisecond later, and dropped with its token.
    assert_eq!(s.require_auth_at(Some(&header), now + SESSION_DURATION_MS + 1), None);
    assert!(!s.verify_csrf(Some(&header), Some(&csrf), &sid));
    assert!(!s.get_session_at(&sid, now));
}

#[test]
fn missing_cookie_is_not_authenticated() {
    let mut s = SessionStore::new();
    let (_sid, _csrf) = s.create_session_at(0);
    assert_eq!(s.require_auth_at(None, 0), None);
    assert_eq!(s.require_auth_at(Some("session-id=unknown"), 0), None);
}

#[test]
fn logout_and_cleanup() {
    let mut s = SessionStore::new();
    let (a, _) = s.create_session_at(0);
    let (b, tb) = s.create_session_at(SESSION_DURATION_MS);
    s.logout(&a);
    assert!(!s.get_session_at(&a, 0));
    s.cleanup(SESSION_DURATION_MS + 1);
    assert!(s.get_session_at(&b, SESSION_DURATION_MS + 1));
    let header = format!("csrf-token={}", tb);
    assert!(s.verify_csrf(Some(&header), Some(&tb), &b));
}

#[test]
fn clock_reading_variants() {
    let mut s = SessionStore::new();
    let (sid, csrf) = s.create_session();
    assert!(s.get_session(&sid));
    let header = format!("session-id={}; csrf-token={}", sid, csrf);
    assert_eq!(s.require_auth(Some(&header)), Some(sid.clone()));
    assert!(s.verify_csrf(Some(&header), Some(&csrf), &sid));
}

#[test]
fn session_expiry_stops_at_the_largest_time() {
    let mut s = SessionStore::new();
    let (sid, _) = s.create_session_at(i64::MAX - 5);
    assert!(s.get_session_at(&sid, i64::MAX));
}

#[test]
fn requests_check_the_session_then_the_csrf_token() {
    let mut s = SessionStore::new();
    let now = 1_700_000_000_000;
    let (sid, csrf) = s.create_session_at(now);
    let header = format!("session-id={}; csrf-token={}", sid, csrf);
    match s.authorize_at(Some(&header), Some(&csrf), now) {
        RequestAccess::Granted(got) => assert_eq!(got, sid),
        _ => panic!("both checks pass"),
    }
    assert!(matches!(s.authorize_at(Some(&header), None, now), RequestAccess::BadCsrf));
    assert!(matches!(s.authorize_at(Some(&header), Some(&sid), now), RequestAccess::BadCsrf));
    let no_cookie_token = format!("session-id={}", sid);
    assert!(matches!(s.authorize_at(Some(&no_cookie_token), Some(&csrf), now), RequestAccess::BadCsrf));
    // Without a session the CSRF token is not even looked at.
    assert!(matches!(s.authorize_at(Some("csrf-token=x"), Some("x"), now), RequestAccess::NotAuthenticated));
    assert!(matches!(s.authorize_at(None, Some(&csrf), now), RequestAccess::NotAuthenticated));
    // An expired session is refused and dropped.
    assert!(matches!(
        s.authorize_at(Some(&header), Some(&csrf), now + SESSION_DURATION_MS + 1),
        RequestAccess::NotAuthenticated
    ));
    assert!(!s.get_session_at(&sid, now));
    let mut c = SessionStore::new();
    let (sid2, csrf2) = c.create_session();
    let h2 = format!("session-id={}; csrf-token={}", sid2, csrf2);
    assert!(matches!(c.authorize(Some(&h2), Some(&csrf2)), RequestAccess::Granted(_)));
}
