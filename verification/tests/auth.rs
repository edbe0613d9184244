use rust_daemon::auth::{
    control_request, outcome_status, parse_control_action, random_hex32, verify_signature, verify_signature_at,
    ControlAction,
};

use hmac::{Hmac, Mac};

const SECRET: &str = "your-secret-key-here";
const TS: &str = "1700000000000";
const BODY: &str = "{\"type\":\"restart\"}";
const SIG_RESTART: &str = "a898072a1dd64af02a010b22edf212ec673078ea1296eb3fa5f3d8696bfac7b3";
const SIG_EMPTY: &str = "f5afe4651789419d09a69e7a64562654e3f49662a7ed03c2dd0b22200b2ab96c";

#[test]
fn signature_over_timestamp_and_body_is_accepted() {
    assert!(verify_signature_at(BODY, Some(SIG_RESTART), Some(TS), SECRET, 1_700_000_000_000));
}

#[test]
fn signature_over_empty_body_is_accepted() {
    assert!(verify_signature_at("", Some(SIG_EMPTY), Some(TS), SECRET, 1_700_000_000_000));
}

#[test]
fn signature_of_another_body_is_refused() {
    assert!(!verify_signature_at("{\"type\":\"stop\"}", Some(SIG_RESTART), Some(TS), SECRET, 1_700_000_000_000));
}

#[test]
fn signature_with_wrong_secret_is_refused() {
    assert!(!verify_signature_at(BODY, Some(SIG_RESTART), Some(TS), "other", 1_700_000_000_000));
}

#[test]
fn uppercase_signature_is_refused() {
    let upper = SIG_RESTART.to_uppercase();
    assert!(!verify_signature_at(BODY, Some(&upper), Some(TS), SECRET, 1_700_000_000_000));
}

#[test]
fn timestamp_window_is_five_minutes_both_ways() {
    let ts: i64 = 1_700_000_000_000;
    assert!(verify_signature_at(BODY, Some(SIG_RESTART), Some(TS), SECRET, ts + 300_000));
    assert!(verify_signature_at(BODY, Some(SIG_RESTART), Some(TS), SECRET, ts - 300_000));
    assert!(!verify_signature_at(BODY, Some(SIG_RESTART), Some(TS), SECRET, ts + 300_001));
    assert!(!verify_signature_at(BODY, Some(SIG_RESTART), Some(TS), SECRET, ts - 300_001));
}

#[test]
fn missing_or_malformed_headers_are_refused() {
    let now = 1_700_000_000_000;
    assert!(!verify_signature_at(BODY, None, Some(TS), SECRET, now));
    assert!(!verify_signature_at(BODY, Some(SIG_RESTART), None, SECRET, now));
    assert!(!verify_signature_at(BODY, Some("abc"), Some(TS), SECRET, now));
    assert!(!verify_signature_at(BODY, Some(SIG_RESTART), Some("17e11"), SECRET, now));
    assert!(!verify_signature_at(BODY, Some(SIG_RESTART), Some(" 1700000000000"), SECRET, now));
}

#[test]
fn stale_signature_is_refused_against_the_clock() {
    assert!(!verify_signature(BODY, Some(SIG_RESTART), Some(TS), SECRET));
}

#[test]
fn random_tokens_are_64_lowercase_hex_and_differ() {
    let a = random_hex32();
    let b = random_hex32();
    assert_eq!(a.len(), 64);
    assert!(a.chars().all(|c| c.is_ascii_digit() || ('a'..='f').contains(&c)));
    assert_ne!(a, b);
}

#[test]
fn control_actions_are_named() {
    assert_eq!(parse_control_action(Some("start")), Some(ControlAction::Start));
    assert_eq!(parse_control_action(Some("stop")), Some(ControlAction::Stop));
    assert_eq!(parse_control_action(Some("restart")), Some(ControlAction::Restart));
    assert_eq!(parse_control_action(Some("force-stop")), Some(ControlAction::ForceStop));
    assert_eq!(parse_control_action(Some("Start")), None);
    assert_eq!(parse_control_action(Some("kill")), None);
    assert_eq!(parse_control_action(None), None);
}

#[test]
fn outcome_status_codes() {
    assert_eq!(outcome_status(true), 200);
    assert_eq!(outcome_status(false), 500);
}

#[test]
fn control_bodies_are_read() {
    assert_eq!(control_request(BODY.as_bytes()), Some(Some(ControlAction::Restart)));
    assert_eq!(control_request(br#"{"type":"force-stop"}"#), Some(Some(ControlAction::ForceStop)));
    assert_eq!(control_request(br#"{"type":"reload"}"#), Some(None));
    assert_eq!(control_request(br#"{"type":1}"#), Some(None));
    assert_eq!(control_request(b"{}"), Some(None));
    assert_eq!(control_request(b"start"), None);
}

#[test]
fn tokens_are_lowercase_hex() {
    let t = random_hex32();
    assert_eq!(t.len(), 64);
    assert!(t.chars().all(|c| c.is_ascii_digit() || ('a'..='f').contains(&c)));
}

fn sign(ts: &str, body: &str) -> String {
    let mut mac = Hmac::<sha2::Sha256>::new_from_slice(SECRET.as_bytes()).unwrap();
    mac.update(ts.as_bytes());
    mac.update(body.as_bytes());
    hex::encode(mac.finalize().into_bytes())
}

#[test]
fn timestamps_far_from_the_clock_are_stale() {
    let now: i64 = 1_000;
    // 2^63 milliseconds before the clock: the difference does not fit in 64 bits.
    let far = (now as i128 + i64::MIN as i128) as i64;
    let ts = far.to_string();
    assert!(!verify_signature_at(BODY, Some(&sign(&ts, BODY)), Some(&ts), SECRET, now));
    let ts = i64::MAX.to_string();
    assert!(!verify_signature_at(BODY, Some(&sign(&ts, BODY)), Some(&ts), SECRET, i64::MIN));
    // Exactly five minutes either way is still fresh; one more millisecond is not.
    for (t, fresh) in [(now - 300_000, true), (now + 300_000, true), (now - 300_001, false), (now + 300_001, false)] {
        let ts = t.to_string();
        assert_eq!(verify_signature_at(BODY, Some(&sign(&ts, BODY)), Some(&ts), SECRET, now), fresh, "{}", t);
    }
}
