//! Authentication of the control API: an HMAC-SHA256 signature over the
//! timestamp and the raw body, fresh within five minutes; and the hex
//! tokens handed out to Web UI sessions.

use vstd::prelude::*;
use vstd::utf8::encode_utf8;
use hmac::{Hmac, Mac};
use sha2::Sha256;
use rand::RngCore;
use crate::number::{is_lower_hex_digit, lemma_lower_hex_shape, lower_hex_seq, parse_i64, parse_int_seq};
use crate::text::opt_view;
use crate::document::{json_parse, member_text, json_from_slice, string_member};
use crate::util::{constant_time_eq, is_hex64, is_hex64_bytes, now_ms};

verus! {

/// How far, in milliseconds, a signed timestamp may lie from the clock.
pub const SIGNATURE_WINDOW_MS: i64 = 300_000;

/// The HMAC-SHA256 tag of `message` under `key`.
pub uninterp spec fn hmac_sha256_tag(key: Seq<u8>, message: Seq<u8>) -> Seq<u8>;

/// Computes HMAC-SHA256 with the `hmac` and `sha2` crates:
/// `Hmac::<Sha256>::new_from_slice(key)`, `Mac::update` with `first` then
/// with `second`, and `Mac::finalize`. Claimed: the tag is the one of the
/// two parts taken together (updates stream), 32 bytes long. The key is
/// never refused: HMAC takes keys of any length.
#[verifier::external_body]
fn hmac_sha256(key: &[u8], first: &[u8], second: &[u8]) -> (r: Vec<u8>)
    ensures
        r@ == hmac_sha256_tag(key@, first@ + second@),
        r@.len() == 32,
{
    let mut mac = <Hmac<Sha256> as Mac>::new_from_slice(key).expect("HMAC accepts any key length");
    mac.update(first);
    mac.update(second);
    mac.finalize().into_bytes().to_vec()
}

/// Calls `hex::encode`, which writes each byte as two lowercase hexadecimal
/// characters, high half first.
#[verifier::external_body]
fn hex_encode(bytes: &[u8]) -> (r: String)
    ensures
        r@ == lower_hex_seq(bytes@),
{
    hex::encode(bytes)
}

/// The generator of the current thread, as `rand::rngs::ThreadRng`.
#[verifier::external_type_specification]
#[verifier::external_body]
pub struct ExThreadRng(rand::rngs::ThreadRng);

/// Calls `rand::thread_rng`; nothing is claimed of the generator. It
/// panics only when the operating system's random source cannot seed it,
/// which no argument can bring about.
#[verifier::external_body]
fn thread_rng() -> rand::rngs::ThreadRng {
    rand::thread_rng()
}

/// Calls `RngCore::fill_bytes` on the thread's generator; the bytes are
/// random, so nothing is claimed of them.
#[verifier::external_body]
fn fill_bytes(rng: &mut rand::rngs::ThreadRng, dest: &mut [u8; 32]) {
    rng.fill_bytes(dest)
}

/// A fresh token: 32 random bytes in lowercase hexadecimal, 64 characters.
pub fn random_hex32() -> (r: String)
    ensures
        exists|b: Seq<u8>| b.len() == 32 && #[trigger] lower_hex_seq(b) == r@,
        r@.len() == 64,
        forall|i: int| 0 <= i < 64 ==> is_lower_hex_digit(#[trigger] r@[i]),
{
    let mut rng = thread_rng();
    let mut bytes = [0u8; 32];
    fill_bytes(&mut rng, &mut bytes);
    let r = hex_encode(&bytes);
    proof {
        lemma_lower_hex_shape(bytes@);
    }
    r
}

/// Whether a signed timestamp `ts` is within five minutes of `now`, either
/// way; the difference is taken exactly.
pub open spec fn timestamp_fresh(now: i64, ts: i64) -> bool {
    -SIGNATURE_WINDOW_MS <= now - ts <= SIGNATURE_WINDOW_MS
}

/// The signature as the server computes it: the lowercase hexadecimal of
/// the HMAC-SHA256 tag, under the secret, of the timestamp text followed by
/// the body.
pub open spec fn expected_signature(body: Seq<char>, timestamp: Seq<char>, secret: Seq<char>) -> Seq<char> {
    lower_hex_seq(hmac_sha256_tag(encode_utf8(secret), encode_utf8(timestamp) + encode_utf8(body)))
}

/// All that a signature must meet but its freshness: both headers are
/// present, the signature is 64 hexadecimal characters, the timestamp is
/// a 64-bit integer and the signature is the expected one, byte for byte.
pub open spec fn signature_matches(
    body: Seq<char>,
    signature: Option<Seq<char>>,
    timestamp: Option<Seq<char>>,
    secret: Seq<char>,
) -> bool {
    match (signature, timestamp) {
        (Some(sig), Some(ts)) => {
            &&& is_hex64_bytes(encode_utf8(sig))
            &&& parse_int_seq(ts, true, i64::MIN as int, i64::MAX as int) is Some
            &&& encode_utf8(expected_signature(body, ts, secret)) == encode_utf8(sig)
        },
        _ => false,
    }
}

/// Whether a request is accepted at time `now`.
pub open spec fn signature_valid(
    body: Seq<char>,
    signature: Option<Seq<char>>,
    timestamp: Option<Seq<char>>,
    secret: Seq<char>,
    now: i64,
) -> bool {
    &&& signature_matches(body, signature, timestamp, secret)
    &&& match timestamp {
        Some(ts) => match parse_int_seq(ts, true, i64::MIN as int, i64::MAX as int) {
            Some(t) => timestamp_fresh(now, t as i64),
            None => false,
        },
        None => false,
    }
}

/// Verify the signature of a request at time `now` (milliseconds since the
/// epoch), given the `X-Signature` and `X-Timestamp` header values.
pub fn verify_signature_at(
    body: &str,
    signature: Option<&str>,
    timestamp: Option<&str>,
    secret: &str,
    now: i64,
) -> (r: bool)
    ensures
        r == signature_valid(body@, opt_view(signature), opt_view(timestamp), secret@, now),
{
    let sig = match signature {
        Some(s) => s,
        None => return false,
    };
    if !is_hex64(sig) {
        return false;
    }
    let ts_text = match timestamp {
        Some(t) => t,
        None => return false,
    };
    let ts = match parse_i64(ts_text) {
        Some(t) => t,
        None => return false,
    };
    let d: i128 = (now as i128) - (ts as i128);
    if d > SIGNATURE_WINDOW_MS as i128 || d < -(SIGNATURE_WINDOW_MS as i128) {
        return false;
    }
    let tag = hmac_sha256(secret.as_bytes(), ts_text.as_bytes(), body.as_bytes());
    let expected = hex_encode(tag.as_slice());
    constant_time_eq(expected.as_str().as_bytes(), sig.as_bytes())
}

/// Verify the signature of a request against the clock. An accepted
/// request always carries a signature that matches; whether the timestamp
/// was fresh depends on the clock.
pub fn verify_signature(body: &str, signature: Option<&str>, timestamp: Option<&str>, secret: &str) -> (r: bool)
    ensures
        r ==> signature_matches(body@, opt_view(signature), opt_view(timestamp), secret@),
        r ==> exists|now: i64| signature_valid(body@, opt_view(signature), opt_view(timestamp), secret@, now),
{
    let now = now_ms();
    verify_signature_at(body, signature, timestamp, secret, now)
}

/// A control command on a service.
#[derive(Clone, Copy, Debug, PartialEq, Eq, Structural)]
pub enum ControlAction {
    Start,
    Stop,
    Restart,
    ForceStop,
}

/// The command named `start`, `stop`, `restart` or `force-stop`.
pub open spec fn control_action_named(t: Seq<char>) -> Option<ControlAction> {
    if t == "start"@ {
        Some(ControlAction::Start)
    } else if t == "stop"@ {
        Some(ControlAction::Stop)
    } else if t == "restart"@ {
        Some(ControlAction::Restart)
    } else if t == "force-stop"@ {
        Some(ControlAction::ForceStop)
    } else {
        None
    }
}

/// The command named by the `type` of a control request, or by the action
/// of a Web UI path.
pub fn parse_control_action(t: Option<&str>) -> (r: Option<ControlAction>)
    ensures
        r == match t {
            Some(s) => control_action_named(s@),
            None => None,
        },
{
    match t {
        Some(s) => {
            if crate::text::str_eq(s, "start") {
                Some(ControlAction::Start)
            } else if crate::text::str_eq(s, "stop") {
                Some(ControlAction::Stop)
            } else if crate::text::str_eq(s, "restart") {
                Some(ControlAction::Restart)
            } else if crate::text::str_eq(s, "force-stop") {
                Some(ControlAction::ForceStop)
            } else {
                None
            }
        },
        None => None,
    }
}

/// The command the body of a control request asks for: `None` when the
/// body is not JSON; otherwise the command its `type` member names, if it
/// names one.
pub fn control_request(body: &[u8]) -> (r: Option<Option<ControlAction>>)
    ensures
        match r {
            Some(a) => {
                &&& json_parse(body@) is Some
                &&& a == match string_member(json_parse(body@)->0, "type"@) {
                    Some(t) => control_action_named(t),
                    None => None,
                }
            },
            None => json_parse(body@) is None,
        },
{
    let v = match json_from_slice(body) {
        Some(v) => v,
        None => return None,
    };
    let t = member_text(&v, "type");
    match &t {
        Some(s) => Some(parse_control_action(Some(s.as_str()))),
        None => Some(None),
    }
}

/// The HTTP status of a finished control command: 200 when it succeeded,
/// 500 when it failed.
pub fn outcome_status(success: bool) -> (r: u16)
    ensures
        r == (if success {
            200u16
        } else {
            500u16
        }),
{
    if success {
        200
    } else {
        500
    }
}

/// A signed timestamp is fresh exactly when it lies within 300000
/// milliseconds (five minutes) of the clock, before or after, however far
/// apart the two may be; an accepted request is fresh and carries a
/// signature that matches.
pub proof fn law_signature_window(
    body: Seq<char>,
    signature: Option<Seq<char>>,
    timestamp: Option<Seq<char>>,
    secret: Seq<char>,
    now: i64,
    ts: i64,
)
    ensures
        timestamp_fresh(now, ts) == (now - 300_000 <= ts && ts <= now + 300_000),
        timestamp_fresh(now, ts) == timestamp_fresh(ts, now),
        signature_valid(body, signature, timestamp, secret, now) ==> signature_matches(
            body,
            signature,
            timestamp,
            secret,
        ),
        !signature_matches(body, None, timestamp, secret),
        !signature_matches(body, signature, None, secret),
{
}

/// The control commands are named `start`, `stop`, `restart` and
/// `force-stop`, each naming its own command, and no other text names one.
pub proof fn law_control_names(t: Seq<char>)
    ensures
        control_action_named("start"@) == Some(ControlAction::Start),
        control_action_named("stop"@) == Some(ControlAction::Stop),
        control_action_named("restart"@) == Some(ControlAction::Restart),
        control_action_named("force-stop"@) == Some(ControlAction::ForceStop),
        control_action_named(t) is Some ==> (t == "start"@ || t == "stop"@ || t == "restart"@ || t
            == "force-stop"@),
{
    reveal_strlit("start");
    reveal_strlit("stop");
    reveal_strlit("restart");
    reveal_strlit("force-stop");
    assert("stop"@.len() != "start"@.len());
    assert("restart"@.len() != "start"@.len() && "restart"@.len() != "stop"@.len());
    assert("force-stop"@.len() != "start"@.len() && "force-stop"@.len() != "stop"@.len()
        && "force-stop"@.len() != "restart"@.len());
}

} // verus!
