//! Web UI sessions with their CSRF tokens, and the rate limit on logins.
//! Times are milliseconds since the epoch; their differences are taken
//! exactly, and a time moved later stops at `i64::MAX`.

use vstd::prelude::*;
use crate::text::opt_view;
use vstd::utf8::encode_utf8;
use crate::auth::random_hex32;
use crate::name_map::NameMap;
use crate::number::is_hex_digit;
use crate::util::{constant_time_eq, cookies_in, now_ms, parse_cookies, string_values};

verus! {

/// How long a session lasts: 24 hours.
pub const SESSION_DURATION_MS: i64 = 86_400_000;

/// How often expired sessions and stale login records are dropped: 1 hour.
pub const CLEANUP_INTERVAL_MS: u64 = 3_600_000;

/// Failed logins from one address within a window that block it.
pub const MAX_LOGIN_ATTEMPTS: u32 = 5;

/// The window of the login count, and how long an address stays blocked.
pub const LOGIN_BLOCK_DURATION_MS: i64 = 60_000;

/// The largest login request body accepted, in bytes.
pub const LOGIN_BODY_LIMIT: usize = 4096;

/// The failed logins of one address: how many in the current window, when
/// the window began, and until when the address is blocked.
#[derive(Clone, Copy, Debug, PartialEq, Eq, Structural)]
pub struct LoginRecord {
    pub count: u32,
    pub first_attempt: i64,
    pub blocked_until: i64,
}

/// `t` moved `d` milliseconds later, stopping at `i64::MAX`.
pub open spec fn later(t: i64, d: i64) -> i64 {
    if t + d > i64::MAX {
        i64::MAX
    } else {
        (t + d) as i64
    }
}

/// `t` moved `d` milliseconds later, stopping at `i64::MAX`.
fn later_time(t: i64, d: i64) -> (r: i64)
    requires
        d >= 0,
    ensures
        r == later(t, d),
{
    if t > i64::MAX - d {
        i64::MAX
    } else {
        t + d
    }
}

/// Whether an address whose record is `rec` is blocked at `now`.
pub open spec fn login_blocked(rec: Option<LoginRecord>, now: i64) -> bool {
    match rec {
        Some(r) => now < r.blocked_until,
        None => false,
    }
}

/// The record of an address after a failed login at `now`. A failure more
/// than one block duration after the first failure of the window opens a
/// new window; the failure that brings the count of the window to five
/// blocks the address for one block duration.
pub open spec fn after_failed_login(rec: Option<LoginRecord>, now: i64) -> LoginRecord {
    let same_window = rec is Some && now - rec->0.first_attempt <= LOGIN_BLOCK_DURATION_MS;
    let count: u32 = if same_window {
        rec->0.count.saturating_add(1)
    } else {
        1
    };
    let first_attempt = if same_window {
        rec->0.first_attempt
    } else {
        now
    };
    let previous_block = match rec {
        Some(r) => r.blocked_until,
        None => 0,
    };
    LoginRecord {
        count,
        first_attempt,
        blocked_until: if count >= MAX_LOGIN_ATTEMPTS {
            later(now, LOGIN_BLOCK_DURATION_MS)
        } else {
            previous_block
        },
    }
}

/// The record of `ip` in a map of records, if any.
pub open spec fn record_of(m: Map<Seq<char>, LoginRecord>, ip: Seq<char>) -> Option<LoginRecord> {
    if m.contains_key(ip) {
        Some(m[ip])
    } else {
        None
    }
}

/// Whether a login record is still kept at `now`: its window began at most
/// two block durations ago.
pub open spec fn record_kept(r: LoginRecord, now: i64) -> bool {
    now - r.first_attempt <= 2 * LOGIN_BLOCK_DURATION_MS
}

/// The records of failed logins, by address.
pub struct LoginLimiter {
    attempts: NameMap<LoginRecord>,
}

impl View for LoginLimiter {
    type V = Map<Seq<char>, LoginRecord>;

    closed spec fn view(&self) -> Map<Seq<char>, LoginRecord> {
        self.attempts.view()
    }
}

impl LoginLimiter {
    /// No failures recorded.
    pub fn new() -> (r: Self)
        ensures
            r@ == Map::<Seq<char>, LoginRecord>::empty(),
    {
        LoginLimiter { attempts: NameMap::new() }
    }

    /// The record of `ip`, if any.
    pub fn record(&self, ip: &str) -> (r: Option<LoginRecord>)
        ensures
            r == record_of(self@, ip@),
    {
        match self.attempts.get(ip) {
            Some(rec) => Some(*rec),
            None => None,
        }
    }

    /// Whether `ip` is blocked at `now`.
    pub fn is_blocked_at(&self, ip: &str, now: i64) -> (r: bool)
        ensures
            r == login_blocked(record_of(self@, ip@), now),
    {
        match self.attempts.get(ip) {
            Some(rec) => now < rec.blocked_until,
            None => false,
        }
    }

    /// Record a failed login from `ip` at `now`.
    pub fn record_failure_at(&mut self, ip: &str, now: i64)
        ensures
            final(self)@ == old(self)@.insert(ip@, after_failed_login(record_of(old(self)@, ip@), now)),
    {
        let rec = self.record(ip);
        let (count, first_attempt, previous_block) = match rec {
            Some(r) => {
                if (now as i128) - (r.first_attempt as i128) <= LOGIN_BLOCK_DURATION_MS as i128 {
                    (r.count.saturating_add(1), r.first_attempt, r.blocked_until)
                } else {
                    (1u32, now, r.blocked_until)
                }
            },
            None => (1u32, now, 0i64),
        };
        let blocked_until = if count >= MAX_LOGIN_ATTEMPTS {
            later_time(now, LOGIN_BLOCK_DURATION_MS)
        } else {
            previous_block
        };
        let next = LoginRecord { count, first_attempt, blocked_until };
        assert(next == after_failed_login(record_of(old(self)@, ip@), now));
        self.attempts.insert(crate::text::owned(ip), next);
    }

    /// Drop the records whose window began more than two block durations
    /// before `now`.
    pub fn cleanup(&mut self, now: i64)
        ensures
            final(self)@ == old(self)@.restrict(
                old(self)@.dom().filter(|k: Seq<char>| record_kept(old(self)@[k], now)),
            ),
    {
        let ghost start = self@;
        let keys = self.attempts.keys();
        let mut i: usize = 0;
        while i < keys.len()
            invariant
                i <= keys@.len(),
                forall|j: int| 0 <= j < keys@.len() ==> start.contains_key(#[trigger] keys@[j]@),
                forall|k: Seq<char>| start.contains_key(k) ==> exists|j: int| 0 <= j < keys@.len() && #[trigger] keys@[j]@ == k,
                forall|k: Seq<char>|
                    #[trigger] self@.contains_key(k) == (start.contains_key(k) && (record_kept(start[k], now)
                        || !(exists|j: int| 0 <= j < i && keys@[j]@ == k))),
                forall|k: Seq<char>| #[trigger] self@.contains_key(k) ==> self@[k] == start[k],
            decreases keys@.len() - i,
        {
            let ghost before = self@;
            let k = &keys[i];
            let keep = match self.attempts.get(k.as_str()) {
                Some(rec) => (now as i128) - (rec.first_attempt as i128) <= 2 * LOGIN_BLOCK_DURATION_MS as i128,
                None => true,
            };
            if !keep {
                self.attempts.remove(k.as_str());
            }
            proof {
                assert forall|kk: Seq<char>|
                    #[trigger] self@.contains_key(kk) == (start.contains_key(kk) && (record_kept(start[kk], now)
                        || !(exists|j: int| 0 <= j < i + 1 && keys@[j]@ == kk))) by {
                    if kk == keys@[i as int]@ {
                        assert(exists|j: int| 0 <= j < i + 1 && keys@[j]@ == kk);
                    } else {
                        if exists|j: int| 0 <= j < i + 1 && keys@[j]@ == kk {
                            let j = choose|j: int| 0 <= j < i + 1 && keys@[j]@ == kk;
                            assert(j < i);
                        }
                    }
                }
            }
            i = i + 1;
        }
        proof {
            let target = start.restrict(start.dom().filter(|k: Seq<char>| record_kept(start[k], now)));
            assert forall|k: Seq<char>| #[trigger] self@.contains_key(k) == target.contains_key(k) by {
                if start.contains_key(k) {
                    let j = choose|j: int| 0 <= j < keys@.len() && #[trigger] keys@[j]@ == k;
                    assert(exists|j: int| 0 <= j < i && keys@[j]@ == k);
                }
            }
            assert(self@ =~= target);
        }
    }
}

/// The sessions and the CSRF token issued with each.
pub struct SessionsView {
    /// When each session expires.
    pub sessions: Map<Seq<char>, i64>,
    /// The CSRF token of each session.
    pub csrf_tokens: Map<Seq<char>, Seq<char>>,
}

/// Whether `t` is 64 lowercase or uppercase hexadecimal characters.
pub open spec fn is_token(t: Seq<char>) -> bool {
    t.len() == 64 && forall|i: int| 0 <= i < 64 ==> is_hex_digit(#[trigger] t[i])
}

/// Whether session `sid` is valid at `now`: it exists and has not expired.
pub open spec fn session_valid(v: SessionsView, sid: Seq<char>, now: i64) -> bool {
    v.sessions.contains_key(sid) && now <= v.sessions[sid]
}

/// A session lookup at `now`: an expired session is dropped with its token.
pub open spec fn after_lookup(v: SessionsView, sid: Seq<char>, now: i64) -> SessionsView {
    if v.sessions.contains_key(sid) && now > v.sessions[sid] {
        SessionsView { sessions: v.sessions.remove(sid), csrf_tokens: v.csrf_tokens.remove(sid) }
    } else {
        v
    }
}

/// The session the cookie header names, if it is valid at `now`.
pub open spec fn authenticated(v: SessionsView, cookie_header: Option<Seq<char>>, now: i64) -> Option<Seq<char>> {
    let cookies = cookies_in(cookie_header);
    if cookies.contains_key("session-id"@) && session_valid(v, cookies["session-id"@], now) {
        Some(cookies["session-id"@])
    } else {
        None
    }
}

/// The state after authenticating with a cookie header.
pub open spec fn after_auth(v: SessionsView, cookie_header: Option<Seq<char>>, now: i64) -> SessionsView {
    let cookies = cookies_in(cookie_header);
    if cookies.contains_key("session-id"@) {
        after_lookup(v, cookies["session-id"@], now)
    } else {
        v
    }
}

/// Whether the `csrf-token` cookie and the `X-CSRF-Token` header both equal,
/// byte for byte, the token issued with session `sid`.
pub open spec fn csrf_valid(
    v: SessionsView,
    cookie_header: Option<Seq<char>>,
    header_token: Option<Seq<char>>,
    sid: Seq<char>,
) -> bool {
    let cookies = cookies_in(cookie_header);
    &&& cookies.contains_key("csrf-token"@)
    &&& header_token is Some
    &&& v.csrf_tokens.contains_key(sid)
    &&& encode_utf8(v.csrf_tokens[sid]) == encode_utf8(header_token->0)
    &&& encode_utf8(v.csrf_tokens[sid]) == encode_utf8(cookies["csrf-token"@])
}

/// How a Web UI API request passes the session and CSRF checks, which every
/// such request but the login passes before anything else is done.
pub enum RequestAccess {
    /// No valid session: `401`.
    NotAuthenticated,
    /// The session is valid but the CSRF cookie or header does not match
    /// its token: `403`.
    BadCsrf,
    /// Both checks passed, for this session.
    Granted(String),
}

/// The answer to the session and CSRF checks of a request at `now` with a
/// `Cookie` header and an `X-CSRF-Token` header, in the state `w` after the
/// session lookup.
pub open spec fn access_granted(
    v: SessionsView,
    w: SessionsView,
    cookie_header: Option<Seq<char>>,
    csrf_header: Option<Seq<char>>,
    now: i64,
    r: RequestAccess,
) -> bool {
    match r {
        RequestAccess::NotAuthenticated => authenticated(v, cookie_header, now) is None,
        RequestAccess::BadCsrf => {
            &&& authenticated(v, cookie_header, now) is Some
            &&& !csrf_valid(w, cookie_header, csrf_header, authenticated(v, cookie_header, now)->0)
        },
        RequestAccess::Granted(sid) => {
            &&& authenticated(v, cookie_header, now) == Some(sid@)
            &&& csrf_valid(w, cookie_header, csrf_header, sid@)
        },
    }
}

/// The Web UI sessions.
pub struct SessionStore {
    sessions: NameMap<i64>,
    csrf_tokens: NameMap<String>,
}

impl View for SessionStore {
    type V = SessionsView;

    closed spec fn view(&self) -> SessionsView {
        SessionsView { sessions: self.sessions.view(), csrf_tokens: string_values(self.csrf_tokens.view()) }
    }
}

impl SessionStore {
    /// No sessions.
    pub fn new() -> (r: Self)
        ensures
            r@.sessions == Map::<Seq<char>, i64>::empty(),
            r@.csrf_tokens == Map::<Seq<char>, Seq<char>>::empty(),
    {
        let r = SessionStore { sessions: NameMap::new(), csrf_tokens: NameMap::new() };
        assert(r@.csrf_tokens =~= Map::<Seq<char>, Seq<char>>::empty());
        r
    }

    /// Open a session at `now`, lasting one session duration; the answer is
    /// the fresh session id and CSRF token, both random 64-character
    /// hexadecimal tokens.
    pub fn create_session_at(&mut self, now: i64) -> (r: (String, String))
        ensures
            is_token(r.0@),
            is_token(r.1@),
            final(self)@.sessions == old(self)@.sessions.insert(r.0@, later(now, SESSION_DURATION_MS)),
            final(self)@.csrf_tokens == old(self)@.csrf_tokens.insert(r.0@, r.1@),
    {
        let session_id = random_hex32();
        let csrf_token = random_hex32();
        let ghost sv = session_id@;
        let ghost cv = csrf_token@;
        let ghost before = self@;
        self.sessions.insert(session_id.clone(), later_time(now, SESSION_DURATION_MS));
        self.csrf_tokens.insert(session_id.clone(), csrf_token.clone());
        assert(self@.csrf_tokens =~= before.csrf_tokens.insert(sv, cv));
        (session_id, csrf_token)
    }

    /// Whether session `sid` is valid at `now`; an expired session is
    /// dropped together with its token.
    pub fn get_session_at(&mut self, sid: &str, now: i64) -> (r: bool)
        ensures
            r == session_valid(old(self)@, sid@, now),
            final(self)@ == after_lookup(old(self)@, sid@, now),
    {
        let expires_at = match self.sessions.get(sid) {
            Some(e) => *e,
            None => return false,
        };
        if now > expires_at {
            let ghost before = self@;
            self.sessions.remove(sid);
            self.csrf_tokens.remove(sid);
            assert(self@.csrf_tokens =~= before.csrf_tokens.remove(sid@));
            return false;
        }
        true
    }

    /// The session named by the `session-id` cookie of a `Cookie` header,
    /// when it is valid at `now`.
    pub fn require_auth_at(&mut self, cookie_header: Option<&str>, now: i64) -> (r: Option<String>)
        ensures
            ({
                let h = opt_view(cookie_header);
                &&& match r {
                    Some(sid) => authenticated(old(self)@, h, now) == Some(sid@),
                    None => authenticated(old(self)@, h, now) is None,
                }
                &&& final(self)@ == after_auth(old(self)@, h, now)
            }),
    {
        let cookies = parse_cookies(cookie_header);
        proof {
            reveal_strlit("session-id");
        }
        let sid = match cookies.get("session-id") {
            Some(s) => s.clone(),
            None => return None,
        };
        if !self.get_session_at(sid.as_str(), now) {
            return None;
        }
        Some(sid)
    }

    /// Open a session now, by the clock, lasting one session duration; the
    /// answer is the fresh session id and CSRF token.
    pub fn create_session(&mut self) -> (r: (String, String))
        ensures
            is_token(r.0@),
            is_token(r.1@),
            exists|now: i64| final(self)@.sessions == old(self)@.sessions.insert(r.0@, #[trigger] later(now, SESSION_DURATION_MS)),
            final(self)@.csrf_tokens == old(self)@.csrf_tokens.insert(r.0@, r.1@),
    {
        let now = now_ms();
        let r = self.create_session_at(now);
        assert(self@.sessions == old(self)@.sessions.insert(r.0@, later(now, SESSION_DURATION_MS)));
        r
    }

    /// Whether session `sid` is valid now, by the clock; an expired session
    /// is dropped together with its token.
    pub fn get_session(&mut self, sid: &str) -> (r: bool)
        ensures
            exists|now: i64| #[trigger] session_valid(old(self)@, sid@, now) == r && final(self)@ == after_lookup(old(self)@, sid@, now),
    {
        let now = now_ms();
        let r = self.get_session_at(sid, now);
        assert(session_valid(old(self)@, sid@, now) == r && self@ == after_lookup(old(self)@, sid@, now));
        r
    }

    /// The session named by the `session-id` cookie of a `Cookie` header,
    /// when it is valid now, by the clock.
    pub fn require_auth(&mut self, cookie_header: Option<&str>) -> (r: Option<String>)
        ensures
            exists|now: i64| {
                &&& match r {
                    Some(sid) => #[trigger] authenticated(old(self)@, opt_view(cookie_header), now) == Some(sid@),
                    None => authenticated(old(self)@, opt_view(cookie_header), now) is None,
                }
                &&& final(self)@ == after_auth(old(self)@, opt_view(cookie_header), now)
            },
    {
        let now = now_ms();
        let r = self.require_auth_at(cookie_header, now);
        assert(match r {
            Some(sid) => authenticated(old(self)@, opt_view(cookie_header), now) == Some(sid@),
            None => authenticated(old(self)@, opt_view(cookie_header), now) is None,
        });
        r
    }

    /// Check a request at `now`: first its session, named by the
    /// `session-id` cookie of the `Cookie` header, then its CSRF token, which
    /// the `csrf-token` cookie and the `X-CSRF-Token` header must both hold.
    pub fn authorize_at(&mut self, cookie_header: Option<&str>, csrf_header: Option<&str>, now: i64) -> (r:
        RequestAccess)
        ensures
            final(self)@ == after_auth(old(self)@, opt_view(cookie_header), now),
            access_granted(old(self)@, final(self)@, opt_view(cookie_header), opt_view(csrf_header), now, r),
    {
        let sid = match self.require_auth_at(cookie_header, now) {
            Some(s) => s,
            None => return RequestAccess::NotAuthenticated,
        };
        if !self.verify_csrf(cookie_header, csrf_header, sid.as_str()) {
            return RequestAccess::BadCsrf;
        }
        RequestAccess::Granted(sid)
    }

    /// Check a request now, by the clock, as `authorize_at` does.
    pub fn authorize(&mut self, cookie_header: Option<&str>, csrf_header: Option<&str>) -> (r: RequestAccess)
        ensures
            exists|now: i64|
                #[trigger] access_granted(
                    old(self)@,
                    final(self)@,
                    opt_view(cookie_header),
                    opt_view(csrf_header),
                    now,
                    r,
                ) && final(self)@ == after_auth(old(self)@, opt_view(cookie_header), now),
    {
        let now = now_ms();
        let r = self.authorize_at(cookie_header, csrf_header, now);
        assert(access_granted(old(self)@, self@, opt_view(cookie_header), opt_view(csrf_header), now, r));
        r
    }

    /// Whether the `csrf-token` cookie and the `X-CSRF-Token` header both
    /// match the token issued with session `sid`.
    pub fn verify_csrf(&self, cookie_header: Option<&str>, header_token: Option<&str>, sid: &str) -> (r: bool)
        ensures
            r == csrf_valid(
                self@,
                opt_view(cookie_header),
                opt_view(header_token),
                sid@,
            ),
    {
        let cookies = parse_cookies(cookie_header);
        let cookie_token = match cookies.get("csrf-token") {
            Some(t) => t,
            None => return false,
        };
        let header_token = match header_token {
            Some(t) => t,
            None => return false,
        };
        let stored = match self.csrf_tokens.get(sid) {
            Some(t) => t,
            None => return false,
        };
        constant_time_eq(stored.as_str().as_bytes(), header_token.as_bytes()) && constant_time_eq(
            stored.as_str().as_bytes(),
            cookie_token.as_str().as_bytes(),
        )
    }

    /// End session `sid` and forget its token.
    pub fn logout(&mut self, sid: &str)
        ensures
            final(self)@.sessions == old(self)@.sessions.remove(sid@),
            final(self)@.csrf_tokens == old(self)@.csrf_tokens.remove(sid@),
    {
        let ghost before = self@;
        self.sessions.remove(sid);
        self.csrf_tokens.remove(sid);
        assert(self@.csrf_tokens =~= before.csrf_tokens.remove(sid@));
    }

    /// Drop the sessions that expired by `now` (their tokens stay, unused).
    pub fn cleanup(&mut self, now: i64)
        ensures
            final(self)@.sessions == old(self)@.sessions.restrict(
                old(self)@.sessions.dom().filter(|k: Seq<char>| old(self)@.sessions[k] > now),
            ),
            final(self)@.csrf_tokens == old(self)@.csrf_tokens,
    {
        let ghost start = self@.sessions;
        let mut sessions: NameMap<i64> = NameMap::new();
        std::mem::swap(&mut sessions, &mut self.sessions);
        let keys = sessions.keys();
        let mut i: usize = 0;
        while i < keys.len()
            invariant
                start == old(self)@.sessions,
                i <= keys@.len(),
                forall|j: int| 0 <= j < keys@.len() ==> start.contains_key(#[trigger] keys@[j]@),
                forall|k: Seq<char>| start.contains_key(k) ==> exists|j: int| 0 <= j < keys@.len() && #[trigger] keys@[j]@ == k,
                forall|k: Seq<char>|
                    #[trigger] sessions.view().contains_key(k) == (start.contains_key(k) && (start[k] > now
                        || !(exists|j: int| 0 <= j < i && keys@[j]@ == k))),
                forall|k: Seq<char>| #[trigger] sessions.view().contains_key(k) ==> sessions.view()[k] == start[k],
            decreases keys@.len() - i,
        {
            let k = &keys[i];
            let keep = match sessions.get(k.as_str()) {
                Some(e) => *e > now,
                None => true,
            };
            if !keep {
                sessions.remove(k.as_str());
            }
            proof {
                assert forall|kk: Seq<char>|
                    #[trigger] sessions.view().contains_key(kk) == (start.contains_key(kk) && (start[kk] > now
                        || !(exists|j: int| 0 <= j < i + 1 && keys@[j]@ == kk))) by {
                    if kk == keys@[i as int]@ {
                        assert(exists|j: int| 0 <= j < i + 1 && keys@[j]@ == kk);
                    } else {
                        if exists|j: int| 0 <= j < i + 1 && keys@[j]@ == kk {
                            let j = choose|j: int| 0 <= j < i + 1 && keys@[j]@ == kk;
                            assert(j < i);
                        }
                    }
                }
            }
            i = i + 1;
        }
        self.sessions = sessions;
        proof {
            let target = start.restrict(start.dom().filter(|k: Seq<char>| start[k] > now));
            assert forall|k: Seq<char>| #[trigger] self@.sessions.contains_key(k) == target.contains_key(k) by {
                if start.contains_key(k) {
                    let j = choose|j: int| 0 <= j < keys@.len() && #[trigger] keys@[j]@ == k;
                    assert(exists|j: int| 0 <= j < i && keys@[j]@ == k);
                }
            }
            assert(self@.sessions =~= target);
        }
    }
}

/// The answers to login attempts at the times `ts`, in order, from an
/// address whose record so far is `rec`, when every attempt that is let
/// through to the credential check fails it: `true` for an attempt let
/// through, `false` for one refused because the address is blocked.
pub open spec fn failed_attempt_answers(rec: Option<LoginRecord>, ts: Seq<i64>) -> Seq<bool>
    decreases ts.len(),
{
    if ts.len() == 0 {
        Seq::<bool>::empty()
    } else {
        let through = !login_blocked(rec, ts[0]);
        let next = if through {
            Some(after_failed_login(rec, ts[0]))
        } else {
            rec
        };
        seq![through] + failed_attempt_answers(next, ts.drop_first())
    }
}

/// From an address with no record, five failed logins (at times not before
/// the epoch) within one block duration of the first are all let through to
/// the credential check, and an attempt less than one block duration after
/// the fifth is refused.
pub proof fn law_sixth_attempt_refused(ts: Seq<i64>)
    requires
        ts.len() == 6,
        0 <= ts[0],
        forall|i: int, j: int| 0 <= i <= j < 6 ==> ts[i] <= ts[j],
        ts[4] - ts[0] <= LOGIN_BLOCK_DURATION_MS,
        ts[5] - ts[4] < LOGIN_BLOCK_DURATION_MS,
        ts[4] + LOGIN_BLOCK_DURATION_MS <= i64::MAX,
    ensures
        failed_attempt_answers(None, ts) == seq![true, true, true, true, true, false],
{
    let r0 = after_failed_login(None, ts[0]);
    assert(r0.count == 1 && r0.first_attempt == ts[0] && r0.blocked_until == 0);
    let r1 = after_failed_login(Some(r0), ts[1]);
    assert(r1.count == 2 && r1.first_attempt == ts[0] && r1.blocked_until == 0);
    let r2 = after_failed_login(Some(r1), ts[2]);
    assert(r2.count == 3 && r2.first_attempt == ts[0] && r2.blocked_until == 0);
    let r3 = after_failed_login(Some(r2), ts[3]);
    assert(r3.count == 4 && r3.first_attempt == ts[0] && r3.blocked_until == 0);
    let r4 = after_failed_login(Some(r3), ts[4]);
    assert(r4.count == 5 && r4.blocked_until == later(ts[4], LOGIN_BLOCK_DURATION_MS));
    assert(login_blocked(Some(r4), ts[5]));
    let t5 = ts.drop_first().drop_first().drop_first().drop_first().drop_first();
    assert(failed_attempt_answers(Some(r4), t5.drop_first()) =~= Seq::<bool>::empty());
    assert(failed_attempt_answers(Some(r4), t5) =~= seq![false]);
    let t4 = ts.drop_first().drop_first().drop_first().drop_first();
    assert(failed_attempt_answers(Some(r3), t4) =~= seq![true, false]);
    let t3 = ts.drop_first().drop_first().drop_first();
    assert(failed_attempt_answers(Some(r2), t3) =~= seq![true, true, false]);
    let t2 = ts.drop_first().drop_first();
    assert(failed_attempt_answers(Some(r1), t2) =~= seq![true, true, true, false]);
    let t1 = ts.drop_first();
    assert(failed_attempt_answers(Some(r0), t1) =~= seq![true, true, true, true, false]);
    assert(failed_attempt_answers(None, ts) =~= seq![true, true, true, true, true, false]);
}

/// While an address is blocked, every attempt is refused, however many are
/// made, until the block ends.
pub proof fn law_blocked_address_refused(rec: LoginRecord, ts: Seq<i64>)
    requires
        forall|i: int| 0 <= i < ts.len() ==> #[trigger] ts[i] < rec.blocked_until,
    ensures
        failed_attempt_answers(Some(rec), ts) == Seq::new(ts.len(), |i: int| false),
    decreases ts.len(),
{
    if ts.len() > 0 {
        assert(ts[0] < rec.blocked_until);
        let rest = ts.drop_first();
        assert forall|i: int| 0 <= i < rest.len() implies #[trigger] rest[i] < rec.blocked_until by {
            assert(rest[i] == ts[i + 1]);
        }
        law_blocked_address_refused(rec, rest);
        assert(failed_attempt_answers(Some(rec), ts) =~= Seq::new(ts.len(), |i: int| false));
    }
}

/// Once the block is over and more than a block duration has passed since
/// the first failure of the window, a failure opens a new window with a
/// count of one and does not block the address.
pub proof fn law_window_reopens(rec: LoginRecord, now: i64)
    requires
        rec.blocked_until <= now,
        now - rec.first_attempt > LOGIN_BLOCK_DURATION_MS,
    ensures
        !login_blocked(Some(rec), now),
        after_failed_login(Some(rec), now).count == 1,
        after_failed_login(Some(rec), now).first_attempt == now,
        !login_blocked(Some(after_failed_login(Some(rec), now)), now),
{
}

/// A session opened at `now` is valid up to and including its expiry, one
/// session duration later, and not after.
pub proof fn law_session_lifetime(v: SessionsView, sid: Seq<char>, now: i64, t: i64)
    ensures
        session_valid(
            SessionsView { sessions: v.sessions.insert(sid, later(now, SESSION_DURATION_MS)), ..v },
            sid,
            t,
        ) == (t <= now + SESSION_DURATION_MS),
{
}

/// After a logout the session is valid at no time and no CSRF check for it
/// passes.
pub proof fn law_logout_ends_session(
    v: SessionsView,
    sid: Seq<char>,
    t: i64,
    cookie_header: Option<Seq<char>>,
    header_token: Option<Seq<char>>,
)
    ensures
        ({
            let w = SessionsView { sessions: v.sessions.remove(sid), csrf_tokens: v.csrf_tokens.remove(sid) };
            &&& !session_valid(w, sid, t)
            &&& !csrf_valid(w, cookie_header, header_token, sid)
        }),
{
}

/// A CSRF check passes only when the header and the cookie both carry
/// exactly the token issued with the session.
pub proof fn law_csrf_needs_both_tokens(
    v: SessionsView,
    cookie_header: Option<Seq<char>>,
    header_token: Option<Seq<char>>,
    sid: Seq<char>,
)
    requires
        csrf_valid(v, cookie_header, header_token, sid),
    ensures
        header_token == Some(v.csrf_tokens[sid]),
        cookies_in(cookie_header)["csrf-token"@] == v.csrf_tokens[sid],
{
    vstd::utf8::encode_utf8_decode_utf8(v.csrf_tokens[sid]);
    vstd::utf8::encode_utf8_decode_utf8(header_token->0);
    vstd::utf8::encode_utf8_decode_utf8(cookies_in(cookie_header)["csrf-token"@]);
}

/// Five failed logins at one time `t` (not before the epoch) block the
/// address for exactly one minute, 60000 milliseconds: it is blocked at
/// every time from `t` until just before `t + 60000`, and not from then on;
/// four failed logins block it at no time.
pub proof fn law_block_lasts_one_minute(t: i64, u: i64)
    requires
        0 <= t <= i64::MAX - 60_000,
    ensures
        ({
            let r1 = after_failed_login(None, t);
            let r2 = after_failed_login(Some(r1), t);
            let r3 = after_failed_login(Some(r2), t);
            let r4 = after_failed_login(Some(r3), t);
            let r5 = after_failed_login(Some(r4), t);
            &&& !login_blocked(Some(r4), u) <== 0 <= u
            &&& r5.count == 5
            &&& t <= u ==> (login_blocked(Some(r5), u) == (u < t + 60_000))
        }),
{
}

/// A session opened at `now` lasts one day, 86400000 milliseconds: it is
/// valid up to and including `now + 86400000` and not after.
pub proof fn law_session_lasts_a_day(v: SessionsView, sid: Seq<char>, now: i64, t: i64)
    requires
        now <= i64::MAX - 86_400_000,
    ensures
        session_valid(
            SessionsView { sessions: v.sessions.insert(sid, later(now, SESSION_DURATION_MS)), ..v },
            sid,
            t,
        ) == (t <= now + 86_400_000),
{
}

/// The record of failed logins of an address is kept while its window
/// began at most two minutes, 120000 milliseconds, ago.
pub proof fn law_records_kept_two_minutes(r: LoginRecord, now: i64)
    ensures
        record_kept(r, now) == (now - r.first_attempt <= 120_000),
{
}

} // verus!
