//! The decisions of the Web UI server that do not touch the network or the
//! disk: routing of unknown paths, the path-traversal check and MIME type of
//! static files, their cache, the client address, login and service-id
//! validation and the cookies set at login.

use vstd::prelude::*;
use crate::text::opt_view;
use crate::name_map::NameMap;
use crate::number::{decimal_seq, i64_to_decimal, signed_decimal_seq};
use crate::config::{definition_of, definition_read, DefinitionDocument, ServiceConfig};
use crate::document::{json_parse, member_text, opt_string_view, json_from_slice, string_member};
use crate::lifecycle::ServiceStatus;
use crate::session::{after_failed_login, is_token, later, login_blocked, record_of, LoginLimiter, SessionStore, SESSION_DURATION_MS};
use crate::text::{
    chars_of, concat3, is_prefix, lemma_split_seq_nonempty, owned, split, split_bounds, split_seq,
    starts_with, str_eq, substring, trim, trim_seq,
};

verus! {

/// How a request for a path that no API route took is answered.
#[derive(Debug, PartialEq, Eq)]
pub enum FallbackRoute {
    /// `302` to `/webui/`.
    RedirectToWebui,
    /// Serve this file of the Web UI directory.
    File(String),
    /// JSON `404`.
    NotFound,
}

/// The route of a path: `/` redirects, `/webui`, `/webui/` and
/// `/webui/index.html` serve `index.html`, other paths under `/webui/` serve
/// the file they name unless they lie under `api`, and the rest is not found.
pub open spec fn fallback_route(path: Seq<char>) -> Option<Option<Seq<char>>> {
    if path == "/"@ {
        None
    } else if path == "/webui"@ || path == "/webui/"@ || path == "/webui/index.html"@ {
        Some(Some("index.html"@))
    } else if is_prefix("/webui/"@, path) {
        let rest = path.subrange(7, path.len() as int);
        if rest == "api"@ || is_prefix("api/"@, rest) {
            Some(None)
        } else {
            Some(Some(rest))
        }
    } else {
        Some(None)
    }
}

/// The route of a request path.
pub fn route_fallback(path: &str) -> (r: FallbackRoute)
    ensures
        match r {
            FallbackRoute::RedirectToWebui => fallback_route(path@) is None,
            FallbackRoute::File(f) => fallback_route(path@) == Some(Some(f@)),
            FallbackRoute::NotFound => fallback_route(path@) == Some(None::<Seq<char>>),
        },
{
    if str_eq(path, "/") {
        return FallbackRoute::RedirectToWebui;
    }
    if str_eq(path, "/webui") || str_eq(path, "/webui/") || str_eq(path, "/webui/index.html") {
        return FallbackRoute::File(owned("index.html"));
    }
    if starts_with(path, "/webui/") {
        proof {
            reveal_strlit("/webui/");
        }
        let n = chars_of(path).len();
        let rest = substring(path, 7, n);
        if str_eq(rest.as_str(), "api") || starts_with(rest.as_str(), "api/") {
            return FallbackRoute::NotFound;
        }
        return FallbackRoute::File(rest);
    }
    FallbackRoute::NotFound
}

/// A path under `/webui/api` is never served as a file, and a file is only
/// ever served for a path under `/webui`.
pub proof fn law_api_paths_never_served(path: Seq<char>, f: Seq<char>)
    requires
        fallback_route(path) == Some(Some(f)),
    ensures
        f != "api"@,
        !is_prefix("api/"@, f),
        is_prefix("/webui"@, path),
{
    reveal_strlit("index.html");
    reveal_strlit("api");
    reveal_strlit("api/");
    reveal_strlit("/webui");
    reveal_strlit("/webui/");
    reveal_strlit("/webui/index.html");
    if path == "/webui"@ || path == "/webui/"@ || path == "/webui/index.html"@ {
        assert(f == "index.html"@);
        assert(f.len() != "api"@.len());
        assert(f.subrange(0, 4)[0] != "api/"@[0]);
        assert(path.subrange(0, 6) =~= "/webui"@);
    }
    if is_prefix("/webui/"@, path) {
        assert(path.subrange(0, 6) =~= path.subrange(0, 7).subrange(0, 6));
        assert(path.subrange(0, 6) =~= "/webui"@);
    }
}

/// Whether a path starts with a drive prefix such as `C:`.
pub open spec fn has_drive_prefix(rel: Seq<char>) -> bool {
    rel.len() >= 2 && (('a' <= rel[0] <= 'z') || ('A' <= rel[0] <= 'Z')) && rel[1] == ':'
}

/// A character of a path with the separators of the platform made `/`:
/// on Windows a backslash separates components too.
pub open spec fn unified_char(c: char, windows: bool) -> char {
    if windows && c == '\\' {
        '/'
    } else {
        c
    }
}

/// A path with the separators of the platform made `/`.
pub open spec fn unify_separators(rel: Seq<char>, windows: bool) -> Seq<char> {
    Seq::new(rel.len(), |i: int| unified_char(rel[i], windows))
}

/// Whether a relative path names only plain components, as
/// `Path::components` reads it on the platform (`windows` for Windows): it
/// does not start at the root, does not start with a `.` component, no
/// component is `..`, and on Windows it has no drive prefix, and a
/// backslash separates components as `/` does.
pub open spec fn safe_relative_path(rel: Seq<char>, windows: bool) -> bool {
    let u = unify_separators(rel, windows);
    let parts = split_seq(u, '/');
    &&& !(windows && has_drive_prefix(rel))
    &&& !(u.len() > 0 && u[0] == '/')
    &&& parts[0] != "."@
    &&& forall|i: int| 0 <= i < parts.len() ==> #[trigger] parts[i] != ".."@
}

/// Whether the piece `a..b` of `u` is the component `..`.
fn is_parent_piece(u: &Vec<char>, a: usize, b: usize) -> (r: bool)
    requires
        a <= b <= u@.len(),
    ensures
        r == (u@.subrange(a as int, b as int) == ".."@),
{
    proof {
        reveal_strlit("..");
    }
    assert(".."@.len() == 2 && ".."@[0] == '.' && ".."@[1] == '.');
    let r = b - a == 2 && u[a] == '.' && u[a + 1] == '.';
    let ghost piece = u@.subrange(a as int, b as int);
    if r {
        assert(piece =~= ".."@);
    } else {
        proof {
            if piece == ".."@ {
                assert(piece.len() == 2);
                assert(piece[0] == u@[a as int]);
                assert(piece[1] == u@[a + 1]);
            }
        }
    }
    r
}

/// Whether the piece `a..b` of `u` is the component `.`.
fn is_current_piece(u: &Vec<char>, a: usize, b: usize) -> (r: bool)
    requires
        a <= b <= u@.len(),
    ensures
        r == (u@.subrange(a as int, b as int) == "."@),
{
    proof {
        reveal_strlit(".");
    }
    assert("."@.len() == 1 && "."@[0] == '.');
    let r = b - a == 1 && u[a] == '.';
    let ghost piece = u@.subrange(a as int, b as int);
    if r {
        assert(piece =~= "."@);
    } else {
        proof {
            if piece == "."@ {
                assert(piece.len() == 1);
                assert(piece[0] == u@[a as int]);
            }
        }
    }
    r
}

/// Whether a requested file path may be served on the platform (`windows`
/// for Windows): no path traversal.
pub fn is_safe_relative_path(rel: &str, windows: bool) -> (r: bool)
    ensures
        r == safe_relative_path(rel@, windows),
{
    let cs = chars_of(rel);
    if windows && cs.len() >= 2 && cs[1] == ':' && (('a' <= cs[0] && cs[0] <= 'z') || ('A' <= cs[0]
        && cs[0] <= 'Z')) {
        return false;
    }
    let mut u: Vec<char> = Vec::new();
    let mut j: usize = 0;
    while j < cs.len()
        invariant
            cs@ == rel@,
            j <= cs@.len(),
            u@.len() == j,
            forall|k: int| 0 <= k < j ==> #[trigger] u@[k] == unified_char(rel@[k], windows),
        decreases cs@.len() - j,
    {
        let c = cs[j];
        if windows && c == '\\' {
            u.push('/');
        } else {
            u.push(c);
        }
        j = j + 1;
    }
    let u = u;
    assert(u@ =~= unify_separators(rel@, windows));
    if u.len() > 0 && u[0] == '/' {
        return false;
    }
    let bounds = split_bounds(&u, '/');
    proof {
        lemma_split_seq_nonempty(u@, '/');
    }
    let (a0, b0) = bounds[0];
    if is_current_piece(&u, a0, b0) {
        return false;
    }
    let mut i: usize = 0;
    while i < bounds.len()
        invariant
            u@ == unify_separators(rel@, windows),
            bounds@.len() == split_seq(u@, '/').len(),
            forall|k: int|
                0 <= k < bounds@.len() ==> {
                    &&& #[trigger] bounds@[k].0 <= bounds@[k].1 <= u@.len()
                    &&& u@.subrange(bounds@[k].0 as int, bounds@[k].1 as int) == split_seq(u@, '/')[k]
                },
            i <= bounds@.len(),
            forall|k: int| 0 <= k < i ==> #[trigger] split_seq(u@, '/')[k] != ".."@,
        decreases bounds@.len() - i,
    {
        let (a, b) = bounds[i];
        if is_parent_piece(&u, a, b) {
            return false;
        }
        i = i + 1;
    }
    true
}

/// The last component of a path that has one: its last piece between `/`
/// that is neither empty nor `.`.
pub open spec fn last_component(parts: Seq<Seq<char>>) -> Option<Seq<char>>
    decreases parts.len(),
{
    if parts.len() == 0 {
        None
    } else if parts.last().len() > 0 && parts.last() != "."@ {
        Some(parts.last())
    } else {
        last_component(parts.drop_last())
    }
}

/// `i` is the last place where `c` occurs in `s`.
pub open spec fn last_at(s: Seq<char>, c: char, i: int) -> bool {
    &&& 0 <= i < s.len()
    &&& s[i] == c
    &&& forall|j: int| i < j < s.len() ==> s[j] != c
}

/// The extension of a file name with its leading dot, as `Path::extension`
/// gives it (nothing for names without a dot after their first character),
/// or empty.
pub open spec fn dotted_extension(name: Seq<char>) -> Seq<char> {
    if exists|i: int| last_at(name, '.', i) && i > 0 {
        let i = choose|i: int| last_at(name, '.', i);
        seq!['.'] + name.subrange(i + 1, name.len() as int)
    } else {
        Seq::<char>::empty()
    }
}

/// The extension, with its leading dot, of the file a relative path names;
/// empty when it has none.
pub open spec fn path_extension(rel: Seq<char>) -> Seq<char> {
    match last_component(split_seq(rel, '/')) {
        Some(name) => dotted_extension(name),
        None => Seq::<char>::empty(),
    }
}

/// The extension, with its dot, of a file name.
fn extension_of_name(name: &str) -> (r: String)
    ensures
        r@ == dotted_extension(name@),
{
    let cs = chars_of(name);
    let mut i = cs.len();
    while i > 0 && cs[i - 1] != '.'
        invariant
            cs@ == name@,
            i <= cs@.len(),
            forall|j: int| i <= j < cs@.len() ==> cs@[j] != '.',
        decreases i,
    {
        i = i - 1;
    }
    if i <= 1 {
        proof {
            if i == 1 {
                assert forall|k: int| last_at(name@, '.', k) implies k == 0 by {
                    if k > 0 {
                        assert(name@[0] == '.');
                    }
                }
            } else {
                assert forall|k: int| !last_at(name@, '.', k) by {}
            }
        }
        let r = String::new();
        return r;
    }
    proof {
        assert(last_at(name@, '.', i - 1));
        assert forall|k: int| last_at(name@, '.', k) implies k == i - 1 by {}
    }
    let mut r = owned(".");
    let tail = substring(name, i, cs.len());
    r.append(tail.as_str());
    proof {
        reveal_strlit(".");
    }
    assert(r@ =~= dotted_extension(name@));
    r
}

/// The extension, with its dot, of the file a relative path names.
pub fn file_extension(rel: &str) -> (r: String)
    ensures
        r@ == path_extension(rel@),
{
    let parts = split(rel, '/');
    let ghost ps = split_seq(rel@, '/');
    let mut i = parts.len();
    assert(ps.take(i as int) =~= ps);
    while i > 0 && (chars_of(parts[i - 1].as_str()).len() == 0 || str_eq(parts[i - 1].as_str(), "."))
        invariant
            parts@.len() == ps.len(),
            forall|k: int| 0 <= k < parts@.len() ==> #[trigger] parts@[k]@ == ps[k],
            i <= parts@.len(),
            last_component(ps) == last_component(ps.take(i as int)),
        decreases i,
    {
        assert(ps.take(i as int).drop_last() =~= ps.take(i - 1));
        i = i - 1;
    }
    if i == 0 {
        assert(ps.take(0) =~= Seq::<Seq<char>>::empty());
        let r = String::new();
        return r;
    }
    assert(ps.take(i as int).last() == parts@[i - 1]@);
    extension_of_name(parts[i - 1].as_str())
}

/// The pieces of a path between `/` that name a component: neither empty
/// nor `.`.
pub open spec fn named_pieces(parts: Seq<Seq<char>>) -> Seq<Seq<char>>
    decreases parts.len(),
{
    if parts.len() == 0 {
        parts
    } else if parts.last().len() > 0 && parts.last() != "."@ {
        named_pieces(parts.drop_last()).push(parts.last())
    } else {
        named_pieces(parts.drop_last())
    }
}

/// Pieces joined with `/` between them.
pub open spec fn joined_with_slash(parts: Seq<Seq<char>>) -> Seq<char>
    decreases parts.len(),
{
    if parts.len() == 0 {
        Seq::<char>::empty()
    } else if parts.len() == 1 {
        parts[0]
    } else {
        joined_with_slash(parts.drop_last()) + "/"@ + parts.last()
    }
}

/// The key under which the file a relative path names is cached: its
/// components joined with `/`, so that `a//b` and `a/./b` share the entry
/// of `a/b`.
pub fn cache_key(rel: &str) -> (r: String)
    ensures
        r@ == joined_with_slash(named_pieces(split_seq(rel@, '/'))),
{
    let parts = split(rel, '/');
    let ghost ps = split_seq(rel@, '/');
    let mut r = String::new();
    let mut count: usize = 0;
    let mut i: usize = 0;
    assert(named_pieces(ps.take(0)) =~= Seq::<Seq<char>>::empty());
    while i < parts.len()
        invariant
            parts@.len() == ps.len(),
            forall|k: int| 0 <= k < parts@.len() ==> #[trigger] parts@[k]@ == ps[k],
            i <= parts@.len(),
            count == named_pieces(ps.take(i as int)).len(),
            count <= i,
            r@ == joined_with_slash(named_pieces(ps.take(i as int))),
        decreases parts@.len() - i,
    {
        let ghost before = named_pieces(ps.take(i as int));
        assert(ps.take(i + 1).drop_last() =~= ps.take(i as int));
        assert(ps.take(i + 1).last() == parts@[i as int]@);
        let piece = parts[i].as_str();
        if !piece.is_empty() && !str_eq(piece, ".") {
            if count > 0 {
                r.append("/");
            }
            r.append(piece);
            proof {
                let after = before.push(piece@);
                assert(after.drop_last() =~= before);
                assert(r@ =~= joined_with_slash(after));
            }
            count = count + 1;
        }
        i = i + 1;
    }
    assert(ps.take(ps.len() as int) =~= ps);
    r
}

/// When a file was last changed: the time since (or, when `after_epoch`
/// is false, before) the Unix epoch, in nanoseconds.
#[derive(Clone, Copy, Debug, PartialEq, Eq, Structural)]
pub struct FileTime {
    pub after_epoch: bool,
    pub nanos: u128,
}

/// A file held in memory with the time it was changed when read.
pub struct CachedFile {
    pub mtime: FileTime,
    pub data: Vec<u8>,
}

/// Static files kept in memory, each found again by its path and used only
/// while the file's change time is the one it was read with.
pub struct FileCache {
    entries: NameMap<CachedFile>,
}

impl FileCache {
    /// The files held, by path: change time and content.
    pub closed spec fn view(&self) -> Map<Seq<char>, (FileTime, Seq<u8>)> {
        Map::new(
            |k: Seq<char>| self.entries.view().contains_key(k),
            |k: Seq<char>| (self.entries.view()[k].mtime, self.entries.view()[k].data@),
        )
    }

    /// Nothing held.
    pub fn new() -> (r: Self)
        ensures
            r.view() == Map::<Seq<char>, (FileTime, Seq<u8>)>::empty(),
    {
        let r = FileCache { entries: NameMap::new() };
        assert(r.view() =~= Map::<Seq<char>, (FileTime, Seq<u8>)>::empty());
        r
    }

    /// The content held for `path`, when it was read at change time `mtime`.
    pub fn lookup(&self, path: &str, mtime: FileTime) -> (r: Option<Vec<u8>>)
        ensures
            match r {
                Some(d) => self.view().contains_key(path@) && self.view()[path@].0 == mtime && d@
                    == self.view()[path@].1,
                None => !(self.view().contains_key(path@) && self.view()[path@].0 == mtime),
            },
    {
        match self.entries.get(path) {
            Some(entry) => {
                if entry.mtime == mtime {
                    let mut copy: Vec<u8> = Vec::new();
                    let mut i: usize = 0;
                    while i < entry.data.len()
                        invariant
                            i <= entry.data@.len(),
                            copy@ == entry.data@.take(i as int),
                        decreases entry.data@.len() - i,
                    {
                        copy.push(entry.data[i]);
                        i = i + 1;
                    }
                    assert(entry.data@.take(entry.data@.len() as int) =~= entry.data@);
                    Some(copy)
                } else {
                    None
                }
            },
            None => None,
        }
    }

    /// Hold `data`, read at change time `mtime`, for `path`.
    pub fn store(&mut self, path: String, mtime: FileTime, data: Vec<u8>)
        ensures
            final(self).view() == old(self).view().insert(path@, (mtime, data@)),
    {
        let ghost pv = path@;
        let ghost dv = data@;
        self.entries.insert(path, CachedFile { mtime, data });
        assert(self.view() =~= old(self).view().insert(pv, (mtime, dv)));
    }
}

/// The address a request comes from: the first entry of `X-Forwarded-For`,
/// trimmed, when that header is there; else the peer's address.
pub open spec fn client_address(forwarded_for: Option<Seq<char>>, peer: Seq<char>) -> Seq<char> {
    match forwarded_for {
        Some(f) => trim_seq(split_seq(f, ',')[0]),
        None => peer,
    }
}

/// The address a request comes from.
pub fn client_ip(forwarded_for: Option<&str>, peer: String) -> (r: String)
    ensures
        r@ == client_address(
            opt_view(forwarded_for),
            peer@,
        ),
{
    match forwarded_for {
        Some(f) => {
            let parts = split(f, ',');
            assert(parts@[0]@ == split_seq(f@, ',')[0]);
            trim(parts[0].as_str())
        },
        None => peer,
    }
}

/// Why a login request is refused before its credentials are checked.
#[derive(Debug, PartialEq, Eq)]
pub enum LoginRefusal {
    /// `Username and password required`.
    MissingCredentials,
    /// `Invalid credentials`: a name longer than 64 bytes or a password
    /// longer than 128.
    TooLong,
}

/// The trimmed text of an optional field (empty when missing).
pub open spec fn trimmed_field(v: Option<Seq<char>>) -> Seq<char> {
    match v {
        Some(s) => trim_seq(s),
        None => Seq::<char>::empty(),
    }
}

/// Why a login with the trimmed user name `u` and password `p` is refused
/// before its credentials are checked: both must be non-empty, the name at
/// most 64 bytes long and the password at most 128.
pub open spec fn login_refusal(u: Seq<char>, p: Seq<char>) -> Option<LoginRefusal> {
    if u.len() == 0 || p.len() == 0 {
        Some(LoginRefusal::MissingCredentials)
    } else if vstd::utf8::encode_utf8(u).len() > 64 || vstd::utf8::encode_utf8(p).len() > 128 {
        Some(LoginRefusal::TooLong)
    } else {
        None
    }
}

/// The trimmed user name and password of a login request, or why it is
/// refused.
pub fn check_login_fields(username: Option<&str>, password: Option<&str>) -> (r: Result<(String, String), LoginRefusal>)
    ensures
        ({
            let u = trimmed_field(opt_view(username));
            let p = trimmed_field(opt_view(password));
            match r {
                Ok((ru, rp)) => ru@ == u && rp@ == p && login_refusal(u, p) is None,
                Err(why) => login_refusal(u, p) == Some(why),
            }
        }),
{
    let u = match username {
        Some(s) => trim(s),
        None => String::new(),
    };
    let p = match password {
        Some(s) => trim(s),
        None => String::new(),
    };
    if u.as_str().is_empty() || p.as_str().is_empty() {
        return Err(LoginRefusal::MissingCredentials);
    }
    if u.as_str().as_bytes().len() > 64 || p.as_str().as_bytes().len() > 128 {
        return Err(LoginRefusal::TooLong);
    }
    Ok((u, p))
}

/// How a login request ends.
pub enum LoginOutcome {
    /// Refused before the rate limit: `400`.
    Refused(LoginRefusal),
    /// The address is blocked after too many failed logins: `429`.
    RateLimited,
    /// Wrong user name or password: `401`.
    BadCredentials,
    /// A session was opened for the user.
    LoggedIn { username: String, session_id: String, csrf_token: String },
}

/// A login request at time `now` from `ip`, with the `username` and
/// `password` fields of its body, against the configured credentials. The
/// fields are checked first, then whether the address is blocked, then the
/// credentials: a failed check of the credentials is recorded against the
/// address, and a login that passes opens a session and records nothing.
pub fn login_at(
    limiter: &mut LoginLimiter,
    sessions: &mut SessionStore,
    ip: &str,
    username: Option<&str>,
    password: Option<&str>,
    expected_username: &str,
    expected_password: &str,
    now: i64,
) -> (r: LoginOutcome)
    ensures
        ({
            let u = trimmed_field(opt_view(username));
            let p = trimmed_field(opt_view(password));
            let blocked = login_blocked(record_of(old(limiter)@, ip@), now);
            match r {
                LoginOutcome::Refused(why) => {
                    &&& login_refusal(u, p) == Some(why)
                    &&& final(limiter)@ == old(limiter)@
                    &&& final(sessions)@ == old(sessions)@
                },
                LoginOutcome::RateLimited => {
                    &&& login_refusal(u, p) is None
                    &&& blocked
                    &&& final(limiter)@ == old(limiter)@
                    &&& final(sessions)@ == old(sessions)@
                },
                LoginOutcome::BadCredentials => {
                    &&& login_refusal(u, p) is None
                    &&& !blocked
                    &&& (u != expected_username@ || p != expected_password@)
                    &&& final(limiter)@ == old(limiter)@.insert(
                        ip@,
                        after_failed_login(record_of(old(limiter)@, ip@), now),
                    )
                    &&& final(sessions)@ == old(sessions)@
                },
                LoginOutcome::LoggedIn { username: name, session_id, csrf_token } => {
                    &&& login_refusal(u, p) is None
                    &&& !blocked
                    &&& u == expected_username@
                    &&& p == expected_password@
                    &&& name@ == u
                    &&& final(limiter)@ == old(limiter)@
                    &&& is_token(session_id@)
                    &&& is_token(csrf_token@)
                    &&& final(sessions)@.sessions == old(sessions)@.sessions.insert(
                        session_id@,
                        later(now, SESSION_DURATION_MS),
                    )
                    &&& final(sessions)@.csrf_tokens == old(sessions)@.csrf_tokens.insert(session_id@, csrf_token@)
                },
            }
        }),
{
    let (u, p) = match check_login_fields(username, password) {
        Ok(fields) => fields,
        Err(why) => return LoginOutcome::Refused(why),
    };
    if limiter.is_blocked_at(ip, now) {
        return LoginOutcome::RateLimited;
    }
    if !str_eq(u.as_str(), expected_username) || !str_eq(p.as_str(), expected_password) {
        limiter.record_failure_at(ip, now);
        return LoginOutcome::BadCredentials;
    }
    let (session_id, csrf_token) = sessions.create_session_at(now);
    LoginOutcome::LoggedIn { username: u, session_id, csrf_token }
}

/// The characters that may name a service are exactly the ASCII letters of
/// either case, the ASCII digits, `_` and `-`; so a non-empty id made only
/// of these is a service id, whatever the case of its letters, and an id
/// with any other character (a space, `.`, `/`, a non-ASCII letter) is not.
pub proof fn law_service_id_characters(c: char, t: Seq<char>)
    ensures
        id_char(c) == (('a' <= c && c <= 'z') || ('A' <= c && c <= 'Z') || ('0' <= c && c <= '9') || c
            == '_' || c == '-'),
        ('A' <= c && c <= 'Z') ==> id_char(c),
        (t.len() > 0 && forall|i: int|
            0 <= i < t.len() ==> (('a' <= #[trigger] t[i] && t[i] <= 'z') || ('A' <= t[i] && t[i] <= 'Z')
                || ('0' <= t[i] && t[i] <= '9') || t[i] == '_' || t[i] == '-')) ==> is_service_id(t),
        (exists|i: int| 0 <= i < t.len() && !id_char(#[trigger] t[i])) ==> !is_service_id(t),
{
}

/// The `username` and `password` members of a login request's body, each
/// when it is a string; `None` when the body is not JSON.
pub fn login_fields(body: &[u8]) -> (r: Option<(Option<String>, Option<String>)>)
    ensures
        match r {
            Some((u, p)) => {
                &&& json_parse(body@) is Some
                &&& opt_string_view(u) == string_member(json_parse(body@)->0, "username"@)
                &&& opt_string_view(p) == string_member(json_parse(body@)->0, "password"@)
            },
            None => json_parse(body@) is None,
        },
{
    match json_from_slice(body) {
        Some(v) => Some((member_text(&v, "username"), member_text(&v, "password"))),
        None => None,
    }
}

/// Whether a character may stand in a service id: an ASCII letter or digit,
/// `_` or `-`.
pub open spec fn id_char(c: char) -> bool {
    ('a' <= c <= 'z') || ('A' <= c <= 'Z') || ('0' <= c <= '9') || c == '_' || c == '-'
}

/// Whether `t` may name a service: non-empty, of id characters only.
pub open spec fn is_service_id(t: Seq<char>) -> bool {
    t.len() > 0 && forall|i: int| 0 <= i < t.len() ==> id_char(#[trigger] t[i])
}

/// The id of a new service: the trimmed `id` field, when it is non-empty
/// and made only of ASCII letters, digits, `_` and `-`.
pub fn valid_service_id(id: Option<&str>) -> (r: Option<String>)
    ensures
        ({
            let t = trimmed_field(
                opt_view(id),
            );
            match r {
                Some(v) => v@ == t && is_service_id(t),
                None => !is_service_id(t),
            }
        }),
{
    let t = match id {
        Some(s) => trim(s),
        None => String::new(),
    };
    let cs = chars_of(t.as_str());
    if cs.len() == 0 {
        return None;
    }
    let mut i: usize = 0;
    while i < cs.len()
        invariant
            cs@ == t@,
            t@ == trimmed_field(
                opt_view(id),
            ),
            i <= cs@.len(),
            forall|k: int| 0 <= k < i ==> id_char(#[trigger] cs@[k]),
        decreases cs@.len() - i,
    {
        let c = cs[i];
        if !(('a' <= c && c <= 'z') || ('A' <= c && c <= 'Z') || ('0' <= c && c <= '9') || c == '_' || c
            == '-') {
            assert(!id_char(cs@[i as int]));
            assert(!(forall|k: int| 0 <= k < t@.len() ==> id_char(#[trigger] t@[k])));
            assert(!is_service_id(t@));
            return None;
        }
        i = i + 1;
    }
    Some(t)
}

/// What a request that creates a service asks for.
pub enum NewServiceRequest {
    /// The body is not JSON: `400`.
    InvalidJson,
    /// The trimmed `id` member is missing, empty or holds a character that
    /// may not name a service: `400`.
    InvalidId,
    /// A service named `id` with the definition of the body.
    Create { id: String, definition: DefinitionDocument },
}

/// Read the body of a request that creates a service: the trimmed `id`
/// member names the service, and the body is its definition.
pub fn new_service_request(body: &[u8]) -> (r: NewServiceRequest)
    ensures
        match r {
            NewServiceRequest::InvalidJson => json_parse(body@) is None,
            NewServiceRequest::InvalidId => {
                &&& json_parse(body@) is Some
                &&& !is_service_id(trimmed_field(string_member(json_parse(body@)->0, "id"@)))
            },
            NewServiceRequest::Create { id, definition } => {
                &&& json_parse(body@) is Some
                &&& id@ == trimmed_field(string_member(json_parse(body@)->0, "id"@))
                &&& is_service_id(id@)
                &&& definition_read(json_parse(body@)->0, definition)
            },
        },
{
    let v = match json_from_slice(body) {
        Some(v) => v,
        None => return NewServiceRequest::InvalidJson,
    };
    let id_text = member_text(&v, "id");
    let id_str: Option<&str> = match &id_text {
        Some(s) => Some(s.as_str()),
        None => None,
    };
    match valid_service_id(id_str) {
        Some(id) => NewServiceRequest::Create { id, definition: definition_of(&v) },
        None => NewServiceRequest::InvalidId,
    }
}

/// The `Max-Age` of the login cookies, in seconds: a session's lifetime.
pub open spec fn cookie_max_age() -> Seq<char> {
    signed_decimal_seq(SESSION_DURATION_MS / 1000)
}

/// The cookie that carries the session id.
pub fn session_cookie(session_id: &str) -> (r: String)
    ensures
        r@ == "session-id="@ + session_id@ + "; Max-Age="@ + cookie_max_age() + "; Path=/webui; HttpOnly; SameSite=Lax"@,
{
    let age = i64_to_decimal(SESSION_DURATION_MS / 1000);
    let mut r = concat3("session-id=", session_id, "; Max-Age=");
    r.append(age.as_str());
    r.append("; Path=/webui; HttpOnly; SameSite=Lax");
    r
}

/// The cookie that carries the CSRF token (readable by the page).
pub fn csrf_cookie(csrf_token: &str) -> (r: String)
    ensures
        r@ == "csrf-token="@ + csrf_token@ + "; Max-Age="@ + cookie_max_age() + "; Path=/webui; SameSite=Lax"@,
{
    let age = i64_to_decimal(SESSION_DURATION_MS / 1000);
    let mut r = concat3("csrf-token=", csrf_token, "; Max-Age=");
    r.append(age.as_str());
    r.append("; Path=/webui; SameSite=Lax");
    r
}

/// A change to a service's definition asked for in the Web UI.
#[derive(Clone, Copy, Debug, PartialEq, Eq, Structural)]
pub enum DefinitionChange {
    Edit,
    Delete,
}

/// Why a definition may not be changed now: its service runs, or an
/// operation on it is in flight.
pub open spec fn change_refusal_message(name: Seq<char>, running: bool, busy: bool, change: DefinitionChange) -> Option<Seq<char>> {
    if running {
        Some(
            match change {
                DefinitionChange::Edit => "Service '"@ + name + "' is still running. Stop it first before editing."@,
                DefinitionChange::Delete => "Service '"@ + name + "' is still running. Stop it first before deleting."@,
            },
        )
    } else if busy {
        Some(
            match change {
                DefinitionChange::Edit => "Service '"@ + name + "' has an operation in progress."@,
                DefinitionChange::Delete => "Service '"@ + name
                    + "' has an operation in progress. Wait for it to complete."@,
            },
        )
    } else {
        None
    }
}

/// The refusal (answered with `409`) of a change to the definition of
/// `name` given its status, or `None` when the change may go ahead.
pub fn change_refusal(name: &str, status: &ServiceStatus, change: DefinitionChange) -> (r: Option<String>)
    ensures
        match r {
            Some(m) => change_refusal_message(name@, status.running, status.operation is Some, change) == Some(m@),
            None => change_refusal_message(name@, status.running, status.operation is Some, change) is None,
        },
{
    if status.running {
        let m = match change {
            DefinitionChange::Edit => concat3("Service '", name, "' is still running. Stop it first before editing."),
            DefinitionChange::Delete => concat3("Service '", name, "' is still running. Stop it first before deleting."),
        };
        return Some(m);
    }
    if status.operation.is_some() {
        let m = match change {
            DefinitionChange::Edit => concat3("Service '", name, "' has an operation in progress."),
            DefinitionChange::Delete => concat3(
                "Service '",
                name,
                "' has an operation in progress. Wait for it to complete.",
            ),
        };
        return Some(m);
    }
    None
}

/// The definition fields shown for a service in the Web UI list.
pub struct ListedConfig {
    pub command: String,
    pub cwd: String,
    pub auto_start: bool,
    pub priority: u32,
    pub max_retries: u32,
    pub retry_on_abnormal_exit: bool,
    pub log_enabled: bool,
    pub log_retention_days: u32,
}

/// The fields shown for a service: those of its definition, or, when it
/// cannot be read, an empty command and working directory with the
/// default settings.
pub fn listed_config(config: Option<&ServiceConfig>) -> (r: ListedConfig)
    ensures
        match config {
            Some(c) => {
                &&& r.command@ == c.command@
                &&& r.cwd@ == c.cwd@
                &&& r.auto_start == c.auto_start
                &&& r.priority == c.priority
                &&& r.max_retries == c.max_retries
                &&& r.retry_on_abnormal_exit == c.retry_on_abnormal_exit
                &&& r.log_enabled == c.log.enabled
                &&& r.log_retention_days == c.log.retention_days
            },
            None => {
                &&& r.command@ == Seq::<char>::empty()
                &&& r.cwd@ == Seq::<char>::empty()
                &&& !r.auto_start
                &&& r.priority == 0
                &&& r.max_retries == 3
                &&& r.retry_on_abnormal_exit
                &&& !r.log_enabled
                &&& r.log_retention_days == 7
            },
        },
{
    match config {
        Some(c) => ListedConfig {
            command: owned(c.command.as_str()),
            cwd: owned(c.cwd.as_str()),
            auto_start: c.auto_start,
            priority: c.priority,
            max_retries: c.max_retries,
            retry_on_abnormal_exit: c.retry_on_abnormal_exit,
            log_enabled: c.log.enabled,
            log_retention_days: c.log.retention_days,
        },
        None => ListedConfig {
            command: String::new(),
            cwd: String::new(),
            auto_start: false,
            priority: 0,
            max_retries: 3,
            retry_on_abnormal_exit: true,
            log_enabled: false,
            log_retention_days: 7,
        },
    }
}

/// A login is refused before its credentials are checked exactly when the
/// trimmed user name or password is empty, or the name is longer than 64
/// bytes, or the password longer than 128; a name of up to 64 bytes with a
/// password of up to 128 is let through.
pub proof fn law_login_field_limits(u: Seq<char>, p: Seq<char>)
    ensures
        (u.len() == 0 || p.len() == 0) ==> login_refusal(u, p) == Some(LoginRefusal::MissingCredentials),
        (u.len() > 0 && p.len() > 0 && vstd::utf8::encode_utf8(u).len() <= 64 && vstd::utf8::encode_utf8(
            p,
        ).len() <= 128) ==> login_refusal(u, p) is None,
        (u.len() > 0 && p.len() > 0 && (vstd::utf8::encode_utf8(u).len() > 64 || vstd::utf8::encode_utf8(
            p,
        ).len() > 128)) ==> login_refusal(u, p) == Some(LoginRefusal::TooLong),
{
}

/// The login cookies last as long as a session: a `Max-Age` of 86400
/// seconds.
pub proof fn law_cookie_max_age()
    ensures
        cookie_max_age() == "86400"@,
{
    reveal_strlit("86400");
    assert(decimal_seq(8) == seq!['8']);
    assert(decimal_seq(86) == seq!['8', '6']);
    assert(decimal_seq(864) == seq!['8', '6', '4']);
    assert(decimal_seq(8640) == seq!['8', '6', '4', '0']);
    assert(decimal_seq(86400) == seq!['8', '6', '4', '0', '0']);
    assert(cookie_max_age() =~= "86400"@);
}

/// A definition may be edited or deleted exactly when its service neither
/// runs nor has an operation in flight; a running service is refused as
/// running whether or not an operation is in flight.
pub proof fn law_change_needs_idle_service(name: Seq<char>, running: bool, busy: bool, change: DefinitionChange)
    ensures
        (change_refusal_message(name, running, busy, change) is None) == (!running && !busy),
        running ==> change_refusal_message(name, running, busy, change) == change_refusal_message(
            name,
            true,
            false,
            change,
        ),
{
}

/// Every other path under `/webui/` serves the file it names: for a
/// non-empty relative path `f` that is not `api` and does not start with
/// `api/`, `/webui/f` serves `f`.
pub proof fn law_static_paths_served(f: Seq<char>)
    requires
        f.len() > 0,
        f != "api"@,
        !is_prefix("api/"@, f),
    ensures
        fallback_route("/webui/"@ + f) == Some(Some(f)),
{
    reveal_strlit("/");
    reveal_strlit("/webui");
    reveal_strlit("/webui/");
    reveal_strlit("/webui/index.html");
    reveal_strlit("index.html");
    let p = "/webui/"@ + f;
    assert(p.subrange(0, 7) =~= "/webui/"@);
    assert(p.subrange(7, p.len() as int) =~= f);
    assert(p.len() != "/"@.len());
    assert(p.len() != "/webui"@.len());
    assert(p.len() != "/webui/"@.len());
    if p == "/webui/index.html"@ {
        assert(f =~= "/webui/index.html"@.subrange(7, 17));
        assert(f =~= "index.html"@);
    }
}

} // verus!
