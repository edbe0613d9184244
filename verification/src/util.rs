//! Small helpers shared by the control API and the Web UI: constant-time
//! comparison, hexadecimal tokens, MIME types, cookies and the clock.

use vstd::prelude::*;
use crate::text::opt_view;
use crate::name_map::NameMap;
use vstd::string::StringSliceAdditionalSpecFns;
use crate::text::{str_eq, first_at, first_index, find_char, is_whitespace, split, split_seq, substring, trim_bounds, trim_seq, chars_of};

verus! {

/// Whether two byte strings are equal, looking at every byte whatever the
/// outcome so that the time taken does not tell where they differ.
pub fn constant_time_eq(a: &[u8], b: &[u8]) -> (r: bool)
    ensures
        r == (a@ == b@),
{
    if a.len() != b.len() {
        return false;
    }
    let mut acc: u8 = 0;
    let mut i: usize = 0;
    while i < a.len()
        invariant
            a@.len() == b@.len(),
            i <= a@.len(),
            (acc == 0) == (forall|j: int| 0 <= j < i ==> a@[j] == b@[j]),
        decreases a@.len() - i,
    {
        let x = a[i];
        let y = b[i];
        let next = acc | (x ^ y);
        assert((next == 0) == (acc == 0 && x == y)) by (bit_vector)
            requires
                next == acc | (x ^ y),
        ;
        proof {
            if next == 0 {
                assert forall|j: int| 0 <= j < i + 1 implies a@[j] == b@[j] by {
                    if j < i {
                    }
                }
            }
        }
        acc = next;
        i = i + 1;
    }
    proof {
        if acc == 0 {
            assert(a@ =~= b@);
        }
    }
    acc == 0
}

/// Whether a byte is an ASCII hexadecimal digit, in either case.
pub open spec fn is_hex_byte(b: u8) -> bool {
    (48 <= b <= 57) || (97 <= b <= 102) || (65 <= b <= 70)
}

/// Whether `s` is 64 bytes long and each byte an ASCII hexadecimal digit:
/// the shape of a signature or of a hex-encoded token.
pub open spec fn is_hex64_bytes(b: Seq<u8>) -> bool {
    b.len() == 64 && forall|i: int| 0 <= i < 64 ==> is_hex_byte(#[trigger] b[i])
}

/// True when `s` is a 64-character hexadecimal string (an HMAC signature or
/// a hex-encoded session or CSRF token).
pub fn is_hex64(s: &str) -> (r: bool)
    ensures
        r == is_hex64_bytes(s.spec_bytes()),
{
    let bytes = s.as_bytes();
    if bytes.len() != 64 {
        return false;
    }
    let mut i: usize = 0;
    while i < 64
        invariant
            bytes@ == s.spec_bytes(),
            bytes@.len() == 64,
            i <= 64,
            forall|j: int| 0 <= j < i ==> is_hex_byte(#[trigger] bytes@[j]),
        decreases 64 - i,
    {
        let b = bytes[i];
        if !((48 <= b && b <= 57) || (97 <= b && b <= 102) || (65 <= b && b <= 70)) {
            assert(!is_hex_byte(bytes@[i as int]));
            return false;
        }
        i = i + 1;
    }
    true
}

/// The MIME type served for a file extension (with its leading dot).
pub open spec fn mime_type(ext: Seq<char>) -> Seq<char> {
    if ext == ".html"@ {
        "text/html; charset=utf-8"@
    } else if ext == ".css"@ {
        "text/css; charset=utf-8"@
    } else if ext == ".js"@ {
        "application/javascript; charset=utf-8"@
    } else if ext == ".json"@ {
        "application/json"@
    } else if ext == ".png"@ {
        "image/png"@
    } else if ext == ".jpg"@ || ext == ".jpeg"@ {
        "image/jpeg"@
    } else if ext == ".gif"@ {
        "image/gif"@
    } else if ext == ".svg"@ {
        "image/svg+xml"@
    } else if ext == ".ico"@ {
        "image/x-icon"@
    } else if ext == ".woff"@ {
        "font/woff"@
    } else if ext == ".woff2"@ {
        "font/woff2"@
    } else {
        "application/octet-stream"@
    }
}

/// Map a file extension (including the leading dot) to its MIME type.
pub fn mime_for_ext(ext: &str) -> (r: &'static str)
    ensures
        r@ == mime_type(ext@),
{
    if str_eq(ext, ".html") {
        "text/html; charset=utf-8"
    } else if str_eq(ext, ".css") {
        "text/css; charset=utf-8"
    } else if str_eq(ext, ".js") {
        "application/javascript; charset=utf-8"
    } else if str_eq(ext, ".json") {
        "application/json"
    } else if str_eq(ext, ".png") {
        "image/png"
    } else if str_eq(ext, ".jpg") || str_eq(ext, ".jpeg") {
        "image/jpeg"
    } else if str_eq(ext, ".gif") {
        "image/gif"
    } else if str_eq(ext, ".svg") {
        "image/svg+xml"
    } else if str_eq(ext, ".ico") {
        "image/x-icon"
    } else if str_eq(ext, ".woff") {
        "font/woff"
    } else if str_eq(ext, ".woff2") {
        "font/woff2"
    } else {
        "application/octet-stream"
    }
}

/// The name and value of one `;`-separated piece of a cookie header: the
/// piece is trimmed and cut at its first `=`, and both sides are trimmed.
pub open spec fn cookie_pair(part: Seq<char>) -> Option<(Seq<char>, Seq<char>)> {
    let t = trim_seq(part);
    match first_index(t, '=') {
        Some(i) => Some((trim_seq(t.subrange(0, i)), trim_seq(t.subrange(i + 1, t.len() as int)))),
        None => None,
    }
}

/// The cookies of the pieces of a header; a later cookie of the same name
/// replaces an earlier one.
pub open spec fn cookies_of(parts: Seq<Seq<char>>) -> Map<Seq<char>, Seq<char>>
    decreases parts.len(),
{
    if parts.len() == 0 {
        Map::empty()
    } else {
        let m = cookies_of(parts.drop_last());
        match cookie_pair(parts.last()) {
            Some((k, v)) => m.insert(k, v),
            None => m,
        }
    }
}

/// The cookies sent in a `Cookie` header, if there is one.
pub open spec fn cookies_in(header: Option<Seq<char>>) -> Map<Seq<char>, Seq<char>> {
    match header {
        Some(h) => cookies_of(split_seq(h, ';')),
        None => Map::empty(),
    }
}

/// The values of a map of strings, taken by their characters.
pub open spec fn string_values(m: Map<Seq<char>, String>) -> Map<Seq<char>, Seq<char>> {
    Map::new(|k: Seq<char>| m.contains_key(k), |k: Seq<char>| m[k]@)
}

/// The name and value of one piece of a cookie header, if it has an `=`.
fn parse_cookie_pair(part: &str) -> (r: Option<(String, String)>)
    ensures
        match r {
            Some((k, v)) => cookie_pair(part@) == Some((k@, v@)),
            None => cookie_pair(part@) is None,
        },
{
    let cs = chars_of(part);
    let (a, b) = trim_bounds(&cs, 0, cs.len());
    assert(cs@.subrange(0, cs@.len() as int) =~= part@);
    let ghost t = cs@.subrange(a as int, b as int);
    match find_char(&cs, a, b, '=') {
        Some(i) => {
            let (ka, kb) = trim_bounds(&cs, a, i);
            let (va, vb) = trim_bounds(&cs, i + 1, b);
            assert(t.subrange(0, i - a) =~= cs@.subrange(a as int, i as int));
            assert(t.subrange(i - a + 1, t.len() as int) =~= cs@.subrange(i + 1, b as int));
            Some((substring(part, ka, kb), substring(part, va, vb)))
        },
        None => None,
    }
}

/// Minimal cookie parser: `"a=1; b=2"` gives `a` ↦ `1` and `b` ↦ `2`.
pub fn parse_cookies(header: Option<&str>) -> (r: NameMap<String>)
    ensures
        string_values(r.view()) == cookies_in(
            opt_view(header),
        ),
{
    let mut cookies: NameMap<String> = NameMap::new();
    match header {
        Some(h) => {
            let parts = split(h, ';');
            let ghost ps = split_seq(h@, ';');
            let mut i: usize = 0;
            assert(string_values(cookies.view()) =~= cookies_of(ps.take(0)));
            while i < parts.len()
                invariant
                    parts@.len() == ps.len(),
                    forall|k: int| 0 <= k < parts@.len() ==> #[trigger] parts@[k]@ == ps[k],
                    i <= parts@.len(),
                    string_values(cookies.view()) == cookies_of(ps.take(i as int)),
                decreases parts@.len() - i,
            {
                assert(ps.take(i + 1).drop_last() =~= ps.take(i as int));
                assert(ps.take(i + 1).last() == parts@[i as int]@);
                let ghost before = cookies.view();
                match parse_cookie_pair(parts[i].as_str()) {
                    Some((k, v)) => {
                        let ghost kv = k@;
                        let ghost vv = v@;
                        cookies.insert(k, v);
                        assert(string_values(cookies.view()) =~= string_values(before).insert(kv, vv));
                    },
                    None => {},
                }
                i = i + 1;
            }
            assert(ps.take(ps.len() as int) =~= ps);
        },
        None => {
            assert(string_values(cookies.view()) =~= Map::empty());
        },
    }
    cookies
}

/// The system clock, as `std::time::SystemTime`.
#[verifier::external_type_specification]
#[verifier::external_body]
pub struct ExSystemTime(std::time::SystemTime);

/// The error of a clock reading before the Unix epoch, as `std::time::SystemTimeError`.
#[verifier::external_type_specification]
#[verifier::external_body]
pub struct ExSystemTimeError(std::time::SystemTimeError);

/// Calls `SystemTime::now`; nothing is claimed of the reading.
#[verifier::external_body]
fn system_now() -> std::time::SystemTime {
    std::time::SystemTime::now()
}

/// Calls `SystemTime::duration_since` with the Unix epoch; nothing is
/// claimed of the outcome, which depends on the clock.
#[verifier::external_body]
fn since_unix_epoch(t: std::time::SystemTime) -> Result<std::time::Duration, std::time::SystemTimeError> {
    t.duration_since(std::time::UNIX_EPOCH)
}

/// Calls `Duration::as_millis`; the duration is opaque here, so nothing is
/// claimed of the number.
#[verifier::external_body]
fn duration_millis(d: &std::time::Duration) -> u128 {
    d.as_millis()
}

/// The timestamp of a clock reading: its milliseconds since the epoch cut
/// to their low 64 bits, or 0 for a reading before the epoch (`None`).
pub open spec fn epoch_millis(m: Option<u128>) -> i64 {
    match m {
        Some(x) => x as i64,
        None => 0i64,
    }
}

/// The timestamp of a clock reading given as its milliseconds since the
/// epoch, `None` when the clock read before the epoch.
pub fn millis_since_epoch(m: Option<u128>) -> (r: i64)
    ensures
        r == epoch_millis(m),
{
    match m {
        Some(x) => x as i64,
        None => 0,
    }
}

/// Current unix timestamp in milliseconds: the milliseconds since the epoch
/// cut to 64 bits, or 0 when the clock reads before the epoch. Which
/// reading the clock gave is not known here.
pub fn now_ms() -> (r: i64)
    ensures
        exists|m: Option<u128>| r == #[trigger] epoch_millis(m),
{
    let m = match since_unix_epoch(system_now()) {
        Ok(d) => Some(duration_millis(&d)),
        Err(_) => None,
    };
    millis_since_epoch(m)
}

/// Text with no whitespace at either end is its own trim.
proof fn lemma_trim_keeps(s: Seq<char>)
    requires
        s.len() > 0,
        !is_whitespace(s[0]),
        !is_whitespace(s.last()),
    ensures
        trim_seq(s) == s,
{
}

/// A cookie piece `name=value`, with no whitespace in either and no `=` in
/// the name, gives that name and value; in a header, a later cookie of a
/// name replaces an earlier one.
pub proof fn law_cookie_pieces(k: Seq<char>, v: Seq<char>, parts: Seq<Seq<char>>, p: Seq<char>)
    ensures
        (k.len() > 0 && v.len() > 0 && (forall|i: int| 0 <= i < k.len() ==> !is_whitespace(#[trigger] k[i])
            && k[i] != '=') && (forall|i: int| 0 <= i < v.len() ==> !is_whitespace(#[trigger] v[i])))
            ==> cookie_pair(k + seq!['='] + v) == Some((k, v)),
        cookie_pair(p) matches Some((ck, cv)) ==> cookies_of(parts.push(p)).contains_key(ck) && cookies_of(
            parts.push(p),
        )[ck] == cv,
{
    assert(parts.push(p).drop_last() =~= parts);
    if k.len() > 0 && v.len() > 0 && (forall|i: int| 0 <= i < k.len() ==> !is_whitespace(#[trigger] k[i])
        && k[i] != '=') && (forall|i: int| 0 <= i < v.len() ==> !is_whitespace(#[trigger] v[i])) {
        let s = k + seq!['='] + v;
        assert(s[0] == k[0]);
        assert(s.last() == v.last());
        lemma_trim_keeps(s);
        let n = k.len() as int;
        assert(s[n] == '=');
        assert forall|j: int| 0 <= j < n implies s[j] != '=' by {
            assert(s[j] == k[j]);
        }
        assert(first_at(s, '=', n));
        let c = choose|i: int| first_at(s, '=', i);
        if c < n {
            assert(s[c] == k[c]);
        }
        assert(c == n);
        assert(s.subrange(0, n) =~= k);
        assert(s.subrange(n + 1, s.len() as int) =~= v);
        lemma_trim_keeps(k);
        lemma_trim_keeps(v);
    }
}

/// A signature or token has the shape of 64 hexadecimal digits, in either
/// case: the bytes `0`-`9`, `a`-`f` and `A`-`F` are hexadecimal digits and
/// no other byte is.
pub proof fn law_hex_digits_either_case(b: u8)
    ensures
        is_hex_byte(b) == (('0' as u8 <= b && b <= '9' as u8) || ('a' as u8 <= b && b <= 'f' as u8) || (
        'A' as u8 <= b && b <= 'F' as u8)),
{
}

} // verus!
