//! Service definitions: the defaults and clamping applied to what a
//! `services/<name>.json` file holds, the payload written when one is
//! saved, which directory entries name a service, and the order in which
//! services start with the daemon.

use vstd::prelude::*;
use crate::number::{parse_int_seq, parse_u16};
use crate::text::{chars_of, concat2, ends_with, is_prefix, is_suffix, owned, str_eq, substring};
use crate::document::{
    bool_member, json_bool_of, json_parse, json_u64_of, member_bool, member_number, member_text,
    member_u64, nested_bool, nested_member, nested_u64, number_member, opt_string_view, json_from_slice,
    string_member, u64_member,
};

verus! {

/// A filesystem path, as `std::path::PathBuf`.
#[verifier::external_type_specification]
#[verifier::external_body]
pub struct ExPathBuf(std::path::PathBuf);

/// A borrowed filesystem path, as `std::path::Path`.
#[verifier::external_type_specification]
#[verifier::external_body]
pub struct ExPath(std::path::Path);

/// The owned copy of a borrowed path, as `Path::to_path_buf` gives it.
pub uninterp spec fn owned_path(p: &std::path::Path) -> std::path::PathBuf;

/// The path `Path::join` gives for the path held by `base` with `name`
/// adjoined.
pub uninterp spec fn joined_path(base: std::path::PathBuf, name: Seq<char>) -> std::path::PathBuf;

/// Calls `Path::to_path_buf`; its result is named by `owned_path`, since
/// paths are opaque here.
#[verifier::external_body]
pub(crate) fn path_to_buf(p: &std::path::Path) -> (r: std::path::PathBuf)
    ensures
        r == owned_path(p),
{
    p.to_path_buf()
}

/// Calls `Path::join` on the path held by `base`; its result is named by
/// `joined_path`, since paths are opaque here.
#[verifier::external_body]
pub(crate) fn path_join(base: &std::path::PathBuf, name: &str) -> (r: std::path::PathBuf)
    ensures
        r == joined_path(*base, name@),
{
    base.join(name)
}

/// Where the service definitions are kept.
pub struct ConfigLoader {
    services_dir: std::path::PathBuf,
}

/// A service definition with its defaults applied.
#[derive(Clone, Debug)]
pub struct ServiceConfig {
    pub cwd: String,
    pub command: String,
    pub priority: u32,
    pub max_retries: u32,
    pub retry_on_abnormal_exit: bool,
    pub auto_start: bool,
    pub log: LogConfig,
}

/// Whether a service's output is logged, and for how many days.
#[derive(Clone, Debug)]
pub struct LogConfig {
    pub enabled: bool,
    pub retention_days: u32,
}

/// What a service definition holds, field by field: `None` where the field
/// is missing or not of its JSON type. `priority` is a JSON number cut
/// toward zero to a 64-bit integer (saturating).
pub struct ServiceConfigFields {
    pub cwd: Option<String>,
    pub command: Option<String>,
    pub priority: Option<i64>,
    pub max_retries: Option<u64>,
    pub retry_on_abnormal_exit: Option<bool>,
    pub auto_start: Option<bool>,
    pub log_enabled: Option<bool>,
    pub log_retention_days: Option<u64>,
}

/// The payload written when a service definition is saved.
pub struct SavedServiceConfig {
    pub cwd: String,
    pub command: String,
    pub priority: u64,
    pub max_retries: u64,
    pub retry_on_abnormal_exit: bool,
    pub auto_start: bool,
    pub log_enabled: bool,
    pub log_retention_days: u64,
}

impl ConfigLoader {
    /// The directory this loader reads.
    pub closed spec fn dir(&self) -> std::path::PathBuf {
        self.services_dir
    }

    /// A loader for the definitions in `services_dir`.
    pub fn new(services_dir: std::path::PathBuf) -> (r: Self)
        ensures
            r.dir() == services_dir,
    {
        ConfigLoader { services_dir }
    }

    /// The directory of the definitions.
    pub fn services_dir(&self) -> (r: &std::path::PathBuf)
        ensures
            *r == self.dir(),
    {
        &self.services_dir
    }

    /// The file that holds the definition of `name`: `<name>.json` in the
    /// services directory.
    pub fn service_file(&self, name: &str) -> (r: std::path::PathBuf)
        ensures
            r == joined_path(self.dir(), name@ + ".json"@),
    {
        let file = service_file_name(name);
        path_join(&self.services_dir, file.as_str())
    }
}

/// The file name of the definition of `name`.
pub fn service_file_name(name: &str) -> (r: String)
    ensures
        r@ == name@ + ".json"@,
{
    concat2(name, ".json")
}

/// The working directory of a definition: its `cwd` when that is a
/// non-empty string, else `.`.
pub open spec fn cwd_or_default(cwd: Option<String>) -> Seq<char> {
    match cwd {
        Some(s) => if s@.len() > 0 {
            s@
        } else {
            "."@
        },
        None => "."@,
    }
}


/// `c` is the definition read from the fields `f`: `cwd` `.` unless a
/// non-empty string, `command` empty, `priority` 0 (else brought into 0 to
/// 999), `maxRetries` 3, `retryOnAbnormalExit` true, `autoStart` false,
/// logging off, seven days of retention; counts keep their low 32 bits.
pub open spec fn loaded_from(f: ServiceConfigFields, c: ServiceConfig) -> bool {
    &&& c.cwd@ == cwd_or_default(f.cwd)
    &&& c.command@ == match f.command {
        Some(s) => s@,
        None => Seq::<char>::empty(),
    }
    &&& c.priority == match f.priority {
        Some(p) => clamp_priority_spec(p),
        None => 0,
    }
    &&& c.max_retries == match f.max_retries {
        Some(m) => low_u32(m),
        None => 3,
    }
    &&& c.retry_on_abnormal_exit == match f.retry_on_abnormal_exit {
        Some(b) => b,
        None => true,
    }
    &&& c.auto_start == match f.auto_start {
        Some(b) => b,
        None => false,
    }
    &&& c.log.enabled == match f.log_enabled {
        Some(b) => b,
        None => false,
    }
    &&& c.log.retention_days == match f.log_retention_days {
        Some(d) => low_u32(d),
        None => 7,
    }
}

/// `s` is the payload saved for the fields `f`: the defaults of a loaded
/// definition, but a missing `priority` is stored as 999 and counts are
/// stored whole.
pub open spec fn saved_from(f: ServiceConfigFields, s: SavedServiceConfig) -> bool {
    &&& s.cwd@ == cwd_or_default(f.cwd)
    &&& s.command@ == match f.command {
        Some(c) => c@,
        None => Seq::<char>::empty(),
    }
    &&& s.priority == match f.priority {
        Some(p) => clamp_priority_spec(p),
        None => 999,
    }
    &&& s.max_retries == match f.max_retries {
        Some(m) => m,
        None => 3,
    }
    &&& s.retry_on_abnormal_exit == match f.retry_on_abnormal_exit {
        Some(b) => b,
        None => true,
    }
    &&& s.auto_start == match f.auto_start {
        Some(b) => b,
        None => false,
    }
    &&& s.log_enabled == match f.log_enabled {
        Some(b) => b,
        None => false,
    }
    &&& s.log_retention_days == match f.log_retention_days {
        Some(d) => d,
        None => 7,
    }
}

/// The fields that a saved payload holds when it is read back.
pub open spec fn fields_of_saved(s: SavedServiceConfig) -> ServiceConfigFields {
    ServiceConfigFields {
        cwd: Some(s.cwd),
        command: Some(s.command),
        priority: Some(s.priority as i64),
        max_retries: Some(s.max_retries),
        retry_on_abnormal_exit: Some(s.retry_on_abnormal_exit),
        auto_start: Some(s.auto_start),
        log_enabled: Some(s.log_enabled),
        log_retention_days: Some(s.log_retention_days),
    }
}

/// A saved definition, read back, holds what was saved: the same working
/// directory, command, priority and flags, and the counts cut to 32 bits.
/// Saving what was read gives the same payload again.
pub proof fn law_saved_definition_reloads(
    f: ServiceConfigFields,
    s: SavedServiceConfig,
    c: ServiceConfig,
    s2: SavedServiceConfig,
)
    requires
        saved_from(f, s),
        loaded_from(fields_of_saved(s), c),
        saved_from(fields_of_saved(s), s2),
    ensures
        c.cwd@ == s.cwd@,
        c.command@ == s.command@,
        c.priority == s.priority,
        c.max_retries == low_u32(s.max_retries),
        c.retry_on_abnormal_exit == s.retry_on_abnormal_exit,
        c.auto_start == s.auto_start,
        c.log.enabled == s.log_enabled,
        c.log.retention_days == low_u32(s.log_retention_days),
        s2.cwd@ == s.cwd@,
        s2.command@ == s.command@,
        s2.priority == s.priority,
        s2.max_retries == s.max_retries,
        s2.retry_on_abnormal_exit == s.retry_on_abnormal_exit,
        s2.auto_start == s.auto_start,
        s2.log_enabled == s.log_enabled,
        s2.log_retention_days == s.log_retention_days,
{
    reveal_strlit(".");
}

/// A saved definition keeps every value the body gives as given: the flags
/// `retryOnAbnormalExit`, `autoStart` and `log.enabled`, the counts
/// `maxRetries` and `log.retentionDays`, the command, and a non-empty
/// working directory; a priority is kept when it lies in 0 to 999.
pub proof fn law_saved_keeps_given_values(f: ServiceConfigFields, s: SavedServiceConfig)
    requires
        saved_from(f, s),
    ensures
        forall|b: bool| f.retry_on_abnormal_exit == Some(b) ==> s.retry_on_abnormal_exit == b,
        forall|b: bool| f.auto_start == Some(b) ==> s.auto_start == b,
        forall|b: bool| f.log_enabled == Some(b) ==> s.log_enabled == b,
        forall|m: u64| f.max_retries == Some(m) ==> s.max_retries == m,
        forall|d: u64| f.log_retention_days == Some(d) ==> s.log_retention_days == d,
        forall|c: String| f.command == Some(c) ==> s.command@ == c@,
        forall|c: String| f.cwd == Some(c) && c@.len() > 0 ==> s.cwd@ == c@,
        forall|p: i64| f.priority == Some(p) && 0 <= p <= 999 ==> s.priority == p,
{
}

/// A loaded definition keeps every flag the file gives as given, the
/// command, a non-empty working directory, and a priority in 0 to 999.
pub proof fn law_loaded_keeps_given_values(f: ServiceConfigFields, c: ServiceConfig)
    requires
        loaded_from(f, c),
    ensures
        forall|b: bool| f.retry_on_abnormal_exit == Some(b) ==> c.retry_on_abnormal_exit == b,
        forall|b: bool| f.auto_start == Some(b) ==> c.auto_start == b,
        forall|b: bool| f.log_enabled == Some(b) ==> c.log.enabled == b,
        forall|m: u64| f.max_retries == Some(m) && m <= u32::MAX ==> c.max_retries == m,
        forall|d: u64| f.log_retention_days == Some(d) && d <= u32::MAX ==> c.log.retention_days == d,
        forall|x: String| f.command == Some(x) ==> c.command@ == x@,
        forall|x: String| f.cwd == Some(x) && x@.len() > 0 ==> c.cwd@ == x@,
        forall|p: i64| f.priority == Some(p) && 0 <= p <= 999 ==> c.priority == p,
{
}

/// Saving a definition and loading the same fields agree on everything but
/// a missing priority and the counts beyond 32 bits: the same working
/// directory, command and flags.
pub proof fn law_saved_agrees_with_loaded(f: ServiceConfigFields, s: SavedServiceConfig, c: ServiceConfig)
    requires
        saved_from(f, s),
        loaded_from(f, c),
    ensures
        s.cwd@ == c.cwd@,
        s.command@ == c.command@,
        s.retry_on_abnormal_exit == c.retry_on_abnormal_exit,
        s.auto_start == c.auto_start,
        s.log_enabled == c.log.enabled,
        f.priority is Some ==> s.priority == c.priority,
{
}

/// A priority brought into 0 to 999.
pub open spec fn clamp_priority_spec(p: i64) -> int {
    if p < 0 {
        0
    } else if p > 999 {
        999
    } else {
        p as int
    }
}

/// A priority brought into 0 to 999.
pub fn clamp_priority(p: i64) -> (r: u32)
    ensures
        r == clamp_priority_spec(p),
{
    if p < 0 {
        0
    } else if p > 999 {
        999
    } else {
        p as u32
    }
}

/// The low 32 bits of a number, as `as u32` keeps them.
pub open spec fn low_u32(v: u64) -> u32 {
    (v % 0x1_0000_0000) as u32
}

/// The low 32 bits of `v`.
fn truncate_u32(v: u64) -> (r: u32)
    ensures
        r == low_u32(v),
{
    (v % 0x1_0000_0000) as u32
}

/// The working directory of a definition, with its default.
fn cwd_text(cwd: &Option<String>) -> (r: String)
    ensures
        r@ == cwd_or_default(*cwd),
{
    match cwd {
        Some(s) => {
            if s.as_str().is_empty() {
                owned(".")
            } else {
                s.clone()
            }
        },
        None => owned("."),
    }
}

/// The text of an optional field, empty when missing.
fn text_or_empty(v: &Option<String>) -> (r: String)
    ensures
        r@ == match *v {
            Some(s) => s@,
            None => Seq::<char>::empty(),
        },
{
    match v {
        Some(s) => s.clone(),
        None => {
            let r = String::new();
            r
        },
    }
}

/// What a definition file or request body holds: its fields, with the
/// priority left out of them and kept as the JSON number it was written
/// as (a number is cut to an integer as a float, which this library does
/// not compute).
pub struct DefinitionDocument {
    pub fields: ServiceConfigFields,
    pub priority: Option<serde_json::Number>,
}

/// `d` holds what the JSON value `v` says of a definition: `cwd` and
/// `command` when strings, `maxRetries` and `log.retentionDays` when
/// unsigned integers, `retryOnAbnormalExit`, `autoStart` and `log.enabled`
/// when flags, and `priority` when a number.
pub open spec fn definition_read(v: serde_json::Value, d: DefinitionDocument) -> bool {
    &&& opt_string_view(d.fields.cwd) == string_member(v, "cwd"@)
    &&& opt_string_view(d.fields.command) == string_member(v, "command"@)
    &&& d.fields.priority is None
    &&& d.priority == number_member(v, "priority"@)
    &&& d.fields.max_retries == u64_member(v, "maxRetries"@)
    &&& d.fields.retry_on_abnormal_exit == bool_member(v, "retryOnAbnormalExit"@)
    &&& d.fields.auto_start == bool_member(v, "autoStart"@)
    &&& d.fields.log_enabled == match nested_member(v, "log"@, "enabled"@) {
        Some(m) => json_bool_of(m),
        None => None,
    }
    &&& d.fields.log_retention_days == match nested_member(v, "log"@, "retentionDays"@) {
        Some(m) => json_u64_of(m),
        None => None,
    }
}

/// The definition a parsed JSON value holds.
pub fn definition_of(v: &serde_json::Value) -> (r: DefinitionDocument)
    ensures
        definition_read(*v, r),
{
    let fields = ServiceConfigFields {
        cwd: member_text(v, "cwd"),
        command: member_text(v, "command"),
        priority: None,
        max_retries: member_u64(v, "maxRetries"),
        retry_on_abnormal_exit: member_bool(v, "retryOnAbnormalExit"),
        auto_start: member_bool(v, "autoStart"),
        log_enabled: nested_bool(v, "log", "enabled"),
        log_retention_days: nested_u64(v, "log", "retentionDays"),
    };
    DefinitionDocument { fields, priority: member_number(v, "priority") }
}

/// The definition in the JSON text `raw` (a definition file, or the body
/// of a request that creates or edits one); `None` when it is not JSON.
pub fn read_definition(raw: &[u8]) -> (r: Option<DefinitionDocument>)
    ensures
        match r {
            Some(d) => json_parse(raw@) is Some && definition_read(json_parse(raw@)->0, d),
            None => json_parse(raw@) is None,
        },
{
    match json_from_slice(raw) {
        Some(v) => Some(definition_of(&v)),
        None => None,
    }
}

impl ServiceConfig {
    /// A definition with its defaults applied: `cwd` `.`, `command` empty,
    /// `priority` 0 (else brought into 0 to 999), `maxRetries` 3,
    /// `retryOnAbnormalExit` true, `autoStart` false, logging off, seven
    /// days of retention. Counts keep their low 32 bits.
    pub fn from_fields(f: &ServiceConfigFields) -> (r: Self)
        ensures
            loaded_from(*f, r),
    {
        ServiceConfig {
            cwd: cwd_text(&f.cwd),
            command: text_or_empty(&f.command),
            priority: match f.priority {
                Some(p) => clamp_priority(p),
                None => 0,
            },
            max_retries: match f.max_retries {
                Some(m) => truncate_u32(m),
                None => 3,
            },
            retry_on_abnormal_exit: match f.retry_on_abnormal_exit {
                Some(b) => b,
                None => true,
            },
            auto_start: match f.auto_start {
                Some(b) => b,
                None => false,
            },
            log: LogConfig {
                enabled: match f.log_enabled {
                    Some(b) => b,
                    None => false,
                },
                retention_days: match f.log_retention_days {
                    Some(d) => truncate_u32(d),
                    None => 7,
                },
            },
        }
    }
}

impl SavedServiceConfig {
    /// The payload saved for a request body: the same defaults as a loaded
    /// definition, but a missing `priority` is stored as 999 and counts are
    /// stored whole.
    pub fn from_fields(f: &ServiceConfigFields) -> (r: Self)
        ensures
            saved_from(*f, r),
    {
        SavedServiceConfig {
            cwd: cwd_text(&f.cwd),
            command: text_or_empty(&f.command),
            priority: match f.priority {
                Some(p) => clamp_priority(p) as u64,
                None => 999,
            },
            max_retries: match f.max_retries {
                Some(m) => m,
                None => 3,
            },
            retry_on_abnormal_exit: match f.retry_on_abnormal_exit {
                Some(b) => b,
                None => true,
            },
            auto_start: match f.auto_start {
                Some(b) => b,
                None => false,
            },
            log_enabled: match f.log_enabled {
                Some(b) => b,
                None => false,
            },
            log_retention_days: match f.log_retention_days {
                Some(d) => d,
                None => 7,
            },
        }
    }
}

/// The service a directory entry defines: a file name that ends in `.json`
/// after a non-empty stem defines the service named by the stem.
pub open spec fn json_stem(name: Seq<char>) -> Option<Seq<char>> {
    if name.len() > 5 && is_suffix(".json"@, name) {
        Some(name.subrange(0, name.len() - 5))
    } else {
        None
    }
}

/// The services that a list of directory entries defines, in entry order.
pub open spec fn json_stems(names: Seq<Seq<char>>) -> Seq<Seq<char>>
    decreases names.len(),
{
    if names.len() == 0 {
        Seq::<Seq<char>>::empty()
    } else {
        let rest = json_stems(names.drop_last());
        match json_stem(names.last()) {
            Some(s) => rest.push(s),
            None => rest,
        }
    }
}

/// Lexicographic order of character sequences (which, for UTF-8 text, is
/// the byte order that `String` sorts by).
pub open spec fn lex_le(a: Seq<char>, b: Seq<char>) -> bool
    decreases a.len(),
{
    if a.len() == 0 {
        true
    } else if b.len() == 0 {
        false
    } else if a[0] != b[0] {
        (a[0] as u32) < (b[0] as u32)
    } else {
        lex_le(a.drop_first(), b.drop_first())
    }
}

/// A sequence comes no later than any sequence it begins.
proof fn lemma_lex_prefix(a: Seq<char>, b: Seq<char>)
    requires
        is_prefix(a, b),
    ensures
        lex_le(a, b),
    decreases a.len(),
{
    if a.len() > 0 {
        assert(b[0] == b.subrange(0, a.len() as int)[0]);
        assert(b.drop_first().subrange(0, a.drop_first().len() as int) =~= b.subrange(0, a.len() as int).drop_first());
        lemma_lex_prefix(a.drop_first(), b.drop_first());
    }
}

/// Where two sequences first differ, the smaller character comes first.
proof fn lemma_lex_first_difference(a: Seq<char>, b: Seq<char>, i: int)
    requires
        0 <= i < a.len(),
        i < b.len(),
        forall|j: int| 0 <= j < i ==> a[j] == b[j],
        (a[i] as u32) < (b[i] as u32),
    ensures
        lex_le(a, b),
        !lex_le(b, a),
    decreases i,
{
    if i > 0 {
        assert forall|j: int| 0 <= j < i - 1 implies a.drop_first()[j] == b.drop_first()[j] by {
            assert(a[j + 1] == b[j + 1]);
        }
        lemma_lex_first_difference(a.drop_first(), b.drop_first(), i - 1);
        assert(a[0] == b[0]);
    }
}

/// The order of service names is the plain string order of `String::cmp`,
/// whatever the lengths: a name comes no later than every name it begins,
/// and where two names first differ, the one with the smaller character
/// there comes first and not the other (so `api-server` before `web`).
pub proof fn law_lex_le_is_string_order(a: Seq<char>, b: Seq<char>, i: int)
    ensures
        is_prefix(a, b) ==> lex_le(a, b),
        (0 <= i < a.len() && i < b.len() && a.take(i) == b.take(i) && (a[i] as u32) < (b[i] as u32))
            ==> lex_le(a, b) && !lex_le(b, a),
{
    if is_prefix(a, b) {
        lemma_lex_prefix(a, b);
    }
    if 0 <= i < a.len() && i < b.len() && a.take(i) == b.take(i) && (a[i] as u32) < (b[i] as u32) {
        assert forall|j: int| 0 <= j < i implies a[j] == b[j] by {
            assert(a[j] == a.take(i)[j]);
            assert(b[j] == b.take(i)[j]);
        }
        lemma_lex_first_difference(a, b, i);
    }
}

/// Either of two sequences comes first.
pub proof fn lemma_lex_total(a: Seq<char>, b: Seq<char>)
    ensures
        lex_le(a, b) || lex_le(b, a),
    decreases a.len(),
{
    if a.len() > 0 && b.len() > 0 {
        if a[0] == b[0] {
            lemma_lex_total(a.drop_first(), b.drop_first());
        } else {
            vstd::utf8::char_u32_cast(a[0], a[0] as u32);
            vstd::utf8::char_u32_cast(b[0], b[0] as u32);
            assert((a[0] as u32) != (b[0] as u32));
        }
    }
}

/// The order is transitive.
pub proof fn lemma_lex_transitive(a: Seq<char>, b: Seq<char>, c: Seq<char>)
    requires
        lex_le(a, b),
        lex_le(b, c),
    ensures
        lex_le(a, c),
    decreases a.len(),
{
    if a.len() > 0 && b.len() > 0 && c.len() > 0 && a[0] == b[0] && b[0] == c[0] {
        lemma_lex_transitive(a.drop_first(), b.drop_first(), c.drop_first());
    }
}

/// Sequences in order both ways are equal.
pub proof fn lemma_lex_antisymmetric(a: Seq<char>, b: Seq<char>)
    requires
        lex_le(a, b),
        lex_le(b, a),
    ensures
        a == b,
    decreases a.len(),
{
    if a.len() > 0 && b.len() > 0 {
        lemma_lex_antisymmetric(a.drop_first(), b.drop_first());
        assert(a =~= seq![a[0]] + a.drop_first());
        assert(b =~= seq![b[0]] + b.drop_first());
    }
}

/// Whether `a` comes no later than `b`.
pub fn str_le(a: &str, b: &str) -> (r: bool)
    ensures
        r == lex_le(a@, b@),
{
    let ca = chars_of(a);
    let cb = chars_of(b);
    let mut i: usize = 0;
    assert(ca@.subrange(0, ca@.len() as int) =~= ca@);
    assert(cb@.subrange(0, cb@.len() as int) =~= cb@);
    while i < ca.len() && i < cb.len() && ca[i] == cb[i]
        invariant
            ca@ == a@,
            cb@ == b@,
            i <= ca@.len(),
            i <= cb@.len(),
            lex_le(a@, b@) == lex_le(ca@.subrange(i as int, ca@.len() as int), cb@.subrange(i as int, cb@.len() as int)),
        decreases ca@.len() - i,
    {
        assert(ca@.subrange(i as int, ca@.len() as int).drop_first() =~= ca@.subrange(i + 1, ca@.len() as int));
        assert(cb@.subrange(i as int, cb@.len() as int).drop_first() =~= cb@.subrange(i + 1, cb@.len() as int));
        i = i + 1;
    }
    if i == ca.len() {
        true
    } else if i == cb.len() {
        false
    } else {
        (ca[i] as u32) < (cb[i] as u32)
    }
}

/// Whether a sequence of names is in lexicographic order.
pub open spec fn names_sorted(s: Seq<Seq<char>>) -> bool {
    forall|i: int, j: int| 0 <= i < j < s.len() ==> lex_le(#[trigger] s[i], #[trigger] s[j])
}

/// The characters of each string.
pub open spec fn views_of(v: Seq<String>) -> Seq<Seq<char>> {
    v.map_values(|s: String| s@)
}

/// Insert `x` into a list in lexicographic order, keeping it in order.
fn insert_sorted(r: &mut Vec<String>, x: String)
    requires
        names_sorted(views_of(old(r)@)),
    ensures
        names_sorted(views_of(final(r)@)),
        views_of(final(r)@).to_multiset() == views_of(old(r)@).to_multiset().insert(x@),
{
    let mut p = r.len();
    while p > 0 && !str_le(r[p - 1].as_str(), x.as_str())
        invariant
            p <= r@.len(),
            forall|j: int| p <= j < r@.len() ==> !lex_le(#[trigger] r@[j]@, x@),
        decreases p,
    {
        p = p - 1;
    }
    let ghost before = r@;
    let ghost xv = x@;
    r.insert(p, x);
    proof {
        assert(views_of(r@) =~= views_of(before).insert(p as int, xv));
        vstd::seq_lib::to_multiset_insert(views_of(before), p as int, xv);
        assert forall|i: int, j: int| 0 <= i < j < r@.len() implies lex_le(
            #[trigger] views_of(r@)[i],
            #[trigger] views_of(r@)[j],
        ) by {
            let vi = views_of(r@)[i];
            let vj = views_of(r@)[j];
            if i < p && j < p {
                assert(lex_le(views_of(before)[i], views_of(before)[j]));
            } else if i < p && j == p {
                assert(lex_le(before[p - 1]@, xv));
                if i < p - 1 {
                    assert(lex_le(views_of(before)[i], views_of(before)[p - 1]));
                    lemma_lex_transitive(vi, before[p - 1]@, xv);
                }
            } else if i < p && j > p {
                assert(lex_le(views_of(before)[i], views_of(before)[j - 1]));
            } else if i == p {
                assert(!lex_le(before[j - 1]@, xv));
                lemma_lex_total(before[j - 1]@, xv);
            } else {
                assert(lex_le(views_of(before)[i - 1], views_of(before)[j - 1]));
            }
        }
    }
}

/// The names of the services defined by a directory's entries, in
/// lexicographic order.
pub fn json_service_names(file_names: &Vec<String>) -> (r: Vec<String>)
    ensures
        names_sorted(views_of(r@)),
        views_of(r@).to_multiset() == json_stems(views_of(file_names@)).to_multiset(),
{
    let mut r: Vec<String> = Vec::new();
    let mut i: usize = 0;
    let ghost names = views_of(file_names@);
    assert(views_of(r@).to_multiset() =~= json_stems(names.take(0)).to_multiset()) by {
        assert(views_of(r@) =~= Seq::<Seq<char>>::empty());
        assert(names.take(0) =~= Seq::<Seq<char>>::empty());
    }
    while i < file_names.len()
        invariant
            names == views_of(file_names@),
            i <= file_names@.len(),
            names_sorted(views_of(r@)),
            views_of(r@).to_multiset() == json_stems(names.take(i as int)).to_multiset(),
        decreases file_names@.len() - i,
    {
        let name = file_names[i].as_str();
        assert(names.take(i + 1).drop_last() =~= names.take(i as int));
        assert(names.take(i + 1).last() == name@);
        let n = chars_of(name);
        if n.len() > 5 && ends_with(name, ".json") {
            let stem = substring(name, 0, n.len() - 5);
            let ghost sv = stem@;
            insert_sorted(&mut r, stem);
            proof {
                vstd::seq_lib::to_multiset_build(json_stems(names.take(i as int)), sv);
            }
        }
        i = i + 1;
    }
    assert(names.take(file_names@.len() as int) =~= names);
    r
}

/// Place `x` after the entries of `s` whose priority is at least its own,
/// and before the rest.
pub open spec fn insert_by_priority(s: Seq<(String, ServiceConfig)>, x: (String, ServiceConfig)) -> Seq<(String, ServiceConfig)>
    decreases s.len(),
{
    if s.len() == 0 || s.last().1.priority >= x.1.priority {
        s.push(x)
    } else {
        insert_by_priority(s.drop_last(), x).push(s.last())
    }
}

/// `s` sorted by priority, highest first, keeping the order of entries of
/// equal priority: a stable sort.
pub open spec fn priority_order(s: Seq<(String, ServiceConfig)>) -> Seq<(String, ServiceConfig)>
    decreases s.len(),
{
    if s.len() == 0 {
        s
    } else {
        insert_by_priority(priority_order(s.drop_last()), s.last())
    }
}

/// The entries that start with the daemon, in order.
pub open spec fn auto_start_entries(s: Seq<(String, ServiceConfig)>) -> Seq<(String, ServiceConfig)>
    decreases s.len(),
{
    if s.len() == 0 {
        s
    } else if s.last().1.auto_start {
        auto_start_entries(s.drop_last()).push(s.last())
    } else {
        auto_start_entries(s.drop_last())
    }
}

proof fn lemma_insert_by_priority_at(s: Seq<(String, ServiceConfig)>, x: (String, ServiceConfig), p: int)
    requires
        0 <= p <= s.len(),
        p == 0 || s[p - 1].1.priority >= x.1.priority,
        forall|j: int| p <= j < s.len() ==> #[trigger] s[j].1.priority < x.1.priority,
    ensures
        insert_by_priority(s, x) == s.insert(p, x),
    decreases s.len(),
{
    if s.len() == 0 {
        assert(s.insert(p, x) =~= s.push(x));
    } else if p == s.len() {
        assert(s.insert(p, x) =~= s.push(x));
    } else {
        assert(s.last().1.priority < x.1.priority);
        lemma_insert_by_priority_at(s.drop_last(), x, p);
        assert(s.insert(p, x) =~= s.drop_last().insert(p, x).push(s.last()));
    }
}

/// The services that start with the daemon, highest priority first; those
/// of equal priority keep their order.
pub fn autostart_order(configs: Vec<(String, ServiceConfig)>) -> (r: Vec<(String, ServiceConfig)>)
    ensures
        r@ == priority_order(auto_start_entries(configs@)),
{
    let ghost all = configs@;
    let mut picked: Vec<(String, ServiceConfig)> = Vec::new();
    let mut rest = configs;
    let mut i: usize = 0;
    let _total = rest.len();
    assert(auto_start_entries(all.take(0)) =~= Seq::<(String, ServiceConfig)>::empty());
    // Move the entries out in order, keeping those that start with the daemon.
    while rest.len() > 0
        invariant
            i + rest@.len() == all.len(),
            rest@ == all.skip(i as int),
            picked@ == auto_start_entries(all.take(i as int)),
            all.len() <= usize::MAX,
        decreases rest@.len(),
    {
        let e = rest.remove(0);
        assert(e == all[i as int]);
        assert(all.take(i + 1).drop_last() =~= all.take(i as int));
        assert(rest@ =~= all.skip(i + 1));
        if e.1.auto_start {
            picked.push(e);
        }
        i = i + 1;
    }
    assert(all.take(all.len() as int) =~= all);
    let ghost cands = picked@;
    let mut sorted: Vec<(String, ServiceConfig)> = Vec::new();
    let mut j: usize = 0;
    let mut source = picked;
    let _count = source.len();
    assert(priority_order(cands.take(0)) =~= Seq::<(String, ServiceConfig)>::empty());
    while source.len() > 0
        invariant
            j + source@.len() == cands.len(),
            source@ == cands.skip(j as int),
            sorted@ == priority_order(cands.take(j as int)),
            cands.len() <= usize::MAX,
        decreases source@.len(),
    {
        let x = source.remove(0);
        assert(x == cands[j as int]);
        assert(cands.take(j + 1).drop_last() =~= cands.take(j as int));
        assert(source@ =~= cands.skip(j + 1));
        let mut p = sorted.len();
        while p > 0 && sorted[p - 1].1.priority < x.1.priority
            invariant
                p <= sorted@.len(),
                forall|q: int| p <= q < sorted@.len() ==> #[trigger] sorted@[q].1.priority < x.1.priority,
            decreases p,
        {
            p = p - 1;
        }
        proof {
            lemma_insert_by_priority_at(sorted@, x, p as int);
        }
        sorted.insert(p, x);
        j = j + 1;
    }
    assert(cands.take(cands.len() as int) =~= cands);
    sorted
}

/// Whether entries are in order of priority, highest first.
pub open spec fn by_priority_desc(s: Seq<(String, ServiceConfig)>) -> bool {
    forall|i: int, j: int| 0 <= i < j < s.len() ==> #[trigger] s[i].1.priority >= #[trigger] s[j].1.priority
}

proof fn lemma_insert_by_priority(s: Seq<(String, ServiceConfig)>, x: (String, ServiceConfig))
    requires
        by_priority_desc(s),
    ensures
        by_priority_desc(insert_by_priority(s, x)),
        insert_by_priority(s, x).to_multiset() == s.to_multiset().insert(x),
    decreases s.len(),
{
    broadcast use vstd::seq_lib::to_multiset_build, vstd::seq_lib::to_multiset_contains;

    if s.len() == 0 || s.last().1.priority >= x.1.priority {
    } else {
        let t = s.drop_last();
        assert(by_priority_desc(t));
        lemma_insert_by_priority(t, x);
        let u = insert_by_priority(t, x);
        assert(s =~= t.push(s.last()));
        assert forall|i: int, j: int| 0 <= i < j < u.len() + 1 implies #[trigger] u.push(s.last())[i].1.priority
            >= #[trigger] u.push(s.last())[j].1.priority by {
            if j == u.len() {
                // Every entry of u is an entry of t or x; each is at least s.last().
                assert(u.contains(u[i]));
                assert(u.to_multiset().count(u[i]) > 0);
                assert(u.to_multiset() == t.to_multiset().insert(x));
                if u[i] != x {
                    assert(t.to_multiset().count(u[i]) > 0);
                    assert(t.contains(u[i]));
                    let k = choose|k: int| 0 <= k < t.len() && t[k] == u[i];
                    assert(s[k].1.priority >= s[s.len() - 1].1.priority);
                }
            }
        }
    }
}

/// The services that start with the daemon come in order of priority,
/// highest first, and are exactly those marked to start with it.
pub proof fn law_autostart_by_priority(s: Seq<(String, ServiceConfig)>)
    ensures
        by_priority_desc(priority_order(auto_start_entries(s))),
        priority_order(auto_start_entries(s)).to_multiset() == auto_start_entries(s).to_multiset(),
        forall|i: int| 0 <= i < priority_order(auto_start_entries(s)).len()
            ==> (#[trigger] priority_order(auto_start_entries(s))[i]).1.auto_start,
{
    broadcast use vstd::seq_lib::to_multiset_contains;

    lemma_priority_order(auto_start_entries(s));
    lemma_auto_start_entries(s);
    let o = priority_order(auto_start_entries(s));
    assert forall|i: int| 0 <= i < o.len() implies (#[trigger] o[i]).1.auto_start by {
        assert(o.contains(o[i]));
        assert(o.to_multiset().count(o[i]) > 0);
        assert(auto_start_entries(s).contains(o[i]));
        let k = choose|k: int| 0 <= k < auto_start_entries(s).len() && auto_start_entries(s)[k] == o[i];
        assert(auto_start_entries(s)[k].1.auto_start);
    }
}

proof fn lemma_auto_start_entries(s: Seq<(String, ServiceConfig)>)
    ensures
        forall|i: int| 0 <= i < auto_start_entries(s).len() ==> (#[trigger] auto_start_entries(s)[i]).1.auto_start,
    decreases s.len(),
{
    if s.len() > 0 {
        lemma_auto_start_entries(s.drop_last());
        let r = auto_start_entries(s.drop_last());
        assert forall|i: int| 0 <= i < auto_start_entries(s).len() implies (
        #[trigger] auto_start_entries(s)[i]).1.auto_start by {
            if i < r.len() {
                assert(r[i].1.auto_start);
            }
        }
    }
}

proof fn lemma_priority_order(s: Seq<(String, ServiceConfig)>)
    ensures
        by_priority_desc(priority_order(s)),
        priority_order(s).to_multiset() == s.to_multiset(),
    decreases s.len(),
{
    broadcast use vstd::seq_lib::to_multiset_build;

    if s.len() == 0 {
    } else {
        lemma_priority_order(s.drop_last());
        lemma_insert_by_priority(priority_order(s.drop_last()), s.last());
        assert(s =~= s.drop_last().push(s.last()));
    }
}

/// The entries of priority `v`, in order.
pub open spec fn with_priority(s: Seq<(String, ServiceConfig)>, v: u32) -> Seq<(String, ServiceConfig)>
    decreases s.len(),
{
    if s.len() == 0 {
        s
    } else if s.last().1.priority == v {
        with_priority(s.drop_last(), v).push(s.last())
    } else {
        with_priority(s.drop_last(), v)
    }
}

proof fn lemma_insert_keeps_priority_groups(s: Seq<(String, ServiceConfig)>, x: (String, ServiceConfig), v: u32)
    ensures
        with_priority(insert_by_priority(s, x), v) == if x.1.priority == v {
            with_priority(s, v).push(x)
        } else {
            with_priority(s, v)
        },
    decreases s.len(),
{
    if s.len() == 0 || s.last().1.priority >= x.1.priority {
        assert(s.push(x).drop_last() =~= s);
    } else {
        lemma_insert_keeps_priority_groups(s.drop_last(), x, v);
        let u = insert_by_priority(s.drop_last(), x);
        assert(u.push(s.last()).drop_last() =~= u);
    }
}

proof fn lemma_order_keeps_priority_groups(s: Seq<(String, ServiceConfig)>, v: u32)
    ensures
        with_priority(priority_order(s), v) == with_priority(s, v),
    decreases s.len(),
{
    if s.len() > 0 {
        lemma_order_keeps_priority_groups(s.drop_last(), v);
        lemma_insert_keeps_priority_groups(priority_order(s.drop_last()), s.last(), v);
    }
}

/// Services of equal priority start in the order in which they are listed:
/// for each priority, the services of that priority come in the same order
/// before and after the ordering.
pub proof fn law_autostart_keeps_listed_order(s: Seq<(String, ServiceConfig)>, v: u32)
    ensures
        with_priority(priority_order(auto_start_entries(s)), v) == with_priority(auto_start_entries(s), v),
{
    lemma_order_keeps_priority_groups(auto_start_entries(s), v);
}

/// The port in an environment value: the value parsed as a 16-bit number,
/// else `default` (also when the variable is unset or empty).
pub fn env_u16(value: Option<&str>, default: u16) -> (r: u16)
    ensures
        r == match value {
            Some(v) => match parse_int_seq(v@, false, 0, u16::MAX as int) {
                Some(n) => n as u16,
                None => default,
            },
            None => default,
        },
{
    match value {
        Some(v) => match parse_u16(v) {
            Some(n) => n,
            None => default,
        },
        None => default,
    }
}

/// A flag in an environment value: true exactly when the value is `true`.
pub fn env_bool(value: Option<&str>) -> (r: bool)
    ensures
        r == match value {
            Some(v) => v@ == "true"@,
            None => false,
        },
{
    match value {
        Some(v) => str_eq(v, "true"),
        None => false,
    }
}

/// A priority is brought into 0 to 999: kept when it lies there, 0 below,
/// 999 above; a higher priority is never brought below a lower one.
pub proof fn law_priority_clamp(p: i64, q: i64)
    ensures
        0 <= clamp_priority_spec(p) <= 999,
        0 <= p <= 999 ==> clamp_priority_spec(p) == p,
        p < 0 ==> clamp_priority_spec(p) == 0,
        p > 999 ==> clamp_priority_spec(p) == 999,
        p <= q ==> clamp_priority_spec(p) <= clamp_priority_spec(q),
{
}

/// A count that fits in 32 bits is kept as it is, and counts that differ
/// by a multiple of 2^32 are cut to the same value.
pub proof fn law_low_bits(v: u64, k: u64)
    ensures
        v <= u32::MAX ==> low_u32(v) == v,
        low_u32(v) < 0x1_0000_0000,
        v + k * 0x1_0000_0000 <= u64::MAX ==> low_u32((v + k * 0x1_0000_0000) as u64) == low_u32(v),
{
    if v + k * 0x1_0000_0000 <= u64::MAX {
        assert(((v + k * 0x1_0000_0000) as u64) % 0x1_0000_0000 == v % 0x1_0000_0000) by (nonlinear_arith)
            requires
                v + k * 0x1_0000_0000 <= u64::MAX,
        ;
    }
}

/// A directory entry `<name>.json` defines the service `<name>` for every
/// non-empty name, and an entry defines a service only when it is the
/// service's name followed by `.json`.
pub proof fn law_json_stem(name: Seq<char>, entry: Seq<char>)
    ensures
        name.len() > 0 ==> json_stem(name + ".json"@) == Some(name),
        json_stem(entry) is Some ==> json_stem(entry)->0.len() > 0 && entry == json_stem(entry)->0 + ".json"@,
{
    reveal_strlit(".json");
    if name.len() > 0 {
        let e = name + ".json"@;
        assert(e.subrange(e.len() - 5, e.len() as int) =~= ".json"@);
        assert(e.subrange(0, e.len() - 5) =~= name);
    }
    if json_stem(entry) is Some {
        assert(entry =~= entry.subrange(0, entry.len() - 5) + entry.subrange(entry.len() - 5, entry.len() as int));
    }
}

} // verus!
