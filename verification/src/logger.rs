//! Per-service logging: each service writes to `logs/<name>/current.log`;
//! on a date rollover the content moves to `<date>.log`, and dated logs
//! older than the retention are removed. The files themselves are read and
//! written by the caller; this module decides names, lines and removals.

use vstd::prelude::*;
use crate::config::{joined_path, owned_path, path_join, path_to_buf, LogConfig};
use crate::text::{concat2, concat3, ends_with, is_suffix, str_eq};

verus! {

/// A service's log: whether it is written, how many days dated logs are
/// kept (0: forever), and its directory.
pub struct ServiceLogger {
    enabled: bool,
    retention_days: u32,
    dir: std::path::PathBuf,
}

impl ServiceLogger {
    /// Whether the log is written.
    pub closed spec fn enabled_spec(&self) -> bool {
        self.enabled
    }

    /// How many days dated logs are kept.
    pub closed spec fn retention_days_spec(&self) -> u32 {
        self.retention_days
    }

    /// The directory of the log.
    pub closed spec fn dir_spec(&self) -> std::path::PathBuf {
        self.dir
    }

    /// The log of `service_name`, in its own directory under `logs_base`.
    pub fn new(service_name: &str, log_cfg: &LogConfig, logs_base: &std::path::Path) -> (r: Self)
        ensures
            r.enabled_spec() == log_cfg.enabled,
            r.retention_days_spec() == log_cfg.retention_days,
            r.dir_spec() == joined_path(owned_path(logs_base), service_name@),
    {
        let base = path_to_buf(logs_base);
        ServiceLogger {
            enabled: log_cfg.enabled,
            retention_days: log_cfg.retention_days,
            dir: path_join(&base, service_name),
        }
    }

    /// Whether the log is written.
    pub fn is_enabled(&self) -> (r: bool)
        ensures
            r == self.enabled_spec(),
    {
        self.enabled
    }

    /// How many days dated logs are kept; 0 keeps them forever.
    pub fn retention_days(&self) -> (r: u32)
        ensures
            r == self.retention_days_spec(),
    {
        self.retention_days
    }

    /// The directory of the log.
    pub fn dir(&self) -> (r: &std::path::PathBuf)
        ensures
            *r == self.dir_spec(),
    {
        &self.dir
    }

    /// The file written to: `current.log`.
    pub fn current_log_path(&self) -> (r: std::path::PathBuf)
        ensures
            r == joined_path(self.dir_spec(), "current.log"@),
    {
        path_join(&self.dir, "current.log")
    }

    /// The file of a past day: `<date>.log`.
    pub fn date_log_path(&self, date: &str) -> (r: std::path::PathBuf)
        ensures
            r == joined_path(self.dir_spec(), date@ + ".log"@),
    {
        let name = dated_log_name(date);
        path_join(&self.dir, name.as_str())
    }

    /// Nothing to flush: writes are synchronous.
    pub fn close(&self) {
    }
}

/// The file name of the log of `date`.
pub fn dated_log_name(date: &str) -> (r: String)
    ensures
        r@ == date@ + ".log"@,
{
    concat2(date, ".log")
}

/// A log line: the timestamp in brackets, a space, then the data.
pub fn log_line(timestamp: &str, data: &str) -> (r: String)
    ensures
        r@ == "["@ + timestamp@ + "] "@ + data@,
{
    let mut r = concat3("[", timestamp, "] ");
    r.append(data);
    r
}

/// Whether `current.log`, last written on `file_date`, is to be merged into
/// that day's log because today is another day.
pub fn needs_rollover(file_date: &str, today: &str) -> (r: bool)
    ensures
        r == (file_date@ != today@),
{
    !str_eq(file_date, today)
}

/// Whether the log file `file_name`, last changed `age_secs` seconds ago
/// (`None` when that lies in the future), is removed: never when retention
/// is 0, never `current.log` or a name not ending in `.log`, otherwise when
/// it is older than the retention, `retention_days` days of 86400 seconds.
pub open spec fn expired_log(file_name: Seq<char>, age_secs: Option<u64>, retention_days: u32) -> bool {
    &&& retention_days != 0
    &&& file_name != "current.log"@
    &&& is_suffix(".log"@, file_name)
    &&& match age_secs {
        Some(s) => s > retention_days * 86400,
        None => false,
    }
}

/// Whether a dated log is removed by the retention cleanup.
pub fn is_expired_log(file_name: &str, age_secs: Option<u64>, retention_days: u32) -> (r: bool)
    ensures
        r == expired_log(file_name@, age_secs, retention_days),
{
    if retention_days == 0 {
        return false;
    }
    if str_eq(file_name, "current.log") || !ends_with(file_name, ".log") {
        return false;
    }
    match age_secs {
        Some(s) => s > (retention_days as u64) * 86400,
        None => false,
    }
}

/// The retention cleanup never removes `current.log`, and removes nothing
/// when the retention is 0.
pub proof fn law_cleanup_keeps_current(file_name: Seq<char>, age_secs: Option<u64>, retention_days: u32)
    requires
        file_name == "current.log"@ || retention_days == 0,
    ensures
        !expired_log(file_name, age_secs, retention_days),
{
}

/// The retention keeps every dated log no older than `retention_days`
/// days of 86400 seconds and removes every one that is older, whatever the
/// retention (other than 0, which keeps everything); a log younger than
/// the retention is never removed.
pub proof fn law_retention_by_age(file_name: Seq<char>, age_secs: u64, retention_days: u32)
    requires
        retention_days > 0,
        file_name != "current.log"@,
        is_suffix(".log"@, file_name),
    ensures
        age_secs <= retention_days * 86400 ==> !expired_log(file_name, Some(age_secs), retention_days),
        age_secs > retention_days * 86400 ==> expired_log(file_name, Some(age_secs), retention_days),
{
}

/// A log removed at some age is removed at every greater age and under
/// every shorter retention, and one kept is kept under every longer one.
pub proof fn law_retention_monotonic(file_name: Seq<char>, age: u64, older: u64, r: u32, longer: u32)
    requires
        age <= older,
        0 < r <= longer,
    ensures
        expired_log(file_name, Some(age), longer) ==> expired_log(file_name, Some(older), r),
        !expired_log(file_name, Some(older), r) ==> !expired_log(file_name, Some(age), longer),
{
    assert(r * 86400 <= longer * 86400) by (nonlinear_arith)
        requires
            r <= longer,
    ;
}

} // verus!
