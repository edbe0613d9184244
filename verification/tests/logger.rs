use rust_daemon::config::LogConfig;
use rust_daemon::logger::{dated_log_name, is_expired_log, log_line, needs_rollover, ServiceLogger};
use std::path::{Path, PathBuf};

#[test]
fn logger_paths_and_settings() {
    let l = ServiceLogger::new("web", &LogConfig { enabled: true, retention_days: 7 }, Path::new("/var/logs"));
    assert!(l.is_enabled());
    assert_eq!(l.retention_days(), 7);
    assert_eq!(l.dir(), Path::new("/var/logs/web"));
    assert_eq!(l.current_log_path(), PathBuf::from("/var/logs/web/current.log"));
    assert_eq!(l.date_log_path("20240102"), PathBuf::from("/var/logs/web/20240102.log"));
    l.close();
}

#[test]
fn log_lines_and_names() {
    assert_eq!(log_line("2024-01-02 03:04:05", "hello\n"), "[2024-01-02 03:04:05] hello\n");
    assert_eq!(dated_log_name("20240102"), "20240102.log");
    assert!(needs_rollover("20240101", "20240102"));
    assert!(!needs_rollover("20240102", "20240102"));
}

#[test]
fn retention_cleanup_decisions() {
    let day = 86_400;
    assert!(is_expired_log("20240101.log", Some(8 * day), 7));
    // Seven and a half days is older than seven days.
    assert!(is_expired_log("20240101.log", Some(7 * day + day / 2), 7));
    assert!(is_expired_log("20240101.log", Some(7 * day + 1), 7));
    assert!(!is_expired_log("20240101.log", Some(7 * day), 7));
    assert!(!is_expired_log("20240101.log", Some(0), 1));
    assert!(!is_expired_log("current.log", Some(100 * day), 7));
    assert!(!is_expired_log("notes.txt", Some(100 * day), 7));
    assert!(!is_expired_log("20240101.log", Some(100 * day), 0));
    assert!(!is_expired_log("20240101.log", None, 7));
}
