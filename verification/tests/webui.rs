use rust_daemon::config::{LogConfig, ServiceConfig};
use rust_daemon::lifecycle::ServiceStatus;
use rust_daemon::session::{LoginLimiter, SessionStore};
use rust_daemon::webui::{
    cache_key,
    change_refusal, listed_config, login_at, DefinitionChange, LoginOutcome,
    check_login_fields, client_ip, csrf_cookie, file_extension, is_safe_relative_path,
    route_fallback, session_cookie, valid_service_id, FallbackRoute, FileCache, FileTime,
    LoginRefusal, login_fields, new_service_request, NewServiceRequest,
};

#[test]
fn fallback_routes() {
    assert_eq!(route_fallback("/"), FallbackRoute::RedirectToWebui);
    assert_eq!(route_fallback("/webui"), FallbackRoute::File("index.html".to_string()));
    assert_eq!(route_fallback("/webui/"), FallbackRoute::File("index.html".to_string()));
    assert_eq!(route_fallback("/webui/index.html"), FallbackRoute::File("index.html".to_string()));
    assert_eq!(route_fallback("/webui/js/app.js"), FallbackRoute::File("js/app.js".to_string()));
    assert_eq!(route_fallback("/webui/api"), FallbackRoute::NotFound);
    assert_eq!(route_fallback("/webui/api/nope"), FallbackRoute::NotFound);
    assert_eq!(route_fallback("/webui/apix"), FallbackRoute::File("apix".to_string()));
    assert_eq!(route_fallback("/other"), FallbackRoute::NotFound);
}

#[test]
fn traversal_is_refused() {
    for windows in [false, true] {
        for p in ["index.html", "js/app.js", "a/./b", "a//b", "a/b/", ""] {
            assert!(is_safe_relative_path(p, windows), "{}", p);
        }
        for p in ["../secret", "a/../b", "/etc/passwd", ".", "./a", ".."] {
            assert!(!is_safe_relative_path(p, windows), "{}", p);
        }
    }
    // On Windows a backslash separates components and a drive prefix is refused.
    for p in ["..\\.env", "a\\..\\b", ".\\a", "\\x", "C:/x", "c:x", "Z:", "\\\\server\\share"] {
        assert!(!is_safe_relative_path(p, true), "{}", p);
    }
    for p in ["a\\b.html", "ab:c", "1:/x", "a\\.\\b"] {
        assert!(is_safe_relative_path(p, true), "{}", p);
    }
    // Elsewhere a backslash or a colon is part of a plain component.
    for p in ["a\\b.html", "..\\.env", "C:x", "a:", "\\x"] {
        assert!(is_safe_relative_path(p, false), "{}", p);
    }
    // Agrees with std's component reading on the platform the tests run on.
    let windows = std::path::MAIN_SEPARATOR == '\\';
    for p in ["index.html", "a/./b", "../x", "/x", "./a", "a/..", "a/b/.", "a\\b.html", "C:x", "a:", "..\\.env"] {
        let std = std::path::Path::new(p).components().all(|c| matches!(c, std::path::Component::Normal(_)));
        assert_eq!(is_safe_relative_path(p, windows), std, "{}", p);
    }
}

#[test]
fn extensions() {
    for p in ["index.html", "js/app.min.js", "css/", "noext", ".hidden", "a/b.", "x.tar.gz", "dir/.", "font.woff2"] {
        let std = std::path::Path::new("webui")
            .join(p)
            .extension()
            .map(|e| format!(".{}", e.to_string_lossy()))
            .unwrap_or_default();
        assert_eq!(file_extension(p), std, "{}", p);
    }
}

#[test]
fn file_cache_by_change_time() {
    let mut c = FileCache::new();
    let t1 = FileTime { after_epoch: true, nanos: 10 };
    let t2 = FileTime { after_epoch: true, nanos: 11 };
    assert_eq!(c.lookup("index.html", t1), None);
    c.store("index.html".to_string(), t1, b"<html>".to_vec());
    assert_eq!(c.lookup("index.html", t1), Some(b"<html>".to_vec()));
    assert_eq!(c.lookup("index.html", t2), None);
    c.store("index.html".to_string(), t2, b"new".to_vec());
    assert_eq!(c.lookup("index.html", t2), Some(b"new".to_vec()));
    assert_eq!(c.lookup("index.html", t1), None);
}

#[test]
fn client_addresses() {
    assert_eq!(client_ip(Some(" 10.0.0.1 , 10.0.0.2"), "127.0.0.1".to_string()), "10.0.0.1");
    assert_eq!(client_ip(Some(""), "127.0.0.1".to_string()), "");
    assert_eq!(client_ip(None, "127.0.0.1".to_string()), "127.0.0.1");
}

#[test]
fn login_field_checks() {
    assert_eq!(check_login_fields(Some(" admin "), Some("pw")), Ok(("admin".to_string(), "pw".to_string())));
    assert_eq!(check_login_fields(None, Some("pw")), Err(LoginRefusal::MissingCredentials));
    assert_eq!(check_login_fields(Some("a"), Some("   ")), Err(LoginRefusal::MissingCredentials));
    let long = "x".repeat(65);
    assert_eq!(check_login_fields(Some(&long), Some("pw")), Err(LoginRefusal::TooLong));
    let long_pw = "é".repeat(65);
    assert_eq!(check_login_fields(Some("a"), Some(&long_pw)), Err(LoginRefusal::TooLong));
    assert!(check_login_fields(Some(&"x".repeat(64)), Some(&"y".repeat(128))).is_ok());
}

#[test]
fn service_ids() {
    assert_eq!(valid_service_id(Some(" my-svc_1 ")), Some("my-svc_1".to_string()));
    assert_eq!(valid_service_id(Some("")), None);
    assert_eq!(valid_service_id(None), None);
    assert_eq!(valid_service_id(Some("../x")), None);
    assert_eq!(valid_service_id(Some("a b")), None);
    assert_eq!(valid_service_id(Some("é")), None);
}

#[test]
fn login_cookies() {
    assert_eq!(session_cookie("abc"), "session-id=abc; Max-Age=86400; Path=/webui; HttpOnly; SameSite=Lax");
    assert_eq!(csrf_cookie("def"), "csrf-token=def; Max-Age=86400; Path=/webui; SameSite=Lax");
}

fn status(running: bool, operation: Option<&str>) -> ServiceStatus {
    ServiceStatus { running, operation: operation.map(str::to_string), duration: None, abnormal_exit_count: 0 }
}

#[test]
fn definition_changes_wait_for_idle_services() {
    assert_eq!(
        change_refusal("web", &status(true, None), DefinitionChange::Edit).as_deref(),
        Some("Service 'web' is still running. Stop it first before editing.")
    );
    assert_eq!(
        change_refusal("web", &status(true, None), DefinitionChange::Delete).as_deref(),
        Some("Service 'web' is still running. Stop it first before deleting.")
    );
    assert_eq!(
        change_refusal("web", &status(false, Some("starting")), DefinitionChange::Edit).as_deref(),
        Some("Service 'web' has an operation in progress.")
    );
    assert_eq!(
        change_refusal("web", &status(false, Some("stopping")), DefinitionChange::Delete).as_deref(),
        Some("Service 'web' has an operation in progress. Wait for it to complete.")
    );
    assert_eq!(change_refusal("web", &status(false, None), DefinitionChange::Delete), None);
}

#[test]
fn listed_fields_with_and_without_definition() {
    let missing = listed_config(None);
    assert_eq!(missing.command, "");
    assert_eq!(missing.cwd, "");
    assert!(!missing.auto_start);
    assert_eq!(missing.priority, 0);
    assert_eq!(missing.max_retries, 3);
    assert!(missing.retry_on_abnormal_exit);
    assert!(!missing.log_enabled);
    assert_eq!(missing.log_retention_days, 7);
    let c = ServiceConfig {
        cwd: "/srv".to_string(),
        command: "run".to_string(),
        priority: 5,
        max_retries: 1,
        retry_on_abnormal_exit: false,
        auto_start: true,
        log: LogConfig { enabled: true, retention_days: 2 },
    };
    let l = listed_config(Some(&c));
    assert_eq!(l.command, "run");
    assert_eq!(l.cwd, "/srv");
    assert!(l.auto_start);
    assert_eq!(l.priority, 5);
    assert_eq!(l.max_retries, 1);
    assert!(!l.retry_on_abnormal_exit);
    assert!(l.log_enabled);
    assert_eq!(l.log_retention_days, 2);
}

#[test]
fn login_flow() {
    let mut limiter = LoginLimiter::new();
    let mut sessions = SessionStore::new();
    let now = 1_700_000_000_000;
    let r = login_at(&mut limiter, &mut sessions, "1.1.1.1", Some(""), Some("pw"), "admin", "secret", now);
    assert!(matches!(r, LoginOutcome::Refused(LoginRefusal::MissingCredentials)));
    assert!(limiter.record("1.1.1.1").is_none());
    let r = login_at(&mut limiter, &mut sessions, "1.1.1.1", Some("admin"), Some("wrong"), "admin", "secret", now);
    assert!(matches!(r, LoginOutcome::BadCredentials));
    assert_eq!(limiter.record("1.1.1.1").unwrap().count, 1);
    let r = login_at(&mut limiter, &mut sessions, "1.1.1.1", Some(" admin "), Some("secret"), "admin", "secret", now);
    match r {
        LoginOutcome::LoggedIn { username, session_id, csrf_token } => {
            assert_eq!(username, "admin");
            assert!(sessions.get_session_at(&session_id, now));
            let header = format!("csrf-token={}", csrf_token);
            assert!(sessions.verify_csrf(Some(&header), Some(&csrf_token), &session_id));
        }
        _ => panic!("credentials match"),
    }
    // A successful login is not counted.
    assert_eq!(limiter.record("1.1.1.1").unwrap().count, 1);
    for _ in 0..4 {
        let r = login_at(&mut limiter, &mut sessions, "1.1.1.1", Some("x"), Some("y"), "admin", "secret", now);
        assert!(matches!(r, LoginOutcome::BadCredentials));
    }
    let r = login_at(&mut limiter, &mut sessions, "1.1.1.1", Some("admin"), Some("secret"), "admin", "secret", now);
    assert!(matches!(r, LoginOutcome::RateLimited));
    assert_eq!(limiter.record("1.1.1.1").unwrap().count, 5);
}

#[test]
fn successful_logins_are_never_rate_limited() {
    let mut limiter = LoginLimiter::new();
    let mut sessions = SessionStore::new();
    let now = 1_700_000_000_000;
    for k in 0..10 {
        let r = login_at(&mut limiter, &mut sessions, "2.2.2.2", Some("admin"), Some("secret"), "admin", "secret", now + k);
        assert!(matches!(r, LoginOutcome::LoggedIn { .. }), "login {}", k + 1);
    }
    assert!(limiter.record("2.2.2.2").is_none());
}

#[test]
fn cache_keys_follow_components() {
    for p in ["index.html", "a//b", "a/./b", "a/b/", "js/app.js", "", "a/b/."] {
        let std = std::path::Path::new(p)
            .components()
            .map(|c| c.as_os_str().to_string_lossy().to_string())
            .collect::<Vec<_>>()
            .join("/");
        assert_eq!(cache_key(p), std, "{}", p);
    }
    assert_eq!(cache_key("a//b"), cache_key("a/b"));
}

#[test]
fn login_bodies_are_read() {
    let (u, p) = login_fields(br#"{"username":" admin ","password":"pw","extra":1}"#).unwrap();
    assert_eq!(u.as_deref(), Some(" admin "));
    assert_eq!(p.as_deref(), Some("pw"));
    let (u, p) = login_fields(br#"{"username":42}"#).unwrap();
    assert!(u.is_none());
    assert!(p.is_none());
    assert!(login_fields(b"username=admin").is_none());
}

#[test]
fn new_service_bodies_are_read() {
    match new_service_request(br#"{"id":" web-1 ","command":"run","autoStart":true}"#) {
        NewServiceRequest::Create { id, definition } => {
            assert_eq!(id, "web-1");
            assert_eq!(definition.fields.command.as_deref(), Some("run"));
            assert_eq!(definition.fields.auto_start, Some(true));
        }
        _ => panic!("valid request"),
    }
    assert!(matches!(new_service_request(br#"{"id":"a b"}"#), NewServiceRequest::InvalidId));
    assert!(matches!(new_service_request(br#"{"command":"run"}"#), NewServiceRequest::InvalidId));
    assert!(matches!(new_service_request(br#"{"id":7}"#), NewServiceRequest::InvalidId));
    assert!(matches!(new_service_request(b"{"), NewServiceRequest::InvalidJson));
}
