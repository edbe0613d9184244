use rust_daemon::config::{
    autostart_order, clamp_priority, env_bool, env_u16, json_service_names, service_file_name,
    read_definition, ConfigLoader, LogConfig, SavedServiceConfig, ServiceConfig, ServiceConfigFields,
};
use std::path::PathBuf;

fn empty_fields() -> ServiceConfigFields {
    ServiceConfigFields {
        cwd: None,
        command: None,
        priority: None,
        max_retries: None,
        retry_on_abnormal_exit: None,
        auto_start: None,
        log_enabled: None,
        log_retention_days: None,
    }
}

fn config(priority: u32, auto_start: bool) -> ServiceConfig {
    ServiceConfig {
        cwd: ".".to_string(),
        command: "true".to_string(),
        priority,
        max_retries: 3,
        retry_on_abnormal_exit: true,
        auto_start,
        log: LogConfig { enabled: false, retention_days: 7 },
    }
}

#[test]
fn loaded_defaults() {
    let c = ServiceConfig::from_fields(&empty_fields());
    assert_eq!(c.cwd, ".");
    assert_eq!(c.command, "");
    assert_eq!(c.priority, 0);
    assert_eq!(c.max_retries, 3);
    assert!(c.retry_on_abnormal_exit);
    assert!(!c.auto_start);
    assert!(!c.log.enabled);
    assert_eq!(c.log.retention_days, 7);
}

#[test]
fn loaded_values_and_clamping() {
    let f = ServiceConfigFields {
        cwd: Some("".to_string()),
        command: Some("npm run dev".to_string()),
        priority: Some(1500),
        max_retries: Some(4_294_967_301),
        retry_on_abnormal_exit: Some(false),
        auto_start: Some(true),
        log_enabled: Some(true),
        log_retention_days: Some(30),
    };
    let c = ServiceConfig::from_fields(&f);
    assert_eq!(c.cwd, ".");
    assert_eq!(c.command, "npm run dev");
    assert_eq!(c.priority, 999);
    assert_eq!(c.max_retries, 5);
    assert!(!c.retry_on_abnormal_exit);
    assert!(c.auto_start);
    assert!(c.log.enabled);
    assert_eq!(c.log.retention_days, 30);
    assert_eq!(clamp_priority(-5), 0);
    assert_eq!(clamp_priority(42), 42);
}

#[test]
fn saved_defaults_store_priority_999() {
    let s = SavedServiceConfig::from_fields(&empty_fields());
    assert_eq!(s.cwd, ".");
    assert_eq!(s.command, "");
    assert_eq!(s.priority, 999);
    assert_eq!(s.max_retries, 3);
    assert!(s.retry_on_abnormal_exit);
    assert!(!s.auto_start);
    assert!(!s.log_enabled);
    assert_eq!(s.log_retention_days, 7);
    let mut f = empty_fields();
    f.max_retries = Some(4_294_967_301);
    f.priority = Some(-1);
    let s = SavedServiceConfig::from_fields(&f);
    assert_eq!(s.max_retries, 4_294_967_301);
    assert_eq!(s.priority, 0);
}

#[test]
fn saved_definition_reloads_the_same() {
    let mut f = empty_fields();
    f.cwd = Some("/srv".to_string());
    f.priority = Some(12);
    let s = SavedServiceConfig::from_fields(&f);
    let back = ServiceConfigFields {
        cwd: Some(s.cwd.clone()),
        command: Some(s.command.clone()),
        priority: Some(s.priority as i64),
        max_retries: Some(s.max_retries),
        retry_on_abnormal_exit: Some(s.retry_on_abnormal_exit),
        auto_start: Some(s.auto_start),
        log_enabled: Some(s.log_enabled),
        log_retention_days: Some(s.log_retention_days),
    };
    let c = ServiceConfig::from_fields(&back);
    assert_eq!(c.cwd, "/srv");
    assert_eq!(c.priority, 12);
    assert_eq!(c.max_retries, 3);
}

#[test]
fn service_names_from_directory() {
    let names: Vec<String> = ["web.json", "a.b.json", ".json", "README.md", "api.json", "json", "x.JSON", "Zed.json"]
        .iter()
        .map(|s| s.to_string())
        .collect();
    assert_eq!(json_service_names(&names), vec!["Zed", "a.b", "api", "web"]);
    assert_eq!(json_service_names(&Vec::new()), Vec::<String>::new());
}

#[test]
fn service_file_names() {
    assert_eq!(service_file_name("web"), "web.json");
    let loader = ConfigLoader::new(PathBuf::from("/srv/services"));
    assert_eq!(loader.services_dir(), std::path::Path::new("/srv/services"));
    assert_eq!(loader.service_file("web"), PathBuf::from("/srv/services/web.json"));
}

#[test]
fn autostart_highest_priority_first_stable() {
    let input = vec![
        ("a".to_string(), config(1, true)),
        ("b".to_string(), config(5, true)),
        ("c".to_string(), config(9, false)),
        ("d".to_string(), config(5, true)),
        ("e".to_string(), config(0, true)),
    ];
    let order: Vec<String> = autostart_order(input).into_iter().map(|(n, _)| n).collect();
    assert_eq!(order, vec!["b", "d", "a", "e"]);
}

#[test]
fn environment_values() {
    assert_eq!(env_u16(Some("8080"), 10300), 8080);
    assert_eq!(env_u16(Some(""), 10300), 10300);
    assert_eq!(env_u16(Some("70000"), 10300), 10300);
    assert_eq!(env_u16(None, 10400), 10400);
    assert!(env_bool(Some("true")));
    assert!(!env_bool(Some("TRUE")));
    assert!(!env_bool(Some("")));
    assert!(!env_bool(None));
}

#[test]
fn definition_files_are_read_field_by_field() {
    let raw = br#"{"cwd":"/srv","command":"run","priority":7.9,"maxRetries":5,
        "retryOnAbnormalExit":false,"autoStart":true,"log":{"enabled":true,"retentionDays":14}}"#;
    let d = read_definition(raw).unwrap();
    assert_eq!(d.fields.cwd.as_deref(), Some("/srv"));
    assert_eq!(d.fields.command.as_deref(), Some("run"));
    assert_eq!(d.fields.priority, None);
    assert_eq!(d.priority.as_ref().map(|n| n.to_string()), Some("7.9".to_string()));
    assert_eq!(d.fields.max_retries, Some(5));
    assert_eq!(d.fields.retry_on_abnormal_exit, Some(false));
    assert_eq!(d.fields.auto_start, Some(true));
    assert_eq!(d.fields.log_enabled, Some(true));
    assert_eq!(d.fields.log_retention_days, Some(14));
}

#[test]
fn definition_members_of_the_wrong_type_are_missing() {
    let d = read_definition(br#"{"cwd":5,"command":null,"priority":"3","maxRetries":-1,"autoStart":"yes","log":true}"#)
        .unwrap();
    assert!(d.fields.cwd.is_none());
    assert!(d.fields.command.is_none());
    assert!(d.priority.is_none());
    assert!(d.fields.max_retries.is_none());
    assert!(d.fields.auto_start.is_none());
    assert!(d.fields.log_enabled.is_none());
    assert!(d.fields.log_retention_days.is_none());
    let c = ServiceConfig::from_fields(&d.fields);
    assert_eq!(c.cwd, ".");
    assert_eq!(c.max_retries, 3);
    // Not JSON at all, or JSON that is not an object.
    assert!(read_definition(b"{not json").is_none());
    let arr = read_definition(b"[1,2]").unwrap();
    assert!(arr.fields.command.is_none());
}
