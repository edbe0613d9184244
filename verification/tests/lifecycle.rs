use rust_daemon::lifecycle::{
    abnormal_exit, child_pids, exit_line_text, shell_command, ExitStep, ServiceTable, StopStep,
};

fn started(t: &mut ServiceTable, name: &str, pid: u32, now: u64, is_retry: bool) {
    assert!(t.prepare_start(name).is_none());
    let r = t.start_succeeded(name, pid, now, is_retry);
    assert!(r.success);
}

#[test]
fn start_then_status_reports_uptime() {
    let mut t = ServiceTable::new();
    assert!(t.prepare_start("web").is_none());
    let s = t.status("web", 0);
    assert!(!s.running);
    assert_eq!(s.operation.as_deref(), Some("starting"));
    let r = t.start_succeeded("web", 42, 1_000_000_000, false);
    assert!(r.success);
    assert_eq!(r.message, "Service web started");
    let s = t.status("web", 4_500_000_000);
    assert!(s.running);
    assert_eq!(s.operation, None);
    assert_eq!(s.duration, Some(3));
    assert_eq!(s.abnormal_exit_count, 0);
}

#[test]
fn start_of_running_service_is_refused() {
    let mut t = ServiceTable::new();
    started(&mut t, "web", 1, 0, false);
    let r = t.prepare_start("web").unwrap();
    assert!(!r.success);
    assert_eq!(r.message, "Service web is already running");
    assert_eq!(t.status("web", 0).operation, None);
}

#[test]
fn failed_spawn_reports_reason() {
    let mut t = ServiceTable::new();
    assert!(t.prepare_start("web").is_none());
    let r = t.start_failed("web", "No such file or directory (os error 2)");
    assert!(!r.success);
    assert_eq!(r.message, "Failed to start web: No such file or directory (os error 2)");
    let s = t.status("web", 0);
    assert!(!s.running);
    assert_eq!(s.operation, None);
}

#[test]
fn stop_of_idle_service_fails_and_leaves_no_flag() {
    let mut t = ServiceTable::new();
    match t.begin_stop("web", false) {
        StopStep::NotRunning { cancel_timer, result } => {
            assert!(!cancel_timer);
            assert!(!result.success);
            assert_eq!(result.message, "Service web is not running");
        }
        StopStep::Kill { .. } => panic!("nothing runs"),
    }
    // A later start and exit is handled normally: no stop flag was left behind.
    started(&mut t, "web", 7, 0, false);
    match t.process_exited("web", 7, Some(1), None, true, 3) {
        ExitStep::Recorded { schedule_retry, .. } => assert!(schedule_retry),
        ExitStep::Ignored => panic!("exit must count"),
    }
}

#[test]
fn stop_then_exit_is_not_retried() {
    let mut t = ServiceTable::new();
    started(&mut t, "web", 9, 0, false);
    assert!(t.prepare_start("log").is_none());
    let step = t.begin_stop("web", false);
    match step {
        StopStep::Kill { pid, cancel_timer, logger_open } => {
            assert_eq!(pid, 9);
            assert!(!cancel_timer);
            assert!(logger_open);
        }
        StopStep::NotRunning { .. } => panic!("web runs"),
    }
    assert_eq!(t.status("web", 0).operation.as_deref(), Some("stopping"));
    let r = t.finish_stop("web", false);
    assert!(r.success);
    assert_eq!(r.message, "Service web stopped");
    let s = t.status("web", 10);
    assert!(!s.running);
    assert_eq!(s.duration, None);
    assert_eq!(s.operation, None);
    assert!(matches!(t.process_exited("web", 9, None, Some(15), true, 3), ExitStep::Ignored));
    assert_eq!(t.retry_count("web"), 0);
}

#[test]
fn force_stop_message_and_operation() {
    let mut t = ServiceTable::new();
    started(&mut t, "db", 3, 0, false);
    assert!(matches!(t.begin_stop("db", true), StopStep::Kill { pid: 3, .. }));
    assert_eq!(t.status("db", 0).operation.as_deref(), Some("force-stopping"));
    let r = t.finish_stop("db", true);
    assert_eq!(r.message, "Service db force stopped");
}

#[test]
fn abnormal_exit_is_logged_counted_and_retried() {
    let mut t = ServiceTable::new();
    started(&mut t, "web", 5, 0, false);
    match t.process_exited("web", 5, Some(1), None, true, 3) {
        ExitStep::Recorded { log_line, schedule_retry } => {
            assert_eq!(log_line.as_deref(), Some("Process exited with code 1, signal null\n"));
            assert!(schedule_retry);
        }
        ExitStep::Ignored => panic!("exit must count"),
    }
    let s = t.status("web", 0);
    assert!(!s.running);
    assert_eq!(s.abnormal_exit_count, 1);
    assert!(t.retry_timer_fired("web"));
}

#[test]
fn retries_stop_after_max_retries() {
    let mut t = ServiceTable::new();
    started(&mut t, "web", 5, 0, false);
    let mut scheduled = Vec::new();
    for _ in 0..4 {
        match t.process_exited("web", 5, Some(2), None, true, 3) {
            ExitStep::Recorded { schedule_retry, .. } => scheduled.push(schedule_retry),
            ExitStep::Ignored => panic!("exit must count"),
        }
        if *scheduled.last().unwrap() {
            assert!(t.retry_timer_fired("web"));
        }
        started(&mut t, "web", 5, 0, true);
    }
    assert_eq!(scheduled, vec![true, true, true, false]);
    assert_eq!(t.retry_count("web"), 4);
    // A start that is not a retry begins a new count.
    let _ = t.begin_stop("web", false);
    t.finish_stop("web", false);
    started(&mut t, "web", 6, 0, false);
    assert_eq!(t.retry_count("web"), 0);
}

#[test]
fn expected_exits_are_never_retried() {
    for (code, signal) in [(Some(0), None), (None, Some(15)), (None, Some(9))] {
        let mut t = ServiceTable::new();
        started(&mut t, "web", 5, 0, false);
        match t.process_exited("web", 5, code, signal, true, 3) {
            ExitStep::Recorded { schedule_retry, .. } => assert!(!schedule_retry),
            ExitStep::Ignored => panic!("exit must count"),
        }
        assert_eq!(t.retry_count("web"), 0);
    }
}

#[test]
fn abnormal_exit_is_counted_without_retry() {
    let mut t = ServiceTable::new();
    started(&mut t, "web", 5, 0, false);
    match t.process_exited("web", 5, Some(1), None, false, 3) {
        ExitStep::Recorded { schedule_retry, .. } => assert!(!schedule_retry),
        ExitStep::Ignored => panic!("exit must count"),
    }
    assert_eq!(t.retry_count("web"), 1);
    assert_eq!(t.status("web", 0).abnormal_exit_count, 1);
    assert!(!t.status("web", 0).running);
}

#[test]
fn exit_of_replaced_process_is_ignored() {
    let mut t = ServiceTable::new();
    started(&mut t, "web", 5, 0, false);
    assert!(matches!(t.process_exited("web", 4, Some(1), None, true, 3), ExitStep::Ignored));
    assert!(t.status("web", 0).running);
}

#[test]
fn stop_during_retry_delay_cancels_restart() {
    let mut t = ServiceTable::new();
    started(&mut t, "web", 5, 0, false);
    assert!(matches!(
        t.process_exited("web", 5, Some(1), None, true, 3),
        ExitStep::Recorded { schedule_retry: true, .. }
    ));
    match t.begin_stop("web", false) {
        StopStep::NotRunning { cancel_timer, .. } => assert!(cancel_timer),
        StopStep::Kill { .. } => panic!("nothing runs"),
    }
    assert!(!t.status("web", 0).running);
}

#[test]
fn restart_replaces_process() {
    let mut t = ServiceTable::new();
    started(&mut t, "web", 5, 0, false);
    let step = t.begin_restart("web");
    assert!(!step.cancel_timer);
    assert_eq!(step.running, Some((5, true)));
    assert_eq!(t.status("web", 0).operation.as_deref(), Some("restarting"));
    t.restart_killed("web");
    started(&mut t, "web", 8, 0, false);
    t.end_restart("web");
    assert!(matches!(t.process_exited("web", 5, None, Some(15), true, 3), ExitStep::Ignored));
    let s = t.status("web", 0);
    assert!(s.running);
    assert_eq!(s.operation, None);
    assert_eq!(t.running_names(), vec!["web".to_string()]);
}

#[test]
fn abnormal_exit_classification() {
    assert!(abnormal_exit(Some(1), None));
    assert!(abnormal_exit(None, Some(11)));
    assert!(abnormal_exit(None, None));
    assert!(!abnormal_exit(Some(0), None));
    assert!(!abnormal_exit(None, Some(15)));
    assert!(!abnormal_exit(None, Some(9)));
}

#[test]
fn exit_lines() {
    assert_eq!(exit_line_text(Some(-3), None), "Process exited with code -3, signal null\n");
    assert_eq!(exit_line_text(None, Some(9)), "Process exited with code null, signal 9\n");
    assert_eq!(exit_line_text(Some(i32::MIN), Some(0)), "Process exited with code -2147483648, signal 0\n");
}

#[test]
fn shell_commands() {
    let (p, a) = shell_command(false, "npm run dev");
    assert_eq!(p, "sh");
    assert_eq!(a, vec!["-c".to_string(), "npm run dev".to_string()]);
    let (p, a) = shell_command(true, "npm run dev");
    assert_eq!(p, "cmd");
    assert_eq!(a, vec!["/C".to_string(), "npm run dev".to_string()]);
}

#[test]
fn child_pids_from_ps_output() {
    assert_eq!(child_pids("  123\n 45\n"), vec![123, 45]);
    assert_eq!(child_pids(""), Vec::<u32>::new());
    assert_eq!(child_pids("7\r\nabc\n4294967296\n+8\n"), vec![7, 8]);
}
