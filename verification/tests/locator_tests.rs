use runit_ui::config::{credentials_ok, AppConfig};
use runit_ui::service_info::{comm_is_svlogd, LogInfo, ServiceInfo, ServiceStatus};
use runit_ui::service_logs::{current_log_path, join_lines, LogQuery};
use runit_ui::services::{build_service_list, StatusReport};

fn running_log(pid: Option<u32>) -> LogInfo {
    LogInfo::new("log".to_string(), ServiceStatus::Up, pid, Some(56))
}

#[test]
fn log_directory_from_delegate_arguments() {
    let log = running_log(Some(1235));
    let dir = log.log_directory(Some("svlogd\n"), Some("svlogd\0-tt\0/var/log/websrv\0"));
    assert_eq!(dir.as_deref(), Some("/var/log/websrv"));
}

#[test]
fn log_directory_requires_running_process() {
    let log = LogInfo::new("log".to_string(), ServiceStatus::Down, Some(1235), None);
    assert!(log.log_directory(Some("svlogd\n"), Some("svlogd\0/d\0")).is_none());
    let log = LogInfo::new("log".to_string(), ServiceStatus::Unknown, Some(1235), None);
    assert!(log.log_directory(Some("svlogd\n"), Some("svlogd\0/d\0")).is_none());
}

#[test]
fn log_directory_requires_pid() {
    let log = running_log(None);
    assert!(log.log_directory(Some("svlogd\n"), Some("svlogd\0/d\0")).is_none());
}

#[test]
fn log_directory_survives_failed_process_table_reads() {
    let log = running_log(Some(1));
    assert!(log.log_directory(None, None).is_none());
    assert!(log.log_directory(None, Some("svlogd\0/d\0")).is_none());
    assert!(log.log_directory(Some("svlogd\n"), None).is_none());
}

#[test]
fn log_directory_requires_the_delegate_program() {
    let log = running_log(Some(1));
    assert!(log.log_directory(Some("multilog\n"), Some("x\0/d\0")).is_none());
}

#[test]
fn comm_name_is_trimmed() {
    assert!(comm_is_svlogd("svlogd\n"));
    assert!(comm_is_svlogd("svlogd"));
    assert!(comm_is_svlogd("  svlogd \t\n"));
    assert!(!comm_is_svlogd("svlogd2"));
    assert!(!comm_is_svlogd(""));
}

#[test]
fn svlogd_directory_takes_last_nonempty_argument() {
    let log = running_log(Some(9));
    assert_eq!(log.svlogd_log_directory("svlogd\0-tt\0/var/log/x\0").as_deref(), Some("/var/log/x"));
    assert_eq!(log.svlogd_log_directory("svlogd\0/a\0\0\0").as_deref(), Some("/a"));
    assert_eq!(log.svlogd_log_directory("one-arg-only").as_deref(), Some("one-arg-only"));
    assert!(log.svlogd_log_directory("\0\0\0").is_none());
    assert!(log.svlogd_log_directory("").is_none());
    let no_pid = running_log(None);
    assert!(no_pid.svlogd_log_directory("svlogd\0/d\0").is_none());
}

#[test]
fn current_file_is_appended_to_the_directory() {
    assert_eq!(current_log_path("/var/log/websrv"), "/var/log/websrv/current");
}

#[test]
fn joined_lines_carry_single_newlines() {
    let lines = vec![b"first".to_vec(), b"second".to_vec(), b"third".to_vec()];
    assert_eq!(join_lines(&lines), b"first\nsecond\nthird".to_vec());
    assert_eq!(join_lines(&vec![]), Vec::<u8>::new());
    assert_eq!(join_lines(&vec![b"only".to_vec()]), b"only".to_vec());
    assert_eq!(join_lines(&vec![Vec::new(), Vec::new()]), b"\n".to_vec());
}

#[test]
fn log_query_defaults_to_fifty_lines() {
    assert_eq!(LogQuery { lines: None }.lines_or_default(), 50);
    assert_eq!(LogQuery { lines: Some(7) }.lines_or_default(), 7);
    assert_eq!(LogQuery { lines: Some(0) }.lines_or_default(), 0);
}

#[test]
fn credentials_must_match_when_both_configured() {
    let config = AppConfig {
        services_dir: "/etc/sv".to_string(),
        username: Some("admin".to_string()),
        password: Some("SECRET-REDACTED".to_string()),
    };
    assert!(credentials_ok(&config, "admin", "SECRET-REDACTED"));
    assert!(!credentials_ok(&config, "admin", "wrong"));
    assert!(!credentials_ok(&config, "other", "SECRET-REDACTED"));
}

#[test]
fn authentication_is_bypassed_when_not_configured() {
    let open = AppConfig { services_dir: "/etc/sv".to_string(), username: None, password: None };
    assert!(credentials_ok(&open, "anyone", "anything"));
    let half = AppConfig {
        services_dir: "/etc/sv".to_string(),
        username: Some("admin".to_string()),
        password: None,
    };
    assert!(credentials_ok(&half, "anyone", "anything"));
}

#[test]
fn listing_builds_one_state_per_report() {
    let reports = vec![
        StatusReport {
            name: "a".to_string(),
            exit_ok: true,
            output: "run: a: (pid 1) 2s".to_string(),
        },
        StatusReport { name: "b".to_string(), exit_ok: false, output: String::new() },
        StatusReport { name: "c".to_string(), exit_ok: true, output: "garbage".to_string() },
    ];
    let list = build_service_list(&reports);
    assert_eq!(list.len(), 3);
    assert_eq!(list[0].name, "a");
    assert_eq!(list[0].status, ServiceStatus::Up);
    assert!(list[0].is_running());
    assert_eq!(list[1].name, "b");
    assert_eq!(list[1].status, ServiceStatus::Down);
    assert_eq!(list[2].status, ServiceStatus::Unknown);
}

#[test]
fn constructors_keep_their_fields() {
    let log = LogInfo::new("log".to_string(), ServiceStatus::Up, Some(3), Some(4));
    assert_eq!(log.name, "log");
    assert!(log.is_running());
    let info = ServiceInfo::new("svc".to_string(), ServiceStatus::Down, None, None, Some(log));
    assert_eq!(info.name, "svc");
    assert!(!info.is_running());
    assert!(info.log.is_some());
}
