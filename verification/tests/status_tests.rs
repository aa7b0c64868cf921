use runit_ui::service_info::{ServiceInfo, ServiceStatus};

#[test]
fn parses_running_service_line() {
    let info = ServiceInfo::from_status_output("myservice", true, "run: myservice: (pid 1234) 56s");
    assert_eq!(info.name, "myservice");
    assert_eq!(info.status, ServiceStatus::Up);
    assert_eq!(info.pid, Some(1234));
    assert_eq!(info.uptime, Some(56));
    assert!(info.log.is_none());
}

#[test]
fn parses_log_clause() {
    let info = ServiceInfo::from_status_output(
        "myservice",
        true,
        "run: myservice: (pid 1234) 56s; run: log: (pid 1235) 56s",
    );
    assert_eq!(info.status, ServiceStatus::Up);
    assert_eq!(info.pid, Some(1234));
    let log = info.log.expect("log clause should be captured");
    assert_eq!(log.name, "log");
    assert_eq!(log.status, ServiceStatus::Up);
    assert_eq!(log.pid, Some(1235));
    assert_eq!(log.uptime, Some(56));
}

#[test]
fn nonzero_exit_is_down_not_error() {
    let info = ServiceInfo::from_status_output("myservice", false, "down: myservice: 0s");
    assert_eq!(info.status, ServiceStatus::Down);
    assert_eq!(info.pid, None);
    assert_eq!(info.uptime, None);
    assert!(info.log.is_none());
}

#[test]
fn down_word_with_zero_exit_is_down() {
    let info = ServiceInfo::from_status_output("myservice", true, "down: myservice: 0s");
    assert_eq!(info.status, ServiceStatus::Down);
    assert_eq!(info.pid, None);
    assert_eq!(info.uptime, None);
}

#[test]
fn unrecognizable_output_is_unknown() {
    let info = ServiceInfo::from_status_output("myservice", true, "complete nonsense here");
    assert_eq!(info.status, ServiceStatus::Unknown);
    assert_eq!(info.pid, None);
    assert_eq!(info.uptime, None);
    assert!(info.log.is_none());
}

#[test]
fn empty_output_is_unknown() {
    let info = ServiceInfo::from_status_output("myservice", true, "");
    assert_eq!(info.status, ServiceStatus::Unknown);
}

#[test]
fn missing_pid_group_degrades_to_absent() {
    let info = ServiceInfo::from_status_output("websrv", true, "run: websrv: 3s");
    assert_eq!(info.status, ServiceStatus::Up);
    assert_eq!(info.pid, None);
    assert_eq!(info.uptime, Some(3));
}

#[test]
fn incomplete_log_clause_degrades_to_absent() {
    let info = ServiceInfo::from_status_output("websrv", true, "run: websrv: (pid 9) 3s; run: log");
    assert_eq!(info.status, ServiceStatus::Up);
    assert_eq!(info.pid, Some(9));
    assert!(info.log.is_none());
}

#[test]
fn oversized_pid_degrades_to_absent() {
    let info = ServiceInfo::from_status_output(
        "websrv",
        true,
        "run: websrv: (pid 99999999999999999999999) 5s",
    );
    assert_eq!(info.status, ServiceStatus::Up);
    assert_eq!(info.pid, None);
    assert_eq!(info.uptime, Some(5));
}

#[test]
fn pid_beyond_u32_degrades_to_absent() {
    let info = ServiceInfo::from_status_output("websrv", true, "run: websrv: (pid 4294967296) 5s");
    assert_eq!(info.pid, None);
    assert_eq!(info.uptime, Some(5));
}

#[test]
fn match_may_start_after_leading_text() {
    // earlier positions cannot match past the two colons, so the match
    // anchors exactly at the status word
    let info = ServiceInfo::from_status_output("websrv", true, "x::run: websrv: (pid 7) 12s\n");
    assert_eq!(info.status, ServiceStatus::Up);
    assert_eq!(info.pid, Some(7));
    assert_eq!(info.uptime, Some(12));
}

#[test]
fn colon_free_leading_text_folds_into_the_status_word() {
    // the status word is any colon-free run, newlines included, so loose
    // leading text becomes part of it and the state reads as down
    let info =
        ServiceInfo::from_status_output("websrv", true, "warning\nrun: websrv: (pid 7) 12s\n");
    assert_eq!(info.status, ServiceStatus::Down);
    assert_eq!(info.pid, None);
    assert_eq!(info.uptime, None);
}

#[test]
fn name_is_matched_literally() {
    // names may carry characters that pattern languages treat specially
    let info = ServiceInfo::from_status_output("my.svc+a", true, "run: my.svc+a: (pid 4) 9s");
    assert_eq!(info.status, ServiceStatus::Up);
    assert_eq!(info.pid, Some(4));
    // and a different name does not match
    let other = ServiceInfo::from_status_output("myxsvc-a", true, "run: my.svc+a: (pid 4) 9s");
    assert_eq!(other.status, ServiceStatus::Unknown);
}

#[test]
fn unknown_status_word_is_down() {
    let info = ServiceInfo::from_status_output("websrv", true, "finish: websrv: (pid 2) 1s");
    assert_eq!(info.status, ServiceStatus::Down);
    assert_eq!(info.pid, None);
    assert_eq!(info.uptime, None);
}

#[test]
fn down_log_process_keeps_no_numbers() {
    let info = ServiceInfo::from_status_output(
        "websrv",
        true,
        "run: websrv: (pid 1) 2s; down: log: (pid 3) 4s",
    );
    let log = info.log.expect("log clause should be captured");
    assert_eq!(log.status, ServiceStatus::Down);
    assert_eq!(log.pid, None);
    assert_eq!(log.uptime, None);
}

#[test]
fn real_sv_output_with_trailer() {
    let info = ServiceInfo::from_status_output(
        "getty-5",
        true,
        "run: getty-5: (pid 1012) 325s; run: log: (pid 1011) 325s\n",
    );
    assert_eq!(info.status, ServiceStatus::Up);
    assert_eq!(info.pid, Some(1012));
    assert_eq!(info.uptime, Some(325));
    assert_eq!(info.log.unwrap().pid, Some(1011));
}
