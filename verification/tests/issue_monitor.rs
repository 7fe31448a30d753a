use mimofan_core::issue_monitor::{
    MonitorStatus, MonitorStore, RouteConstraint, RoutePinning, RouteViolation, WakeEvent,
    WakeEventLog, WakeEventStore, WakeEventType,
};

fn issue_event(monitor: &str, n: u64) -> WakeEvent {
    WakeEvent::new(
        monitor.to_string(),
        WakeEventType::IssueCommentAdded { issue_number: n, comment_id: 1 },
        "poll".to_string(),
    )
}

#[test]
fn events_name_their_issue_or_pull_request() {
    let e = issue_event("m", 7);
    assert_eq!(e.related_issue(), Some(7));
    assert_eq!(e.related_pr(), None);
    assert_eq!(e.id.len(), 36);
    let pr = WakeEvent::new("m".to_string(), WakeEventType::PrMerged { pr_number: 9 }, "webhook".to_string());
    assert_eq!(pr.related_pr(), Some(9));
    assert_eq!(pr.related_issue(), None);
    let wake = WakeEvent::new("m".to_string(), WakeEventType::ScheduledWake, "schedule".to_string());
    assert_eq!(wake.related_issue(), None);
    assert_eq!(wake.related_pr(), None);
    assert_ne!(MonitorStatus::Active, MonitorStatus::Paused);
}

#[test]
fn issues_outside_the_route_are_violations() {
    let mut pins = RoutePinning::new();
    pins.register(
        "m",
        vec![
            RouteConstraint::Issues(vec![3, 5]),
            RouteConstraint::TargetBranch("main".to_string()),
            RouteConstraint::Issues(vec![5, 8]),
        ],
    );
    assert!(pins.check_violation("m", &issue_event("m", 8)).is_none());
    let v = pins.check_violation("m", &issue_event("m", 4)).unwrap();
    assert_eq!(v.violation_type, "ISSUE_OUT_OF_SCOPE");
    assert_eq!(v.description, "Issue #4 is not in the monitored scope {3, 5, 8}");
    assert_eq!(
        v.to_text(),
        "[ISSUE_OUT_OF_SCOPE] Issue #4 is not in the monitored scope {3, 5, 8} (suggestion: Confirm this issue should be included, or create a separate monitor.)"
    );
    assert!(pins.check_violation("other", &issue_event("other", 4)).is_none());
    assert_eq!(pins.get_constraints("m").len(), 3);
    assert!(pins.get_constraints("other").is_empty());
}

#[test]
fn monitors_without_issue_limits_accept_all_issues() {
    let mut pins = RoutePinning::default();
    pins.register("m", vec![RouteConstraint::Custom("be careful".to_string())]);
    assert!(pins.check_violation("m", &issue_event("m", 123)).is_none());
    pins.unregister("m");
    assert!(pins.get_constraints("m").is_empty());
}

#[test]
fn files_outside_the_allowed_paths_are_violations() {
    let mut pins = RoutePinning::new();
    pins.register(
        "m",
        vec![RouteConstraint::AllowedPaths(vec![
            "src/**".to_string(),
            "docs/*.md".to_string(),
            "Cargo.toml".to_string(),
            "a*b*c".to_string(),
        ])],
    );
    assert!(pins.check_file_violation("m", "src/lib.rs").is_none());
    assert!(pins.check_file_violation("m", "docs/intro.md").is_none());
    assert!(pins.check_file_violation("m", "Cargo.toml").is_none());
    assert!(pins.check_file_violation("m", "abxc").is_some());
    let v: RouteViolation = pins.check_file_violation("m", "tests/x.rs").unwrap();
    assert_eq!(v.violation_type, "FILE_OUT_OF_SCOPE");
    assert_eq!(
        v.description,
        "File 'tests/x.rs' is not in the allowed paths [\"src/**\", \"docs/*.md\", \"Cargo.toml\", \"a*b*c\"]"
    );
    assert!(pins.check_file_violation("unknown", "tests/x.rs").is_none());
}

#[test]
fn store_file_names() {
    let store = MonitorStore::new("/data/monitors".to_string());
    assert_eq!(store.monitor_path("abc"), "/data/monitors/abc.json");
    assert_eq!(MonitorStore::monitor_id_of_file("abc.json"), Some("abc".to_string()));
    assert_eq!(MonitorStore::monitor_id_of_file("a.b.json"), Some("a.b".to_string()));
    assert_eq!(MonitorStore::monitor_id_of_file(".json"), None);
    assert_eq!(MonitorStore::monitor_id_of_file("abc.txt"), None);
    assert_eq!(MonitorStore::monitor_id_of_file("abc"), None);
    let events = WakeEventStore::new("/data/events/".to_string());
    let log = WakeEventLog {
        id: "e1".to_string(),
        monitor_id: "m1".to_string(),
        event_type: "ScheduledWake".to_string(),
        timestamp_secs: 10,
        timestamp_nanos: 0,
        source: "schedule".to_string(),
        result: None,
    };
    assert_eq!(events.log_path(&log), "/data/events/m1_e1.json");
    assert!(WakeEventStore::is_log_of("m1_e1.json", "m1"));
    assert!(!WakeEventStore::is_log_of("m10_e1.json", "m1"));
    assert!(!WakeEventStore::is_log_of("m1_e1.txt", "m1"));
}

#[test]
fn logs_sort_by_time_stably() {
    let mk = |id: &str, secs: i64, nanos: u32| WakeEventLog {
        id: id.to_string(),
        monitor_id: "m".to_string(),
        event_type: "t".to_string(),
        timestamp_secs: secs,
        timestamp_nanos: nanos,
        source: "poll".to_string(),
        result: None,
    };
    let logs = vec![mk("c", 5, 0), mk("a", 1, 9), mk("b", 5, 0), mk("d", 1, 2), mk("e", -3, 0)];
    let sorted = WakeEventStore::sort_by_time(logs);
    let ids: Vec<&str> = sorted.iter().map(|l| l.id.as_str()).collect();
    assert_eq!(ids, vec!["e", "d", "a", "c", "b"]);
}

#[test]
fn loading_a_monitor_keeps_only_its_own_logs() {
    let mk = |id: &str, monitor: &str, secs: i64| WakeEventLog {
        id: id.to_string(),
        monitor_id: monitor.to_string(),
        event_type: "t".to_string(),
        timestamp_secs: secs,
        timestamp_nanos: 0,
        source: "poll".to_string(),
        result: None,
    };
    // `a_b_y.json` passes the file-name test for monitor `a`.
    assert!(WakeEventStore::is_log_of("a_b_y.json", "a"));
    let candidates = vec![mk("y", "a_b", 1), mk("x", "a", 2)];
    let logs = WakeEventStore::logs_of_monitor(candidates, "a");
    let ids: Vec<&str> = logs.iter().map(|l| l.id.as_str()).collect();
    assert_eq!(ids, vec!["x"]);
    let logs = WakeEventStore::logs_of_monitor(vec![mk("y", "a_b", 1), mk("x", "a", 2)], "a_b");
    assert_eq!(logs.len(), 1);
    assert_eq!(logs[0].id, "y");
}

#[test]
fn new_event_has_uuid_id_and_utc_rfc3339_stamp() {
    let e = WakeEvent::new("m".to_string(), WakeEventType::ScheduledWake, "schedule".to_string());
    let id: Vec<char> = e.id.chars().collect();
    assert_eq!(id.len(), 36);
    for (i, c) in id.iter().enumerate() {
        if i == 8 || i == 13 || i == 18 || i == 23 {
            assert_eq!(*c, '-');
        } else {
            assert!(c.is_ascii_digit() || ('a'..='f').contains(c));
        }
    }
    assert!(e.timestamp.ends_with("+00:00"));
    let t = e.timestamp.find('T').unwrap();
    assert_eq!(t, 10);
    assert_eq!(&e.timestamp[4..5], "-");
    let other = WakeEvent::new("m".to_string(), WakeEventType::ScheduledWake, "schedule".to_string());
    assert_ne!(e.id, other.id);
}
