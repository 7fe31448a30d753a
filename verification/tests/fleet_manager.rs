use mimofan_core::fleet::executor::WorkerEventPayload;
use mimofan_core::fleet::manager::{
    current_task_for_worker, next_enqueued_task, worker_inspection, LedgerView, latest_alert_for_worker, latest_error_for_worker, leased_tasks_to_start, receipt_outcome, stop_run_plan, task_outcome_action,
    LedgerEvent, LedgerEventPayload, LedgerTask, OutcomeAction, ReceiptResult, TaskLedgerStatus,
};
use mimofan_core::fleet::scoring::FailureKind;

fn task(run: &str, id: &str, status: TaskLedgerStatus, worker: Option<&str>) -> LedgerTask {
    LedgerTask {
        run_id: run.to_string(),
        task_id: id.to_string(),
        status,
        leased_to: worker.map(|w| w.to_string()),
        leased_at: None,
        completed_at: None,
        priority: 0,
        enqueued_at: s("2026-01-01T00:00:00Z"),
    }
}

fn s(x: &str) -> String {
    x.to_string()
}

#[test]
fn terminal_events_give_receipts() {
    let done = WorkerEventPayload::Completed { exit_code: Some(0), summary: None };
    assert_eq!(receipt_outcome(&done, None), (ReceiptResult::Pass, None, Some(0)));
    assert_eq!(receipt_outcome(&done, Some(3)), (ReceiptResult::Pass, None, Some(3)));
    let failed = WorkerEventPayload::Failed { reason: s("boom"), recoverable: true };
    assert_eq!(receipt_outcome(&failed, None), (ReceiptResult::Fail, Some(FailureKind::Transport), None));
    assert_eq!(receipt_outcome(&failed, Some(2)), (ReceiptResult::Fail, Some(FailureKind::Task), Some(2)));
    let cancelled = WorkerEventPayload::Cancelled { cancelled_by: None };
    assert_eq!(receipt_outcome(&cancelled, None), (ReceiptResult::Skip, None, None));
    assert_eq!(receipt_outcome(&WorkerEventPayload::Running, None), (ReceiptResult::Partial, None, None));
}

#[test]
fn only_leased_tasks_take_a_terminal_event() {
    let failed = WorkerEventPayload::Failed { reason: s("x"), recoverable: false };
    let done = WorkerEventPayload::Completed { exit_code: Some(0), summary: None };
    assert_eq!(task_outcome_action(None, false, &failed, None), OutcomeAction::Ignore);
    assert_eq!(
        task_outcome_action(Some(TaskLedgerStatus::Completed), true, &failed, None),
        OutcomeAction::Ignore
    );
    let leased = Some(TaskLedgerStatus::Leased);
    assert_eq!(task_outcome_action(leased, true, &failed, None), OutcomeAction::Score { fail_task: true });
    assert_eq!(task_outcome_action(leased, false, &done, None), OutcomeAction::Score { fail_task: false });
    assert_eq!(
        task_outcome_action(leased, false, &failed, Some(1)),
        OutcomeAction::Receipt {
            result: ReceiptResult::Fail,
            failure_kind: Some(FailureKind::Task),
            exit_code: Some(1)
        }
    );
}

#[test]
fn stopping_a_run_cancels_its_open_tasks() {
    let tasks = vec![
        task("r1", "a", TaskLedgerStatus::Enqueued, None),
        task("r1", "b", TaskLedgerStatus::Leased, Some("w1")),
        task("r1", "c", TaskLedgerStatus::Completed, Some("w2")),
        task("r2", "d", TaskLedgerStatus::Leased, Some("w3")),
    ];
    assert_eq!(
        stop_run_plan(&tasks, &s("r1")),
        vec![(s("a"), None), (s("b"), Some(s("w1")))]
    );
    assert!(stop_run_plan(&tasks, &s("r9")).is_empty());
}

#[test]
fn leased_tasks_without_a_running_worker_are_started() {
    let tasks = vec![
        task("r1", "a", TaskLedgerStatus::Leased, Some("w1")),
        task("r1", "b", TaskLedgerStatus::Leased, Some("w2")),
        task("r1", "c", TaskLedgerStatus::Leased, None),
        task("r1", "d", TaskLedgerStatus::Enqueued, Some("w4")),
        task("r1", "e", TaskLedgerStatus::Leased, Some("w5")),
    ];
    let running = vec![s("w2")];
    let specs = vec![s("a"), s("b"), s("c"), s("d")];
    assert_eq!(leased_tasks_to_start(&tasks, &s("r1"), &running, &specs), vec![(s("a"), s("w1"))]);
}

#[test]
fn latest_error_is_the_highest_sequence_number() {
    let ev = |seq: u64, w: &str, payload: LedgerEventPayload| LedgerEvent { seq, worker_id: s(w), payload };
    let events = vec![
        ev(1, "w", LedgerEventPayload::Failed { reason: s("disk") }),
        ev(5, "w", LedgerEventPayload::Interrupted { signal: Some(s("stop_run")) }),
        ev(7, "x", LedgerEventPayload::Stale { last_heartbeat_at: None }),
        ev(3, "w", LedgerEventPayload::Cancelled { cancelled_by: None }),
        ev(9, "w", LedgerEventPayload::Other),
    ];
    assert_eq!(latest_error_for_worker(&events, &s("w")), Some(s("interrupted by stop_run")));
    assert_eq!(latest_error_for_worker(&events, &s("x")), Some(s("stale")));
    assert_eq!(latest_error_for_worker(&events, &s("y")), None);
}

fn timed(run: &str, id: &str, status: TaskLedgerStatus, worker: &str, leased: &str, done: Option<&str>) -> LedgerTask {
    LedgerTask {
        leased_at: Some(s(leased)),
        completed_at: done.map(s),
        ..task(run, id, status, Some(worker))
    }
}

#[test]
fn a_worker_is_on_its_leased_task_else_its_latest_one() {
    let tasks = vec![
        timed("r", "old", TaskLedgerStatus::Completed, "w", "2026-01-01T00:00:00Z", Some("2026-01-01T01:00:00Z")),
        timed("r", "newer", TaskLedgerStatus::Failed, "w", "2026-01-02T00:00:00Z", None),
        timed("r", "other", TaskLedgerStatus::Leased, "v", "2026-01-03T00:00:00Z", None),
    ];
    assert_eq!(current_task_for_worker(&tasks, &s("w")), Some(1));
    assert_eq!(current_task_for_worker(&tasks, &s("v")), Some(2));
    assert_eq!(current_task_for_worker(&tasks, &s("z")), None);
    let mut with_lease = tasks.clone();
    with_lease.push(timed("r2", "now", TaskLedgerStatus::Leased, "w", "2025-01-01T00:00:00Z", None));
    assert_eq!(current_task_for_worker(&with_lease, &s("w")), Some(3));
}

#[test]
fn inspecting_a_worker_gathers_what_the_ledger_says() {
    let escalation = LedgerEvent {
        seq: 4,
        worker_id: s("w"),
        payload: LedgerEventPayload::Escalated { channel: s("pager"), alert_id: Some(s("A1")) },
    };
    let state = LedgerView {
        tasks: vec![timed("r", "t", TaskLedgerStatus::Leased, "w", "2026-01-01T00:00:00Z", None)],
        workers: vec![(s("w"), s("running"))],
        heartbeats: vec![(s("w"), s("2026-01-01T00:05:00Z"))],
        latest_events: vec![LedgerEvent { seq: 2, worker_id: s("w"), payload: LedgerEventPayload::Failed { reason: s("oom") } }],
        escalated_events: vec![escalation],
    };
    let r = worker_inspection(&state, &s("w"));
    assert_eq!(r.status, "running");
    assert_eq!(r.current_run_id.as_deref(), Some("r"));
    assert_eq!(r.current_task_id.as_deref(), Some("t"));
    assert_eq!(r.latest_heartbeat_at.as_deref(), Some("2026-01-01T00:05:00Z"));
    assert_eq!(r.last_error.as_deref(), Some("failed: oom"));
    assert_eq!(r.alert_state.as_deref(), Some("escalated via pager alert_id=A1"));
    assert_eq!(latest_alert_for_worker(&state.escalated_events, &s("v")), None);
    let unknown = worker_inspection(&state, &s("q"));
    assert_eq!(unknown.status, "unknown");
    assert!(unknown.current_task_id.is_none());
}

#[test]
fn the_next_task_goes_by_priority_then_time_then_id() {
    let q = |id: &str, priority: i32, at: &str| LedgerTask {
        priority,
        enqueued_at: s(at),
        ..task("r", id, TaskLedgerStatus::Enqueued, None)
    };
    let tasks = vec![
        q("c", 1, "2026-01-01T00:00:00Z"),
        q("b", 0, "2026-01-02T00:00:00Z"),
        q("a", 0, "2026-01-02T00:00:00Z"),
        q("d", 0, "2026-01-03T00:00:00Z"),
        task("r", "leased", TaskLedgerStatus::Leased, Some("w")),
    ];
    let specs = vec![s("a"), s("b"), s("c"), s("d")];
    assert_eq!(next_enqueued_task(&tasks, &s("r"), &specs), Some(2));
    assert_eq!(next_enqueued_task(&tasks, &s("other"), &specs), None);
    // The chosen task has no spec in the run: nothing is launched.
    assert_eq!(next_enqueued_task(&tasks, &s("r"), &vec![s("b")]), None);
}
