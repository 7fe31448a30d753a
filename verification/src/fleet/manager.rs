//! The decisions of the fleet manager over its ledger: what a worker's
//! terminal event records for its task, which tasks stopping a run touches,
//! which leased tasks still need a worker started, and a worker's latest
//! error. The ledger itself is kept elsewhere; these functions take what
//! they read from it as plain values, in the ledger's own order.
use crate::fleet::observability::{key_lt, key_lt_exec};
use crate::fleet::executor::{opt_view, WorkerEventPayload, WorkerEventView};
use crate::fleet::scoring::FailureKind;
use crate::text::{chars_of, push_all, seq_eq, string_of};
use vstd::prelude::*;

verus! {

/// Where a task stands in the ledger.
#[derive(Debug, Clone, Copy, PartialEq, Eq, Structural)]
pub enum TaskLedgerStatus {
    Enqueued,
    Leased,
    Completed,
    Failed,
    Cancelled,
}

/// A task as the ledger records it.
#[derive(Debug, Clone, PartialEq, Eq)]
pub struct LedgerTask {
    pub run_id: String,
    pub task_id: String,
    pub status: TaskLedgerStatus,
    /// The worker holding the task's lease, if any.
    pub leased_to: Option<String>,
    /// When it was leased, as an RFC 3339 time.
    pub leased_at: Option<String>,
    /// When it finished, as an RFC 3339 time.
    pub completed_at: Option<String>,
    /// Its priority: lower runs first.
    pub priority: i32,
    /// When it was enqueued, as an RFC 3339 time.
    pub enqueued_at: String,
}

/// Model of a [`LedgerTask`].
pub struct LedgerTaskView {
    pub run_id: Seq<char>,
    pub task_id: Seq<char>,
    pub status: TaskLedgerStatus,
    pub leased_to: Option<Seq<char>>,
    pub leased_at: Option<Seq<char>>,
    pub completed_at: Option<Seq<char>>,
    pub priority: i32,
    pub enqueued_at: Seq<char>,
}

impl View for LedgerTask {
    type V = LedgerTaskView;

    open spec fn view(&self) -> LedgerTaskView {
        LedgerTaskView {
            run_id: self.run_id@,
            task_id: self.task_id@,
            status: self.status,
            leased_to: opt_view(self.leased_to),
            leased_at: opt_view(self.leased_at),
            completed_at: opt_view(self.completed_at),
            priority: self.priority,
            enqueued_at: self.enqueued_at@,
        }
    }
}

/// The models of a list of tasks.
pub open spec fn tasks_view(v: Seq<LedgerTask>) -> Seq<LedgerTaskView> {
    v.map_values(|t: LedgerTask| t@)
}

/// The verdict a receipt records.
#[derive(Debug, Clone, Copy, PartialEq, Eq, Structural)]
pub enum ReceiptResult {
    Pass,
    Fail,
    Partial,
    Skip,
}

/// What a worker's terminal event gives its task's receipt: the result, the
/// failure's kind, and the exit code (the reported one, else the one the
/// event carries).
pub open spec fn receipt_outcome_spec(payload: WorkerEventView, exit_code: Option<i32>) -> (
    ReceiptResult,
    Option<FailureKind>,
    Option<i32>,
) {
    match payload {
        WorkerEventView::Completed { exit_code: carried, .. } => (
            ReceiptResult::Pass,
            None,
            match exit_code {
                Some(c) => Some(c),
                None => carried,
            },
        ),
        WorkerEventView::Cancelled { .. } => (ReceiptResult::Skip, None, exit_code),
        WorkerEventView::Failed { .. } => (
            ReceiptResult::Fail,
            Some(
                if exit_code is None {
                    FailureKind::Transport
                } else {
                    FailureKind::Task
                },
            ),
            exit_code,
        ),
        _ => (ReceiptResult::Partial, None, exit_code),
    }
}

/// The receipt a worker's terminal event gives its task (see
/// [`receipt_outcome_spec`]).
pub fn receipt_outcome(payload: &WorkerEventPayload, exit_code: Option<i32>) -> (r: (
    ReceiptResult,
    Option<FailureKind>,
    Option<i32>,
))
    ensures
        r == receipt_outcome_spec(payload@, exit_code),
{
    match payload {
        WorkerEventPayload::Completed { exit_code: carried, .. } => (
            ReceiptResult::Pass,
            None,
            match exit_code {
                Some(c) => Some(c),
                None => *carried,
            },
        ),
        WorkerEventPayload::Cancelled { .. } => (ReceiptResult::Skip, None, exit_code),
        WorkerEventPayload::Failed { .. } => (
            ReceiptResult::Fail,
            Some(
                if exit_code.is_none() {
                    FailureKind::Transport
                } else {
                    FailureKind::Task
                },
            ),
            exit_code,
        ),
        _ => (ReceiptResult::Partial, None, exit_code),
    }
}

/// What recording a worker's terminal event does to its task.
#[derive(Debug, Clone, Copy, PartialEq, Eq, Structural)]
pub enum OutcomeAction {
    /// The task is unknown or no longer leased: nothing is recorded.
    Ignore,
    /// Record the event, score the task and record the verdict; when
    /// `fail_task`, a failing verdict also marks the task failed.
    Score { fail_task: bool },
    /// Record the event and a receipt with this result, failure kind and
    /// exit code.
    Receipt { result: ReceiptResult, failure_kind: Option<FailureKind>, exit_code: Option<i32> },
}

/// What a terminal event does to a task whose ledger status is `status`
/// (`None` when the ledger does not know it): only a leased task takes it;
/// a task with a scorer is scored, and fails when the verdict does; a task
/// whose worker completed is scored; any other gets a receipt from the
/// event (see [`receipt_outcome_spec`]).
pub open spec fn outcome_action_spec(
    status: Option<TaskLedgerStatus>,
    has_scorer: bool,
    payload: WorkerEventView,
    exit_code: Option<i32>,
) -> OutcomeAction {
    if status != Some(TaskLedgerStatus::Leased) {
        OutcomeAction::Ignore
    } else if has_scorer {
        OutcomeAction::Score { fail_task: true }
    } else if payload is Completed {
        OutcomeAction::Score { fail_task: false }
    } else {
        let (result, failure_kind, code) = receipt_outcome_spec(payload, exit_code);
        OutcomeAction::Receipt { result, failure_kind, exit_code: code }
    }
}

/// What recording a worker's terminal event does to its task (see
/// [`outcome_action_spec`]).
pub fn task_outcome_action(
    status: Option<TaskLedgerStatus>,
    has_scorer: bool,
    payload: &WorkerEventPayload,
    exit_code: Option<i32>,
) -> (r: OutcomeAction)
    ensures
        r == outcome_action_spec(status, has_scorer, payload@, exit_code),
{
    let leased = match status {
        Some(TaskLedgerStatus::Leased) => true,
        _ => false,
    };
    if !leased {
        return OutcomeAction::Ignore;
    }
    if has_scorer {
        return OutcomeAction::Score { fail_task: true };
    }
    match payload {
        WorkerEventPayload::Completed { .. } => OutcomeAction::Score { fail_task: false },
        _ => {
            let (result, failure_kind, code) = receipt_outcome(payload, exit_code);
            OutcomeAction::Receipt { result, failure_kind, exit_code: code }
        },
    }
}

fn same_text(a: &String, b: &String) -> (r: bool)
    ensures
        r == (a@ == b@),
{
    seq_eq(chars_of(a.as_str()).as_slice(), chars_of(b.as_str()).as_slice())
}

fn same_opt_text(a: &Option<String>, b: &String) -> (r: bool)
    ensures
        r == (opt_view(*a) == Some(b@)),
{
    match a {
        Some(x) => same_text(x, b),
        None => false,
    }
}

/// The tasks of run `run_id` that stopping the run cancels, in ledger
/// order: those still enqueued or leased, each with the worker holding it
/// (who is told to stop).
pub open spec fn stop_run_spec(tasks: Seq<LedgerTaskView>, run_id: Seq<char>) -> Seq<(Seq<char>, Option<Seq<char>>)>
    decreases tasks.len(),
{
    if tasks.len() == 0 {
        seq![]
    } else {
        let t = tasks.last();
        let rest = stop_run_spec(tasks.drop_last(), run_id);
        if t.run_id == run_id && (t.status == TaskLedgerStatus::Enqueued || t.status == TaskLedgerStatus::Leased) {
            rest.push((t.task_id, t.leased_to))
        } else {
            rest
        }
    }
}

/// The tasks that stopping run `run_id` cancels (see [`stop_run_spec`]).
pub fn stop_run_plan(tasks: &Vec<LedgerTask>, run_id: &String) -> (r: Vec<(String, Option<String>)>)
    ensures
        r@.map_values(|p: (String, Option<String>)| (p.0@, opt_view(p.1))) == stop_run_spec(tasks_view(tasks@), run_id@),
{
    let ghost tv = tasks_view(tasks@);
    let mut r: Vec<(String, Option<String>)> = Vec::new();
    let mut i: usize = 0;
    while i < tasks.len()
        invariant
            i <= tasks@.len(),
            tv == tasks_view(tasks@),
            r@.map_values(|p: (String, Option<String>)| (p.0@, opt_view(p.1))) == stop_run_spec(tv.take(i as int), run_id@),
        decreases tasks.len() - i,
    {
        let t = &tasks[i];
        proof {
            assert(tv.take(i + 1).drop_last() =~= tv.take(i as int));
            assert(tv.take(i + 1).last() == t@);
        }
        let active = match t.status {
            TaskLedgerStatus::Enqueued | TaskLedgerStatus::Leased => true,
            _ => false,
        };
        if same_text(&t.run_id, run_id) && active {
            let ghost before = r@.map_values(|p: (String, Option<String>)| (p.0@, opt_view(p.1)));
            r.push((t.task_id.clone(), t.leased_to.clone()));
            assert(r@.map_values(|p: (String, Option<String>)| (p.0@, opt_view(p.1))) =~= before.push((t@.task_id, t@.leased_to)));
        }
        i = i + 1;
    }
    assert(tv.take(tasks@.len() as int) =~= tv);
    r
}

/// The leased tasks of run `run_id` whose worker still has to be started,
/// in ledger order, each with its worker: the worker is not already
/// running, and the run holds the task's spec.
pub open spec fn to_start_spec(
    tasks: Seq<LedgerTaskView>,
    run_id: Seq<char>,
    running: Seq<Seq<char>>,
    spec_ids: Seq<Seq<char>>,
) -> Seq<(Seq<char>, Seq<char>)>
    decreases tasks.len(),
{
    if tasks.len() == 0 {
        seq![]
    } else {
        let t = tasks.last();
        let rest = to_start_spec(tasks.drop_last(), run_id, running, spec_ids);
        match t.leased_to {
            Some(w) => if t.run_id == run_id && t.status == TaskLedgerStatus::Leased && !running.contains(w)
                && spec_ids.contains(t.task_id) {
                rest.push((t.task_id, w))
            } else {
                rest
            },
            None => rest,
        }
    }
}

/// The contents of a list of strings.
pub open spec fn strs_of(v: Seq<String>) -> Seq<Seq<char>> {
    v.map_values(|s: String| s@)
}

fn contains_text(v: &Vec<String>, x: &String) -> (r: bool)
    ensures
        r == strs_of(v@).contains(x@),
{
    let mut i: usize = 0;
    while i < v.len()
        invariant
            i <= v@.len(),
            forall|j: int| 0 <= j < i ==> v@[j]@ != x@,
        decreases v.len() - i,
    {
        if same_text(&v[i], x) {
            assert(strs_of(v@)[i as int] == x@);
            return true;
        }
        i = i + 1;
    }
    assert forall|j: int| 0 <= j < strs_of(v@).len() implies strs_of(v@)[j] != x@ by {
        assert(strs_of(v@)[j] == v@[j]@);
    }
    false
}

/// The leased tasks whose worker still has to be started (see
/// [`to_start_spec`]).
pub fn leased_tasks_to_start(
    tasks: &Vec<LedgerTask>,
    run_id: &String,
    running: &Vec<String>,
    spec_ids: &Vec<String>,
) -> (r: Vec<(String, String)>)
    ensures
        r@.map_values(|p: (String, String)| (p.0@, p.1@)) == to_start_spec(
            tasks_view(tasks@),
            run_id@,
            strs_of(running@),
            strs_of(spec_ids@),
        ),
{
    let ghost tv = tasks_view(tasks@);
    let ghost tr = strs_of(running@);
    let ghost si = strs_of(spec_ids@);
    let mut r: Vec<(String, String)> = Vec::new();
    let mut i: usize = 0;
    while i < tasks.len()
        invariant
            i <= tasks@.len(),
            tv == tasks_view(tasks@),
            tr == strs_of(running@),
            si == strs_of(spec_ids@),
            r@.map_values(|p: (String, String)| (p.0@, p.1@)) == to_start_spec(tv.take(i as int), run_id@, tr, si),
        decreases tasks.len() - i,
    {
        let t = &tasks[i];
        proof {
            assert(tv.take(i + 1).drop_last() =~= tv.take(i as int));
            assert(tv.take(i + 1).last() == t@);
        }
        match &t.leased_to {
            Some(w) => {
                let leased = match t.status {
                    TaskLedgerStatus::Leased => true,
                    _ => false,
                };
                if same_text(&t.run_id, run_id) && leased && !contains_text(running, w) && contains_text(
                    spec_ids,
                    &t.task_id,
                ) {
                    let ghost before = r@.map_values(|p: (String, String)| (p.0@, p.1@));
                    r.push((t.task_id.clone(), w.clone()));
                    assert(r@.map_values(|p: (String, String)| (p.0@, p.1@)) =~= before.push((t@.task_id, w@)));
                }
            },
            None => {},
        }
        i = i + 1;
    }
    assert(tv.take(tasks@.len() as int) =~= tv);
    r
}

/// What a ledger event of a worker says, as far as its latest error goes.
#[derive(Debug, Clone, PartialEq, Eq)]
pub enum LedgerEventPayload {
    Failed { reason: String },
    Cancelled { cancelled_by: Option<String> },
    Interrupted { signal: Option<String> },
    Stale { last_heartbeat_at: Option<String> },
    /// The worker's trouble was escalated.
    Escalated { channel: String, alert_id: Option<String> },
    /// Any other event.
    Other,
}

/// A worker event in the ledger, with its sequence number.
#[derive(Debug, Clone, PartialEq, Eq)]
pub struct LedgerEvent {
    pub seq: u64,
    pub worker_id: String,
    pub payload: LedgerEventPayload,
}

/// Model of a [`LedgerEventPayload`].
pub enum LedgerEventPayloadView {
    Failed { reason: Seq<char> },
    Cancelled { cancelled_by: Option<Seq<char>> },
    Interrupted { signal: Option<Seq<char>> },
    Stale { last_heartbeat_at: Option<Seq<char>> },
    Escalated { channel: Seq<char>, alert_id: Option<Seq<char>> },
    Other,
}

/// Model of a [`LedgerEvent`].
pub struct LedgerEventView {
    pub seq: u64,
    pub worker_id: Seq<char>,
    pub payload: LedgerEventPayloadView,
}

impl View for LedgerEventPayload {
    type V = LedgerEventPayloadView;

    open spec fn view(&self) -> LedgerEventPayloadView {
        match self {
            LedgerEventPayload::Failed { reason } => LedgerEventPayloadView::Failed { reason: reason@ },
            LedgerEventPayload::Cancelled { cancelled_by } => LedgerEventPayloadView::Cancelled {
                cancelled_by: opt_view(*cancelled_by),
            },
            LedgerEventPayload::Interrupted { signal } => LedgerEventPayloadView::Interrupted {
                signal: opt_view(*signal),
            },
            LedgerEventPayload::Stale { last_heartbeat_at } => LedgerEventPayloadView::Stale {
                last_heartbeat_at: opt_view(*last_heartbeat_at),
            },
            LedgerEventPayload::Escalated { channel, alert_id } => LedgerEventPayloadView::Escalated {
                channel: channel@,
                alert_id: opt_view(*alert_id),
            },
            LedgerEventPayload::Other => LedgerEventPayloadView::Other,
        }
    }
}

impl View for LedgerEvent {
    type V = LedgerEventView;

    open spec fn view(&self) -> LedgerEventView {
        LedgerEventView { seq: self.seq, worker_id: self.worker_id@, payload: self.payload@ }
    }
}

/// The models of a list of events.
pub open spec fn events_view(v: Seq<LedgerEvent>) -> Seq<LedgerEventView> {
    v.map_values(|e: LedgerEvent| e@)
}

/// The error an event reports, if it reports one.
pub open spec fn error_message(p: LedgerEventPayloadView) -> Option<Seq<char>> {
    match p {
        LedgerEventPayloadView::Failed { reason } => Some("failed: "@ + reason),
        LedgerEventPayloadView::Cancelled { cancelled_by } => Some(
            match cancelled_by {
                Some(by) => "cancelled by "@ + by,
                None => "cancelled"@,
            },
        ),
        LedgerEventPayloadView::Interrupted { signal } => Some(
            match signal {
                Some(sig) => "interrupted by "@ + sig,
                None => "interrupted"@,
            },
        ),
        LedgerEventPayloadView::Stale { last_heartbeat_at } => Some(
            match last_heartbeat_at {
                Some(ts) => "stale since "@ + ts,
                None => "stale"@,
            },
        ),
        _ => None,
    }
}

/// The alert an event reports, if it reports one.
pub open spec fn alert_message(p: LedgerEventPayloadView) -> Option<Seq<char>> {
    match p {
        LedgerEventPayloadView::Escalated { channel, alert_id } => Some(
            match alert_id {
                Some(id) => "escalated via "@ + channel + " alert_id="@ + id,
                None => "escalated via "@ + channel,
            },
        ),
        _ => None,
    }
}

/// The note an event reports: an alert when `alerts`, else an error.
pub open spec fn note_of(p: LedgerEventPayloadView, alerts: bool) -> Option<Seq<char>> {
    if alerts {
        alert_message(p)
    } else {
        error_message(p)
    }
}

/// The note (see [`note_of`]) with the highest sequence number among the
/// events of worker `w` that report one (the later of equal ones), with that
/// number.
pub open spec fn latest_note_spec(events: Seq<LedgerEventView>, w: Seq<char>, alerts: bool) -> Option<
    (u64, Seq<char>),
>
    decreases events.len(),
{
    if events.len() == 0 {
        None
    } else {
        let best = latest_note_spec(events.drop_last(), w, alerts);
        let e = events.last();
        match note_of(e.payload, alerts) {
            Some(msg) => if e.worker_id == w {
                match best {
                    Some((s, _m)) => if e.seq >= s {
                        Some((e.seq, msg))
                    } else {
                        best
                    },
                    None => Some((e.seq, msg)),
                }
            } else {
                best
            },
            None => best,
        }
    }
}

fn two(a: &str, b: &str) -> (r: String)
    ensures
        r@ == a@ + b@,
{
    let mut out = chars_of(a);
    push_all(&mut out, chars_of(b).as_slice());
    string_of(out.as_slice())
}

fn owned(a: &str) -> (r: String)
    ensures
        r@ == a@,
{
    string_of(chars_of(a).as_slice())
}

fn error_message_exec(p: &LedgerEventPayload) -> (r: Option<String>)
    ensures
        opt_view(r) == error_message(p@),
{
    match p {
        LedgerEventPayload::Failed { reason } => Some(two("failed: ", reason.as_str())),
        LedgerEventPayload::Cancelled { cancelled_by } => Some(
            match cancelled_by {
                Some(by) => two("cancelled by ", by.as_str()),
                None => owned("cancelled"),
            },
        ),
        LedgerEventPayload::Interrupted { signal } => Some(
            match signal {
                Some(sig) => two("interrupted by ", sig.as_str()),
                None => owned("interrupted"),
            },
        ),
        LedgerEventPayload::Stale { last_heartbeat_at } => Some(
            match last_heartbeat_at {
                Some(ts) => two("stale since ", ts.as_str()),
                None => owned("stale"),
            },
        ),
        _ => None,
    }
}

fn alert_message_exec(p: &LedgerEventPayload) -> (r: Option<String>)
    ensures
        opt_view(r) == alert_message(p@),
{
    match p {
        LedgerEventPayload::Escalated { channel, alert_id } => Some(
            match alert_id {
                Some(id) => {
                    let mut out = chars_of("escalated via ");
                    push_all(&mut out, chars_of(channel.as_str()).as_slice());
                    push_all(&mut out, chars_of(" alert_id=").as_slice());
                    push_all(&mut out, chars_of(id.as_str()).as_slice());
                    string_of(out.as_slice())
                },
                None => two("escalated via ", channel.as_str()),
            },
        ),
        _ => None,
    }
}

/// The latest note of worker `worker_id` (see [`latest_note_spec`]).
fn latest_note(events: &Vec<LedgerEvent>, worker_id: &String, alerts: bool) -> (r: Option<String>)
    ensures
        opt_view(r) == match latest_note_spec(events_view(events@), worker_id@, alerts) {
            Some((_s, m)) => Some(m),
            None => None,
        },
{
    let ghost ev = events_view(events@);
    let mut best: Option<(u64, String)> = None;
    let mut i: usize = 0;
    while i < events.len()
        invariant
            i <= events@.len(),
            ev == events_view(events@),
            match best {
                Some(b) => latest_note_spec(ev.take(i as int), worker_id@, alerts) == Some((b.0, b.1@)),
                None => latest_note_spec(ev.take(i as int), worker_id@, alerts) is None,
            },
        decreases events.len() - i,
    {
        let e = &events[i];
        proof {
            assert(ev.take(i + 1).drop_last() =~= ev.take(i as int));
            assert(ev.take(i + 1).last() == e@);
        }
        let note = if alerts {
            alert_message_exec(&e.payload)
        } else {
            error_message_exec(&e.payload)
        };
        match note {
            Some(msg) => {
                if same_text(&e.worker_id, worker_id) {
                    let replace = match &best {
                        Some(b) => e.seq >= b.0,
                        None => true,
                    };
                    if replace {
                        best = Some((e.seq, msg));
                    }
                }
            },
            None => {},
        }
        i = i + 1;
    }
    assert(ev.take(events@.len() as int) =~= ev);
    match best {
        Some(b) => Some(b.1),
        None => None,
    }
}

/// The latest error reported for worker `worker_id` among the ledger's
/// latest events: failed, cancelled, interrupted or stale (see
/// [`latest_note_spec`]).
pub fn latest_error_for_worker(events: &Vec<LedgerEvent>, worker_id: &String) -> (r: Option<String>)
    ensures
        opt_view(r) == match latest_note_spec(events_view(events@), worker_id@, false) {
            Some((_s, m)) => Some(m),
            None => None,
        },
{
    latest_note(events, worker_id, false)
}

/// The latest alert raised for worker `worker_id` among the ledger's
/// escalation events (see [`latest_note_spec`]).
pub fn latest_alert_for_worker(events: &Vec<LedgerEvent>, worker_id: &String) -> (r: Option<String>)
    ensures
        opt_view(r) == match latest_note_spec(events_view(events@), worker_id@, true) {
            Some((_s, m)) => Some(m),
            None => None,
        },
{
    latest_note(events, worker_id, true)
}

/// The time a task last moved: when it finished, else when it was leased.
pub open spec fn task_stamp(t: LedgerTaskView) -> Option<Seq<char>> {
    match t.completed_at {
        Some(c) => Some(c),
        None => t.leased_at,
    }
}

/// Whether optional times are in order: none comes first, then times in
/// the order of their text.
pub open spec fn stamp_le(a: Option<Seq<char>>, b: Option<Seq<char>>) -> bool {
    match (a, b) {
        (None, _) => true,
        (Some(_), None) => false,
        (Some(x), Some(y)) => !key_lt(y, x),
    }
}

/// The index of the first task leased to `w` that is still leased.
pub open spec fn active_task_spec(tasks: Seq<LedgerTaskView>, w: Seq<char>) -> Option<int>
    decreases tasks.len(),
{
    if tasks.len() == 0 {
        None
    } else {
        match active_task_spec(tasks.drop_last(), w) {
            Some(i) => Some(i),
            None => if tasks.last().status == TaskLedgerStatus::Leased && tasks.last().leased_to == Some(w) {
                Some(tasks.len() - 1)
            } else {
                None
            },
        }
    }
}

/// The index of the task leased to `w` that moved last (see
/// [`task_stamp`]; the later of equal ones).
pub open spec fn latest_task_spec(tasks: Seq<LedgerTaskView>, w: Seq<char>) -> Option<int>
    decreases tasks.len(),
{
    if tasks.len() == 0 {
        None
    } else {
        let best = latest_task_spec(tasks.drop_last(), w);
        let t = tasks.last();
        if t.leased_to == Some(w) {
            match best {
                Some(b) => if stamp_le(task_stamp(tasks[b]), task_stamp(t)) {
                    Some(tasks.len() - 1)
                } else {
                    best
                },
                None => Some(tasks.len() - 1),
            }
        } else {
            best
        }
    }
}

/// The task a worker is on: the one it holds a lease on, else the one it
/// worked on last.
pub open spec fn current_task_spec(tasks: Seq<LedgerTaskView>, w: Seq<char>) -> Option<int> {
    match active_task_spec(tasks, w) {
        Some(i) => Some(i),
        None => latest_task_spec(tasks, w),
    }
}

proof fn lemma_task_index_bounds(tasks: Seq<LedgerTaskView>, w: Seq<char>)
    ensures
        active_task_spec(tasks, w) matches Some(i) ==> 0 <= i < tasks.len(),
        latest_task_spec(tasks, w) matches Some(i) ==> 0 <= i < tasks.len(),
    decreases tasks.len(),
{
    if tasks.len() > 0 {
        lemma_task_index_bounds(tasks.drop_last(), w);
    }
}

fn stamp_le_exec(a: &Option<String>, b: &Option<String>) -> (r: bool)
    ensures
        r == stamp_le(opt_view(*a), opt_view(*b)),
{
    match (a, b) {
        (None, _) => true,
        (Some(_), None) => false,
        (Some(x), Some(y)) => !key_lt_exec(chars_of(y.as_str()).as_slice(), chars_of(x.as_str()).as_slice()),
    }
}

fn task_stamp_exec(t: &LedgerTask) -> (r: Option<String>)
    ensures
        opt_view(r) == task_stamp(t@),
{
    match &t.completed_at {
        Some(c) => Some(c.clone()),
        None => t.leased_at.clone(),
    }
}

/// The task worker `worker_id` is on (see [`current_task_spec`]), by its
/// index in `tasks`.
pub fn current_task_for_worker(tasks: &Vec<LedgerTask>, worker_id: &String) -> (r: Option<usize>)
    ensures
        match r {
            Some(i) => current_task_spec(tasks_view(tasks@), worker_id@) == Some(i as int),
            None => current_task_spec(tasks_view(tasks@), worker_id@) is None,
        },
{
    let ghost tv = tasks_view(tasks@);
    let mut active: Option<usize> = None;
    let mut latest: Option<usize> = None;
    let mut i: usize = 0;
    while i < tasks.len()
        invariant
            i <= tasks@.len(),
            tv == tasks_view(tasks@),
            match active {
                Some(a) => active_task_spec(tv.take(i as int), worker_id@) == Some(a as int),
                None => active_task_spec(tv.take(i as int), worker_id@) is None,
            },
            match latest {
                Some(l) => latest_task_spec(tv.take(i as int), worker_id@) == Some(l as int) && l < i,
                None => latest_task_spec(tv.take(i as int), worker_id@) is None,
            },
        decreases tasks.len() - i,
    {
        let t = &tasks[i];
        proof {
            let ti = tv.take(i + 1);
            assert(ti.drop_last() =~= tv.take(i as int));
            assert(ti.last() == t@);
            assert(ti.len() - 1 == i);
        }
        let mine = same_opt_text(&t.leased_to, worker_id);
        if active.is_none() {
            let leased = match t.status {
                TaskLedgerStatus::Leased => true,
                _ => false,
            };
            if leased && mine {
                active = Some(i);
            }
        }
        if mine {
            match latest {
                Some(l) => {
                    proof {
                        assert(tv.take(i + 1)[l as int] == tv[l as int]);
                    }
                    if stamp_le_exec(&task_stamp_exec(&tasks[l]), &task_stamp_exec(t)) {
                        latest = Some(i);
                    }
                },
                None => {
                    latest = Some(i);
                },
            }
        }
        i = i + 1;
    }
    assert(tv.take(tasks@.len() as int) =~= tv);
    match active {
        Some(a) => Some(a),
        None => latest,
    }
}

/// The value stored under `key` in `(key, value)` pairs (the first with the
/// key).
pub open spec fn lookup_pair(pairs: Seq<(String, String)>, key: Seq<char>) -> Option<Seq<char>>
    decreases pairs.len(),
{
    if pairs.len() == 0 {
        None
    } else if pairs[0].0@ == key {
        Some(pairs[0].1@)
    } else {
        lookup_pair(pairs.drop_first(), key)
    }
}

fn lookup_pair_exec(pairs: &Vec<(String, String)>, key: &String) -> (r: Option<String>)
    ensures
        opt_view(r) == lookup_pair(pairs@, key@),
{
    let mut i: usize = 0;
    assert(pairs@.skip(0) =~= pairs@);
    while i < pairs.len()
        invariant
            i <= pairs@.len(),
            lookup_pair(pairs@, key@) == lookup_pair(pairs@.skip(i as int), key@),
        decreases pairs.len() - i,
    {
        assert(pairs@.skip(i as int)[0] == pairs@[i as int]);
        assert(pairs@.skip(i as int).drop_first() =~= pairs@.skip(i + 1));
        if same_text(&pairs[i].0, key) {
            return Some(pairs[i].1.clone());
        }
        i = i + 1;
    }
    None
}

/// What the ledger says about a worker, as the fleet manager reads it.
pub struct LedgerView {
    /// The tasks, in ledger order.
    pub tasks: Vec<LedgerTask>,
    /// Each worker's status by name (`idle`, `running`, ...).
    pub workers: Vec<(String, String)>,
    /// Each worker's latest heartbeat time.
    pub heartbeats: Vec<(String, String)>,
    /// The latest event of each worker and task.
    pub latest_events: Vec<LedgerEvent>,
    /// The escalation events.
    pub escalated_events: Vec<LedgerEvent>,
}

/// What inspecting a worker reports.
#[derive(Debug, Clone, PartialEq, Eq)]
pub struct WorkerInspection {
    pub worker_id: String,
    /// Its status; `unknown` when the ledger has none.
    pub status: String,
    pub current_run_id: Option<String>,
    pub current_task_id: Option<String>,
    pub latest_heartbeat_at: Option<String>,
    pub last_error: Option<String>,
    pub alert_state: Option<String>,
}

/// Inspects worker `worker_id`: its status (`unknown` when the ledger has
/// none), the run and task it is on (see [`current_task_spec`]), its latest
/// heartbeat, its latest error and its latest alert.
pub fn worker_inspection(state: &LedgerView, worker_id: &String) -> (r: WorkerInspection)
    ensures
        r.worker_id@ == worker_id@,
        r.status@ == match lookup_pair(state.workers@, worker_id@) {
            Some(s) => s,
            None => "unknown"@,
        },
        match current_task_spec(tasks_view(state.tasks@), worker_id@) {
            Some(i) => opt_view(r.current_run_id) == Some(tasks_view(state.tasks@)[i].run_id) && opt_view(
                r.current_task_id,
            ) == Some(tasks_view(state.tasks@)[i].task_id),
            None => r.current_run_id is None && r.current_task_id is None,
        },
        opt_view(r.latest_heartbeat_at) == lookup_pair(state.heartbeats@, worker_id@),
        opt_view(r.last_error) == match latest_note_spec(events_view(state.latest_events@), worker_id@, false) {
            Some((_s, m)) => Some(m),
            None => None,
        },
        opt_view(r.alert_state) == match latest_note_spec(events_view(state.escalated_events@), worker_id@, true) {
            Some((_s, m)) => Some(m),
            None => None,
        },
{
    let status = match lookup_pair_exec(&state.workers, worker_id) {
        Some(s) => s,
        None => owned("unknown"),
    };
    let (current_run_id, current_task_id) = match current_task_for_worker(&state.tasks, worker_id) {
        Some(i) => {
            proof {
                lemma_task_index_bounds(tasks_view(state.tasks@), worker_id@);
            }
            (Some(state.tasks[i].run_id.clone()), Some(state.tasks[i].task_id.clone()))
        },
        None => (None, None),
    };
    WorkerInspection {
        worker_id: worker_id.clone(),
        status,
        current_run_id,
        current_task_id,
        latest_heartbeat_at: lookup_pair_exec(&state.heartbeats, worker_id),
        last_error: latest_error_for_worker(&state.latest_events, worker_id),
        alert_state: latest_alert_for_worker(&state.escalated_events, worker_id),
    }
}

/// Whether task `a` comes strictly before task `b` in the queue: by
/// priority, then by when it was enqueued, then by id.
pub open spec fn queued_before(a: LedgerTaskView, b: LedgerTaskView) -> bool {
    ||| a.priority < b.priority
    ||| a.priority == b.priority && key_lt(a.enqueued_at, b.enqueued_at)
    ||| a.priority == b.priority && a.enqueued_at == b.enqueued_at && key_lt(a.task_id, b.task_id)
}

/// The index of the first enqueued task of run `run_id` that no other
/// comes strictly before (see [`queued_before`]).
pub open spec fn next_enqueued_spec(tasks: Seq<LedgerTaskView>, run_id: Seq<char>) -> Option<int>
    decreases tasks.len(),
{
    if tasks.len() == 0 {
        None
    } else {
        let best = next_enqueued_spec(tasks.drop_last(), run_id);
        let t = tasks.last();
        if t.run_id == run_id && t.status == TaskLedgerStatus::Enqueued {
            match best {
                Some(b) => if queued_before(t, tasks[b]) {
                    Some(tasks.len() - 1)
                } else {
                    best
                },
                None => Some(tasks.len() - 1),
            }
        } else {
            best
        }
    }
}

fn queued_before_exec(a: &LedgerTask, b: &LedgerTask) -> (r: bool)
    ensures
        r == queued_before(a@, b@),
{
    if a.priority != b.priority {
        return a.priority < b.priority;
    }
    let ae = chars_of(a.enqueued_at.as_str());
    let be = chars_of(b.enqueued_at.as_str());
    if key_lt_exec(ae.as_slice(), be.as_slice()) {
        return true;
    }
    if !seq_eq(ae.as_slice(), be.as_slice()) {
        return false;
    }
    key_lt_exec(chars_of(a.task_id.as_str()).as_slice(), chars_of(b.task_id.as_str()).as_slice())
}

/// The task of run `run_id` to launch next (see [`next_enqueued_spec`]),
/// by its index in `tasks`, when the run holds its spec; `None` when no
/// task is enqueued or the run has no spec for the chosen one.
pub fn next_enqueued_task(tasks: &Vec<LedgerTask>, run_id: &String, spec_ids: &Vec<String>) -> (r: Option<
    usize,
>)
    ensures
        match next_enqueued_spec(tasks_view(tasks@), run_id@) {
            Some(i) => if strs_of(spec_ids@).contains(tasks_view(tasks@)[i].task_id) {
                r == Some(i as usize)
            } else {
                r is None
            },
            None => r is None,
        },
{
    let ghost tv = tasks_view(tasks@);
    let mut best: Option<usize> = None;
    let mut i: usize = 0;
    while i < tasks.len()
        invariant
            i <= tasks@.len(),
            tv == tasks_view(tasks@),
            match best {
                Some(b) => next_enqueued_spec(tv.take(i as int), run_id@) == Some(b as int) && b < i,
                None => next_enqueued_spec(tv.take(i as int), run_id@) is None,
            },
        decreases tasks.len() - i,
    {
        let t = &tasks[i];
        proof {
            let ti = tv.take(i + 1);
            assert(ti.drop_last() =~= tv.take(i as int));
            assert(ti.last() == t@);
        }
        let enqueued = match t.status {
            TaskLedgerStatus::Enqueued => true,
            _ => false,
        };
        if same_text(&t.run_id, run_id) && enqueued {
            match best {
                Some(b) => {
                    proof {
                        assert(tv.take(i + 1)[b as int] == tv[b as int]);
                    }
                    if queued_before_exec(t, &tasks[b]) {
                        best = Some(i);
                    }
                },
                None => {
                    best = Some(i);
                },
            }
        }
        i = i + 1;
    }
    assert(tv.take(tasks@.len() as int) =~= tv);
    match best {
        Some(b) => {
            if contains_text(spec_ids, &tasks[b].task_id) {
                Some(b)
            } else {
                None
            }
        },
        None => None,
    }
}

} // verus!
