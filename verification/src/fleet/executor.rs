//! The bookkeeping of fleet workers that run as `mimofan exec` processes.
//!
//! A worker is a headless `mimofan exec` run. This module builds its
//! argument list, maps each stream-json line it writes to a ledger event,
//! turns its exit into a terminal event, and tracks, per worker, how far its
//! log has been read, the partial line waiting for its newline, and whether
//! the terminal event was already produced. Starting processes, reading logs
//! and polling hosts are left to the caller, which hands the results in.
use crate::fleet::observability::{
    key_lt, key_lt_exec, key_pos, lemma_insert_sorted, lemma_key_lt_irreflexive, lemma_key_lt_total,
    lemma_key_pos_at, lemma_key_pos_bounds_all, lemma_sorted_key_pos, lemma_sorted_remove, strictly_sorted,
};
use crate::json::{json_probe, probe_json, JsonProbe, JsonProbeView};
use crate::text::{
    char_pos, char_pos_from, chars_of, decimal, decimal_exec, is_whitespace, is_ws, join, join_exec,
    lemma_char_pos_bounds, push_all, slice_to_vec, string_of, trim, trim_end, trimmed, views,
};
use vstd::prelude::*;

verus! {

/// A worker lifecycle event for the fleet ledger.
#[derive(Debug, Clone, PartialEq, Eq)]
pub enum WorkerEventPayload {
    /// The worker started a tool call.
    RunningTool { tool: String, call_id: Option<String> },
    /// The worker is alive and producing output.
    Running,
    /// The worker finished.
    Completed { exit_code: Option<i32>, summary: Option<String> },
    /// The worker failed.
    Failed { reason: String, recoverable: bool },
    /// The worker was stopped by an operator.
    Cancelled { cancelled_by: Option<String> },
}

/// Model of a [`WorkerEventPayload`].
pub enum WorkerEventView {
    RunningTool { tool: Seq<char>, call_id: Option<Seq<char>> },
    Running,
    Completed { exit_code: Option<i32>, summary: Option<Seq<char>> },
    Failed { reason: Seq<char>, recoverable: bool },
    Cancelled { cancelled_by: Option<Seq<char>> },
}

/// The contents of an optional string.
pub open spec fn opt_view(o: Option<String>) -> Option<Seq<char>> {
    match o {
        Some(s) => Some(s@),
        None => None,
    }
}

impl View for WorkerEventPayload {
    type V = WorkerEventView;

    open spec fn view(&self) -> WorkerEventView {
        match self {
            WorkerEventPayload::RunningTool { tool, call_id } => WorkerEventView::RunningTool {
                tool: tool@,
                call_id: opt_view(*call_id),
            },
            WorkerEventPayload::Running => WorkerEventView::Running,
            WorkerEventPayload::Completed { exit_code, summary } => WorkerEventView::Completed {
                exit_code: *exit_code,
                summary: opt_view(*summary),
            },
            WorkerEventPayload::Failed { reason, recoverable } => WorkerEventView::Failed {
                reason: reason@,
                recoverable: *recoverable,
            },
            WorkerEventPayload::Cancelled { cancelled_by } => WorkerEventView::Cancelled {
                cancelled_by: opt_view(*cancelled_by),
            },
        }
    }
}

/// The settings of the `[fleet.exec]` table that shape a worker's command.
#[derive(Debug, Clone, Default)]
pub struct WorkerExecSettings {
    /// Tools the worker may use (all when empty).
    pub allowed_tools: Vec<String>,
    /// Tools the worker may not use.
    pub disallowed_tools: Vec<String>,
    /// Turn cap (`0` and `u32::MAX` mean none).
    pub max_turns: u32,
    /// Text appended to the worker's system prompt.
    pub append_system_prompt: String,
}

/// A program with its arguments.
#[derive(Debug, Clone, PartialEq, Eq)]
pub struct WorkerCommand {
    pub program: String,
    pub args: Vec<String>,
}

/// The contents of a list of strings.
pub open spec fn strs(v: Seq<String>) -> Seq<Seq<char>> {
    v.map_values(|s: String| s@)
}

/// `"--flag", value` when `cond` holds, nothing otherwise.
pub open spec fn flag_if(cond: bool, flag: Seq<char>, value: Seq<char>) -> Seq<Seq<char>> {
    if cond {
        seq![flag, value]
    } else {
        seq![]
    }
}

/// The arguments of a headless worker run: `exec --auto --output-format
/// stream-json`, the trimmed model when one is given and not blank, the
/// tool lists joined by commas when not empty, the turn cap when it is one,
/// the system-prompt addition when it is not blank, then the task prompt.
pub open spec fn worker_args_spec(
    task_prompt: Seq<char>,
    allowed: Seq<Seq<char>>,
    disallowed: Seq<Seq<char>>,
    max_turns: u32,
    append_system_prompt: Seq<char>,
    model: Option<Seq<char>>,
) -> Seq<Seq<char>> {
    let m = match model {
        Some(m) => trim(m),
        None => seq![],
    };
    seq!["exec"@, "--auto"@, "--output-format"@, "stream-json"@] + flag_if(m.len() > 0, "--model"@, m)
        + flag_if(allowed.len() > 0, "--allowed-tools"@, join(allowed, ","@)) + flag_if(
        disallowed.len() > 0,
        "--disallowed-tools"@,
        join(disallowed, ","@),
    ) + flag_if(max_turns > 0 && max_turns != u32::MAX, "--max-turns"@, decimal(max_turns as nat))
        + flag_if(trim(append_system_prompt).len() > 0, "--append-system-prompt"@, append_system_prompt)
        + seq![task_prompt]
}

fn push_str(out: &mut Vec<String>, s: &str)
    ensures
        strs(final(out)@) == strs(old(out)@).push(s@),
{
    out.push(s.to_owned());
    assert(strs(out@) =~= strs(old(out)@).push(s@));
}

fn to_char_vecs(v: &Vec<String>) -> (r: Vec<Vec<char>>)
    ensures
        views(r@) == strs(v@),
{
    let mut r: Vec<Vec<char>> = Vec::new();
    let mut i: usize = 0;
    while i < v.len()
        invariant
            i <= v@.len(),
            views(r@) == strs(v@).take(i as int),
        decreases v.len() - i,
    {
        let c = chars_of(v[i].as_str());
        assert(c@ == strs(v@)[i as int]);
        let ghost before = views(r@);
        r.push(c);
        assert(views(r@) =~= before.push(c@));
        assert(strs(v@).take((i + 1) as int) =~= strs(v@).take(i as int).push(c@));
        i = i + 1;
    }
    assert(strs(v@).take(v@.len() as int) =~= strs(v@));
    r
}

fn push_flag_if(args: &mut Vec<String>, cond: bool, flag: &str, value: &str)
    ensures
        strs(final(args)@) == strs(old(args)@) + flag_if(cond, flag@, value@),
{
    if cond {
        push_str(args, flag);
        push_str(args, value);
        assert(strs(args@) =~= strs(old(args)@) + seq![flag@, value@]);
    } else {
        assert(strs(old(args)@) + flag_if(cond, flag@, value@) =~= strs(old(args)@));
    }
}

fn joined_by_commas(v: &Vec<String>) -> (r: String)
    ensures
        r@ == join(strs(v@), ","@),
{
    let joined = join_exec(&to_char_vecs(v), chars_of(",").as_slice());
    string_of(joined.as_slice())
}

/// The `mimofan exec` command that runs a task prompt headlessly (see
/// [`worker_args_spec`]).
pub fn build_worker_exec_command_from_prompt(
    mimofan_binary: &str,
    task_prompt: String,
    exec: &WorkerExecSettings,
    model: Option<&str>,
) -> (r: WorkerCommand)
    ensures
        r.program@ == mimofan_binary@,
        strs(r.args@) == worker_args_spec(
            task_prompt@,
            strs(exec.allowed_tools@),
            strs(exec.disallowed_tools@),
            exec.max_turns,
            exec.append_system_prompt@,
            match model {
                Some(m) => Some(m@),
                None => None,
            },
        ),
{
    let mut args: Vec<String> = Vec::new();
    push_str(&mut args, "exec");
    push_str(&mut args, "--auto");
    push_str(&mut args, "--output-format");
    push_str(&mut args, "stream-json");
    let ghost a0 = strs(args@);
    assert(a0 =~= seq!["exec"@, "--auto"@, "--output-format"@, "stream-json"@]);
    let model_name = match model {
        Some(name) => string_of(trimmed(chars_of(name).as_slice()).as_slice()),
        None => String::new(),
    };
    push_flag_if(&mut args, !model_name.as_str().is_empty(), "--model", model_name.as_str());
    let allowed = joined_by_commas(&exec.allowed_tools);
    push_flag_if(&mut args, exec.allowed_tools.len() > 0, "--allowed-tools", allowed.as_str());
    let disallowed = joined_by_commas(&exec.disallowed_tools);
    push_flag_if(&mut args, exec.disallowed_tools.len() > 0, "--disallowed-tools", disallowed.as_str());
    let turns = string_of(decimal_exec(exec.max_turns as u64).as_slice());
    push_flag_if(&mut args, exec.max_turns > 0 && exec.max_turns != u32::MAX, "--max-turns", turns.as_str());
    let prompt_addition = trimmed(chars_of(exec.append_system_prompt.as_str()).as_slice());
    push_flag_if(
        &mut args,
        prompt_addition.len() > 0,
        "--append-system-prompt",
        exec.append_system_prompt.as_str(),
    );
    push_str(&mut args, task_prompt.as_str());
    WorkerCommand { program: mimofan_binary.to_owned(), args }
}

/// The ledger event one stream-json line of a worker stands for: the line,
/// trimmed, is parsed as JSON and its `type` decides; lines of any other
/// type, or that are not JSON objects with a string `type`, stand for none.
pub open spec fn stream_event_spec(line: Seq<char>) -> Option<WorkerEventView> {
    let body = trim(line);
    match json_probe(body, "/type"@) {
        JsonProbeView::Text(t) => if t == "tool_use"@ {
            Some(
                WorkerEventView::RunningTool {
                    tool: match json_probe(body, "/name"@) {
                        JsonProbeView::Text(n) => n,
                        _ => "tool"@,
                    },
                    call_id: match json_probe(body, "/id"@) {
                        JsonProbeView::Text(i) => Some(i),
                        _ => None,
                    },
                },
            )
        } else if t == "content"@ || t == "tool_result"@ {
            Some(WorkerEventView::Running)
        } else if t == "done"@ {
            Some(WorkerEventView::Completed { exit_code: Some(0), summary: None })
        } else if t == "error"@ {
            Some(
                WorkerEventView::Failed {
                    reason: match json_probe(body, "/error"@) {
                        JsonProbeView::Text(e) => e,
                        _ => "worker reported an error"@,
                    },
                    recoverable: false,
                },
            )
        } else {
            None
        },
        _ => None,
    }
}

/// The model of an optional event.
pub open spec fn event_opt_view(e: Option<WorkerEventPayload>) -> Option<WorkerEventView> {
    match e {
        Some(e) => Some(e@),
        None => None,
    }
}

fn eq_str(a: &String, b: &str) -> (r: bool)
    ensures
        r == (a@ == b@),
{
    *a == b.to_owned()
}

/// Maps one stream-json line of a worker to a ledger event (see
/// [`stream_event_spec`]).
pub fn map_exec_stream_line(line: &str) -> (r: Option<WorkerEventPayload>)
    ensures
        event_opt_view(r) == stream_event_spec(line@),
{
    let body = string_of(trimmed(chars_of(line).as_slice()).as_slice());
    let kind = match probe_json(body.as_str(), "/type") {
        JsonProbe::Text(t) => t,
        _ => {
            return None;
        },
    };
    if eq_str(&kind, "tool_use") {
        let tool = match probe_json(body.as_str(), "/name") {
            JsonProbe::Text(n) => n,
            _ => "tool".to_owned(),
        };
        let call_id = match probe_json(body.as_str(), "/id") {
            JsonProbe::Text(i) => Some(i),
            _ => None,
        };
        Some(WorkerEventPayload::RunningTool { tool, call_id })
    } else if eq_str(&kind, "content") || eq_str(&kind, "tool_result") {
        Some(WorkerEventPayload::Running)
    } else if eq_str(&kind, "done") {
        Some(WorkerEventPayload::Completed { exit_code: Some(0), summary: None })
    } else if eq_str(&kind, "error") {
        let reason = match probe_json(body.as_str(), "/error") {
            JsonProbe::Text(e) => e,
            _ => "worker reported an error".to_owned(),
        };
        Some(WorkerEventPayload::Failed { reason, recoverable: false })
    } else {
        None
    }
}

/// The decimal form of a signed integer.
pub open spec fn signed_decimal(n: int) -> Seq<char> {
    if n < 0 {
        seq!['-'] + decimal((-n) as nat)
    } else {
        decimal(n as nat)
    }
}

/// The terminal event of a worker process: a stop by an operator is a
/// cancellation whatever the exit code; exit code 0 is a completion; any
/// other exit, with or without a code, is a recoverable failure.
pub open spec fn exit_event_spec(exit_code: Option<i32>, stopped: bool) -> WorkerEventView {
    if stopped {
        WorkerEventView::Cancelled { cancelled_by: None }
    } else {
        match exit_code {
            Some(0) => WorkerEventView::Completed { exit_code: Some(0), summary: None },
            Some(code) => WorkerEventView::Failed {
                reason: "worker exited with code "@ + signed_decimal(code as int),
                recoverable: true,
            },
            None => WorkerEventView::Failed {
                reason: "worker exited without a status code"@,
                recoverable: true,
            },
        }
    }
}

/// Classifies a worker process exit (see [`exit_event_spec`]).
pub fn classify_worker_exit(exit_code: Option<i32>, stopped: bool) -> (r: WorkerEventPayload)
    ensures
        r@ == exit_event_spec(exit_code, stopped),
{
    if stopped {
        return WorkerEventPayload::Cancelled { cancelled_by: None };
    }
    match exit_code {
        Some(0) => WorkerEventPayload::Completed { exit_code: Some(0), summary: None },
        Some(code) => {
            let mut out: Vec<char> = chars_of("worker exited with code ");
            if code < 0 {
                out.push('-');
                let magnitude = (0i64 - code as i64) as u64;
                push_all(&mut out, decimal_exec(magnitude).as_slice());
            } else {
                push_all(&mut out, decimal_exec(code as u64).as_slice());
            }
            assert(out@ =~= "worker exited with code "@ + signed_decimal(code as int));
            WorkerEventPayload::Failed { reason: string_of(out.as_slice()), recoverable: true }
        },
        None => WorkerEventPayload::Failed {
            reason: "worker exited without a status code".to_owned(),
            recoverable: true,
        },
    }
}

/// Where a worker runs.
#[derive(Debug, Clone, PartialEq, Eq)]
pub enum WorkerStreamHost {
    /// A local process.
    Local,
    /// An SSH host, under the key of its adapter.
    Ssh(String),
}

/// Model of a [`WorkerStreamHost`].
pub enum HostView {
    Local,
    Ssh(Seq<char>),
}

impl View for WorkerStreamHost {
    type V = HostView;

    open spec fn view(&self) -> HostView {
        match self {
            WorkerStreamHost::Local => HostView::Local,
            WorkerStreamHost::Ssh(k) => HostView::Ssh(k@),
        }
    }
}

/// The state of a worker process as its host reports it.
#[derive(Debug, Clone, Copy, PartialEq, Eq)]
pub enum WorkerHostState {
    Running,
    Unknown,
    Stopped,
    Exited,
    Failed,
}

/// The terminal event of a worker with its raw exit code.
#[derive(Debug, Clone)]
pub struct FleetWorkerTerminalEvent {
    pub payload: WorkerEventPayload,
    pub exit_code: Option<i32>,
}

/// What is kept about one worker's output stream.
#[derive(Debug)]
struct WorkerStream {
    log_path: String,
    host: WorkerStreamHost,
    offset: u64,
    pending: String,
    terminal: bool,
}

/// Model of one worker's stream.
pub struct StreamView {
    /// The worker's log file.
    pub log_path: Seq<char>,
    /// Where it runs.
    pub host: HostView,
    /// Bytes of the log read so far.
    pub offset: nat,
    /// Text read after the last complete line.
    pub pending: Seq<char>,
    /// Whether its terminal event was produced.
    pub terminal: bool,
}

impl View for WorkerStream {
    type V = StreamView;

    closed spec fn view(&self) -> StreamView {
        StreamView {
            log_path: self.log_path@,
            host: self.host@,
            offset: self.offset as nat,
            pending: self.pending@,
            terminal: self.terminal,
        }
    }
}

/// Tracks fleet workers by id, ordered by id as a `BTreeMap` keeps them.
#[derive(Debug)]
pub struct FleetExecutor {
    workspace: String,
    streams: Vec<(String, WorkerStream)>,
}

/// Model of a [`FleetExecutor`].
pub struct FleetExecutorView {
    /// The workspace the workers run in.
    pub workspace: Seq<char>,
    /// `(worker id, stream)` pairs, ordered by id.
    pub streams: Seq<(Seq<char>, StreamView)>,
}

/// The model of the stream table.
spec fn streams_view(v: Seq<(String, WorkerStream)>) -> Seq<(Seq<char>, StreamView)> {
    v.map_values(|e: (String, WorkerStream)| (e.0@, e.1@))
}

/// The worker ids of a stream table, in order.
pub open spec fn stream_ids(m: Seq<(Seq<char>, StreamView)>) -> Seq<Seq<char>> {
    m.map_values(|e: (Seq<char>, StreamView)| e.0)
}

impl View for FleetExecutor {
    type V = FleetExecutorView;

    closed spec fn view(&self) -> FleetExecutorView {
        FleetExecutorView { workspace: self.workspace@, streams: streams_view(self.streams@) }
    }
}

/// The stream of worker `id`, if it is tracked.
pub open spec fn stream_get(m: Seq<(Seq<char>, StreamView)>, id: Seq<char>) -> Option<StreamView> {
    let p = key_pos(stream_ids(m), id);
    if p < m.len() && m[p].0 == id {
        Some(m[p].1)
    } else {
        None
    }
}

/// `m` with worker `id` tracked by `s` (replacing any earlier stream), kept
/// ordered by id.
pub open spec fn stream_put(m: Seq<(Seq<char>, StreamView)>, id: Seq<char>, s: StreamView) -> Seq<
    (Seq<char>, StreamView),
> {
    let p = key_pos(stream_ids(m), id);
    if p < m.len() && m[p].0 == id {
        m.update(p, (id, s))
    } else {
        m.insert(p, (id, s))
    }
}

/// `m` without worker `id`.
pub open spec fn stream_remove(m: Seq<(Seq<char>, StreamView)>, id: Seq<char>) -> Seq<(Seq<char>, StreamView)> {
    let p = key_pos(stream_ids(m), id);
    if p < m.len() && m[p].0 == id {
        m.remove(p)
    } else {
        m
    }
}

/// The complete lines at the front of `buf`, each with its newline, and the
/// partial line left after them.
pub open spec fn drain_lines(buf: Seq<char>) -> (Seq<Seq<char>>, Seq<char>)
    decreases buf.len(),
{
    let i = char_pos(buf, '\n');
    proof {
        lemma_char_pos_bounds(buf, '\n');
    }
    if i >= buf.len() {
        (seq![], buf)
    } else {
        let rest = drain_lines(buf.skip(i + 1));
        (seq![buf.take(i + 1)] + rest.0, rest.1)
    }
}

/// The events of the complete lines `segs`, in order; a line's trailing
/// white space, newline included, is dropped before it is mapped.
pub open spec fn events_of(segs: Seq<Seq<char>>) -> Seq<WorkerEventView>
    decreases segs.len(),
{
    if segs.len() == 0 {
        seq![]
    } else {
        let e = stream_event_spec(trim_end(segs.last()));
        let prev = events_of(segs.drop_last());
        match e {
            Some(ev) => prev.push(ev),
            None => prev,
        }
    }
}

/// A new stream for a worker whose log is `log_path`.
pub open spec fn fresh_stream(log_path: Seq<char>, host: HostView) -> StreamView {
    StreamView { log_path, host, offset: 0, pending: seq![], terminal: false }
}

proof fn lemma_drain_lines_step(buf: Seq<char>, start: int, j: int)
    requires
        0 <= start <= j < buf.len(),
        buf[j] == '\n',
        forall|k: int| start <= k < j ==> buf[k] != '\n',
    ensures
        drain_lines(buf.skip(start)) == ({
            let rest = drain_lines(buf.skip(j + 1));
            (seq![buf.subrange(start, j + 1)] + rest.0, rest.1)
        }),
{
    let t = buf.skip(start);
    assert forall|k: int| 0 <= k < j - start implies t[k] != '\n' by {
        assert(t[k] == buf[k + start]);
    }
    crate::text::lemma_char_pos(t, '\n', j - start);
    assert(t.skip(j - start + 1) =~= buf.skip(j + 1));
    assert(t.take(j - start + 1) =~= buf.subrange(start, j + 1));
}

proof fn lemma_events_of_append(a: Seq<Seq<char>>, b: Seq<Seq<char>>)
    ensures
        events_of(a + b) == events_of(a) + events_of(b),
    decreases b.len(),
{
    if b.len() == 0 {
        assert(a + b =~= a);
        assert(events_of(b) =~= Seq::<WorkerEventView>::empty());
        assert(events_of(a) + events_of(b) =~= events_of(a));
    } else {
        lemma_events_of_append(a, b.drop_last());
        assert((a + b).drop_last() =~= a + b.drop_last());
        assert((a + b).last() == b.last());
        match stream_event_spec(trim_end(b.last())) {
            Some(ev) => {
                assert(events_of(a) + events_of(b.drop_last()).push(ev) =~= (events_of(a)
                    + events_of(b.drop_last())).push(ev));
            },
            None => {},
        }
    }
}

fn trim_end_exec(s: &[char]) -> (r: Vec<char>)
    ensures
        r@ == trim_end(s@),
{
    let mut end = s.len();
    assert(s@.take(end as int) =~= s@);
    while end > 0 && is_whitespace(s[end - 1])
        invariant
            end <= s@.len(),
            trim_end(s@) == trim_end(s@.take(end as int)),
        decreases end,
    {
        assert(s@.take(end as int).drop_last() =~= s@.take(end - 1));
        end = end - 1;
    }
    slice_to_vec(s, 0, end)
}

impl FleetExecutor {
    #[verifier::type_invariant]
    spec fn inv(self) -> bool {
        strictly_sorted(stream_ids(streams_view(self.streams@)))
    }

    /// An executor for `workspace` that tracks no worker.
    pub fn new(workspace: &str) -> (r: Self)
        ensures
            r@.workspace == workspace@,
            r@.streams == Seq::<(Seq<char>, StreamView)>::empty(),
    {
        let r = FleetExecutor { workspace: workspace.to_owned(), streams: Vec::new() };
        assert(r@.streams =~= Seq::<(Seq<char>, StreamView)>::empty());
        r
    }

    fn find(&self, worker_id: &str) -> (r: usize)
        ensures
            r == key_pos(stream_ids(self@.streams), worker_id@),
            r <= self@.streams.len(),
    {
        let ghost ks = stream_ids(self@.streams);
        let kc = chars_of(worker_id);
        let n = self.streams.len();
        let mut i: usize = 0;
        while i < n && key_lt_exec(chars_of(self.streams[i].0.as_str()).as_slice(), kc.as_slice())
            invariant
                n == self@.streams.len(),
                ks == stream_ids(self@.streams),
                kc@ == worker_id@,
                i <= n,
                forall|j: int| 0 <= j < i ==> key_lt(#[trigger] ks[j], worker_id@),
            decreases n - i,
        {
            i = i + 1;
        }
        proof {
            lemma_key_pos_at(ks, worker_id@, i as int);
        }
        i
    }

    fn lookup(&self, worker_id: &str) -> (r: Option<usize>)
        ensures
            match r {
                Some(p) => p < self@.streams.len() && self@.streams[p as int].0 == worker_id@
                    && p == key_pos(stream_ids(self@.streams), worker_id@)
                    && stream_get(self@.streams, worker_id@) == Some(self@.streams[p as int].1),
                None => stream_get(self@.streams, worker_id@) is None,
            },
    {
        let p = self.find(worker_id);
        if p < self.streams.len() && eq_str(&self.streams[p].0, worker_id) {
            Some(p)
        } else {
            None
        }
    }

    /// Starts tracking worker `worker_id`, whose output goes to `log_path`
    /// on `host`; a worker tracked before under the same id starts afresh.
    pub fn track_worker(&mut self, worker_id: &str, log_path: &str, host: WorkerStreamHost)
        ensures
            final(self)@.workspace == old(self)@.workspace,
            final(self)@.streams == stream_put(old(self)@.streams, worker_id@, fresh_stream(log_path@, host@)),
    {
        proof {
            use_type_invariant(&*self);
        }
        let ghost m = self@.streams;
        let p = self.find(worker_id);
        let stream = WorkerStream {
            log_path: log_path.to_owned(),
            host,
            offset: 0,
            pending: String::new(),
            terminal: false,
        };
        let ghost sv = stream@;
        assert(sv == fresh_stream(log_path@, host@));
        let mut streams: Vec<(String, WorkerStream)> = Vec::new();
        std::mem::swap(&mut streams, &mut self.streams);
        assert(streams_view(streams@) == m);
        proof {
            lemma_key_pos_bounds_all(stream_ids(m), worker_id@);
        }
        if p < streams.len() && eq_str(&streams[p].0, worker_id) {
            streams.set(p, (worker_id.to_owned(), stream));
            assert(streams_view(streams@) =~= m.update(p as int, (worker_id@, sv)));
            assert(stream_ids(streams_view(streams@)) =~= stream_ids(m));
        } else {
            streams.insert(p, (worker_id.to_owned(), stream));
            assert(streams_view(streams@) =~= m.insert(p as int, (worker_id@, sv)));
            assert(stream_ids(streams_view(streams@)) =~= stream_ids(m).insert(p as int, worker_id@));
            proof {
                lemma_insert_sorted(stream_ids(m), worker_id@, p as int);
            }
        }
        self.streams = streams;
    }

    /// Whether worker `worker_id` is tracked.
    pub fn is_tracking(&self, worker_id: &str) -> (r: bool)
        ensures
            r == stream_get(self@.streams, worker_id@) is Some,
    {
        self.lookup(worker_id).is_some()
    }

    /// The ids of the tracked workers, in order.
    pub fn worker_ids(&self) -> (r: Vec<String>)
        ensures
            strs(r@) == stream_ids(self@.streams),
    {
        let mut r: Vec<String> = Vec::new();
        let mut i: usize = 0;
        while i < self.streams.len()
            invariant
                i <= self@.streams.len(),
                strs(r@) == stream_ids(self@.streams).take(i as int),
            decreases self.streams.len() - i,
        {
            let k = self.streams[i].0.clone();
            assert(stream_ids(self@.streams)[i as int] == k@);
            let ghost before = strs(r@);
            r.push(k);
            assert(strs(r@) =~= before.push(k@));
            assert(stream_ids(self@.streams).take((i + 1) as int) =~= stream_ids(self@.streams).take(i as int).push(k@));
            i = i + 1;
        }
        assert(stream_ids(self@.streams).take(self@.streams.len() as int) =~= stream_ids(self@.streams));
        r
    }

    /// Stops tracking worker `worker_id`; returns where it ran, so that its
    /// host adapter can be cleaned up, or `None` when it was not tracked.
    pub fn forget_worker(&mut self, worker_id: &str) -> (r: Option<WorkerStreamHost>)
        ensures
            final(self)@.workspace == old(self)@.workspace,
            final(self)@.streams == stream_remove(old(self)@.streams, worker_id@),
            match r {
                Some(h) => stream_get(old(self)@.streams, worker_id@) matches Some(s) && s.host == h@,
                None => stream_get(old(self)@.streams, worker_id@) is None,
            },
    {
        proof {
            use_type_invariant(&*self);
        }
        let ghost m = self@.streams;
        let p = match self.lookup(worker_id) {
            Some(p) => p,
            None => {
                return None;
            },
        };
        let mut streams: Vec<(String, WorkerStream)> = Vec::new();
        std::mem::swap(&mut streams, &mut self.streams);
        assert(streams_view(streams@) == m);
        let (_, removed) = streams.remove(p);
        assert(streams_view(streams@) =~= m.remove(p as int));
        assert(stream_ids(streams_view(streams@)) =~= stream_ids(m).remove(p as int));
        assert(strictly_sorted(stream_ids(streams_view(streams@)))) by {
            let ks = stream_ids(m);
            let r2 = ks.remove(p as int);
            assert forall|i: int, j: int| 0 <= i < j < r2.len() implies key_lt(r2[i], r2[j]) by {
                if i < p && j < p {
                    assert(r2[i] == ks[i] && r2[j] == ks[j]);
                } else if i < p {
                    assert(r2[i] == ks[i] && r2[j] == ks[j + 1]);
                } else {
                    assert(r2[i] == ks[i + 1] && r2[j] == ks[j + 1]);
                }
            }
        }
        self.streams = streams;
        Some(removed.host)
    }

    /// The log file of worker `worker_id` and how many of its bytes were
    /// read, when the worker is tracked.
    pub fn read_position(&self, worker_id: &str) -> (r: Option<(String, u64)>)
        ensures
            match r {
                Some((path, offset)) => stream_get(self@.streams, worker_id@) matches Some(s)
                    && s.log_path == path@ && s.offset == offset,
                None => stream_get(self@.streams, worker_id@) is None,
            },
    {
        match self.lookup(worker_id) {
            Some(p) => Some((self.streams[p].1.log_path.clone(), self.streams[p].1.offset)),
            None => None,
        }
    }

    /// Takes in `text`, the `read` bytes newly read from the log of worker
    /// `worker_id`: the read position advances, the text joins the partial
    /// line, and every line it completes is mapped to an event. Nothing
    /// changes for a worker that is not tracked.
    pub fn ingest_output(&mut self, worker_id: &str, read: u64, text: &str) -> (r: Vec<WorkerEventPayload>)
        requires
            stream_get(old(self)@.streams, worker_id@) matches Some(s) ==> s.offset + read <= u64::MAX,
        ensures
            final(self)@.workspace == old(self)@.workspace,
            match stream_get(old(self)@.streams, worker_id@) {
                Some(s) => {
                    let (segs, rest) = drain_lines(s.pending + text@);
                    &&& final(self)@.streams == stream_put(
                        old(self)@.streams,
                        worker_id@,
                        StreamView { offset: s.offset + read as nat, pending: rest, ..s },
                    )
                    &&& r@.map_values(|e: WorkerEventPayload| e@) == events_of(segs)
                },
                None => final(self)@ == old(self)@ && r@.len() == 0,
            },
    {
        proof {
            use_type_invariant(&*self);
        }
        let ghost m = self@.streams;
        let p = match self.lookup(worker_id) {
            Some(p) => p,
            None => {
                return Vec::new();
            },
        };
        let ghost s = m[p as int].1;
        let mut buf = chars_of(self.streams[p].1.pending.as_str());
        push_all(&mut buf, chars_of(text).as_slice());
        let ghost full = buf@;
        assert(full == s.pending + text@);
        let n = buf.len();
        let mut events: Vec<WorkerEventPayload> = Vec::new();
        let mut start: usize = 0;
        let ghost mut segs: Seq<Seq<char>> = seq![];
        assert(full.skip(0) =~= full);
        loop
            invariant
                n == buf@.len(),
                full == buf@,
                start <= n,
                drain_lines(full) == ({
                    let rest = drain_lines(full.skip(start as int));
                    (segs + rest.0, rest.1)
                }),
                events@.map_values(|e: WorkerEventPayload| e@) == events_of(segs),
            ensures
                start <= n,
                drain_lines(full) == (segs, full.skip(start as int)),
                events@.map_values(|e: WorkerEventPayload| e@) == events_of(segs),
            decreases n - start,
        {
            let j = char_pos_from(buf.as_slice(), '\n', start);
            proof {
                lemma_char_pos_bounds(full.skip(start as int), '\n');
            }
            if j >= n {
                proof {
                    let t = full.skip(start as int);
                    assert(char_pos(t, '\n') >= t.len());
                    assert(drain_lines(t) == (Seq::<Seq<char>>::empty(), t));
                    assert(segs + Seq::<Seq<char>>::empty() =~= segs);
                }
                break;
            }
            proof {
                assert forall|k: int| start <= k < j implies full[k] != '\n' by {
                    assert(full.skip(start as int)[k - start] == full[k]);
                }
                assert(full[j as int] == full.skip(start as int)[j - start]);
                lemma_drain_lines_step(full, start as int, j as int);
            }
            let seg = slice_to_vec(buf.as_slice(), start, j + 1);
            let line = trim_end_exec(seg.as_slice());
            let ev = map_exec_stream_line(string_of(line.as_slice()).as_str());
            let ghost before = events@.map_values(|e: WorkerEventPayload| e@);
            proof {
                lemma_events_of_append(segs, seq![seg@]);
                assert(seq![seg@].drop_last() =~= Seq::<Seq<char>>::empty());
                assert(events_of(Seq::<Seq<char>>::empty()) =~= Seq::<WorkerEventView>::empty());
            }
            match ev {
                Some(e) => {
                    events.push(e);
                    assert(events@.map_values(|e: WorkerEventPayload| e@) =~= before.push(e@));
                },
                None => {},
            }
            proof {
                assert(events_of(segs + seq![seg@]) == events_of(segs) + events_of(seq![seg@]));
                assert(segs + seq![seg@] + drain_lines(full.skip(j + 1)).0 =~= segs + (seq![seg@]
                    + drain_lines(full.skip(j + 1)).0));
                segs = segs + seq![seg@];
            }
            start = j + 1;
        }
        let rest = slice_to_vec(buf.as_slice(), start, n);
        assert(rest@ =~= full.skip(start as int));
        let ghost sv = StreamView { offset: s.offset + read as nat, pending: rest@, ..s };
        let mut streams: Vec<(String, WorkerStream)> = Vec::new();
        std::mem::swap(&mut streams, &mut self.streams);
        assert(streams_view(streams@) == m);
        let (key, old_stream) = streams.remove(p);
        let stream = WorkerStream {
            log_path: old_stream.log_path,
            host: old_stream.host,
            offset: old_stream.offset + read,
            pending: string_of(rest.as_slice()),
            terminal: old_stream.terminal,
        };
        assert(stream@ == sv);
        streams.insert(p, (key, stream));
        assert(streams_view(streams@) =~= m.update(p as int, (worker_id@, sv)));
        assert(stream_ids(streams_view(streams@)) =~= stream_ids(m));
        self.streams = streams;
        events
    }

    /// Whether worker `worker_id` is tracked and its terminal event is still
    /// to come.
    pub fn awaits_exit(&self, worker_id: &str) -> (r: bool)
        ensures
            r == (stream_get(self@.streams, worker_id@) matches Some(s) && !s.terminal),
    {
        match self.lookup(worker_id) {
            Some(p) => !self.streams[p].1.terminal,
            None => false,
        }
    }

    /// Takes in the state that the host reported for worker `worker_id`:
    /// once the process has stopped, exited or failed, the terminal event is
    /// returned, exactly once; nothing is returned while it runs, while its
    /// state is unknown, or for a worker that is not tracked or already
    /// finished.
    pub fn record_exit(&mut self, worker_id: &str, state: WorkerHostState, exit_code: Option<i32>) -> (r: Option<
        FleetWorkerTerminalEvent,
    >)
        ensures
            final(self)@.workspace == old(self)@.workspace,
            match stream_get(old(self)@.streams, worker_id@) {
                Some(s) => if s.terminal || state == WorkerHostState::Running || state
                    == WorkerHostState::Unknown {
                    final(self)@ == old(self)@ && r is None
                } else {
                    &&& final(self)@.streams == stream_put(
                        old(self)@.streams,
                        worker_id@,
                        StreamView { terminal: true, ..s },
                    )
                    &&& r matches Some(t) && t.exit_code == exit_code && t.payload@ == exit_event_spec(
                        exit_code,
                        state == WorkerHostState::Stopped,
                    )
                },
                None => final(self)@ == old(self)@ && r is None,
            },
    {
        proof {
            use_type_invariant(&*self);
        }
        let ghost m = self@.streams;
        let p = match self.lookup(worker_id) {
            Some(p) => p,
            None => {
                return None;
            },
        };
        if self.streams[p].1.terminal {
            return None;
        }
        let stopped = match state {
            WorkerHostState::Running | WorkerHostState::Unknown => {
                return None;
            },
            WorkerHostState::Stopped => true,
            WorkerHostState::Exited | WorkerHostState::Failed => false,
        };
        let payload = classify_worker_exit(exit_code, stopped);
        let ghost s = m[p as int].1;
        let mut streams: Vec<(String, WorkerStream)> = Vec::new();
        std::mem::swap(&mut streams, &mut self.streams);
        assert(streams_view(streams@) == m);
        let (key, old_stream) = streams.remove(p);
        let stream = WorkerStream {
            log_path: old_stream.log_path,
            host: old_stream.host,
            offset: old_stream.offset,
            pending: old_stream.pending,
            terminal: true,
        };
        assert(stream@ == StreamView { terminal: true, ..s });
        streams.insert(p, (key, stream));
        assert(streams_view(streams@) =~= m.update(p as int, (worker_id@, StreamView { terminal: true, ..s })));
        assert(stream_ids(streams_view(streams@)) =~= stream_ids(m));
        self.streams = streams;
        Some(FleetWorkerTerminalEvent { payload, exit_code })
    }

    /// True once at least one worker is tracked and every tracked worker has
    /// produced its terminal event.
    pub fn all_terminal(&self) -> (r: bool)
        ensures
            r == (self@.streams.len() > 0 && forall|i: int|
                0 <= i < self@.streams.len() ==> #[trigger] self@.streams[i].1.terminal),
    {
        if self.streams.len() == 0 {
            return false;
        }
        let mut i: usize = 0;
        while i < self.streams.len()
            invariant
                i <= self@.streams.len(),
                forall|j: int| 0 <= j < i ==> #[trigger] self@.streams[j].1.terminal,
            decreases self.streams.len() - i,
        {
            if !self.streams[i].1.terminal {
                assert(!self@.streams[i as int].1.terminal);
                return false;
            }
            i = i + 1;
        }
        true
    }
}

/// A tracked worker is found where it stands in the table.
proof fn lemma_stream_get_at(m: Seq<(Seq<char>, StreamView)>, k: Seq<char>, i: int)
    requires
        strictly_sorted(stream_ids(m)),
        0 <= i < m.len(),
        m[i].0 == k,
    ensures
        stream_get(m, k) == Some(m[i].1),
{
    assert(stream_ids(m)[i] == k);
    lemma_sorted_key_pos(stream_ids(m), k, i);
}

/// A worker that stands nowhere in the table is not found.
proof fn lemma_stream_get_none(m: Seq<(Seq<char>, StreamView)>, k: Seq<char>)
    requires
        forall|i: int| 0 <= i < m.len() ==> (#[trigger] m[i]).0 != k,
    ensures
        stream_get(m, k) is None,
{
    let p = key_pos(stream_ids(m), k);
    lemma_key_pos_bounds_all(stream_ids(m), k);
    if p < m.len() {
        assert(m[p].0 != k);
    }
}

/// Forgetting a worker drops that worker alone: it is no longer tracked,
/// every other worker keeps its stream, and the ids listed by `worker_ids`
/// lose that id alone, the rest keeping their order; forgetting a worker
/// that is not tracked changes nothing.
pub proof fn law_forget_removes_only_that_worker(m: Seq<(Seq<char>, StreamView)>, id: Seq<char>)
    requires
        strictly_sorted(stream_ids(m)),
    ensures
        stream_get(stream_remove(m, id), id) is None,
        forall|k: Seq<char>| k != id ==> #[trigger] stream_get(stream_remove(m, id), k) == stream_get(m, k),
        stream_get(m, id) is None ==> stream_remove(m, id) == m,
        stream_get(m, id) is Some ==> exists|p: int|
            0 <= p < m.len() && m[p].0 == id && #[trigger] m.remove(p) == stream_remove(m, id),
        stream_get(m, id) is None ==> stream_ids(stream_remove(m, id)) == stream_ids(m),
        stream_get(m, id) is Some ==> exists|p: int|
            0 <= p < m.len() && stream_ids(m)[p] == id && #[trigger] stream_ids(m).remove(p) == stream_ids(
                stream_remove(m, id),
            ),
{
    let ks = stream_ids(m);
    let p = key_pos(ks, id);
    let r = stream_remove(m, id);
    lemma_key_pos_bounds_all(ks, id);
    if p < m.len() && m[p].0 == id {
        assert(r == m.remove(p));
        assert(stream_ids(r) =~= ks.remove(p));
        lemma_sorted_remove(ks, p);
        // the worker itself is gone
        assert forall|i: int| 0 <= i < r.len() implies (#[trigger] r[i]).0 != id by {
            if i < p {
                assert(r[i] == m[i]);
                assert(key_lt(ks[i], ks[p]));
                lemma_key_lt_irreflexive(id);
            } else {
                assert(r[i] == m[i + 1]);
                assert(key_lt(ks[p], ks[i + 1]));
                lemma_key_lt_irreflexive(id);
            }
        }
        lemma_stream_get_none(r, id);
        // every other worker is found as before
        assert forall|k: Seq<char>| k != id implies #[trigger] stream_get(r, k) == stream_get(m, k) by {
            if exists|i: int| 0 <= i < m.len() && m[i].0 == k {
                let i = choose|i: int| 0 <= i < m.len() && m[i].0 == k;
                lemma_stream_get_at(m, k, i);
                if i < p {
                    assert(r[i] == m[i]);
                    lemma_stream_get_at(r, k, i);
                } else {
                    assert(i != p);
                    assert(r[i - 1] == m[i]);
                    lemma_stream_get_at(r, k, i - 1);
                }
            } else {
                lemma_stream_get_none(m, k);
                assert forall|i: int| 0 <= i < r.len() implies (#[trigger] r[i]).0 != k by {
                    if i < p {
                        assert(r[i] == m[i]);
                    } else {
                        assert(r[i] == m[i + 1]);
                    }
                }
                lemma_stream_get_none(r, k);
            }
        }
        assert(m.remove(p) == stream_remove(m, id));
        assert(stream_ids(m)[p] == id);
        assert(stream_ids(m).remove(p) == stream_ids(stream_remove(m, id)));
    } else {
        assert(r == m);
    }
}

/// What `all_terminal` reports agrees with asking each worker in turn:
/// the fleet is done exactly when some worker is tracked and no tracked
/// worker still awaits its exit (see `awaits_exit`).
pub proof fn law_all_terminal_when_no_worker_awaits_exit(m: Seq<(Seq<char>, StreamView)>)
    requires
        strictly_sorted(stream_ids(m)),
    ensures
        (m.len() > 0 && forall|i: int| 0 <= i < m.len() ==> #[trigger] m[i].1.terminal) <==> (m.len() > 0
            && forall|id: Seq<char>| !(#[trigger] stream_get(m, id) matches Some(s) && !s.terminal)),
{
    if forall|i: int| 0 <= i < m.len() ==> #[trigger] m[i].1.terminal {
        assert forall|id: Seq<char>| !(#[trigger] stream_get(m, id) matches Some(s) && !s.terminal) by {
            let p = key_pos(stream_ids(m), id);
            lemma_key_pos_bounds_all(stream_ids(m), id);
            if p < m.len() && m[p].0 == id {
                assert(m[p].1.terminal);
            }
        }
    }
    if forall|id: Seq<char>| !(#[trigger] stream_get(m, id) matches Some(s) && !s.terminal) {
        assert forall|i: int| 0 <= i < m.len() implies #[trigger] m[i].1.terminal by {
            lemma_stream_get_at(m, m[i].0, i);
            assert(!(stream_get(m, m[i].0) matches Some(s) && !s.terminal));
        }
    }
}

/// Reporting a worker's exit marks that worker, and that worker alone, as
/// finished; the others keep their streams. Together with
/// [`law_all_terminal_when_no_worker_awaits_exit`], `all_terminal` holds
/// exactly when every tracked worker's exit has been reported.
pub proof fn law_reported_exit_marks_only_that_worker(m: Seq<(Seq<char>, StreamView)>, id: Seq<char>, s: StreamView)
    requires
        strictly_sorted(stream_ids(m)),
        stream_get(m, id) == Some(s),
    ensures
        stream_get(stream_put(m, id, StreamView { terminal: true, ..s }), id) == Some(
            StreamView { terminal: true, ..s },
        ),
        forall|k: Seq<char>|
            k != id ==> #[trigger] stream_get(stream_put(m, id, StreamView { terminal: true, ..s }), k)
                == stream_get(m, k),
        stream_ids(stream_put(m, id, StreamView { terminal: true, ..s })) == stream_ids(m),
{
    let ks = stream_ids(m);
    let p = key_pos(ks, id);
    lemma_key_pos_bounds_all(ks, id);
    let t = StreamView { terminal: true, ..s };
    let r = stream_put(m, id, t);
    assert(p < m.len() && m[p].0 == id);
    assert(r == m.update(p, (id, t)));
    assert(stream_ids(r) =~= ks);
    assert forall|k: Seq<char>| k != id implies #[trigger] stream_get(r, k) == stream_get(m, k) by {
        let q = key_pos(ks, k);
        lemma_key_pos_bounds_all(ks, k);
        assert(stream_ids(r) == ks);
        if q == p {
            assert(m[p].0 != k);
            assert(r[p].0 != k);
        } else if 0 <= q < m.len() {
            assert(r[q] == m[q]);
        }
    }
}

/// A new executor tracks no worker, so it is not done.
pub proof fn law_new_executor_is_not_done(m: Seq<(Seq<char>, StreamView)>)
    requires
        m.len() == 0,
    ensures
        !(m.len() > 0 && forall|i: int| 0 <= i < m.len() ==> #[trigger] m[i].1.terminal),
{
}

} // verus!
