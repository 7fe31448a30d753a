//! Fleet observability: per-agent task metrics on top of the agent topology,
//! the fleet status summary, and the topology drawn as a tree.
//!
//! The collector only reads what it is told: task starts and completions and
//! parent-child registrations. CPU figures are not kept here.
use crate::fleet::observability::{
    all_ids, children_spec, height, key_lt, key_lt_exec, key_pos, lemma_insert_sorted,
    lemma_key_pos_at, lemma_key_pos_bounds_all, roots_spec, strictly_sorted, AgentTopology,
    AgentTopologyView,
};
use crate::text::{chars_of, decimal, decimal_exec, push_all, string_of};
use vstd::prelude::*;

verus! {

/// Nanoseconds in a second.
pub const NANOS_PER_SEC: u32 = 1_000_000_000;

/// A span of time: whole seconds and the nanoseconds beyond them.
#[derive(Debug, Clone, Copy, PartialEq, Eq, Structural)]
pub struct TaskDuration {
    /// Whole seconds.
    pub secs: u64,
    /// Nanoseconds beyond the whole seconds.
    pub nanos: u32,
}

impl TaskDuration {
    /// The nanoseconds are below one second.
    pub open spec fn valid(self) -> bool {
        self.nanos < NANOS_PER_SEC
    }

    /// The whole span in nanoseconds.
    pub open spec fn total_nanos(self) -> nat {
        (self.secs as nat) * (NANOS_PER_SEC as nat) + (self.nanos as nat)
    }
}

/// The empty span.
pub open spec fn zero_duration() -> TaskDuration {
    TaskDuration { secs: 0, nanos: 0 }
}

/// The longest span there is.
pub open spec fn max_duration() -> TaskDuration {
    TaskDuration { secs: u64::MAX, nanos: (NANOS_PER_SEC - 1) as u32 }
}

/// The sum of two spans, or the longest span when the sum would not fit.
pub open spec fn saturating_sum(a: TaskDuration, b: TaskDuration) -> nat {
    if a.total_nanos() + b.total_nanos() <= max_duration().total_nanos() {
        a.total_nanos() + b.total_nanos()
    } else {
        max_duration().total_nanos()
    }
}

proof fn lemma_total_nanos_injective(a: TaskDuration, b: TaskDuration)
    requires
        a.valid(),
        b.valid(),
        a.total_nanos() == b.total_nanos(),
    ensures
        a == b,
{
    assert(a.secs == b.secs && a.nanos == b.nanos) by (nonlinear_arith)
        requires
            a.nanos < 1_000_000_000,
            b.nanos < 1_000_000_000,
            (a.secs as nat) * 1_000_000_000 + (a.nanos as nat) == (b.secs as nat) * 1_000_000_000 + (
            b.nanos as nat),
    ;
}

/// Adds two spans, saturating at the longest span (`Duration`'s
/// saturating addition).
pub fn duration_saturating_add(a: TaskDuration, b: TaskDuration) -> (r: TaskDuration)
    requires
        a.valid(),
        b.valid(),
    ensures
        r.valid(),
        r.total_nanos() == saturating_sum(a, b),
{
    let nanos_sum = a.nanos + b.nanos;
    let (carry, nanos): (u64, u32) = if nanos_sum >= NANOS_PER_SEC {
        (1, nanos_sum - NANOS_PER_SEC)
    } else {
        (0, nanos_sum)
    };
    let secs: Option<u64> = match a.secs.checked_add(b.secs) {
        Some(s) => s.checked_add(carry),
        None => None,
    };
    let ghost total = a.total_nanos() + b.total_nanos();
    assert(total == (a.secs as nat + b.secs as nat + carry as nat) * 1_000_000_000 + nanos as nat)
        by (nonlinear_arith)
        requires
            total == (a.secs as nat) * 1_000_000_000 + (a.nanos as nat) + (b.secs as nat)
                * 1_000_000_000 + (b.nanos as nat),
            a.nanos as nat + b.nanos as nat == carry as nat * 1_000_000_000 + nanos as nat,
    ;
    match secs {
        Some(s) => {
            assert(total <= max_duration().total_nanos()) by (nonlinear_arith)
                requires
                    total == (s as nat) * 1_000_000_000 + nanos as nat,
                    s <= u64::MAX,
                    nanos < 1_000_000_000,
                    max_duration().total_nanos() == (u64::MAX as nat) * 1_000_000_000 + 999_999_999,
            ;
            TaskDuration { secs: s, nanos }
        },
        None => {
            assert(total > max_duration().total_nanos()) by (nonlinear_arith)
                requires
                    total == (a.secs as nat + b.secs as nat + carry as nat) * 1_000_000_000
                        + nanos as nat,
                    a.secs as nat + b.secs as nat + carry as nat > u64::MAX,
                    max_duration().total_nanos() == (u64::MAX as nat) * 1_000_000_000 + 999_999_999,
            ;
            TaskDuration { secs: u64::MAX, nanos: NANOS_PER_SEC - 1 }
        },
    }
}

/// What dividing the span of `secs` seconds and `nanos` nanoseconds by `n`
/// with `Duration`'s division by `u32` gives, as seconds and nanoseconds.
pub uninterp spec fn duration_quotient(secs: u64, nanos: u32, n: u32) -> (u64, u32);

/// Divides a span by `n` with `Duration / u32` (`n` must not be 0, where
/// that panics); the result depends on the arguments alone, and its
/// nanoseconds are below one second as for every `Duration`.
#[verifier::external_body]
fn duration_div(d: TaskDuration, n: u32) -> (r: TaskDuration)
    requires
        n != 0,
        d.valid(),
    ensures
        (r.secs, r.nanos) == duration_quotient(d.secs, d.nanos, n),
        r.valid(),
{
    let q = std::time::Duration::new(d.secs, d.nanos) / n;
    TaskDuration { secs: q.as_secs(), nanos: q.subsec_nanos() }
}

#[verifier::external_type_specification]
#[verifier::external_body]
pub struct ExInstant(std::time::Instant);

/// Calls `Instant::now()`; nothing is known of the instant.
#[verifier::external_body]
fn instant_now() -> (r: std::time::Instant) {
    std::time::Instant::now()
}

/// Calls `Instant::elapsed`: the time since `start`, which depends on the
/// clock; like every `Duration`, its nanoseconds are below one second.
#[verifier::external_body]
fn elapsed_since(start: &std::time::Instant) -> (r: TaskDuration)
    ensures
        r.valid(),
{
    let d = start.elapsed();
    TaskDuration { secs: d.as_secs(), nanos: d.subsec_nanos() }
}

/// Task metrics of one agent.
#[derive(Debug, Clone, PartialEq, Eq)]
pub struct AgentMetrics {
    pub agent_id: String,
    pub tasks_completed: u64,
    pub tasks_failed: u64,
    /// Time spent in the agent's tasks.
    pub total_duration: TaskDuration,
    /// `total_duration` divided by the number of tasks.
    pub avg_duration: TaskDuration,
    /// Largest memory use reported, in MiB.
    pub peak_memory_mb: Option<u64>,
}

/// Model of an [`AgentMetrics`].
pub struct MetricsView {
    pub agent_id: Seq<char>,
    pub tasks_completed: u64,
    pub tasks_failed: u64,
    pub total_duration: TaskDuration,
    pub avg_duration: TaskDuration,
    pub peak_memory_mb: Option<u64>,
}

impl View for AgentMetrics {
    type V = MetricsView;

    open spec fn view(&self) -> MetricsView {
        MetricsView {
            agent_id: self.agent_id@,
            tasks_completed: self.tasks_completed,
            tasks_failed: self.tasks_failed,
            total_duration: self.total_duration,
            avg_duration: self.avg_duration,
            peak_memory_mb: self.peak_memory_mb,
        }
    }
}

impl AgentMetrics {
    fn clone_metrics(&self) -> (r: AgentMetrics)
        ensures
            r@ == self@,
    {
        AgentMetrics {
            agent_id: self.agent_id.clone(),
            tasks_completed: self.tasks_completed,
            tasks_failed: self.tasks_failed,
            total_duration: self.total_duration,
            avg_duration: self.avg_duration,
            peak_memory_mb: self.peak_memory_mb,
        }
    }
}

/// The metrics of an agent before its first recorded task.
pub open spec fn fresh_metrics(agent_id: Seq<char>) -> MetricsView {
    MetricsView {
        agent_id,
        tasks_completed: 0,
        tasks_failed: 0,
        total_duration: zero_duration(),
        avg_duration: zero_duration(),
        peak_memory_mb: None,
    }
}

/// Whether `m` holds spans with nanoseconds below one second.
pub open spec fn metrics_valid(m: MetricsView) -> bool {
    m.total_duration.valid() && m.avg_duration.valid()
}

/// The ids of a keyed table, in order.
pub open spec fn ids_of<V>(m: Seq<(Seq<char>, V)>) -> Seq<Seq<char>> {
    m.map_values(|e: (Seq<char>, V)| e.0)
}

/// The entry for `k` in the keyed table `m`, if any.
pub open spec fn entry_of<V>(m: Seq<(Seq<char>, V)>, k: Seq<char>) -> Option<V> {
    let p = key_pos(ids_of(m), k);
    if p < m.len() && m[p].0 == k {
        Some(m[p].1)
    } else {
        None
    }
}

/// `m` with `k` mapped to `v`, kept ordered by key.
pub open spec fn put_entry<V>(m: Seq<(Seq<char>, V)>, k: Seq<char>, v: V) -> Seq<(Seq<char>, V)> {
    let p = key_pos(ids_of(m), k);
    if p < m.len() && m[p].0 == k {
        m.update(p, (k, v))
    } else {
        m.insert(p, (k, v))
    }
}

/// `m` without `k`.
pub open spec fn remove_entry<V>(m: Seq<(Seq<char>, V)>, k: Seq<char>) -> Seq<(Seq<char>, V)> {
    let p = key_pos(ids_of(m), k);
    if p < m.len() && m[p].0 == k {
        m.remove(p)
    } else {
        m
    }
}

/// The metrics after one more task taking `d`: the success or failure is
/// counted, the time added (saturating), the average taken over all tasks,
/// and the memory peak raised to `memory_mb` when that is larger.
pub open spec fn completed_metrics(m: MetricsView, success: bool, d: TaskDuration, memory_mb: Option<u64>) -> MetricsView {
    let completed = if success {
        m.tasks_completed + 1
    } else {
        m.tasks_completed as int
    };
    let failed = if success {
        m.tasks_failed as int
    } else {
        m.tasks_failed + 1
    };
    let total = choose|t: TaskDuration| t.valid() && t.total_nanos() == saturating_sum(m.total_duration, d);
    let q = duration_quotient(total.secs, total.nanos, (completed + failed) as u32);
    MetricsView {
        agent_id: m.agent_id,
        tasks_completed: completed as u64,
        tasks_failed: failed as u64,
        total_duration: total,
        avg_duration: TaskDuration { secs: q.0, nanos: q.1 },
        peak_memory_mb: match memory_mb {
            Some(mem) => Some(
                match m.peak_memory_mb {
                    Some(p) => if p >= mem {
                        p
                    } else {
                        mem
                    },
                    None => mem,
                },
            ),
            None => m.peak_memory_mb,
        },
    }
}

/// Whether one more task for an agent with metrics `m` can be counted: the
/// counters stay within `u64`, and their sum, taken modulo 2^32 as the
/// average's divisor, is not 0.
pub open spec fn can_complete(m: MetricsView, success: bool) -> bool {
    let completed = m.tasks_completed + if success {
        1int
    } else {
        0
    };
    let failed = m.tasks_failed + if success {
        0int
    } else {
        1
    };
    completed <= u64::MAX && failed <= u64::MAX && completed + failed <= u64::MAX && (completed + failed)
        % 0x1_0000_0000 != 0
}

/// Collects topology and task metrics for the fleet.
#[derive(Debug)]
pub struct ObservabilityCollector {
    topology: AgentTopology,
    metrics: Vec<(String, AgentMetrics)>,
    start_times: Vec<(String, std::time::Instant)>,
}

/// Model of an [`ObservabilityCollector`].
pub struct CollectorView {
    /// The parent-child relationships.
    pub topology: AgentTopologyView,
    /// Per-agent metrics, ordered by agent id.
    pub metrics: Seq<(Seq<char>, MetricsView)>,
    /// The keys of the tasks started and not yet completed, in order.
    pub started: Seq<Seq<char>>,
}

spec fn metrics_table(v: Seq<(String, AgentMetrics)>) -> Seq<(Seq<char>, MetricsView)> {
    v.map_values(|e: (String, AgentMetrics)| (e.0@, e.1@))
}

spec fn start_keys(v: Seq<(String, std::time::Instant)>) -> Seq<Seq<char>> {
    v.map_values(|e: (String, std::time::Instant)| e.0@)
}

impl View for ObservabilityCollector {
    type V = CollectorView;

    closed spec fn view(&self) -> CollectorView {
        CollectorView {
            topology: self.topology@,
            metrics: metrics_table(self.metrics@),
            started: start_keys(self.start_times@),
        }
    }
}

/// `keys` with `k` added, kept strictly increasing.
pub open spec fn key_insert(keys: Seq<Seq<char>>, k: Seq<char>) -> Seq<Seq<char>> {
    let p = key_pos(keys, k);
    if p < keys.len() && keys[p] == k {
        keys
    } else {
        keys.insert(p, k)
    }
}

/// `keys` without `k`.
pub open spec fn key_remove(keys: Seq<Seq<char>>, k: Seq<char>) -> Seq<Seq<char>> {
    let p = key_pos(keys, k);
    if p < keys.len() && keys[p] == k {
        keys.remove(p)
    } else {
        keys
    }
}

fn str_eq(a: &String, b: &str) -> (r: bool)
    ensures
        r == (a@ == b@),
{
    *a == b.to_owned()
}

proof fn lemma_remove_sorted(keys: Seq<Seq<char>>, p: int)
    requires
        strictly_sorted(keys),
        0 <= p < keys.len(),
    ensures
        strictly_sorted(keys.remove(p)),
{
    let r = keys.remove(p);
    assert forall|i: int, j: int| 0 <= i < j < r.len() implies key_lt(r[i], r[j]) by {
        if i < p && j < p {
            assert(r[i] == keys[i] && r[j] == keys[j]);
        } else if i < p {
            assert(r[i] == keys[i] && r[j] == keys[j + 1]);
        } else {
            assert(r[i] == keys[i + 1] && r[j] == keys[j + 1]);
        }
    }
}

impl ObservabilityCollector {
    #[verifier::type_invariant]
    spec fn inv(self) -> bool {
        &&& strictly_sorted(ids_of(metrics_table(self.metrics@)))
        &&& strictly_sorted(start_keys(self.start_times@))
        &&& forall|i: int|
            0 <= i < self.metrics@.len() ==> metrics_valid(#[trigger] metrics_table(self.metrics@)[i].1)
    }

    /// A collector that knows nothing yet.
    pub fn new() -> (r: Self)
        ensures
            r@.topology.parent_of.len() == 0,
            r@.topology.children_of.len() == 0,
            r@.metrics.len() == 0,
            r@.started.len() == 0,
    {
        let r = ObservabilityCollector { topology: AgentTopology::new(), metrics: Vec::new(), start_times: Vec::new() };
        assert(ids_of(metrics_table(r.metrics@)) =~= Seq::<Seq<char>>::empty());
        assert(start_keys(r.start_times@) =~= Seq::<Seq<char>>::empty());
        r
    }

    /// The parent-child relationships recorded so far.
    pub fn topology(&self) -> (r: &AgentTopology)
        ensures
            r@ == self@.topology,
    {
        &self.topology
    }

    /// Records that `parent` spawned `child` (see [`AgentTopology::register`]).
    pub fn record_parent_child(&mut self, parent: String, child: String)
        ensures
            final(self)@.topology.parent_of == crate::fleet::observability::map_put(
                old(self)@.topology.parent_of,
                child@,
                parent@,
            ),
            final(self)@.topology.children_of == crate::fleet::observability::children_add(
                old(self)@.topology.children_of,
                parent@,
                child@,
            ),
            final(self)@.metrics == old(self)@.metrics,
            final(self)@.started == old(self)@.started,
    {
        proof {
            use_type_invariant(&*self);
        }
        let mut topology = AgentTopology::new();
        std::mem::swap(&mut topology, &mut self.topology);
        topology.register(parent, child);
        self.topology = topology;
    }

    fn find_start(&self, task_key: &str) -> (r: usize)
        ensures
            r == key_pos(self@.started, task_key@),
            r <= self@.started.len(),
    {
        let ghost ks = self@.started;
        let kc = chars_of(task_key);
        let n = self.start_times.len();
        let mut i: usize = 0;
        while i < n && key_lt_exec(chars_of(self.start_times[i].0.as_str()).as_slice(), kc.as_slice())
            invariant
                n == ks.len(),
                ks == self@.started,
                kc@ == task_key@,
                i <= n,
                forall|j: int| 0 <= j < i ==> key_lt(#[trigger] ks[j], task_key@),
            decreases n - i,
        {
            assert(ks[i as int] == self.start_times@[i as int].0@);
            i = i + 1;
        }
        proof {
            lemma_key_pos_at(ks, task_key@, i as int);
        }
        i
    }

    /// Records that task `task_key` starts now.
    pub fn record_task_start(&mut self, task_key: &str)
        ensures
            final(self)@.started == key_insert(old(self)@.started, task_key@),
            final(self)@.metrics == old(self)@.metrics,
            final(self)@.topology == old(self)@.topology,
    {
        proof {
            use_type_invariant(&*self);
        }
        let ghost ks = self@.started;
        let p = self.find_start(task_key);
        let now = instant_now();
        let mut starts: Vec<(String, std::time::Instant)> = Vec::new();
        std::mem::swap(&mut starts, &mut self.start_times);
        assert(start_keys(starts@) == ks);
        proof {
            lemma_key_pos_bounds_all(ks, task_key@);
        }
        if p < starts.len() && str_eq(&starts[p].0, task_key) {
            starts.set(p, (task_key.to_owned(), now));
            assert(start_keys(starts@) =~= ks);
        } else {
            starts.insert(p, (task_key.to_owned(), now));
            assert(start_keys(starts@) =~= ks.insert(p as int, task_key@));
            proof {
                lemma_insert_sorted(ks, task_key@, p as int);
            }
        }
        self.start_times = starts;
    }

    /// Removes the start of `task_key` and returns the time since it, or the
    /// empty span when the task's start was not recorded.
    fn take_elapsed(&mut self, task_key: &str) -> (r: TaskDuration)
        ensures
            final(self)@.started == key_remove(old(self)@.started, task_key@),
            final(self)@.metrics == old(self)@.metrics,
            final(self)@.topology == old(self)@.topology,
            r.valid(),
            !old(self)@.started.contains(task_key@) ==> r == zero_duration(),
    {
        proof {
            use_type_invariant(&*self);
        }
        let ghost ks = self@.started;
        let p = self.find_start(task_key);
        proof {
            lemma_key_pos_bounds_all(ks, task_key@);
        }
        if !(p < self.start_times.len() && str_eq(&self.start_times[p].0, task_key)) {
            proof {
                if ks.contains(task_key@) {
                    let i = choose|i: int| 0 <= i < ks.len() && ks[i] == task_key@;
                    if i < p {
                        crate::fleet::observability::lemma_key_lt_irreflexive(task_key@);
                    } else if p < ks.len() {
                        if i > p {
                            assert(key_lt(ks[p as int], ks[i]));
                            crate::fleet::observability::lemma_key_lt_total(ks[p as int], task_key@);
                        }
                    }
                }
            }
            return TaskDuration { secs: 0, nanos: 0 };
        }
        let mut starts: Vec<(String, std::time::Instant)> = Vec::new();
        std::mem::swap(&mut starts, &mut self.start_times);
        assert(start_keys(starts@) == ks);
        let (_, start) = starts.remove(p);
        assert(start_keys(starts@) =~= ks.remove(p as int));
        proof {
            lemma_remove_sorted(ks, p as int);
        }
        self.start_times = starts;
        elapsed_since(&start)
    }

    fn find_metrics(&self, agent_id: &str) -> (r: usize)
        ensures
            r == key_pos(ids_of(self@.metrics), agent_id@),
            r <= self@.metrics.len(),
    {
        let ghost ks = ids_of(self@.metrics);
        let kc = chars_of(agent_id);
        let n = self.metrics.len();
        let mut i: usize = 0;
        while i < n && key_lt_exec(chars_of(self.metrics[i].0.as_str()).as_slice(), kc.as_slice())
            invariant
                n == ks.len(),
                ks == ids_of(self@.metrics),
                kc@ == agent_id@,
                i <= n,
                forall|j: int| 0 <= j < i ==> key_lt(#[trigger] ks[j], agent_id@),
            decreases n - i,
        {
            assert(ks[i as int] == self.metrics@[i as int].0@);
            i = i + 1;
        }
        proof {
            lemma_key_pos_at(ks, agent_id@, i as int);
        }
        i
    }

    /// Records the end of task `task_key` of agent `agent_id`: its time since
    /// the recorded start (none when the start was not recorded) and its
    /// outcome go into the agent's metrics (see [`completed_metrics`]).
    pub fn record_task_completion(&mut self, agent_id: &str, task_key: &str, success: bool, memory_mb: Option<u64>)
        requires
            can_complete(
                match entry_of(old(self)@.metrics, agent_id@) {
                    Some(m) => m,
                    None => fresh_metrics(agent_id@),
                },
                success,
            ),
        ensures
            final(self)@.started == key_remove(old(self)@.started, task_key@),
            final(self)@.topology == old(self)@.topology,
            exists|d: TaskDuration|
                #![trigger d.valid()]
                d.valid() && (!old(self)@.started.contains(task_key@) ==> d == zero_duration())
                    && final(self)@.metrics == put_entry(
                    old(self)@.metrics,
                    agent_id@,
                    completed_metrics(
                        match entry_of(old(self)@.metrics, agent_id@) {
                            Some(m) => m,
                            None => fresh_metrics(agent_id@),
                        },
                        success,
                        d,
                        memory_mb,
                    ),
                ),
    {
        let d = self.take_elapsed(task_key);
        proof {
            use_type_invariant(&*self);
        }
        let ghost m = self@.metrics;
        assert(forall|i: int| 0 <= i < m.len() ==> metrics_valid(#[trigger] m[i].1));
        let p = self.find_metrics(agent_id);
        proof {
            lemma_key_pos_bounds_all(ids_of(m), agent_id@);
        }
        let present = p < self.metrics.len() && str_eq(&self.metrics[p].0, agent_id);
        let current = if present {
            self.metrics[p].1.clone_metrics()
        } else {
            AgentMetrics {
                agent_id: agent_id.to_owned(),
                tasks_completed: 0,
                tasks_failed: 0,
                total_duration: TaskDuration { secs: 0, nanos: 0 },
                avg_duration: TaskDuration { secs: 0, nanos: 0 },
                peak_memory_mb: None,
            }
        };
        let ghost cur = current@;
        assert(cur == match entry_of(m, agent_id@) {
            Some(e) => e,
            None => fresh_metrics(agent_id@),
        });
        assert(metrics_valid(cur)) by {
            if present {
                assert(metrics_valid(metrics_table(self.metrics@)[p as int].1));
            }
        }
        let completed = if success {
            current.tasks_completed + 1
        } else {
            current.tasks_completed
        };
        let failed = if success {
            current.tasks_failed
        } else {
            current.tasks_failed + 1
        };
        let total = duration_saturating_add(current.total_duration, d);
        let count = completed + failed;
        let divisor = (count % 0x1_0000_0000) as u32;
        let avg = duration_div(total, divisor);
        let peak = match memory_mb {
            Some(mem) => Some(
                match current.peak_memory_mb {
                    Some(p) => if p >= mem {
                        p
                    } else {
                        mem
                    },
                    None => mem,
                },
            ),
            None => current.peak_memory_mb,
        };
        let updated = AgentMetrics {
            agent_id: current.agent_id,
            tasks_completed: completed,
            tasks_failed: failed,
            total_duration: total,
            avg_duration: avg,
            peak_memory_mb: peak,
        };
        proof {
            let t = choose|t: TaskDuration| t.valid() && t.total_nanos() == saturating_sum(cur.total_duration, d);
            assert(total.valid() && total.total_nanos() == saturating_sum(cur.total_duration, d));
            lemma_total_nanos_injective(t, total);
            assert((count as u32) == ((count % 0x1_0000_0000) as u32)) by (bit_vector);
            assert((count as u32) == divisor);
            assert(updated@ == completed_metrics(cur, success, d, memory_mb));
        }
        let mut table: Vec<(String, AgentMetrics)> = Vec::new();
        std::mem::swap(&mut table, &mut self.metrics);
        assert(metrics_table(table@) == m);
        let ghost uv = updated@;
        if present {
            table.set(p, (agent_id.to_owned(), updated));
            assert(metrics_table(table@) =~= m.update(p as int, (agent_id@, uv)));
            assert(ids_of(metrics_table(table@)) =~= ids_of(m));
        } else {
            table.insert(p, (agent_id.to_owned(), updated));
            assert(metrics_table(table@) =~= m.insert(p as int, (agent_id@, uv)));
            assert(ids_of(metrics_table(table@)) =~= ids_of(m).insert(p as int, agent_id@));
            proof {
                lemma_insert_sorted(ids_of(m), agent_id@, p as int);
            }
        }
        assert forall|i: int| 0 <= i < table@.len() implies metrics_valid(#[trigger] metrics_table(table@)[i].1) by {
            if i != p {
                if !present && i > p {
                    assert(metrics_table(table@)[i] == m[i - 1]);
                    assert(metrics_valid(m[i - 1].1));
                } else {
                    assert(metrics_table(table@)[i] == m[i]);
                    assert(metrics_valid(m[i].1));
                }
            }
        }
        self.metrics = table;
        assert(d.valid());
    }
}


/// Fleet-wide figures.
#[derive(Debug, Clone)]
pub struct FleetStatusSummary {
    /// Distinct agents in the topology and the metrics.
    pub total_agents: usize,
    /// Agents with metrics but no finished task.
    pub running_agents: usize,
    /// Agents whose finished tasks all succeeded.
    pub completed_agents: usize,
    /// Agents with at least one failed task.
    pub failed_agents: usize,
    /// The height of the deepest root's tree.
    pub topology_depth: usize,
    pub total_tasks: u64,
    pub completed_tasks: u64,
    pub failed_tasks: u64,
    /// Time spent in all tasks.
    pub total_duration: TaskDuration,
    /// Every agent's metrics, by agent id.
    pub agents: Vec<AgentMetrics>,
}

/// The metrics of a keyed table, in order.
pub open spec fn metric_values(m: Seq<(Seq<char>, MetricsView)>) -> Seq<MetricsView> {
    m.map_values(|e: (Seq<char>, MetricsView)| e.1)
}

/// Counts of agents that are running, completed and failed.
pub open spec fn agent_counts(ms: Seq<MetricsView>) -> (nat, nat, nat)
    decreases ms.len(),
{
    if ms.len() == 0 {
        (0, 0, 0)
    } else {
        let (r, c, f) = agent_counts(ms.drop_last());
        let m = ms.last();
        (
            r + if m.tasks_completed + m.tasks_failed == 0 {
                1nat
            } else {
                0nat
            },
            c + if m.tasks_failed == 0 && m.tasks_completed > 0 {
                1nat
            } else {
                0nat
            },
            f + if m.tasks_failed > 0 {
                1nat
            } else {
                0nat
            },
        )
    }
}

/// Sums of completed tasks, failed tasks and time, over all agents.
pub open spec fn task_sums(ms: Seq<MetricsView>) -> (nat, nat, nat)
    decreases ms.len(),
{
    if ms.len() == 0 {
        (0, 0, 0)
    } else {
        let (c, f, t) = task_sums(ms.drop_last());
        let m = ms.last();
        (c + m.tasks_completed as nat, f + m.tasks_failed as nat, t + m.total_duration.total_nanos())
    }
}

/// The largest tree height among `roots`, 0 when there is none.
pub open spec fn max_root_height(m: Seq<(Seq<char>, Seq<Seq<char>>)>, roots: Seq<Seq<char>>, fuel: nat) -> nat
    decreases roots.len(),
{
    if roots.len() == 0 {
        0
    } else {
        let rest = max_root_height(m, roots.drop_last(), fuel);
        let h = match height(m, roots.last(), fuel) {
            Some(h) => h,
            None => 0,
        };
        if h >= rest {
            h
        } else {
            rest
        }
    }
}

/// The relationships below every root form no cycle.
pub open spec fn roots_acyclic(t: AgentTopologyView) -> bool {
    forall|i: int|
        0 <= i < roots_spec(t).len() ==> (#[trigger] height(t.children_of, roots_spec(t)[i], t.children_of.len()))
            is Some
}

/// Whether the sums the summary reports fit their types.
pub open spec fn summary_fits(c: CollectorView) -> bool {
    let (done, failed, nanos) = task_sums(metric_values(c.metrics));
    done + failed <= u64::MAX && nanos <= max_duration().total_nanos()
}

proof fn lemma_task_sums_monotone(ms: Seq<MetricsView>, i: int)
    requires
        0 <= i <= ms.len(),
    ensures
        task_sums(ms.take(i)).0 <= task_sums(ms).0,
        task_sums(ms.take(i)).1 <= task_sums(ms).1,
        task_sums(ms.take(i)).2 <= task_sums(ms).2,
    decreases ms.len() - i,
{
    if i < ms.len() {
        lemma_task_sums_monotone(ms, i + 1);
        assert(ms.take(i + 1).drop_last() =~= ms.take(i));
    } else {
        assert(ms.take(i) =~= ms);
    }
}

fn insert_distinct(uniq: &mut Vec<String>, id: &String)
    requires
        crate::fleet::observability::names_view(old(uniq)@).no_duplicates(),
    ensures
        crate::fleet::observability::names_view(final(uniq)@).no_duplicates(),
        crate::fleet::observability::names_view(final(uniq)@).to_set() == crate::fleet::observability::names_view(
            old(uniq)@,
        ).to_set().insert(id@),
{
    let mut seen = uniq.clone();
    proof {
        assert(crate::fleet::observability::names_view(seen@) =~= crate::fleet::observability::names_view(uniq@)) by {
            assert forall|i: int| 0 <= i < seen@.len() implies seen@[i]@ == uniq@[i]@ by {
                assert(cloned::<String>(uniq@[i], seen@[i]));
            }
        }
    }
    crate::fleet::observability::add_unique(uniq, &mut seen, id);
    proof {
        crate::fleet::observability::names_view(old(uniq)@).lemma_push_to_set_commute(id@);
    }
}

impl ObservabilityCollector {
    fn lookup_metrics(&self, agent_id: &str) -> (r: Option<&AgentMetrics>)
        ensures
            match r {
                Some(m) => entry_of(self@.metrics, agent_id@) == Some(m@),
                None => entry_of(self@.metrics, agent_id@) is None,
            },
    {
        let p = self.find_metrics(agent_id);
        if p < self.metrics.len() && str_eq(&self.metrics[p].0, agent_id) {
            Some(&self.metrics[p].1)
        } else {
            None
        }
    }

    /// The fleet status summary: per-agent figures, task and time totals, the
    /// deepest root's height and the number of distinct agents. The tree
    /// below every root must be free of cycles, and the totals must fit.
    /// Whether the tree below every root can be measured (the recorded
    /// relationships below the roots form no cycle): what `summary` and
    /// `format_topology` need.
    pub fn topology_is_acyclic(&self) -> (r: bool)
        ensures
            r == roots_acyclic(self@.topology),
    {
        let roots = self.topology.roots();
        let ghost rv = roots_spec(self@.topology);
        assert(roots@.map_values(|s: &String| s@) == rv);
        let n = roots.len();
        let mut i: usize = 0;
        while i < n
            invariant
                n == roots@.len(),
                roots@.map_values(|s: &String| s@) == rv,
                rv == roots_spec(self@.topology),
                i <= n,
                forall|j: int|
                    0 <= j < i ==> (#[trigger] height(
                        self@.topology.children_of,
                        rv[j],
                        self@.topology.children_of.len(),
                    )) is Some,
            decreases n - i,
        {
            assert(rv[i as int] == roots@[i as int]@);
            if !self.topology.has_finite_depth(roots[i].as_str()) {
                return false;
            }
            i = i + 1;
        }
        true
    }

    pub fn summary(&self) -> (r: FleetStatusSummary)
        requires
            roots_acyclic(self@.topology),
            summary_fits(self@),
        ensures
            r.agents@.map_values(|a: AgentMetrics| a@) == metric_values(self@.metrics),
            (r.running_agents as nat, r.completed_agents as nat, r.failed_agents as nat) == agent_counts(
                metric_values(self@.metrics),
            ),
            r.completed_tasks == task_sums(metric_values(self@.metrics)).0,
            r.failed_tasks == task_sums(metric_values(self@.metrics)).1,
            r.total_tasks == task_sums(metric_values(self@.metrics)).0 + task_sums(
                metric_values(self@.metrics),
            ).1,
            r.total_duration.valid(),
            r.total_duration.total_nanos() == task_sums(metric_values(self@.metrics)).2,
            r.topology_depth == max_root_height(
                self@.topology.children_of,
                roots_spec(self@.topology),
                self@.topology.children_of.len(),
            ),
            r.total_agents == (all_ids(self@.topology) + ids_of(self@.metrics)).to_set().len(),
    {
        proof {
            use_type_invariant(self);
        }
        let ghost ms = metric_values(self@.metrics);
        let n = self.metrics.len();
        let mut agents: Vec<AgentMetrics> = Vec::new();
        let mut running: usize = 0;
        let mut completed: usize = 0;
        let mut failed: usize = 0;
        let mut done_tasks: u64 = 0;
        let mut failed_tasks: u64 = 0;
        let mut total = TaskDuration { secs: 0, nanos: 0 };
        let mut i: usize = 0;
        while i < n
            invariant
                n == ms.len(),
                ms == metric_values(self@.metrics),
                self@.metrics.len() == n,
                i <= n,
                agents@.map_values(|a: AgentMetrics| a@) == ms.take(i as int),
                (running as nat, completed as nat, failed as nat) == agent_counts(ms.take(i as int)),
                running <= i && completed <= i && failed <= i,
                (done_tasks as nat, failed_tasks as nat, total.total_nanos()) == task_sums(ms.take(i as int)),
                total.valid(),
                summary_fits(self@),
                forall|j: int| 0 <= j < n ==> metrics_valid(#[trigger] ms[j]),
            decreases n - i,
        {
            let m = &self.metrics[i].1;
            assert(ms[i as int] == m@);
            proof {
                assert(ms.take((i + 1) as int).drop_last() =~= ms.take(i as int));
                lemma_task_sums_monotone(ms, (i + 1) as int);
                assert(metrics_valid(ms[i as int]));
            }
            if m.tasks_completed as u128 + m.tasks_failed as u128 == 0 {
                running = running + 1;
            }
            if m.tasks_failed == 0 && m.tasks_completed > 0 {
                completed = completed + 1;
            }
            if m.tasks_failed > 0 {
                failed = failed + 1;
            }
            done_tasks = done_tasks + m.tasks_completed;
            failed_tasks = failed_tasks + m.tasks_failed;
            total = duration_saturating_add(total, m.total_duration);
            let ghost before = agents@.map_values(|a: AgentMetrics| a@);
            agents.push(m.clone_metrics());
            assert(agents@.map_values(|a: AgentMetrics| a@) =~= before.push(m@));
            assert(ms.take((i + 1) as int) =~= ms.take(i as int).push(m@));
            i = i + 1;
        }
        assert(ms.take(n as int) =~= ms);
        let roots = self.topology.roots();
        let ghost rv = roots_spec(self@.topology);
        let ghost cm = self@.topology.children_of;
        let mut depth: usize = 0;
        let mut k: usize = 0;
        while k < roots.len()
            invariant
                roots@.map_values(|s: &String| s@) == rv,
                rv == roots_spec(self@.topology),
                cm == self@.topology.children_of,
                roots_acyclic(self@.topology),
                k <= roots@.len(),
                depth == max_root_height(cm, rv.take(k as int), cm.len()),
            decreases roots.len() - k,
        {
            assert(rv[k as int] == roots@[k as int]@);
            assert(height(cm, rv[k as int], cm.len()) is Some);
            let h = self.topology.depth(roots[k].as_str());
            assert(rv.take((k + 1) as int).drop_last() =~= rv.take(k as int));
            if h > depth {
                depth = h;
            }
            k = k + 1;
        }
        assert(rv.take(roots@.len() as int) =~= rv);
        let mut uniq = self.topology.distinct_ids();
        let ghost tid = all_ids(self@.topology);
        let ghost mid = ids_of(self@.metrics);
        let mut j: usize = 0;
        while j < n
            invariant
                n == self@.metrics.len(),
                mid == ids_of(self@.metrics),
                j <= n,
                crate::fleet::observability::names_view(uniq@).no_duplicates(),
                crate::fleet::observability::names_view(uniq@).to_set() == (tid + mid.take(j as int)).to_set(),
            decreases n - j,
        {
            assert(mid[j as int] == self.metrics@[j as int].0@);
            insert_distinct(&mut uniq, &self.metrics[j].0);
            proof {
                assert(tid + mid.take((j + 1) as int) =~= (tid + mid.take(j as int)).push(mid[j as int]));
                (tid + mid.take(j as int)).lemma_push_to_set_commute(mid[j as int]);
            }
            j = j + 1;
        }
        assert(mid.take(n as int) =~= mid);
        proof {
            crate::fleet::observability::names_view(uniq@).unique_seq_to_set();
        }
        FleetStatusSummary {
            total_agents: uniq.len(),
            running_agents: running,
            completed_agents: completed,
            failed_agents: failed,
            topology_depth: depth,
            total_tasks: done_tasks + failed_tasks,
            completed_tasks: done_tasks,
            failed_tasks,
            total_duration: total,
            agents,
        }
    }
}


/// The status mark of an agent: `✗` after a failure, `✓` after a success,
/// `○` otherwise.
pub open spec fn status_mark(m: Option<MetricsView>) -> Seq<char> {
    match m {
        Some(x) => if x.tasks_failed > 0 {
            "✗"@
        } else if x.tasks_completed > 0 {
            "✓"@
        } else {
            "○"@
        },
        None => "○"@,
    }
}

/// ` [<completed>ok/<failed>fail]` for an agent with metrics, nothing
/// otherwise.
pub open spec fn detail_text(m: Option<MetricsView>) -> Seq<char> {
    match m {
        Some(x) => " ["@ + decimal(x.tasks_completed as nat) + "ok/"@ + decimal(x.tasks_failed as nat) + "fail]"@,
        None => seq![],
    }
}

/// An agent's own line after its prefix: mark, space, id, detail.
pub open spec fn node_text(c: CollectorView, id: Seq<char>) -> Seq<char> {
    status_mark(entry_of(c.metrics, id)) + " "@ + id + detail_text(entry_of(c.metrics, id))
}

/// The connector before the `i`-th of `n` children.
pub open spec fn connector(i: int, n: int) -> Seq<char> {
    if i == n - 1 {
        "└─"@
    } else {
        "├─"@
    }
}

/// What the `i`-th of `n` children adds to its descendants' prefix.
pub open spec fn extension(i: int, n: int) -> Seq<char> {
    if i == n - 1 {
        "  "@
    } else {
        "│ "@
    }
}

/// The lines of the tree below `id`: its own line after `lead`, then the
/// trees of its children, whose lines start with `base`.
pub open spec fn subtree_lines(c: CollectorView, id: Seq<char>, lead: Seq<char>, base: Seq<char>, fuel: nat) -> Seq<
    Seq<char>,
>
    decreases fuel, 0nat, 0nat,
{
    let kids = children_spec(c.topology.children_of, id);
    seq![lead + node_text(c, id)] + if fuel == 0 {
        seq![]
    } else {
        child_lines(c, kids, kids.len(), base, (fuel - 1) as nat)
    }
}

/// The lines of the trees of the first `k` of `kids`.
pub open spec fn child_lines(c: CollectorView, kids: Seq<Seq<char>>, k: nat, base: Seq<char>, fuel: nat) -> Seq<
    Seq<char>,
>
    decreases fuel, 1nat, k,
{
    if k == 0 || k > kids.len() {
        seq![]
    } else {
        let i = k - 1;
        child_lines(c, kids, (k - 1) as nat, base, fuel) + subtree_lines(
            c,
            kids[i],
            base + connector(i, kids.len() as int),
            base + extension(i, kids.len() as int),
            fuel,
        )
    }
}

/// The lines of the trees of the first `k` roots.
pub open spec fn forest_lines(c: CollectorView, roots: Seq<Seq<char>>, k: nat) -> Seq<Seq<char>>
    decreases k,
{
    if k == 0 || k > roots.len() {
        seq![]
    } else {
        forest_lines(c, roots, (k - 1) as nat) + subtree_lines(
            c,
            roots[k - 1],
            seq![],
            seq![],
            c.topology.children_of.len(),
        )
    }
}

/// The topology drawn as a tree: each root's tree in root order, one line
/// per agent, lines joined by newlines.
pub open spec fn format_topology_spec(c: CollectorView) -> Seq<char> {
    let roots = roots_spec(c.topology);
    crate::text::join(forest_lines(c, roots, roots.len()), "\n"@)
}

fn append(out: &mut Vec<char>, s: &str)
    ensures
        final(out)@ == old(out)@ + s@,
{
    push_all(out, chars_of(s).as_slice());
}

impl ObservabilityCollector {
    fn node_line(&self, agent_id: &str, lead: &Vec<char>) -> (r: Vec<char>)
        ensures
            r@ == lead@ + node_text(self@, agent_id@),
    {
        let metrics = self.lookup_metrics(agent_id);
        let mut out: Vec<char> = lead.clone();
        assert(out@ =~= lead@);
        match metrics {
            Some(m) => {
                if m.tasks_failed > 0 {
                    append(&mut out, "✗");
                } else if m.tasks_completed > 0 {
                    append(&mut out, "✓");
                } else {
                    append(&mut out, "○");
                }
            },
            None => append(&mut out, "○"),
        }
        append(&mut out, " ");
        append(&mut out, agent_id);
        match metrics {
            Some(m) => {
                append(&mut out, " [");
                push_all(&mut out, decimal_exec(m.tasks_completed).as_slice());
                append(&mut out, "ok/");
                push_all(&mut out, decimal_exec(m.tasks_failed).as_slice());
                append(&mut out, "fail]");
            },
            None => {},
        }
        assert(out@ =~= lead@ + node_text(self@, agent_id@));
        out
    }

    fn format_subtree(&self, agent_id: &str, lead: &Vec<char>, base: &Vec<char>, fuel: usize, lines: &mut Vec<Vec<char>>)
        requires
            height(self@.topology.children_of, agent_id@, fuel as nat) is Some,
        ensures
            crate::text::views(final(lines)@) == crate::text::views(old(lines)@) + subtree_lines(
                self@,
                agent_id@,
                lead@,
                base@,
                fuel as nat,
            ),
        decreases fuel,
    {
        let ghost start = crate::text::views(lines@);
        lines.push(self.node_line(agent_id, lead));
        assert(crate::text::views(lines@) =~= start.push(lead@ + node_text(self@, agent_id@)));
        let kids = self.topology.children(agent_id);
        let ghost kv = children_spec(self@.topology.children_of, agent_id@);
        let n = kids.len();
        if n == 0 {
            assert(child_lines(self@, kv, kv.len(), base@, (fuel - 1) as nat) =~= Seq::<Seq<char>>::empty());
            assert(crate::text::views(lines@) =~= start + subtree_lines(self@, agent_id@, lead@, base@, fuel as nat));
            return;
        }
        let f = fuel - 1;
        let ghost m = self@.topology.children_of;
        proof {
            crate::fleet::observability::lemma_max_height_all(m, kv, f as nat);
        }
        let ghost mid = crate::text::views(lines@);
        let mut i: usize = 0;
        while i < n
            invariant
                n == kids@.len(),
                kids@.map_values(|s: &String| s@) == kv,
                kv == children_spec(m, agent_id@),
                m == self@.topology.children_of,
                i <= n,
                f < fuel,
                forall|t: int| 0 <= t < kv.len() ==> (#[trigger] height(m, kv[t], f as nat)) is Some,
                crate::text::views(lines@) == mid + child_lines(self@, kv, i as nat, base@, f as nat),
            decreases n - i,
        {
            let last = i == n - 1;
            let mut lead2 = base.clone();
            let mut base2 = base.clone();
            assert(lead2@ =~= base@ && base2@ =~= base@);
            if last {
                append(&mut lead2, "└─");
                append(&mut base2, "  ");
            } else {
                append(&mut lead2, "├─");
                append(&mut base2, "│ ");
            }
            assert(kv[i as int] == kids@[i as int]@);
            assert(height(m, kv[i as int], f as nat) is Some);
            self.format_subtree(kids[i].as_str(), &lead2, &base2, f, lines);
            assert(mid + child_lines(self@, kv, (i + 1) as nat, base@, f as nat) =~= mid + child_lines(
                self@,
                kv,
                i as nat,
                base@,
                f as nat,
            ) + subtree_lines(self@, kv[i as int], lead2@, base2@, f as nat));
            i = i + 1;
        }
        assert(crate::text::views(lines@) =~= start + subtree_lines(self@, agent_id@, lead@, base@, fuel as nat));
    }

    /// The topology as an ASCII tree (see [`format_topology_spec`]); the
    /// tree below every root must be free of cycles.
    pub fn format_topology(&self) -> (r: String)
        requires
            roots_acyclic(self@.topology),
        ensures
            r@ == format_topology_spec(self@),
    {
        let roots = self.topology.roots();
        let ghost rv = roots_spec(self@.topology);
        let fuel = self.topology.children_count();
        let mut lines: Vec<Vec<char>> = Vec::new();
        let empty: Vec<char> = Vec::new();
        let mut k: usize = 0;
        assert(crate::text::views(lines@) =~= Seq::<Seq<char>>::empty());
        while k < roots.len()
            invariant
                roots@.map_values(|s: &String| s@) == rv,
                rv == roots_spec(self@.topology),
                roots_acyclic(self@.topology),
                fuel == self@.topology.children_of.len(),
                empty@ == Seq::<char>::empty(),
                k <= roots@.len(),
                crate::text::views(lines@) == forest_lines(self@, rv, k as nat),
            decreases roots.len() - k,
        {
            assert(rv[k as int] == roots@[k as int]@);
            assert(height(self@.topology.children_of, rv[k as int], fuel as nat) is Some);
            self.format_subtree(roots[k].as_str(), &empty, &empty, fuel, &mut lines);
            k = k + 1;
        }
        let joined = crate::text::join_exec(&lines, chars_of("\n").as_slice());
        string_of(joined.as_slice())
    }
}

impl Default for ObservabilityCollector {
    fn default() -> (r: Self)
        ensures
            r@.topology.parent_of.len() == 0,
            r@.topology.children_of.len() == 0,
            r@.metrics.len() == 0,
            r@.started.len() == 0,
    {
        ObservabilityCollector::new()
    }
}

} // verus!
