//! In-turn loop, repetition and stall detection.
//!
//! The guard observes every executed tool call and looks for: the same call
//! repeated, two calls alternating, calls that change nothing, a single output
//! repeating one line, and consecutive outputs that are near-duplicates.
//! Detection never ends a turn: it returns advisory text for the model, at
//! most a configured number of times per pattern. A periodic reminder to
//! distil the work into a memory or a skill can be switched on as well.
use crate::text::{decimal, decimal_exec, push_all, string_of, chars_of, lines, slice_to_vec, split_lines, split_words, trim, trimmed, views, words};
use crate::call_fingerprint::{digest_text, enc_text, text_hash};
use vstd::prelude::*;

verus! {

/// Leading tool calls of a turn that are recorded but never trip a detector.
pub const DEFAULT_WARMUP_CALLS: usize = 3;

/// Identical consecutive calls that make a repeat loop.
pub const DEFAULT_REPEAT_THRESHOLD: usize = 3;

/// Full A→B cycles that make an alternating loop.
pub const DEFAULT_ALTERNATION_CYCLES: usize = 2;

/// Consecutive calls without progress that make a stall.
pub const DEFAULT_NO_PROGRESS_THRESHOLD: usize = 4;

/// Times one pattern may fire within a turn.
pub const DEFAULT_MAX_NUDGES_PER_PATTERN: usize = 2;

/// Identical lines within one output that make a streaming repetition.
pub const DEFAULT_INTRA_REPEAT_LINES: usize = 3;

/// Token overlap, in percent, between two distinct consecutive outputs that
/// makes a semantic echo.
pub const DEFAULT_SEMANTIC_ECHO_SIMILARITY_PERCENT: u32 = 80;

/// Recent call fingerprints kept for alternation analysis.
pub const HISTORY_CAPACITY: usize = 16;

/// Longest tool name quoted in a nudge, in characters.
pub const MAX_QUOTED_NAME_CHARS: usize = 48;

/// Tunable thresholds.
#[derive(Debug, Clone, Copy, PartialEq, Eq, Structural)]
pub struct LoopGuardConfig {
    /// Leading calls exempt from detection.
    pub warmup_calls: usize,
    /// Identical consecutive calls that trip `RepeatedCall` (0 disables).
    pub repeat_threshold: usize,
    /// Full A→B cycles that trip `Alternating` (0 disables).
    pub alternation_cycles: usize,
    /// Consecutive stalled calls that trip `NoProgress` (0 disables).
    pub no_progress_threshold: usize,
    /// Per-pattern nudge cap for a turn.
    pub max_nudges_per_pattern: usize,
    /// Identical lines in one output that trip `StreamingRepetition` (0
    /// disables).
    pub intra_repeat_lines: usize,
    /// Token overlap in percent between distinct consecutive outputs that
    /// trips `SemanticEcho` (0 disables).
    pub semantic_echo_similarity_percent: u32,
    /// Master switch; when off nothing is observed and nothing fires.
    pub enabled: bool,
    /// Cadence of the periodic memory/skill reminder, in observed calls (0
    /// disables it).
    pub nudge_every_n: u64,
    /// Separate opt-in for the periodic reminder.
    pub memory_skill_nudge: bool,
}

/// The default thresholds: detection off, warm-up of three calls, repeat at
/// three, two alternation cycles, stall at four, two nudges per pattern,
/// three repeated lines, 80% echo similarity, a reminder cadence of twenty
/// with the reminder off.
pub open spec fn default_config() -> LoopGuardConfig {
    LoopGuardConfig {
        warmup_calls: DEFAULT_WARMUP_CALLS,
        repeat_threshold: DEFAULT_REPEAT_THRESHOLD,
        alternation_cycles: DEFAULT_ALTERNATION_CYCLES,
        no_progress_threshold: DEFAULT_NO_PROGRESS_THRESHOLD,
        max_nudges_per_pattern: DEFAULT_MAX_NUDGES_PER_PATTERN,
        intra_repeat_lines: DEFAULT_INTRA_REPEAT_LINES,
        semantic_echo_similarity_percent: DEFAULT_SEMANTIC_ECHO_SIMILARITY_PERCENT,
        enabled: false,
        nudge_every_n: 20,
        memory_skill_nudge: false,
    }
}

impl Default for LoopGuardConfig {
    fn default() -> (r: Self)
        ensures
            r == default_config(),
    {
        LoopGuardConfig {
            warmup_calls: DEFAULT_WARMUP_CALLS,
            repeat_threshold: DEFAULT_REPEAT_THRESHOLD,
            alternation_cycles: DEFAULT_ALTERNATION_CYCLES,
            no_progress_threshold: DEFAULT_NO_PROGRESS_THRESHOLD,
            max_nudges_per_pattern: DEFAULT_MAX_NUDGES_PER_PATTERN,
            intra_repeat_lines: DEFAULT_INTRA_REPEAT_LINES,
            semantic_echo_similarity_percent: DEFAULT_SEMANTIC_ECHO_SIMILARITY_PERCENT,
            enabled: false,
            nudge_every_n: 20,
            memory_skill_nudge: false,
        }
    }
}

/// Which periodic reminder comes next.
#[derive(Debug, Clone, Copy, PartialEq, Eq, Structural)]
pub enum MemorySkillNudge {
    /// Suggest capturing a durable memory.
    Memory,
    /// Suggest capturing a reusable skill.
    Skill,
}

impl MemorySkillNudge {
    /// Stable identifier.
    pub fn as_str(self) -> (r: &'static str)
        ensures
            r@ == match self {
                MemorySkillNudge::Memory => "memory"@,
                MemorySkillNudge::Skill => "skill"@,
            },
    {
        match self {
            MemorySkillNudge::Memory => "memory",
            MemorySkillNudge::Skill => "skill",
        }
    }
}

/// Which pathology a [`LoopBreak`] describes.
#[derive(Debug, Clone, Copy, PartialEq, Eq, Structural, Hash)]
pub enum LoopPattern {
    /// The same tool with the same arguments, repeatedly.
    RepeatedCall,
    /// Two distinct calls alternating A→B→A→B.
    Alternating,
    /// Calls keep landing but nothing observable changes.
    NoProgress,
    /// One output repeats the same line many times.
    StreamingRepetition,
    /// Two consecutive distinct outputs are near-duplicates.
    SemanticEcho,
    /// The periodic memory/skill reminder.
    MemorySkill,
    /// A post-compaction goal self-check reminder.
    SelfCheck,
}

/// The stable identifier of a pattern.
pub open spec fn pattern_name(p: LoopPattern) -> Seq<char> {
    match p {
        LoopPattern::RepeatedCall => "repeated_call"@,
        LoopPattern::Alternating => "alternating"@,
        LoopPattern::NoProgress => "no_progress"@,
        LoopPattern::StreamingRepetition => "streaming_repetition"@,
        LoopPattern::SemanticEcho => "semantic_echo"@,
        LoopPattern::MemorySkill => "memory_skill"@,
        LoopPattern::SelfCheck => "self_check"@,
    }
}

/// The slot of a pattern in the per-pattern nudge counts.
pub open spec fn pattern_index(p: LoopPattern) -> int {
    match p {
        LoopPattern::RepeatedCall => 0,
        LoopPattern::Alternating => 1,
        LoopPattern::NoProgress => 2,
        LoopPattern::StreamingRepetition => 3,
        LoopPattern::SemanticEcho => 4,
        LoopPattern::MemorySkill => 5,
        LoopPattern::SelfCheck => 6,
    }
}

impl LoopPattern {
    /// Short stable identifier for logs and metrics.
    pub fn as_str(self) -> (r: &'static str)
        ensures
            r@ == pattern_name(self),
    {
        match self {
            LoopPattern::RepeatedCall => "repeated_call",
            LoopPattern::Alternating => "alternating",
            LoopPattern::NoProgress => "no_progress",
            LoopPattern::StreamingRepetition => "streaming_repetition",
            LoopPattern::SemanticEcho => "semantic_echo",
            LoopPattern::MemorySkill => "memory_skill",
            LoopPattern::SelfCheck => "self_check",
        }
    }

    fn index(self) -> (r: usize)
        ensures
            r == pattern_index(self),
    {
        match self {
            LoopPattern::RepeatedCall => 0,
            LoopPattern::Alternating => 1,
            LoopPattern::NoProgress => 2,
            LoopPattern::StreamingRepetition => 3,
            LoopPattern::SemanticEcho => 4,
            LoopPattern::MemorySkill => 5,
            LoopPattern::SelfCheck => 6,
        }
    }
}

/// A detected loop and the advisory text for the model.
#[derive(Debug, PartialEq, Eq)]
pub struct LoopBreak {
    /// Which pattern fired.
    pub pattern: LoopPattern,
    /// How many observations formed the evidence.
    pub occurrences: usize,
    /// Tool names involved, in the order seen.
    pub tools: Vec<String>,
    /// Advisory message, phrased as guidance, never as a termination notice.
    pub nudge: String,
}

/// Model of a [`LoopBreak`].
pub struct LoopBreakView {
    pub pattern: LoopPattern,
    pub occurrences: nat,
    pub tools: Seq<Seq<char>>,
    pub nudge: Seq<char>,
}

impl View for LoopBreak {
    type V = LoopBreakView;

    open spec fn view(&self) -> LoopBreakView {
        LoopBreakView {
            pattern: self.pattern,
            occurrences: self.occurrences as nat,
            tools: self.tools@.map_values(|s: String| s@),
            nudge: self.nudge@,
        }
    }
}

/// One executed tool call.
#[derive(Debug)]
pub struct ToolObservation<'a> {
    /// Resolved tool name.
    pub name: &'a str,
    /// Fingerprint of the tool name with its arguments, as
    /// [`crate::call_fingerprint::fingerprint`] computes it.
    pub fingerprint: u64,
    /// Whether the tool reported success.
    pub success: bool,
    /// Observable result: stdout, diff, error text.
    pub output: &'a str,
    /// Whether the call demonstrably changed something.
    pub progress: bool,
}


/// The user's task objective, which stalled turns are re-anchored to.
#[derive(Debug)]
pub struct Objective {
    /// The objective in the user's words.
    pub text: String,
    /// Points the objective must not lose.
    pub key_points: Vec<String>,
}

/// Model of an [`Objective`].
pub struct ObjectiveView {
    pub text: Seq<char>,
    pub key_points: Seq<Seq<char>>,
}

impl View for Objective {
    type V = ObjectiveView;

    open spec fn view(&self) -> ObjectiveView {
        ObjectiveView { text: self.text@, key_points: self.key_points@.map_values(|s: String| s@) }
    }
}

impl Clone for Objective {
    fn clone(&self) -> (r: Self)
        ensures
            r@ == self@,
    {
        let text = self.text.clone();
        let mut key_points: Vec<String> = Vec::new();
        let mut i: usize = 0;
        while i < self.key_points.len()
            invariant
                i <= self.key_points@.len(),
                key_points@.len() == i,
                forall|j: int| 0 <= j < i ==> key_points@[j] == self.key_points@[j],
                key_points@.map_values(|s: String| s@) == self.key_points@.take(i as int).map_values(
                    |s: String| s@,
                ),
            decreases self.key_points@.len() - i,
        {
            let c = self.key_points[i].clone();
            assert(c == self.key_points@[i as int]);
            key_points.push(c);
            assert(self.key_points@.take((i + 1) as int) =~= self.key_points@.take(i as int).push(c));
            i = i + 1;
            assert(key_points@.map_values(|s: String| s@) =~= self.key_points@.take(
                i as int,
            ).map_values(|s: String| s@));
        }
        assert(self.key_points@.take(i as int) =~= self.key_points@);
        Objective { text, key_points }
    }
}

/// Model of a [`ToolObservation`].
pub struct ObservationView {
    pub name: Seq<char>,
    pub fingerprint: u64,
    pub success: bool,
    pub output: Seq<char>,
    pub progress: bool,
}

impl<'a> View for ToolObservation<'a> {
    type V = ObservationView;

    open spec fn view(&self) -> ObservationView {
        ObservationView {
            name: self.name@,
            fingerprint: self.fingerprint,
            success: self.success,
            output: self.output@,
            progress: self.progress,
        }
    }
}

/// Detects repetition, oscillation and stalling across a turn.
#[derive(Debug)]
pub struct LoopGuard {
    config: LoopGuardConfig,
    observed: usize,
    history: Vec<(u64, String)>,
    repeat_run: usize,
    repeat_fingerprint: Option<u64>,
    stall_run: usize,
    stall_digest: Option<u64>,
    fired: Vec<usize>,
    last_distinct_output: Option<String>,
    objective: Option<Objective>,
    turn_counter: u64,
    nudge_every_n: u64,
    next_nudge: MemorySkillNudge,
}

/// Model of a [`LoopGuard`].
#[verifier::ext_equal]
pub struct LoopGuardView {
    /// The thresholds.
    pub config: LoopGuardConfig,
    /// Observations counted so far, warm-up included.
    pub observed: nat,
    /// Recent `(fingerprint, tool name)` pairs, newest last.
    pub history: Seq<(u64, Seq<char>)>,
    /// Length of the current run of identical fingerprints.
    pub repeat_run: nat,
    /// The fingerprint that run counts.
    pub repeat_fingerprint: Option<u64>,
    /// Length of the current run of identical outcome digests.
    pub stall_run: nat,
    /// The digest that run counts.
    pub stall_digest: Option<u64>,
    /// Nudges emitted so far, indexed by [`pattern_index`].
    pub fired: Seq<nat>,
    /// The most recent output kept for echo detection.
    pub last_distinct_output: Option<Seq<char>>,
    /// The attached task objective.
    pub objective: Option<ObjectiveView>,
    /// Session-wide count of observed calls, driving the periodic reminder.
    pub turn_counter: nat,
    /// Cadence of the periodic reminder.
    pub nudge_every_n: nat,
    /// Which periodic reminder comes next.
    pub next_nudge: MemorySkillNudge,
}

impl LoopGuardView {
    /// One nudge count per pattern, and a bounded history window.
    pub open spec fn wf(self) -> bool {
        self.fired.len() == 7 && self.history.len() <= HISTORY_CAPACITY
    }

    /// The counters that an observation increments are below their types'
    /// limits.
    pub open spec fn can_count(self) -> bool {
        &&& self.observed < usize::MAX
        &&& self.turn_counter < u64::MAX
        &&& self.repeat_run < usize::MAX
        &&& self.stall_run < usize::MAX
    }
}

impl View for LoopGuard {
    type V = LoopGuardView;

    closed spec fn view(&self) -> LoopGuardView {
        LoopGuardView {
            config: self.config,
            observed: self.observed as nat,
            history: self.history@.map_values(|e: (u64, String)| (e.0, e.1@)),
            repeat_run: self.repeat_run as nat,
            repeat_fingerprint: self.repeat_fingerprint,
            stall_run: self.stall_run as nat,
            stall_digest: self.stall_digest,
            fired: self.fired@.map_values(|c: usize| c as nat),
            last_distinct_output: match self.last_distinct_output {
                Some(o) => Some(o@),
                None => None,
            },
            objective: objective_view(self.objective),
            turn_counter: self.turn_counter as nat,
            nudge_every_n: self.nudge_every_n as nat,
            next_nudge: self.next_nudge,
        }
    }
}

/// The model of an optional [`Objective`].
pub open spec fn objective_view(o: Option<Objective>) -> Option<ObjectiveView> {
    match o {
        Some(o) => Some(o@),
        None => None,
    }
}

/// The model of an optional [`LoopBreak`].
pub open spec fn break_view(b: Option<LoopBreak>) -> Option<LoopBreakView> {
    match b {
        Some(b) => Some(b@),
        None => None,
    }
}

/// A fresh guard: nothing observed, every budget unspent.
pub open spec fn fresh_guard(config: LoopGuardConfig) -> LoopGuardView {
    LoopGuardView {
        config,
        observed: 0,
        history: seq![],
        repeat_run: 0,
        repeat_fingerprint: None,
        stall_run: 0,
        stall_digest: None,
        fired: seq![0nat, 0nat, 0nat, 0nat, 0nat, 0nat, 0nat],
        last_distinct_output: None,
        objective: None,
        turn_counter: 0,
        nudge_every_n: config.nudge_every_n as nat,
        next_nudge: MemorySkillNudge::Memory,
    }
}

/// Whether `p` may still fire.
pub open spec fn can_claim(g: LoopGuardView, p: LoopPattern) -> bool {
    g.fired[pattern_index(p)] < g.config.max_nudges_per_pattern
}

/// `g` with one nudge of `p` spent.
pub open spec fn claimed(g: LoopGuardView, p: LoopPattern) -> LoopGuardView {
    LoopGuardView { fired: g.fired.update(pattern_index(p), g.fired[pattern_index(p)] + 1), ..g }
}

/// The history window after appending one entry: the newest
/// [`HISTORY_CAPACITY`] entries.
pub open spec fn bounded_history(h: Seq<(u64, Seq<char>)>) -> Seq<(u64, Seq<char>)> {
    if h.len() > HISTORY_CAPACITY {
        h.skip(h.len() - HISTORY_CAPACITY)
    } else {
        h
    }
}

/// The bookkeeping every observation of an enabled guard performs before any
/// detector runs.
pub open spec fn record_spec(g: LoopGuardView, o: ObservationView) -> LoopGuardView {
    let same_call = g.repeat_fingerprint == Some(o.fingerprint);
    let repeat_run = if same_call {
        g.repeat_run + 1
    } else {
        1nat
    };
    let digest = text_hash(outcome_text(o.name, o.success, o.output));
    LoopGuardView {
        observed: g.observed + 1,
        turn_counter: g.turn_counter + 1,
        repeat_fingerprint: Some(o.fingerprint),
        repeat_run: if o.progress {
            1nat
        } else {
            repeat_run
        },
        stall_run: if o.progress {
            0nat
        } else if g.stall_digest == Some(digest) {
            g.stall_run + 1
        } else {
            1nat
        },
        stall_digest: if o.progress {
            None
        } else {
            Some(digest)
        },
        history: bounded_history(g.history.push((o.fingerprint, o.name))),
        ..g
    }
}

/// The repeat nudge for a (quoted) tool name and run length.
pub open spec fn repeat_nudge(name: Seq<char>, occurrences: nat) -> Seq<char> {
    "[Loop guard] You have called `"@ + short_name_spec(name) + "` "@ + decimal(occurrences)
        + " times in a row with identical arguments, and the result has not changed. Repeating it again will not produce a different answer. Stop and re-plan: state what you were trying to learn or change, then either (a) use different arguments or a different tool, (b) act on the result you already have, or (c) tell the user what is blocking you and ask how to proceed."@
}

/// The alternation nudge for the two tools and the window length.
pub open spec fn alternation_nudge(a: Seq<char>, b: Seq<char>, window: nat) -> Seq<char> {
    "[Loop guard] You are alternating between `"@ + short_name_spec(a) + "` and `"@
        + short_name_spec(b) + "` ("@ + decimal(window)
        + " calls, A→B→A→B) without converging. This usually means two changes are undoing each other, or you are re-reading state you have already seen. Stop and re-plan: write down what differs between the two states, decide which one is correct, and take a single decisive action — or ask the user to break the tie."@
}

/// The stall nudge, followed by the objective when one with text is
/// attached.
pub open spec fn no_progress_nudge(name: Seq<char>, occurrences: nat, objective: Option<ObjectiveView>) -> Seq<char> {
    let base = "[Loop guard] The last "@ + decimal(occurrences)
        + " tool calls (most recently `"@ + short_name_spec(name)
        + "`) completed but changed nothing observable — same output, no edits applied, no new information. You are not making progress on the task. Stop and re-plan: restate the goal, identify the specific thing you still do not know, and pick an action that would actually change the state or reveal something new. If nothing would, report what you found and ask the user for direction."@;
    match objective {
        Some(obj) => if obj.text.len() > 0 {
            base + "\n\nYour original task objective is still: "@ + obj.text
        } else {
            base
        },
        None => base,
    }
}

/// The streaming-repetition nudge.
pub open spec fn streaming_nudge(name: Seq<char>, run: nat) -> Seq<char> {
    "[Loop guard] The output of `"@ + short_name_spec(name) + "` repeats the same line "@
        + decimal(run)
        + " times in a single response. This is a degenerate generation, not useful work: the model is stuck echoing itself. Stop and re-plan: produce a response that actually changes state, or if the task is genuinely complete, summarise the result concisely instead of repeating it. If repetition is unavoidable, tell the user what is blocking progress."@
}

/// The semantic-echo nudge for a similarity in whole percent.
pub open spec fn echo_nudge(name: Seq<char>, percent: nat) -> Seq<char> {
    "[Loop guard] Your last two `"@ + short_name_spec(name) + "` outputs are "@ + decimal(percent)
        + "% the same (near-duplicate content). You are echoing yourself rather than making progress. Stop and re-plan: identify what specifically still needs to change, take a distinct action, or report what you have and ask the user how to proceed."@
}

/// The periodic reminder text.
pub open spec fn reminder_text(kind: MemorySkillNudge) -> Seq<char> {
    match kind {
        MemorySkillNudge::Memory => "[Loop guard] You have reached a periodic checkpoint. Consider distilling the key conclusions or decisions from this session into a durable memory so they survive future turns and restarts."@,
        MemorySkillNudge::Skill => "[Loop guard] You have reached a periodic checkpoint. Consider capturing any reusable procedure or workflow you just performed as a skill, so it can be applied again without re-deriving the steps."@,
    }
}

/// A break of `pattern` about the single tool `name`.
pub open spec fn single_tool_break(pattern: LoopPattern, occurrences: nat, name: Seq<char>, nudge: Seq<char>) -> LoopBreakView {
    LoopBreakView { pattern, occurrences, tools: seq![name], nudge }
}

/// The repeated-call detector.
pub open spec fn check_repeat_spec(g: LoopGuardView, o: ObservationView) -> (LoopGuardView, Option<LoopBreakView>) {
    if g.config.repeat_threshold == 0 || g.repeat_run < g.config.repeat_threshold
        || !can_claim(g, LoopPattern::RepeatedCall) {
        (g, None)
    } else {
        (
            LoopGuardView { repeat_run: 0, repeat_fingerprint: None, ..claimed(g, LoopPattern::RepeatedCall) },
            Some(single_tool_break(LoopPattern::RepeatedCall, g.repeat_run, o.name, repeat_nudge(o.name, g.repeat_run))),
        )
    }
}

/// Whether the last `window` history entries alternate between two distinct
/// fingerprints.
pub open spec fn alternates(tail: Seq<(u64, Seq<char>)>) -> bool {
    &&& tail.len() >= 2
    &&& tail[0].0 != tail[1].0
    &&& forall|i: int| 0 <= i < tail.len() ==> #[trigger] tail[i].0 == (if i % 2 == 0 {
        tail[0].0
    } else {
        tail[1].0
    })
}

/// The alternation detector.
pub open spec fn check_alternating_spec(g: LoopGuardView) -> (LoopGuardView, Option<LoopBreakView>) {
    let window = (2 * g.config.alternation_cycles) as nat;
    let tail = g.history.skip(g.history.len() - window);
    if g.config.alternation_cycles == 0 || g.history.len() < window || !alternates(tail)
        || !can_claim(g, LoopPattern::Alternating) {
        (g, None)
    } else {
        (
            LoopGuardView { history: seq![], ..claimed(g, LoopPattern::Alternating) },
            Some(LoopBreakView {
                pattern: LoopPattern::Alternating,
                occurrences: window,
                tools: seq![tail[0].1, tail[1].1],
                nudge: alternation_nudge(tail[0].1, tail[1].1, window),
            }),
        )
    }
}

/// The streaming-repetition detector.
pub open spec fn check_streaming_spec(g: LoopGuardView, o: ObservationView) -> (LoopGuardView, Option<LoopBreakView>) {
    let run = max_identical_line_run_spec(o.output);
    if g.config.intra_repeat_lines == 0 || run < g.config.intra_repeat_lines
        || !can_claim(g, LoopPattern::StreamingRepetition) {
        (g, None)
    } else {
        (
            LoopGuardView { last_distinct_output: None, ..claimed(g, LoopPattern::StreamingRepetition) },
            Some(single_tool_break(LoopPattern::StreamingRepetition, run, o.name, streaming_nudge(o.name, run))),
        )
    }
}

/// The semantic-echo detector; it records the current output whenever it is
/// switched on.
pub open spec fn check_echo_spec(g: LoopGuardView, o: ObservationView) -> (LoopGuardView, Option<LoopBreakView>) {
    let percent = g.config.semantic_echo_similarity_percent;
    let g1 = LoopGuardView { last_distinct_output: Some(o.output), ..g };
    if percent == 0 {
        (g, None)
    } else {
        match g.last_distinct_output {
            None => (g1, None),
            Some(prev) => {
                let (inter, union) = jaccard_terms(prev, o.output);
                if prev == o.output || !similar_spec(prev, o.output, percent as nat)
                    || !can_claim(g1, LoopPattern::SemanticEcho) {
                    (g1, None)
                } else {
                    (
                        LoopGuardView { last_distinct_output: None, ..claimed(g1, LoopPattern::SemanticEcho) },
                        Some(single_tool_break(LoopPattern::SemanticEcho, 2, o.name, echo_nudge(o.name, percent_rounded(inter, union)))),
                    )
                }
            },
        }
    }
}

/// The stall detector.
pub open spec fn check_no_progress_spec(g: LoopGuardView, o: ObservationView) -> (LoopGuardView, Option<LoopBreakView>) {
    if g.config.no_progress_threshold == 0 || g.stall_run < g.config.no_progress_threshold
        || !can_claim(g, LoopPattern::NoProgress) {
        (g, None)
    } else {
        (
            LoopGuardView { stall_run: 0, stall_digest: None, ..claimed(g, LoopPattern::NoProgress) },
            Some(single_tool_break(LoopPattern::NoProgress, g.stall_run, o.name, no_progress_nudge(o.name, g.stall_run, g.objective))),
        )
    }
}

/// The periodic reminder: due when the session counter is a multiple of the
/// cadence; the kind alternates between memory and skill.
pub open spec fn periodic_spec(g: LoopGuardView) -> (LoopGuardView, Option<LoopBreakView>) {
    if !g.config.memory_skill_nudge || g.nudge_every_n == 0 || g.turn_counter % g.nudge_every_n != 0 {
        (g, None)
    } else {
        (
            LoopGuardView {
                next_nudge: match g.next_nudge {
                    MemorySkillNudge::Memory => MemorySkillNudge::Skill,
                    MemorySkillNudge::Skill => MemorySkillNudge::Memory,
                },
                ..g
            },
            Some(LoopBreakView {
                pattern: LoopPattern::MemorySkill,
                occurrences: 1,
                tools: seq![],
                nudge: reminder_text(g.next_nudge),
            }),
        )
    }
}

/// One observation: bookkeeping, then the detectors in order of specificity
/// (repeat, alternation, streaming repetition, semantic echo, stall); the
/// first that fires wins, and the periodic reminder is considered only when
/// none did. A disabled guard neither counts nor fires; warm-up calls are
/// counted but never fire.
pub open spec fn observe_spec(g: LoopGuardView, o: ObservationView) -> (LoopGuardView, Option<LoopBreakView>) {
    if !g.config.enabled {
        (g, None)
    } else {
        let g0 = record_spec(g, o);
        if g0.observed <= g0.config.warmup_calls {
            (g0, None)
        } else {
            let (g1, b1) = check_repeat_spec(g0, o);
            if b1 is Some {
                (g1, b1)
            } else {
                let (g2, b2) = check_alternating_spec(g1);
                if b2 is Some {
                    (g2, b2)
                } else {
                    let (g3, b3) = check_streaming_spec(g2, o);
                    if b3 is Some {
                        (g3, b3)
                    } else {
                        let (g4, b4) = check_echo_spec(g3, o);
                        if b4 is Some {
                            (g4, b4)
                        } else {
                            let (g5, b5) = check_no_progress_spec(g4, o);
                            if b5 is Some {
                                (g5, b5)
                            } else {
                                periodic_spec(g5)
                            }
                        }
                    }
                }
            }
        }
    }
}


/// `100 * inter / union` rounded to the nearest integer, ties to even.
fn percent_rounded_exec(inter: u128, union: u128) -> (r: u64)
    requires
        0 < union,
        inter <= union,
        union <= 2 * (usize::MAX as int),
    ensures
        r == percent_rounded(inter as nat, union as nat),
{
    let num = 100 * inter;
    let q = num / union;
    let rem = num % union;
    assert(q <= 100) by (nonlinear_arith)
        requires
            num == 100 * inter,
            inter <= union,
            0 < union,
            q == num / union,
    ;
    let up = 2 * rem > union || (2 * rem == union && q % 2 == 1);
    if up {
        (q + 1) as u64
    } else {
        q as u64
    }
}

/// Appends the characters of `s` to `out`.
fn append(out: &mut Vec<char>, s: &str)
    ensures
        final(out)@ == old(out)@ + s@,
{
    let cs = chars_of(s);
    push_all(out, cs.as_slice());
}

/// Appends the decimal form of `n` to `out`.
fn append_decimal(out: &mut Vec<char>, n: usize)
    ensures
        final(out)@ == old(out)@ + decimal(n as nat),
{
    let d = decimal_exec(n as u64);
    push_all(out, d.as_slice());
}

fn repeat_nudge_text(name: &str, occurrences: usize) -> (r: String)
    ensures
        r@ == repeat_nudge(name@, occurrences as nat),
{
    let mut out: Vec<char> = Vec::new();
    append(&mut out, "[Loop guard] You have called `");
    push_all(&mut out, short_name(name).as_slice());
    append(&mut out, "` ");
    append_decimal(&mut out, occurrences);
    append(&mut out, " times in a row with identical arguments, and the result has not changed. Repeating it again will not produce a different answer. Stop and re-plan: state what you were trying to learn or change, then either (a) use different arguments or a different tool, (b) act on the result you already have, or (c) tell the user what is blocking you and ask how to proceed.");
    assert(out@ =~= repeat_nudge(name@, occurrences as nat));
    string_of(out.as_slice())
}

fn alternation_nudge_text(a: &str, b: &str, window: usize) -> (r: String)
    ensures
        r@ == alternation_nudge(a@, b@, window as nat),
{
    let mut out: Vec<char> = Vec::new();
    append(&mut out, "[Loop guard] You are alternating between `");
    push_all(&mut out, short_name(a).as_slice());
    append(&mut out, "` and `");
    push_all(&mut out, short_name(b).as_slice());
    append(&mut out, "` (");
    append_decimal(&mut out, window);
    append(&mut out, " calls, A→B→A→B) without converging. This usually means two changes are undoing each other, or you are re-reading state you have already seen. Stop and re-plan: write down what differs between the two states, decide which one is correct, and take a single decisive action — or ask the user to break the tie.");
    assert(out@ =~= alternation_nudge(a@, b@, window as nat));
    string_of(out.as_slice())
}

fn no_progress_nudge_text(name: &str, occurrences: usize, objective: &Option<Objective>) -> (r: String)
    ensures
        r@ == no_progress_nudge(name@, occurrences as nat, objective_view(*objective)),
{
    let mut out: Vec<char> = Vec::new();
    append(&mut out, "[Loop guard] The last ");
    append_decimal(&mut out, occurrences);
    append(&mut out, " tool calls (most recently `");
    push_all(&mut out, short_name(name).as_slice());
    append(&mut out, "`) completed but changed nothing observable — same output, no edits applied, no new information. You are not making progress on the task. Stop and re-plan: restate the goal, identify the specific thing you still do not know, and pick an action that would actually change the state or reveal something new. If nothing would, report what you found and ask the user for direction.");
    let ghost base = out@;
    match objective {
        Some(obj) => {
            if !obj.text.as_str().is_empty() {
                append(&mut out, "\n\nYour original task objective is still: ");
                append(&mut out, obj.text.as_str());
            }
        },
        None => {},
    }
    assert(out@ =~= no_progress_nudge(name@, occurrences as nat, objective_view(*objective)));
    string_of(out.as_slice())
}

fn streaming_nudge_text(name: &str, run: usize) -> (r: String)
    ensures
        r@ == streaming_nudge(name@, run as nat),
{
    let mut out: Vec<char> = Vec::new();
    append(&mut out, "[Loop guard] The output of `");
    push_all(&mut out, short_name(name).as_slice());
    append(&mut out, "` repeats the same line ");
    append_decimal(&mut out, run);
    append(&mut out, " times in a single response. This is a degenerate generation, not useful work: the model is stuck echoing itself. Stop and re-plan: produce a response that actually changes state, or if the task is genuinely complete, summarise the result concisely instead of repeating it. If repetition is unavoidable, tell the user what is blocking progress.");
    assert(out@ =~= streaming_nudge(name@, run as nat));
    string_of(out.as_slice())
}

fn echo_nudge_text(name: &str, percent: u64) -> (r: String)
    ensures
        r@ == echo_nudge(name@, percent as nat),
{
    let mut out: Vec<char> = Vec::new();
    append(&mut out, "[Loop guard] Your last two `");
    push_all(&mut out, short_name(name).as_slice());
    append(&mut out, "` outputs are ");
    let d = decimal_exec(percent);
    push_all(&mut out, d.as_slice());
    append(&mut out, "% the same (near-duplicate content). You are echoing yourself rather than making progress. Stop and re-plan: identify what specifically still needs to change, take a distinct action, or report what you have and ask the user how to proceed.");
    assert(out@ =~= echo_nudge(name@, percent as nat));
    string_of(out.as_slice())
}

/// The list holding the single tool name `name`.
fn one_tool(name: &str) -> (r: Vec<String>)
    ensures
        r@.map_values(|s: String| s@) == seq![name@],
{
    let mut r: Vec<String> = Vec::new();
    r.push(name.to_owned());
    assert(r@.map_values(|s: String| s@) =~= seq![name@]);
    r
}

impl LoopGuard {
    /// A guard with the given thresholds, nothing observed and every budget
    /// unspent.
    pub fn new(config: LoopGuardConfig) -> (r: Self)
        ensures
            r@ == fresh_guard(config),
    {
        let mut fired: Vec<usize> = Vec::new();
        let mut i: usize = 0;
        while i < 7
            invariant
                i <= 7,
                fired@.len() == i,
                forall|j: int| 0 <= j < i ==> fired@[j] == 0,
            decreases 7 - i,
        {
            fired.push(0);
            i = i + 1;
        }
        let r = LoopGuard {
            config,
            observed: 0,
            history: Vec::new(),
            repeat_run: 0,
            repeat_fingerprint: None,
            stall_run: 0,
            stall_digest: None,
            fired,
            last_distinct_output: None,
            objective: None,
            turn_counter: 0,
            nudge_every_n: config.nudge_every_n,
            next_nudge: MemorySkillNudge::Memory,
        };
        assert(r@.history =~= fresh_guard(config).history);
        assert(r@.fired =~= fresh_guard(config).fired);
        r
    }

    /// Tool calls observed so far, warm-up included.
    pub fn observed_calls(&self) -> (r: usize)
        ensures
            r == self@.observed,
    {
        self.observed
    }

    /// Attaches the task objective that stall reports re-anchor to.
    pub fn with_objective(self, objective: Objective) -> (r: Self)
        ensures
            r@ == (LoopGuardView { objective: Some(objective@), ..self@ }),
    {
        let mut g = self;
        g.objective = Some(objective);
        g
    }

    /// The attached task objective, if any.
    pub fn objective(&self) -> (r: Option<&Objective>)
        ensures
            match r {
                Some(o) => self@.objective == Some(o@),
                None => self@.objective is None,
            },
    {
        match &self.objective {
            Some(o) => Some(o),
            None => None,
        }
    }

    /// Whether the cold-start exemption still applies.
    pub fn in_warmup(&self) -> (r: bool)
        ensures
            r == (self@.observed <= self@.config.warmup_calls),
    {
        self.observed <= self.config.warmup_calls
    }

    /// The session-wide count of observed calls.
    pub fn turn_counter(&self) -> (r: u64)
        ensures
            r == self@.turn_counter,
    {
        self.turn_counter
    }

    /// Spends one nudge of `p` when its budget allows.
    fn claim_budget(&mut self, p: LoopPattern) -> (r: bool)
        requires
            old(self)@.wf(),
        ensures
            r == can_claim(old(self)@, p),
            final(self)@ == (if r {
                claimed(old(self)@, p)
            } else {
                old(self)@
            }),
    {
        let i = p.index();
        let count = self.fired[i];
        if count >= self.config.max_nudges_per_pattern {
            return false;
        }
        let ghost before = self@;
        self.fired.set(i, count + 1);
        assert(self@.fired =~= claimed(before, p).fired);
        assert(self@ =~= claimed(before, p));
        true
    }

    /// The bookkeeping of one observation.
    fn record(&mut self, o: &ToolObservation)
        requires
            old(self)@.wf(),
            old(self)@.can_count(),
        ensures
            final(self)@ == record_spec(old(self)@, o@),
            final(self)@.wf(),
    {
        let ghost before = self@;
        self.observed = self.observed + 1;
        self.turn_counter = self.turn_counter + 1;
        let same_call = match self.repeat_fingerprint {
            Some(f) => f == o.fingerprint,
            None => false,
        };
        if same_call {
            self.repeat_run = self.repeat_run + 1;
        } else {
            self.repeat_run = 1;
        }
        self.repeat_fingerprint = Some(o.fingerprint);
        let digest = outcome_digest(o.name, o.success, o.output);
        if o.progress {
            self.stall_run = 0;
            self.stall_digest = None;
            self.repeat_run = 1;
        } else {
            let same_outcome = match self.stall_digest {
                Some(d) => d == digest,
                None => false,
            };
            if same_outcome {
                self.stall_run = self.stall_run + 1;
            } else {
                self.stall_run = 1;
            }
            self.stall_digest = Some(digest);
        }
        let ghost h = before.history.push((o.fingerprint, o.name@));
        self.history.push((o.fingerprint, o.name.to_owned()));
        assert(self@.history =~= h);
        if self.history.len() > HISTORY_CAPACITY {
            self.history.remove(0);
            assert(self@.history =~= h.skip(1));
        }
        assert(self@ =~= record_spec(before, o@));
    }

    fn check_repeat(&mut self, o: &ToolObservation) -> (r: Option<LoopBreak>)
        requires
            old(self)@.wf(),
        ensures
            final(self)@ == check_repeat_spec(old(self)@, o@).0,
            break_view(r) == check_repeat_spec(old(self)@, o@).1,
    {
        if self.config.repeat_threshold == 0 || self.repeat_run < self.config.repeat_threshold {
            return None;
        }
        if !self.claim_budget(LoopPattern::RepeatedCall) {
            return None;
        }
        let ghost mid = self@;
        let occurrences = self.repeat_run;
        self.repeat_run = 0;
        self.repeat_fingerprint = None;
        assert(self@ =~= LoopGuardView { repeat_run: 0, repeat_fingerprint: None, ..mid });
        Some(
            LoopBreak {
                pattern: LoopPattern::RepeatedCall,
                occurrences,
                tools: one_tool(o.name),
                nudge: repeat_nudge_text(o.name, occurrences),
            },
        )
    }

    fn check_alternating(&mut self) -> (r: Option<LoopBreak>)
        requires
            old(self)@.wf(),
        ensures
            final(self)@ == check_alternating_spec(old(self)@).0,
            break_view(r) == check_alternating_spec(old(self)@).1,
    {
        let ghost g = self@;
        let cycles = self.config.alternation_cycles;
        if cycles == 0 {
            return None;
        }
        let len = self.history.len();
        if cycles > len {
            return None;
        }
        let window = 2 * cycles;
        if len < window {
            return None;
        }
        let start = len - window;
        let ghost tail = g.history.skip(g.history.len() - window);
        assert(tail[0] == g.history[start as int]);
        assert(tail[1] == g.history[start + 1]);
        let first = self.history[start].0;
        let second = self.history[start + 1].0;
        if first == second {
            return None;
        }
        let mut k: usize = 0;
        while k < window
            invariant
                k <= window,
                window == 2 * cycles,
                start + window == len,
                len == self.history@.len(),
                g == self@,
                g == old(self)@,
                g.wf(),
                cycles == g.config.alternation_cycles,
                cycles > 0,
                tail == g.history.skip(g.history.len() - window),
                first == tail[0].0,
                second == tail[1].0,
                forall|j: int| 0 <= j < k ==> #[trigger] tail[j].0 == (if j % 2 == 0 {
                    first
                } else {
                    second
                }),
            decreases window - k,
        {
            assert(tail[k as int] == g.history[start + k]);
            let fp = self.history[start + k].0;
            let expected = if k % 2 == 0 {
                first
            } else {
                second
            };
            if fp != expected {
                assert(tail[k as int].0 != (if (k as int) % 2 == 0 {
                    tail[0].0
                } else {
                    tail[1].0
                }));
                assert(!alternates(tail));
                return None;
            }
            k = k + 1;
        }
        assert(alternates(tail));
        let name_a = self.history[start].1.clone();
        let name_b = self.history[start + 1].1.clone();
        if !self.claim_budget(LoopPattern::Alternating) {
            return None;
        }
        let ghost mid = self@;
        self.history.clear();
        assert(self@ =~= LoopGuardView { history: seq![], ..mid });
        let mut tools: Vec<String> = Vec::new();
        let nudge = alternation_nudge_text(name_a.as_str(), name_b.as_str(), window);
        tools.push(name_a);
        tools.push(name_b);
        assert(tools@.map_values(|s: String| s@) =~= seq![tail[0].1, tail[1].1]);
        Some(LoopBreak { pattern: LoopPattern::Alternating, occurrences: window, tools, nudge })
    }

    fn check_streaming_repetition(&mut self, o: &ToolObservation) -> (r: Option<LoopBreak>)
        requires
            old(self)@.wf(),
        ensures
            final(self)@ == check_streaming_spec(old(self)@, o@).0,
            break_view(r) == check_streaming_spec(old(self)@, o@).1,
    {
        if self.config.intra_repeat_lines == 0 {
            return None;
        }
        let run = max_identical_line_run(o.output);
        if run < self.config.intra_repeat_lines {
            return None;
        }
        if !self.claim_budget(LoopPattern::StreamingRepetition) {
            return None;
        }
        let ghost mid = self@;
        self.last_distinct_output = None;
        assert(self@ =~= LoopGuardView { last_distinct_output: None, ..mid });
        Some(
            LoopBreak {
                pattern: LoopPattern::StreamingRepetition,
                occurrences: run,
                tools: one_tool(o.name),
                nudge: streaming_nudge_text(o.name, run),
            },
        )
    }

    fn check_semantic_echo(&mut self, o: &ToolObservation) -> (r: Option<LoopBreak>)
        requires
            old(self)@.wf(),
        ensures
            final(self)@ == check_echo_spec(old(self)@, o@).0,
            break_view(r) == check_echo_spec(old(self)@, o@).1,
    {
        let percent = self.config.semantic_echo_similarity_percent;
        if percent == 0 {
            return None;
        }
        let ghost g = self@;
        let mut previous: Option<String> = Some(o.output.to_owned());
        std::mem::swap(&mut previous, &mut self.last_distinct_output);
        assert(self@ =~= LoopGuardView { last_distinct_output: Some(o@.output), ..g });
        let prev = match previous {
            Some(p) => p,
            None => {
                return None;
            },
        };
        if prev == o.output.to_owned() {
            return None;
        }
        let (inter, union) = jaccard_terms_exec(prev.as_str(), o.output);
        assert((percent as u128) * union <= 0x1_0000_0000 * 0x3_0000_0000_0000_0000) by (nonlinear_arith)
            requires
                percent < 0x1_0000_0000,
                union <= 0x3_0000_0000_0000_0000,
        ;
        if union == 0 || inter * 100 < (percent as u128) * union {
            return None;
        }
        if !self.claim_budget(LoopPattern::SemanticEcho) {
            return None;
        }
        let ghost mid = self@;
        self.last_distinct_output = None;
        assert(self@ =~= LoopGuardView { last_distinct_output: None, ..mid });
        let pct = percent_rounded_exec(inter, union);
        Some(
            LoopBreak {
                pattern: LoopPattern::SemanticEcho,
                occurrences: 2,
                tools: one_tool(o.name),
                nudge: echo_nudge_text(o.name, pct),
            },
        )
    }

    fn check_no_progress(&mut self, o: &ToolObservation) -> (r: Option<LoopBreak>)
        requires
            old(self)@.wf(),
        ensures
            final(self)@ == check_no_progress_spec(old(self)@, o@).0,
            break_view(r) == check_no_progress_spec(old(self)@, o@).1,
    {
        if self.config.no_progress_threshold == 0 || self.stall_run < self.config.no_progress_threshold {
            return None;
        }
        if !self.claim_budget(LoopPattern::NoProgress) {
            return None;
        }
        let ghost mid = self@;
        let occurrences = self.stall_run;
        self.stall_run = 0;
        self.stall_digest = None;
        assert(self@ =~= LoopGuardView { stall_run: 0, stall_digest: None, ..mid });
        let nudge = no_progress_nudge_text(o.name, occurrences, &self.objective);
        Some(
            LoopBreak {
                pattern: LoopPattern::NoProgress,
                occurrences,
                tools: one_tool(o.name),
                nudge,
            },
        )
    }

    fn periodic_memory_skill_nudge(&mut self) -> (r: Option<LoopBreak>)
        ensures
            final(self)@ == periodic_spec(old(self)@).0,
            break_view(r) == periodic_spec(old(self)@).1,
    {
        if !self.config.memory_skill_nudge || self.nudge_every_n == 0 {
            return None;
        }
        if self.turn_counter % self.nudge_every_n != 0 {
            return None;
        }
        let ghost g = self@;
        let kind = self.next_nudge;
        self.next_nudge = match kind {
            MemorySkillNudge::Memory => MemorySkillNudge::Skill,
            MemorySkillNudge::Skill => MemorySkillNudge::Memory,
        };
        assert(self@ =~= periodic_spec(g).0);
        let nudge = match kind {
            MemorySkillNudge::Memory => "[Loop guard] You have reached a periodic checkpoint. Consider distilling the key conclusions or decisions from this session into a durable memory so they survive future turns and restarts.".to_owned(),
            MemorySkillNudge::Skill => "[Loop guard] You have reached a periodic checkpoint. Consider capturing any reusable procedure or workflow you just performed as a skill, so it can be applied again without re-deriving the steps.".to_owned(),
        };
        let tools: Vec<String> = Vec::new();
        assert(tools@.map_values(|s: String| s@) =~= Seq::<Seq<char>>::empty());
        Some(LoopBreak { pattern: LoopPattern::MemorySkill, occurrences: 1, tools, nudge })
    }

    /// Records one executed tool call and reports a loop if one is detected
    /// (see [`observe_spec`]).
    pub fn observe(&mut self, o: &ToolObservation) -> (r: Option<LoopBreak>)
        requires
            old(self)@.wf(),
            old(self)@.config.enabled ==> old(self)@.can_count(),
        ensures
            final(self)@ == observe_spec(old(self)@, o@).0,
            break_view(r) == observe_spec(old(self)@, o@).1,
            final(self)@.wf(),
    {
        if !self.config.enabled {
            return None;
        }
        self.record(o);
        if self.observed <= self.config.warmup_calls {
            return None;
        }
        let b = self.check_repeat(o);
        if b.is_some() {
            return b;
        }
        let b = self.check_alternating();
        if b.is_some() {
            return b;
        }
        let b = self.check_streaming_repetition(o);
        if b.is_some() {
            return b;
        }
        let b = self.check_semantic_echo(o);
        if b.is_some() {
            return b;
        }
        let b = self.check_no_progress(o);
        if b.is_some() {
            return b;
        }
        self.periodic_memory_skill_nudge()
    }
}

impl Default for LoopGuard {
    fn default() -> (r: Self)
        ensures
            r@ == fresh_guard(default_config()),
    {
        LoopGuard::new(LoopGuardConfig::default())
    }
}


/// The durable part of a guard, carried from one turn to the next: the
/// counters, the spent budgets, the objective and the session counter. The
/// per-call evidence (history window, last output) is not kept.
#[derive(Debug)]
pub struct LoopGuardState {
    /// Observations carried over.
    pub observed: usize,
    /// Length of the carried identical-call run.
    pub repeat_run: usize,
    /// Fingerprint that run counts.
    pub repeat_fingerprint: Option<u64>,
    /// Length of the carried stall run.
    pub stall_run: usize,
    /// Digest that run counts.
    pub stall_digest: Option<u64>,
    /// Spent nudge budgets, per pattern.
    pub fired: Vec<(LoopPattern, usize)>,
    /// The task objective, when one was attached.
    pub objective: Option<Objective>,
    /// Session-wide count of observed calls.
    pub turn_counter: u64,
}

/// Model of a [`LoopGuardState`].
#[verifier::ext_equal]
pub struct LoopGuardStateView {
    pub observed: nat,
    pub repeat_run: nat,
    pub repeat_fingerprint: Option<u64>,
    pub stall_run: nat,
    pub stall_digest: Option<u64>,
    pub fired: Seq<(LoopPattern, nat)>,
    pub objective: Option<ObjectiveView>,
    pub turn_counter: nat,
}

impl View for LoopGuardState {
    type V = LoopGuardStateView;

    open spec fn view(&self) -> LoopGuardStateView {
        LoopGuardStateView {
            observed: self.observed as nat,
            repeat_run: self.repeat_run as nat,
            repeat_fingerprint: self.repeat_fingerprint,
            stall_run: self.stall_run as nat,
            stall_digest: self.stall_digest,
            fired: self.fired@.map_values(|e: (LoopPattern, usize)| (e.0, e.1 as nat)),
            objective: objective_view(self.objective),
            turn_counter: self.turn_counter as nat,
        }
    }
}

impl Default for LoopGuardState {
    fn default() -> (r: Self)
        ensures
            r@ == (LoopGuardStateView {
                observed: 0,
                repeat_run: 0,
                repeat_fingerprint: None,
                stall_run: 0,
                stall_digest: None,
                fired: seq![],
                objective: None,
                turn_counter: 0,
            }),
    {
        let r = LoopGuardState {
            observed: 0,
            repeat_run: 0,
            repeat_fingerprint: None,
            stall_run: 0,
            stall_digest: None,
            fired: Vec::new(),
            objective: None,
            turn_counter: 0,
        };
        assert(r@.fired =~= Seq::<(LoopPattern, nat)>::empty());
        r
    }
}

/// The pattern in slot `i` of the nudge counts.
pub open spec fn pattern_at(i: int) -> LoopPattern {
    if i == 0 {
        LoopPattern::RepeatedCall
    } else if i == 1 {
        LoopPattern::Alternating
    } else if i == 2 {
        LoopPattern::NoProgress
    } else if i == 3 {
        LoopPattern::StreamingRepetition
    } else if i == 4 {
        LoopPattern::SemanticEcho
    } else if i == 5 {
        LoopPattern::MemorySkill
    } else {
        LoopPattern::SelfCheck
    }
}

fn pattern_at_exec(i: usize) -> (r: LoopPattern)
    ensures
        r == pattern_at(i as int),
{
    if i == 0 {
        LoopPattern::RepeatedCall
    } else if i == 1 {
        LoopPattern::Alternating
    } else if i == 2 {
        LoopPattern::NoProgress
    } else if i == 3 {
        LoopPattern::StreamingRepetition
    } else if i == 4 {
        LoopPattern::SemanticEcho
    } else if i == 5 {
        LoopPattern::MemorySkill
    } else {
        LoopPattern::SelfCheck
    }
}

/// The durable part of `g`: its counters, one `(pattern, count)` entry per
/// pattern in slot order, its objective and its session counter.
pub open spec fn snapshot_spec(g: LoopGuardView) -> LoopGuardStateView {
    LoopGuardStateView {
        observed: g.observed,
        repeat_run: g.repeat_run,
        repeat_fingerprint: g.repeat_fingerprint,
        stall_run: g.stall_run,
        stall_digest: g.stall_digest,
        fired: Seq::new(7, |i: int| (pattern_at(i), g.fired[i])),
        objective: g.objective,
        turn_counter: g.turn_counter,
    }
}

/// The nudge counts `f` raised, entry by entry in order, to the counts in
/// `es` (each count is the larger of the two).
pub open spec fn merge_fired(f: Seq<nat>, es: Seq<(LoopPattern, nat)>) -> Seq<nat>
    decreases es.len(),
{
    if es.len() == 0 {
        f
    } else {
        let m = merge_fired(f, es.drop_last());
        let i = pattern_index(es.last().0);
        m.update(i, if m[i] >= es.last().1 {
            m[i]
        } else {
            es.last().1
        })
    }
}

/// `g` with the durable state `st` restored: counters and session counter
/// taken from `st`, budgets merged, the objective replaced when `st` has
/// one; thresholds and per-call evidence untouched.
pub open spec fn restore_spec(g: LoopGuardView, st: LoopGuardStateView) -> LoopGuardView {
    LoopGuardView {
        observed: st.observed,
        repeat_run: st.repeat_run,
        repeat_fingerprint: st.repeat_fingerprint,
        stall_run: st.stall_run,
        stall_digest: st.stall_digest,
        turn_counter: st.turn_counter,
        fired: merge_fired(g.fired, st.fired),
        objective: if st.objective is Some {
            st.objective
        } else {
            g.objective
        },
        ..g
    }
}

proof fn lemma_merge_fired_len(f: Seq<nat>, es: Seq<(LoopPattern, nat)>)
    requires
        f.len() == 7,
    ensures
        merge_fired(f, es).len() == 7,
    decreases es.len(),
{
    if es.len() > 0 {
        lemma_merge_fired_len(f, es.drop_last());
    }
}

fn clone_objective(o: &Option<Objective>) -> (r: Option<Objective>)
    ensures
        objective_view(r) == objective_view(*o),
{
    match o {
        Some(obj) => Some(obj.clone()),
        None => None,
    }
}

impl LoopGuard {
    /// The durable part of this guard, for carrying across turns.
    pub fn snapshot_state(&self) -> (r: LoopGuardState)
        requires
            self@.wf(),
        ensures
            r@ == snapshot_spec(self@),
    {
        let mut fired: Vec<(LoopPattern, usize)> = Vec::new();
        let mut i: usize = 0;
        while i < 7
            invariant
                i <= 7,
                self@.wf(),
                fired@.len() == i,
                forall|j: int| 0 <= j < i ==> #[trigger] fired@[j] == (pattern_at(j), self.fired@[j]),
            decreases 7 - i,
        {
            fired.push((pattern_at_exec(i), self.fired[i]));
            i = i + 1;
        }
        let r = LoopGuardState {
            observed: self.observed,
            repeat_run: self.repeat_run,
            repeat_fingerprint: self.repeat_fingerprint,
            stall_run: self.stall_run,
            stall_digest: self.stall_digest,
            fired,
            objective: clone_objective(&self.objective),
            turn_counter: self.turn_counter,
        };
        assert(r@.fired =~= snapshot_spec(self@).fired);
        r
    }

    /// Restores durable state carried from an earlier turn; budgets are
    /// merged by taking the larger count.
    pub fn restore_state(&mut self, state: &LoopGuardState)
        requires
            old(self)@.wf(),
        ensures
            final(self)@ == restore_spec(old(self)@, state@),
            final(self)@.wf(),
    {
        let ghost g = self@;
        let mut fired: Vec<usize> = Vec::new();
        std::mem::swap(&mut fired, &mut self.fired);
        let ghost es = state@.fired;
        let n = state.fired.len();
        let mut i: usize = 0;
        assert(es.take(0) =~= Seq::<(LoopPattern, nat)>::empty());
        while i < n
            invariant
                n == state.fired@.len(),
                es == state@.fired,
                i <= n,
                fired@.len() == 7,
                fired@.map_values(|c: usize| c as nat) == merge_fired(g.fired, es.take(i as int)),
            decreases n - i,
        {
            let (p, count) = state.fired[i];
            let k = p.index();
            let cur = fired[k];
            assert(es.take((i + 1) as int).drop_last() =~= es.take(i as int));
            assert(es.take((i + 1) as int).last() == (p, count as nat));
            if cur < count {
                fired.set(k, count);
            }
            assert(fired@.map_values(|c: usize| c as nat) =~= merge_fired(g.fired, es.take((i + 1) as int)));
            i = i + 1;
        }
        assert(es.take(n as int) =~= es);
        self.fired = fired;
        self.observed = state.observed;
        self.repeat_run = state.repeat_run;
        self.repeat_fingerprint = state.repeat_fingerprint;
        self.stall_run = state.stall_run;
        self.stall_digest = state.stall_digest;
        self.turn_counter = state.turn_counter;
        if state.objective.is_some() {
            self.objective = clone_objective(&state.objective);
        }
        assert(self@ =~= restore_spec(g, state@));
    }
}


/// The state after observing `os` in order.
pub open spec fn run_spec(g: LoopGuardView, os: Seq<ObservationView>) -> LoopGuardView
    decreases os.len(),
{
    if os.len() == 0 {
        g
    } else {
        observe_spec(run_spec(g, os.drop_last()), os.last()).0
    }
}

/// How many of the observations in `os` returned a break of pattern `p`.
pub open spec fn fires_of(g: LoopGuardView, os: Seq<ObservationView>, p: LoopPattern) -> nat
    decreases os.len(),
{
    if os.len() == 0 {
        0
    } else {
        fires_of(g, os.drop_last(), p) + match observe_spec(run_spec(g, os.drop_last()), os.last()).1 {
            Some(b) => if b.pattern == p {
                1nat
            } else {
                0nat
            },
            None => 0nat,
        }
    }
}

/// What one observation does to the thresholds, the cadence, the budgets and
/// the reminder kind: the first three only move by the nudge that was
/// returned, and only within its budget.
proof fn lemma_observe_step(g: LoopGuardView, o: ObservationView)
    requires
        g.wf(),
    ensures
        ({
            let (g2, b) = observe_spec(g, o);
            &&& g2.wf()
            &&& g2.config == g.config
            &&& g2.nudge_every_n == g.nudge_every_n
            &&& match b {
                Some(b) => if b.pattern == LoopPattern::MemorySkill {
                    &&& g2.fired == g.fired
                    &&& g2.next_nudge != g.next_nudge
                    &&& b.nudge == reminder_text(g.next_nudge)
                } else {
                    &&& b.pattern != LoopPattern::SelfCheck
                    &&& can_claim(g, b.pattern)
                    &&& g2.fired == g.fired.update(pattern_index(b.pattern), g.fired[pattern_index(b.pattern)] + 1)
                    &&& g2.next_nudge == g.next_nudge
                },
                None => g2.fired == g.fired && g2.next_nudge == g.next_nudge,
            }
        }),
{
    if g.config.enabled {
        let g0 = record_spec(g, o);
        let h = g.history.push((o.fingerprint, o.name));
        assert(bounded_history(h).len() <= HISTORY_CAPACITY);
        assert(g0.wf());
    }
}

/// A guard that is switched off neither counts nor fires.
pub proof fn law_disabled_guard_is_inert(g: LoopGuardView, o: ObservationView)
    requires
        !g.config.enabled,
    ensures
        observe_spec(g, o).0 == g,
        observe_spec(g, o).1 is None,
{
}

/// Calls inside the warm-up window are counted but never fire.
pub proof fn law_warmup_calls_never_fire(g: LoopGuardView, o: ObservationView)
    requires
        g.observed + 1 <= g.config.warmup_calls,
    ensures
        observe_spec(g, o).1 is None,
{
}

/// A call that made progress is never reported as a stall, and as a repeat
/// only when a single call is enough to make one.
pub proof fn law_progress_is_never_a_stall(g: LoopGuardView, o: ObservationView)
    requires
        o.progress,
    ensures
        observe_spec(g, o).1 matches Some(b) ==> b.pattern != LoopPattern::NoProgress
            && (b.pattern == LoopPattern::RepeatedCall ==> g.config.repeat_threshold <= 1),
{
}

#[verifier::spinoff_prover]
#[verifier::rlimit(50)]
proof fn lemma_run(g: LoopGuardView, os: Seq<ObservationView>, p: LoopPattern)
    requires
        g.wf(),
        p != LoopPattern::MemorySkill,
        g.fired[pattern_index(p)] <= g.config.max_nudges_per_pattern,
    ensures
        run_spec(g, os).wf(),
        run_spec(g, os).config == g.config,
        run_spec(g, os).fired[pattern_index(p)] == g.fired[pattern_index(p)] + fires_of(g, os, p),
        run_spec(g, os).fired[pattern_index(p)] <= g.config.max_nudges_per_pattern,
    decreases os.len(),
{
    if os.len() > 0 {
        let prev = os.drop_last();
        lemma_run(g, prev, p);
        lemma_observe_step(run_spec(g, prev), os.last());
    }
}

/// Over any sequence of calls, each loop pattern fires at most
/// `max_nudges_per_pattern` times, counting the nudges it had already spent.
pub proof fn law_nudges_capped_per_pattern(g: LoopGuardView, os: Seq<ObservationView>, p: LoopPattern)
    requires
        g.wf(),
        p != LoopPattern::MemorySkill,
        g.fired[pattern_index(p)] <= g.config.max_nudges_per_pattern,
    ensures
        g.fired[pattern_index(p)] + fires_of(g, os, p) <= g.config.max_nudges_per_pattern,
{
    lemma_run(g, os, p);
}

/// Two periodic reminders in a row carry different texts: memory and skill
/// alternate, whatever other calls came in between without a reminder.
pub proof fn law_reminders_alternate(g: LoopGuardView, o1: ObservationView, o2: ObservationView)
    requires
        g.wf(),
        observe_spec(g, o1).1 matches Some(b) && b.pattern == LoopPattern::MemorySkill,
        observe_spec(observe_spec(g, o1).0, o2).1 matches Some(b) && b.pattern == LoopPattern::MemorySkill,
    ensures
        observe_spec(g, o1).1.unwrap().nudge != observe_spec(observe_spec(g, o1).0, o2).1.unwrap().nudge,
{
    lemma_observe_step(g, o1);
    lemma_observe_step(observe_spec(g, o1).0, o2);
    reveal_strlit("[Loop guard] You have reached a periodic checkpoint. Consider distilling the key conclusions or decisions from this session into a durable memory so they survive future turns and restarts.");
    reveal_strlit("[Loop guard] You have reached a periodic checkpoint. Consider capturing any reusable procedure or workflow you just performed as a skill, so it can be applied again without re-deriving the steps.");
    let m = reminder_text(MemorySkillNudge::Memory);
    let k = reminder_text(MemorySkillNudge::Skill);
    assert(m[62] != k[62]);
}

proof fn lemma_merge_snapshot(g: LoopGuardView, z: Seq<nat>, k: int)
    requires
        g.wf(),
        z == seq![0nat, 0nat, 0nat, 0nat, 0nat, 0nat, 0nat],
        0 <= k <= 7,
    ensures
        merge_fired(z, snapshot_spec(g).fired.take(k)) == Seq::new(7, |j: int| if j < k {
            g.fired[j]
        } else {
            0nat
        }),
    decreases k,
{
    let es = snapshot_spec(g).fired;
    if k == 0 {
        assert(es.take(0) =~= Seq::<(LoopPattern, nat)>::empty());
        assert(z =~= Seq::new(7, |j: int| if j < 0 {
            g.fired[j]
        } else {
            0nat
        }));
    } else {
        lemma_merge_snapshot(g, z, k - 1);
        assert(es.take(k).drop_last() =~= es.take(k - 1));
        assert(es.take(k).last() == (pattern_at(k - 1), g.fired[k - 1]));
        assert(pattern_index(pattern_at(k - 1)) == k - 1);
        assert(merge_fired(z, es.take(k)) =~= Seq::new(7, |j: int| if j < k {
            g.fired[j]
        } else {
            0nat
        }));
    }
}

/// Restoring a guard's snapshot into a fresh guard gives back its counters,
/// its spent budgets, its objective and its session counter.
pub proof fn law_snapshot_restore_round_trip(g: LoopGuardView, config: LoopGuardConfig)
    requires
        g.wf(),
    ensures
        ({
            let r = restore_spec(fresh_guard(config), snapshot_spec(g));
            &&& r.observed == g.observed
            &&& r.repeat_run == g.repeat_run
            &&& r.repeat_fingerprint == g.repeat_fingerprint
            &&& r.stall_run == g.stall_run
            &&& r.stall_digest == g.stall_digest
            &&& r.fired == g.fired
            &&& r.objective == g.objective
            &&& r.turn_counter == g.turn_counter
        }),
{
    let z = seq![0nat, 0nat, 0nat, 0nat, 0nat, 0nat, 0nat];
    lemma_merge_snapshot(g, z, 7);
    assert(snapshot_spec(g).fired.take(7) =~= snapshot_spec(g).fired);
    assert(merge_fired(z, snapshot_spec(g).fired) =~= g.fired);
}

/// A tool name as quoted in a nudge: cut to 48 characters, marked `…` when
/// cut.
pub open spec fn short_name_spec(name: Seq<char>) -> Seq<char> {
    if name.len() <= MAX_QUOTED_NAME_CHARS {
        name
    } else {
        name.take(MAX_QUOTED_NAME_CHARS as int).push('…')
    }
}

fn short_name(name: &str) -> (r: Vec<char>)
    ensures
        r@ == short_name_spec(name@),
{
    let cs = chars_of(name);
    if cs.len() <= MAX_QUOTED_NAME_CHARS {
        cs
    } else {
        let mut out = slice_to_vec(cs.as_slice(), 0, MAX_QUOTED_NAME_CHARS);
        out.push('…');
        out
    }
}

/// The longest run of identical non-blank lines (trimmed) in `ls`; blank
/// lines are skipped and do not break a run.
pub open spec fn line_runs(ls: Seq<Seq<char>>, prev: Option<Seq<char>>, cur: nat, best: nat) -> nat
    decreases ls.len(),
{
    if ls.len() == 0 {
        best
    } else {
        let t = trim(ls[0]);
        if t.len() == 0 {
            line_runs(ls.drop_first(), prev, cur, best)
        } else {
            let c = if prev == Some(t) {
                cur + 1
            } else {
                1nat
            };
            line_runs(ls.drop_first(), Some(t), c, if best >= c {
                best
            } else {
                c
            })
        }
    }
}

/// The longest run of identical non-blank lines within one output.
pub open spec fn max_identical_line_run_spec(output: Seq<char>) -> nat {
    line_runs(lines(output), None, 0, 0)
}

fn max_identical_line_run(output: &str) -> (r: usize)
    ensures
        r == max_identical_line_run_spec(output@),
{
    let ls = split_lines(chars_of(output).as_slice());
    let ghost lv = views(ls@);
    let n = ls.len();
    let mut best: usize = 0;
    let mut current: usize = 0;
    let mut prev: Option<Vec<char>> = None;
    let mut i: usize = 0;
    assert(lv.skip(0) =~= lv);
    while i < n
        invariant
            n == ls@.len(),
            lv == views(ls@),
            lv == lines(output@),
            i <= n,
            current <= i,
            best <= i,
            line_runs(lv, None, 0, 0) == line_runs(
                lv.skip(i as int),
                match prev {
                    Some(p) => Some(p@),
                    None => None,
                },
                current as nat,
                best as nat,
            ),
        decreases n - i,
    {
        assert(lv.skip(i as int).drop_first() =~= lv.skip(i + 1));
        assert(lv.skip(i as int)[0] == ls@[i as int]@);
        let t = trimmed(ls[i].as_slice());
        if t.len() > 0 {
            let same = match &prev {
                Some(p) => crate::text::seq_eq(p.as_slice(), t.as_slice()),
                None => false,
            };
            if same {
                current = current + 1;
            } else {
                current = 1;
            }
            if current > best {
                best = current;
            }
            prev = Some(t);
        }
        i = i + 1;
    }
    best
}

/// The distinct elements of `s`, in order of first occurrence.
pub open spec fn distinct(s: Seq<Seq<char>>) -> Seq<Seq<char>>
    decreases s.len(),
{
    if s.len() == 0 {
        seq![]
    } else if distinct(s.drop_last()).contains(s.last()) {
        distinct(s.drop_last())
    } else {
        distinct(s.drop_last()).push(s.last())
    }
}

/// How many of the distinct words of `a` occur in `b`, and how many distinct
/// words the two have together: the terms of their Jaccard similarity.
pub open spec fn jaccard_terms(a: Seq<char>, b: Seq<char>) -> (nat, nat) {
    let ua = distinct(words(a));
    let ub = distinct(words(b));
    let inter = ua.filter(|w: Seq<char>| ub.contains(w)).len();
    let only_b = ub.filter(|w: Seq<char>| !ua.contains(w)).len();
    (inter, ua.len() + only_b)
}

/// Whether two outputs share at least `percent` percent of their distinct
/// words (never when neither has a word).
pub open spec fn similar_spec(a: Seq<char>, b: Seq<char>, percent: nat) -> bool {
    let (inter, union) = jaccard_terms(a, b);
    union > 0 && inter * 100 >= percent * union
}

/// `100 * inter / union` rounded to the nearest integer, ties to even.
pub open spec fn percent_rounded(inter: nat, union: nat) -> nat {
    let q = (100 * inter) / union;
    let r = (100 * inter) % union;
    if 2 * r > union || (2 * r == union && q % 2 == 1) {
        q + 1
    } else {
        q
    }
}

fn contains_word(v: &Vec<Vec<char>>, w: &[char]) -> (r: bool)
    ensures
        r == views(v@).contains(w@),
{
    let n = v.len();
    let mut i: usize = 0;
    while i < n
        invariant
            n == v@.len(),
            i <= n,
            forall|j: int| 0 <= j < i ==> views(v@)[j] != w@,
        decreases n - i,
    {
        if crate::text::seq_eq(v[i].as_slice(), w) {
            assert(views(v@)[i as int] == w@);
            return true;
        }
        i = i + 1;
    }
    false
}

fn distinct_words(s: &str) -> (r: Vec<Vec<char>>)
    ensures
        views(r@) == distinct(words(s@)),
{
    let ws = split_words(chars_of(s).as_slice());
    let ghost wv = views(ws@);
    let n = ws.len();
    let mut r: Vec<Vec<char>> = Vec::new();
    let mut i: usize = 0;
    assert(views(r@) =~= Seq::<Seq<char>>::empty());
    assert(wv.take(0) =~= Seq::<Seq<char>>::empty());
    while i < n
        invariant
            n == ws@.len(),
            wv == views(ws@),
            wv == words(s@),
            i <= n,
            views(r@) == distinct(wv.take(i as int)),
        decreases n - i,
    {
        let ghost t = wv.take((i + 1) as int);
        assert(t.drop_last() =~= wv.take(i as int));
        assert(t.last() == ws@[i as int]@);
        if !contains_word(&r, ws[i].as_slice()) {
            let ghost before = views(r@);
            r.push(slice_to_vec(ws[i].as_slice(), 0, ws[i].len()));
            assert(ws@[i as int]@.subrange(0, ws@[i as int]@.len() as int) =~= ws@[i as int]@);
            assert(views(r@) =~= before.push(ws@[i as int]@));
        }
        i = i + 1;
    }
    assert(wv.take(n as int) =~= wv);
    r
}

fn count_filtered(v: &Vec<Vec<char>>, other: &Vec<Vec<char>>, inside: bool) -> (r: usize)
    ensures
        r == views(v@).filter(|w: Seq<char>| views(other@).contains(w) == inside).len(),
{
    let ghost vv = views(v@);
    let ghost ov = views(other@);
    let n = v.len();
    let mut count: usize = 0;
    let mut i: usize = 0;
    while i < n
        invariant
            n == v@.len(),
            vv == views(v@),
            ov == views(other@),
            i <= n,
            count == vv.take(i as int).filter(|w: Seq<char>| ov.contains(w) == inside).len(),
            count <= i,
        decreases n - i,
    {
        let ghost t = vv.take((i + 1) as int);
        assert(t.drop_last() =~= vv.take(i as int));
        assert(t.last() == v@[i as int]@);
        proof {
            reveal_with_fuel(Seq::filter, 1);
        }
        if contains_word(other, v[i].as_slice()) == inside {
            count = count + 1;
        }
        i = i + 1;
    }
    assert(vv.take(n as int) =~= vv);
    count
}

/// The Jaccard terms of two outputs (see [`jaccard_terms`]).
fn jaccard_terms_exec(a: &str, b: &str) -> (r: (u128, u128))
    ensures
        (r.0 as nat, r.1 as nat) == jaccard_terms(a@, b@),
        r.0 <= r.1,
        r.1 <= 2 * (usize::MAX as int),
{
    let ua = distinct_words(a);
    let ub = distinct_words(b);
    let inter = count_filtered(&ua, &ub, true);
    let only_b = count_filtered(&ub, &ua, false);
    proof {
        let f1 = |w: Seq<char>| views(ub@).contains(w) == true;
        let g1 = |w: Seq<char>| views(ub@).contains(w);
        assert(f1 =~= g1);
        let f2 = |w: Seq<char>| views(ua@).contains(w) == false;
        let g2 = |w: Seq<char>| !views(ua@).contains(w);
        assert(f2 =~= g2);
        lemma_filter_len_bound(views(ub@), g2);
        lemma_filter_len_bound(views(ua@), g1);
    }
    (inter as u128, ua.len() as u128 + only_b as u128)
}

proof fn lemma_filter_len_bound(s: Seq<Seq<char>>, f: spec_fn(Seq<char>) -> bool)
    ensures
        s.filter(f).len() <= s.len(),
    decreases s.len(),
{
    reveal_with_fuel(Seq::filter, 1);
    if s.len() > 0 {
        lemma_filter_len_bound(s.drop_last(), f);
    }
}

/// The text a call's observable outcome is digested from: the tool name
/// (with its length), the success flag and the output.
pub open spec fn outcome_text(name: Seq<char>, success: bool, output: Seq<char>) -> Seq<char> {
    enc_text(name) + seq![if success { '1' } else { '0' }] + output
}

/// The digest of a call's observable outcome.
fn outcome_digest(name: &str, success: bool, output: &str) -> (r: u64)
    ensures
        r == text_hash(outcome_text(name@, success, output@)),
{
    let mut out: Vec<char> = Vec::new();
    let cs = chars_of(name);
    push_all(&mut out, decimal_exec(cs.len() as u64).as_slice());
    out.push(':');
    push_all(&mut out, cs.as_slice());
    out.push(if success { '1' } else { '0' });
    push_all(&mut out, chars_of(output).as_slice());
    assert(out@ =~= outcome_text(name@, success, output@));
    let text = string_of(out.as_slice());
    digest_text(text.as_str())
}

} // verus!
