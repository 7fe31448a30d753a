//! Scoring a fleet task's result against its scorer. The evidence comes
//! from outside: whether the expected file exists, what reading the
//! evidence file gave, and, for a JSON path scorer, what parsing it gave.
use crate::fleet::executor::signed_decimal;
use crate::fleet::task_checks::{json_lookup_spec, json_path_lookup, json_path_segments, json_path_segments_spec, json_truthy, strs_view};
use crate::hooks::{regex_accepts, regex_is_match};
use crate::json::JsonValue;
use crate::text::{chars_of, decimal_exec, push_all, string_of};
use vstd::prelude::*;

verus! {

/// Which side a failure is blamed on.
#[derive(Debug, Clone, Copy, PartialEq, Eq, Structural)]
pub enum FailureKind {
    /// The task's own work fell short.
    Task,
    /// The worker's transport reported no process result.
    Transport,
    /// The scorer itself could not do its job.
    Verifier,
}

/// The verdict on a task.
#[derive(Debug, Clone, Copy, PartialEq, Eq, Structural)]
pub enum TaskResult {
    Pass,
    Fail,
    Partial,
}

/// The verdict with its score and evidence. The score is out of 1: 1 for a
/// pass, 0 for a failure, 1/2 for a partial result; it is kept as a number
/// of halves.
#[derive(Debug, Clone, PartialEq, Eq)]
pub struct TaskVerification {
    pub result: TaskResult,
    pub failure_kind: Option<FailureKind>,
    /// The score in halves: 2, 0 or 1.
    pub score_halves: u8,
    /// The score's notes.
    pub notes: String,
    /// The evidence behind the verdict.
    pub evidence: String,
}

/// Model of a [`TaskVerification`].
pub struct TaskVerificationView {
    pub result: TaskResult,
    pub failure_kind: Option<FailureKind>,
    pub score_halves: u8,
    pub notes: Seq<char>,
    pub evidence: Seq<char>,
}

impl View for TaskVerification {
    type V = TaskVerificationView;

    open spec fn view(&self) -> TaskVerificationView {
        TaskVerificationView {
            result: self.result,
            failure_kind: self.failure_kind,
            score_halves: self.score_halves,
            notes: self.notes@,
            evidence: self.evidence@,
        }
    }
}

/// How a task's result is scored.
#[derive(Debug, Clone, PartialEq, Eq)]
pub enum ScorerSpec {
    /// By the worker's exit code.
    ExitCode,
    /// By whether a file exists.
    FileExists { path: String },
    /// By whether a regular expression matches a file's text.
    RegexMatch { path: String, pattern: String },
    /// By whether a `$.a.b` path in a JSON file holds a true value.
    JsonPath { path: String, expression: String },
    /// By an external command, run elsewhere.
    Command { command: String },
    /// By a verifier prompt, run elsewhere.
    VerifierPrompt,
    /// By hand.
    Manual,
}

/// Model of a [`ScorerSpec`].
pub enum ScorerView {
    ExitCode,
    FileExists { path: Seq<char> },
    RegexMatch { path: Seq<char>, pattern: Seq<char> },
    JsonPath { path: Seq<char>, expression: Seq<char> },
    Command { command: Seq<char> },
    VerifierPrompt,
    Manual,
}

impl View for ScorerSpec {
    type V = ScorerView;

    open spec fn view(&self) -> ScorerView {
        match self {
            ScorerSpec::ExitCode => ScorerView::ExitCode,
            ScorerSpec::FileExists { path } => ScorerView::FileExists { path: path@ },
            ScorerSpec::RegexMatch { path, pattern } => ScorerView::RegexMatch { path: path@, pattern: pattern@ },
            ScorerSpec::JsonPath { path, expression } => ScorerView::JsonPath {
                path: path@,
                expression: expression@,
            },
            ScorerSpec::Command { command } => ScorerView::Command { command: command@ },
            ScorerSpec::VerifierPrompt => ScorerView::VerifierPrompt,
            ScorerSpec::Manual => ScorerView::Manual,
        }
    }
}

/// What reading a scorer's evidence file gave.
#[derive(Debug, Clone, PartialEq, Eq)]
pub enum EvidenceRead {
    /// Its text.
    Text(String),
    /// It could not be read: whom that is blamed on, and why.
    Unreadable { kind: FailureKind, evidence: String },
}

/// Model of an [`EvidenceRead`].
pub enum EvidenceView {
    Text(Seq<char>),
    Unreadable { kind: FailureKind, evidence: Seq<char> },
}

impl View for EvidenceRead {
    type V = EvidenceView;

    open spec fn view(&self) -> EvidenceView {
        match self {
            EvidenceRead::Text(t) => EvidenceView::Text(t@),
            EvidenceRead::Unreadable { kind, evidence } => EvidenceView::Unreadable {
                kind: *kind,
                evidence: evidence@,
            },
        }
    }
}

/// What `regex::Regex::new(pattern)` reports when `pattern` does not
/// compile (its error's text); `None` when it compiles.
pub uninterp spec fn regex_error(pattern: Seq<char>) -> Option<Seq<char>>;

/// Compiles `pattern` with `regex::Regex::new` and gives the error's text
/// when that fails; the outcome depends on `pattern` alone.
#[verifier::external_body]
fn regex_compile_error(pattern: &str) -> (r: Option<String>)
    ensures
        match r {
            Some(e) => regex_error(pattern@) == Some(e@),
            None => regex_error(pattern@) is None,
        },
{
    match regex::Regex::new(pattern) {
        Ok(_) => None,
        Err(e) => Some(e.to_string()),
    }
}

/// A pass, with `evidence` as its notes too.
pub open spec fn pass_v(evidence: Seq<char>) -> TaskVerificationView {
    TaskVerificationView {
        result: TaskResult::Pass,
        failure_kind: None,
        score_halves: 2,
        notes: evidence,
        evidence,
    }
}

/// A failure blamed on `kind`.
pub open spec fn fail_v(kind: FailureKind, evidence: Seq<char>, notes: Seq<char>) -> TaskVerificationView {
    TaskVerificationView {
        result: TaskResult::Fail,
        failure_kind: Some(kind),
        score_halves: 0,
        notes,
        evidence,
    }
}

/// A partial result.
pub open spec fn partial_v(evidence: Seq<char>, notes: Seq<char>) -> TaskVerificationView {
    TaskVerificationView {
        result: TaskResult::Partial,
        failure_kind: None,
        score_halves: 1,
        notes,
        evidence,
    }
}

/// The verdict for a task with `scorer`, given the worker's exit code,
/// whether it recorded an artifact that can be checked, whether the file
/// a file scorer expects exists, what reading the evidence file of a regex
/// or JSON path scorer gave, and, for a JSON path scorer, what parsing that
/// text as JSON gave (the parse error's text on failure).
pub open spec fn score_spec(
    scorer: Option<ScorerView>,
    exit_code: Option<i32>,
    has_artifacts: bool,
    file_present: bool,
    read: EvidenceView,
    parsed: Result<JsonValue, Seq<char>>,
) -> TaskVerificationView {
    match scorer {
        Some(ScorerView::ExitCode) => match exit_code {
            Some(0) => pass_v("exit_code=0"@),
            Some(code) => fail_v(
                FailureKind::Task,
                "exit_code="@ + signed_decimal(code as int),
                "worker task exited unsuccessfully"@,
            ),
            None => fail_v(
                FailureKind::Transport,
                "missing exit code"@,
                "worker transport did not report a process result"@,
            ),
        },
        Some(ScorerView::FileExists { path }) => if file_present {
            pass_v("file exists: "@ + path)
        } else {
            fail_v(FailureKind::Task, "missing file: "@ + path, "expected artifact file was not produced"@)
        },
        Some(ScorerView::RegexMatch { path, pattern }) => match regex_error(pattern) {
            Some(e) => fail_v(FailureKind::Verifier, "invalid regex: "@ + e, "regex scorer could not be compiled"@),
            None => match read {
                EvidenceView::Unreadable { kind, evidence } => fail_v(
                    kind,
                    evidence,
                    "regex scorer could not read bounded evidence"@,
                ),
                EvidenceView::Text(t) => if regex_accepts(pattern, t) {
                    pass_v("regex matched "@ + path + ": "@ + pattern)
                } else {
                    fail_v(
                        FailureKind::Task,
                        "regex did not match "@ + path + ": "@ + pattern,
                        "worker output did not satisfy the regex scorer"@,
                    )
                },
            },
        },
        Some(ScorerView::JsonPath { path, expression }) => match json_path_segments_spec(expression) {
            None => fail_v(
                FailureKind::Verifier,
                "unsupported JSON path expression: "@ + expression,
                "json_path scorer supports $.field or .field paths"@,
            ),
            Some(segments) => match read {
                EvidenceView::Unreadable { kind, evidence } => fail_v(
                    kind,
                    evidence,
                    "json_path scorer could not read bounded evidence"@,
                ),
                EvidenceView::Text(_) => match parsed {
                    Err(e) => fail_v(
                        FailureKind::Task,
                        "invalid JSON in "@ + path + ": "@ + e,
                        "worker artifact was not valid JSON"@,
                    ),
                    Ok(v) => match json_lookup_spec(v, segments) {
                        Some(found) => if !(found is Null || found == JsonValue::Bool(false)) {
                            pass_v("json_path matched "@ + path + ": "@ + expression)
                        } else {
                            fail_v(
                                FailureKind::Task,
                                "json_path missing or false in "@ + path + ": "@ + expression,
                                "worker JSON artifact did not satisfy the scorer"@,
                            )
                        },
                        None => fail_v(
                            FailureKind::Task,
                            "json_path missing or false in "@ + path + ": "@ + expression,
                            "worker JSON artifact did not satisfy the scorer"@,
                        ),
                    },
                },
            },
        },
        Some(ScorerView::Command { command }) => partial_v(
            "external scorer command configured: "@ + command,
            "run the configured scorer command to finalize this receipt"@,
        ),
        Some(ScorerView::VerifierPrompt) => partial_v(
            "mimofan verifier prompt configured"@,
            "run a verifier prompt pass to finalize this receipt"@,
        ),
        Some(ScorerView::Manual) => partial_v(
            "manual scorer configured"@,
            "manual verification is required to finalize this receipt"@,
        ),
        None => if !has_artifacts {
            partial_v(
                "no scorer configured and no verifiable artifacts recorded"@,
                "worker exited successfully but produced no verifiable output"@,
            )
        } else {
            partial_v("no scorer configured"@, "task has artifacts but no deterministic scorer"@)
        },
    }
}

/// The model of an optional scorer.
pub open spec fn opt_scorer(s: Option<ScorerSpec>) -> Option<ScorerView> {
    match s {
        Some(x) => Some(x@),
        None => None,
    }
}

/// The model of a JSON parse outcome.
pub open spec fn parse_view(p: Result<JsonValue, String>) -> Result<JsonValue, Seq<char>> {
    match p {
        Ok(v) => Ok(v),
        Err(e) => Err(e@),
    }
}

fn pass(evidence: String) -> (r: TaskVerification)
    ensures
        r@ == pass_v(evidence@),
{
    TaskVerification {
        result: TaskResult::Pass,
        failure_kind: None,
        score_halves: 2,
        notes: evidence.clone(),
        evidence,
    }
}

fn fail(kind: FailureKind, evidence: String, notes: &str) -> (r: TaskVerification)
    ensures
        r@ == fail_v(kind, evidence@, notes@),
{
    TaskVerification {
        result: TaskResult::Fail,
        failure_kind: Some(kind),
        score_halves: 0,
        notes: string_of(chars_of(notes).as_slice()),
        evidence,
    }
}

fn partial(evidence: String, notes: &str) -> (r: TaskVerification)
    ensures
        r@ == partial_v(evidence@, notes@),
{
    TaskVerification {
        result: TaskResult::Partial,
        failure_kind: None,
        score_halves: 1,
        notes: string_of(chars_of(notes).as_slice()),
        evidence,
    }
}

fn owned(s: &str) -> (r: String)
    ensures
        r@ == s@,
{
    string_of(chars_of(s).as_slice())
}

fn two(a: &str, b: &str) -> (r: String)
    ensures
        r@ == a@ + b@,
{
    let mut out = chars_of(a);
    push_all(&mut out, chars_of(b).as_slice());
    string_of(out.as_slice())
}

fn four(a: &str, b: &str, c: &str, d: &str) -> (r: String)
    ensures
        r@ == a@ + b@ + c@ + d@,
{
    let mut out = chars_of(a);
    push_all(&mut out, chars_of(b).as_slice());
    push_all(&mut out, chars_of(c).as_slice());
    push_all(&mut out, chars_of(d).as_slice());
    string_of(out.as_slice())
}

/// Scores a task's result (see [`score_spec`]).
pub fn score_task_result(
    scorer: &Option<ScorerSpec>,
    exit_code: Option<i32>,
    has_artifacts: bool,
    file_present: bool,
    read: &EvidenceRead,
    parsed: &Result<JsonValue, String>,
) -> (r: TaskVerification)
    ensures
        r@ == score_spec(opt_scorer(*scorer), exit_code, has_artifacts, file_present, read@, parse_view(*parsed)),
{
    match scorer {
        Some(ScorerSpec::ExitCode) => match exit_code {
            Some(0) => pass(owned("exit_code=0")),
            Some(code) => {
                let mut out: Vec<char> = chars_of("exit_code=");
                if code < 0 {
                    out.push('-');
                    let magnitude = (0i64 - code as i64) as u64;
                    push_all(&mut out, decimal_exec(magnitude).as_slice());
                } else {
                    push_all(&mut out, decimal_exec(code as u64).as_slice());
                }
                assert(out@ =~= "exit_code="@ + signed_decimal(code as int));
                fail(FailureKind::Task, string_of(out.as_slice()), "worker task exited unsuccessfully")
            },
            None => fail(
                FailureKind::Transport,
                owned("missing exit code"),
                "worker transport did not report a process result",
            ),
        },
        Some(ScorerSpec::FileExists { path }) => {
            if file_present {
                pass(two("file exists: ", path.as_str()))
            } else {
                fail(FailureKind::Task, two("missing file: ", path.as_str()), "expected artifact file was not produced")
            }
        },
        Some(ScorerSpec::RegexMatch { path, pattern }) => {
            match regex_compile_error(pattern.as_str()) {
                Some(e) => fail(
                    FailureKind::Verifier,
                    two("invalid regex: ", e.as_str()),
                    "regex scorer could not be compiled",
                ),
                None => match read {
                    EvidenceRead::Unreadable { kind, evidence } => fail(
                        *kind,
                        evidence.clone(),
                        "regex scorer could not read bounded evidence",
                    ),
                    EvidenceRead::Text(t) => {
                        if regex_is_match(pattern.as_str(), t.as_str()) {
                            pass(four("regex matched ", path.as_str(), ": ", pattern.as_str()))
                        } else {
                            fail(
                                FailureKind::Task,
                                four("regex did not match ", path.as_str(), ": ", pattern.as_str()),
                                "worker output did not satisfy the regex scorer",
                            )
                        }
                    },
                },
            }
        },
        Some(ScorerSpec::JsonPath { path, expression }) => {
            match json_path_segments(expression.as_str()) {
                None => fail(
                    FailureKind::Verifier,
                    two("unsupported JSON path expression: ", expression.as_str()),
                    "json_path scorer supports $.field or .field paths",
                ),
                Some(segments) => match read {
                    EvidenceRead::Unreadable { kind, evidence } => fail(
                        *kind,
                        evidence.clone(),
                        "json_path scorer could not read bounded evidence",
                    ),
                    EvidenceRead::Text(_) => match parsed {
                        Err(e) => fail(
                            FailureKind::Task,
                            four("invalid JSON in ", path.as_str(), ": ", e.as_str()),
                            "worker artifact was not valid JSON",
                        ),
                        Ok(v) => {
                            let found = match json_path_lookup(v, segments.as_slice()) {
                                Some(f) => json_truthy(f),
                                None => false,
                            };
                            if found {
                                pass(four("json_path matched ", path.as_str(), ": ", expression.as_str()))
                            } else {
                                fail(
                                    FailureKind::Task,
                                    four("json_path missing or false in ", path.as_str(), ": ", expression.as_str()),
                                    "worker JSON artifact did not satisfy the scorer",
                                )
                            }
                        },
                    },
                },
            }
        },
        Some(ScorerSpec::Command { command }) => partial(
            two("external scorer command configured: ", command.as_str()),
            "run the configured scorer command to finalize this receipt",
        ),
        Some(ScorerSpec::VerifierPrompt) => partial(
            owned("mimofan verifier prompt configured"),
            "run a verifier prompt pass to finalize this receipt",
        ),
        Some(ScorerSpec::Manual) => partial(
            owned("manual scorer configured"),
            "manual verification is required to finalize this receipt",
        ),
        None => {
            if !has_artifacts {
                partial(
                    owned("no scorer configured and no verifiable artifacts recorded"),
                    "worker exited successfully but produced no verifiable output",
                )
            } else {
                partial(owned("no scorer configured"), "task has artifacts but no deterministic scorer")
            }
        },
    }
}

/// The exit-code scorer passes a task exactly when the worker exited with
/// status 0, with the full score and no one blamed. Any other exit status
/// fails it, blamed on the task, with a score of 0 and the status in the
/// evidence; no exit status at all is a failure blamed on the transport.
/// Nothing but the exit status decides.
pub proof fn law_exit_code_scorer(
    exit_code: Option<i32>,
    has_artifacts: bool,
    file_present: bool,
    read: EvidenceView,
    parsed: Result<JsonValue, Seq<char>>,
    other_artifacts: bool,
    other_file_present: bool,
    other_read: EvidenceView,
    other_parsed: Result<JsonValue, Seq<char>>,
)
    ensures
        ({
            let v = score_spec(Some(ScorerView::ExitCode), exit_code, has_artifacts, file_present, read, parsed);
            &&& (v.result == TaskResult::Pass) <==> exit_code == Some(0i32)
            &&& v.result == TaskResult::Pass ==> v.score_halves == 2 && v.failure_kind is None
                && v.evidence == "exit_code=0"@
            &&& exit_code is Some && exit_code->0 != 0 ==> v.result == TaskResult::Fail
                && v.failure_kind == Some(FailureKind::Task) && v.score_halves == 0 && v.evidence
                == "exit_code="@ + signed_decimal(exit_code->0 as int) && v.notes
                == "worker task exited unsuccessfully"@
            &&& exit_code is None ==> v.result == TaskResult::Fail && v.failure_kind == Some(
                FailureKind::Transport,
            ) && v.score_halves == 0 && v.evidence == "missing exit code"@
            &&& v == score_spec(
                Some(ScorerView::ExitCode),
                exit_code,
                other_artifacts,
                other_file_present,
                other_read,
                other_parsed,
            )
        }),
{
}

} // verus!
