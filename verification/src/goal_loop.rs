//! Goal loop decision core: given the durable goal status, the accumulated
//! usage and a budget, decide whether to continue another turn toward the
//! objective or stop with a terminal reason.
use vstd::prelude::*;

verus! {

/// Default safety cap on continuations per goal run.
pub const DEFAULT_MAX_CONTINUATIONS: u32 = 50;

/// Terminal or active state of a persistent goal.
#[derive(Debug, Clone, Copy, PartialEq, Eq, Structural)]
pub enum GoalRunStatus {
    /// Still working toward the objective.
    Active,
    /// The objective was achieved.
    Completed,
    /// The model reported it is blocked and needs the user.
    Blocked,
}

/// Why the loop stopped, for a terminal decision.
#[derive(Debug, Clone, Copy, PartialEq, Eq, Structural)]
pub enum StopReason {
    /// Objective achieved.
    Completed,
    /// Model reported blocked.
    Blocked,
    /// Token budget exhausted.
    TokenBudget,
    /// Wall-clock budget exhausted.
    TimeBudget,
    /// Continuation cap reached.
    ContinuationLimit,
    /// Anti-drift: too many consecutive turns made no file changes.
    NoProgress,
    /// Anti-drift: the same tool error repeated too many consecutive turns.
    RepeatedError,
}

/// Accumulated, durable progress for a goal run.
#[derive(Debug, Clone, Copy, Default, PartialEq, Eq, Structural)]
pub struct GoalProgress {
    pub tokens_used: u64,
    pub time_used_seconds: u64,
    pub continuations: u32,
    /// Consecutive no-file-change turns.
    pub no_progress_rounds: u32,
    /// Consecutive identical tool-error turns.
    pub repeated_error_rounds: u32,
}

/// The bound on a goal run. `None` fields mean unbounded.
#[derive(Debug, Clone, Copy, PartialEq, Eq, Structural)]
pub struct GoalBudget {
    pub token_budget: Option<u64>,
    pub time_budget_seconds: Option<u64>,
    /// Maximum number of continuations before the loop stops.
    pub max_continuations: Option<u32>,
    /// Stop after this many consecutive no-file-change turns.
    pub no_progress_rounds: Option<u32>,
    /// Stop after this many consecutive identical tool errors.
    pub repeated_error_rounds: Option<u32>,
}

impl GoalBudget {
    /// No token or time budget, with the default continuation cap.
    pub fn unbounded() -> (b: Self)
        ensures
            b == (GoalBudget {
                token_budget: None,
                time_budget_seconds: None,
                max_continuations: Some(DEFAULT_MAX_CONTINUATIONS),
                no_progress_rounds: None,
                repeated_error_rounds: None,
            }),
    {
        GoalBudget {
            token_budget: None,
            time_budget_seconds: None,
            max_continuations: Some(DEFAULT_MAX_CONTINUATIONS),
            no_progress_rounds: None,
            repeated_error_rounds: None,
        }
    }

    /// A token budget with the default continuation cap.
    pub fn with_token_budget(token_budget: u64) -> (b: Self)
        ensures
            b == (GoalBudget {
                token_budget: Some(token_budget),
                time_budget_seconds: None,
                max_continuations: Some(DEFAULT_MAX_CONTINUATIONS),
                no_progress_rounds: None,
                repeated_error_rounds: None,
            }),
    {
        GoalBudget {
            token_budget: Some(token_budget),
            time_budget_seconds: None,
            max_continuations: Some(DEFAULT_MAX_CONTINUATIONS),
            no_progress_rounds: None,
            repeated_error_rounds: None,
        }
    }

    /// Enables the anti-drift circuit breakers with explicit thresholds.
    pub fn with_guardrails(self, no_progress_rounds: Option<u32>, repeated_error_rounds: Option<u32>) -> (b: Self)
        ensures
            b == (GoalBudget { no_progress_rounds, repeated_error_rounds, ..self }),
    {
        GoalBudget { no_progress_rounds, repeated_error_rounds, ..self }
    }
}

/// The decision the loop makes after each worker turn.
#[derive(Debug, Clone, Copy, PartialEq, Eq, Structural)]
pub enum ContinuationDecision {
    /// Re-dispatch another turn toward the objective.
    Continue,
    /// Stop; the goal run is terminal.
    Stop(StopReason),
}

/// Whether an optional limit is set and reached.
pub open spec fn limit_reached_u64(limit: Option<u64>, value: u64) -> bool {
    limit matches Some(max) && value >= max
}

/// Whether an optional limit is set and reached.
pub open spec fn limit_reached_u32(limit: Option<u32>, value: u32) -> bool {
    limit matches Some(max) && value >= max
}

/// The decision, by precedence: a terminal model status, then the
/// continuation cap, then the token and time budgets, then the anti-drift
/// breakers; otherwise continue.
pub open spec fn decision_spec(
    status: GoalRunStatus,
    progress: GoalProgress,
    budget: GoalBudget,
) -> ContinuationDecision {
    if status == GoalRunStatus::Completed {
        ContinuationDecision::Stop(StopReason::Completed)
    } else if status == GoalRunStatus::Blocked {
        ContinuationDecision::Stop(StopReason::Blocked)
    } else if limit_reached_u32(budget.max_continuations, progress.continuations) {
        ContinuationDecision::Stop(StopReason::ContinuationLimit)
    } else if limit_reached_u64(budget.token_budget, progress.tokens_used) {
        ContinuationDecision::Stop(StopReason::TokenBudget)
    } else if limit_reached_u64(budget.time_budget_seconds, progress.time_used_seconds) {
        ContinuationDecision::Stop(StopReason::TimeBudget)
    } else if limit_reached_u32(budget.no_progress_rounds, progress.no_progress_rounds) {
        ContinuationDecision::Stop(StopReason::NoProgress)
    } else if limit_reached_u32(budget.repeated_error_rounds, progress.repeated_error_rounds) {
        ContinuationDecision::Stop(StopReason::RepeatedError)
    } else {
        ContinuationDecision::Continue
    }
}

/// Decide whether a persistent goal run should continue after a turn.
pub fn decide_continuation(
    status: GoalRunStatus,
    progress: GoalProgress,
    budget: GoalBudget,
) -> (d: ContinuationDecision)
    ensures
        d == decision_spec(status, progress, budget),
{
    match status {
        GoalRunStatus::Completed => return ContinuationDecision::Stop(StopReason::Completed),
        GoalRunStatus::Blocked => return ContinuationDecision::Stop(StopReason::Blocked),
        GoalRunStatus::Active => {},
    }
    if let Some(max) = budget.max_continuations {
        if progress.continuations >= max {
            return ContinuationDecision::Stop(StopReason::ContinuationLimit);
        }
    }
    if let Some(tokens) = budget.token_budget {
        if progress.tokens_used >= tokens {
            return ContinuationDecision::Stop(StopReason::TokenBudget);
        }
    }
    if let Some(secs) = budget.time_budget_seconds {
        if progress.time_used_seconds >= secs {
            return ContinuationDecision::Stop(StopReason::TimeBudget);
        }
    }
    if let Some(max) = budget.no_progress_rounds {
        if progress.no_progress_rounds >= max {
            return ContinuationDecision::Stop(StopReason::NoProgress);
        }
    }
    if let Some(max) = budget.repeated_error_rounds {
        if progress.repeated_error_rounds >= max {
            return ContinuationDecision::Stop(StopReason::RepeatedError);
        }
    }
    ContinuationDecision::Continue
}

/// The loop never decides to stop for the continuation-limit reason when no
/// cap is configured, and a disabled breaker (`None`) never trips, however
/// many rounds have accumulated.
pub proof fn law_disabled_limits_never_trip(status: GoalRunStatus, progress: GoalProgress, budget: GoalBudget)
    ensures
        budget.max_continuations is None ==> decision_spec(status, progress, budget)
            != ContinuationDecision::Stop(StopReason::ContinuationLimit),
        budget.no_progress_rounds is None ==> decision_spec(status, progress, budget)
            != ContinuationDecision::Stop(StopReason::NoProgress),
        budget.repeated_error_rounds is None ==> decision_spec(status, progress, budget)
            != ContinuationDecision::Stop(StopReason::RepeatedError),
        budget.token_budget is None ==> decision_spec(status, progress, budget)
            != ContinuationDecision::Stop(StopReason::TokenBudget),
        budget.time_budget_seconds is None ==> decision_spec(status, progress, budget)
            != ContinuationDecision::Stop(StopReason::TimeBudget),
{
}

/// A terminal model status always ends the run with the matching reason,
/// whatever the progress and budget.
pub proof fn law_terminal_status_wins(progress: GoalProgress, budget: GoalBudget)
    ensures
        decision_spec(GoalRunStatus::Completed, progress, budget) == ContinuationDecision::Stop(
            StopReason::Completed,
        ),
        decision_spec(GoalRunStatus::Blocked, progress, budget) == ContinuationDecision::Stop(
            StopReason::Blocked,
        ),
{
}

/// An active run continues exactly when no configured limit has been reached.
pub proof fn law_continue_iff_under_every_limit(progress: GoalProgress, budget: GoalBudget)
    ensures
        (decision_spec(GoalRunStatus::Active, progress, budget) == ContinuationDecision::Continue)
            <==> (!limit_reached_u32(budget.max_continuations, progress.continuations)
            && !limit_reached_u64(budget.token_budget, progress.tokens_used)
            && !limit_reached_u64(budget.time_budget_seconds, progress.time_used_seconds)
            && !limit_reached_u32(budget.no_progress_rounds, progress.no_progress_rounds)
            && !limit_reached_u32(budget.repeated_error_rounds, progress.repeated_error_rounds)),
{
}

/// More usage can only turn a continue into a stop: if the loop stops at some
/// progress, it also stops for any progress that is at least as large in every
/// counter.
pub proof fn law_stopping_is_monotone_in_progress(p: GoalProgress, q: GoalProgress, budget: GoalBudget)
    requires
        p.tokens_used <= q.tokens_used,
        p.time_used_seconds <= q.time_used_seconds,
        p.continuations <= q.continuations,
        p.no_progress_rounds <= q.no_progress_rounds,
        p.repeated_error_rounds <= q.repeated_error_rounds,
        decision_spec(GoalRunStatus::Active, p, budget) != ContinuationDecision::Continue,
    ensures
        decision_spec(GoalRunStatus::Active, q, budget) != ContinuationDecision::Continue,
{
}

} // verus!
