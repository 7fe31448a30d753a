use mimofan_core::goal_loop::{
    decide_continuation, ContinuationDecision, GoalBudget, GoalProgress, GoalRunStatus,
    StopReason, DEFAULT_MAX_CONTINUATIONS,
};

fn budget(no_progress: Option<u32>, repeated: Option<u32>) -> GoalBudget {
    GoalBudget {
        token_budget: None,
        time_budget_seconds: None,
        max_continuations: Some(DEFAULT_MAX_CONTINUATIONS),
        no_progress_rounds: no_progress,
        repeated_error_rounds: repeated,
    }
}

#[test]
fn continues_when_under_thresholds() {
    let decision = decide_continuation(
        GoalRunStatus::Active,
        GoalProgress { no_progress_rounds: 3, repeated_error_rounds: 1, ..Default::default() },
        budget(Some(8), Some(5)),
    );
    assert_eq!(decision, ContinuationDecision::Continue);
}

#[test]
fn stops_on_no_progress_breaker() {
    let decision = decide_continuation(
        GoalRunStatus::Active,
        GoalProgress { no_progress_rounds: 8, ..Default::default() },
        budget(Some(8), Some(5)),
    );
    assert_eq!(decision, ContinuationDecision::Stop(StopReason::NoProgress));
}

#[test]
fn stops_on_repeated_error_breaker() {
    let decision = decide_continuation(
        GoalRunStatus::Active,
        GoalProgress { repeated_error_rounds: 5, ..Default::default() },
        budget(Some(8), Some(5)),
    );
    assert_eq!(decision, ContinuationDecision::Stop(StopReason::RepeatedError));
}

#[test]
fn stops_on_time_budget_when_wired() {
    let decision = decide_continuation(
        GoalRunStatus::Active,
        GoalProgress { time_used_seconds: 100, ..Default::default() },
        GoalBudget {
            token_budget: None,
            time_budget_seconds: Some(100),
            max_continuations: Some(DEFAULT_MAX_CONTINUATIONS),
            no_progress_rounds: None,
            repeated_error_rounds: None,
        },
    );
    assert_eq!(decision, ContinuationDecision::Stop(StopReason::TimeBudget));
}

#[test]
fn breakers_disabled_when_none() {
    let decision = decide_continuation(
        GoalRunStatus::Active,
        GoalProgress { no_progress_rounds: 99, ..Default::default() },
        budget(None, None),
    );
    assert_eq!(decision, ContinuationDecision::Continue);
}

#[test]
fn terminal_status_and_precedence() {
    let p = GoalProgress { tokens_used: 10, continuations: 60, ..Default::default() };
    assert_eq!(
        decide_continuation(GoalRunStatus::Completed, p, GoalBudget::unbounded()),
        ContinuationDecision::Stop(StopReason::Completed)
    );
    assert_eq!(
        decide_continuation(GoalRunStatus::Blocked, p, GoalBudget::unbounded()),
        ContinuationDecision::Stop(StopReason::Blocked)
    );
    // The continuation cap is checked before the token budget.
    assert_eq!(
        decide_continuation(GoalRunStatus::Active, p, GoalBudget::with_token_budget(5)),
        ContinuationDecision::Stop(StopReason::ContinuationLimit)
    );
    let q = GoalProgress { tokens_used: 5, ..Default::default() };
    assert_eq!(
        decide_continuation(GoalRunStatus::Active, q, GoalBudget::with_token_budget(5)),
        ContinuationDecision::Stop(StopReason::TokenBudget)
    );
    let g = GoalBudget::unbounded().with_guardrails(Some(2), None);
    assert_eq!(g.no_progress_rounds, Some(2));
    assert_eq!(g.max_continuations, Some(DEFAULT_MAX_CONTINUATIONS));
}
