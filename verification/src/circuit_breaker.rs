//! Circuit breaker for provider fault isolation.
//!
//! A pure, deterministic state machine used to fail fast when an upstream
//! provider is unhealthy. Time is supplied by the caller as a monotonic
//! millisecond reading, so the breaker has no clock of its own.
//!
//! - `Closed`: healthy; requests flow through. Failures are counted.
//! - `Open`: unhealthy; requests are rejected until the cooldown elapses.
//! - `HalfOpen`: a probationary state; a single probe is allowed. A success
//!   closes the breaker, a failure re-opens it.
use vstd::prelude::*;

verus! {

/// The three states of a [`CircuitBreaker`].
#[derive(Debug, Clone, Copy, PartialEq, Eq, Structural)]
pub enum CircuitBreakerState {
    /// Healthy; requests flow through and failures are counted.
    Closed,
    /// Unhealthy; requests are rejected immediately.
    Open,
    /// Probationary; a single probe request is permitted.
    HalfOpen,
}

/// Mathematical model of a breaker: every field as a plain value.
pub struct CircuitBreakerView {
    pub failure_threshold: u32,
    pub cooldown_ms: u64,
    pub state: CircuitBreakerState,
    pub failure_count: u32,
    pub opened_at_ms: Option<u64>,
}

/// Milliseconds elapsed from `from` to `now`, saturating at zero.
pub open spec fn elapsed_ms(now: u64, from: u64) -> int {
    if now >= from { now - from } else { 0 }
}

impl CircuitBreakerView {
    /// Invariant kept by every operation: an open breaker knows when it opened,
    /// and a closed breaker has not yet reached its threshold (the count only
    /// climbs while closed and trips the breaker when it reaches the threshold).
    pub open spec fn well_formed(self) -> bool {
        &&& (self.state == CircuitBreakerState::Open ==> self.opened_at_ms is Some)
        &&& (self.state == CircuitBreakerState::Closed ==> self.failure_count == 0
            || self.failure_count < self.failure_threshold)
    }

    /// Whether the cooldown has fully elapsed at `now`.
    pub open spec fn cooled_down(self, now: u64) -> bool {
        match self.opened_at_ms {
            Some(at) => elapsed_ms(now, at) >= self.cooldown_ms,
            None => false,
        }
    }

    /// Whether a request may be attempted at `now`.
    pub open spec fn admits(self, now: u64) -> bool {
        match self.state {
            CircuitBreakerState::Closed | CircuitBreakerState::HalfOpen => true,
            CircuitBreakerState::Open => self.cooled_down(now),
        }
    }

    /// The breaker after a successful request.
    pub open spec fn after_success(self) -> CircuitBreakerView {
        CircuitBreakerView {
            state: CircuitBreakerState::Closed,
            failure_count: 0,
            opened_at_ms: None,
            ..self
        }
    }

    /// The breaker after a failed request at `now`.
    pub open spec fn after_failure(self, now: u64) -> CircuitBreakerView {
        match self.state {
            CircuitBreakerState::Closed => {
                let count = (self.failure_count + 1) as u32;
                if count >= self.failure_threshold {
                    CircuitBreakerView {
                        state: CircuitBreakerState::Open,
                        failure_count: count,
                        opened_at_ms: Some(now),
                        ..self
                    }
                } else {
                    CircuitBreakerView { failure_count: count, ..self }
                }
            },
            CircuitBreakerState::HalfOpen => CircuitBreakerView {
                state: CircuitBreakerState::Open,
                opened_at_ms: Some(now),
                ..self
            },
            CircuitBreakerState::Open => self,
        }
    }

    /// The breaker after the clock advances to `now` with no outcome recorded.
    pub open spec fn after_tick(self, now: u64) -> CircuitBreakerView {
        if self.state == CircuitBreakerState::Open && self.cooled_down(now) {
            CircuitBreakerView { state: CircuitBreakerState::HalfOpen, ..self }
        } else {
            self
        }
    }
}

/// A circuit breaker that isolates an unhealthy upstream provider.
#[derive(Debug)]
pub struct CircuitBreaker {
    failure_threshold: u32,
    cooldown_ms: u64,
    state: CircuitBreakerState,
    failure_count: u32,
    opened_at_ms: Option<u64>,
}

impl View for CircuitBreaker {
    type V = CircuitBreakerView;

    closed spec fn view(&self) -> CircuitBreakerView {
        CircuitBreakerView {
            failure_threshold: self.failure_threshold,
            cooldown_ms: self.cooldown_ms,
            state: self.state,
            failure_count: self.failure_count,
            opened_at_ms: self.opened_at_ms,
        }
    }
}

impl CircuitBreaker {
    #[verifier::type_invariant]
    spec fn inv(self) -> bool {
        self@.well_formed()
    }

    /// A copy of this breaker.
    pub fn clone(&self) -> (c: Self)
        ensures
            c@ == self@,
    {
        proof {
            use_type_invariant(self);
        }
        CircuitBreaker {
            failure_threshold: self.failure_threshold,
            cooldown_ms: self.cooldown_ms,
            state: self.state,
            failure_count: self.failure_count,
            opened_at_ms: self.opened_at_ms,
        }
    }

    /// Creates a new closed breaker with the given threshold and cooldown.
    pub fn new(failure_threshold: u32, cooldown_ms: u64) -> (cb: Self)
        ensures
            cb@ == (CircuitBreakerView {
                failure_threshold,
                cooldown_ms,
                state: CircuitBreakerState::Closed,
                failure_count: 0,
                opened_at_ms: None,
            }),
    {
        CircuitBreaker {
            failure_threshold,
            cooldown_ms,
            state: CircuitBreakerState::Closed,
            failure_count: 0,
            opened_at_ms: None,
        }
    }

    /// Returns the current state.
    pub fn state(&self) -> (s: CircuitBreakerState)
        ensures
            s == self@.state,
    {
        self.state
    }

    /// Consecutive failures counted so far.
    pub fn failure_count(&self) -> (n: u32)
        ensures
            n == self@.failure_count,
    {
        self.failure_count
    }

    /// Whether the breaker is open and not yet ready to probe at `now_ms`:
    /// exactly when it is open and `can_attempt(now_ms)` rejects.
    pub fn is_open(&self, now_ms: u64) -> (b: bool)
        ensures
            b == (self@.state == CircuitBreakerState::Open && !self@.admits(now_ms)),
    {
        self.state == CircuitBreakerState::Open && !self.can_attempt(now_ms)
    }

    /// Whether a request may be attempted at `now_ms`: always when closed or
    /// half-open; when open, only once the cooldown has elapsed.
    pub fn can_attempt(&self, now_ms: u64) -> (b: bool)
        ensures
            b == self@.admits(now_ms),
    {
        match self.state {
            CircuitBreakerState::Closed | CircuitBreakerState::HalfOpen => true,
            CircuitBreakerState::Open => match self.opened_at_ms {
                Some(opened_at) => now_ms.saturating_sub(opened_at) >= self.cooldown_ms,
                None => false,
            },
        }
    }

    /// Records a successful request: the breaker closes and the count resets.
    pub fn record_success(&mut self)
        ensures
            final(self)@ == old(self)@.after_success(),
    {
        *self = CircuitBreaker {
            failure_threshold: self.failure_threshold,
            cooldown_ms: self.cooldown_ms,
            state: CircuitBreakerState::Closed,
            failure_count: 0,
            opened_at_ms: None,
        };
    }

    /// Records a failed request at `now_ms`.
    pub fn record_failure(&mut self, now_ms: u64)
        ensures
            final(self)@ == old(self)@.after_failure(now_ms),
    {
        proof {
            use_type_invariant(&*self);
        }
        match self.state {
            CircuitBreakerState::Closed => {
                let count = self.failure_count + 1;
                if count >= self.failure_threshold {
                    *self = CircuitBreaker {
                        failure_threshold: self.failure_threshold,
                        cooldown_ms: self.cooldown_ms,
                        state: CircuitBreakerState::Open,
                        failure_count: count,
                        opened_at_ms: Some(now_ms),
                    };
                } else {
                    *self = CircuitBreaker {
                        failure_threshold: self.failure_threshold,
                        cooldown_ms: self.cooldown_ms,
                        state: CircuitBreakerState::Closed,
                        failure_count: count,
                        opened_at_ms: self.opened_at_ms,
                    };
                }
            },
            CircuitBreakerState::HalfOpen => {
                *self = CircuitBreaker {
                    failure_threshold: self.failure_threshold,
                    cooldown_ms: self.cooldown_ms,
                    state: CircuitBreakerState::Open,
                    failure_count: self.failure_count,
                    opened_at_ms: Some(now_ms),
                };
            },
            CircuitBreakerState::Open => {},
        }
    }

    /// Moves `Open` to `HalfOpen` once the cooldown has elapsed at `now_ms`;
    /// returns the state afterwards.
    pub fn tick(&mut self, now_ms: u64) -> (s: CircuitBreakerState)
        ensures
            final(self)@ == old(self)@.after_tick(now_ms),
            s == final(self)@.state,
    {
        if self.state == CircuitBreakerState::Open {
            if let Some(opened_at) = self.opened_at_ms {
                if now_ms.saturating_sub(opened_at) >= self.cooldown_ms {
                    *self = CircuitBreaker {
                        failure_threshold: self.failure_threshold,
                        cooldown_ms: self.cooldown_ms,
                        state: CircuitBreakerState::HalfOpen,
                        failure_count: self.failure_count,
                        opened_at_ms: self.opened_at_ms,
                    };
                }
            }
        }
        self.state
    }
}

/// `n` consecutive failures recorded at `now`.
pub open spec fn failures(v: CircuitBreakerView, now: u64, n: nat) -> CircuitBreakerView
    decreases n,
{
    if n == 0 {
        v
    } else {
        failures(v, now, (n - 1) as nat).after_failure(now)
    }
}

/// Every operation keeps the breaker's invariant.
pub proof fn law_operations_preserve_well_formed(v: CircuitBreakerView, now: u64)
    requires
        v.well_formed(),
    ensures
        v.after_success().well_formed(),
        v.after_failure(now).well_formed(),
        v.after_tick(now).well_formed(),
{
}

/// Any success, in any state, closes the breaker with a zero count, so a full
/// new threshold of failures is needed to trip it again.
pub proof fn law_success_always_closes(v: CircuitBreakerView)
    ensures
        v.after_success().state == CircuitBreakerState::Closed,
        v.after_success().failure_count == 0,
        v.after_success().opened_at_ms is None,
{
}

/// From a freshly closed breaker with threshold `t > 0`, fewer than `t`
/// consecutive failures keep it closed (counting them), and exactly `t`
/// failures trip it open at the time of the last failure.
pub proof fn law_consecutive_failures_trip_at_threshold(v: CircuitBreakerView, now: u64, n: nat)
    requires
        v.state == CircuitBreakerState::Closed,
        v.failure_count == 0,
        v.failure_threshold > 0,
        n <= v.failure_threshold,
    ensures
        n < v.failure_threshold ==> failures(v, now, n).state == CircuitBreakerState::Closed
            && failures(v, now, n).failure_count == n,
        n == v.failure_threshold ==> failures(v, now, n).state == CircuitBreakerState::Open
            && failures(v, now, n).opened_at_ms == Some(now),
        failures(v, now, n).failure_threshold == v.failure_threshold,
    decreases n,
{
    if n > 0 {
        law_consecutive_failures_trip_at_threshold(v, now, (n - 1) as nat);

    }
}

/// An open breaker rejects requests until the cooldown has elapsed since it
/// opened, and admits them from then on.
pub proof fn law_open_admits_exactly_after_cooldown(v: CircuitBreakerView, now: u64)
    requires
        v.well_formed(),
        v.state == CircuitBreakerState::Open,
    ensures
        v.admits(now) <==> elapsed_ms(now, v.opened_at_ms->0) >= v.cooldown_ms,
{
}

/// Failures while open are ignored; in particular the cooldown clock keeps
/// running from the original opening time.
pub proof fn law_failure_while_open_is_ignored(v: CircuitBreakerView, now: u64)
    requires
        v.state == CircuitBreakerState::Open,
    ensures
        v.after_failure(now) == v,
{
}

/// A failure during the half-open probe re-opens the breaker at once, with the
/// cooldown restarting at the failure time.
pub proof fn law_half_open_failure_reopens(v: CircuitBreakerView, now: u64)
    requires
        v.state == CircuitBreakerState::HalfOpen,
    ensures
        v.after_failure(now).state == CircuitBreakerState::Open,
        v.after_failure(now).opened_at_ms == Some(now),
        !v.after_failure(now).admits(now) <==> v.cooldown_ms > 0,
{
}

/// Ticking agrees with `can_attempt`: after a tick at `now` the breaker is
/// still open exactly when it did not admit a request at `now`; ticking twice
/// at the same time is the same as ticking once.
pub proof fn law_tick_matches_admission(v: CircuitBreakerView, now: u64)
    requires
        v.well_formed(),
    ensures
        (v.after_tick(now).state == CircuitBreakerState::Open) <==> !v.admits(now),
        v.after_tick(now).after_tick(now) == v.after_tick(now),
        v.after_tick(now).admits(now) == v.admits(now),
{
}

} // verus!
