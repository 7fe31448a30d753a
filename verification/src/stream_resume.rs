//! Stream resumption for interrupted LLM streaming responses.
//!
//! [`StreamResume`] is a pure state tracker: it records how much content has
//! already been received (a byte cursor) and, after an interruption, yields
//! the continuation parameters a provider needs to resume: the offset to
//! resume from and an exponential backoff. Durations are microseconds.
use vstd::prelude::*;

verus! {

/// Cap on the reconnect backoff: 60 seconds, in microseconds.
pub const MAX_BACKOFF_MICROS: u64 = 60_000_000;

/// Status of a resumable stream.
#[derive(Debug, Clone, Copy, PartialEq, Eq, Structural)]
pub enum StreamResumeState {
    /// Actively receiving tokens.
    Active,
    /// The stream was interrupted and a reconnect is required.
    Interrupted,
    /// The stream completed successfully and is no longer resumable.
    Completed,
}

/// Continuation parameters returned when resuming an interrupted stream.
#[derive(Debug, Clone, PartialEq, Eq, Structural)]
pub struct StreamResumePoint {
    /// Offset (in bytes) from which the provider should resume delivery.
    pub resume_offset: u64,
    /// How long the caller should wait before reconnecting, in microseconds.
    pub backoff_micros: u64,
    /// Zero-based index of this reconnect attempt.
    pub attempt: u32,
}

/// `2^n`.
pub open spec fn two_pow(n: nat) -> nat
    decreases n,
{
    if n == 0 { 1 } else { 2 * two_pow((n - 1) as nat) }
}

/// `2^n`, saturating at `u64::MAX`.
pub open spec fn saturating_two_pow(n: nat) -> nat {
    if two_pow(n) > u64::MAX { u64::MAX as nat } else { two_pow(n) }
}

/// Exponential backoff `base * 2^attempt` (the factor saturating at
/// `u64::MAX`), capped at 60 seconds.
pub open spec fn backoff_spec(base_micros: u64, attempt: nat) -> nat {
    let product = base_micros * saturating_two_pow(attempt);
    if product > MAX_BACKOFF_MICROS { MAX_BACKOFF_MICROS as nat } else { product as nat }
}

proof fn lemma_two_pow_monotone(i: nat, j: nat)
    requires
        i <= j,
    ensures
        two_pow(i) <= two_pow(j),
    decreases j - i,
{
    if i < j {
        lemma_two_pow_monotone(i, (j - 1) as nat);
    }
}

/// Mathematical model of a tracker.
pub struct StreamResumeView {
    pub received_bytes: u64,
    pub state: StreamResumeState,
    pub reconnect_attempts: u32,
    pub base_backoff_micros: u64,
    pub max_reconnect_attempts: u32,
}

impl StreamResumeView {
    /// Attempts never exceed the configured maximum.
    pub open spec fn well_formed(self) -> bool {
        self.reconnect_attempts <= self.max_reconnect_attempts
    }

    pub open spec fn resumable(self) -> bool {
        self.state == StreamResumeState::Interrupted
            && self.reconnect_attempts < self.max_reconnect_attempts
    }

    pub open spec fn after_received(self, bytes: u64) -> StreamResumeView {
        StreamResumeView {
            received_bytes: if self.received_bytes + bytes > u64::MAX {
                u64::MAX
            } else {
                (self.received_bytes + bytes) as u64
            },
            reconnect_attempts: 0,
            state: if self.state == StreamResumeState::Completed {
                StreamResumeState::Completed
            } else {
                StreamResumeState::Active
            },
            ..self
        }
    }

    pub open spec fn after_interrupt(self) -> StreamResumeView {
        if self.state != StreamResumeState::Completed {
            StreamResumeView { state: StreamResumeState::Interrupted, ..self }
        } else {
            self
        }
    }

    pub open spec fn after_complete(self) -> StreamResumeView {
        StreamResumeView { state: StreamResumeState::Completed, ..self }
    }

    /// What a resume request yields, and the tracker afterwards.
    pub open spec fn resume(self) -> (StreamResumeView, Option<StreamResumePoint>) {
        if self.resumable() {
            (
                StreamResumeView { reconnect_attempts: (self.reconnect_attempts + 1) as u32, ..self },
                Some(StreamResumePoint {
                    resume_offset: self.received_bytes,
                    backoff_micros: backoff_spec(
                        self.base_backoff_micros,
                        self.reconnect_attempts as nat,
                    ) as u64,
                    attempt: self.reconnect_attempts,
                }),
            )
        } else {
            (self, None)
        }
    }
}

/// A pure tracker for resuming an interrupted LLM token stream.
#[derive(Debug)]
pub struct StreamResume {
    received_bytes: u64,
    state: StreamResumeState,
    reconnect_attempts: u32,
    base_backoff_micros: u64,
    max_reconnect_attempts: u32,
}

impl View for StreamResume {
    type V = StreamResumeView;

    closed spec fn view(&self) -> StreamResumeView {
        StreamResumeView {
            received_bytes: self.received_bytes,
            state: self.state,
            reconnect_attempts: self.reconnect_attempts,
            base_backoff_micros: self.base_backoff_micros,
            max_reconnect_attempts: self.max_reconnect_attempts,
        }
    }
}

impl StreamResume {
    #[verifier::type_invariant]
    spec fn inv(self) -> bool {
        self@.well_formed()
    }

    /// A new tracker for a stream starting from byte zero.
    pub fn new(base_backoff_micros: u64, max_reconnect_attempts: u32) -> (sr: Self)
        ensures
            sr@ == (StreamResumeView {
                received_bytes: 0,
                state: StreamResumeState::Active,
                reconnect_attempts: 0,
                base_backoff_micros,
                max_reconnect_attempts,
            }),
    {
        StreamResume {
            received_bytes: 0,
            state: StreamResumeState::Active,
            reconnect_attempts: 0,
            base_backoff_micros,
            max_reconnect_attempts,
        }
    }

    /// A copy of this tracker.
    pub fn clone(&self) -> (c: Self)
        ensures
            c@ == self@,
    {
        proof {
            use_type_invariant(self);
        }
        StreamResume {
            received_bytes: self.received_bytes,
            state: self.state,
            reconnect_attempts: self.reconnect_attempts,
            base_backoff_micros: self.base_backoff_micros,
            max_reconnect_attempts: self.max_reconnect_attempts,
        }
    }

    /// The current state.
    pub fn state(&self) -> (s: StreamResumeState)
        ensures
            s == self@.state,
    {
        self.state
    }

    /// How many bytes have been received so far.
    pub fn received_bytes(&self) -> (n: u64)
        ensures
            n == self@.received_bytes,
    {
        self.received_bytes
    }

    /// Reconnect attempts made since the last successful delivery.
    pub fn reconnect_attempts(&self) -> (n: u32)
        ensures
            n == self@.reconnect_attempts,
    {
        self.reconnect_attempts
    }

    /// Records newly received content: the cursor advances (saturating), the
    /// attempt counter resets and the stream is active again, unless it has
    /// already completed, which it stays.
    pub fn record_received(&mut self, bytes: u64)
        ensures
            final(self)@ == old(self)@.after_received(bytes),
    {
        let state = if self.state == StreamResumeState::Completed {
            StreamResumeState::Completed
        } else {
            StreamResumeState::Active
        };
        *self = StreamResume {
            received_bytes: self.received_bytes.saturating_add(bytes),
            state,
            reconnect_attempts: 0,
            base_backoff_micros: self.base_backoff_micros,
            max_reconnect_attempts: self.max_reconnect_attempts,
        };
    }

    /// Marks the stream as interrupted; no-op once completed.
    pub fn interrupt(&mut self)
        ensures
            final(self)@ == old(self)@.after_interrupt(),
    {
        proof {
            use_type_invariant(&*self);
        }
        if self.state != StreamResumeState::Completed {
            *self = StreamResume {
                received_bytes: self.received_bytes,
                state: StreamResumeState::Interrupted,
                reconnect_attempts: self.reconnect_attempts,
                base_backoff_micros: self.base_backoff_micros,
                max_reconnect_attempts: self.max_reconnect_attempts,
            };
        }
    }

    /// Marks the stream as completed.
    pub fn complete(&mut self)
        ensures
            final(self)@ == old(self)@.after_complete(),
    {
        proof {
            use_type_invariant(&*self);
        }
        *self = StreamResume {
            received_bytes: self.received_bytes,
            state: StreamResumeState::Completed,
            reconnect_attempts: self.reconnect_attempts,
            base_backoff_micros: self.base_backoff_micros,
            max_reconnect_attempts: self.max_reconnect_attempts,
        };
    }

    /// Whether another reconnect attempt should be made.
    pub fn can_resume(&self) -> (b: bool)
        ensures
            b == self@.resumable(),
    {
        self.state == StreamResumeState::Interrupted
            && self.reconnect_attempts < self.max_reconnect_attempts
    }

    /// The continuation point for a reconnect, or `None` when the stream is not
    /// interrupted or the attempts are exhausted. Each call uses up one attempt.
    pub fn resume_stream(&mut self) -> (p: Option<StreamResumePoint>)
        ensures
            (final(self)@, p) == old(self)@.resume(),
    {
        if !self.can_resume() {
            return None;
        }
        let attempt = self.reconnect_attempts;
        let backoff_micros = compute_backoff(self.base_backoff_micros, attempt);
        proof {
            use_type_invariant(&*self);
        }
        *self = StreamResume {
            received_bytes: self.received_bytes,
            state: self.state,
            reconnect_attempts: self.reconnect_attempts + 1,
            base_backoff_micros: self.base_backoff_micros,
            max_reconnect_attempts: self.max_reconnect_attempts,
        };
        Some(StreamResumePoint { resume_offset: self.received_bytes, backoff_micros, attempt })
    }
}

/// `base * 2^attempt` microseconds, capped at 60 seconds.
pub fn compute_backoff(base_micros: u64, attempt: u32) -> (b: u64)
    ensures
        b == backoff_spec(base_micros, attempt as nat),
{
    let mut factor: u64 = 1;
    let mut i: u32 = 0;
    while i < attempt && factor < u64::MAX
        invariant
            i <= attempt,
            factor == saturating_two_pow(i as nat),
        decreases attempt - i,
    {
        if factor > u64::MAX / 2 {
            factor = u64::MAX;
        } else {
            factor = factor * 2;
        }
        i = i + 1;
    }
    proof {
        if i < attempt {
            lemma_two_pow_monotone(i as nat, attempt as nat);
        }
    }
    assert((base_micros as int) * (factor as int) <= (u64::MAX as int) * (u64::MAX as int))
        by (nonlinear_arith)
        requires base_micros <= u64::MAX, factor <= u64::MAX;
    let micros: u128 = (base_micros as u128) * (factor as u128);
    if micros > MAX_BACKOFF_MICROS as u128 {
        MAX_BACKOFF_MICROS
    } else {
        micros as u64
    }
}

/// Every operation keeps the attempt counter within its bound.
pub proof fn law_operations_preserve_well_formed(v: StreamResumeView, bytes: u64)
    requires
        v.well_formed(),
    ensures
        v.after_received(bytes).well_formed(),
        v.after_interrupt().well_formed(),
        v.after_complete().well_formed(),
        v.resume().0.well_formed(),
{
}

/// The cursor only moves forward: receiving never decreases it, and no other
/// operation touches it; a resume point always resumes at the cursor.
pub proof fn law_cursor_is_monotonic(v: StreamResumeView, bytes: u64)
    ensures
        v.after_received(bytes).received_bytes >= v.received_bytes,
        v.received_bytes + bytes <= u64::MAX ==> v.after_received(bytes).received_bytes
            == v.received_bytes + bytes,
        v.after_interrupt().received_bytes == v.received_bytes,
        v.after_complete().received_bytes == v.received_bytes,
        v.resume().0.received_bytes == v.received_bytes,
        v.resume().1 matches Some(p) ==> p.resume_offset == v.received_bytes,
{
}

/// Once completed, a stream stays completed whatever is received,
/// interrupting or resuming changes nothing, and no resume point is produced.
pub proof fn law_completed_stream_is_not_resumable(v: StreamResumeView, bytes: u64)
    requires
        v.state == StreamResumeState::Completed,
    ensures
        v.after_received(bytes).state == StreamResumeState::Completed,
        !v.after_received(bytes).resumable(),
        v.after_interrupt() == v,
        v.resume() == (v, None::<StreamResumePoint>),
{
}

/// The backoff grows with the attempt number and never exceeds 60 seconds;
/// below the cap each attempt doubles the previous one.
pub proof fn law_backoff_monotonic_and_capped(base: u64, a: nat, b: nat)
    requires
        a <= b,
    ensures
        backoff_spec(base, a) <= backoff_spec(base, b),
        backoff_spec(base, b) <= MAX_BACKOFF_MICROS,
        base * two_pow(a + 1) <= MAX_BACKOFF_MICROS ==> backoff_spec(base, a + 1) == 2
            * backoff_spec(base, a),
{
    lemma_two_pow_monotone(a, b);
    lemma_two_pow_monotone(a, a + 1);
    assert(two_pow(a + 1) == 2 * two_pow(a));
    assert(base * two_pow(a) <= base * two_pow(b)) by (nonlinear_arith)
        requires two_pow(a) <= two_pow(b);
    if base * two_pow(a + 1) <= MAX_BACKOFF_MICROS {
        assert(base * two_pow(a + 1) == 2 * (base * two_pow(a))) by (nonlinear_arith)
            requires two_pow(a + 1) == 2 * two_pow(a);
        if base > 0 {
            assert(two_pow(a + 1) <= base * two_pow(a + 1)) by (nonlinear_arith)
                requires base > 0;
            assert(saturating_two_pow(a + 1) == two_pow(a + 1));
            assert(saturating_two_pow(a) == two_pow(a));
        } else {
            assert(base == 0);
            assert(base * saturating_two_pow(a + 1) == 0) by (nonlinear_arith)
                requires base == 0;
            assert(base * saturating_two_pow(a) == 0) by (nonlinear_arith)
                requires base == 0;
        }
    }
    if saturating_two_pow(a) == u64::MAX && saturating_two_pow(b) == u64::MAX {
    } else if saturating_two_pow(b) == u64::MAX {
        assert(base * saturating_two_pow(a) <= base * saturating_two_pow(b)) by (nonlinear_arith)
            requires saturating_two_pow(a) <= saturating_two_pow(b);
    }
}

/// With the tracker interrupted and `k` attempts still available, resuming
/// yields attempt numbers in order, and once they are used up it yields
/// nothing.
pub proof fn law_resume_uses_each_attempt_once(v: StreamResumeView)
    requires
        v.state == StreamResumeState::Interrupted,
        v.well_formed(),
    ensures
        v.reconnect_attempts < v.max_reconnect_attempts ==> (v.resume().1 matches Some(p)
            && p.attempt == v.reconnect_attempts
            && v.resume().0.reconnect_attempts == v.reconnect_attempts + 1),
        v.reconnect_attempts == v.max_reconnect_attempts ==> v.resume().1 is None,
{
}

} // verus!
