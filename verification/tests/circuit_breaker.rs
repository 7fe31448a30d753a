use mimofan_core::circuit_breaker::{CircuitBreaker, CircuitBreakerState};

const SEC: u64 = 1_000;
const BASE: u64 = 5_000_000;

#[test]
fn closed_breaker_allows_attempts() {
    let now = BASE;
    let cb = CircuitBreaker::new(3, 10 * SEC);
    assert_eq!(cb.state(), CircuitBreakerState::Closed);
    assert!(!cb.is_open(now));
    assert!(cb.can_attempt(now));
}

#[test]
fn consecutive_failures_trip_to_open() {
    let base = BASE;
    let mut cb = CircuitBreaker::new(3, 10 * SEC);
    cb.record_failure(base); // 1
    assert_eq!(cb.state(), CircuitBreakerState::Closed);
    cb.record_failure(base + SEC); // 2
    assert_eq!(cb.state(), CircuitBreakerState::Closed);
    cb.record_failure(base + 2 * SEC); // 3 -> tripped
    assert_eq!(cb.state(), CircuitBreakerState::Open);
    assert!(cb.is_open(base + 2 * SEC));
}

#[test]
fn success_resets_failure_count() {
    let base = BASE;
    let mut cb = CircuitBreaker::new(3, 10 * SEC);
    cb.record_failure(base);
    cb.record_failure(base);
    cb.record_success();
    assert_eq!(cb.state(), CircuitBreakerState::Closed);
    assert_eq!(cb.failure_count(), 0);
    cb.record_failure(base);
    assert_eq!(cb.state(), CircuitBreakerState::Closed);
}

#[test]
fn open_breaker_rejects_before_cooldown() {
    let base = BASE;
    let mut cb = CircuitBreaker::new(1, 10 * SEC);
    cb.record_failure(base);
    assert!(cb.is_open(base + 9 * SEC));
    assert!(!cb.can_attempt(base + 9 * SEC));
}

#[test]
fn open_breaker_probes_after_cooldown() {
    let base = BASE;
    let mut cb = CircuitBreaker::new(1, 10 * SEC);
    cb.record_failure(base);
    let probe_time = base + 11 * SEC;
    assert!(cb.can_attempt(probe_time));
    assert_eq!(cb.tick(probe_time), CircuitBreakerState::HalfOpen);
    assert!(cb.can_attempt(probe_time));
}

#[test]
fn half_open_success_closes_breaker() {
    let base = BASE;
    let mut cb = CircuitBreaker::new(1, 10 * SEC);
    cb.record_failure(base);
    let probe_time = base + 11 * SEC;
    cb.tick(probe_time);
    assert_eq!(cb.state(), CircuitBreakerState::HalfOpen);
    cb.record_success();
    assert_eq!(cb.state(), CircuitBreakerState::Closed);
    assert!(!cb.is_open(probe_time));
    assert_eq!(cb.failure_count(), 0);
}

#[test]
fn half_open_failure_reopens_breaker() {
    let base = BASE;
    let mut cb = CircuitBreaker::new(1, 10 * SEC);
    cb.record_failure(base);
    let probe_time = base + 11 * SEC;
    cb.tick(probe_time);
    assert_eq!(cb.state(), CircuitBreakerState::HalfOpen);
    cb.record_failure(probe_time);
    assert_eq!(cb.state(), CircuitBreakerState::Open);
    assert!(cb.is_open(probe_time + SEC));
    assert!(!cb.can_attempt(probe_time + SEC));
}

#[test]
fn tick_before_cooldown_keeps_breaker_open() {
    let mut cb = CircuitBreaker::new(2, 10 * SEC);
    cb.record_failure(BASE);
    cb.record_failure(BASE);
    assert_eq!(cb.tick(BASE + 10 * SEC - 1), CircuitBreakerState::Open);
    // Failures while open leave the cooldown clock untouched.
    cb.record_failure(BASE + 5 * SEC);
    assert!(cb.can_attempt(BASE + 10 * SEC));
    let copy = cb.clone();
    assert_eq!(copy.state(), CircuitBreakerState::Open);
}

#[test]
fn clock_behind_open_time_counts_as_no_elapsed_time() {
    let mut cb = CircuitBreaker::new(1, 0);
    cb.record_failure(BASE);
    // A zero cooldown admits immediately, even for an earlier reading.
    assert!(cb.can_attempt(BASE - 1));
    let mut cb2 = CircuitBreaker::new(1, 1);
    cb2.record_failure(BASE);
    assert!(!cb2.can_attempt(BASE - 100));
}

#[test]
fn open_breaker_is_no_longer_reported_open_once_it_may_probe() {
    let base = BASE;
    let mut cb = CircuitBreaker::new(1, 10 * SEC);
    cb.record_failure(base);
    assert!(cb.is_open(base + 9 * SEC) && !cb.can_attempt(base + 9 * SEC));
    assert!(!cb.is_open(base + 11 * SEC) && cb.can_attempt(base + 11 * SEC));
    assert_eq!(cb.state(), CircuitBreakerState::Open);
}
