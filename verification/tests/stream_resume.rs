use mimofan_core::stream_resume::{compute_backoff, StreamResume, StreamResumeState};

const MS: u64 = 1_000;
const SEC: u64 = 1_000_000;

#[test]
fn new_stream_is_active_with_zero_cursor() {
    let sr = StreamResume::new(100 * MS, 3);
    assert_eq!(sr.state(), StreamResumeState::Active);
    assert_eq!(sr.received_bytes(), 0);
    assert!(!sr.can_resume());
}

#[test]
fn record_received_advances_cursor_and_resets_attempts() {
    let mut sr = StreamResume::new(100 * MS, 3);
    sr.record_received(10);
    assert_eq!(sr.received_bytes(), 10);
    sr.interrupt();
    let _ = sr.resume_stream();
    assert_eq!(sr.reconnect_attempts(), 1);
    sr.record_received(5);
    assert_eq!(sr.received_bytes(), 15);
    assert_eq!(sr.reconnect_attempts(), 0);
    assert_eq!(sr.state(), StreamResumeState::Active);
}

#[test]
fn resume_stream_reports_offset_and_backoff() {
    let mut sr = StreamResume::new(100 * MS, 3);
    sr.record_received(42);
    sr.interrupt();
    let point = sr.resume_stream().expect("should produce a resume point");
    assert_eq!(point.resume_offset, 42);
    assert_eq!(point.attempt, 0);
    assert_eq!(point.backoff_micros, 100 * MS);
}

#[test]
fn backoff_grows_exponentially_and_is_capped() {
    let mut sr = StreamResume::new(10 * SEC, 10);
    sr.interrupt();
    let p0 = sr.resume_stream().unwrap();
    let p1 = sr.resume_stream().unwrap();
    let p2 = sr.resume_stream().unwrap();
    assert_eq!(p0.backoff_micros, 10 * SEC);
    assert_eq!(p1.backoff_micros, 20 * SEC);
    assert_eq!(p2.backoff_micros, 40 * SEC);
    for _ in 0..6 {
        let _ = sr.resume_stream();
    }
    let capped = sr.resume_stream().unwrap();
    assert_eq!(capped.backoff_micros, 60 * SEC);
}

#[test]
fn cannot_resume_past_max_attempts() {
    let mut sr = StreamResume::new(100 * MS, 2);
    sr.interrupt();
    assert!(sr.can_resume());
    let _ = sr.resume_stream();
    let _ = sr.resume_stream();
    assert!(!sr.can_resume());
    assert!(sr.resume_stream().is_none());
}

#[test]
fn completed_stream_is_not_resumable() {
    let mut sr = StreamResume::new(100 * MS, 3);
    sr.record_received(7);
    sr.complete();
    sr.interrupt();
    assert_eq!(sr.state(), StreamResumeState::Completed);
    assert!(!sr.can_resume());
    assert!(sr.resume_stream().is_none());
}

#[test]
fn backoff_formula_exact_values() {
    assert_eq!(compute_backoff(3, 0), 3);
    assert_eq!(compute_backoff(3, 4), 48);
    assert_eq!(compute_backoff(1, 63), 60 * SEC);
    assert_eq!(compute_backoff(1, 200), 60 * SEC);
    assert_eq!(compute_backoff(0, 200), 0);
    let mut sr = StreamResume::new(1, 1);
    sr.record_received(u64::MAX);
    sr.record_received(5);
    assert_eq!(sr.received_bytes(), u64::MAX);
    let copy = sr.clone();
    assert_eq!(copy.received_bytes(), u64::MAX);
}

#[test]
fn completed_stream_stays_completed_after_late_content() {
    let mut sr = StreamResume::new(100 * MS, 3);
    sr.record_received(7);
    sr.complete();
    sr.record_received(3);
    sr.interrupt();
    assert_eq!(sr.state(), StreamResumeState::Completed);
    assert_eq!(sr.received_bytes(), 10);
    assert!(!sr.can_resume());
    assert!(sr.resume_stream().is_none());
}
