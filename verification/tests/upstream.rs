use palisade::config::ValidatedUpstream;
use palisade::upstream::{clamp_ms, span_ms, UpstreamPool, UpstreamState};
use palisade::uri::Uri;
use std::time::{Duration, Instant};

const LONG_COOLDOWN: Duration = Duration::from_secs(30);

fn test_upstream(addr: &str, weight: u32) -> ValidatedUpstream {
    ValidatedUpstream {
        uri: Uri::parse(addr).unwrap(),
        weight,
    }
}

fn state(addr: &str, cooldown: Duration) -> UpstreamState {
    UpstreamState::new(&test_upstream(addr, 1), cooldown)
}

fn wait(span: Duration) {
    let start = Instant::now();
    while start.elapsed() < span {}
}

#[test]
fn new_upstream_starts_healthy() {
    let state = state("http://localhost:3000", LONG_COOLDOWN);
    assert!(state.is_healthy());
    assert!(state.is_eligible());
}

#[test]
fn record_success_resets_failures() {
    let mut state = state("http://localhost:3000", LONG_COOLDOWN);
    // Two failures below the threshold of three: still healthy.
    state.record_failure(3);
    state.record_failure(3);
    assert!(state.is_healthy());

    // A success resets the failure counter; two further failures should
    // not eject, proving the counter restarted from zero.
    state.record_success(1);
    state.record_failure(3);
    state.record_failure(3);
    assert!(state.is_healthy());

    // The third consecutive failure now ejects.
    assert!(state.record_failure(3));
    assert!(!state.is_healthy());
}

#[test]
fn record_success_requires_threshold_for_recovery() {
    let mut state = state("http://localhost:3000", LONG_COOLDOWN);
    state.mark_unhealthy();

    assert!(!state.record_success(3));
    assert!(!state.is_healthy());
    assert!(!state.record_success(3));
    assert!(!state.is_healthy());
    assert!(state.record_success(3));
    assert!(state.is_healthy());
}

#[test]
fn failure_resets_consecutive_successes() {
    let mut state = state("http://localhost:3000", LONG_COOLDOWN);
    state.mark_unhealthy();

    state.record_success(3);
    state.record_success(3);
    state.record_failure(10);
    assert!(!state.is_healthy());

    state.record_success(3);
    assert!(!state.is_healthy());
}

#[test]
fn record_failure_marks_unhealthy_at_threshold() {
    let mut state = state("http://localhost:3000", LONG_COOLDOWN);

    assert!(!state.record_failure(3));
    assert!(!state.record_failure(3));
    assert!(state.record_failure(3));

    assert!(!state.is_healthy());
}

#[test]
fn record_failure_beyond_threshold_does_not_retrigger() {
    let mut state = state("http://localhost:3000", LONG_COOLDOWN);

    state.record_failure(2);
    assert!(state.record_failure(2));
    assert!(!state.record_failure(2));
}

#[test]
fn ejected_backend_is_not_eligible_during_cooldown() {
    let mut state = state("http://localhost:3000", LONG_COOLDOWN);
    state.mark_unhealthy();

    assert!(!state.is_healthy());
    assert!(!state.trial_ready());
    assert!(!state.is_eligible());
}

#[test]
fn ejected_backend_becomes_trial_ready_after_cooldown() {
    let mut state = state("http://localhost:3000", Duration::from_millis(20));
    state.mark_unhealthy();
    assert!(!state.trial_ready());

    wait(Duration::from_millis(40));
    assert!(state.trial_ready());
    assert!(state.is_eligible());

    // Routing a trial re-arms the cooldown, suppressing further trials.
    state.arm_cooldown();
    assert!(!state.trial_ready());
}

#[test]
fn promotion_clears_cooldown() {
    let mut state = state("http://localhost:3000", Duration::from_millis(20));
    state.mark_unhealthy();

    assert!(state.record_success(1));
    assert!(state.is_healthy());
    assert!(state.is_eligible());
}

#[test]
fn a_cooldown_ends_on_the_millisecond() {
    let mut state = state("http://localhost:3000", Duration::from_millis(250));
    state.mark_unhealthy_at(1000);
    assert!(!state.is_eligible_at(1249));
    assert!(state.is_eligible_at(1250));
    state.arm_cooldown_at(1250);
    assert!(!state.trial_ready_at(1499));
    assert!(state.trial_ready_at(1500));
}

#[test]
fn failures_do_not_extend_a_cooldown() {
    let mut state = state("http://localhost:3000", Duration::from_millis(100));
    assert!(state.record_failure_at(1, 0));
    assert!(!state.record_failure_at(1, 90));
    assert!(state.trial_ready_at(100));
}

#[test]
fn a_long_cooldown_saturates() {
    let mut state =
        UpstreamState::with_cooldown_ms(&test_upstream("http://a:1", 1), u128::MAX);
    state.mark_unhealthy_at(5);
    assert!(!state.is_eligible_at(u64::MAX - 1));
    assert!(state.is_eligible_at(u64::MAX));
    assert_eq!(clamp_ms(7), 7);
    assert_eq!(clamp_ms(u64::MAX as u128 + 1), u64::MAX);
}

#[test]
fn a_zero_threshold_ejects_and_readmits_at_once() {
    let mut state = state("http://localhost:3000", LONG_COOLDOWN);
    assert!(state.record_failure(0));
    assert!(state.record_success(0));
    assert!(state.is_healthy());
}

#[test]
fn a_success_of_a_healthy_backend_is_no_transition() {
    let mut state = state("http://localhost:3000", LONG_COOLDOWN);
    assert!(!state.record_success(1));
    assert!(state.is_healthy());
    state.mark_unhealthy();
    state.mark_healthy();
    assert!(state.is_healthy());
    assert!(state.is_eligible());
}

#[test]
fn a_pool_keeps_the_order_of_its_configuration() {
    let pool = UpstreamPool::from_validated(
        &[test_upstream("http://a:1", 2), test_upstream("http://b:2/x", 5)],
        LONG_COOLDOWN,
    );
    assert_eq!(pool.all().len(), 2);
    assert_eq!(pool.all()[0].weight(), 2);
    assert_eq!(pool.all()[1].weight(), 5);
    assert_eq!(pool.all()[1].uri().text(), "http://b:2/x");
    assert_eq!(pool.all()[0].uri().text(), "http://a:1/");
}

#[test]
fn a_span_is_read_in_whole_milliseconds() {
    assert_eq!(span_ms(Duration::from_micros(999)), 0);
    assert_eq!(span_ms(Duration::from_micros(2999)), 2);
    assert_eq!(span_ms(Duration::from_secs(3)), 3000);
    assert_eq!(span_ms(Duration::MAX), u64::MAX);
}
