//! Per-backend health tracking.
//!
//! A backend is ejected after a run of consecutive failures and readmitted
//! after a run of consecutive successes. While it is ejected it is held out
//! for a cooldown; once that has elapsed it may be tried again, and each trial
//! starts the cooldown anew, so that an ejected backend sees at most one
//! request per cooldown until it is readmitted.
//!
//! Every operation that reads the clock has a twin, named with the suffix
//! `_at`, that is told the time: milliseconds since the backend was created.
use crate::config::ValidatedUpstream;
use crate::uri::Uri;
use std::time::{Duration, Instant};
use vstd::prelude::*;

verus! {

/// `std::time::Instant`, a reading of the monotonic clock.
#[verifier::external_type_specification]
#[verifier::external_body]
pub struct ExInstant(Instant);

/// `Instant::now`. Nothing is known of the reading.
#[verifier::external_body]
fn read_clock() -> (now: Instant) {
    Instant::now()
}

/// The time from one reading of the clock to a later one.
pub uninterp spec fn span_between(later: Instant, earlier: Instant) -> Duration;

/// `Instant::saturating_duration_since`, which is zero where the readings are
/// the other way round.
#[verifier::external_body]
fn span_since(later: &Instant, earlier: &Instant) -> (span: Duration)
    ensures
        span == span_between(*later, *earlier),
{
    later.saturating_duration_since(*earlier)
}

/// The whole milliseconds in a span of time.
pub uninterp spec fn millis_in(span: Duration) -> u128;

/// `Duration::as_millis`.
#[verifier::external_body]
fn whole_millis(span: Duration) -> (ms: u128)
    ensures
        ms == millis_in(span),
{
    span.as_millis()
}

/// The health record of a backend.
pub struct UpstreamView {
    pub uri: crate::uri::UriView,
    pub weight: u32,
    /// Failures since the last success, modulo 2^32.
    pub failures: u32,
    /// Successes since the last failure, while ejected.
    pub successes: u32,
    pub healthy: bool,
    pub cooldown_ms: u64,
    /// The time before which no trial may be made while ejected.
    pub cooldown_until_ms: u64,
    /// The reading of the clock from which these times are counted.
    pub created: Instant,
}

/// One more than `n`, but no more than 32 bits hold.
pub open spec fn counted(n: u32) -> int {
    if n == u32::MAX {
        u32::MAX as int
    } else {
        n + 1
    }
}

impl UpstreamView {
    /// A backend that has just been configured.
    pub open spec fn fresh(
        uri: crate::uri::UriView,
        weight: u32,
        cooldown_ms: u64,
        created: Instant,
    ) -> Self {
        UpstreamView {
            uri,
            weight,
            failures: 0,
            successes: 0,
            healthy: true,
            cooldown_ms,
            cooldown_until_ms: 0,
            created,
        }
    }

    /// The time of this backend at a reading of the clock, in milliseconds.
    pub open spec fn time_at(self, now: Instant) -> u64 {
        clamped_ms(millis_in(span_between(now, self.created)))
    }

    /// Ejected, and the cooldown has elapsed.
    pub open spec fn trial_ready_at(self, now: u64) -> bool {
        !self.healthy && now >= self.cooldown_until_ms
    }

    /// May be given a request: healthy, or due for a trial.
    pub open spec fn eligible_at(self, now: u64) -> bool {
        self.healthy || self.trial_ready_at(now)
    }

    /// With the cooldown started at `now`.
    pub open spec fn armed_at(self, now: u64) -> Self {
        UpstreamView {
            cooldown_until_ms: if now + self.cooldown_ms > u64::MAX {
                u64::MAX
            } else {
                (now + self.cooldown_ms) as u64
            },
            ..self
        }
    }

    /// After a success.
    pub open spec fn after_success(self, threshold: u32) -> Self {
        let reset = UpstreamView { failures: 0, ..self };
        if self.healthy {
            UpstreamView { successes: 0, ..reset }
        } else if counted(self.successes) >= threshold {
            UpstreamView { successes: 0, cooldown_until_ms: 0, healthy: true, ..reset }
        } else {
            UpstreamView { successes: (self.successes + 1) as u32, ..reset }
        }
    }

    /// After a failure at `now`.
    pub open spec fn after_failure(self, threshold: u32, now: u64) -> Self {
        let recorded = UpstreamView {
            successes: 0,
            failures: if self.failures == u32::MAX {
                0
            } else {
                (self.failures + 1) as u32
            },
            ..self
        };
        if self.healthy && counted(self.failures) >= threshold {
            UpstreamView { healthy: false, ..recorded }.armed_at(now)
        } else {
            recorded
        }
    }

    /// Readmitted by hand.
    pub open spec fn readmitted(self) -> Self {
        UpstreamView { failures: 0, successes: 0, cooldown_until_ms: 0, healthy: true, ..self }
    }

    /// Ejected by hand at `now`.
    pub open spec fn ejected_at(self, now: u64) -> Self {
        UpstreamView { successes: 0, healthy: false, ..self }.armed_at(now)
    }

    /// After failures at the given times.
    pub open spec fn after_failures(self, threshold: u32, times: Seq<u64>) -> Self
        decreases times.len(),
    {
        if times.len() == 0 {
            self
        } else {
            self.after_failures(threshold, times.drop_last()).after_failure(
                threshold,
                times.last(),
            )
        }
    }

    /// After `n` successes.
    pub open spec fn after_successes(self, threshold: u32, n: nat) -> Self
        decreases n,
    {
        if n == 0 {
            self
        } else {
            self.after_successes(threshold, (n - 1) as nat).after_success(threshold)
        }
    }
}

/// Milliseconds as 64 bits hold them.
pub open spec fn clamped_ms(ms: u128) -> u64 {
    if ms > u64::MAX {
        u64::MAX
    } else {
        ms as u64
    }
}

/// Converts milliseconds to 64 bits, at the most the greatest such number.
pub fn clamp_ms(ms: u128) -> (r: u64)
    ensures
        r == clamped_ms(ms),
{
    if ms > u64::MAX as u128 {
        u64::MAX
    } else {
        ms as u64
    }
}

/// Returns the whole milliseconds in a span of time, at the most as many as
/// 64 bits hold.
pub fn span_ms(span: Duration) -> (r: u64)
    ensures
        r == clamped_ms(millis_in(span)),
{
    clamp_ms(whole_millis(span))
}

/// The runtime state of one backend.
#[derive(Debug)]
pub struct UpstreamState {
    uri: Uri,
    weight: u32,
    consecutive_failures: u32,
    consecutive_successes: u32,
    healthy: bool,
    created: Instant,
    cooldown_ms: u64,
    cooldown_until_ms: u64,
}

impl View for UpstreamState {
    type V = UpstreamView;

    closed spec fn view(&self) -> UpstreamView {
        UpstreamView {
            uri: self.uri@,
            weight: self.weight,
            failures: self.consecutive_failures,
            successes: self.consecutive_successes,
            healthy: self.healthy,
            cooldown_ms: self.cooldown_ms,
            cooldown_until_ms: self.cooldown_until_ms,
            created: self.created,
        }
    }
}

impl UpstreamState {
    /// Creates a healthy backend that is held out for `cooldown` when it is
    /// ejected.
    pub fn new(backend: &ValidatedUpstream, cooldown: Duration) -> (r: Self)
        ensures
            r@ == UpstreamView::fresh(
                backend.uri@,
                backend.weight,
                clamped_ms(millis_in(cooldown)),
                r@.created,
            ),
    {
        UpstreamState::with_cooldown_ms(backend, whole_millis(cooldown))
    }

    /// Creates a healthy backend that is held out for `cooldown_ms`
    /// milliseconds when it is ejected.
    pub fn with_cooldown_ms(backend: &ValidatedUpstream, cooldown_ms: u128) -> (r: Self)
        ensures
            r@ == UpstreamView::fresh(
                backend.uri@,
                backend.weight,
                clamped_ms(cooldown_ms),
                r@.created,
            ),
    {
        UpstreamState {
            uri: backend.uri.clone(),
            weight: backend.weight,
            consecutive_failures: 0,
            consecutive_successes: 0,
            healthy: true,
            created: read_clock(),
            cooldown_ms: clamp_ms(cooldown_ms),
            cooldown_until_ms: 0,
        }
    }

    /// Returns where the backend is reached.
    pub fn uri(&self) -> (r: &Uri)
        ensures
            r@ == self@.uri,
    {
        &self.uri
    }

    /// Returns the load-balancing weight.
    pub fn weight(&self) -> (r: u32)
        ensures
            r == self@.weight,
    {
        self.weight
    }

    /// Returns whether the backend is healthy.
    pub fn is_healthy(&self) -> (r: bool)
        ensures
            r == self@.healthy,
    {
        self.healthy
    }

    /// Milliseconds since this backend was created, at a reading of the clock
    /// that is taken now.
    pub(crate) fn now_ms(&self) -> (r: u64)
        ensures
            exists|now: Instant| r == #[trigger] self@.time_at(now),
    {
        let now = read_clock();
        let r: u64 = span_ms(span_since(&now, &self.created));
        assert(r == self@.time_at(now));
        r
    }

    /// Returns whether the backend may be given a request at `now`.
    pub fn is_eligible_at(&self, now: u64) -> (r: bool)
        ensures
            r == self@.eligible_at(now),
    {
        self.is_healthy() || self.trial_ready_at(now)
    }

    /// Returns whether the backend may be given a request now.
    pub fn is_eligible(&self) -> (r: bool)
        ensures
            exists|now: Instant| r == self@.eligible_at(#[trigger] self@.time_at(now)),
            self@.healthy ==> r,
    {
        let now: u64 = self.now_ms();
        self.is_eligible_at(now)
    }

    /// Returns whether the backend is ejected and due for a trial at `now`.
    pub fn trial_ready_at(&self, now: u64) -> (r: bool)
        ensures
            r == self@.trial_ready_at(now),
    {
        !self.is_healthy() && now >= self.cooldown_until_ms
    }

    /// Returns whether the backend is ejected and due for a trial now.
    pub fn trial_ready(&self) -> (r: bool)
        ensures
            exists|now: Instant| r == self@.trial_ready_at(#[trigger] self@.time_at(now)),
            self@.healthy ==> !r,
    {
        let now: u64 = self.now_ms();
        self.trial_ready_at(now)
    }

    /// Starts the cooldown at `now`.
    pub fn arm_cooldown_at(&mut self, now: u64)
        ensures
            final(self)@ == old(self)@.armed_at(now),
    {
        self.cooldown_until_ms = now.saturating_add(self.cooldown_ms);
    }

    /// Starts the cooldown now.
    pub fn arm_cooldown(&mut self)
        ensures
            exists|now: Instant|
                final(self)@ == old(self)@.armed_at(#[trigger] old(self)@.time_at(now)),
    {
        let now: u64 = self.now_ms();
        self.arm_cooldown_at(now);
    }

    /// Records a success, and readmits an ejected backend once the
    /// consecutive successes reach `healthy_threshold`.
    ///
    /// Returns whether this success readmitted the backend.
    pub fn record_success(&mut self, healthy_threshold: u32) -> (r: bool)
        ensures
            final(self)@ == old(self)@.after_success(healthy_threshold),
            r == (!old(self)@.healthy && final(self)@.healthy),
    {
        self.consecutive_failures = 0;
        if self.is_healthy() {
            self.consecutive_successes = 0;
            return false;
        }
        let new_count: u32 = self.consecutive_successes.saturating_add(1);
        if new_count >= healthy_threshold {
            self.consecutive_successes = 0;
            self.cooldown_until_ms = 0;
            self.healthy = true;
            return true;
        }
        self.consecutive_successes = new_count;
        false
    }

    /// Records a failure at `now`, and ejects a healthy backend once the
    /// consecutive failures reach `threshold`.
    ///
    /// Returns whether this failure ejected the backend.
    pub fn record_failure_at(&mut self, threshold: u32, now: u64) -> (r: bool)
        ensures
            final(self)@ == old(self)@.after_failure(threshold, now),
            r == (old(self)@.healthy && !final(self)@.healthy),
    {
        self.consecutive_successes = 0;
        let new_count: u32 = self.consecutive_failures.saturating_add(1);
        self.consecutive_failures = self.consecutive_failures.wrapping_add(1);
        if new_count >= threshold && self.healthy {
            self.healthy = false;
            self.arm_cooldown_at(now);
            return true;
        }
        false
    }

    /// Records a failure now.
    ///
    /// Returns whether this failure ejected the backend.
    pub fn record_failure(&mut self, threshold: u32) -> (r: bool)
        ensures
            exists|now: Instant|
                final(self)@ == old(self)@.after_failure(
                    threshold,
                    #[trigger] old(self)@.time_at(now),
                ),
            r == (old(self)@.healthy && !final(self)@.healthy),
    {
        let now: u64 = self.now_ms();
        self.record_failure_at(threshold, now)
    }

    /// Readmits the backend.
    pub fn mark_healthy(&mut self)
        ensures
            final(self)@ == old(self)@.readmitted(),
    {
        self.consecutive_failures = 0;
        self.consecutive_successes = 0;
        self.cooldown_until_ms = 0;
        self.healthy = true;
    }

    /// Ejects the backend at `now`.
    pub fn mark_unhealthy_at(&mut self, now: u64)
        ensures
            final(self)@ == old(self)@.ejected_at(now),
    {
        self.consecutive_successes = 0;
        self.healthy = false;
        self.arm_cooldown_at(now);
    }

    /// Ejects the backend now.
    pub fn mark_unhealthy(&mut self)
        ensures
            exists|now: Instant|
                final(self)@ == old(self)@.ejected_at(#[trigger] old(self)@.time_at(now)),
    {
        let now: u64 = self.now_ms();
        self.mark_unhealthy_at(now);
    }
}

/// The backends of the proxy, in the order of the configuration.
#[derive(Debug)]
pub struct UpstreamPool {
    backends: Vec<UpstreamState>,
}

impl View for UpstreamPool {
    type V = Seq<UpstreamView>;

    closed spec fn view(&self) -> Seq<UpstreamView> {
        Seq::new(self.backends@.len(), |i: int| self.backends@[i]@)
    }
}

impl UpstreamPool {
    /// Builds a pool of healthy backends.
    pub fn from_validated(upstreams: &[ValidatedUpstream], cooldown: Duration) -> (r: Self)
        ensures
            r@.len() == upstreams@.len(),
            forall|i: int|
                #![trigger r@[i]]
                0 <= i < r@.len() ==> r@[i] == UpstreamView::fresh(
                    upstreams@[i].uri@,
                    upstreams@[i].weight,
                    clamped_ms(millis_in(cooldown)),
                    r@[i].created,
                ),
    {
        let mut backends: Vec<UpstreamState> = Vec::new();
        let mut i: usize = 0;
        while i < upstreams.len()
            invariant
                i <= upstreams@.len(),
                backends@.len() == i,
                forall|k: int|
                    #![trigger backends@[k]]
                    0 <= k < i ==> backends@[k]@ == UpstreamView::fresh(
                        upstreams@[k].uri@,
                        upstreams@[k].weight,
                        clamped_ms(millis_in(cooldown)),
                        backends@[k]@.created,
                    ),
            decreases upstreams@.len() - i,
        {
            backends.push(UpstreamState::new(&upstreams[i], cooldown));
            i = i + 1;
        }
        UpstreamPool { backends }
    }

    /// Returns all backends, healthy or not.
    pub fn all(&self) -> (r: &[UpstreamState])
        ensures
            r@.len() == self@.len(),
            forall|i: int| #![trigger r@[i]] 0 <= i < r@.len() ==> r@[i]@ == self@[i],
    {
        self.backends.as_slice()
    }

    /// Returns a backend for a health update.
    pub fn backend_mut(&mut self, index: usize) -> (r: &mut UpstreamState)
        requires
            index < old(self)@.len(),
        ensures
            r@ == old(self)@[index as int],
            final(self)@ == old(self)@.update(index as int, final(r)@),
    {
        &mut self.backends[index]
    }
}

/// A healthy backend that has no failure on record is ejected by exactly as
/// many consecutive failures as the threshold says, and by the first one if
/// the threshold is zero; further failures change nothing about that.
pub proof fn law_ejected_at_threshold(backend: UpstreamView, threshold: u32, times: Seq<u64>)
    requires
        backend.healthy,
        backend.failures == 0,
    ensures
        backend.after_failures(threshold, times).healthy <==> times.len() == 0 || times.len()
            < threshold,
        times.len() < threshold ==> backend.after_failures(threshold, times).failures
            == times.len(),
    decreases times.len(),
{
    if times.len() > 0 {
        law_ejected_at_threshold(backend, threshold, times.drop_last());
    }
}

/// An ejected backend that has no success on record is readmitted by exactly
/// as many consecutive successes as the threshold says, and by the first one
/// if the threshold is zero, and stays healthy on further successes.
pub proof fn law_readmitted_at_threshold(backend: UpstreamView, threshold: u32, n: nat)
    requires
        !backend.healthy,
        backend.successes == 0,
    ensures
        backend.after_successes(threshold, n).healthy <==> n > 0 && n >= threshold,
        n < threshold ==> backend.after_successes(threshold, n).successes == n,
    decreases n,
{
    if n > 0 {
        law_readmitted_at_threshold(backend, threshold, (n - 1) as nat);
    }
}

/// A success wipes out the failures recorded before it, a failure wipes out
/// the successes.
pub proof fn law_runs_are_consecutive(backend: UpstreamView, threshold: u32, now: u64)
    ensures
        backend.after_success(threshold).failures == 0,
        backend.after_failure(threshold, now).successes == 0,
{
}

/// A success never ejects, a failure never readmits, and a cooldown leaves
/// the health flag and both counters alone.
pub proof fn law_health_moves_one_way(backend: UpstreamView, threshold: u32, now: u64)
    ensures
        backend.healthy ==> backend.after_success(threshold).healthy,
        !backend.healthy ==> !backend.after_failure(threshold, now).healthy,
        backend.armed_at(now).healthy == backend.healthy,
        backend.armed_at(now).failures == backend.failures,
        backend.armed_at(now).successes == backend.successes,
{
}

/// A backend that is ejected at `now`, by failures or by hand, is not
/// eligible while its cooldown runs and is eligible once it has elapsed. Only
/// at the last millisecond that 64 bits hold, where a cooldown that would end
/// later ends too, does this not say so.
pub proof fn law_held_out_for_cooldown(
    backend: UpstreamView,
    threshold: u32,
    now: u64,
    later: u64,
)
    requires
        later < u64::MAX || now + backend.cooldown_ms <= u64::MAX,
    ensures
        backend.ejected_at(now).eligible_at(later) <==> later >= now + backend.cooldown_ms,
        backend.healthy && !backend.after_failure(threshold, now).healthy ==> (
        backend.after_failure(threshold, now).eligible_at(later) <==> later >= now
            + backend.cooldown_ms),
{
}

/// An ejected backend that is given a trial at `now` is not due for another
/// one until its cooldown has elapsed again, whatever failures it suffers in
/// between.
pub proof fn law_one_trial_per_cooldown(
    backend: UpstreamView,
    threshold: u32,
    now: u64,
    failures: Seq<u64>,
    later: u64,
)
    requires
        !backend.healthy,
        later < u64::MAX || now + backend.cooldown_ms <= u64::MAX,
        later < now + backend.cooldown_ms,
    ensures
        !backend.armed_at(now).after_failures(threshold, failures).eligible_at(later),
{
    lemma_failures_keep_cooldown(backend.armed_at(now), threshold, failures);
}

proof fn lemma_failures_keep_cooldown(backend: UpstreamView, threshold: u32, failures: Seq<u64>)
    requires
        !backend.healthy,
    ensures
        !backend.after_failures(threshold, failures).healthy,
        backend.after_failures(threshold, failures).cooldown_until_ms == backend.cooldown_until_ms,
    decreases failures.len(),
{
    if failures.len() > 0 {
        lemma_failures_keep_cooldown(backend, threshold, failures.drop_last());
    }
}

/// A backend that has been readmitted, by successes or by hand, is eligible
/// at any time and waits for no cooldown.
pub proof fn law_readmission_clears_cooldown(backend: UpstreamView, threshold: u32, now: u64)
    ensures
        backend.readmitted().eligible_at(now) && backend.readmitted().cooldown_until_ms == 0,
        !backend.healthy && backend.after_success(threshold).healthy ==> backend.after_success(
            threshold,
        ).eligible_at(now) && backend.after_success(threshold).cooldown_until_ms == 0,
{
}

/// A configured backend is healthy, with nothing on record, and is reached,
/// weighed and held out as its configuration says.
pub proof fn law_configured_backend(
    uri: crate::uri::UriView,
    weight: u32,
    cooldown_ms: u64,
    created: Instant,
)
    ensures
        ({
            let backend = UpstreamView::fresh(uri, weight, cooldown_ms, created);
            &&& backend.uri == uri && backend.weight == weight
            &&& backend.cooldown_ms == cooldown_ms && backend.created == created
            &&& backend.healthy && backend.failures == 0 && backend.successes == 0
            &&& backend.cooldown_until_ms == 0
        }),
{
}

/// The time of a backend is the whole milliseconds since its clock started,
/// and stands still at the last number that 64 bits hold.
pub proof fn law_time_is_told_in_milliseconds(backend: UpstreamView, now: Instant, ms: u128)
    ensures
        ms <= u64::MAX ==> clamped_ms(ms) == ms,
        ms > u64::MAX ==> clamped_ms(ms) == u64::MAX,
        millis_in(span_between(now, backend.created)) <= u64::MAX ==> backend.time_at(now)
            == millis_in(span_between(now, backend.created)),
        millis_in(span_between(now, backend.created)) > u64::MAX ==> backend.time_at(now)
            == u64::MAX,
{
}

/// A backend may be given a request while it is healthy, and while it is
/// ejected from the end of its cooldown on. Nothing else about it matters.
pub proof fn law_eligibility(backend: UpstreamView, now: u64)
    ensures
        backend.healthy ==> backend.eligible_at(now) && !backend.trial_ready_at(now),
        !backend.healthy && now < backend.cooldown_until_ms ==> !backend.eligible_at(now)
            && !backend.trial_ready_at(now),
        !backend.healthy && now >= backend.cooldown_until_ms ==> backend.eligible_at(now)
            && backend.trial_ready_at(now),
{
}

/// A cooldown that starts now ends after its length, or at the last
/// millisecond that 64 bits hold. Nothing else changes.
pub proof fn law_cooldown_runs_from_now(backend: UpstreamView, now: u64)
    ensures
        ({
            let armed = backend.armed_at(now);
            &&& now + backend.cooldown_ms <= u64::MAX ==> armed.cooldown_until_ms == now
                + backend.cooldown_ms
            &&& now + backend.cooldown_ms > u64::MAX ==> armed.cooldown_until_ms == u64::MAX
            &&& armed.uri == backend.uri && armed.weight == backend.weight
            &&& armed.cooldown_ms == backend.cooldown_ms && armed.created == backend.created
            &&& armed.healthy == backend.healthy
            &&& armed.failures == backend.failures && armed.successes == backend.successes
        }),
{
}

/// A success takes all failures off the record of any backend. A healthy one
/// stays so. An ejected one has a success more on record, and is healthy again
/// with a clean record once there are as many as the threshold says.
pub proof fn law_success(backend: UpstreamView, threshold: u32)
    ensures
        ({
            let after = backend.after_success(threshold);
            &&& after.uri == backend.uri && after.weight == backend.weight
            &&& after.cooldown_ms == backend.cooldown_ms && after.created == backend.created
            &&& after.failures == 0
            &&& backend.healthy ==> after.healthy && after.successes == 0
                && after.cooldown_until_ms == backend.cooldown_until_ms
            &&& !backend.healthy && backend.successes + 1 >= threshold ==> after.healthy
                && after.successes == 0 && after.cooldown_until_ms == 0
            &&& !backend.healthy && backend.successes + 1 < threshold ==> !after.healthy
                && after.successes == backend.successes + 1 && after.cooldown_until_ms
                == backend.cooldown_until_ms
        }),
{
}

/// A failure takes all successes off the record of any backend and puts one
/// more failure on it. A healthy one is ejected, and its cooldown starts, once
/// there are as many as the threshold says. An ejected one stays so, and its
/// cooldown runs on.
pub proof fn law_failure(backend: UpstreamView, threshold: u32, now: u64)
    ensures
        ({
            let after = backend.after_failure(threshold, now);
            &&& after.uri == backend.uri && after.weight == backend.weight
            &&& after.cooldown_ms == backend.cooldown_ms && after.created == backend.created
            &&& after.successes == 0
            &&& backend.failures < u32::MAX ==> after.failures == backend.failures + 1
            &&& backend.failures == u32::MAX ==> after.failures == 0
            &&& after.healthy <==> backend.healthy && backend.failures + 1 < threshold
            &&& backend.healthy && backend.failures + 1 >= threshold ==> after.cooldown_until_ms
                == if now + backend.cooldown_ms <= u64::MAX {
                now + backend.cooldown_ms
            } else {
                u64::MAX as int
            }
            &&& !backend.healthy || backend.failures + 1 < threshold ==> after.cooldown_until_ms
                == backend.cooldown_until_ms
        }),
{
}

/// A backend that is readmitted by hand is healthy with a clean record. One
/// that is ejected by hand keeps its failures, loses its successes and is held
/// out from now on.
pub proof fn law_by_hand(backend: UpstreamView, now: u64)
    ensures
        ({
            let up = backend.readmitted();
            let down = backend.ejected_at(now);
            &&& up.uri == backend.uri && up.weight == backend.weight
            &&& up.cooldown_ms == backend.cooldown_ms && up.created == backend.created
            &&& down.uri == backend.uri && down.weight == backend.weight
            &&& down.cooldown_ms == backend.cooldown_ms && down.created == backend.created
            &&& up.healthy && up.failures == 0 && up.successes == 0 && up.cooldown_until_ms == 0
            &&& !down.healthy && down.failures == backend.failures && down.successes == 0
            &&& now + backend.cooldown_ms <= u64::MAX ==> down.cooldown_until_ms == now
                + backend.cooldown_ms
            &&& now + backend.cooldown_ms > u64::MAX ==> down.cooldown_until_ms == u64::MAX
        }),
{
}

/// Between two successes, however many failures were recorded before the
/// first of them, a healthy backend is ejected only by as many failures as the
/// threshold says.
pub proof fn law_failures_before_a_success_do_not_count(
    backend: UpstreamView,
    healthy_threshold: u32,
    threshold: u32,
    times: Seq<u64>,
)
    requires
        backend.healthy,
    ensures
        backend.after_success(healthy_threshold).after_failures(threshold, times).healthy <==> (
        times.len() == 0 || times.len() < threshold),
{
    law_ejected_at_threshold(backend.after_success(healthy_threshold), threshold, times);
}

} // verus!
