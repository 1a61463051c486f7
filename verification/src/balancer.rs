//! Smooth weighted round-robin over the eligible backends of a pool.
//!
//! Each selection credits every eligible backend with its weight, picks the
//! one with the most credit and charges it the weights of all of them. This
//! spreads the turns of a heavy backend through the sequence, and costs one
//! number per backend whatever the weights are.
use crate::error::ProxyError;
use crate::upstream::{UpstreamPool, UpstreamState};
use vstd::prelude::*;

verus! {

/// The greatest number of backends whose running weights fit 64 bits.
pub const MAX_BACKENDS: usize = 0x7fff_ffff;

/// The state of a balancer.
pub struct BalancerView {
    pub pool: Seq<crate::upstream::UpstreamView>,
    /// The running weight of each backend.
    pub current: Seq<int>,
}

/// The weight of each backend.
pub open spec fn weights_of(pool: Seq<crate::upstream::UpstreamView>) -> Seq<int> {
    Seq::new(pool.len(), |i: int| pool[i].weight as int)
}

/// Which backends may be given a request, each at its own reading of the
/// clock.
pub open spec fn eligible_of(
    pool: Seq<crate::upstream::UpstreamView>,
    clock: Seq<u64>,
) -> Seq<bool> {
    Seq::new(pool.len(), |i: int| pool[i].eligible_at(clock[i]))
}

pub open spec fn as_ints(v: Seq<i64>) -> Seq<int> {
    Seq::new(v.len(), |i: int| v[i] as int)
}

impl BalancerView {
    /// The time of each backend, each at its own reading of the clock.
    pub open spec fn times_at(self, readings: Seq<std::time::Instant>) -> Seq<u64> {
        Seq::new(self.pool.len(), |i: int| self.pool[i].time_at(readings[i]))
    }

    /// Some backend is eligible.
    pub open spec fn any_eligible(self, clock: Seq<u64>) -> bool {
        exists|i: int| 0 <= i < self.pool.len() && #[trigger] self.pool[i].eligible_at(clock[i])
    }

    /// A selection picks backend `i`: the first eligible one with the most
    /// credit.
    pub open spec fn picks(self, clock: Seq<u64>, i: int) -> bool {
        let eligible = eligible_of(self.pool, clock);
        crate::round_robin::is_winner(
            crate::round_robin::raised(weights_of(self.pool), eligible, self.current),
            eligible,
            i,
        )
    }

    /// The state after backend `i` was picked: the running weights have moved
    /// on, and an ejected backend, whose trial this is, starts its cooldown
    /// anew. Nothing else about the pool has changed.
    pub open spec fn after_pick(self, clock: Seq<u64>, i: int) -> Self {
        BalancerView {
            pool: if self.pool[i].healthy {
                self.pool
            } else {
                self.pool.update(i, self.pool[i].armed_at(clock[i]))
            },
            current: crate::round_robin::charged(
                weights_of(self.pool),
                eligible_of(self.pool, clock),
                self.current,
                i,
            ),
        }
    }

    /// One selection: from this state, with these readings of the clock, to
    /// this result and this state.
    pub open spec fn selects(
        self,
        clock: Seq<u64>,
        result: Result<usize, ProxyError>,
        after: Self,
    ) -> bool {
        match result {
            Ok(i) => self.picks(clock, i as int) && after == self.after_pick(clock, i as int),
            Err(e) => !self.any_eligible(clock) && e == ProxyError::NoHealthyUpstream && after
                == self,
        }
    }
}

/// A smooth weighted round-robin balancer over a pool.
#[derive(Debug)]
pub struct LoadBalancer {
    pool: UpstreamPool,
    current_weights: Vec<i64>,
}

impl View for LoadBalancer {
    type V = BalancerView;

    closed spec fn view(&self) -> BalancerView {
        BalancerView { pool: self.pool@, current: as_ints(self.current_weights@) }
    }
}

impl LoadBalancer {
    /// There is one running weight per backend, and they are balanced.
    pub open spec fn well_formed(&self) -> bool {
        &&& self@.current.len() == self@.pool.len() <= MAX_BACKENDS
        &&& crate::round_robin::balanced(self@.current, u32::MAX as int)
    }

    /// Creates a balancer whose running weights are all zero.
    pub fn new(pool: UpstreamPool) -> (r: Self)
        requires
            pool@.len() <= MAX_BACKENDS,
        ensures
            r.well_formed(),
            r@ == (BalancerView { pool: pool@, current: Seq::new(pool@.len(), |i: int| 0int) }),
    {
        let n: usize = pool.all().len();
        let mut current_weights: Vec<i64> = Vec::new();
        let mut i: usize = 0;
        while i < n
            invariant
                i <= n,
                current_weights@.len() == i,
                forall|k: int| #![trigger current_weights@[k]] 0 <= k < i ==> current_weights@[k]
                    == 0,
            decreases n - i,
        {
            current_weights.push(0);
            i = i + 1;
        }
        let balancer = LoadBalancer { pool, current_weights };
        proof {
            assert(balancer@.current =~= Seq::new(balancer@.pool.len(), |i: int| 0int));
            crate::round_robin::lemma_zero_balanced(balancer@.pool.len(), u32::MAX as int);
        }
        balancer
    }

    /// Selects the next eligible backend, given a reading of the clock for
    /// each.
    pub fn next_at(&mut self, clock: &[u64]) -> (r: Result<usize, ProxyError>)
        requires
            old(self).well_formed(),
            clock@.len() == old(self)@.pool.len(),
        ensures
            final(self).well_formed(),
            old(self)@.selects(clock@, r, final(self)@),
    {
        let ghost weights = weights_of(self@.pool);
        let ghost eligible = eligible_of(self@.pool, clock@);
        let ghost current = self@.current;
        let ghost credited = crate::round_robin::raised(weights, eligible, current);
        let ghost cap = u32::MAX as int;
        let n: usize = self.current_weights.len();
        let mut total: i64 = 0;
        let mut best: Option<usize> = None;
        let mut best_weight: i64 = i64::MIN;
        let mut idx: usize = 0;
        proof {
            crate::round_robin::law_running_weights_bounded(current, cap);
            lemma_room(n as int);
        }
        while idx < n
            invariant
                self@.pool == old(self)@.pool,
                weights == weights_of(self@.pool),
                eligible == eligible_of(self@.pool, clock@),
                current == old(self)@.current,
                credited == crate::round_robin::raised(weights, eligible, current),
                cap == u32::MAX,
                n == self.current_weights@.len() == self@.pool.len() == clock@.len()
                    == current.len(),
                n <= MAX_BACKENDS,
                idx <= n,
                cap * n <= i64::MAX,
                forall|k: int|
                    #![trigger current[k]]
                    0 <= k < n ==> -cap * (n - 1) <= current[k] <= cap * (n - 1),
                -cap * (n - 1) >= -i64::MAX,
                forall|k: int|
                    #![trigger self@.current[k]]
                    0 <= k < n ==> self@.current[k] == if k < idx {
                        credited[k]
                    } else {
                        current[k]
                    },
                total == crate::round_robin::masked_sum(weights, eligible, idx as nat),
                0 <= total <= cap * idx,
                match best {
                    None => forall|k: int| #![trigger eligible[k]] 0 <= k < idx ==> !eligible[k],
                    Some(b) => crate::round_robin::leads(credited, eligible, idx as nat, b as int)
                        && best_weight == credited[b as int],
                },
            decreases n - idx,
        {
            let backend = &self.pool.all()[idx];
            let ghost before = self@.current;
            assert(before[idx as int] == current[idx as int]);
            if backend.is_eligible_at(clock[idx]) {
                let weight: i64 = backend.weight() as i64;
                proof {
                    assert(cap * (idx + 1) == cap * idx + cap) by (nonlinear_arith);
                    assert(cap * (idx + 1) <= cap * n) by (nonlinear_arith)
                        requires
                            idx + 1 <= n,
                            cap >= 0,
                    ;
                    assert(cap * (n - 1) + cap == cap * n) by (nonlinear_arith);
                }
                total = total + weight;
                let raised: i64 = self.current_weights[idx] + weight;
                self.current_weights.set(idx, raised);
                assert(raised == credited[idx as int]);
                if best.is_none() || raised > best_weight {
                    best_weight = raised;
                    best = Some(idx);
                }
            } else {
                assert(cap * idx <= cap * (idx + 1)) by (nonlinear_arith)
                    requires
                        cap >= 0,
                ;
            }
            assert forall|k: int| 0 <= k < n implies #[trigger] self@.current[k] == if k < idx + 1 {
                credited[k]
            } else {
                current[k]
            } by {
                assert(before[k] == if k < idx {
                    credited[k]
                } else {
                    current[k]
                });
            }
            idx = idx + 1;
        }
        assert(self@.current =~= credited);
        match best {
            Some(i) => {
                proof {
                    crate::round_robin::law_balance_kept(
                        weights,
                        eligible,
                        current,
                        i as int,
                        cap,
                    );
                    let after = crate::round_robin::charged(weights, eligible, current, i as int);
                    crate::round_robin::law_running_weights_bounded(after, cap);
                    assert(after[i as int] == credited[i as int] - total);
                }
                let charged: i64 = self.current_weights[i] - total;
                self.current_weights.set(i, charged);
                assert(self@.current =~= crate::round_robin::charged(
                    weights,
                    eligible,
                    current,
                    i as int,
                ));
                if !self.pool.all()[i].is_healthy() {
                    self.pool.backend_mut(i).arm_cooldown_at(clock[i]);
                }
                Ok(i)
            },
            None => {
                assert(self@.current =~= current);
                assert forall|k: int| 0 <= k < n implies !#[trigger] old(
                    self,
                )@.pool[k].eligible_at(clock@[k]) by {
                    assert(!eligible[k]);
                }
                Err(ProxyError::NoHealthyUpstream)
            },
        }
    }

    /// Reads the clock of every backend.
    pub(crate) fn read_clocks(&self) -> (clock: Vec<u64>)
        ensures
            exists|readings: Seq<std::time::Instant>| clock@ == #[trigger] self@.times_at(readings),
    {
        let backends = self.pool.all();
        let ghost mut readings: Seq<std::time::Instant> = Seq::empty();
        let mut clock: Vec<u64> = Vec::new();
        let mut i: usize = 0;
        while i < backends.len()
            invariant
                i <= backends@.len() == self@.pool.len(),
                clock@.len() == i,
                readings.len() == i,
                forall|k: int|
                    #![trigger backends@[k]]
                    0 <= k < backends@.len() ==> backends@[k]@ == self@.pool[k],
                forall|k: int|
                    #![trigger clock@[k]]
                    0 <= k < i ==> clock@[k] == self@.pool[k].time_at(readings[k]),
            decreases backends@.len() - i,
        {
            let now: u64 = backends[i].now_ms();
            proof {
                readings = readings.push(
                    choose|reading: std::time::Instant|
                        now == #[trigger] self@.pool[i as int].time_at(reading),
                );
            }
            clock.push(now);
            i = i + 1;
        }
        assert(clock@ =~= self@.times_at(readings));
        clock
    }

    /// Selects the next eligible backend.
    pub fn next(&mut self) -> (r: Result<usize, ProxyError>)
        requires
            old(self).well_formed(),
        ensures
            final(self).well_formed(),
            exists|readings: Seq<std::time::Instant>|
                old(self)@.selects(
                    #[trigger] old(self)@.times_at(readings),
                    r,
                    final(self)@,
                ),
    {
        let clock = self.read_clocks();
        self.next_at(clock.as_slice())
    }

    /// Returns the pool.
    pub fn pool(&self) -> (r: &UpstreamPool)
        ensures
            r@ == self@.pool,
    {
        &self.pool
    }

    /// Returns a backend for a health update.
    pub fn backend_mut(&mut self, index: usize) -> (r: &mut UpstreamState)
        requires
            old(self).well_formed(),
            index < old(self)@.pool.len(),
        ensures
            r@ == old(self)@.pool[index as int],
            final(self)@ == (BalancerView {
                pool: old(self)@.pool.update(index as int, final(r)@),
                ..old(self)@
            }),
            final(self).well_formed(),
    {
        self.pool.backend_mut(index)
    }
}

/// The running weights of that many backends leave room for one more credit.
proof fn lemma_room(n: int)
    requires
        0 <= n <= MAX_BACKENDS,
    ensures
        u32::MAX * n <= i64::MAX,
        -(u32::MAX as int) * (n - 1) >= -i64::MAX,
{
    assert(u32::MAX * n <= u32::MAX * 0x7fff_ffff) by (nonlinear_arith)
        requires
            0 <= n <= 0x7fff_ffff,
    ;
    assert(-(u32::MAX as int) * (n - 1) >= -(u32::MAX * n)) by (nonlinear_arith)
        requires
            0 <= n,
    ;
}

/// How often `picks` names backend `i`.
pub open spec fn times_picked(picks: Seq<usize>, i: int) -> nat
    decreases picks.len(),
{
    if picks.len() == 0 {
        0
    } else {
        times_picked(picks.drop_last(), i) + if picks.last() == i {
            1nat
        } else {
            0
        }
    }
}

/// `states`, `clocks` and `picks` are the course of consecutive selections.
pub open spec fn course(
    states: Seq<BalancerView>,
    clocks: Seq<Seq<u64>>,
    picks: Seq<usize>,
) -> bool {
    &&& states.len() == picks.len() + 1
    &&& clocks.len() == picks.len()
    &&& states[0].current.len() == states[0].pool.len()
    &&& forall|t: int|
        #![trigger picks[t]]
        0 <= t < picks.len() ==> states[t].selects(clocks[t], Ok(picks[t]), states[t + 1])
}

/// The course began with running weights of zero, and always had the same
/// eligible backends to choose from.
pub open spec fn steady_course(
    states: Seq<BalancerView>,
    clocks: Seq<Seq<u64>>,
    picks: Seq<usize>,
    eligible: Seq<bool>,
) -> bool {
    &&& course(states, clocks, picks)
    &&& forall|i: int|
        #![trigger states[0].current[i]]
        0 <= i < states[0].current.len() ==> states[0].current[i] == 0
    &&& eligible.len() == states[0].pool.len()
    &&& forall|t: int|
        #![trigger picks[t]]
        0 <= t < picks.len() ==> eligible_of(states[t].pool, clocks[t]) == eligible
}

/// An ejected backend is not picked while its cooldown runs, however many
/// selections are made, and nothing about it changes. As a trial starts the
/// cooldown anew, it sees no more than one request per cooldown.
pub proof fn law_no_second_trial(
    states: Seq<BalancerView>,
    clocks: Seq<Seq<u64>>,
    picks: Seq<usize>,
    i: int,
)
    requires
        course(states, clocks, picks),
        0 <= i < states[0].pool.len(),
        !states[0].pool[i].healthy,
        forall|t: int|
            #![trigger clocks[t]]
            0 <= t < clocks.len() ==> clocks[t][i] < states[0].pool[i].cooldown_until_ms,
    ensures
        times_picked(picks, i) == 0,
        states.last().pool.len() == states.last().current.len() == states[0].pool.len(),
        states.last().pool[i] == states[0].pool[i],
    decreases picks.len(),
{
    if picks.len() > 0 {
        let t = picks.len() - 1;
        let before = states.drop_last();
        let earlier = picks.drop_last();
        assert forall|k: int| 0 <= k < earlier.len() implies before[k].selects(
            clocks.drop_last()[k],
            Ok(#[trigger] earlier[k]),
            before[k + 1],
        ) by {
            assert(picks[k] == earlier[k]);
        }
        law_no_second_trial(before, clocks.drop_last(), earlier, i);
        assert(states[t].selects(clocks[t], Ok(picks[t]), states[t + 1]));
        assert(clocks[t][i] < states[0].pool[i].cooldown_until_ms);
        assert(!eligible_of(states[t].pool, clocks[t])[i]);
    }
}

proof fn lemma_steady_course(
    states: Seq<BalancerView>,
    clocks: Seq<Seq<u64>>,
    picks: Seq<usize>,
    eligible: Seq<bool>,
    t: nat,
)
    requires
        steady_course(states, clocks, picks, eligible),
        t <= picks.len(),
        crate::round_robin::rotation(weights_of(states[0].pool), eligible),
    ensures
        states[t as int].pool.len() == states[t as int].current.len() == states[0].pool.len(),
        weights_of(states[t as int].pool) == weights_of(states[0].pool),
        states[t as int].current == crate::round_robin::running(
            weights_of(states[0].pool),
            eligible,
            t,
        ),
        forall|i: int|
            #![trigger times_picked(picks.take(t as int), i)]
            times_picked(picks.take(t as int), i) == crate::round_robin::tally(
                weights_of(states[0].pool),
                eligible,
                i,
                t,
            ),
    decreases t,
{
    let weights = weights_of(states[0].pool);
    if t == 0 {
        assert(states[0].current =~= crate::round_robin::running(weights, eligible, 0));
    } else {
        let s = (t - 1) as nat;
        lemma_steady_course(states, clocks, picks, eligible, s);
        let before = states[s as int];
        let pick = picks[s as int] as int;
        assert(before.selects(clocks[s as int], Ok(picks[s as int]), states[t as int]));
        let credited = crate::round_robin::raised(weights, eligible, before.current);
        crate::round_robin::lemma_one_winner(credited, eligible);
        assert(crate::round_robin::chosen(weights, eligible, before.current) == pick);
        assert(states[t as int] == before.after_pick(clocks[s as int], pick));
        assert forall|i: int| 0 <= i < before.pool.len() implies (
        #[trigger] states[t as int].pool[i]).weight == before.pool[i].weight by {}
        assert forall|i: int| 0 <= i < before.pool.len() implies #[trigger] weights_of(
            states[t as int].pool,
        )[i] == weights[i] by {
            assert(weights_of(before.pool)[i] == weights[i]);
        }
        assert(weights_of(states[t as int].pool) =~= weights);
        assert forall|i: int|
            #[trigger] times_picked(picks.take(t as int), i) == crate::round_robin::tally(
                weights,
                eligible,
                i,
                t,
            ) by {
            assert(picks.take(t as int).drop_last() =~= picks.take(s as int));
            assert(times_picked(picks.take(s as int), i) == crate::round_robin::tally(
                weights,
                eligible,
                i,
                s,
            ));
            assert(picks.take(t as int).last() == pick);
        }
    }
}

/// Traffic follows the weights. While the same backends stay eligible, a
/// fresh balancer gives each of them exactly as many requests as its weight
/// says out of as many requests as their weights add up to, and gives none to
/// a backend that is not eligible.
pub proof fn law_traffic_follows_weights(
    states: Seq<BalancerView>,
    clocks: Seq<Seq<u64>>,
    picks: Seq<usize>,
    eligible: Seq<bool>,
)
    requires
        steady_course(states, clocks, picks, eligible),
        picks.len() == crate::round_robin::total_weight(weights_of(states[0].pool), eligible),
        exists|i: int| 0 <= i < eligible.len() && #[trigger] eligible[i],
    ensures
        forall|i: int|
            #![trigger states[0].pool[i]]
            0 <= i < states[0].pool.len() ==> times_picked(picks, i) == if eligible[i] {
                states[0].pool[i].weight as int
            } else {
                0
            },
        states.last().current == states[0].current,
{
    let weights = weights_of(states[0].pool);
    lemma_steady_course(states, clocks, picks, eligible, picks.len());
    crate::round_robin::law_proportional(weights, eligible);
    assert(picks.take(picks.len() as int) =~= picks);
    lemma_steady_course(states, clocks, picks, eligible, 0);
    assert forall|i: int| 0 <= i < states[0].pool.len() implies times_picked(picks, i)
        == if eligible[i] {
        (#[trigger] states[0].pool[i]).weight as int
    } else {
        0
    } by {
        assert(weights[i] == states[0].pool[i].weight);
    }
}

/// Turns are spread out. While the same backends stay eligible, a backend of
/// a fresh balancer has at no point had a whole turn more than its share of
/// the requests so far.
pub proof fn law_turns_are_spread(
    states: Seq<BalancerView>,
    clocks: Seq<Seq<u64>>,
    picks: Seq<usize>,
    eligible: Seq<bool>,
    i: int,
)
    requires
        steady_course(states, clocks, picks, eligible),
        0 <= i < states[0].pool.len(),
        eligible[i],
        crate::round_robin::total_weight(weights_of(states[0].pool), eligible) > 0,
    ensures
        times_picked(picks, i) * crate::round_robin::total_weight(
            weights_of(states[0].pool),
            eligible,
        ) < picks.len() * states[0].pool[i].weight + crate::round_robin::total_weight(
            weights_of(states[0].pool),
            eligible,
        ),
{
    let weights = weights_of(states[0].pool);
    lemma_steady_course(states, clocks, picks, eligible, picks.len());
    crate::round_robin::law_never_a_turn_ahead(weights, eligible, picks.len());
    assert(picks.take(picks.len() as int) =~= picks);
    assert(weights[i] == states[0].pool[i].weight);
}

/// A selection only ever returns an eligible backend, and it leaves the
/// health of every backend as it was. The one thing it may change is the
/// cooldown of an ejected backend that it returned, which is then not
/// eligible until that cooldown has elapsed.
pub proof fn law_selection_spares_health(
    before: BalancerView,
    clock: Seq<u64>,
    pick: usize,
    after: BalancerView,
)
    requires
        before.selects(clock, Ok(pick), after),
        before.current.len() == before.pool.len(),
    ensures
        before.pool[pick as int].eligible_at(clock[pick as int]),
        after.pool.len() == before.pool.len(),
        forall|j: int|
            #![trigger after.pool[j]]
            0 <= j < before.pool.len() ==> after.pool[j].healthy == before.pool[j].healthy
                && after.pool[j].failures == before.pool[j].failures && after.pool[j].successes
                == before.pool[j].successes && (j != pick || before.pool[j].healthy
                ==> after.pool[j] == before.pool[j]),
        forall|later: u64|
            !before.pool[pick as int].healthy && later < u64::MAX && later < clock[pick as int]
                + before.pool[pick as int].cooldown_ms ==> !#[trigger] after.pool[
                pick as int
            ].eligible_at(later),
{
}

/// Whether a backend may be given a request is its own affair: it may while it
/// is healthy, and once its cooldown has elapsed, whatever the state of the
/// others.
pub proof fn law_each_backend_is_eligible_by_itself(
    pool: Seq<crate::upstream::UpstreamView>,
    clock: Seq<u64>,
)
    ensures
        eligible_of(pool, clock).len() == pool.len(),
        forall|i: int|
            #![trigger eligible_of(pool, clock)[i]]
            0 <= i < pool.len() ==> (eligible_of(pool, clock)[i] <==> pool[i].healthy || clock[i]
                >= pool[i].cooldown_until_ms),
{
}

/// One selection. It fails only where no backend is healthy or has waited out
/// its cooldown, and then changes nothing. Otherwise every such backend is
/// credited with its weight, the first of those with the most credit is
/// picked, and is charged with the weights of all of them. If it was ejected,
/// its cooldown starts anew. Nothing else changes.
pub proof fn law_selection_is_exact(
    before: BalancerView,
    clock: Seq<u64>,
    result: Result<usize, ProxyError>,
    after: BalancerView,
)
    requires
        before.selects(clock, result, after),
        before.current.len() == before.pool.len(),
    ensures
        ({
            let pool = before.pool;
            let weights = Seq::new(pool.len(), |j: int| pool[j].weight as int);
            let open = Seq::new(
                pool.len(),
                |j: int| pool[j].healthy || clock[j] >= pool[j].cooldown_until_ms,
            );
            match result {
                Err(e) => {
                    &&& e == ProxyError::NoHealthyUpstream
                    &&& after == before
                    &&& forall|j: int|
                        #![trigger pool[j]]
                        0 <= j < pool.len() ==> !pool[j].healthy && clock[j]
                            < pool[j].cooldown_until_ms
                },
                Ok(pick) => {
                    let i = pick as int;
                    &&& 0 <= i < pool.len()
                    &&& pool[i].healthy || clock[i] >= pool[i].cooldown_until_ms
                    &&& forall|j: int|
                        #![trigger pool[j]]
                        0 <= j < pool.len() && (pool[j].healthy || clock[j]
                            >= pool[j].cooldown_until_ms) ==> before.current[j] + pool[j].weight
                            <= before.current[i] + pool[i].weight && (j < i ==> before.current[j]
                            + pool[j].weight < before.current[i] + pool[i].weight)
                    &&& after.current.len() == pool.len()
                    &&& after.current[i] == before.current[i] + pool[i].weight
                        - crate::round_robin::total_weight(weights, open)
                    &&& forall|j: int|
                        #![trigger after.current[j]]
                        0 <= j < pool.len() && j != i ==> after.current[j] == before.current[j]
                            + if pool[j].healthy || clock[j] >= pool[j].cooldown_until_ms {
                            pool[j].weight as int
                        } else {
                            0
                        }
                    &&& after.pool.len() == pool.len()
                    &&& forall|j: int|
                        #![trigger after.pool[j]]
                        0 <= j < pool.len() && (j != i || pool[j].healthy) ==> after.pool[j]
                            == pool[j]
                    &&& !pool[i].healthy ==> after.pool[i] == (crate::upstream::UpstreamView {
                        cooldown_until_ms: after.pool[i].cooldown_until_ms,
                        ..pool[i]
                    }) && after.pool[i].cooldown_until_ms == if clock[i] + pool[i].cooldown_ms
                        <= u64::MAX {
                        clock[i] + pool[i].cooldown_ms
                    } else {
                        u64::MAX as int
                    }
                },
            }
        }),
{
    let pool = before.pool;
    let weights = Seq::new(pool.len(), |j: int| pool[j].weight as int);
    let open = Seq::new(
        pool.len(),
        |j: int| pool[j].healthy || clock[j] >= pool[j].cooldown_until_ms,
    );
    assert(weights_of(pool) =~= weights);
    assert(eligible_of(pool, clock) =~= open);
    match result {
        Err(e) => {
            assert forall|j: int| 0 <= j < pool.len() implies !(#[trigger] pool[j]).healthy
                && clock[j] < pool[j].cooldown_until_ms by {
                assert(!pool[j].eligible_at(clock[j]));
            }
        },
        Ok(pick) => {
            let credited = crate::round_robin::raised(weights, open, before.current);
            assert forall|j: int|
                0 <= j < pool.len() && ((#[trigger] pool[j]).healthy || clock[j]
                    >= pool[j].cooldown_until_ms) implies before.current[j] + pool[j].weight
                <= before.current[pick as int] + pool[pick as int].weight && (j < pick
                ==> before.current[j] + pool[j].weight < before.current[pick as int]
                + pool[pick as int].weight) by {
                assert(open[j]);
                assert(credited[j] <= credited[pick as int]);
            }
        },
    }
}

/// A selection can be made whenever some backend is healthy or has waited out
/// its cooldown, and has one outcome.
pub proof fn law_selection_has_one_outcome(
    before: BalancerView,
    clock: Seq<u64>,
    one: Result<usize, ProxyError>,
    after_one: BalancerView,
    other: Result<usize, ProxyError>,
    after_other: BalancerView,
)
    requires
        before.selects(clock, one, after_one),
        before.selects(clock, other, after_other),
        before.current.len() == before.pool.len(),
    ensures
        one is Ok <==> exists|j: int|
            0 <= j < before.pool.len() && ((#[trigger] before.pool[j]).healthy || clock[j]
                >= before.pool[j].cooldown_until_ms),
        one is Ok <==> other is Ok,
        one matches Ok(i) ==> other == Ok::<usize, ProxyError>(i),
        after_one == after_other,
{
    law_selection_is_exact(before, clock, one, after_one);
    law_selection_is_exact(before, clock, other, after_other);
    if let Ok(i) = one {
        assert(before.pool[i as int].healthy || clock[i as int]
            >= before.pool[i as int].cooldown_until_ms);
        match other {
            Ok(j) => {
                assert(before.pool[j as int].healthy || clock[j as int]
                    >= before.pool[j as int].cooldown_until_ms);
            },
            Err(_) => {},
        }
    } else if let Ok(j) = other {
        assert(before.pool[j as int].healthy || clock[j as int]
            >= before.pool[j as int].cooldown_until_ms);
    }
}

proof fn lemma_course_keeps_pool(
    states: Seq<BalancerView>,
    clocks: Seq<Seq<u64>>,
    picks: Seq<usize>,
    t: int,
)
    requires
        course(states, clocks, picks),
        0 <= t <= picks.len(),
    ensures
        states[t].pool.len() == states[t].current.len() == states[0].pool.len(),
        forall|j: int|
            #![trigger states[t].pool[j]]
            0 <= j < states[0].pool.len() ==> states[t].pool[j].weight == states[0].pool[j].weight,
    decreases t,
{
    if t > 0 {
        lemma_course_keeps_pool(states, clocks, picks, t - 1);
        assert(states[t - 1].selects(clocks[t - 1], Ok(picks[t - 1]), states[t]));
        law_selection_is_exact(states[t - 1], clocks[t - 1], Ok(picks[t - 1]), states[t]);
        assert forall|j: int| 0 <= j < states[0].pool.len() implies (
        #[trigger] states[t].pool[j]).weight == states[0].pool[j].weight by {
            assert(states[t - 1].pool[j].weight == states[0].pool[j].weight);
            if j != picks[t - 1] || states[t - 1].pool[j].healthy {
                assert(states[t].pool[j] == states[t - 1].pool[j]);
            }
        }
    }
}

proof fn lemma_picked_no_less(picks: Seq<usize>, n: int, i: int)
    requires
        0 <= n <= picks.len(),
    ensures
        times_picked(picks.take(n), i) <= times_picked(picks, i),
    decreases picks.len() - n,
{
    if n == picks.len() {
        assert(picks.take(n) =~= picks);
    } else {
        lemma_picked_no_less(picks, n + 1, i);
        assert(picks.take(n + 1).drop_last() =~= picks.take(n));
    }
}

/// A backend of positive weight that may be given requests, such as an ejected
/// one whose cooldown has elapsed, does not wait for long, whether or not
/// others are healthy: from a fresh balancer, while the same backends stay
/// open to requests, there are fewer selections that pass it over than the
/// weights of the open backends add up to.
pub proof fn law_open_backend_is_tried(
    states: Seq<BalancerView>,
    clocks: Seq<Seq<u64>>,
    picks: Seq<usize>,
    open: Seq<bool>,
    i: int,
)
    requires
        course(states, clocks, picks),
        forall|j: int|
            #![trigger states[0].current[j]]
            0 <= j < states[0].current.len() ==> states[0].current[j] == 0,
        open.len() == states[0].pool.len(),
        forall|t: int, j: int|
            #![trigger states[t].pool[j]]
            0 <= t < picks.len() && 0 <= j < open.len() ==> (open[j] <==> states[t].pool[j].healthy
                || clocks[t][j] >= states[t].pool[j].cooldown_until_ms),
        0 <= i < open.len(),
        open[i],
        states[0].pool[i].weight > 0,
        forall|t: int| #![trigger picks[t]] 0 <= t < picks.len() ==> picks[t] != i,
    ensures
        picks.len() < crate::round_robin::total_weight(
            Seq::new(states[0].pool.len(), |j: int| states[0].pool[j].weight as int),
            open,
        ),
{
    let weights = Seq::new(states[0].pool.len(), |j: int| states[0].pool[j].weight as int);
    assert(weights =~= weights_of(states[0].pool));
    let total = crate::round_robin::total_weight(weights, open);
    if picks.len() >= total {
        crate::round_robin::lemma_total_not_negative(weights, open);
        let s = states.take(total + 1);
        let c = clocks.take(total);
        let p = picks.take(total);
        assert forall|t: int| 0 <= t < p.len() implies s[t].selects(
            c[t],
            Ok(#[trigger] p[t]),
            s[t + 1],
        ) by {
            assert(picks[t] == p[t]);
        }
        assert forall|t: int| 0 <= t < p.len() implies #[trigger] eligible_of(s[t].pool, c[t])
            == open by {
            lemma_course_keeps_pool(states, clocks, picks, t);
            assert forall|j: int| 0 <= j < open.len() implies #[trigger] eligible_of(
                s[t].pool,
                c[t],
            )[j] == open[j] by {
                assert(states[t].pool[j] == s[t].pool[j]);
            }
            assert(eligible_of(s[t].pool, c[t]) =~= open);
        }
        assert(s[0] == states[0]);
        assert(course(s, c, p));
        law_traffic_follows_weights(s, c, p, open);
        assert(times_picked(p, i) == s[0].pool[i].weight);
        lemma_picked_no_less(picks, total, i);
        lemma_never_picked(picks, i);
    }
}

proof fn lemma_never_picked(picks: Seq<usize>, i: int)
    requires
        forall|t: int| #![trigger picks[t]] 0 <= t < picks.len() ==> picks[t] != i,
    ensures
        times_picked(picks, i) == 0,
    decreases picks.len(),
{
    if picks.len() > 0 {
        let before = picks.drop_last();
        assert forall|t: int| 0 <= t < before.len() implies #[trigger] before[t] != i by {
            assert(picks[t] == before[t]);
        }
        assert(picks[picks.len() - 1] != i);
        lemma_never_picked(before, i);
    }
}

proof fn lemma_passed_over(
    states: Seq<BalancerView>,
    clocks: Seq<Seq<u64>>,
    picks: Seq<usize>,
    i: int,
    t: int,
)
    requires
        course(states, clocks, picks),
        crate::round_robin::balanced(states[0].current, u32::MAX as int),
        0 <= i < states[0].pool.len(),
        forall|s: int|
            #![trigger states[s].pool[i]]
            0 <= s < picks.len() ==> states[s].pool[i].healthy || clocks[s][i]
                >= states[s].pool[i].cooldown_until_ms,
        forall|s: int| #![trigger picks[s]] 0 <= s < picks.len() ==> picks[s] != i,
        0 <= t <= picks.len(),
    ensures
        states[t].current[i] == states[0].current[i] + t * states[0].pool[i].weight,
        crate::round_robin::balanced(states[t].current, u32::MAX as int),
    decreases t,
{
    if t > 0 {
        let s = t - 1;
        lemma_passed_over(states, clocks, picks, i, s);
        lemma_course_keeps_pool(states, clocks, picks, s);
        assert(states[s].selects(clocks[s], Ok(picks[s]), states[t]));
        law_selection_is_exact(states[s], clocks[s], Ok(picks[s]), states[t]);
        let weights = weights_of(states[s].pool);
        assert forall|j: int| 0 <= j < weights.len() implies 0 <= #[trigger] weights[j]
            <= u32::MAX by {}
        crate::round_robin::law_balance_kept(
            weights,
            eligible_of(states[s].pool, clocks[s]),
            states[s].current,
            picks[s] as int,
            u32::MAX as int,
        );
        let w = states[0].pool[i].weight as int;
        assert(states[s].pool[i].weight == w);
        assert(states[t].current[i] == states[s].current[i] + w);
        assert(t * w == s * w + w) by (nonlinear_arith)
            requires
                s == t - 1,
        ;
    } else {
        assert(0 * states[0].pool[i].weight == 0);
    }
}

/// No backend starves. One of positive weight that may be given requests is
/// credited with its weight at every selection that passes it over, so that
/// these are limited in number, whatever becomes of the other backends
/// meanwhile.
pub proof fn law_no_backend_starves(
    states: Seq<BalancerView>,
    clocks: Seq<Seq<u64>>,
    picks: Seq<usize>,
    i: int,
)
    requires
        course(states, clocks, picks),
        forall|j: int|
            #![trigger states[0].current[j]]
            0 <= j < states[0].current.len() ==> states[0].current[j] == 0,
        0 <= i < states[0].pool.len(),
        forall|t: int|
            #![trigger states[t].pool[i]]
            0 <= t < picks.len() ==> states[t].pool[i].healthy || clocks[t][i]
                >= states[t].pool[i].cooldown_until_ms,
        forall|t: int| #![trigger picks[t]] 0 <= t < picks.len() ==> picks[t] != i,
    ensures
        states.last().current[i] == picks.len() * states[0].pool[i].weight,
        picks.len() * states[0].pool[i].weight <= u32::MAX * (states[0].pool.len() - 1),
{
    let n = states[0].pool.len();
    assert(states[0].current =~= Seq::new(n, |j: int| 0int));
    crate::round_robin::lemma_zero_balanced(n, u32::MAX as int);
    lemma_passed_over(states, clocks, picks, i, picks.len() as int);
    lemma_course_keeps_pool(states, clocks, picks, picks.len() as int);
    crate::round_robin::law_running_weights_bounded(states.last().current, u32::MAX as int);
}

/// The time of each backend is the whole milliseconds from the start of its
/// clock to its own reading, at the most as many as 64 bits hold.
pub proof fn law_each_backend_has_its_own_time(
    balancer: BalancerView,
    readings: Seq<std::time::Instant>,
)
    ensures
        balancer.times_at(readings).len() == balancer.pool.len(),
        forall|i: int|
            #![trigger balancer.times_at(readings)[i]]
            0 <= i < balancer.pool.len() ==> balancer.times_at(readings)[i] == (
            if crate::upstream::millis_in(
                crate::upstream::span_between(readings[i], balancer.pool[i].created),
            ) <= u64::MAX {
                crate::upstream::millis_in(
                    crate::upstream::span_between(readings[i], balancer.pool[i].created),
                ) as int
            } else {
                u64::MAX as int
            }),
{
}

/// A balancer takes as many backends as it can weigh with 64 bits.
pub proof fn law_as_many_backends_as_can_be_weighed()
    ensures
        MAX_BACKENDS * u32::MAX <= i64::MAX,
        (MAX_BACKENDS + 2) * u32::MAX > i64::MAX,
{
    assert(0x7fff_ffffint * 0xffff_ffffint <= 0x7fff_ffff_ffff_ffffint) by (nonlinear_arith);
    assert(0x8000_0001int * 0xffff_ffffint > 0x7fff_ffff_ffff_ffffint) by (nonlinear_arith);
}

} // verus!
