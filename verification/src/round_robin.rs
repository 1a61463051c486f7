//! The arithmetic of smooth weighted round-robin, and the laws it obeys.
//!
//! A rotation over `n` backends is described by three sequences of length
//! `n`: the weights, the eligibility mask and the running weights. One
//! selection raises every eligible running weight by its weight, picks the
//! first greatest of them, and charges the eligible total to the pick.
use vstd::prelude::*;

verus! {

/// Sum of the first `k` entries of `x` that `mask` keeps.
pub open spec fn masked_sum(x: Seq<int>, mask: Seq<bool>, k: nat) -> int
    decreases k,
{
    if k == 0 {
        0
    } else {
        masked_sum(x, mask, (k - 1) as nat) + if mask[k - 1] {
            x[k - 1]
        } else {
            0
        }
    }
}

/// How many of the first `k` entries `mask` keeps.
pub open spec fn mask_count(mask: Seq<bool>, k: nat) -> nat
    decreases k,
{
    if k == 0 {
        0
    } else {
        mask_count(mask, (k - 1) as nat) + if mask[k - 1] {
            1nat
        } else {
            0
        }
    }
}

/// Sum of the weights of the eligible backends.
pub open spec fn total_weight(weights: Seq<int>, eligible: Seq<bool>) -> int {
    masked_sum(weights, eligible, weights.len())
}

/// The running weights once every eligible backend has been credited.
pub open spec fn raised(weights: Seq<int>, eligible: Seq<bool>, current: Seq<int>) -> Seq<int> {
    Seq::new(
        current.len(),
        |i: int|
            if eligible[i] {
                current[i] + weights[i]
            } else {
                current[i]
            },
    )
}

/// Among the first `k` backends, `i` is the first eligible one whose
/// credited weight is greatest.
pub open spec fn leads(credited: Seq<int>, eligible: Seq<bool>, k: nat, i: int) -> bool {
    &&& 0 <= i < k
    &&& eligible[i]
    &&& forall|j: int|
        #![trigger credited[j]]
        0 <= j < k && eligible[j] ==> credited[j] <= credited[i] && (j < i ==> credited[j]
            < credited[i])
}

/// `i` is the first eligible backend whose credited weight is greatest.
pub open spec fn is_winner(credited: Seq<int>, eligible: Seq<bool>, i: int) -> bool {
    leads(credited, eligible, credited.len(), i)
}

/// The running weights after a selection that picked `i`.
pub open spec fn charged(
    weights: Seq<int>,
    eligible: Seq<bool>,
    current: Seq<int>,
    i: int,
) -> Seq<int> {
    let credited = raised(weights, eligible, current);
    credited.update(i, credited[i] - total_weight(weights, eligible))
}

/// The backend that a selection picks.
pub open spec fn chosen(weights: Seq<int>, eligible: Seq<bool>, current: Seq<int>) -> int {
    choose|i: int| is_winner(raised(weights, eligible, current), eligible, i)
}

/// The running weights of a rotation that started from zero, after `t`
/// selections over an unchanging set of eligible backends.
pub open spec fn running(weights: Seq<int>, eligible: Seq<bool>, t: nat) -> Seq<int>
    decreases t,
{
    if t == 0 {
        Seq::new(weights.len(), |i: int| 0int)
    } else {
        let before = running(weights, eligible, (t - 1) as nat);
        charged(weights, eligible, before, chosen(weights, eligible, before))
    }
}

/// How often the first `t` selections of that rotation picked backend `i`.
pub open spec fn tally(weights: Seq<int>, eligible: Seq<bool>, i: int, t: nat) -> nat
    decreases t,
{
    if t == 0 {
        0
    } else {
        tally(weights, eligible, i, (t - 1) as nat) + if chosen(
            weights,
            eligible,
            running(weights, eligible, (t - 1) as nat),
        ) == i {
            1nat
        } else {
            0
        }
    }
}

/// Weights and mask describe the same non-empty set of eligible backends.
pub open spec fn rotation(weights: Seq<int>, eligible: Seq<bool>) -> bool {
    &&& weights.len() == eligible.len()
    &&& forall|i: int| #![trigger weights[i]] 0 <= i < weights.len() ==> weights[i] >= 0
    &&& exists|i: int| 0 <= i < eligible.len() && #[trigger] eligible[i]
}

/// The mask that keeps all of `n` entries.
pub open spec fn everyone(n: nat) -> Seq<bool> {
    Seq::new(n, |i: int| true)
}

/// The mask that keeps entry `i` of `n`.
pub open spec fn only(n: nat, i: int) -> Seq<bool> {
    Seq::new(n, |j: int| j == i)
}

/// The running weights add up to zero, and no group of backends has
/// gathered more credit than `cap` times the number of ways to pair one of
/// the group with one of the others.
pub open spec fn balanced(current: Seq<int>, cap: int) -> bool {
    let n = current.len();
    &&& masked_sum(current, everyone(n), n) == 0
    &&& forall|mask: Seq<bool>|
        mask.len() == n ==> #[trigger] masked_sum(current, mask, n) <= cap * (mask_count(mask, n)
            * (n - mask_count(mask, n)))
}

proof fn lemma_leader(credited: Seq<int>, eligible: Seq<bool>, k: nat, some: int) -> (i: int)
    requires
        credited.len() == eligible.len(),
        0 <= some < k <= credited.len(),
        eligible[some],
    ensures
        leads(credited, eligible, k, i),
    decreases k,
{
    let last = k - 1;
    if some < last {
        let b = lemma_leader(credited, eligible, last as nat, some);
        if eligible[last] && credited[last] > credited[b] {
            last
        } else {
            b
        }
    } else {
        if exists|j: int| 0 <= j < last && #[trigger] eligible[j] {
            let j = choose|j: int| 0 <= j < last && #[trigger] eligible[j];
            let b = lemma_leader(credited, eligible, last as nat, j);
            if credited[last] > credited[b] {
                last
            } else {
                b
            }
        } else {
            last
        }
    }
}

/// A selection over at least one eligible backend has exactly one winner.
pub proof fn lemma_one_winner(credited: Seq<int>, eligible: Seq<bool>)
    requires
        credited.len() == eligible.len(),
        exists|i: int| 0 <= i < eligible.len() && #[trigger] eligible[i],
    ensures
        exists|i: int| is_winner(credited, eligible, i),
        forall|i: int, j: int|
            is_winner(credited, eligible, i) && is_winner(credited, eligible, j) ==> i == j,
{
    let some = choose|i: int| 0 <= i < eligible.len() && #[trigger] eligible[i];
    let b = lemma_leader(credited, eligible, credited.len(), some);
    assert(is_winner(credited, eligible, b));
    assert forall|i: int, j: int|
        is_winner(credited, eligible, i) && is_winner(credited, eligible, j) implies i == j by {
        assert(credited[i] <= credited[j]);
        assert(credited[j] <= credited[i]);
    }
}

/// The entries that both masks keep.
pub open spec fn both(a: Seq<bool>, b: Seq<bool>) -> Seq<bool> {
    Seq::new(a.len(), |i: int| a[i] && b[i])
}

/// The entries that `a` keeps and `b` does not.
pub open spec fn without(a: Seq<bool>, b: Seq<bool>) -> Seq<bool> {
    Seq::new(a.len(), |i: int| a[i] && !b[i])
}

proof fn lemma_sum_raised(
    weights: Seq<int>,
    eligible: Seq<bool>,
    current: Seq<int>,
    mask: Seq<bool>,
    k: nat,
)
    requires
        weights.len() == eligible.len() == current.len() == mask.len(),
        k <= mask.len(),
    ensures
        masked_sum(raised(weights, eligible, current), mask, k) == masked_sum(current, mask, k)
            + masked_sum(weights, both(mask, eligible), k),
    decreases k,
{
    if k > 0 {
        lemma_sum_raised(weights, eligible, current, mask, (k - 1) as nat);
    }
}

proof fn lemma_sum_update(x: Seq<int>, mask: Seq<bool>, k: nat, i: int, v: int)
    requires
        x.len() == mask.len(),
        k <= mask.len(),
        0 <= i < x.len(),
    ensures
        masked_sum(x.update(i, v), mask, k) == masked_sum(x, mask, k) + if i < k && mask[i] {
            v - x[i]
        } else {
            0
        },
    decreases k,
{
    if k > 0 {
        lemma_sum_update(x, mask, (k - 1) as nat, i, v);
    }
}

/// A greater mask over non-negative entries has a greater sum.
proof fn lemma_sum_monotone(x: Seq<int>, small: Seq<bool>, large: Seq<bool>, k: nat)
    requires
        x.len() == small.len() == large.len(),
        k <= x.len(),
        forall|i: int| #![trigger x[i]] 0 <= i < k ==> x[i] >= 0,
        forall|i: int| #![trigger small[i]] 0 <= i < k && small[i] ==> large[i],
    ensures
        0 <= masked_sum(x, small, k) <= masked_sum(x, large, k),
    decreases k,
{
    if k > 0 {
        lemma_sum_monotone(x, small, large, (k - 1) as nat);
        assert(small[k - 1] ==> large[k - 1]);
        assert(x[k - 1] >= 0);
    }
}

/// Entries that do not exceed `top` sum to at most `top` apiece.
proof fn lemma_sum_bounded(x: Seq<int>, mask: Seq<bool>, k: nat, top: int)
    requires
        x.len() == mask.len(),
        k <= x.len(),
        forall|i: int| #![trigger x[i]] 0 <= i < k && mask[i] ==> x[i] <= top,
    ensures
        masked_sum(x, mask, k) <= top * mask_count(mask, k),
    decreases k,
{
    if k > 0 {
        lemma_sum_bounded(x, mask, (k - 1) as nat, top);
        let c = mask_count(mask, (k - 1) as nat);
        assert(top * (c + 1) == top * c + top) by (nonlinear_arith);
    } else {
        assert(top * 0 == 0) by (nonlinear_arith);
    }
}

proof fn lemma_count_range(mask: Seq<bool>, k: nat)
    requires
        k <= mask.len(),
    ensures
        mask_count(mask, k) <= k,
    decreases k,
{
    if k > 0 {
        lemma_count_range(mask, (k - 1) as nat);
    }
}

/// A selection moves credit between eligible backends and creates none.
proof fn lemma_sum_charged(
    weights: Seq<int>,
    eligible: Seq<bool>,
    current: Seq<int>,
    i: int,
    mask: Seq<bool>,
)
    requires
        weights.len() == eligible.len() == current.len() == mask.len(),
        0 <= i < current.len(),
    ensures
        masked_sum(charged(weights, eligible, current, i), mask, mask.len()) == masked_sum(
            current,
            mask,
            mask.len(),
        ) + masked_sum(weights, both(mask, eligible), mask.len()) - if mask[i] {
            total_weight(weights, eligible)
        } else {
            0
        },
{
    let credited = raised(weights, eligible, current);
    lemma_sum_raised(weights, eligible, current, mask, mask.len());
    lemma_sum_update(
        credited,
        mask,
        mask.len(),
        i,
        credited[i] - total_weight(weights, eligible),
    );
}

proof fn lemma_running(weights: Seq<int>, eligible: Seq<bool>, t: nat)
    requires
        rotation(weights, eligible),
    ensures
        running(weights, eligible, t).len() == weights.len(),
        masked_sum(running(weights, eligible, t), eligible, weights.len()) == 0,
        forall|i: int|
            #![trigger running(weights, eligible, t)[i]]
            0 <= i < weights.len() ==> running(weights, eligible, t)[i] == if eligible[i] {
                t * weights[i] - tally(weights, eligible, i, t) * total_weight(weights, eligible)
            } else {
                0
            },
        forall|i: int|
            #![trigger eligible[i]]
            0 <= i < weights.len() && !eligible[i] ==> tally(weights, eligible, i, t) == 0,
        t > 0 ==> is_winner(
            raised(weights, eligible, running(weights, eligible, (t - 1) as nat)),
            eligible,
            chosen(weights, eligible, running(weights, eligible, (t - 1) as nat)),
        ),
    decreases t,
{
    let n = weights.len();
    let total = total_weight(weights, eligible);
    if t == 0 {
        lemma_sum_zero(running(weights, eligible, 0), eligible, n);
        assert forall|i: int| 0 <= i < n implies #[trigger] running(weights, eligible, t)[i]
            == if eligible[i] {
            t * weights[i] - tally(weights, eligible, i, t) * total
        } else {
            0
        } by {
            assert(0 * weights[i] == 0) by (nonlinear_arith);
            assert(0 * total == 0) by (nonlinear_arith);
        }
    } else {
        let s = (t - 1) as nat;
        lemma_running(weights, eligible, s);
        let before = running(weights, eligible, s);
        let credited = raised(weights, eligible, before);
        lemma_one_winner(credited, eligible);
        let pick = chosen(weights, eligible, before);
        assert(is_winner(credited, eligible, pick));
        lemma_sum_charged(weights, eligible, before, pick, eligible);
        assert(both(eligible, eligible) =~= eligible);
        assert forall|i: int| 0 <= i < n implies #[trigger] running(weights, eligible, t)[i]
            == if eligible[i] {
            t * weights[i] - tally(weights, eligible, i, t) * total
        } else {
            0
        } by {
            let c = tally(weights, eligible, i, s);
            assert(before[i] == before[i]);
            assert((s + 1) * weights[i] == s * weights[i] + weights[i]) by (nonlinear_arith);
            assert((c + 1) * total == c * total + total) by (nonlinear_arith);
        }
    }
}

proof fn lemma_sum_zero(x: Seq<int>, mask: Seq<bool>, k: nat)
    requires
        k <= x.len(),
        forall|i: int| #![trigger x[i]] 0 <= i < k ==> x[i] == 0,
    ensures
        masked_sum(x, mask, k) == 0,
    decreases k,
{
    if k > 0 {
        lemma_sum_zero(x, mask, (k - 1) as nat);
    }
}

/// Every running weight stays above minus the eligible total, so a backend
/// is never a whole turn ahead of its share: after `t` selections it has been
/// picked fewer than `t * weight / total + 1` times.
pub proof fn law_never_a_turn_ahead(weights: Seq<int>, eligible: Seq<bool>, t: nat)
    requires
        rotation(weights, eligible),
        total_weight(weights, eligible) > 0,
    ensures
        forall|i: int|
            #![trigger running(weights, eligible, t)[i]]
            0 <= i < weights.len() ==> running(weights, eligible, t)[i] > -total_weight(
                weights,
                eligible,
            ),
        forall|i: int|
            #![trigger tally(weights, eligible, i, t)]
            0 <= i < weights.len() && eligible[i] ==> tally(weights, eligible, i, t) * total_weight(
                weights,
                eligible,
            ) < t * weights[i] + total_weight(weights, eligible),
    decreases t,
{
    let n = weights.len();
    let total = total_weight(weights, eligible);
    lemma_running(weights, eligible, t);
    if t > 0 {
        let s = (t - 1) as nat;
        law_never_a_turn_ahead(weights, eligible, s);
        lemma_running(weights, eligible, s);
        let before = running(weights, eligible, s);
        let credited = raised(weights, eligible, before);
        let pick = chosen(weights, eligible, before);
        lemma_sum_raised(weights, eligible, before, eligible, n);
        assert(both(eligible, eligible) =~= eligible);
        assert(credited[pick] > 0) by {
            if credited[pick] <= 0 {
                lemma_sum_bounded(credited, eligible, n, 0);
                assert(0 * mask_count(eligible, n) == 0) by (nonlinear_arith);
            }
        }
        assert forall|i: int| 0 <= i < n implies #[trigger] running(weights, eligible, t)[i]
            > -total by {
            assert(before[i] > -total);
            assert(weights[i] >= 0);
        }
    }
    assert forall|i: int| 0 <= i < n && eligible[i] implies #[trigger] tally(
        weights,
        eligible,
        i,
        t,
    ) * total < t * weights[i] + total by {
        assert(running(weights, eligible, t)[i] > -total);
    }
}

proof fn lemma_tallies_sum(weights: Seq<int>, eligible: Seq<bool>, t: nat)
    requires
        rotation(weights, eligible),
    ensures
        masked_sum(
            Seq::new(weights.len(), |i: int| tally(weights, eligible, i, t) as int),
            eligible,
            weights.len(),
        ) == t,
    decreases t,
{
    let n = weights.len();
    let now = Seq::new(n, |i: int| tally(weights, eligible, i, t) as int);
    lemma_running(weights, eligible, t);
    if t == 0 {
        lemma_sum_zero(now, eligible, n);
    } else {
        let s = (t - 1) as nat;
        lemma_tallies_sum(weights, eligible, s);
        let was = Seq::new(n, |i: int| tally(weights, eligible, i, s) as int);
        let pick = chosen(weights, eligible, running(weights, eligible, s));
        lemma_sum_update(was, eligible, n, pick, was[pick] + 1);
        assert(now =~= was.update(pick, was[pick] + 1));
    }
}

/// Non-negative entries that sum to zero are all zero.
proof fn lemma_zero_sum(x: Seq<int>, mask: Seq<bool>, k: nat)
    requires
        x.len() == mask.len(),
        k <= x.len(),
        forall|i: int| #![trigger x[i]] 0 <= i < k && mask[i] ==> x[i] >= 0,
        masked_sum(x, mask, k) <= 0,
    ensures
        masked_sum(x, mask, k) == 0,
        forall|i: int| #![trigger x[i]] 0 <= i < k && mask[i] ==> x[i] == 0,
    decreases k,
{
    if k > 0 {
        assert(mask[k - 1] ==> x[k - 1] >= 0);
        lemma_zero_sum(x, mask, (k - 1) as nat);
    }
}

proof fn lemma_sum_difference(a: Seq<int>, b: Seq<int>, mask: Seq<bool>, k: nat)
    requires
        a.len() == b.len() == mask.len(),
        k <= a.len(),
    ensures
        masked_sum(Seq::new(a.len(), |i: int| a[i] - b[i]), mask, k) == masked_sum(a, mask, k)
            - masked_sum(b, mask, k),
    decreases k,
{
    if k > 0 {
        lemma_sum_difference(a, b, mask, (k - 1) as nat);
    }
}

/// Traffic is proportional to weight: out of as many consecutive selections
/// as the eligible weights add up to, each eligible backend is picked exactly
/// as often as its weight says and every other backend never, and the
/// rotation is then back where it began.
pub proof fn law_proportional(weights: Seq<int>, eligible: Seq<bool>)
    requires
        rotation(weights, eligible),
    ensures
        forall|i: int|
            #![trigger weights[i]]
            0 <= i < weights.len() ==> tally(
                weights,
                eligible,
                i,
                total_weight(weights, eligible) as nat,
            ) == if eligible[i] {
                weights[i]
            } else {
                0
            },
        running(weights, eligible, total_weight(weights, eligible) as nat) == running(
            weights,
            eligible,
            0,
        ),
{
    let n = weights.len();
    let total = total_weight(weights, eligible);
    lemma_sum_monotone(weights, eligible, eligible, n);
    let t = total as nat;
    let tallies = Seq::new(n, |i: int| tally(weights, eligible, i, t) as int);
    lemma_running(weights, eligible, t);
    lemma_tallies_sum(weights, eligible, t);
    let short = Seq::new(n, |i: int| weights[i] - tallies[i]);
    lemma_sum_difference(weights, tallies, eligible, n);
    assert forall|i: int| 0 <= i < n && eligible[i] implies #[trigger] short[i] >= 0 by {
        if total > 0 {
            law_never_a_turn_ahead(weights, eligible, t);
            let c = tally(weights, eligible, i, t);
            let w = weights[i];
            assert(c * total < t * w + total);
            assert(c <= w) by (nonlinear_arith)
                requires
                    c * total < t * w + total,
                    t == total,
                    total > 0,
            ;
        } else {
            assert(weights[i] >= 0);
        }
    }
    lemma_zero_sum(short, eligible, n);
    assert forall|i: int| 0 <= i < n implies tally(weights, eligible, i, t) == if eligible[i] {
        #[trigger] weights[i]
    } else {
        0
    } by {
        assert(short[i] == weights[i] - tallies[i]);
    }
    assert forall|i: int| 0 <= i < n implies #[trigger] running(weights, eligible, t)[i]
        == 0 by {
        let w = weights[i];
        assert(t * w == w * t) by (nonlinear_arith);
    }
    assert(running(weights, eligible, t) =~= running(weights, eligible, 0));
}

proof fn lemma_sum_split(x: Seq<int>, mask: Seq<bool>, by: Seq<bool>, k: nat)
    requires
        x.len() == mask.len() == by.len(),
        k <= x.len(),
    ensures
        masked_sum(x, mask, k) == masked_sum(x, both(mask, by), k) + masked_sum(
            x,
            without(mask, by),
            k,
        ),
        mask_count(mask, k) == mask_count(both(mask, by), k) + mask_count(without(mask, by), k),
    decreases k,
{
    if k > 0 {
        lemma_sum_split(x, mask, by, (k - 1) as nat);
    }
}

proof fn lemma_sum_add(x: Seq<int>, mask: Seq<bool>, k: nat, i: int)
    requires
        x.len() == mask.len(),
        k <= x.len(),
        0 <= i < x.len(),
        !mask[i],
    ensures
        masked_sum(x, mask.update(i, true), k) == masked_sum(x, mask, k) + if i < k {
            x[i]
        } else {
            0
        },
        mask_count(mask.update(i, true), k) == mask_count(mask, k) + if i < k {
            1nat
        } else {
            0
        },
    decreases k,
{
    if k > 0 {
        lemma_sum_add(x, mask, (k - 1) as nat, i);
    }
}

/// The step of the group bound: what a group holds after a selection that it
/// did not win, out of what its eligible part, its other part and the winner
/// held before.
proof fn lemma_group_bound(
    held: int,
    rest: int,
    winner: int,
    gained: int,
    winner_weight: int,
    cap: int,
    a: int,
    c: int,
    n: int,
)
    requires
        0 <= a <= c < n,
        held + gained <= a * (winner + winner_weight),
        held + rest + winner <= cap * ((c + 1) * (n - (c + 1))),
        rest <= cap * ((c - a) * (n - (c - a))),
        gained <= cap * a,
        winner_weight <= cap,
    ensures
        held + gained + rest <= cap * (c * (n - c)),
{
    let lhs = held + gained + rest;
    let big = (c + 1) * (n - (c + 1));
    let small = (c - a) * (n - (c - a));
    assert((a + 1) * lhs <= a * (held + rest + winner) + a * (gained + winner_weight) + rest)
        by (nonlinear_arith)
        requires
            lhs == held + gained + rest,
            held + gained <= a * (winner + winner_weight),
    ;
    assert(a * (held + rest + winner) <= a * (cap * big)) by (nonlinear_arith)
        requires
            held + rest + winner <= cap * big,
            0 <= a,
    ;
    assert(a * (gained + winner_weight) <= a * (cap * (a + 1))) by (nonlinear_arith)
        requires
            gained <= cap * a,
            winner_weight <= cap,
            0 <= a,
    ;
    assert(a * big + a * (a + 1) + small == (a + 1) * (c * (n - c))) by (nonlinear_arith)
        requires
            big == (c + 1) * (n - (c + 1)),
            small == (c - a) * (n - (c - a)),
    ;
    let goal = c * (n - c);
    assert(a * (cap * big) + a * (cap * (a + 1)) + cap * small == cap * (a * big + a * (a + 1)
        + small)) by (nonlinear_arith);
    assert(cap * ((a + 1) * goal) == (a + 1) * (cap * goal)) by (nonlinear_arith);
    assert(lhs <= cap * goal) by (nonlinear_arith)
        requires
            (a + 1) * lhs <= (a + 1) * (cap * goal),
            0 <= a,
    ;
}

/// A selection keeps the running weights balanced, whichever backends were
/// eligible for it.
pub proof fn law_balance_kept(
    weights: Seq<int>,
    eligible: Seq<bool>,
    current: Seq<int>,
    i: int,
    cap: int,
)
    requires
        weights.len() == eligible.len() == current.len(),
        forall|j: int| #![trigger weights[j]] 0 <= j < weights.len() ==> 0 <= weights[j] <= cap,
        balanced(current, cap),
        is_winner(raised(weights, eligible, current), eligible, i),
    ensures
        balanced(charged(weights, eligible, current, i), cap),
{
    let n = current.len();
    let credited = raised(weights, eligible, current);
    let after = charged(weights, eligible, current, i);
    let all = everyone(n);
    lemma_sum_charged(weights, eligible, current, i, all);
    assert(both(all, eligible) =~= eligible);
    assert forall|mask: Seq<bool>| mask.len() == n implies #[trigger] masked_sum(after, mask, n)
        <= cap * (mask_count(mask, n) * (n - mask_count(mask, n))) by {
        let a = both(mask, eligible);
        lemma_sum_charged(weights, eligible, current, i, mask);
        assert(masked_sum(current, mask, n) <= cap * (mask_count(mask, n) * (n - mask_count(
            mask,
            n,
        ))));
        if mask[i] {
            lemma_sum_monotone(weights, a, eligible, n);
        } else {
            let b = without(mask, eligible);
            let wider = mask.update(i, true);
            lemma_sum_split(current, mask, eligible, n);
            lemma_sum_add(current, mask, n, i);
            lemma_count_range(wider, n);
            lemma_sum_raised(weights, eligible, current, a, n);
            assert(both(a, eligible) =~= a);
            lemma_sum_bounded(credited, a, n, credited[i]);
            lemma_sum_bounded(weights, a, n, cap);
            assert(masked_sum(current, wider, n) <= cap * (mask_count(wider, n) * (n - mask_count(
                wider,
                n,
            ))));
            assert(masked_sum(current, b, n) <= cap * (mask_count(b, n) * (n - mask_count(b, n))));
            let ca = mask_count(a, n) as int;
            assert(credited[i] * ca == ca * (current[i] + weights[i])) by (nonlinear_arith)
                requires
                    credited[i] == current[i] + weights[i],
            ;
            lemma_group_bound(
                masked_sum(current, a, n),
                masked_sum(current, b, n),
                current[i],
                masked_sum(weights, a, n),
                weights[i],
                cap,
                ca,
                mask_count(mask, n) as int,
                n as int,
            );
        }
    }
}

proof fn lemma_single(x: Seq<int>, i: int, k: nat)
    requires
        k <= x.len(),
        0 <= i < x.len(),
    ensures
        masked_sum(x, only(x.len(), i), k) == if i < k {
            x[i]
        } else {
            0
        },
        mask_count(only(x.len(), i), k) == if i < k {
            1nat
        } else {
            0
        },
    decreases k,
{
    if k > 0 {
        lemma_single(x, i, (k - 1) as nat);
    }
}

/// In a balanced rotation of `n` backends no running weight leaves the range
/// of `n - 1` caps around zero.
pub proof fn law_running_weights_bounded(current: Seq<int>, cap: int)
    requires
        balanced(current, cap),
    ensures
        forall|i: int|
            #![trigger current[i]]
            0 <= i < current.len() ==> -cap * (current.len() - 1) <= current[i] <= cap * (
            current.len() - 1),
{
    let n = current.len();
    assert forall|i: int| 0 <= i < n implies -cap * (n - 1) <= #[trigger] current[i] <= cap * (n
        - 1) by {
        let one = only(n, i);
        let all = everyone(n);
        let others = without(all, one);
        lemma_single(current, i, n);
        assert(masked_sum(current, one, n) <= cap * (mask_count(one, n) * (n - mask_count(
            one,
            n,
        ))));
        lemma_sum_split(current, all, one, n);
        assert(both(all, one) =~= one);
        lemma_count_all(n);
        assert(masked_sum(current, others, n) <= cap * (mask_count(others, n) * (n - mask_count(
            others,
            n,
        ))));
        let c = mask_count(one, n) as int;
        let d = mask_count(others, n) as int;
        assert(c * (n - c) == n - 1) by (nonlinear_arith)
            requires
                c == 1,
        ;
        assert(d * (n - d) == n - 1) by (nonlinear_arith)
            requires
                d == n - 1,
        ;
        assert(-cap * (n - 1) == -(cap * (n - 1))) by (nonlinear_arith);
    }
}

/// Where `n - 1` times the greatest weight is no more than all the weights
/// together, as it is when the weights are equal or the backends are two, no
/// running weight leaves the range of that total around zero.
pub proof fn law_within_total(weights: Seq<int>, current: Seq<int>, cap: int)
    requires
        weights.len() == current.len(),
        balanced(current, cap),
        cap * (current.len() - 1) <= total_weight(weights, everyone(weights.len())),
    ensures
        forall|i: int|
            #![trigger current[i]]
            0 <= i < current.len() ==> -total_weight(weights, everyone(weights.len()))
                <= current[i] <= total_weight(weights, everyone(weights.len())),
{
    law_running_weights_bounded(current, cap);
    assert(-cap * (current.len() - 1) == -(cap * (current.len() - 1))) by (nonlinear_arith);
}

proof fn lemma_count_all(n: nat)
    ensures
        mask_count(everyone(n), n) == n,
{
    lemma_count_all_upto(n, n);
}

proof fn lemma_count_all_upto(n: nat, k: nat)
    requires
        k <= n,
    ensures
        mask_count(everyone(n), k) == k,
    decreases k,
{
    if k > 0 {
        lemma_count_all_upto(n, (k - 1) as nat);
    }
}

/// A fresh rotation is balanced.
pub proof fn lemma_zero_balanced(n: nat, cap: int)
    requires
        cap >= 0,
    ensures
        balanced(Seq::new(n, |i: int| 0int), cap),
{
    let zero = Seq::new(n, |i: int| 0int);
    lemma_sum_zero(zero, everyone(n), n);
    assert forall|mask: Seq<bool>| mask.len() == n implies #[trigger] masked_sum(zero, mask, n)
        <= cap * (mask_count(mask, n) * (n - mask_count(mask, n))) by {
        lemma_sum_zero(zero, mask, n);
        lemma_count_range(mask, n);
        let c = mask_count(mask, n);
        assert(0 <= cap * (c * (n - c))) by (nonlinear_arith)
            requires
                cap >= 0,
                c <= n,
        ;
    }
}

proof fn lemma_sum_of_extension(x: Seq<int>, mask: Seq<bool>, v: int, kept: bool, k: nat)
    requires
        x.len() == mask.len(),
        k <= x.len(),
    ensures
        masked_sum(x.push(v), mask.push(kept), k) == masked_sum(x, mask, k),
    decreases k,
{
    if k > 0 {
        lemma_sum_of_extension(x, mask, v, kept, (k - 1) as nat);
    }
}

/// The eligible total of no backends is zero, and one more backend adds its
/// weight to it if it is eligible, and nothing if it is not.
pub proof fn law_total_adds_up(weights: Seq<int>, eligible: Seq<bool>, weight: int, kept: bool)
    requires
        weights.len() == eligible.len(),
    ensures
        total_weight(Seq::empty(), Seq::empty()) == 0,
        kept ==> total_weight(weights.push(weight), eligible.push(true)) == total_weight(
            weights,
            eligible,
        ) + weight,
        !kept ==> total_weight(weights.push(weight), eligible.push(false)) == total_weight(
            weights,
            eligible,
        ),
{
    lemma_sum_of_extension(weights, eligible, weight, kept, weights.len());
}

/// Weights that are not negative add up to a total that is not.
pub proof fn lemma_total_not_negative(weights: Seq<int>, eligible: Seq<bool>)
    requires
        weights.len() == eligible.len(),
        forall|i: int| #![trigger weights[i]] 0 <= i < weights.len() ==> weights[i] >= 0,
    ensures
        total_weight(weights, eligible) >= 0,
{
    lemma_sum_not_negative(weights, eligible, weights.len());
}

proof fn lemma_sum_not_negative(x: Seq<int>, mask: Seq<bool>, k: nat)
    requires
        k <= x.len() == mask.len(),
        forall|i: int| #![trigger x[i]] 0 <= i < x.len() ==> x[i] >= 0,
    ensures
        masked_sum(x, mask, k) >= 0,
    decreases k,
{
    if k > 0 {
        lemma_sum_not_negative(x, mask, (k - 1) as nat);
        assert(x[k - 1] >= 0);
    }
}

} // verus!
