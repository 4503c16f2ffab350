//! Statistics derived from a window or from the counters. They are computed
//! on demand and never stored.
//!
//! Results are whole numbers, rounded to the nearest with halves upwards:
//! latencies in the unit of the samples, the loss in hundredths of a percent.

use crate::target_stats::{timeout_count, success_count, Outcome, StatsView};
use std::collections::VecDeque;
use vstd::prelude::*;

verus! {

/// Sum of the samples of `window` that are latencies, that is, not negative.
pub open spec fn valid_sum(window: Seq<i64>) -> int
    decreases window.len(),
{
    if window.len() == 0 {
        0
    } else if window.last() >= 0 {
        valid_sum(window.drop_last()) + window.last()
    } else {
        valid_sum(window.drop_last())
    }
}

/// Number of the samples of `window` that are latencies.
pub open spec fn valid_count(window: Seq<i64>) -> int
    decreases window.len(),
{
    if window.len() == 0 {
        0
    } else if window.last() >= 0 {
        valid_count(window.drop_last()) + 1
    } else {
        valid_count(window.drop_last())
    }
}

/// The quotient `sum / count`, rounded to the nearest whole number, halves
/// upwards.
pub open spec fn rounded_mean(sum: int, count: int) -> int {
    (2 * sum + count) / (2 * count)
}

/// Mean of the latencies in `window`, rounded to the nearest unit; 0 where
/// it holds none.
pub open spec fn average_of(window: Seq<i64>) -> int {
    if valid_count(window) == 0 {
        0
    } else {
        rounded_mean(valid_sum(window), valid_count(window))
    }
}

/// Whether the samples at `i - 1` and `i` are both latencies.
pub open spec fn is_valid_pair(window: Seq<i64>, i: int) -> bool {
    1 <= i < window.len() && window[i - 1] >= 0 && window[i] >= 0
}

/// Distance between two samples.
pub open spec fn distance(a: i64, b: i64) -> int {
    if a >= b {
        a - b
    } else {
        b - a
    }
}

/// Sum of the distances between neighbours in `window` that are both
/// latencies. A pair with a timeout on either side adds nothing.
pub open spec fn delta_sum(window: Seq<i64>) -> int
    decreases window.len(),
{
    if window.len() < 2 {
        0
    } else if is_valid_pair(window, window.len() - 1) {
        delta_sum(window.drop_last()) + distance(
            window[window.len() - 2],
            window[window.len() - 1],
        )
    } else {
        delta_sum(window.drop_last())
    }
}

/// Number of neighbours in `window` that are both latencies.
pub open spec fn pair_count(window: Seq<i64>) -> int
    decreases window.len(),
{
    if window.len() < 2 {
        0
    } else if is_valid_pair(window, window.len() - 1) {
        pair_count(window.drop_last()) + 1
    } else {
        pair_count(window.drop_last())
    }
}

/// Mean distance between neighbouring latencies in `window`, rounded to the
/// nearest unit; 0 where no two latencies are neighbours.
pub open spec fn jitter_of(window: Seq<i64>) -> int {
    if pair_count(window) == 0 {
        0
    } else {
        rounded_mean(delta_sum(window), pair_count(window))
    }
}

/// What one percent is in the unit of `loss_percentage`.
pub const LOSS_UNITS_PER_PERCENT: u64 = 100;

/// Share of timeouts among all samples, in hundredths of a percent, rounded
/// to the nearest; 0 where there is no sample at all.
pub open spec fn loss_of(timeout_count: nat, received: nat) -> nat {
    if timeout_count + received == 0 {
        0
    } else {
        rounded_mean((timeout_count * 10000) as int, (timeout_count + received) as int) as nat
    }
}

/// The latencies of a window are no more than its samples, and their sum is
/// not negative.
pub proof fn lemma_valid_totals(window: Seq<i64>)
    ensures
        0 <= valid_count(window) <= window.len(),
        0 <= valid_sum(window),
{
    lemma_valid_bounds(window);
}

proof fn lemma_valid_bounds(window: Seq<i64>)
    ensures
        0 <= valid_count(window) <= window.len(),
        0 <= valid_sum(window) <= valid_count(window) * i64::MAX,
    decreases window.len(),
{
    if window.len() > 0 {
        lemma_valid_bounds(window.drop_last());
        assert((valid_count(window.drop_last()) + 1) * i64::MAX == valid_count(
            window.drop_last(),
        ) * i64::MAX + i64::MAX) by (nonlinear_arith);
    }
}

proof fn lemma_pair_bounds(window: Seq<i64>)
    ensures
        0 <= pair_count(window) <= window.len(),
        0 <= delta_sum(window) <= pair_count(window) * i64::MAX,
    decreases window.len(),
{
    if window.len() >= 2 {
        lemma_pair_bounds(window.drop_last());
        assert((pair_count(window.drop_last()) + 1) * i64::MAX == pair_count(window.drop_last())
            * i64::MAX + i64::MAX) by (nonlinear_arith);
    }
}

proof fn lemma_mean_bounds(sum: int, count: int)
    requires
        0 < count <= usize::MAX,
        0 <= sum <= count * i64::MAX,
    ensures
        2 * sum + count <= u128::MAX,
        0 <= rounded_mean(sum, count) <= i64::MAX,
{
    assert(count * i64::MAX <= 0xffff_ffff_ffff_ffff * 0x7fff_ffff_ffff_ffff) by (nonlinear_arith)
        requires
            0 <= count <= 0xffff_ffff_ffff_ffff,
    ;
    assert(0 <= (2 * sum + count) / (2 * count) <= i64::MAX) by (nonlinear_arith)
        requires
            count > 0,
            0 <= sum <= count * i64::MAX,
    ;
}

proof fn lemma_total_fits(count: int, len: int)
    requires
        0 <= count <= len <= usize::MAX,
    ensures
        count * i64::MAX + i64::MAX <= u128::MAX,
{
    assert(count * i64::MAX <= 0xffff_ffff_ffff_ffff * 0x7fff_ffff_ffff_ffff) by (nonlinear_arith)
        requires
            0 <= count <= 0xffff_ffff_ffff_ffff,
    ;
}

/// Sum and number of the latencies in `window`.
pub(crate) fn valid_totals(window: &VecDeque<i64>) -> (totals: (u128, usize))
    ensures
        totals.0 == valid_sum(window@),
        totals.1 == valid_count(window@),
        totals.0 <= totals.1 * i64::MAX,
{
    let mut sum: u128 = 0;
    let mut count: usize = 0;
    let mut i: usize = 0;
    assert(window@.take(0) =~= Seq::empty());
    while i < window.len()
        invariant
            i <= window.len(),
            sum == valid_sum(window@.take(i as int)),
            count == valid_count(window@.take(i as int)),
        decreases window.len() - i,
    {
        let sample = window[i];
        proof {
            lemma_valid_bounds(window@.take(i as int));
            lemma_total_fits(count as int, window.len() as int);
            assert(window@.take(i as int + 1).drop_last() =~= window@.take(i as int));
        }
        if sample >= 0 {
            sum = sum + sample as u128;
            count = count + 1;
        }
        i += 1;
    }
    proof {
        assert(window@.take(i as int) =~= window@);
        lemma_valid_bounds(window@);
    }
    (sum, count)
}

/// Mean of the latencies in `window`, rounded to the nearest unit, halves
/// upwards. Timeouts count neither towards the sum nor towards the number of
/// samples; a window that is empty or holds timeouts only gives 0.
pub fn average_rtt(window: &VecDeque<i64>) -> (mean: i64)
    ensures
        mean == average_of(window@),
        mean >= 0,
{
    let (sum, count) = valid_totals(window);
    if count == 0 {
        0
    } else {
        proof {
            lemma_mean_bounds(sum as int, count as int);
        }
        ((2 * sum + count as u128) / (2 * count as u128)) as i64
    }
}

/// Mean distance between neighbouring latencies in `window`, rounded to the
/// nearest unit, halves upwards. Only neighbours that are both latencies
/// count: a pair with a timeout on either side is left out. Where no pair
/// counts, the jitter is 0.
pub fn jitter(window: &VecDeque<i64>) -> (mean: i64)
    ensures
        mean == jitter_of(window@),
        mean >= 0,
{
    if window.len() < 2 {
        return 0;
    }
    let mut sum: u128 = 0;
    let mut count: usize = 0;
    let mut i: usize = 1;
    proof {
        reveal_with_fuel(delta_sum, 2);
        reveal_with_fuel(pair_count, 2);
    }
    while i < window.len()
        invariant
            1 <= i <= window.len(),
            sum == delta_sum(window@.take(i as int)),
            count == pair_count(window@.take(i as int)),
        decreases window.len() - i,
    {
        let previous = window[i - 1];
        let sample = window[i];
        proof {
            lemma_pair_bounds(window@.take(i as int));
            lemma_total_fits(count as int, window.len() as int);
            assert(window@.take(i as int + 1).drop_last() =~= window@.take(i as int));
        }
        if previous >= 0 && sample >= 0 {
            let delta: u128 = if previous >= sample {
                (previous - sample) as u128
            } else {
                (sample - previous) as u128
            };
            sum = sum + delta;
            count = count + 1;
        }
        i += 1;
    }
    proof {
        assert(window@.take(i as int) =~= window@);
        lemma_pair_bounds(window@);
    }
    if count == 0 {
        0
    } else {
        proof {
            lemma_mean_bounds(sum as int, count as int);
        }
        ((2 * sum + count as u128) / (2 * count as u128)) as i64
    }
}

/// Share of timeouts among all samples, in hundredths of a percent, rounded
/// to the nearest, halves upwards: `timeout_count / (timeout_count +
/// received) * 100` percent. Without any sample the loss is 0.
pub fn loss_percentage(timeout_count: usize, received: usize) -> (loss: u64)
    ensures
        loss == loss_of(timeout_count as nat, received as nat),
        loss <= 100 * LOSS_UNITS_PER_PERCENT,
{
    let total: u128 = timeout_count as u128 + received as u128;
    if total == 0 {
        0
    } else {
        let scaled: u128 = timeout_count as u128 * 10000;
        proof {
            assert(0 <= (2 * scaled + total) / (2 * total) <= 10000) by (nonlinear_arith)
                requires
                    total > 0,
                    scaled == timeout_count * 10000,
                    0 <= timeout_count <= total,
            ;
        }
        ((2 * scaled + total) / (2 * total)) as u64
    }
}

/// The loss of a run depends on how many of its outcomes were timeouts and
/// how many were successes, and on nothing else.
pub proof fn lemma_loss_from_counts(stats: StatsView, outcomes: Seq<Outcome>, capacity: nat)
    ensures
        loss_of(
            stats.apply_all(outcomes, capacity).timeout_count,
            stats.apply_all(outcomes, capacity).received,
        ) == loss_of(
            stats.timeout_count + timeout_count(outcomes),
            stats.received + success_count(outcomes),
        ),
{
    crate::target_stats::lemma_counters_monotonic(stats, outcomes, capacity);
}

/// Taking one element out of a sequence lowers the number of its elements
/// that meet `pred` by one if the element meets it, and not at all otherwise.
proof fn lemma_filter_len_remove(
    outcomes: Seq<Outcome>,
    at: int,
    pred: spec_fn(Outcome) -> bool,
)
    requires
        0 <= at < outcomes.len(),
    ensures
        outcomes.filter(pred).len() == outcomes.remove(at).filter(pred).len() + if pred(
            outcomes[at],
        ) {
            1int
        } else {
            0int
        },
{
    let head = outcomes.take(at);
    let tail = outcomes.skip(at + 1);
    assert(outcomes =~= head.push(outcomes[at]) + tail);
    assert(outcomes.remove(at) =~= head + tail);
    Seq::filter_distributes_over_add(head.push(outcomes[at]), tail, pred);
    Seq::filter_distributes_over_add(head, tail, pred);
    head.lemma_filter_len_push(pred, outcomes[at]);
}

/// Two sequences with the same elements, in whatever order, hold equally
/// many elements that meet `pred`.
proof fn lemma_filter_len_of_permutation(
    first: Seq<Outcome>,
    second: Seq<Outcome>,
    pred: spec_fn(Outcome) -> bool,
)
    requires
        first.to_multiset() == second.to_multiset(),
    ensures
        first.filter(pred).len() == second.filter(pred).len(),
    decreases first.len(),
{
    vstd::seq_lib::to_multiset_len(first);
    vstd::seq_lib::to_multiset_len(second);
    if first.len() == 0 {
        first.lemma_filter_len(pred);
        second.lemma_filter_len(pred);
    } else {
        let moved = first.last();
        let at_first = first.len() - 1;
        vstd::seq_lib::to_multiset_contains(first, moved);
        vstd::seq_lib::to_multiset_contains(second, moved);
        assert(first.contains(moved)) by {
            assert(first[at_first] == moved);
        }
        let at_second = choose|i: int| 0 <= i < second.len() && second[i] == moved;
        vstd::seq_lib::to_multiset_remove(first, at_first);
        vstd::seq_lib::to_multiset_remove(second, at_second);
        lemma_filter_len_of_permutation(first.remove(at_first), second.remove(at_second), pred);
        lemma_filter_len_remove(first, at_first, pred);
        lemma_filter_len_remove(second, at_second, pred);
    }
}

/// The loss does not depend on the order in which the outcomes were
/// processed: two runs over the same outcomes, in whatever order, end with
/// the same counts and so with the same loss.
pub proof fn lemma_loss_ignores_order(
    stats: StatsView,
    first: Seq<Outcome>,
    second: Seq<Outcome>,
    capacity: nat,
)
    requires
        first.to_multiset() == second.to_multiset(),
    ensures
        stats.apply_all(first, capacity).received == stats.apply_all(second, capacity).received,
        stats.apply_all(first, capacity).timeout_count == stats.apply_all(
            second,
            capacity,
        ).timeout_count,
        loss_of(
            stats.apply_all(first, capacity).timeout_count,
            stats.apply_all(first, capacity).received,
        ) == loss_of(
            stats.apply_all(second, capacity).timeout_count,
            stats.apply_all(second, capacity).received,
        ),
{
    crate::target_stats::lemma_counters_monotonic(stats, first, capacity);
    crate::target_stats::lemma_counters_monotonic(stats, second, capacity);
    lemma_filter_len_of_permutation(first, second, |o: Outcome| o is Success);
    lemma_filter_len_of_permutation(first, second, |o: Outcome| o is Timeout);
}

/// Without any sample there is no loss.
pub proof fn lemma_no_samples_no_loss()
    ensures
        loss_of(0, 0) == 0,
{
}

} // verus!
