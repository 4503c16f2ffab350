//! Per-target latency statistics and their mathematical model.
//!
//! Latencies are whole numbers of hundredths of a millisecond. A probe that
//! got no reply takes a slot in the window like any other sample, as
//! [`TIMEOUT_SAMPLE`].

use std::collections::VecDeque;
use vstd::prelude::*;

verus! {

/// Window sample that stands for a probe without a reply.
pub const TIMEOUT_SAMPLE: i64 = -1;

/// What one probe round brought for its target.
#[derive(Clone, Copy, Debug, PartialEq, Eq, Structural)]
pub enum Outcome {
    /// A reply came back after `rtt` hundredths of a millisecond.
    Success { rtt: i64 },
    /// No reply came within the probe's deadline.
    Timeout,
}

impl Outcome {
    /// The value that this outcome puts into the window.
    pub open spec fn sample(self) -> i64 {
        match self {
            Outcome::Success { rtt } => rtt,
            Outcome::Timeout => TIMEOUT_SAMPLE,
        }
    }
}

/// The samples that a sequence of outcomes puts into a window, in order.
pub open spec fn samples_of(outcomes: Seq<Outcome>) -> Seq<i64> {
    outcomes.map_values(|o: Outcome| o.sample())
}

/// Model of one target's statistics: its identity, the window of recent
/// samples, and the counters and extrema over everything observed so far.
pub struct StatsView {
    pub addr: Seq<char>,
    pub ip: Seq<char>,
    pub rtt_window: Seq<i64>,
    pub last_sample: i64,
    pub min_rtt: i64,
    pub max_rtt: i64,
    pub received: nat,
    pub timeout_count: nat,
    pub evicted_count: nat,
}

/// The window after `sample` is appended under `capacity`: the oldest sample
/// leaves when the appended window is longer than the capacity.
pub open spec fn window_after(window: Seq<i64>, sample: i64, capacity: nat) -> Seq<i64> {
    if window.len() + 1 > capacity {
        window.push(sample).drop_first()
    } else {
        window.push(sample)
    }
}

/// How many samples leave a window when one more is appended: one or none.
pub open spec fn evicted_by_push(window: Seq<i64>, capacity: nat) -> nat {
    if window.len() + 1 > capacity {
        1
    } else {
        0
    }
}

impl StatsView {
    /// Statistics of a target that has not been probed yet.
    pub open spec fn fresh(addr: Seq<char>, ip: Seq<char>) -> StatsView {
        StatsView {
            addr,
            ip,
            rtt_window: Seq::empty(),
            last_sample: 0,
            min_rtt: 0,
            max_rtt: 0,
            received: 0,
            timeout_count: 0,
            evicted_count: 0,
        }
    }

    /// Number of samples observed so far, successes and timeouts together.
    pub open spec fn observed(self) -> nat {
        self.received + self.timeout_count
    }

    /// The window holds the latest `capacity` samples at most, and every
    /// observed sample is either in the window or counted as evicted.
    pub open spec fn wf(self, capacity: nat) -> bool {
        &&& self.rtt_window.len() == if self.observed() <= capacity {
            self.observed()
        } else {
            capacity
        }
        &&& self.evicted_count == if self.observed() <= capacity {
            0
        } else {
            self.observed() - capacity
        }
    }

    /// The statistics after a reply with latency `rtt`.
    ///
    /// The minimum takes `rtt` when no success has set it yet (it is 0) or
    /// when `rtt` lies strictly below it; the maximum takes `rtt` when `rtt`
    /// lies strictly above it.
    pub open spec fn record_success(self, rtt: i64, capacity: nat) -> StatsView {
        StatsView {
            rtt_window: window_after(self.rtt_window, rtt, capacity),
            last_sample: rtt,
            min_rtt: if self.min_rtt == 0 || rtt < self.min_rtt {
                rtt
            } else {
                self.min_rtt
            },
            max_rtt: if rtt > self.max_rtt {
                rtt
            } else {
                self.max_rtt
            },
            received: self.received + 1,
            evicted_count: self.evicted_count + evicted_by_push(self.rtt_window, capacity),
            ..self
        }
    }

    /// The statistics after a probe without reply. Extrema and the count of
    /// successes stay as they are.
    pub open spec fn record_timeout(self, capacity: nat) -> StatsView {
        StatsView {
            rtt_window: window_after(self.rtt_window, TIMEOUT_SAMPLE, capacity),
            last_sample: TIMEOUT_SAMPLE,
            timeout_count: self.timeout_count + 1,
            evicted_count: self.evicted_count + evicted_by_push(self.rtt_window, capacity),
            ..self
        }
    }

    /// The statistics after one more outcome.
    pub open spec fn apply(self, outcome: Outcome, capacity: nat) -> StatsView {
        match outcome {
            Outcome::Success { rtt } => self.record_success(rtt, capacity),
            Outcome::Timeout => self.record_timeout(capacity),
        }
    }

    /// The statistics after a sequence of outcomes, taken in order.
    pub open spec fn apply_all(self, outcomes: Seq<Outcome>, capacity: nat) -> StatsView
        decreases outcomes.len(),
    {
        if outcomes.len() == 0 {
            self
        } else {
            self.apply_all(outcomes.drop_last(), capacity).apply(outcomes.last(), capacity)
        }
    }
}

/// Statistics of one target, as the aggregator keeps them and as consumers
/// receive them in a snapshot.
#[derive(Debug)]
pub struct TargetStats {
    /// Display name of the target.
    pub addr: String,
    /// Resolved address of the target.
    pub ip: String,
    /// The latest samples, oldest first; a timeout is [`TIMEOUT_SAMPLE`].
    pub rtt_window: VecDeque<i64>,
    /// The latest sample; 0 while there is none.
    pub last_sample: i64,
    /// Smallest latency of all successes; 0 while there is none.
    pub min_rtt: i64,
    /// Largest latency of all successes; 0 while there is none.
    pub max_rtt: i64,
    /// Number of successes observed.
    pub received: usize,
    /// Number of timeouts observed.
    pub timeout_count: usize,
    /// Number of samples that have left the window.
    pub evicted_count: usize,
}

impl View for TargetStats {
    type V = StatsView;

    open spec fn view(&self) -> StatsView {
        StatsView {
            addr: self.addr@,
            ip: self.ip@,
            rtt_window: self.rtt_window@,
            last_sample: self.last_sample,
            min_rtt: self.min_rtt,
            max_rtt: self.max_rtt,
            received: self.received as nat,
            timeout_count: self.timeout_count as nat,
            evicted_count: self.evicted_count as nat,
        }
    }
}

impl Clone for TargetStats {
    fn clone(&self) -> (copy: Self)
        ensures
            copy@ == self@,
    {
        TargetStats {
            addr: self.addr.clone(),
            ip: self.ip.clone(),
            rtt_window: self.rtt_window.clone(),
            last_sample: self.last_sample,
            min_rtt: self.min_rtt,
            max_rtt: self.max_rtt,
            received: self.received,
            timeout_count: self.timeout_count,
            evicted_count: self.evicted_count,
        }
    }
}

impl TargetStats {
    /// Statistics of a target that has not been probed yet.
    pub fn new(addr: String, ip: String) -> (stats: Self)
        ensures
            stats@ == StatsView::fresh(addr@, ip@),
    {
        TargetStats {
            addr,
            ip,
            rtt_window: VecDeque::new(),
            last_sample: 0,
            min_rtt: 0,
            max_rtt: 0,
            received: 0,
            timeout_count: 0,
            evicted_count: 0,
        }
    }
}

/// How many of `outcomes` are successes.
pub open spec fn success_count(outcomes: Seq<Outcome>) -> nat {
    outcomes.filter(|o: Outcome| o is Success).len()
}

/// How many of `outcomes` are timeouts.
pub open spec fn timeout_count(outcomes: Seq<Outcome>) -> nat {
    outcomes.filter(|o: Outcome| o is Timeout).len()
}

/// One more outcome keeps the window within its capacity and every observed
/// sample accounted for.
pub proof fn lemma_apply_preserves_wf(stats: StatsView, outcome: Outcome, capacity: nat)
    requires
        stats.wf(capacity),
    ensures
        stats.apply(outcome, capacity).wf(capacity),
        stats.apply(outcome, capacity).observed() == stats.observed() + 1,
{
}

/// Any number of outcomes keeps the window within its capacity and every
/// observed sample accounted for.
pub proof fn lemma_apply_all_preserves_wf(stats: StatsView, outcomes: Seq<Outcome>, capacity: nat)
    requires
        stats.wf(capacity),
    ensures
        stats.apply_all(outcomes, capacity).wf(capacity),
        stats.apply_all(outcomes, capacity).observed() == stats.observed() + outcomes.len(),
    decreases outcomes.len(),
{
    if outcomes.len() > 0 {
        lemma_apply_all_preserves_wf(stats, outcomes.drop_last(), capacity);
        lemma_apply_preserves_wf(
            stats.apply_all(outcomes.drop_last(), capacity),
            outcomes.last(),
            capacity,
        );
    }
}

/// After any `n` outcomes for a target that started fresh, the window holds
/// `min(n, capacity)` samples and `max(0, n - capacity)` samples have been
/// evicted.
pub proof fn lemma_window_bound(
    addr: Seq<char>,
    ip: Seq<char>,
    outcomes: Seq<Outcome>,
    capacity: nat,
)
    ensures
        StatsView::fresh(addr, ip).apply_all(outcomes, capacity).rtt_window.len() == vstd::math::min(
            outcomes.len() as int,
            capacity as int,
        ),
        StatsView::fresh(addr, ip).apply_all(outcomes, capacity).evicted_count == vstd::math::max(
            0,
            outcomes.len() - capacity,
        ),
{
    lemma_apply_all_preserves_wf(StatsView::fresh(addr, ip), outcomes, capacity);
}

/// The window is a suffix of what was observed: after any outcomes it is the
/// tail of the old window followed by the new samples, cut to the capacity.
pub proof fn lemma_window_is_suffix(stats: StatsView, outcomes: Seq<Outcome>, capacity: nat)
    requires
        stats.rtt_window.len() <= capacity,
    ensures
        ({
            let history = stats.rtt_window + samples_of(outcomes);
            let kept = vstd::math::min(history.len() as int, capacity as int);
            stats.apply_all(outcomes, capacity).rtt_window == history.subrange(
                history.len() - kept,
                history.len() as int,
            )
        }),
    decreases outcomes.len(),
{
    let history = stats.rtt_window + samples_of(outcomes);
    let kept = vstd::math::min(history.len() as int, capacity as int);
    if outcomes.len() == 0 {
        assert(stats.rtt_window =~= history.subrange(history.len() - kept, history.len() as int));
    } else {
        let earlier = outcomes.drop_last();
        lemma_window_is_suffix(stats, earlier, capacity);
        let before = stats.apply_all(earlier, capacity).rtt_window;
        let earlier_history = stats.rtt_window + samples_of(earlier);
        assert(history =~= earlier_history.push(outcomes.last().sample()));
        assert(stats.apply_all(outcomes, capacity).rtt_window == window_after(
            before,
            outcomes.last().sample(),
            capacity,
        ));
        assert(window_after(before, outcomes.last().sample(), capacity) =~= history.subrange(
            history.len() - kept,
            history.len() as int,
        ));
    }
}

/// A timeout updates neither the minimum nor the maximum, nor the count of
/// successes.
pub proof fn lemma_timeout_keeps_extrema(stats: StatsView, capacity: nat)
    ensures
        stats.record_timeout(capacity).min_rtt == stats.min_rtt,
        stats.record_timeout(capacity).max_rtt == stats.max_rtt,
        stats.record_timeout(capacity).received == stats.received,
{
}

/// The minimum leaves its unset state, 0, only through a success, and then
/// holds that success's latency.
pub proof fn lemma_min_set_only_by_success(stats: StatsView, outcome: Outcome, capacity: nat)
    requires
        stats.min_rtt == 0,
        stats.apply(outcome, capacity).min_rtt != 0,
    ensures
        outcome is Success,
        stats.apply(outcome, capacity).min_rtt == outcome->rtt,
{
}

/// A sequence of outcomes without a success leaves the minimum and the
/// maximum as they are.
pub proof fn lemma_extrema_change_needs_success(
    stats: StatsView,
    outcomes: Seq<Outcome>,
    capacity: nat,
)
    requires
        success_count(outcomes) == 0,
    ensures
        stats.apply_all(outcomes, capacity).min_rtt == stats.min_rtt,
        stats.apply_all(outcomes, capacity).max_rtt == stats.max_rtt,
    decreases outcomes.len(),
{
    if outcomes.len() > 0 {
        let earlier = outcomes.drop_last();
        assert(outcomes =~= earlier.push(outcomes.last()));
        earlier.lemma_filter_len_push(|o: Outcome| o is Success, outcomes.last());
        lemma_extrema_change_needs_success(stats, earlier, capacity);
    }
}

/// The count of successes grows by the number of successes applied, the
/// count of timeouts by the number of timeouts, and neither they nor the count
/// of evictions ever decrease, whatever the window evicts.
pub proof fn lemma_counters_monotonic(stats: StatsView, outcomes: Seq<Outcome>, capacity: nat)
    ensures
        stats.apply_all(outcomes, capacity).received == stats.received + success_count(outcomes),
        stats.apply_all(outcomes, capacity).timeout_count == stats.timeout_count + timeout_count(
            outcomes,
        ),
        stats.apply_all(outcomes, capacity).received >= stats.received,
        stats.apply_all(outcomes, capacity).timeout_count >= stats.timeout_count,
        stats.apply_all(outcomes, capacity).evicted_count >= stats.evicted_count,
    decreases outcomes.len(),
{
    if outcomes.len() == 0 {
        assert(outcomes.filter(|o: Outcome| o is Success).len() == 0) by {
            outcomes.lemma_filter_len(|o: Outcome| o is Success);
        }
        assert(outcomes.filter(|o: Outcome| o is Timeout).len() == 0) by {
            outcomes.lemma_filter_len(|o: Outcome| o is Timeout);
        }
    } else {
        let earlier = outcomes.drop_last();
        assert(outcomes =~= earlier.push(outcomes.last()));
        earlier.lemma_filter_len_push(|o: Outcome| o is Success, outcomes.last());
        earlier.lemma_filter_len_push(|o: Outcome| o is Timeout, outcomes.last());
        lemma_counters_monotonic(stats, earlier, capacity);
    }
}

/// The identity of a target never changes with what is observed of it.
pub proof fn lemma_identity_is_kept(stats: StatsView, outcomes: Seq<Outcome>, capacity: nat)
    ensures
        stats.apply_all(outcomes, capacity).addr == stats.addr,
        stats.apply_all(outcomes, capacity).ip == stats.ip,
    decreases outcomes.len(),
{
    if outcomes.len() > 0 {
        lemma_identity_is_kept(stats, outcomes.drop_last(), capacity);
    }
}

} // verus!
