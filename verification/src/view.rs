//! The rules by which the views show statistics: how a loss is rated, how a
//! sample is drawn, and what the latest sample is shown as.

use crate::statistics::{valid_count, valid_sum, valid_totals};
use crate::target_stats::{TargetStats, TIMEOUT_SAMPLE};
use std::collections::VecDeque;
use vstd::prelude::*;

verus! {

/// How bad a loss is.
#[derive(Clone, Copy, Debug, PartialEq, Eq, Structural)]
pub enum LossLevel {
    /// No probe was lost.
    Clean,
    /// Some probes were lost, at most half of them.
    Lossy,
    /// More than half of the probes were lost.
    Severe,
}

/// The rating of a loss: severe above 50 percent, lossy above 0, else
/// clean. The share is taken exactly, not rounded.
pub open spec fn level_of(timeout_count: nat, received: nat) -> LossLevel {
    if timeout_count * 100 > 50 * (timeout_count + received) {
        LossLevel::Severe
    } else if timeout_count > 0 {
        LossLevel::Lossy
    } else {
        LossLevel::Clean
    }
}

/// Rates the loss of a target from its counters.
pub fn loss_level(timeout_count: usize, received: usize) -> (level: LossLevel)
    ensures
        level == level_of(timeout_count as nat, received as nat),
{
    if timeout_count > received {
        LossLevel::Severe
    } else if timeout_count > 0 {
        LossLevel::Lossy
    } else {
        LossLevel::Clean
    }
}

/// What the latest sample is shown as.
#[derive(Clone, Copy, Debug, PartialEq, Eq, Structural)]
pub enum LastSample {
    /// Nothing measurable: no sample yet, or a latency below the unit.
    BelowUnit,
    /// The latest probe got no reply.
    Timeout,
    /// A latency.
    Latency(i64),
}

/// What the latest sample is shown as: 0 as below the unit, the timeout
/// sample as a timeout, anything else as a latency.
pub open spec fn shown_as(last_sample: i64) -> LastSample {
    if last_sample == 0 {
        LastSample::BelowUnit
    } else if last_sample == TIMEOUT_SAMPLE {
        LastSample::Timeout
    } else {
        LastSample::Latency(last_sample)
    }
}

/// Decides what the latest sample is shown as.
pub fn last_sample_kind(last_sample: i64) -> (kind: LastSample)
    ensures
        kind == shown_as(last_sample),
{
    if last_sample == 0 {
        LastSample::BelowUnit
    } else if last_sample == TIMEOUT_SAMPLE {
        LastSample::Timeout
    } else {
        LastSample::Latency(last_sample)
    }
}

/// How the point view draws a sample.
#[derive(Clone, Copy, Debug, PartialEq, Eq, Structural)]
pub enum PointKind {
    /// A probe without reply.
    Lost,
    /// A latency above 80 percent of the largest latency.
    High,
    /// Any other latency.
    Normal,
}

/// How the point view draws `sample` for a target whose largest latency is
/// `max_rtt`.
pub open spec fn point_of(sample: i64, max_rtt: i64) -> PointKind {
    if sample < 0 {
        PointKind::Lost
    } else if sample * 10 > max_rtt * 8 {
        PointKind::High
    } else {
        PointKind::Normal
    }
}

/// Decides how the point view draws a sample.
pub fn point_kind(sample: i64, max_rtt: i64) -> (kind: PointKind)
    ensures
        kind == point_of(sample, max_rtt),
{
    if sample < 0 {
        PointKind::Lost
    } else if sample as i128 * 10 > max_rtt as i128 * 8 {
        PointKind::High
    } else {
        PointKind::Normal
    }
}

/// Hundredths of a millisecond in a millisecond.
pub const UNITS_PER_MILLI: i64 = 100;

/// The bar that the sparkline draws for a sample: none for a probe without
/// reply, else the latency in whole milliseconds.
pub open spec fn bar_of(sample: i64) -> u64 {
    if sample < 0 {
        0
    } else {
        (sample / 100) as u64
    }
}

/// The bars of a sparkline that is `width` columns wide: one for each of
/// the latest `width` samples, oldest first.
pub open spec fn bars_of(window: Seq<i64>, width: nat) -> Seq<u64> {
    let skipped = if window.len() <= width {
        0
    } else {
        window.len() - width
    };
    window.skip(skipped).map_values(|sample: i64| bar_of(sample))
}

/// Computes the bars of a sparkline that is `width` columns wide.
pub fn sparkline_data(window: &VecDeque<i64>, width: usize) -> (bars: Vec<u64>)
    ensures
        bars@ == bars_of(window@, width as nat),
{
    let skipped: usize = if window.len() <= width {
        0
    } else {
        window.len() - width
    };
    let mut bars: Vec<u64> = Vec::new();
    let mut i: usize = skipped;
    while i < window.len()
        invariant
            skipped <= i <= window.len(),
            bars@ == window@.subrange(skipped as int, i as int).map_values(
                |sample: i64| bar_of(sample),
            ),
        decreases window.len() - i,
    {
        let sample = window[i];
        let bar: u64 = if sample < 0 {
            0
        } else {
            (sample / UNITS_PER_MILLI) as u64
        };
        let ghost before = bars@;
        bars.push(bar);
        assert(bars@ =~= window@.subrange(skipped as int, i as int + 1).map_values(
            |sample: i64| bar_of(sample),
        )) by {
            assert(window@.subrange(skipped as int, i as int + 1) =~= window@.subrange(
                skipped as int,
                i as int,
            ).push(window@[i as int]));
        }
        i += 1;
    }
    assert(window@.subrange(skipped as int, window@.len() as int) =~= window@.skip(
        skipped as int,
    ));
    bars
}

/// The rank that the table gives a row.
#[derive(Clone, Copy, Debug, PartialEq, Eq, Structural)]
pub enum Rank {
    First,
    Second,
    Third,
    TopTen,
    Slow,
}

/// The rank of the row at `index` in a table of `rows` rows: the first three
/// by their place, then the top ten but for the last row, then slow.
pub open spec fn rank_at(index: nat, rows: nat) -> Rank {
    if index == 0 {
        Rank::First
    } else if index == 1 {
        Rank::Second
    } else if index == 2 {
        Rank::Third
    } else if index < 10 && index + 1 != rows {
        Rank::TopTen
    } else {
        Rank::Slow
    }
}

/// Decides the rank of the row at `index` in a table of `rows` rows.
pub fn rank_of(index: usize, rows: usize) -> (rank: Rank)
    ensures
        rank == rank_at(index as nat, rows as nat),
{
    if index == 0 {
        Rank::First
    } else if index == 1 {
        Rank::Second
    } else if index == 2 {
        Rank::Third
    } else if index < 10 && index as u128 + 1 != rows as u128 {
        Rank::TopTen
    } else {
        Rank::Slow
    }
}

/// The loss of a row as an exact share: its timeouts over all its samples,
/// and none over one where it has no sample.
pub open spec fn loss_share(stats: TargetStats) -> (int, int) {
    if stats.timeout_count + stats.received == 0 {
        (0, 1)
    } else {
        (stats.timeout_count as int, stats.timeout_count + stats.received)
    }
}

/// The mean latency of a row as an exact share: the sum of its latencies
/// over their number, and none over one where it has no latency.
pub open spec fn mean_share(stats: TargetStats) -> (int, int) {
    if valid_count(stats.rtt_window@) == 0 {
        (0, 1)
    } else {
        (valid_sum(stats.rtt_window@), valid_count(stats.rtt_window@))
    }
}

/// Whether the share `a` is smaller than the share `b`, taken exactly.
pub open spec fn share_below(a: (int, int), b: (int, int)) -> bool {
    a.0 * b.1 < b.0 * a.1
}

/// Whether the shares `a` and `b` are equal, taken exactly.
pub open spec fn share_same(a: (int, int), b: (int, int)) -> bool {
    a.0 * b.1 == b.0 * a.1
}

/// Whether the row at `a` stands before the row at `b` in the table: the
/// row with the smaller loss, then the row with the smaller mean latency,
/// then the row that came first. Loss and mean are compared exactly, not as
/// they are written.
pub open spec fn stands_before(rows: Seq<TargetStats>, a: int, b: int) -> bool {
    let la = loss_share(rows[a]);
    let lb = loss_share(rows[b]);
    let ma = mean_share(rows[a]);
    let mb = mean_share(rows[b]);
    share_below(la, lb) || (share_same(la, lb) && (share_below(ma, mb) || (share_same(ma, mb)
        && a < b)))
}

/// Whether `order` lists the rows of the table as the table shows them:
/// every row once, and each row before the rows that it stands before.
pub open spec fn is_table_order(rows: Seq<TargetStats>, order: Seq<usize>) -> bool {
    &&& order.len() == rows.len()
    &&& forall|i: int| 0 <= i < order.len() ==> (#[trigger] order[i]) < rows.len()
    &&& forall|row: usize| row < rows.len() ==> #[trigger] order.contains(row)
    &&& forall|i: int, j: int|
        0 <= i < j < order.len() ==> stands_before(
            rows,
            #[trigger] order[i] as int,
            #[trigger] order[j] as int,
        )
}

spec fn is_share(a: (int, int)) -> bool {
    a.0 >= 0 && a.1 > 0
}

proof fn lemma_share_chain(a: (int, int), b: (int, int), c: (int, int))
    requires
        is_share(a),
        is_share(b),
        is_share(c),
    ensures
        share_below(a, b) && share_below(b, c) ==> share_below(a, c),
        share_below(a, b) && share_same(b, c) ==> share_below(a, c),
        share_same(a, b) && share_below(b, c) ==> share_below(a, c),
        share_same(a, b) && share_same(b, c) ==> share_same(a, c),
{
    let (a0, a1) = a;
    let (b0, b1) = b;
    let (c0, c1) = c;
    assert(a0 * b1 < b0 * a1 && b0 * c1 <= c0 * b1 ==> a0 * c1 < c0 * a1) by (nonlinear_arith)
        requires
            a0 >= 0,
            b0 >= 0,
            c0 >= 0,
            a1 > 0,
            b1 > 0,
            c1 > 0,
    {
        if a0 * b1 < b0 * a1 && b0 * c1 <= c0 * b1 {
            assert(a0 * b1 * c1 < b0 * a1 * c1);
            assert(b0 * c1 * a1 <= c0 * b1 * a1);
            assert(a0 * c1 * b1 < c0 * a1 * b1);
        }
    }
    assert(a0 * b1 <= b0 * a1 && b0 * c1 < c0 * b1 ==> a0 * c1 < c0 * a1) by (nonlinear_arith)
        requires
            a0 >= 0,
            b0 >= 0,
            c0 >= 0,
            a1 > 0,
            b1 > 0,
            c1 > 0,
    {
        if a0 * b1 <= b0 * a1 && b0 * c1 < c0 * b1 {
            assert(a0 * b1 * c1 <= b0 * a1 * c1);
            assert(b0 * c1 * a1 < c0 * b1 * a1);
            assert(a0 * c1 * b1 < c0 * a1 * b1);
        }
    }
    assert(a0 * b1 == b0 * a1 && b0 * c1 == c0 * b1 ==> a0 * c1 == c0 * a1) by (nonlinear_arith)
        requires
            a0 >= 0,
            b0 >= 0,
            c0 >= 0,
            a1 > 0,
            b1 > 0,
            c1 > 0,
    {
        if a0 * b1 == b0 * a1 && b0 * c1 == c0 * b1 {
            assert(a0 * b1 * c1 == b0 * a1 * c1);
            assert(b0 * c1 * a1 == c0 * b1 * a1);
            assert(a0 * c1 * b1 == c0 * a1 * b1);
        }
    }
}

proof fn lemma_shares_of_row(stats: TargetStats)
    ensures
        is_share(loss_share(stats)),
        is_share(mean_share(stats)),
{
    crate::statistics::lemma_valid_totals(stats.rtt_window@);
}

/// Of two rows of the table, one stands before the other, never both.
pub proof fn lemma_table_order_is_total(rows: Seq<TargetStats>, a: int, b: int)
    requires
        a != b,
    ensures
        stands_before(rows, a, b) != stands_before(rows, b, a),
{
    let la = loss_share(rows[a]);
    let lb = loss_share(rows[b]);
    let ma = mean_share(rows[a]);
    let mb = mean_share(rows[b]);
    assert(la.0 * lb.1 == lb.1 * la.0 && lb.0 * la.1 == la.1 * lb.0) by (nonlinear_arith);
    assert(ma.0 * mb.1 == mb.1 * ma.0 && mb.0 * ma.1 == ma.1 * mb.0) by (nonlinear_arith);
}

/// A row that stands before a second row stands before every row that the
/// second stands before.
pub proof fn lemma_table_order_is_transitive(rows: Seq<TargetStats>, a: int, b: int, c: int)
    requires
        stands_before(rows, a, b),
        stands_before(rows, b, c),
    ensures
        stands_before(rows, a, c),
{
    lemma_shares_of_row(rows[a]);
    lemma_shares_of_row(rows[b]);
    lemma_shares_of_row(rows[c]);
    lemma_share_chain(loss_share(rows[a]), loss_share(rows[b]), loss_share(rows[c]));
    lemma_share_chain(mean_share(rows[a]), mean_share(rows[b]), mean_share(rows[c]));
}

/// What a row is sorted by, in numbers that fit the machine: its timeouts
/// and the rest of its samples (one where it has no sample), and its mean
/// latency as a whole part and a rest over the number of its latencies.
struct RowKey {
    lost: u128,
    received: u128,
    whole: u128,
    rest: u128,
    count: u128,
}

impl RowKey {
    spec fn is_key_of(self, stats: TargetStats) -> bool {
        &&& self.lost == loss_share(stats).0
        &&& self.lost + self.received == loss_share(stats).1
        &&& self.lost <= usize::MAX
        &&& self.received <= usize::MAX
        &&& self.count == mean_share(stats).1
        &&& self.whole * self.count + self.rest == mean_share(stats).0
        &&& self.rest < self.count <= usize::MAX
        &&& self.whole <= i64::MAX
    }
}

fn key_of(stats: &TargetStats) -> (key: RowKey)
    ensures
        key.is_key_of(*stats),
{
    let (sum, count) = valid_totals(&stats.rtt_window);
    let lost = stats.timeout_count as u128;
    let received: u128 = if stats.timeout_count == 0 && stats.received == 0 {
        1
    } else {
        stats.received as u128
    };
    if count == 0 {
        RowKey { lost, received, whole: 0, rest: 0, count: 1 }
    } else {
        let count = count as u128;
        proof {
            assert(sum / count <= i64::MAX && (sum / count) * count + sum % count == sum)
                by (nonlinear_arith)
                requires
                    count > 0,
                    0 <= sum <= count * i64::MAX,
            ;
        }
        RowKey { lost, received, whole: sum / count, rest: sum % count, count }
    }
}

/// Whether the row of `a` has the smaller loss, or the same loss and the
/// smaller mean latency.
fn key_below(
    a: &RowKey,
    b: &RowKey,
    Ghost(ra): Ghost<TargetStats>,
    Ghost(rb): Ghost<TargetStats>,
) -> (below: bool)
    requires
        a.is_key_of(ra),
        b.is_key_of(rb),
    ensures
        below == (share_below(loss_share(ra), loss_share(rb)) || (share_same(
            loss_share(ra),
            loss_share(rb),
        ) && share_below(mean_share(ra), mean_share(rb)))),
{
    proof {
        let (ta, na) = loss_share(ra);
        let (tb, nb) = loss_share(rb);
        let wa = a.received as int;
        let wb = b.received as int;
        assert(a.lost * b.received <= 0xffff_ffff_ffff_ffff * 0xffff_ffff_ffff_ffff && b.lost
            * a.received <= 0xffff_ffff_ffff_ffff * 0xffff_ffff_ffff_ffff) by (nonlinear_arith)
            requires
                a.lost <= 0xffff_ffff_ffff_ffff,
                b.lost <= 0xffff_ffff_ffff_ffff,
                a.received <= 0xffff_ffff_ffff_ffff,
                b.received <= 0xffff_ffff_ffff_ffff,
        ;
        assert(a.rest * b.count <= 0xffff_ffff_ffff_ffff * 0xffff_ffff_ffff_ffff && b.rest
            * a.count <= 0xffff_ffff_ffff_ffff * 0xffff_ffff_ffff_ffff) by (nonlinear_arith)
            requires
                a.rest <= 0xffff_ffff_ffff_ffff,
                b.rest <= 0xffff_ffff_ffff_ffff,
                a.count <= 0xffff_ffff_ffff_ffff,
                b.count <= 0xffff_ffff_ffff_ffff,
        ;
        // shares of the loss against products of timeouts and successes
        assert((ta * nb < tb * na) == (a.lost * wb < b.lost * wa) && (ta * nb == tb * na)
            == (a.lost * wb == b.lost * wa)) by (nonlinear_arith)
            requires
                ta == a.lost,
                tb == b.lost,
                na == a.lost + wa,
                nb == b.lost + wb,
                wa >= 0,
                wb >= 0,
                a.lost >= 0,
                b.lost >= 0,
        ;
        // shares of the mean against whole parts and rests
        let sa = mean_share(ra).0;
        let sb = mean_share(rb).0;
        let ca = a.count as int;
        let cb = b.count as int;
        let qa = a.whole as int;
        let qb = b.whole as int;
        let xa = a.rest as int;
        let xb = b.rest as int;
        assert((sa * cb < sb * ca) == (qa < qb || (qa == qb && xa * cb < xb * ca)))
            by (nonlinear_arith)
            requires
                sa == qa * ca + xa,
                sb == qb * cb + xb,
                0 <= xa < ca,
                0 <= xb < cb,
                qa >= 0,
                qb >= 0,
        {
            assert(sa * cb == qa * ca * cb + xa * cb);
            assert(sb * ca == qb * ca * cb + xb * ca);
            assert(xa * cb < ca * cb);
            assert(xb * ca < ca * cb);
            if qa < qb {
                assert(qa * (ca * cb) + ca * cb <= qb * (ca * cb));
            }
            if qb < qa {
                assert(qb * (ca * cb) + ca * cb <= qa * (ca * cb));
            }
        }
    }
    let loss_below = a.lost * b.received < b.lost * a.received;
    let loss_same = a.lost * b.received == b.lost * a.received;
    loss_below || (loss_same && (a.whole < b.whole || (a.whole == b.whole && a.rest * b.count
        < b.rest * a.count)))
}

/// The order in which the table shows its rows, as indices into `rows`:
/// sorted by loss, then by mean latency, rows that are equal in both in the
/// order in which they came.
pub fn table_order(rows: &Vec<TargetStats>) -> (order: Vec<usize>)
    ensures
        is_table_order(rows@, order@),
{
    let mut keys: Vec<RowKey> = Vec::new();
    let mut k: usize = 0;
    while k < rows.len()
        invariant
            k <= rows.len(),
            keys.len() == k,
            forall|i: int| 0 <= i < k ==> (#[trigger] keys@[i]).is_key_of(rows@[i]),
        decreases rows.len() - k,
    {
        keys.push(key_of(&rows[k]));
        k += 1;
    }
    let mut order: Vec<usize> = Vec::new();
    let mut next: usize = 0;
    while next < rows.len()
        invariant
            next <= rows.len(),
            keys.len() == rows.len(),
            forall|i: int| 0 <= i < rows.len() ==> (#[trigger] keys@[i]).is_key_of(rows@[i]),
            order.len() == next,
            forall|i: int| 0 <= i < order.len() ==> (#[trigger] order@[i]) < next,
            forall|row: usize| row < next ==> #[trigger] order@.contains(row),
            forall|i: int, j: int|
                0 <= i < j < order.len() ==> stands_before(
                    rows@,
                    #[trigger] order@[i] as int,
                    #[trigger] order@[j] as int,
                ),
        decreases rows.len() - next,
    {
        let mut at: usize = 0;
        let mut found = false;
        while at < order.len() && !found
            invariant
                at <= order.len(),
                next < rows.len(),
                keys.len() == rows.len(),
                forall|i: int| 0 <= i < rows.len() ==> (#[trigger] keys@[i]).is_key_of(rows@[i]),
                forall|i: int| 0 <= i < order.len() ==> (#[trigger] order@[i]) < next,
                forall|i: int|
                    0 <= i < at ==> stands_before(rows@, #[trigger] order@[i] as int, next as int),
                found ==> at < order.len() && stands_before(
                    rows@,
                    next as int,
                    order@[at as int] as int,
                ),
            decreases
                    2 * (order.len() - at) + if found {
                        0int
                    } else {
                        1int
                    },
        {
            let other = order[at];
            if key_below(
                &keys[next],
                &keys[other],
                Ghost(rows@[next as int]),
                Ghost(rows@[other as int]),
            ) {
                found = true;
            } else {
                proof {
                    lemma_table_order_is_total(rows@, other as int, next as int);
                }
                at += 1;
            }
        }
        let ghost before = order@;
        order.insert(at, next);
        proof {
            assert forall|i: int| 0 <= i < order@.len() implies (#[trigger] order@[i]) < next
                + 1 by {
                if i < at {
                    assert(order@[i] == before[i]);
                } else if i > at {
                    assert(order@[i] == before[i - 1]);
                }
            }
            assert forall|row: usize| row < next + 1 implies #[trigger] order@.contains(row) by {
                if row == next {
                    assert(order@[at as int] == next);
                } else {
                    assert(before.contains(row));
                    let was = choose|was: int| 0 <= was < before.len() && before[was] == row;
                    if was < at {
                        assert(order@[was] == row);
                    } else {
                        assert(order@[was + 1] == row);
                    }
                }
            }
            assert forall|i: int, j: int| 0 <= i < j < order@.len() implies stands_before(
                rows@,
                #[trigger] order@[i] as int,
                #[trigger] order@[j] as int,
            ) by {
                if i != at && j != at {
                    let bi = if i < at {
                        i
                    } else {
                        i - 1
                    };
                    let bj = if j < at {
                        j
                    } else {
                        j - 1
                    };
                    assert(order@[i] == before[bi]);
                    assert(order@[j] == before[bj]);
                    assert(stands_before(rows@, before[bi] as int, before[bj] as int));
                } else if j == at {
                    assert(order@[i] == before[i]);
                } else {
                    assert(order@[j] == before[j - 1]);
                    assert(stands_before(rows@, next as int, before[at as int] as int));
                    if j - 1 > at {
                        assert(stands_before(
                            rows@,
                            before[at as int] as int,
                            before[j - 1] as int,
                        ));
                        lemma_table_order_is_transitive(
                            rows@,
                            next as int,
                            before[at as int] as int,
                            before[j - 1] as int,
                        );
                    }
                }
            }
        }
        next += 1;
    }
    order
}

} // verus!
