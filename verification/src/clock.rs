//! Clock recovery: estimating the single-clock-unit duration from the
//! spacing of captured edges.
//!
//! The transmission is self-clocking, so consecutive inter-edge deltas
//! cluster into two populations: short (one clock unit) and long (two
//! units).  The midpoint between the largest and smallest delta separates
//! the two; the recovered clock is the average of the deltas strictly
//! below that threshold.  Averaging the short intervals is robust to a
//! trailing idle gap, which falls above the threshold and is excluded.

use vstd::prelude::*;
use vstd::arithmetic::div_mod::lemma_div_is_ordered;
use vstd::arithmetic::div_mod::lemma_div_by_multiple;

use crate::decoder::strictly_increasing;
use crate::MAX_EDGES;
use crate::RECORD_NS;

verus! {

/// The consecutive inter-edge deltas of an edge sequence.
pub open spec fn delta_seq(edges: Seq<u64>) -> Seq<u64> {
    Seq::new((edges.len() - 1) as nat, |i: int| (edges[i + 1] - edges[i]) as u64)
}

/// The largest element of a sequence (zero if it is empty).
pub open spec fn seq_max(s: Seq<u64>) -> int
    decreases s.len(),
{
    if s.len() == 0 {
        0
    } else if s.len() == 1 {
        s[0] as int
    } else if s.last() as int >= seq_max(s.drop_last()) {
        s.last() as int
    } else {
        seq_max(s.drop_last())
    }
}

/// The smallest element of a sequence (zero if it is empty).
pub open spec fn seq_min(s: Seq<u64>) -> int
    decreases s.len(),
{
    if s.len() == 0 {
        0
    } else if s.len() == 1 {
        s[0] as int
    } else if s.last() as int <= seq_min(s.drop_last()) {
        s.last() as int
    } else {
        seq_min(s.drop_last())
    }
}

/// How many elements lie strictly below `t`.
pub open spec fn count_below(s: Seq<u64>, t: int) -> int
    decreases s.len(),
{
    if s.len() == 0 {
        0
    } else {
        count_below(s.drop_last(), t) + if s.last() < t {
            1int
        } else {
            0int
        }
    }
}

/// The sum of the elements strictly below `t`.
pub open spec fn sum_below(s: Seq<u64>, t: int) -> int
    decreases s.len(),
{
    if s.len() == 0 {
        0
    } else {
        sum_below(s.drop_last(), t) + if s.last() < t {
            s.last() as int
        } else {
            0int
        }
    }
}

/// The discrimination threshold: the midpoint between the largest and
/// smallest delta.
pub open spec fn threshold_of(ds: Seq<u64>) -> int {
    (seq_max(ds) + seq_min(ds)) / 2
}

/// An edge sequence whose deltas are too tightly clustered for the
/// midpoint threshold to separate a short population: no delta then lies
/// strictly below the threshold and no clock can be recovered.
pub open spec fn clock_degenerate(edges: Seq<u64>) -> bool {
    seq_max(delta_seq(edges)) < seq_min(delta_seq(edges)) + 2
}

/// The recovered single-clock-unit duration: the average of the deltas
/// strictly below the threshold.
pub open spec fn recovered_clock(edges: Seq<u64>) -> int {
    let ds = delta_seq(edges);
    sum_below(ds, threshold_of(ds)) / count_below(ds, threshold_of(ds))
}

/// A nonempty sequence contains its minimum.
pub proof fn lemma_min_is_member(s: Seq<u64>)
    requires
        s.len() >= 1,
    ensures
        exists|i: int| 0 <= i < s.len() && s[i] == seq_min(s),
    decreases s.len(),
{
    if s.len() == 1 {
        assert(s[0] == seq_min(s));
    } else if s.last() as int <= seq_min(s.drop_last()) {
        assert(s[s.len() - 1] == seq_min(s));
    } else {
        lemma_min_is_member(s.drop_last());
        let i = choose|i: int| 0 <= i < s.drop_last().len() && s.drop_last()[i] == seq_min(
            s.drop_last(),
        );
        assert(s[i] == seq_min(s));
    }
}

/// A nonempty sequence contains its maximum.
pub proof fn lemma_max_is_member(s: Seq<u64>)
    requires
        s.len() >= 1,
    ensures
        exists|i: int| 0 <= i < s.len() && s[i] == seq_max(s),
    decreases s.len(),
{
    if s.len() == 1 {
        assert(s[0] == seq_max(s));
    } else if s.last() as int >= seq_max(s.drop_last()) {
        assert(s[s.len() - 1] == seq_max(s));
    } else {
        lemma_max_is_member(s.drop_last());
        let i = choose|i: int| 0 <= i < s.drop_last().len() && s.drop_last()[i] == seq_max(
            s.drop_last(),
        );
        assert(s[i] == seq_max(s));
    }
}

/// Counts and sums below a threshold are never negative.
pub proof fn lemma_below_nonneg(s: Seq<u64>, t: int)
    ensures
        count_below(s, t) >= 0,
        sum_below(s, t) >= 0,
    decreases s.len(),
{
    if s.len() > 0 {
        lemma_below_nonneg(s.drop_last(), t);
    }
}

/// If some element lies strictly below `t`, at least one is counted.
pub proof fn lemma_count_below_pos(s: Seq<u64>, t: int)
    requires
        exists|i: int| 0 <= i < s.len() && s[i] < t,
    ensures
        count_below(s, t) >= 1,
    decreases s.len(),
{
    lemma_below_nonneg(s.drop_last(), t);
    let i = choose|i: int| 0 <= i < s.len() && s[i] < t;
    if i == s.len() - 1 {
    } else {
        assert(s.drop_last()[i] == s[i]);
        lemma_count_below_pos(s.drop_last(), t);
    }
}

/// When every element is at least 1, the sum of the elements below `t`
/// lies between the count and the count times `t - 1`.
pub proof fn lemma_sum_below_bounds(s: Seq<u64>, t: int)
    requires
        forall|i: int| 0 <= i < s.len() ==> #[trigger] s[i] >= 1,
    ensures
        count_below(s, t) <= sum_below(s, t),
        sum_below(s, t) <= count_below(s, t) * (t - 1),
    decreases s.len(),
{
    if s.len() == 0 {
    } else {
        assert(forall|i: int| 0 <= i < s.drop_last().len() ==> #[trigger] s.drop_last()[i] >= 1);
        lemma_sum_below_bounds(s.drop_last(), t);
        let c = count_below(s.drop_last(), t);
        if s.last() < t {
            assert(s[s.len() - 1] >= 1);
            assert((c + 1) * (t - 1) == c * (t - 1) + (t - 1)) by (nonlinear_arith);
        }
    }
}

/// Compute the consecutive inter-edge deltas.
fn compute_deltas(edges: &Vec<u64>) -> (r: Vec<u64>)
    requires
        edges@.len() >= 2,
        strictly_increasing(edges@),
        forall|k: int| 0 <= k < edges@.len() ==> #[trigger] edges@[k] < RECORD_NS,
    ensures
        r@ == delta_seq(edges@),
        r@.len() == edges@.len() - 1,
        forall|k: int| 0 <= k < r@.len() ==> 1 <= #[trigger] r@[k] < RECORD_NS,
{
    let mut deltas: Vec<u64> = Vec::new();
    let mut i: usize = 1;
    while i < edges.len()
        invariant
            1 <= i <= edges@.len(),
            edges@.len() >= 2,
            strictly_increasing(edges@),
            forall|k: int| 0 <= k < edges@.len() ==> #[trigger] edges@[k] < RECORD_NS,
            deltas@.len() == i - 1,
            forall|k: int| 0 <= k < i - 1 ==> #[trigger] deltas@[k] == edges@[k + 1] - edges@[k],
            forall|k: int| 0 <= k < i - 1 ==> 1 <= #[trigger] deltas@[k] < RECORD_NS,
        decreases edges@.len() - i,
    {
        proof {
            assert(edges@[i - 1] < edges@[i as int]);
        }
        deltas.push(edges[i] - edges[i - 1]);
        i = i + 1;
    }
    proof {
        assert(deltas@ =~= delta_seq(edges@));
    }
    deltas
}

/// Find the largest and smallest delta.
fn minmax(ds: &Vec<u64>) -> (r: (u64, u64))
    requires
        ds@.len() >= 1,
    ensures
        r.0 == seq_min(ds@),
        r.1 == seq_max(ds@),
{
    let mut mn = ds[0];
    let mut mx = ds[0];
    let mut i: usize = 1;
    proof {
        assert(ds@.take(1).len() == 1 && ds@.take(1)[0] == ds@[0]);
    }
    while i < ds.len()
        invariant
            1 <= i <= ds@.len(),
            mn == seq_min(ds@.take(i as int)),
            mx == seq_max(ds@.take(i as int)),
        decreases ds@.len() - i,
    {
        proof {
            assert(ds@.take(i + 1).drop_last() =~= ds@.take(i as int));
            assert(ds@.take(i + 1).last() == ds@[i as int]);
        }
        if ds[i] < mn {
            mn = ds[i];
        }
        if ds[i] > mx {
            mx = ds[i];
        }
        i = i + 1;
    }
    proof {
        assert(ds@.take(ds@.len() as int) =~= ds@);
    }
    (mn, mx)
}

/// Whether the midpoint threshold can separate a short-delta population,
/// so that clock recovery is possible at all.
pub fn clock_recoverable(edges: &Vec<u64>) -> (r: bool)
    requires
        edges@.len() >= 2,
        strictly_increasing(edges@),
        forall|k: int| 0 <= k < edges@.len() ==> #[trigger] edges@[k] < RECORD_NS,
    ensures
        r == !clock_degenerate(edges@),
{
    let deltas = compute_deltas(edges);
    let (mn, mx) = minmax(&deltas);
    mx >= mn + 2
}

/// Recover the single-clock-unit duration from an edge sequence: average
/// the deltas strictly below the midpoint threshold.  The result is
/// always strictly positive and strictly smaller than the largest delta.
pub fn clock_recovery(edges: &Vec<u64>) -> (r: u64)
    requires
        edges@.len() >= 2,
        edges@.len() <= MAX_EDGES,
        strictly_increasing(edges@),
        forall|k: int| 0 <= k < edges@.len() ==> #[trigger] edges@[k] < RECORD_NS,
        !clock_degenerate(edges@),
    ensures
        r == recovered_clock(edges@),
        1 <= r,
        r < seq_max(delta_seq(edges@)),
{
    let deltas = compute_deltas(edges);
    let (mn, mx) = minmax(&deltas);
    proof {
        lemma_min_is_member(deltas@);
        lemma_max_is_member(deltas@);
    }
    let threshold = (mx + mn) / 2;
    proof {
        // The smallest delta lies strictly below the threshold, so at
        // least one delta is averaged.
        lemma_div_is_ordered(2 * (mn as int + 1), mn as int + mx as int, 2);
        lemma_div_by_multiple(mn as int + 1, 2);
        assert(threshold as int == threshold_of(deltas@));
        lemma_count_below_pos(deltas@, threshold as int);
        // And the threshold itself stays strictly below the largest delta.
        lemma_div_is_ordered(mn as int + mx as int, 2 * (mx as int - 1), 2);
        lemma_div_by_multiple(mx as int - 1, 2);
    }
    let mut sum: u64 = 0;
    let mut cnt: u64 = 0;
    let mut i: usize = 0;
    proof {
        assert(deltas@.take(0) =~= Seq::<u64>::empty());
    }
    while i < deltas.len()
        invariant
            i <= deltas@.len(),
            deltas@.len() < MAX_EDGES,
            forall|k: int| 0 <= k < deltas@.len() ==> 1 <= #[trigger] deltas@[k] < RECORD_NS,
            sum == sum_below(deltas@.take(i as int), threshold as int),
            cnt == count_below(deltas@.take(i as int), threshold as int),
            sum <= i * (RECORD_NS as int),
            cnt <= i,
        decreases deltas@.len() - i,
    {
        proof {
            assert(deltas@.take(i + 1).drop_last() =~= deltas@.take(i as int));
            assert(deltas@.take(i + 1).last() == deltas@[i as int]);
            assert((i as int) * (RECORD_NS as int) + RECORD_NS == (i as int + 1) * (
            RECORD_NS as int)) by (nonlinear_arith);
            assert((i as int) * (RECORD_NS as int) <= 50 * (RECORD_NS as int))
                by (nonlinear_arith)
                requires
                    0 <= i as int <= 50,
                    RECORD_NS as int >= 0,
            ;
        }
        if deltas[i] < threshold {
            sum = sum + deltas[i];
            cnt = cnt + 1;
        }
        i = i + 1;
    }
    proof {
        assert(deltas@.take(deltas@.len() as int) =~= deltas@);
        lemma_sum_below_bounds(deltas@, threshold as int);
        // 1 <= sum / cnt <= threshold - 1 < seq_max.
        lemma_div_is_ordered(cnt as int, sum as int, cnt as int);
        lemma_div_by_multiple(1, cnt as int);
        lemma_div_is_ordered(sum as int, cnt as int * (threshold as int - 1), cnt as int);
        lemma_div_by_multiple(threshold as int - 1, cnt as int);
    }
    sum / cnt
}

} // verus!
