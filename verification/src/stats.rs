//! Percentiles by the nearest-rank definition: sort ascending and take element
//! `ceil(p * n / 100)`, counted from one. No interpolation, no sketch.
use vstd::prelude::*;
use vstd::relations::{sorted_by, total_ordering};

use crate::total::sum;

verus! {

/// A summary of one measured distribution, in the caller's units.
#[derive(Clone, Copy, Debug, PartialEq, Eq, Structural)]
pub struct Summary {
    pub count: usize,
    pub min: u64,
    pub p50: u64,
    pub p90: u64,
    pub p99: u64,
    pub max: u64,
    pub mean: u64,
}

/// Samples in ascending order.
pub open spec fn ascending(samples: Seq<u64>) -> bool {
    forall|i: int, j: int| 0 <= i <= j < samples.len() ==> samples[i] <= samples[j]
}

/// The sum of the samples.
pub open spec fn total(samples: Seq<u64>) -> nat
    decreases samples.len(),
{
    if samples.len() == 0 {
        0
    } else {
        total(samples.drop_last()) + samples.last() as nat
    }
}

/// The nearest rank of a percentile among `n` samples, counted from one.
pub open spec fn rank(percent: nat, n: nat) -> nat {
    let exact = (percent * n + 99) / 100;
    if exact < 1 {
        1
    } else {
        exact
    }
}

/// The summary of samples that stand in ascending order.
pub open spec fn summary_of(sorted: Seq<u64>) -> Summary {
    let n = sorted.len();
    Summary {
        count: n as usize,
        min: sorted[0],
        p50: sorted[rank(50, n) - 1],
        p90: sorted[rank(90, n) - 1],
        p99: sorted[rank(99, n) - 1],
        max: sorted[n - 1],
        mean: (total(sorted) / n) as u64,
    }
}

/// `<[u64]>::sort_unstable`: afterwards the slice is in ascending order and
/// holds the elements that it held before, each as often as before.
#[verifier::external_body]
fn sort(samples: &mut [u64])
    ensures
        ascending(final(samples)@),
        final(samples)@.to_multiset() == old(samples)@.to_multiset(),
        final(samples)@.len() == old(samples)@.len(),
{
    samples.sort_unstable();
}

/// Element `ceil(percent * n / 100)` of an ascending slice, counted from one.
fn nearest_rank(sorted: &[u64], percent: u64) -> (value: u64)
    requires
        sorted@.len() > 0,
        percent <= 100,
    ensures
        value == sorted@[rank(percent as nat, sorted@.len()) - 1],
{
    let n: usize = sorted.len();
    assert(percent * n <= 100 * n) by (nonlinear_arith)
        requires
            percent <= 100,
    ;
    let scaled: u128 = percent as u128 * n as u128;
    let exact: u128 = (scaled + 99) / 100;
    let place: u128 = if exact < 1 {
        1
    } else {
        exact
    };
    sorted[(place - 1) as usize]
}

/// Summarise `samples`, sorting them in place. `None` for no samples: a
/// percentile over nothing is not a number.
pub fn summarize(samples: &mut [u64]) -> (summary: Option<Summary>)
    ensures
        final(samples)@.to_multiset() == old(samples)@.to_multiset(),
        ascending(final(samples)@),
        summary == if old(samples)@.len() == 0 {
            None
        } else {
            Some(summary_of(final(samples)@))
        },
{
    if samples.len() == 0 {
        return None;
    }
    sort(samples);
    let n: usize = samples.len();
    let mut sum: u128 = 0;
    let mut i: usize = 0;
    while i < n
        invariant
            i <= n == samples@.len(),
            sum == total(samples@.take(i as int)),
            sum <= i * u64::MAX,
        decreases n - i,
    {
        assert(samples@.take(i + 1).drop_last() =~= samples@.take(i as int));
        assert(i * u64::MAX + u64::MAX <= u128::MAX) by (nonlinear_arith)
            requires
                i <= u64::MAX,
        ;
        sum = sum + samples[i] as u128;
        i += 1;
    }
    assert(samples@.take(n as int) =~= samples@);
    let mean: u128 = sum / (n as u128);
    assert(mean <= u64::MAX) by (nonlinear_arith)
        requires
            mean == sum / (n as u128),
            sum <= n * u64::MAX,
            n > 0,
    ;
    Some(
        Summary {
            count: n,
            min: samples[0],
            p50: nearest_rank(samples, 50),
            p90: nearest_rank(samples, 90),
            p99: nearest_rank(samples, 99),
            max: samples[n - 1],
            mean: mean as u64,
        },
    )
}

/// The order in which samples arrive does not matter: two runs with the same
/// samples, each sorted, are the same sequence and so have the same summary.
pub proof fn law_arrival_order_is_immaterial(a: Seq<u64>, b: Seq<u64>)
    requires
        ascending(a),
        ascending(b),
        a.to_multiset() == b.to_multiset(),
    ensures
        a == b,
        summary_of(a) == summary_of(b),
{
    let leq = |x: u64, y: u64| x <= y;
    assert(sorted_by(a, leq));
    assert(sorted_by(b, leq));
    assert(total_ordering(leq));
    vstd::seq_lib::lemma_sorted_unique(a, b, leq);
}

/// At most one sample in a hundred lies above the P99.
pub proof fn law_at_most_one_percent_exceeds_the_p99(sorted: Seq<u64>)
    requires
        ascending(sorted),
        0 < sorted.len() <= usize::MAX,
    ensures
        sorted.filter(|s: u64| s > summary_of(sorted).p99).len() * 100 <= sorted.len(),
{
    let n = sorted.len();
    let r = rank(99, n) as int;
    let p99 = summary_of(sorted).p99;
    let above = |s: u64| s > p99;
    let low = sorted.take(r);
    let high = sorted.skip(r);
    assert(sorted =~= low + high);
    Seq::filter_distributes_over_add(low, high, above);
    high.lemma_filter_len(above);
    assert forall|i: int| 0 <= i < low.len() implies !above(#[trigger] low[i]) by {
        assert(sorted[i] <= sorted[r - 1]);
    }
    lemma_filter_none(low, above);
}

proof fn lemma_filter_none(s: Seq<u64>, keep: spec_fn(u64) -> bool)
    requires
        forall|i: int| 0 <= i < s.len() ==> !keep(#[trigger] s[i]),
    ensures
        s.filter(keep).len() == 0,
    decreases s.len(),
{
    reveal(Seq::filter);
    if s.len() > 0 {
        lemma_filter_none(s.drop_last(), keep);
    }
}

/// Every number of a summary lies between its smallest and largest sample, and
/// the percentiles are in order.
pub proof fn law_percentiles_are_ordered(sorted: Seq<u64>)
    requires
        ascending(sorted),
        0 < sorted.len() <= usize::MAX,
    ensures
        ({
            let s = summary_of(sorted);
            s.min <= s.p50 <= s.p90 <= s.p99 <= s.max && s.min <= s.mean <= s.max
        }),
{
    let n = sorted.len() as int;
    lemma_total_bounds(sorted, sorted[0], sorted[n - 1]);
    assert(sorted[0] <= total(sorted) as int / n <= sorted[n - 1]) by (nonlinear_arith)
        requires
            n > 0,
            sorted[0] * n <= total(sorted) <= sorted[n - 1] * n,
    ;
}

proof fn lemma_total_bounds(s: Seq<u64>, lo: u64, hi: u64)
    requires
        forall|i: int| 0 <= i < s.len() ==> lo <= #[trigger] s[i] <= hi,
    ensures
        lo * s.len() <= total(s) <= hi * s.len(),
    decreases s.len(),
{
    if s.len() > 0 {
        lemma_total_bounds(s.drop_last(), lo, hi);
        let k = s.len() - 1;
        assert(lo * (k + 1) == lo * k + lo && hi * (k + 1) == hi * k + hi) by (nonlinear_arith);
    }
}

/// Every number of a summary is what its name says of the samples: the smallest
/// and the largest are samples that no other undercuts or exceeds; a percentile
/// is the sample at the first place, counted from one, that is at least its share
/// of all places; and the mean is the sum shared out, rounded down.
pub proof fn law_each_number_is_what_it_is_called(sorted: Seq<u64>)
    requires
        ascending(sorted),
        0 < sorted.len() <= usize::MAX,
    ensures
        ({
            let s = summary_of(sorted);
            let n = sorted.len() as int;
            &&& s.count == n
            &&& forall|i: int| 0 <= i < n ==> s.min <= #[trigger] sorted[i] <= s.max
            &&& exists|i: int| 0 <= i < n && #[trigger] sorted[i] == s.min
            &&& exists|i: int| 0 <= i < n && #[trigger] sorted[i] == s.max
            &&& exists|k: int| at_share(sorted, 50, k) && #[trigger] sorted[k] == s.p50
            &&& exists|k: int| at_share(sorted, 90, k) && #[trigger] sorted[k] == s.p90
            &&& exists|k: int| at_share(sorted, 99, k) && #[trigger] sorted[k] == s.p99
            &&& s.mean * n <= sum(|i: int| sorted[i] as int, n) < (s.mean + 1) * n
        }),
{
    let s = summary_of(sorted);
    let n = sorted.len() as int;
    assert(sorted[0] == s.min && sorted[n - 1] == s.max);
    lemma_rank_at_share(sorted, 50);
    lemma_rank_at_share(sorted, 90);
    lemma_rank_at_share(sorted, 99);
    assert(sorted[rank(50, sorted.len()) - 1] == s.p50);
    assert(sorted[rank(90, sorted.len()) - 1] == s.p90);
    assert(sorted[rank(99, sorted.len()) - 1] == s.p99);
    lemma_total_is_summed(sorted, |i: int| sorted[i] as int);
    lemma_total_bounds(sorted, s.min, s.max);
    let t = total(sorted) as int;
    let hi = s.max as int;
    assert(0 <= t / n && (t / n) * n <= t < (t / n + 1) * n && t / n <= hi) by (nonlinear_arith)
        requires
            0 <= t <= hi * n,
            n > 0,
    ;
    assert(s.mean == t / n);
}

/// Whether place `k`, counted from zero, is the first that is at least `percent`
/// in a hundred of all places.
pub open spec fn at_share(sorted: Seq<u64>, percent: int, k: int) -> bool {
    &&& 0 <= k < sorted.len()
    &&& 100 * (k + 1) >= percent * sorted.len()
    &&& 100 * k < percent * sorted.len()
}

proof fn lemma_rank_at_share(sorted: Seq<u64>, percent: nat)
    requires
        sorted.len() > 0,
        0 < percent <= 100,
    ensures
        at_share(sorted, percent as int, rank(percent, sorted.len()) - 1),
{
    let n = sorted.len() as int;
    let p = percent as int;
    let x = p * n;
    assert(0 < x <= 100 * n) by (nonlinear_arith)
        requires
            n > 0,
            0 < p <= 100,
            x == p * n,
    ;
    assert(percent * sorted.len() == x);
}

proof fn lemma_total_is_summed(samples: Seq<u64>, at: spec_fn(int) -> int)
    requires
        forall|i: int| 0 <= i < samples.len() ==> #[trigger] at(i) == samples[i],
    ensures
        total(samples) == sum(at, samples.len() as int),
    decreases samples.len(),
{
    if samples.len() > 0 {
        let front = samples.drop_last();
        assert forall|i: int| 0 <= i < front.len() implies #[trigger] at(i) == front[i] by {}
        lemma_total_is_summed(front, at);
        assert(at(samples.len() - 1) == samples.last());
    }
}

} // verus!
