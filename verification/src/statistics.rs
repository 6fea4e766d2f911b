//! Summary statistics over timing samples.
//!
//! Samples are durations in whole nanoseconds. Percentiles are read off the
//! ascending arrangement of the samples at `floor(count * percent / 100)`,
//! clamped to the last position. The mean is the integer quotient of the sum
//! by the count, the variance is the population variance around that mean
//! (divisor `count`), rounded down, and the standard deviation is the integer
//! square root of the variance.

use vstd::prelude::*;
use vstd::relations::*;
use vstd::seq_lib::*;
use vstd::slice::*;

verus! {

/// Percentile timings of one run, in nanoseconds.
#[derive(Debug, Clone, Copy)]
pub struct Percentiles {
    /// 50th percentile (median).
    pub p50: u128,
    /// 90th percentile.
    pub p90: u128,
    /// 99th percentile.
    pub p99: u128,
    /// Arithmetic mean, rounded down.
    pub mean: u128,
}

impl Default for Percentiles {
    fn default() -> (p: Self)
        ensures
            p.p50 == 0 && p.p90 == 0 && p.p99 == 0 && p.mean == 0,
    {
        Percentiles { p50: 0, p90: 0, p99: 0, mean: 0 }
    }
}

/// Full summary of one run. Durations are nanoseconds, the variance is
/// nanoseconds squared.
#[derive(Debug, Clone, Copy)]
pub struct Statistics {
    /// Arithmetic mean, rounded down.
    pub mean: u128,
    /// 50th percentile.
    pub median: u128,
    /// 90th percentile.
    pub p90: u128,
    /// 99th percentile.
    pub p99: u128,
    /// Integer square root of `variance`.
    pub std_dev: u128,
    /// Population variance around `mean`, rounded down.
    pub variance: u128,
    /// Smallest sample.
    pub min: u128,
    /// Largest sample.
    pub max: u128,
    /// Number of samples summarised.
    pub sample_count: usize,
}

/// The order in which samples are arranged for percentiles.
pub open spec fn ascending_order() -> spec_fn(u128, u128) -> bool {
    |a: u128, b: u128| a <= b
}

/// The samples arranged in ascending order.
pub open spec fn ascending(s: Seq<u128>) -> Seq<u128> {
    s.sort_by(ascending_order())
}

/// Sum of all samples.
pub open spec fn total(s: Seq<u128>) -> nat
    decreases s.len(),
{
    if s.len() == 0 {
        0
    } else {
        total(s.drop_last()) + s.last() as nat
    }
}

/// Sum of the squared distances of the samples from `center`.
pub open spec fn squared_deviations(s: Seq<u128>, center: int) -> nat
    decreases s.len(),
{
    if s.len() == 0 {
        0
    } else {
        squared_deviations(s.drop_last(), center) + ((s.last() - center) * (s.last() - center)) as nat
    }
}

/// Integer mean of the samples; zero for no samples.
pub open spec fn mean_of(s: Seq<u128>) -> nat {
    if s.len() == 0 {
        0
    } else {
        total(s) / s.len()
    }
}

/// Population variance around the integer mean, rounded down; zero for no
/// samples.
pub open spec fn variance_of(s: Seq<u128>) -> nat {
    if s.len() == 0 {
        0
    } else {
        squared_deviations(s, mean_of(s) as int) / s.len()
    }
}

/// `root` is the largest integer whose square does not exceed `n`.
pub open spec fn is_floor_sqrt(root: nat, n: nat) -> bool {
    root * root <= n < (root + 1) * (root + 1)
}

/// The largest integer whose square does not exceed `n`.
pub open spec fn floor_sqrt(n: nat) -> nat {
    choose|root: nat| is_floor_sqrt(root, n)
}

/// There is one largest integer whose square does not exceed `n`.
pub proof fn lemma_floor_sqrt(root: nat, n: nat)
    requires
        is_floor_sqrt(root, n),
    ensures
        floor_sqrt(n) == root,
{
    let chosen = floor_sqrt(n);
    assert(chosen == root) by (nonlinear_arith)
        requires
            chosen * chosen <= n < (chosen + 1) * (chosen + 1),
            root * root <= n < (root + 1) * (root + 1),
    ;
}

/// Position in the ascending arrangement at which a percentile is read.
pub open spec fn percentile_index(count: nat, percent: nat) -> nat {
    if count == 0 {
        0
    } else if count * percent / 100 < count - 1 {
        count * percent / 100
    } else {
        (count - 1) as nat
    }
}

/// The sample at the given percentile.
pub open spec fn percentile_of(s: Seq<u128>, percent: nat) -> u128
    recommends
        s.len() > 0,
{
    ascending(s)[percentile_index(s.len(), percent) as int]
}

/// Smallest sample.
pub open spec fn min_of(s: Seq<u128>) -> u128
    recommends
        s.len() > 0,
{
    ascending(s)[0]
}

/// Largest sample.
pub open spec fn max_of(s: Seq<u128>) -> u128
    recommends
        s.len() > 0,
{
    ascending(s)[s.len() - 1]
}

/// Whether the sums that a full summary needs fit in 128 bits.
pub open spec fn statistics_fit(s: Seq<u128>) -> bool {
    total(s) <= u128::MAX && squared_deviations(s, mean_of(s) as int) <= u128::MAX
}

/// The ascending order is a total order.
pub proof fn lemma_ascending_order_total()
    ensures
        total_ordering(ascending_order()),
{
    let leq = ascending_order();
    assert(reflexive(leq));
    assert(antisymmetric(leq));
    assert(transitive(leq));
    assert(strongly_connected(leq));
}

/// `ascending(s)` is sorted and holds exactly the samples of `s`.
pub proof fn lemma_ascending_is_sorted_permutation(s: Seq<u128>)
    ensures
        sorted_by(ascending(s), ascending_order()),
        ascending(s).to_multiset() =~= s.to_multiset(),
        ascending(s).len() == s.len(),
        forall|i: int, j: int| 0 <= i <= j < s.len() ==> ascending(s)[i] <= ascending(s)[j],
{
    lemma_ascending_order_total();
    s.lemma_sort_by_ensures(ascending_order());
    s.to_multiset_ensures();
    ascending(s).to_multiset_ensures();
    let a = ascending(s);
    assert forall|i: int, j: int| 0 <= i <= j < s.len() implies a[i] <= a[j] by {
        if i < j {
            assert(ascending_order()(a[i], a[j]));
        }
    }
}

/// A sorted rearrangement of `s` is `ascending(s)`.
pub proof fn lemma_sorted_permutation_is_ascending(s: Seq<u128>, sorted: Seq<u128>)
    requires
        sorted_by(sorted, ascending_order()),
        sorted.to_multiset() == s.to_multiset(),
    ensures
        sorted == ascending(s),
{
    lemma_ascending_order_total();
    lemma_ascending_is_sorted_permutation(s);
    lemma_sorted_unique(sorted, ascending(s), ascending_order());
}

/// A prefix never sums to more than the whole.
pub proof fn lemma_total_prefix(s: Seq<u128>, k: int)
    requires
        0 <= k <= s.len(),
    ensures
        total(s.take(k)) <= total(s),
    decreases s.len(),
{
    if k == s.len() {
        assert(s.take(k) =~= s);
    } else {
        assert(s.drop_last().take(k) =~= s.take(k));
        lemma_total_prefix(s.drop_last(), k);
    }
}

/// Taking one more sample adds it to the sum.
pub proof fn lemma_total_step(s: Seq<u128>, k: int)
    requires
        0 <= k < s.len(),
    ensures
        total(s.take(k + 1)) == total(s.take(k)) + s[k],
{
    assert(s.take(k + 1).drop_last() =~= s.take(k));
}

/// A prefix never has more squared deviation than the whole.
pub proof fn lemma_squared_deviations_prefix(s: Seq<u128>, center: int, k: int)
    requires
        0 <= k <= s.len(),
    ensures
        squared_deviations(s.take(k), center) <= squared_deviations(s, center),
    decreases s.len(),
{
    if k == s.len() {
        assert(s.take(k) =~= s);
    } else {
        assert(s.drop_last().take(k) =~= s.take(k));
        lemma_squared_deviations_prefix(s.drop_last(), center, k);
    }
}

/// Taking one more sample adds its squared distance.
pub proof fn lemma_squared_deviations_step(s: Seq<u128>, center: int, k: int)
    requires
        0 <= k < s.len(),
    ensures
        squared_deviations(s.take(k + 1), center) == squared_deviations(s.take(k), center) + (s[k]
            - center) * (s[k] - center),
{
    assert(s.take(k + 1).drop_last() =~= s.take(k));
    assert((s[k] - center) * (s[k] - center) >= 0) by (nonlinear_arith);
}

/// Percentile positions grow with the percentage and stay inside the samples.
pub proof fn lemma_percentile_index_monotonic(count: nat, low: nat, high: nat)
    requires
        count > 0,
        low <= high,
    ensures
        percentile_index(count, low) <= percentile_index(count, high) < count,
{
    assert(count * low <= count * high) by (nonlinear_arith)
        requires
            low <= high,
    ;
}

/// For every non-empty sample set the percentiles are ordered and lie between
/// the smallest and the largest sample.
pub proof fn lemma_percentiles_ordered(s: Seq<u128>)
    requires
        s.len() > 0,
    ensures
        percentile_of(s, 50) <= percentile_of(s, 90) <= percentile_of(s, 99),
        min_of(s) <= percentile_of(s, 50) <= max_of(s),
        min_of(s) <= percentile_of(s, 99) <= max_of(s),
{
    lemma_ascending_is_sorted_permutation(s);
    lemma_percentile_index_monotonic(s.len(), 50, 90);
    lemma_percentile_index_monotonic(s.len(), 90, 99);
    lemma_percentile_index_monotonic(s.len(), 0, 50);
}

/// The smallest sample is a sample and no sample is below it; likewise the
/// largest.
pub proof fn lemma_min_max_bound(s: Seq<u128>)
    requires
        s.len() > 0,
    ensures
        s.contains(min_of(s)),
        s.contains(max_of(s)),
        forall|i: int| 0 <= i < s.len() ==> min_of(s) <= #[trigger] s[i] <= max_of(s),
{
    lemma_ascending_is_sorted_permutation(s);
    let a = ascending(s);
    s.to_multiset_ensures();
    a.to_multiset_ensures();
    assert(a.contains(a[0]));
    assert(a.contains(a[a.len() - 1]));
    assert(s.to_multiset().count(a[0]) > 0);
    assert(s.to_multiset().count(a[a.len() - 1]) > 0);
    assert forall|i: int| 0 <= i < s.len() implies min_of(s) <= #[trigger] s[i] <= max_of(s) by {
        assert(s.contains(s[i]));
        assert(a.to_multiset().count(s[i]) > 0);
        assert(a.contains(s[i]));
        let j = choose|j: int| 0 <= j < a.len() && a[j] == s[i];
        assert(a[0] <= a[j] <= a[a.len() - 1]);
    }
}

/// `<[u128]>::sort` of the standard library: afterwards the vector is in
/// ascending order and holds the same samples as before, each as often.
#[verifier::external_body]
fn sort_samples(v: &mut Vec<u128>)
    ensures
        sorted_by(final(v)@, ascending_order()),
        final(v)@.to_multiset() == old(v)@.to_multiset(),
{
    v.sort();
}

/// A sorted copy of the samples.
pub(crate) fn sorted_copy(samples: &[u128]) -> (sorted: Vec<u128>)
    ensures
        sorted@ == ascending(samples@),
{
    let mut sorted = slice_to_vec(samples);
    sort_samples(&mut sorted);
    proof {
        lemma_sorted_permutation_is_ascending(samples@, sorted@);
    }
    sorted
}

/// Position at which the given percentile is read among `count` samples.
pub(crate) fn percentile_position(count: usize, percent: u8) -> (index: usize)
    requires
        count > 0,
        percent <= 100,
    ensures
        index == percentile_index(count as nat, percent as nat),
        index < count,
{
    assert(count * percent <= usize::MAX * 100) by (nonlinear_arith)
        requires
            count <= usize::MAX,
            percent <= 100,
    ;
    let scaled: u128 = (count as u128) * (percent as u128) / 100;
    if scaled < (count - 1) as u128 {
        scaled as usize
    } else {
        count - 1
    }
}

/// Sum of the samples, or `None` if it does not fit in 128 bits.
pub fn checked_total(samples: &[u128]) -> (sum: Option<u128>)
    ensures
        sum is Some <==> total(samples@) <= u128::MAX,
        sum is Some ==> sum->Some_0 == total(samples@),
{
    let mut sum: u128 = 0;
    let mut i: usize = 0;
    while i < samples.len()
        invariant
            i <= samples.len(),
            sum == total(samples@.take(i as int)),
        decreases samples.len() - i,
    {
        proof {
            lemma_total_step(samples@, i as int);
            lemma_total_prefix(samples@, i + 1);
        }
        match sum.checked_add(samples[i]) {
            Some(next) => {
                sum = next;
            },
            None => {
                return None;
            },
        }
        i += 1;
    }
    proof {
        assert(samples@.take(i as int) =~= samples@);
    }
    Some(sum)
}

/// Sum of the squared distances of the samples from `center`, or `None` if it
/// does not fit in 128 bits.
pub fn checked_squared_deviations(samples: &[u128], center: u128) -> (sum: Option<u128>)
    ensures
        sum is Some <==> squared_deviations(samples@, center as int) <= u128::MAX,
        sum is Some ==> sum->Some_0 == squared_deviations(samples@, center as int),
{
    let mut sum: u128 = 0;
    let mut i: usize = 0;
    while i < samples.len()
        invariant
            i <= samples.len(),
            sum == squared_deviations(samples@.take(i as int), center as int),
        decreases samples.len() - i,
    {
        let sample = samples[i];
        let distance: u128 = if sample >= center {
            sample - center
        } else {
            center - sample
        };
        proof {
            lemma_squared_deviations_step(samples@, center as int, i as int);
            lemma_squared_deviations_prefix(samples@, center as int, i + 1);
            assert(distance * distance == (sample - center) * (sample - center))
                by (nonlinear_arith)
                requires
                    distance == sample - center || distance == center - sample,
            ;
        }
        let square = match distance.checked_mul(distance) {
            Some(square) => square,
            None => {
                return None;
            },
        };
        match sum.checked_add(square) {
            Some(next) => {
                sum = next;
            },
            None => {
                return None;
            },
        }
        i += 1;
    }
    proof {
        assert(samples@.take(i as int) =~= samples@);
    }
    Some(sum)
}

/// Largest integer whose square does not exceed `n`.
pub fn integer_sqrt(n: u128) -> (root: u128)
    ensures
        is_floor_sqrt(root as nat, n as nat),
{
    let mut low: u128 = 0;
    let mut high: u128 = 0x1_0000_0000_0000_0000;
    assert(0x1_0000_0000_0000_0000int * 0x1_0000_0000_0000_0000int > u128::MAX) by (nonlinear_arith);
    while high - low > 1
        invariant
            low < high <= 0x1_0000_0000_0000_0000,
            low * low <= n < high * high,
        decreases high - low,
    {
        let mid: u128 = low + (high - low) / 2;
        assert(mid * mid <= 0xffff_ffff_ffff_ffff * 0xffff_ffff_ffff_ffff) by (nonlinear_arith)
            requires
                mid <= 0xffff_ffff_ffff_ffff,
        ;
        assert(0xffff_ffff_ffff_ffffint * 0xffff_ffff_ffff_ffffint <= u128::MAX) by (nonlinear_arith);
        if mid * mid <= n {
            low = mid;
        } else {
            high = mid;
        }
    }
    low
}

/// Percentiles and mean of a non-empty run.
///
/// Each percentile is the sample at `floor(count * percent / 100)` of the
/// ascending arrangement, clamped to the last position; the mean is the
/// integer quotient of the sum by the count.
pub fn calculate_percentiles(timings: &[u128]) -> (p: Percentiles)
    requires
        timings@.len() > 0,
        total(timings@) <= u128::MAX,
    ensures
        p.p50 == percentile_of(timings@, 50),
        p.p90 == percentile_of(timings@, 90),
        p.p99 == percentile_of(timings@, 99),
        p.mean == mean_of(timings@),
        p.p50 <= p.p90 <= p.p99,
{
    let sorted = sorted_copy(timings);
    let len = timings.len();
    proof {
        lemma_ascending_is_sorted_permutation(timings@);
        lemma_percentiles_ordered(timings@);
    }
    let sum = match checked_total(timings) {
        Some(sum) => sum,
        None => 0,
    };
    Percentiles {
        p50: sorted[percentile_position(len, 50)],
        p90: sorted[percentile_position(len, 90)],
        p99: sorted[percentile_position(len, 99)],
        mean: sum / (len as u128),
    }
}

/// The samples of a run at fixed places of their ascending order.
#[derive(Debug, Clone, Copy, PartialEq, Eq, Structural)]
pub struct OrderStatistics {
    /// The 50th percentile.
    pub median: u128,
    /// The 90th percentile.
    pub p90: u128,
    /// The 99th percentile.
    pub p99: u128,
    /// Smallest sample.
    pub min: u128,
    /// Largest sample.
    pub max: u128,
}

/// The order statistics of the samples.
pub open spec fn order_statistics_of(s: Seq<u128>) -> OrderStatistics
    recommends
        s.len() > 0,
{
    OrderStatistics {
        median: percentile_of(s, 50),
        p90: percentile_of(s, 90),
        p99: percentile_of(s, 99),
        min: min_of(s),
        max: max_of(s),
    }
}

/// Median, 90th and 99th percentile, smallest and largest of the samples,
/// for every sample set that is not empty: the percentiles are in order and
/// lie between the smallest and the largest sample.
pub fn order_statistics(samples: &[u128]) -> (o: OrderStatistics)
    requires
        samples@.len() > 0,
    ensures
        o == order_statistics_of(samples@),
        o.median <= o.p90 <= o.p99,
        o.min <= o.median <= o.max,
        o.min <= o.p99 <= o.max,
{
    let count = samples.len();
    let sorted = sorted_copy(samples);
    proof {
        lemma_ascending_is_sorted_permutation(samples@);
        lemma_percentiles_ordered(samples@);
    }
    OrderStatistics {
        median: sorted[percentile_position(count, 50)],
        p90: sorted[percentile_position(count, 90)],
        p99: sorted[percentile_position(count, 99)],
        min: sorted[0],
        max: sorted[count - 1],
    }
}

/// Summary of a run, or `None` where a sum that it needs exceeds 128 bits.
///
/// No samples give the all-zero summary.
pub fn try_calculate_statistics(samples: &[u128]) -> (r: Option<Statistics>)
    ensures
        r is Some <==> statistics_fit(samples@),
        r matches Some(stats) ==> is_summary_of(stats, samples@),
{
    let sample_count = samples.len();
    if sample_count == 0 {
        proof {
            assert(0nat * 0nat <= 0nat < (0nat + 1) * (0nat + 1)) by (nonlinear_arith);
        }
        return Some(
            Statistics {
                mean: 0,
                median: 0,
                p90: 0,
                p99: 0,
                std_dev: 0,
                variance: 0,
                min: 0,
                max: 0,
                sample_count: 0,
            },
        );
    }
    let sum = match checked_total(samples) {
        Some(sum) => sum,
        None => {
            return None;
        },
    };
    let mean = sum / (sample_count as u128);
    let deviations = match checked_squared_deviations(samples, mean) {
        Some(deviations) => deviations,
        None => {
            return None;
        },
    };
    let variance = deviations / (sample_count as u128);
    let std_dev = integer_sqrt(variance);
    let order = order_statistics(samples);
    Some(
        Statistics {
            mean,
            median: order.median,
            p90: order.p90,
            p99: order.p99,
            std_dev,
            variance,
            min: order.min,
            max: order.max,
            sample_count,
        },
    )
}

/// `stats` is the summary of the samples `s`.
pub open spec fn is_summary_of(stats: Statistics, s: Seq<u128>) -> bool {
    &&& stats.sample_count == s.len()
    &&& stats.mean == mean_of(s)
    &&& stats.variance == variance_of(s)
    &&& is_floor_sqrt(stats.std_dev as nat, stats.variance as nat)
    &&& s.len() == 0 ==> stats.median == 0 && stats.p90 == 0 && stats.p99 == 0 && stats.min == 0
        && stats.max == 0
    &&& s.len() > 0 ==> stats.median == percentile_of(s, 50) && stats.p90 == percentile_of(s, 90)
        && stats.p99 == percentile_of(s, 99) && stats.min == min_of(s) && stats.max == max_of(s)
}

/// Summary of a run.
///
/// No samples give the all-zero summary with `sample_count` zero.
pub fn calculate_statistics(samples: &[u128]) -> (stats: Statistics)
    requires
        statistics_fit(samples@),
    ensures
        is_summary_of(stats, samples@),
        samples@.len() > 0 ==> stats.median <= stats.p90 <= stats.p99 && stats.min <= stats.median
            <= stats.max,
{
    proof {
        if samples@.len() > 0 {
            lemma_percentiles_ordered(samples@);
        }
    }
    match try_calculate_statistics(samples) {
        Some(stats) => stats,
        None => Statistics {
            mean: 0,
            median: 0,
            p90: 0,
            p99: 0,
            std_dev: 0,
            variance: 0,
            min: 0,
            max: 0,
            sample_count: 0,
        },
    }
}

/// A summary determines every one of its fields: two summaries of the same
/// samples are equal.
pub proof fn lemma_summary_unique(a: Statistics, b: Statistics, s: Seq<u128>)
    requires
        is_summary_of(a, s),
        is_summary_of(b, s),
    ensures
        a == b,
{
    let n = a.variance as nat;
    let x = a.std_dev as nat;
    let y = b.std_dev as nat;
    assert(x == y) by (nonlinear_arith)
        requires
            x * x <= n < (x + 1) * (x + 1),
            y * y <= n < (y + 1) * (y + 1),
    ;
}

/// The summary of no samples is all zero.
pub proof fn lemma_empty_summary(stats: Statistics)
    requires
        is_summary_of(stats, Seq::<u128>::empty()),
    ensures
        stats.mean == 0 && stats.median == 0 && stats.p90 == 0 && stats.p99 == 0 && stats.std_dev
            == 0 && stats.variance == 0 && stats.min == 0 && stats.max == 0 && stats.sample_count
            == 0,
{
    let x = stats.std_dev as nat;
    assert(x == 0) by (nonlinear_arith)
        requires
            x * x <= 0,
    ;
}

/// Mean of the values, rounded down; zero for no values. `None` where the
/// sum exceeds 128 bits.
pub fn mean(values: &[u128]) -> (m: Option<u128>)
    ensures
        m is Some <==> total(values@) <= u128::MAX,
        m is Some ==> m->Some_0 == mean_of(values@),
{
    if values.len() == 0 {
        return Some(0);
    }
    match checked_total(values) {
        Some(sum) => Some(sum / (values.len() as u128)),
        None => None,
    }
}

/// Population variance of the values around their mean, rounded down; zero
/// for fewer than two values. `None` where a sum exceeds 128 bits.
pub fn variance(values: &[u128]) -> (v: Option<u128>)
    ensures
        v is Some <==> statistics_fit(values@),
        v is Some ==> v->Some_0 == variance_of(values@),
{
    match try_calculate_statistics(values) {
        Some(stats) => Some(stats.variance),
        None => None,
    }
}

/// Square root of the population variance, rounded down. `None` where a sum
/// exceeds 128 bits.
pub fn standard_deviation(values: &[u128]) -> (d: Option<u128>)
    ensures
        d is Some <==> statistics_fit(values@),
        d is Some ==> d->Some_0 == floor_sqrt(variance_of(values@)),
{
    match try_calculate_statistics(values) {
        Some(stats) => {
            proof {
                lemma_floor_sqrt(stats.std_dev as nat, stats.variance as nat);
            }
            Some(stats.std_dev)
        },
        None => None,
    }
}

} // verus!
