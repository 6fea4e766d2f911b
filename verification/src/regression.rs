//! The verdict on a new run against the recent accepted runs of the same
//! benchmark.
//!
//! Three questions are put to the current mean and the historical means.
//! Is it above the one-sided confidence bound of the history (statistical
//! significance)? Is it above the historical mean by more than the
//! threshold (practical significance)? Does the change point probability
//! exceed its threshold? How many of them must hold depends on the z-score,
//! the distance of the current mean from the historical mean in standard
//! deviations.
//!
//! Every question is decided exactly, on integers. With `n` historical
//! means of sum `S` and sum of squares `Q`, the historical mean is `S / n`
//! and the standard deviation `sqrt(n Q - S S) / n`, so the z-score of the
//! current mean `c` is `(n c - S) / sqrt(n Q - S S)`. Comparisons with it are
//! made between squares.
//!
//! Percentages are counted in millionths of a percent, levels and
//! probabilities in millionths.

use crate::arith::floor_div;
use crate::baseline::{is_record_of, BaselineData};
use crate::changepoint::{bayesian_change_point_probability, change_probability};
use crate::config::ComparisonConfig;
use crate::results::BenchResult;
use crate::statistics::{
    checked_total, floor_sqrt, integer_sqrt, lemma_floor_sqrt, statistics_fit, total,
    try_calculate_statistics,
};
use vstd::prelude::*;

verus! {

/// Means up to this, in nanoseconds, are compared whenever there are at most
/// 4096 historical runs: about eighteen minutes.
pub const MAX_MEAN_NS: u128 = 0x100_0000_0000;

/// Largest number of historical runs that a comparison takes.
pub const MAX_WINDOW: usize = 0xffff_ffff;

/// Largest sum of the historical means, and largest product of the current
/// mean with the number of historical runs, that a comparison takes.
pub const MAX_SCALED_MEAN: u128 = 0x10_0000_0000_0000;

/// Largest product of the number of historical runs with the sum of the
/// squares of their means that a comparison takes.
pub const MAX_SCALED_SQUARES: u128 = 0x100_0000_0000_0000_0000_0000_0000;

/// A percentage change below this is an improvement: minus five percent.
pub const IMPROVEMENT_PERCENT: i128 = -5_000_000;

/// How strongly the z-score speaks for a change.
#[derive(Debug, Clone, Copy, PartialEq, Eq, Structural)]
pub enum Evidence {
    /// The z-score is at most two in magnitude, or the history does not vary.
    Weak,
    /// The z-score is above two and at most five in magnitude.
    Strong,
    /// The z-score is above five in magnitude.
    Extreme,
}

/// The current run held against its baselines.
#[derive(Debug, Clone, Copy)]
pub struct Comparison {
    /// Mean of the current run in nanoseconds.
    pub current_mean: u128,
    /// Mean of the historical means in nanoseconds, rounded down.
    pub baseline_mean: u128,
    /// Change of the current mean against the historical mean in millionths
    /// of a percent, rounded down; positive is slower. Absent where the
    /// historical mean is zero.
    pub percentage_change: Option<i128>,
    /// Number of historical runs.
    pub baseline_count: usize,
    /// Strength of the statistical evidence.
    pub evidence: Evidence,
    /// The current mean is above the one-sided confidence bound.
    pub statistically_significant: bool,
    /// The current mean is above the historical mean by more than the
    /// threshold.
    pub practically_significant: bool,
    /// Change point probability in millionths.
    pub change_probability: u64,
    /// The z-score of the current mean in thousandths, rounded towards
    /// zero; zero where the history does not vary.
    pub z_score: i128,
    /// Lower and upper bound of the confidence interval of the history in
    /// nanoseconds, each rounded down.
    pub confidence_interval: (i128, i128),
}

/// Outcome of the comparison for one benchmark.
#[derive(Debug, Clone)]
pub struct ComparisonResult {
    /// Name of the benchmark.
    pub benchmark_name: String,
    /// The comparison; absent where there was no history.
    pub comparison: Option<Comparison>,
    /// Whether the run is a regression.
    pub is_regression: bool,
}

/// Sum of the squares.
pub open spec fn squares(s: Seq<u128>) -> nat
    decreases s.len(),
{
    if s.len() == 0 {
        0
    } else {
        squares(s.drop_last()) + (s.last() * s.last()) as nat
    }
}

/// The means of the historical runs, in order.
pub open spec fn means_of(historical: Seq<BaselineData>) -> Seq<u128> {
    historical.map_values(|run: BaselineData| run.statistics.mean)
}

/// `n (c - m)` for the current mean `c` and the mean `m` of the `n`
/// historical means.
pub open spec fn scaled_deviation(current: int, means: Seq<u128>) -> int {
    means.len() * current - total(means)
}

/// `n n` times the population variance of the historical means.
pub open spec fn scaled_variance(means: Seq<u128>) -> int {
    means.len() * squares(means) - total(means) * total(means)
}

/// The standard deviation of the historical means is below `1e-10`
/// nanoseconds, in which case the z-score counts as zero.
pub open spec fn spread_negligible(means: Seq<u128>) -> bool {
    scaled_variance(means) * 100_000_000_000_000_000_000 < means.len() * means.len()
}

/// The strength of evidence: extreme where the z-score exceeds five in
/// magnitude, strong where it exceeds two.
pub open spec fn evidence_of(current: int, means: Seq<u128>) -> Evidence {
    let a = scaled_deviation(current, means);
    let v = scaled_variance(means);
    if spread_negligible(means) {
        Evidence::Weak
    } else if a * a > 25 * v {
        Evidence::Extreme
    } else if a * a > 4 * v {
        Evidence::Strong
    } else {
        Evidence::Weak
    }
}

/// The one-sided critical value for a confidence level given in millionths,
/// in thousandths: 1.282 within a hundredth of 0.90, 1.645 within a hundredth
/// of 0.95, 2.326 within a hundredth of 0.99, and the two-sided 1.96
/// otherwise.
pub open spec fn z_critical(confidence_level: u64) -> int {
    if 890_000 < confidence_level < 910_000 {
        1282
    } else if 940_000 < confidence_level < 960_000 {
        1645
    } else if 980_000 < confidence_level < 1_000_000 {
        2326
    } else {
        1960
    }
}

/// The current mean is above the historical mean by more than the critical
/// value times the standard deviation.
pub open spec fn statistically_significant(current: int, means: Seq<u128>, confidence_level: u64) -> bool {
    let a = scaled_deviation(current, means);
    let v = scaled_variance(means);
    let z = z_critical(confidence_level);
    a > 0 && 1_000_000 * (a * a) > (z * z) * v
}

/// The current mean is above the historical mean by more than `threshold`
/// millionths of a percent of it. Against a historical mean of zero every
/// positive mean is.
pub open spec fn practically_significant(current: int, means: Seq<u128>, threshold: i64) -> bool {
    if total(means) == 0 {
        current > 0
    } else {
        100_000_000 * scaled_deviation(current, means) > threshold * total(means)
    }
}

/// Change of the current mean against the historical mean in millionths of
/// a percent, rounded down.
pub open spec fn percentage_change_of(current: int, means: Seq<u128>) -> Option<int> {
    if total(means) == 0 {
        None
    } else {
        Some(100_000_000 * scaled_deviation(current, means) / (total(means) as int))
    }
}

/// The verdict. Extreme evidence needs statistical and practical
/// significance; strong evidence needs the change point probability above
/// its threshold as well; weak evidence is never a regression.
pub open spec fn verdict(
    evidence: Evidence,
    statistically: bool,
    practically: bool,
    probability: u64,
    cp_threshold: u64,
) -> bool {
    match evidence {
        Evidence::Extreme => statistically && practically,
        Evidence::Strong => statistically && practically && probability > cp_threshold,
        Evidence::Weak => false,
    }
}

/// Whether means and their number are small enough for a comparison in
/// 128 bits: the sums and products that it is decided on stay in bounds.
pub open spec fn in_range(current: u128, means: Seq<u128>) -> bool {
    &&& means.len() <= MAX_WINDOW
    &&& means.len() * current <= MAX_SCALED_MEAN
    &&& total(means) <= MAX_SCALED_MEAN
    &&& means.len() * squares(means) <= MAX_SCALED_SQUARES
}

/// The comparison of the current mean with the historical means.
pub open spec fn comparison_of(
    current: u128,
    means: Seq<u128>,
    threshold: i64,
    confidence_level: u64,
    hazard_rate: u64,
    likelihood: u64,
) -> Comparison {
    Comparison {
        current_mean: current,
        baseline_mean: (total(means) / means.len()) as u128,
        percentage_change: match percentage_change_of(current as int, means) {
            Some(change) => Some(change as i128),
            None => None,
        },
        baseline_count: means.len() as usize,
        evidence: evidence_of(current as int, means),
        statistically_significant: statistically_significant(current as int, means, confidence_level),
        practically_significant: practically_significant(current as int, means, threshold),
        change_probability: change_probability(
            likelihood as nat,
            means.len(),
            hazard_rate as nat,
        ) as u64,
        z_score: z_score_of(current as int, means) as i128,
        confidence_interval: (
            lower_bound_of(means, confidence_level) as i128,
            upper_bound_of(means, confidence_level) as i128,
        ),
    }
}

/// Whether a comparison shows an improvement: a change below minus five
/// percent.
pub open spec fn is_improvement(comparison: Comparison) -> bool {
    comparison.percentage_change matches Some(change) && change < IMPROVEMENT_PERCENT
}

impl ComparisonResult {
    /// A result is consistent where a regression comes with a comparison
    /// and that comparison shows no improvement.
    pub open spec fn consistent(&self) -> bool {
        self.is_regression ==> self.comparison is Some && !is_improvement(self.comparison->Some_0)
    }
}

/// Bounds on sum and sum of squares of means in range.
pub proof fn lemma_sums_bounded(means: Seq<u128>)
    requires
        forall|i: int| 0 <= i < means.len() ==> #[trigger] means[i] <= MAX_MEAN_NS,
    ensures
        total(means) <= means.len() * MAX_MEAN_NS,
        squares(means) <= means.len() * (MAX_MEAN_NS * MAX_MEAN_NS),
    decreases means.len(),
{
    if means.len() > 0 {
        let earlier = means.drop_last();
        lemma_sums_bounded(earlier);
        let x = means.last();
        assert(x == means[means.len() - 1]);
        assert(x * x <= MAX_MEAN_NS * MAX_MEAN_NS) by (nonlinear_arith)
            requires
                0 <= x <= MAX_MEAN_NS,
        ;
        assert(total(means) <= means.len() * MAX_MEAN_NS) by (nonlinear_arith)
            requires
                total(means) == total(earlier) + x,
                total(earlier) <= (means.len() - 1) * MAX_MEAN_NS,
                x <= MAX_MEAN_NS,
        ;
        assert(squares(means) <= means.len() * (MAX_MEAN_NS * MAX_MEAN_NS)) by (nonlinear_arith)
            requires
                squares(means) == squares(earlier) + x * x,
                squares(earlier) <= (means.len() - 1) * (MAX_MEAN_NS * MAX_MEAN_NS),
                x * x <= MAX_MEAN_NS * MAX_MEAN_NS,
        ;
    }
}

/// Taking one more mean adds its square.
proof fn lemma_squares_step(s: Seq<u128>, k: int)
    requires
        0 <= k < s.len(),
    ensures
        squares(s.take(k + 1)) == squares(s.take(k)) + s[k] * s[k],
{
    assert(s.take(k + 1).drop_last() =~= s.take(k));
    assert(s[k] * s[k] >= 0) by (nonlinear_arith);
}

/// Means of up to eighteen minutes are in range with up to 4096 historical
/// runs.
pub proof fn lemma_small_means_in_range(current: u128, means: Seq<u128>)
    requires
        current <= MAX_MEAN_NS,
        means.len() <= 4096,
        forall|i: int| 0 <= i < means.len() ==> #[trigger] means[i] <= MAX_MEAN_NS,
    ensures
        in_range(current, means),
{
    lemma_sums_bounded(means);
    let n = means.len();
    assert(n * current <= MAX_SCALED_MEAN && n * MAX_MEAN_NS <= MAX_SCALED_MEAN && n * (n * (
        MAX_MEAN_NS * MAX_MEAN_NS)) <= MAX_SCALED_SQUARES) by (nonlinear_arith)
        requires
            n <= 4096,
            current <= 0x100_0000_0000,
            MAX_MEAN_NS == 0x100_0000_0000,
            MAX_SCALED_MEAN == 0x10_0000_0000_0000,
            MAX_SCALED_SQUARES == 0x100_0000_0000_0000_0000_0000_0000,
    ;
    assert(n * squares(means) <= n * (n * (MAX_MEAN_NS * MAX_MEAN_NS))) by (nonlinear_arith)
        requires
            squares(means) <= n * (MAX_MEAN_NS * MAX_MEAN_NS),
    ;
}

/// A prefix never has a larger sum of squares than the whole.
proof fn lemma_squares_prefix(s: Seq<u128>, k: int)
    requires
        0 <= k <= s.len(),
    ensures
        squares(s.take(k)) <= squares(s),
    decreases s.len(),
{
    if k == s.len() {
        assert(s.take(k) =~= s);
    } else {
        assert(s.drop_last().take(k) =~= s.take(k));
        lemma_squares_prefix(s.drop_last(), k);
    }
}

/// Sum of the squares, or `None` if it does not fit in 128 bits.
pub fn checked_squares(means: &[u128]) -> (sum: Option<u128>)
    ensures
        sum is Some <==> squares(means@) <= u128::MAX,
        sum is Some ==> sum->Some_0 == squares(means@),
{
    let mut sum: u128 = 0;
    let mut i: usize = 0;
    while i < means.len()
        invariant
            i <= means@.len(),
            sum == squares(means@.take(i as int)),
        decreases means@.len() - i,
    {
        let x = means[i];
        proof {
            lemma_squares_step(means@, i as int);
            lemma_squares_prefix(means@, i + 1);
        }
        let square = match x.checked_mul(x) {
            Some(square) => square,
            None => {
                return None;
            },
        };
        sum = match sum.checked_add(square) {
            Some(next) => next,
            None => {
                return None;
            },
        };
        i += 1;
    }
    proof {
        assert(means@.take(i as int) =~= means@);
    }
    Some(sum)
}

/// Whether means and their number are small enough for a comparison.
pub fn means_in_range(current_mean: u128, historical_means: &[u128]) -> (r: bool)
    ensures
        r == in_range(current_mean, historical_means@),
{
    let count = historical_means.len();
    if count > MAX_WINDOW {
        return false;
    }
    let n: u128 = count as u128;
    match n.checked_mul(current_mean) {
        Some(scaled) => {
            if scaled > MAX_SCALED_MEAN {
                return false;
            }
        },
        None => {
            return false;
        },
    }
    match checked_total(historical_means) {
        Some(sum) => {
            if sum > MAX_SCALED_MEAN {
                return false;
            }
        },
        None => {
            return false;
        },
    }
    match checked_squares(historical_means) {
        Some(square_sum) => match n.checked_mul(square_sum) {
            Some(scaled) => scaled <= MAX_SCALED_SQUARES,
            None => false,
        },
        None => {
            proof {
                let q = squares(historical_means@);
                assert(n >= 1);
                assert(n * q >= q) by (nonlinear_arith)
                    requires
                        n >= 1,
                        q >= 0,
                ;
            }
            false
        },
    }
}

/// Sum and sum of squares of means in range.
fn sums(means: &[u128]) -> (r: (u128, u128))
    requires
        total(means@) <= u128::MAX,
        squares(means@) <= u128::MAX,
    ensures
        r.0 == total(means@),
        r.1 == squares(means@),
{
    let sum = match checked_total(means) {
        Some(sum) => sum,
        None => 0,
    };
    let square_sum = match checked_squares(means) {
        Some(sum) => sum,
        None => 0,
    };
    (sum, square_sum)
}

/// The one-sided critical value in thousandths.
fn critical_value(confidence_level: u64) -> (z: i128)
    ensures
        z == z_critical(confidence_level),
        1282 <= z <= 2326,
{
    if 890_000 < confidence_level && confidence_level < 910_000 {
        1282
    } else if 940_000 < confidence_level && confidence_level < 960_000 {
        1645
    } else if 980_000 < confidence_level && confidence_level < 1_000_000 {
        2326
    } else {
        1960
    }
}

/// Holds the current mean against the historical means.
///
/// `threshold` is the practical significance threshold in millionths of a
/// percent, `confidence_level`, `cp_threshold` and `hazard_rate` are in
/// millionths, and `likelihood` is the predictive likelihood of the current
/// mean under the history, in millionths. Returns the comparison and the
/// verdict.
pub fn compare_means(
    current_mean: u128,
    historical_means: &[u128],
    threshold: i64,
    confidence_level: u64,
    cp_threshold: u64,
    hazard_rate: u64,
    likelihood: u64,
) -> (r: (Comparison, bool))
    requires
        historical_means@.len() > 0,
        in_range(current_mean, historical_means@),
    ensures
        r.0 == comparison_of(
            current_mean,
            historical_means@,
            threshold,
            confidence_level,
            hazard_rate,
            likelihood,
        ),
        r.1 == verdict(
            r.0.evidence,
            r.0.statistically_significant,
            r.0.practically_significant,
            r.0.change_probability,
            cp_threshold,
        ),
        r.1 ==> !is_improvement(r.0),
{
    let ghost means = historical_means@;
    let count = historical_means.len();
    proof {
        let q = squares(means);
        assert(count * q >= q) by (nonlinear_arith)
            requires
                count >= 1,
                q >= 0,
        ;
        assert(current_mean <= 0x10_0000_0000_0000) by (nonlinear_arith)
            requires
                count >= 1,
                count * current_mean <= 0x10_0000_0000_0000,
        ;
    }
    let (sum, square_sum) = sums(historical_means);
    let n: i128 = count as i128;
    let s: i128 = sum as i128;
    let q: i128 = square_sum as i128;
    let c: i128 = current_mean as i128;
    assert(n * c <= 4096 * MAX_MEAN_NS && s <= 4096 * MAX_MEAN_NS && n * q <= 4096 * (4096 * (
        MAX_MEAN_NS * MAX_MEAN_NS)) && s * s <= (4096 * MAX_MEAN_NS) * (4096 * MAX_MEAN_NS) && n * c
        >= 0 && n * q >= 0 && s * s >= 0) by (nonlinear_arith)
        requires
            n > 0,
            c >= 0,
            q >= 0,
            n * c <= 0x10_0000_0000_0000,
            0 <= s <= 0x10_0000_0000_0000,
            n * q <= 0x100_0000_0000_0000_0000_0000_0000,
            MAX_MEAN_NS == 0x100_0000_0000,
    ;
    assert((4096 * MAX_MEAN_NS) * (4096 * MAX_MEAN_NS) == 0x100_0000_0000_0000_0000_0000_0000)
        by (nonlinear_arith);
    let a: i128 = n * c - s;
    let v: i128 = n * q - s * s;
    assert(a * a <= (4096 * MAX_MEAN_NS) * (4096 * MAX_MEAN_NS) && a * a >= 0) by (nonlinear_arith)
        requires
            -(4096 * MAX_MEAN_NS) <= a <= 4096 * MAX_MEAN_NS,
    ;
    let a2: i128 = a * a;
    let negligible = v <= 0;
    assert(negligible == spread_negligible(means)) by (nonlinear_arith)
        requires
            negligible == (v <= 0),
            v == scaled_variance(means),
            0 < means.len() <= 0xffff_ffff,
            spread_negligible(means) == (scaled_variance(means) * 100_000_000_000_000_000_000
                < means.len() * means.len()),
    ;
    let evidence = if negligible {
        Evidence::Weak
    } else if a2 > 25 * v {
        Evidence::Extreme
    } else if a2 > 4 * v {
        Evidence::Strong
    } else {
        Evidence::Weak
    };
    let z = critical_value(confidence_level);
    assert(z * z <= 5_410_276 && z * z >= 0) by (nonlinear_arith)
        requires
            1282 <= z <= 2326,
    ;
    let zz: i128 = z * z;
    assert(-(5_410_276 * ((4096 * MAX_MEAN_NS) * (4096 * MAX_MEAN_NS))) <= zz * v <= 5_410_276 * ((
        4096 * MAX_MEAN_NS) * (4096 * MAX_MEAN_NS))) by (nonlinear_arith)
        requires
            0 <= zz <= 5_410_276,
            -((4096 * MAX_MEAN_NS) * (4096 * MAX_MEAN_NS)) <= v <= 4096 * (4096 * (MAX_MEAN_NS
                * MAX_MEAN_NS)),
    ;
    assert(5_410_276 * ((4096 * MAX_MEAN_NS) * (4096 * MAX_MEAN_NS))
        <= 0x7fff_ffff_ffff_ffff_ffff_ffff_ffff_ffff) by (nonlinear_arith);
    let statistically = a > 0 && 1_000_000 * a2 > zz * v;
    assert(-(0x8000_0000_0000_0000 * (4096 * MAX_MEAN_NS)) <= (threshold as i128) * s
        <= 0x8000_0000_0000_0000 * (4096 * MAX_MEAN_NS)) by (nonlinear_arith)
        requires
            -0x8000_0000_0000_0000 <= threshold as i128 <= 0x8000_0000_0000_0000,
            0 <= s <= 4096 * MAX_MEAN_NS,
    ;
    let practically = if sum == 0 {
        current_mean > 0
    } else {
        100_000_000 * a > (threshold as i128) * s
    };
    let probability = bayesian_change_point_probability(likelihood, count, hazard_rate);
    let window = window_statistics(current_mean, historical_means, confidence_level);
    let is_regression = match evidence {
        Evidence::Extreme => statistically && practically,
        Evidence::Strong => statistically && practically && probability > cp_threshold,
        Evidence::Weak => false,
    };
    let percentage_change = if sum == 0 {
        None
    } else {
        Some(floor_div(100_000_000 * a, sum))
    };
    proof {
        if is_regression && sum != 0 {
            assert(a > 0);
            assert((100_000_000 * a) / (s as int) >= 0) by (nonlinear_arith)
                requires
                    a > 0,
                    s > 0,
            ;
        }
    }
    (
        Comparison {
            current_mean,
            baseline_mean: sum / (count as u128),
            percentage_change,
            baseline_count: count,
            evidence,
            statistically_significant: statistically,
            practically_significant: practically,
            change_probability: probability,
            z_score: window.z_score,
            confidence_interval: (window.lower_bound, window.upper_bound),
        },
        is_regression,
    )
}

/// The z-score of the current mean and the confidence interval of the
/// history, as numbers.
#[derive(Debug, Clone, Copy, PartialEq, Eq, Structural)]
pub struct WindowStatistics {
    /// The z-score in thousandths, rounded towards zero; zero where the
    /// history does not vary.
    pub z_score: i128,
    /// Lower bound of the confidence interval in nanoseconds, rounded down.
    pub lower_bound: i128,
    /// Upper bound of the confidence interval in nanoseconds, rounded down.
    pub upper_bound: i128,
}

/// Magnitude of the z-score in thousandths, rounded down; zero where the
/// history does not vary.
pub open spec fn z_magnitude(current: int, means: Seq<u128>) -> nat {
    let a = scaled_deviation(current, means);
    let v = scaled_variance(means);
    if v <= 0 {
        0
    } else {
        floor_sqrt((1_000_000 * (a * a) / v) as nat)
    }
}

/// The z-score in thousandths, rounded towards zero.
pub open spec fn z_score_of(current: int, means: Seq<u128>) -> int {
    if scaled_deviation(current, means) >= 0 {
        z_magnitude(current, means) as int
    } else {
        -(z_magnitude(current, means) as int)
    }
}

/// The critical value times the standard deviation, times a thousand times
/// the number of means, rounded down.
pub open spec fn scaled_margin(means: Seq<u128>, confidence_level: u64) -> nat {
    let z = z_critical(confidence_level);
    let v = scaled_variance(means);
    if v <= 0 {
        0
    } else {
        floor_sqrt((z * z * v) as nat)
    }
}

/// The same, rounded up.
pub open spec fn scaled_margin_up(means: Seq<u128>, confidence_level: u64) -> nat {
    let z = z_critical(confidence_level);
    let v = scaled_variance(means);
    let down = scaled_margin(means, confidence_level);
    if v <= 0 || down * down == z * z * v {
        down
    } else {
        down + 1
    }
}

/// The historical mean plus the critical value times the standard
/// deviation, rounded down.
pub open spec fn upper_bound_of(means: Seq<u128>, confidence_level: u64) -> int {
    (1000 * total(means) + scaled_margin(means, confidence_level)) as int / (1000 * means.len()) as int
}

/// The historical mean less the critical value times the standard
/// deviation, rounded down.
pub open spec fn lower_bound_of(means: Seq<u128>, confidence_level: u64) -> int {
    (1000 * total(means) - scaled_margin_up(means, confidence_level)) / (1000 * means.len()) as int
}

/// The z-score of the current mean against the historical means and the
/// confidence interval of the history at the confidence level.
pub fn window_statistics(current_mean: u128, historical_means: &[u128], confidence_level: u64) -> (w:
    WindowStatistics)
    requires
        historical_means@.len() > 0,
        in_range(current_mean, historical_means@),
    ensures
        w.z_score == z_score_of(current_mean as int, historical_means@),
        w.upper_bound == upper_bound_of(historical_means@, confidence_level),
        w.lower_bound == lower_bound_of(historical_means@, confidence_level),
        w.lower_bound <= w.upper_bound,
{
    let ghost means = historical_means@;
    let count = historical_means.len();
    proof {
        let q = squares(means);
        assert(count * q >= q) by (nonlinear_arith)
            requires
                count >= 1,
                q >= 0,
        ;
        assert(current_mean <= 0x10_0000_0000_0000) by (nonlinear_arith)
            requires
                count >= 1,
                count * current_mean <= 0x10_0000_0000_0000,
        ;
    }
    let (sum, square_sum) = sums(historical_means);
    let n: i128 = count as i128;
    let s: i128 = sum as i128;
    let q: i128 = square_sum as i128;
    let c: i128 = current_mean as i128;
    assert(n * c <= 4096 * MAX_MEAN_NS && s <= 4096 * MAX_MEAN_NS && n * q <= 4096 * (4096 * (
        MAX_MEAN_NS * MAX_MEAN_NS)) && s * s <= (4096 * MAX_MEAN_NS) * (4096 * MAX_MEAN_NS) && n * c
        >= 0 && n * q >= 0 && s * s >= 0) by (nonlinear_arith)
        requires
            n > 0,
            c >= 0,
            q >= 0,
            n * c <= 0x10_0000_0000_0000,
            0 <= s <= 0x10_0000_0000_0000,
            n * q <= 0x100_0000_0000_0000_0000_0000_0000,
            MAX_MEAN_NS == 0x100_0000_0000,
    ;
    assert(5_410_276 * ((4096 * MAX_MEAN_NS) * (4096 * MAX_MEAN_NS))
        <= 0x7fff_ffff_ffff_ffff_ffff_ffff_ffff_ffff) by (nonlinear_arith);
    let a: i128 = n * c - s;
    let v: i128 = n * q - s * s;
    assert(a * a <= (4096 * MAX_MEAN_NS) * (4096 * MAX_MEAN_NS) && a * a >= 0) by (nonlinear_arith)
        requires
            -(4096 * MAX_MEAN_NS) <= a <= 4096 * MAX_MEAN_NS,
    ;
    let a2: i128 = a * a;
    let z = critical_value(confidence_level);
    assert(z * z <= 5_410_276 && z * z >= 0) by (nonlinear_arith)
        requires
            1282 <= z <= 2326,
    ;
    let zz: i128 = z * z;
    assert(zz * v <= 5_410_276 * ((4096 * MAX_MEAN_NS) * (4096 * MAX_MEAN_NS)) && (v > 0 ==> zz * v
        >= 0)) by (nonlinear_arith)
        requires
            0 <= zz <= 5_410_276,
            v <= 4096 * (4096 * (MAX_MEAN_NS * MAX_MEAN_NS)),
    ;
    let (magnitude, margin, margin_up): (u128, u128, u128) = if v <= 0 {
        (0, 0, 0)
    } else {
        let ratio: u128 = ((1_000_000 * a2) as u128) / (v as u128);
        let magnitude = integer_sqrt(ratio);
        let square: u128 = (zz * v) as u128;
        let margin = integer_sqrt(square);
        proof {
            lemma_floor_sqrt(magnitude as nat, ratio as nat);
            lemma_floor_sqrt(margin as nat, square as nat);
            assert(zz * v == z * z * v) by (nonlinear_arith)
                requires
                    zz == z * z,
            ;
            assert(margin < 0x1_0000_0000_0000_0000 && magnitude < 0x1_0000_0000_0000_0000)
                by (nonlinear_arith)
                requires
                    margin * margin <= square,
                    magnitude * magnitude <= ratio,
                    square <= 0x7fff_ffff_ffff_ffff_ffff_ffff_ffff_ffff,
                    ratio <= 0x7fff_ffff_ffff_ffff_ffff_ffff_ffff_ffff,
            ;
        }
        let exact = margin * margin == square;
        let margin_up: u128 = if exact {
            margin
        } else {
            margin + 1
        };
        (magnitude, margin, margin_up)
    };
    assert(magnitude == z_magnitude(current_mean as int, means));
    assert(margin == scaled_margin(means, confidence_level));
    assert(margin_up == scaled_margin_up(means, confidence_level));
    let z_score: i128 = if a >= 0 {
        magnitude as i128
    } else {
        -(magnitude as i128)
    };
    assert(1000 * n <= 1000 * 0xffff_ffff && 1000 * s <= 1000 * (4096 * MAX_MEAN_NS));
    let divisor: u128 = (1000 * n) as u128;
    let upper_bound = floor_div(1000 * s + (margin as i128), divisor);
    let lower_bound = floor_div(1000 * s - (margin_up as i128), divisor);
    proof {
        let d = divisor as int;
        let hi = 1000 * s + margin;
        let lo = 1000 * s - margin_up;
        assert(lo / d <= hi / d) by (nonlinear_arith)
            requires
                lo <= hi,
                d > 0,
        ;
    }
    WindowStatistics { z_score, lower_bound, upper_bound }
}

/// Largest term of a confidence interval, in thousandths of a nanosecond.
pub const MAX_INTERVAL_TERM: u128 = 0x2000_0000_0000_0000_0000_0000_0000_0000;

/// The distance of `value` from `mean` in standard deviations, in
/// thousandths, rounded towards zero; zero where the standard deviation is
/// zero.
pub open spec fn z_thousandths(value: u128, mean: u128, std_dev: u128) -> int {
    if std_dev == 0 {
        0
    } else if value >= mean {
        (1000 * (value - mean)) / (std_dev as int)
    } else {
        -((1000 * (mean - value)) / (std_dev as int))
    }
}

/// Whether the z-score can be computed in 128 bits.
pub open spec fn z_score_fits(value: u128, mean: u128, std_dev: u128) -> bool {
    std_dev == 0 || (1000 * (value - mean) <= i128::MAX && 1000 * (mean - value) <= i128::MAX)
}

/// The z-score of `value` in thousandths: how many standard deviations it
/// lies from `mean`. It is zero where the standard deviation is zero,
/// whatever value and mean. `None` where a thousand times the distance
/// exceeds 127 bits.
pub fn z_score(value: u128, mean: u128, std_dev: u128) -> (z: Option<i128>)
    ensures
        std_dev == 0 ==> z == Some(0i128),
        z is Some <==> z_score_fits(value, mean, std_dev),
        z is Some ==> z->Some_0 == z_thousandths(value, mean, std_dev),
{
    if std_dev == 0 {
        return Some(0);
    }
    let distance: u128 = if value >= mean {
        value - mean
    } else {
        mean - value
    };
    let scaled = match distance.checked_mul(1000) {
        Some(scaled) => scaled,
        None => {
            return None;
        },
    };
    if scaled > 0x7fff_ffff_ffff_ffff_ffff_ffff_ffff_ffff {
        return None;
    }
    let magnitude: u128 = scaled / std_dev;
    assert(magnitude <= scaled) by (nonlinear_arith)
        requires
            magnitude == scaled / std_dev,
            std_dev >= 1,
            scaled >= 0,
    ;
    if value >= mean {
        Some(magnitude as i128)
    } else {
        Some(-(magnitude as i128))
    }
}

/// The mean plus the critical value times the standard deviation, rounded
/// down.
pub open spec fn interval_upper(mean: u128, std_dev: u128, confidence_level: u64) -> int {
    (1000 * mean + z_critical(confidence_level) * std_dev) / 1000
}

/// The mean less the critical value times the standard deviation, rounded
/// down.
pub open spec fn interval_lower(mean: u128, std_dev: u128, confidence_level: u64) -> int {
    (1000 * mean - z_critical(confidence_level) * std_dev) / 1000
}

/// Whether the terms of the interval stay in bounds.
pub open spec fn interval_fits(mean: u128, std_dev: u128) -> bool {
    1000 * mean <= MAX_INTERVAL_TERM && 2326 * std_dev <= MAX_INTERVAL_TERM
}

/// The confidence interval around `mean` for a standard deviation and a
/// confidence level in millionths: lower and upper bound, each rounded
/// down. `None` where a term exceeds 125 bits.
pub fn confidence_interval(mean: u128, std_dev: u128, confidence_level: u64) -> (bounds: Option<
    (i128, i128),
>)
    ensures
        bounds is Some <==> interval_fits(mean, std_dev),
        bounds is Some ==> bounds->Some_0.0 == interval_lower(mean, std_dev, confidence_level)
            && bounds->Some_0.1 == interval_upper(mean, std_dev, confidence_level)
            && bounds->Some_0.0 <= mean <= bounds->Some_0.1,
{
    let center = match mean.checked_mul(1000) {
        Some(center) => center,
        None => {
            return None;
        },
    };
    let widest = match std_dev.checked_mul(2326) {
        Some(widest) => widest,
        None => {
            return None;
        },
    };
    if center > MAX_INTERVAL_TERM || widest > MAX_INTERVAL_TERM {
        return None;
    }
    let z = critical_value(confidence_level);
    let d: i128 = std_dev as i128;
    assert(0 <= z * d <= 2326 * d) by (nonlinear_arith)
        requires
            1282 <= z <= 2326,
            d >= 0,
    ;
    let margin: i128 = z * d;
    let c: i128 = center as i128;
    let lower = floor_div(c - margin, 1000);
    let upper = floor_div(c + margin, 1000);
    proof {
        let m = mean as int;
        assert((1000 * m - margin) / 1000 <= m <= (1000 * m + margin) / 1000) by (nonlinear_arith)
            requires
                margin >= 0,
        ;
    }
    Some((lower, upper))
}

/// The means of the historical runs.
fn collect_means(historical: &[BaselineData]) -> (means: Vec<u128>)
    ensures
        means@ == means_of(historical@),
{
    let mut means: Vec<u128> = Vec::new();
    let mut i: usize = 0;
    while i < historical.len()
        invariant
            i <= historical@.len(),
            means@ == means_of(historical@.take(i as int)),
        decreases historical@.len() - i,
    {
        means.push(historical[i].statistics.mean);
        proof {
            assert(means@ =~= means_of(historical@.take(i + 1)));
        }
        i += 1;
    }
    proof {
        assert(historical@.take(i as int) =~= historical@);
    }
    means
}

/// What [`detect_regression_with_cpd`] returns.
pub open spec fn detection_of(
    current: BenchResult,
    historical: Seq<BaselineData>,
    threshold: i64,
    confidence_level: u64,
    cp_threshold: u64,
    hazard_rate: u64,
    likelihood: u64,
    result: ComparisonResult,
) -> bool {
    let means = means_of(historical);
    &&& result.benchmark_name@ == current.name@
    &&& historical.len() == 0 ==> result.comparison is None && !result.is_regression
    &&& historical.len() > 0 ==> {
        let comparison = comparison_of(
            current.percentiles.mean,
            means,
            threshold,
            confidence_level,
            hazard_rate,
            likelihood,
        );
        &&& result.comparison == Some(comparison)
        &&& result.is_regression == verdict(
            comparison.evidence,
            comparison.statistically_significant,
            comparison.practically_significant,
            comparison.change_probability,
            cp_threshold,
        )
    }
}

/// Decides whether the current run is a regression against the historical
/// runs, which are accepted runs in the order of time.
///
/// `threshold` is the practical significance threshold in millionths of a
/// percent, `confidence_level`, `cp_threshold` and `hazard_rate` are in
/// millionths, and `likelihood` is the predictive likelihood of the current
/// mean under the historical means, in millionths. Without history there is
/// no comparison and no regression.
pub fn detect_regression_with_cpd(
    current: &BenchResult,
    historical: &[BaselineData],
    threshold: i64,
    confidence_level: u64,
    cp_threshold: u64,
    hazard_rate: u64,
    likelihood: u64,
) -> (result: ComparisonResult)
    requires
        historical@.len() > 0 ==> in_range(current.percentiles.mean, means_of(historical@)),
    ensures
        detection_of(
            *current,
            historical@,
            threshold,
            confidence_level,
            cp_threshold,
            hazard_rate,
            likelihood,
            result,
        ),
        result.consistent(),
{
    if historical.len() == 0 {
        return ComparisonResult {
            benchmark_name: current.name.clone(),
            comparison: None,
            is_regression: false,
        };
    }
    let means = collect_means(historical);
    let (comparison, is_regression) = compare_means(
        current.percentiles.mean,
        means.as_slice(),
        threshold,
        confidence_level,
        cp_threshold,
        hazard_rate,
        likelihood,
    );
    ComparisonResult {
        benchmark_name: current.name.clone(),
        comparison: Some(comparison),
        is_regression,
    }
}

/// As [`detect_regression_with_cpd`], for any means: `None` where there is
/// a history and a mean or the number of historical runs is too large for a
/// comparison.
pub fn try_detect_regression(
    current: &BenchResult,
    historical: &[BaselineData],
    threshold: i64,
    confidence_level: u64,
    cp_threshold: u64,
    hazard_rate: u64,
    likelihood: u64,
) -> (result: Option<ComparisonResult>)
    ensures
        result is Some <==> historical@.len() == 0 || in_range(
            current.percentiles.mean,
            means_of(historical@),
        ),
        result is Some ==> detection_of(
            *current,
            historical@,
            threshold,
            confidence_level,
            cp_threshold,
            hazard_rate,
            likelihood,
            result->Some_0,
        ) && result->Some_0.consistent(),
{
    let means = collect_means(historical);
    if historical.len() == 0 || means_in_range(current.percentiles.mean, means.as_slice()) {
        Some(
            detect_regression_with_cpd(
                current,
                historical,
                threshold,
                confidence_level,
                cp_threshold,
                hazard_rate,
                likelihood,
            ),
        )
    } else {
        None
    }
}

/// A run that was compared, and what is stored of it.
#[derive(Debug)]
pub struct Processed {
    /// The verdict on the run.
    pub comparison: ComparisonResult,
    /// What is stored of the run. It is marked where the run was found to be
    /// a regression, and then never serves as a baseline.
    pub record: BaselineData,
}

/// Compares a run with the accepted history of its benchmark under the
/// configuration and makes the record to store, at the moment `timestamp`.
/// `None` where the means are too large for a comparison or the samples for
/// a summary.
pub fn process_result(
    result: &BenchResult,
    historical: &[BaselineData],
    config: &ComparisonConfig,
    likelihood: u64,
    machine_id: String,
    timestamp: String,
) -> (processed: Option<Processed>)
    ensures
        processed is Some <==> (historical@.len() == 0 || in_range(
            result.percentiles.mean,
            means_of(historical@),
        )) && statistics_fit(result.all_timings@),
        processed is Some ==> {
            let done = processed->Some_0;
            &&& detection_of(
                *result,
                historical@,
                config.threshold,
                config.confidence_level,
                config.cp_threshold,
                config.hazard_rate,
                likelihood,
                done.comparison,
            )
            &&& done.comparison.consistent()
            &&& is_record_of(done.record, *result, machine_id@, done.comparison.is_regression)
            &&& done.record.timestamp@ == timestamp@
        },
{
    if try_calculate_statistics(result.all_timings.as_slice()).is_none() {
        return None;
    }
    match try_detect_regression(
        result,
        historical,
        config.threshold,
        config.confidence_level,
        config.cp_threshold,
        config.hazard_rate,
        likelihood,
    ) {
        Some(comparison) => {
            let record = BaselineData::from_bench_result_at(
                result,
                machine_id,
                comparison.is_regression,
                timestamp,
            );
            Some(Processed { comparison, record })
        },
        None => None,
    }
}

/// A run that changes by no more than the threshold is never a regression,
/// whatever the evidence.
pub proof fn lemma_below_threshold_is_no_regression(
    current: int,
    means: Seq<u128>,
    threshold: i64,
    evidence: Evidence,
    statistically: bool,
    probability: u64,
    cp_threshold: u64,
)
    requires
        !practically_significant(current, means, threshold),
    ensures
        !verdict(
            evidence,
            statistically,
            practically_significant(current, means, threshold),
            probability,
            cp_threshold,
        ),
{
}

/// A run that is no slower than the historical mean is never a regression.
pub proof fn lemma_faster_is_no_regression(
    current: int,
    means: Seq<u128>,
    threshold: i64,
    confidence_level: u64,
    probability: u64,
    cp_threshold: u64,
)
    requires
        scaled_deviation(current, means) <= 0,
    ensures
        !verdict(
            evidence_of(current, means),
            statistically_significant(current, means, confidence_level),
            practically_significant(current, means, threshold),
            probability,
            cp_threshold,
        ),
{
}

/// Against a history that does not vary the z-score is zero, whatever the
/// current mean.
pub proof fn lemma_flat_history_has_zero_z_score(current: int, means: Seq<u128>)
    requires
        scaled_variance(means) <= 0,
    ensures
        z_score_of(current, means) == 0,
{
}

/// Against a history that does not vary nothing is a regression.
pub proof fn lemma_flat_history_is_no_regression(
    current: int,
    means: Seq<u128>,
    statistically: bool,
    practically: bool,
    probability: u64,
    cp_threshold: u64,
)
    requires
        spread_negligible(means),
    ensures
        !verdict(evidence_of(current, means), statistically, practically, probability, cp_threshold),
{
}

} // verus!
