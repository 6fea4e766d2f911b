//! Looking into stored runs: outliers among the samples of a run, which
//! benchmark a name on the command line means, and which runs a view of the
//! history shows.
//!
//! Outliers are found in two ways. By the interquartile range: with `Q1`
//! and `Q3` the samples at the 25th and 75th percentile and `IQR` their
//! difference, a sample is an outlier outside the fences
//! `Q1 - 1.5 IQR` and `Q3 + 1.5 IQR`, each rounded down to a whole
//! nanosecond and the lower one not below zero. By the z-score: a sample is
//! an outlier more than three standard deviations away from the mean.

use crate::statistics::{
    checked_squared_deviations, integer_sqrt, is_floor_sqrt, lemma_ascending_is_sorted_permutation,
    lemma_percentile_index_monotonic, percentile_of, percentile_position, sorted_copy,
    squared_deviations, Statistics,
};
use crate::text::{find, first_occurrence, occurs_in, to_chars};
use vstd::prelude::*;
use vstd::string::*;

verus! {

/// The fences of the interquartile range method.
#[derive(Debug, Clone, Copy, PartialEq, Eq, Structural)]
pub struct Fences {
    /// Samples below this are outliers.
    pub lower: u128,
    /// Samples above this are outliers.
    pub upper: u128,
}

/// A sample that stands out, with its position among the samples.
#[derive(Debug, Clone, Copy, PartialEq, Eq, Structural)]
pub struct Outlier {
    /// Position of the sample, from zero.
    pub index: usize,
    /// The sample in nanoseconds.
    pub sample: u128,
}

/// `Q1 - 1.5 IQR`, rounded down, and zero where that is negative.
pub open spec fn lower_fence(q1: int, iqr: int) -> int {
    if 2 * q1 >= 3 * iqr {
        (2 * q1 - 3 * iqr) / 2
    } else {
        0
    }
}

/// `Q3 + 1.5 IQR`, rounded down, and the largest number of 128 bits where
/// that is larger.
pub open spec fn upper_fence(q3: int, iqr: int) -> int {
    if (2 * q3 + 3 * iqr) / 2 <= u128::MAX {
        (2 * q3 + 3 * iqr) / 2
    } else {
        u128::MAX as int
    }
}

/// The fences for the samples.
pub open spec fn fences_of(samples: Seq<u128>) -> Fences
    recommends
        samples.len() > 0,
{
    let q1 = percentile_of(samples, 25) as int;
    let q3 = percentile_of(samples, 75) as int;
    Fences { lower: lower_fence(q1, q3 - q1) as u128, upper: upper_fence(q3, q3 - q1) as u128 }
}

/// The samples that satisfy `stands_out`, each with its position, in the
/// order of the samples.
pub open spec fn outliers_where(samples: Seq<u128>, stands_out: spec_fn(u128) -> bool) -> Seq<Outlier>
    decreases samples.len(),
{
    if samples.len() == 0 {
        Seq::empty()
    } else {
        let earlier = outliers_where(samples.drop_last(), stands_out);
        if stands_out(samples.last()) {
            earlier.push(Outlier { index: (samples.len() - 1) as usize, sample: samples.last() })
        } else {
            earlier
        }
    }
}

/// Whether a sample lies outside the fences.
pub open spec fn outside(fences: Fences) -> spec_fn(u128) -> bool {
    |sample: u128| sample < fences.lower || sample > fences.upper
}

/// Whether a sample is more than three standard deviations away from
/// `mean`, where the standard deviation is that of the samples around
/// `mean`: with `n` samples of squared deviations `D` in sum, the sample
/// `s` is where `n (s - mean)^2 > 9 D`. No sample is where `D` is zero.
pub open spec fn beyond_three_sigma(samples: Seq<u128>, mean: u128) -> spec_fn(u128) -> bool {
    |sample: u128|
        squared_deviations(samples, mean as int) > 0 && samples.len() * ((sample - mean) * (sample
            - mean)) > 9 * squared_deviations(samples, mean as int)
}

/// Whether nine times the squared deviations fit in 128 bits.
pub open spec fn three_sigma_fits(samples: Seq<u128>, mean: u128) -> bool {
    9 * squared_deviations(samples, mean as int) <= u128::MAX
}

/// A distance exceeds the root of a share exactly where its square times
/// the count exceeds what is shared.
proof fn lemma_three_sigma(d: int, n: int, x: int, root: int)
    requires
        n > 0,
        x >= 0,
        d >= 0,
        root >= 0,
        root * root <= x / n < (root + 1) * (root + 1),
    ensures
        (d > root) == (n * (d * d) > x),
{
    let t = x / n;
    vstd::arithmetic::div_mod::lemma_fundamental_div_mod(x, n);
    assert(x == n * t + x % n);
    if d > root {
        assert(d * d >= (root + 1) * (root + 1)) by (nonlinear_arith)
            requires
                d >= root + 1,
                root >= 0,
        ;
        assert(n * (d * d) >= n * (t + 1)) by (nonlinear_arith)
            requires
                d * d >= t + 1,
                n > 0,
        ;
        assert(n * (t + 1) == n * t + n) by (nonlinear_arith);
    } else {
        assert(d * d <= root * root) by (nonlinear_arith)
            requires
                0 <= d <= root,
        ;
        assert(n * (d * d) <= n * t) by (nonlinear_arith)
            requires
                d * d <= t,
                n > 0,
        ;
    }
}

/// Every outlier found is a sample that stands out, at its position, and
/// no sample that stands out is missed.
pub proof fn lemma_outliers_exact(samples: Seq<u128>, stands_out: spec_fn(u128) -> bool)
    requires
        samples.len() <= usize::MAX,
    ensures
        forall|k: int|
            0 <= k < outliers_where(samples, stands_out).len() ==> {
                let found = #[trigger] outliers_where(samples, stands_out)[k];
                found.index < samples.len() && samples[found.index as int] == found.sample
                    && stands_out(found.sample)
            },
        forall|i: int|
            0 <= i < samples.len() && stands_out(#[trigger] samples[i]) ==> outliers_where(
                samples,
                stands_out,
            ).contains(Outlier { index: i as usize, sample: samples[i] }),
    decreases samples.len(),
{
    if samples.len() > 0 {
        let front = samples.drop_last();
        lemma_outliers_exact(front, stands_out);
        let inner = outliers_where(front, stands_out);
        let out = outliers_where(samples, stands_out);
        assert forall|k: int| 0 <= k < out.len() implies {
            let found = #[trigger] out[k];
            found.index < samples.len() && samples[found.index as int] == found.sample
                && stands_out(found.sample)
        } by {
            if k < inner.len() {
                assert(out[k] == inner[k]);
                assert(front[inner[k].index as int] == samples[inner[k].index as int]);
            } else {
                assert(stands_out(samples.last()));
                assert(out[k] == Outlier {
                    index: (samples.len() - 1) as usize,
                    sample: samples.last(),
                });
            }
        }
        assert forall|i: int| 0 <= i < samples.len() && stands_out(#[trigger] samples[i]) implies out.contains(
            Outlier { index: i as usize, sample: samples[i] },
        ) by {
            if i < front.len() {
                assert(front[i] == samples[i]);
                let wanted = Outlier { index: i as usize, sample: samples[i] };
                let k = choose|k: int| 0 <= k < inner.len() && inner[k] == wanted;
                assert(out[k] == wanted);
            } else {
                assert(out[out.len() - 1] == Outlier { index: i as usize, sample: samples[i] });
            }
        }
    }
}

/// The fences of the interquartile range method for the samples.
pub fn iqr_fences(samples: &[u128]) -> (fences: Fences)
    requires
        samples@.len() > 0,
    ensures
        fences == fences_of(samples@),
        fences.lower <= fences.upper,
{
    let sorted = sorted_copy(samples);
    proof {
        lemma_ascending_is_sorted_permutation(samples@);
    }
    let q1_index = percentile_position(samples.len(), 25);
    let q3_index = percentile_position(samples.len(), 75);
    proof {
        lemma_percentile_index_monotonic(samples@.len(), 25, 75);
    }
    let q1 = sorted[q1_index];
    let q3 = sorted[q3_index];
    assert(q1 <= q3);
    let iqr: u128 = q3 - q1;
    let half_up: u128 = iqr / 2 + iqr % 2;
    let lower: u128 = if q1 >= iqr && q1 - iqr >= half_up {
        q1 - iqr - half_up
    } else {
        0
    };
    let upper: u128 = match q3.checked_add(iqr) {
        Some(sum) => match sum.checked_add(iqr / 2) {
            Some(fence) => fence,
            None => u128::MAX,
        },
        None => u128::MAX,
    };
    fences_result(lower, upper)
}

/// The fences with the given bounds.
fn fences_result(lower: u128, upper: u128) -> (fences: Fences)
    ensures
        fences == (Fences { lower, upper }),
{
    Fences { lower, upper }
}

/// The samples outside the fences, each with its position, in the order of
/// the samples.
pub fn iqr_outliers(samples: &[u128]) -> (outliers: Vec<Outlier>)
    requires
        samples@.len() > 0,
    ensures
        outliers@ == outliers_where(samples@, outside(fences_of(samples@))),
{
    let fences = iqr_fences(samples);
    let ghost stands_out = outside(fences);
    let mut outliers: Vec<Outlier> = Vec::new();
    let mut i: usize = 0;
    while i < samples.len()
        invariant
            i <= samples@.len(),
            stands_out == outside(fences),
            outliers@ == outliers_where(samples@.take(i as int), stands_out),
        decreases samples@.len() - i,
    {
        proof {
            assert(samples@.take(i + 1).drop_last() =~= samples@.take(i as int));
            assert(samples@.take(i + 1).last() == samples@[i as int]);
        }
        let sample = samples[i];
        if sample < fences.lower || sample > fences.upper {
            outliers.push(Outlier { index: i, sample });
        }
        i += 1;
    }
    proof {
        assert(samples@.take(i as int) =~= samples@);
    }
    outliers
}

/// The samples more than three standard deviations away from the mean of
/// the summary, each with its position, in the order of the samples. The
/// standard deviation is that of the samples around that mean, and the
/// decision is made on squares, without rounding. `None` where nine times
/// the squared deviations exceed 128 bits.
pub fn z_score_outliers(samples: &[u128], stats: &Statistics) -> (outliers: Option<Vec<Outlier>>)
    ensures
        outliers is Some <==> three_sigma_fits(samples@, stats.mean),
        outliers is Some ==> outliers->Some_0@ == outliers_where(
            samples@,
            beyond_three_sigma(samples@, stats.mean),
        ),
{
    let mean = stats.mean;
    let ghost stands_out = beyond_three_sigma(samples@, mean);
    let ghost deviations = squared_deviations(samples@, mean as int);
    let sum = match checked_squared_deviations(samples, mean) {
        Some(sum) => sum,
        None => {
            return None;
        },
    };
    let scaled = match sum.checked_mul(9) {
        Some(scaled) => scaled,
        None => {
            return None;
        },
    };
    let mut outliers: Vec<Outlier> = Vec::new();
    if samples.len() == 0 {
        return Some(outliers);
    }
    let count: u128 = samples.len() as u128;
    let root = integer_sqrt(scaled / count);
    let mut i: usize = 0;
    while i < samples.len()
        invariant
            i <= samples@.len(),
            count == samples@.len(),
            count > 0,
            sum == squared_deviations(samples@, mean as int),
            scaled == 9 * sum,
            is_floor_sqrt(root as nat, (scaled / count) as nat),
            stands_out == beyond_three_sigma(samples@, mean),
            outliers@ == outliers_where(samples@.take(i as int), stands_out),
        decreases samples@.len() - i,
    {
        proof {
            assert(samples@.take(i + 1).drop_last() =~= samples@.take(i as int));
            assert(samples@.take(i + 1).last() == samples@[i as int]);
        }
        let sample = samples[i];
        let distance: u128 = if sample >= mean {
            sample - mean
        } else {
            mean - sample
        };
        proof {
            let d = distance as int;
            lemma_three_sigma(d, count as int, scaled as int, root as int);
            assert((sample - mean) * (sample - mean) == d * d) by (nonlinear_arith)
                requires
                    d == sample - mean || d == mean - sample,
            ;
        }
        if sum > 0 && distance > root {
            outliers.push(Outlier { index: i, sample });
        }
        i += 1;
    }
    proof {
        assert(samples@.take(i as int) =~= samples@);
    }
    Some(outliers)
}

/// What a name on the command line means: the group before its first
/// underscore and the benchmark after it. A name without underscore means
/// none.
pub open spec fn split_name(name: Seq<char>) -> Option<(Seq<char>, Seq<char>)> {
    if occurs_in(name, seq!['_']) {
        let at = choose|at: int| first_occurrence(name, seq!['_'], at);
        Some((name.take(at), name.skip(at + 1)))
    } else {
        None
    }
}

/// Splits a name of the form `<group>_<benchmark>` at its first underscore.
pub fn split_benchmark_name(name: &str) -> (parts: Option<(String, String)>)
    ensures
        parts is Some <==> split_name(name@) is Some,
        parts is Some ==> parts->Some_0.0@ == split_name(name@)->Some_0.0 && parts->Some_0.1@
            == split_name(name@)->Some_0.1,
{
    let chars = to_chars(name);
    let mut underscore: Vec<char> = Vec::new();
    underscore.push('_');
    assert(underscore@ =~= seq!['_']);
    match find(&chars, &underscore) {
        Some(at) => {
            proof {
                let chosen = choose|at: int| first_occurrence(name@, seq!['_'], at);
                assert(first_occurrence(name@, seq!['_'], at as int));
                assert(chosen == at) by {
                    if chosen < at {
                        assert(!crate::text::occurs_at(name@, seq!['_'], chosen));
                    } else if chosen > at {
                        assert(!crate::text::occurs_at(name@, seq!['_'], at as int));
                    }
                }
                assert(at + 1 <= name@.len());
                assert(name@.subrange(0, at as int) =~= name@.take(at as int));
                assert(name@.subrange(at + 1, name@.len() as int) =~= name@.skip(at + 1));
            }
            let len = chars.len();
            let group = String::from_str(name.substring_char(0, at));
            let benchmark = String::from_str(name.substring_char(at + 1, len));
            Some((group, benchmark))
        },
        None => None,
    }
}

/// What an analysis shows.
#[derive(Debug, Clone, PartialEq, Eq)]
pub enum AnalysisMode {
    /// The run at the given timestamp.
    SingleRun(String),
    /// The last runs, as many as given, side by side.
    LastRuns(usize),
    /// The latest run, and the history beside it.
    LatestWithHistory,
}

/// What an analysis shows: the run asked for by its timestamp, else the
/// number of last runs asked for, else the latest run with its history.
pub fn analysis_mode(run: Option<String>, last: Option<usize>) -> (mode: AnalysisMode)
    ensures
        run is Some ==> mode == AnalysisMode::SingleRun(run->Some_0),
        run is None && last is Some ==> mode == AnalysisMode::LastRuns(last->Some_0),
        run is None && last is None ==> mode == AnalysisMode::LatestWithHistory,
{
    match run {
        Some(timestamp) => AnalysisMode::SingleRun(timestamp),
        None => match last {
            Some(count) => AnalysisMode::LastRuns(count),
            None => AnalysisMode::LatestWithHistory,
        },
    }
}

/// Number of runs that the history beside the latest run shows.
pub const HISTORY_RUNS: usize = 5;

/// Where the last `count` of `len` runs begin.
pub open spec fn tail_start(len: int, count: int) -> int {
    if count < len {
        len - count
    } else {
        0
    }
}

/// The last `count` runs, or all where there are fewer.
pub fn last_runs(runs: &[String], count: usize) -> (tail: &[String])
    ensures
        tail@ == runs@.skip(tail_start(runs@.len() as int, count as int)),
{
    let len = runs.len();
    let start: usize = if count < len {
        len - count
    } else {
        0
    };
    let tail = vstd::slice::slice_subrange(runs, start, len);
    assert(tail@ =~= runs@.skip(start as int));
    tail
}

/// The runs that the history beside the latest run shows: the last five
/// where there is more than one run, else none.
pub fn history_runs(runs: &[String]) -> (shown: &[String])
    ensures
        shown@ == if runs@.len() > 1 {
            runs@.skip(tail_start(runs@.len() as int, HISTORY_RUNS as int))
        } else {
            Seq::<String>::empty()
        },
{
    if runs.len() > 1 {
        last_runs(runs, HISTORY_RUNS)
    } else {
        let shown = vstd::slice::slice_subrange(runs, 0, 0);
        assert(shown@ =~= Seq::<String>::empty());
        shown
    }
}

} // verus!
