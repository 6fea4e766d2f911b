//! Summaries of CPU snapshots and warnings about conditions that make
//! timings noisy: a cold start, thermal throttling, a varying clock and a slow
//! clock.
//!
//! Frequencies are kilohertz and temperatures millidegrees Celsius. Every
//! rule is decided on the readings themselves, so a mean never has to be
//! rounded before it is held against a threshold.

use crate::arith::floor_div;
use crate::cpu_monitor::CpuSnapshot;
use crate::statistics::{floor_sqrt, integer_sqrt, lemma_floor_sqrt};
use vstd::prelude::*;

verus! {

/// A first temperature below this is a cold start: 50 degrees Celsius.
pub const COLD_START_MILLIC: i32 = 50_000;

/// A rise in temperature above this is throttling: 20 degrees Celsius.
pub const THROTTLING_INCREASE_MILLIC: u32 = 20_000;

/// A temperature above this is throttling: 85 degrees Celsius.
pub const THROTTLING_MAX_MILLIC: i32 = 85_000;

/// Lowest, highest and mean clock frequency over the snapshots that hold
/// one, and how far the readings spread.
#[derive(Debug, Clone)]
pub struct FrequencyStats {
    /// Lowest reading.
    pub min_khz: u64,
    /// Highest reading.
    pub max_khz: u64,
    /// Mean of the readings, rounded down.
    pub mean_khz: u64,
    /// Standard deviation of the readings, rounded down; absent where the
    /// products that it needs exceed 128 bits.
    pub std_dev_khz: Option<u128>,
    /// Difference of highest and lowest reading in millionths of a percent
    /// of the mean, rounded down; absent where the mean is zero or the
    /// products that it needs exceed 128 bits.
    pub variance_percent: Option<u128>,
    /// Number of readings.
    pub readings: usize,
}

/// Lowest, highest and mean temperature over the snapshots that hold one.
#[derive(Debug, Clone)]
pub struct TemperatureStats {
    /// Lowest reading.
    pub min_millic: i32,
    /// Highest reading.
    pub max_millic: i32,
    /// Mean of the readings, rounded down.
    pub mean_millic: i32,
    /// Highest reading less lowest reading.
    pub increase_millic: u32,
    /// Number of readings.
    pub readings: usize,
}

/// A condition under which timings are likely to be noisy or biased.
#[derive(Debug, Clone)]
pub enum CpuWarning {
    /// The first temperature reading was below [`COLD_START_MILLIC`].
    ColdStart { initial_millic: i32 },
    /// The temperature rose by more than [`THROTTLING_INCREASE_MILLIC`] or
    /// went above [`THROTTLING_MAX_MILLIC`].
    ThermalThrottling { increase_millic: u32, max_millic: i32 },
    /// The spread between highest and lowest frequency is more than a tenth
    /// of the mean frequency.
    FrequencyVariance { spread_khz: u64, mean_khz: u64 },
    /// The mean frequency is below half of the highest available frequency.
    LowFrequency { mean_khz: u64, max_available_khz: u64 },
}

/// What a sequence of snapshots shows.
#[derive(Debug, Clone)]
pub struct CpuAnalysis {
    /// Present where at least one snapshot holds a frequency.
    pub frequency_stats: Option<FrequencyStats>,
    /// Present where at least one snapshot holds a temperature.
    pub temperature_stats: Option<TemperatureStats>,
    /// The warnings that apply, frequency warnings first.
    pub warnings: Vec<CpuWarning>,
}

/// The frequency readings of the snapshots, in order.
pub open spec fn frequency_readings(snapshots: Seq<CpuSnapshot>) -> Seq<int>
    decreases snapshots.len(),
{
    if snapshots.len() == 0 {
        Seq::empty()
    } else {
        let earlier = frequency_readings(snapshots.drop_last());
        match snapshots.last().frequency_khz {
            Some(khz) => earlier.push(khz as int),
            None => earlier,
        }
    }
}

/// The temperature readings of the snapshots, in order.
pub open spec fn temperature_readings(snapshots: Seq<CpuSnapshot>) -> Seq<int>
    decreases snapshots.len(),
{
    if snapshots.len() == 0 {
        Seq::empty()
    } else {
        let earlier = temperature_readings(snapshots.drop_last());
        match snapshots.last().temperature_millic {
            Some(millic) => earlier.push(millic as int),
            None => earlier,
        }
    }
}

/// Sum of the readings.
pub open spec fn sum(readings: Seq<int>) -> int
    decreases readings.len(),
{
    if readings.len() == 0 {
        0
    } else {
        sum(readings.drop_last()) + readings.last()
    }
}

/// Lowest of the readings; zero where there is none.
pub open spec fn lowest(readings: Seq<int>) -> int
    decreases readings.len(),
{
    if readings.len() == 0 {
        0
    } else if readings.len() == 1 {
        readings[0]
    } else {
        let earlier = lowest(readings.drop_last());
        if readings.last() < earlier {
            readings.last()
        } else {
            earlier
        }
    }
}

/// Highest of the readings; zero where there is none.
pub open spec fn highest(readings: Seq<int>) -> int
    decreases readings.len(),
{
    if readings.len() == 0 {
        0
    } else if readings.len() == 1 {
        readings[0]
    } else {
        let earlier = highest(readings.drop_last());
        if readings.last() > earlier {
            readings.last()
        } else {
            earlier
        }
    }
}

/// Mean of the readings, rounded down; zero where there is none.
pub open spec fn floor_mean(readings: Seq<int>) -> int {
    if readings.len() == 0 {
        0
    } else {
        sum(readings) / (readings.len() as int)
    }
}

/// The spread of the frequencies is more than 10 % of their mean.
pub open spec fn frequency_varies(frequencies: Seq<int>) -> bool {
    frequencies.len() > 0 && 10 * (frequencies.len() * (highest(frequencies) - lowest(
        frequencies,
    ))) > sum(frequencies)
}

/// The mean of the frequencies is less than 50 % of `max_available`.
pub open spec fn frequency_is_low(frequencies: Seq<int>, max_available: int) -> bool {
    frequencies.len() > 0 && 2 * sum(frequencies) < frequencies.len() * max_available
}

/// The first temperature is below 50 degrees Celsius.
pub open spec fn starts_cold(temperatures: Seq<int>) -> bool {
    temperatures.len() > 0 && temperatures[0] < COLD_START_MILLIC
}

/// The temperature rose by more than 20 degrees Celsius or went above 85
/// degrees Celsius.
pub open spec fn throttles(temperatures: Seq<int>) -> bool {
    temperatures.len() > 0 && (highest(temperatures) - lowest(temperatures)
        > THROTTLING_INCREASE_MILLIC || highest(temperatures) > THROTTLING_MAX_MILLIC)
}

/// The statistics of the frequency readings.
pub open spec fn frequency_stats_of(frequencies: Seq<int>) -> Option<FrequencyStats> {
    if frequencies.len() == 0 {
        None
    } else {
        Some(
            FrequencyStats {
                min_khz: lowest(frequencies) as u64,
                max_khz: highest(frequencies) as u64,
                mean_khz: floor_mean(frequencies) as u64,
                std_dev_khz: match frequency_spread_of(frequencies) {
                    Some(spread) => Some(spread.std_dev_khz),
                    None => None,
                },
                variance_percent: match frequency_spread_of(frequencies) {
                    Some(spread) => spread.variance_percent,
                    None => None,
                },
                readings: frequencies.len() as usize,
            },
        )
    }
}

/// The statistics of the temperature readings.
pub open spec fn temperature_stats_of(temperatures: Seq<int>) -> Option<TemperatureStats> {
    if temperatures.len() == 0 {
        None
    } else {
        Some(
            TemperatureStats {
                min_millic: lowest(temperatures) as i32,
                max_millic: highest(temperatures) as i32,
                mean_millic: floor_mean(temperatures) as i32,
                increase_millic: (highest(temperatures) - lowest(temperatures)) as u32,
                readings: temperatures.len() as usize,
            },
        )
    }
}

/// The warnings that apply to the readings, in the order in which they are
/// reported: frequency variance, low frequency, cold start, throttling.
pub open spec fn warnings_of(
    frequencies: Seq<int>,
    temperatures: Seq<int>,
    max_freq_khz: Option<u64>,
) -> Seq<CpuWarning> {
    let variance = if frequency_varies(frequencies) {
        seq![
            CpuWarning::FrequencyVariance {
                spread_khz: (highest(frequencies) - lowest(frequencies)) as u64,
                mean_khz: floor_mean(frequencies) as u64,
            },
        ]
    } else {
        Seq::empty()
    };
    let low = if max_freq_khz is Some && frequency_is_low(frequencies, max_freq_khz->Some_0 as int) {
        seq![
            CpuWarning::LowFrequency {
                mean_khz: floor_mean(frequencies) as u64,
                max_available_khz: max_freq_khz->Some_0,
            },
        ]
    } else {
        Seq::empty()
    };
    let cold = if starts_cold(temperatures) {
        seq![CpuWarning::ColdStart { initial_millic: temperatures[0] as i32 }]
    } else {
        Seq::empty()
    };
    let throttling = if throttles(temperatures) {
        seq![
            CpuWarning::ThermalThrottling {
                increase_millic: (highest(temperatures) - lowest(temperatures)) as u32,
                max_millic: highest(temperatures) as i32,
            },
        ]
    } else {
        Seq::empty()
    };
    variance + low + cold + throttling
}

/// The lowest reading is a reading and none is below it; likewise the
/// highest. The sum lies between the count times the lowest and the count
/// times the highest.
pub proof fn lemma_extremes(readings: Seq<int>)
    requires
        readings.len() > 0,
    ensures
        readings.contains(lowest(readings)),
        readings.contains(highest(readings)),
        forall|i: int|
            0 <= i < readings.len() ==> lowest(readings) <= #[trigger] readings[i] <= highest(
                readings,
            ),
        readings.len() * lowest(readings) <= sum(readings) <= readings.len() * highest(readings),
        lowest(readings) <= floor_mean(readings) <= highest(readings),
    decreases readings.len(),
{
    let n = readings.len() as int;
    let lo = lowest(readings);
    let hi = highest(readings);
    if readings.len() == 1 {
        assert(readings[0] == lo);
        assert(readings.drop_last().len() == 0);
        assert(sum(readings.drop_last()) == 0);
        assert(1 * lo == lo && 1 * hi == hi);
    } else {
        let earlier = readings.drop_last();
        lemma_extremes(earlier);
        let elo = lowest(earlier);
        let ehi = highest(earlier);
        if lo == readings.last() {
            assert(readings[n - 1] == lo);
        } else {
            let k = choose|k: int| 0 <= k < earlier.len() && earlier[k] == elo;
            assert(readings[k] == lo);
        }
        if hi == readings.last() {
            assert(readings[n - 1] == hi);
        } else {
            let k = choose|k: int| 0 <= k < earlier.len() && earlier[k] == ehi;
            assert(readings[k] == hi);
        }
        assert forall|i: int| 0 <= i < readings.len() implies lo <= #[trigger] readings[i]
            <= hi by {
            if i < earlier.len() {
                assert(earlier[i] == readings[i]);
            }
        }
        assert(n * lo <= sum(readings) <= n * hi) by (nonlinear_arith)
            requires
                n >= 2,
                (n - 1) * elo <= sum(earlier) <= (n - 1) * ehi,
                sum(readings) == sum(earlier) + readings.last(),
                lo <= elo,
                lo <= readings.last() <= hi,
                ehi <= hi,
        ;
    }
    assert(lo <= sum(readings) / n <= hi) by (nonlinear_arith)
        requires
            n > 0,
            n * lo <= sum(readings) <= n * hi,
    ;
}

/// One more reading extends sum, lowest and highest.
proof fn lemma_push(readings: Seq<int>, value: int)
    ensures
        sum(readings.push(value)) == sum(readings) + value,
        lowest(readings.push(value)) == if readings.len() == 0 || value < lowest(readings) {
            value
        } else {
            lowest(readings)
        },
        highest(readings.push(value)) == if readings.len() == 0 || value > highest(readings) {
            value
        } else {
            highest(readings)
        },
        readings.len() > 0 ==> readings.push(value)[0] == readings[0],
{
    assert(readings.push(value).drop_last() =~= readings);
}

impl CpuAnalysis {
    /// Analyses the snapshots.
    ///
    /// `max_freq_khz` is the highest frequency that the core offers, where
    /// it is known; the low frequency rule is decided only with it.
    pub fn from_snapshots(snapshots: &[CpuSnapshot], max_freq_khz: Option<u64>) -> (analysis: Self)
        ensures
            analysis.frequency_stats == frequency_stats_of(frequency_readings(snapshots@)),
            analysis.temperature_stats == temperature_stats_of(temperature_readings(snapshots@)),
            analysis.warnings@ == warnings_of(
                frequency_readings(snapshots@),
                temperature_readings(snapshots@),
                max_freq_khz,
            ),
    {
        let mut freq_count: usize = 0;
        let mut freq_min: u64 = 0;
        let mut freq_max: u64 = 0;
        let mut freq_sum: u128 = 0;
        let mut temp_count: usize = 0;
        let mut temp_min: i32 = 0;
        let mut temp_max: i32 = 0;
        let mut temp_first: i32 = 0;
        let mut temp_sum: i128 = 0;
        let mut i: usize = 0;
        while i < snapshots.len()
            invariant
                i <= snapshots@.len(),
                freq_count == frequency_readings(snapshots@.take(i as int)).len(),
                freq_count <= i,
                freq_min == lowest(frequency_readings(snapshots@.take(i as int))),
                freq_max == highest(frequency_readings(snapshots@.take(i as int))),
                freq_sum == sum(frequency_readings(snapshots@.take(i as int))),
                freq_sum <= freq_count * 0xffff_ffff_ffff_ffff,
                temp_count == temperature_readings(snapshots@.take(i as int)).len(),
                temp_count <= i,
                temp_min == lowest(temperature_readings(snapshots@.take(i as int))),
                temp_max == highest(temperature_readings(snapshots@.take(i as int))),
                temp_sum == sum(temperature_readings(snapshots@.take(i as int))),
                -(temp_count * 0x8000_0000) <= temp_sum <= temp_count * 0x8000_0000,
                temp_count > 0 ==> temp_first == temperature_readings(
                    snapshots@.take(i as int),
                )[0],
            decreases snapshots@.len() - i,
        {
            let ghost before = snapshots@.take(i as int);
            proof {
                assert(snapshots@.take(i + 1).drop_last() =~= before);
                assert(snapshots@.take(i + 1).last() == snapshots@[i as int]);
            }
            match snapshots[i].frequency_khz {
                Some(khz) => {
                    proof {
                        lemma_push(frequency_readings(before), khz as int);
                        assert((freq_count + 1) * 0xffff_ffff_ffff_ffff <= 0xffff_ffff_ffff_ffff
                            * 0xffff_ffff_ffff_ffff) by (nonlinear_arith)
                            requires
                                freq_count + 1 <= 0xffff_ffff_ffff_ffff,
                        ;
                        assert(0xffff_ffff_ffff_ffffint * 0xffff_ffff_ffff_ffffint <= u128::MAX)
                            by (nonlinear_arith);
                    }
                    if freq_count == 0 || khz < freq_min {
                        freq_min = khz;
                    }
                    if freq_count == 0 || khz > freq_max {
                        freq_max = khz;
                    }
                    freq_sum = freq_sum + khz as u128;
                    freq_count = freq_count + 1;
                },
                None => {},
            }
            match snapshots[i].temperature_millic {
                Some(millic) => {
                    proof {
                        lemma_push(temperature_readings(before), millic as int);
                        assert((temp_count + 1) * 0x8000_0000 <= 0xffff_ffff_ffff_ffff * 0x8000_0000)
                            by (nonlinear_arith)
                            requires
                                temp_count + 1 <= 0xffff_ffff_ffff_ffff,
                        ;
                    }
                    if temp_count == 0 {
                        temp_first = millic;
                    }
                    if temp_count == 0 || millic < temp_min {
                        temp_min = millic;
                    }
                    if temp_count == 0 || millic > temp_max {
                        temp_max = millic;
                    }
                    temp_sum = temp_sum + millic as i128;
                    temp_count = temp_count + 1;
                },
                None => {},
            }
            i += 1;
        }
        let ghost frequencies = frequency_readings(snapshots@);
        let ghost temperatures = temperature_readings(snapshots@);
        proof {
            assert(snapshots@.take(i as int) =~= snapshots@);
        }
        let mut warnings: Vec<CpuWarning> = Vec::new();
        let frequency_stats = if freq_count > 0 {
            proof {
                lemma_extremes(frequencies);
            }
            let count: u128 = freq_count as u128;
            let mean_khz: u64 = (freq_sum / count) as u64;
            let spread_khz: u64 = freq_max - freq_min;
            assert(count * spread_khz <= 0xffff_ffff_ffff_ffff * 0xffff_ffff_ffff_ffff)
                by (nonlinear_arith)
                requires
                    count <= 0xffff_ffff_ffff_ffff,
                    spread_khz <= 0xffff_ffff_ffff_ffff,
            ;
            assert(0xffff_ffff_ffff_ffffint * 0xffff_ffff_ffff_ffffint <= u128::MAX)
                by (nonlinear_arith);
            if count * (spread_khz as u128) > freq_sum / 10 {
                warnings.push(CpuWarning::FrequencyVariance { spread_khz, mean_khz });
            }
            match max_freq_khz {
                Some(max_available_khz) => {
                    assert(count * max_available_khz <= 0xffff_ffff_ffff_ffff
                        * 0xffff_ffff_ffff_ffff) by (nonlinear_arith)
                        requires
                            count <= 0xffff_ffff_ffff_ffff,
                            max_available_khz <= 0xffff_ffff_ffff_ffff,
                    ;
                    let ceiling: u128 = count * (max_available_khz as u128);
                    if freq_sum < ceiling - ceiling / 2 {
                        warnings.push(CpuWarning::LowFrequency { mean_khz, max_available_khz });
                    }
                },
                None => {},
            }
            let (std_dev_khz, variance_percent) = match frequency_spread(snapshots) {
                Some(spread) => (Some(spread.std_dev_khz), spread.variance_percent),
                None => (None, None),
            };
            Some(
                FrequencyStats {
                    min_khz: freq_min,
                    max_khz: freq_max,
                    mean_khz,
                    std_dev_khz,
                    variance_percent,
                    readings: freq_count,
                },
            )
        } else {
            None
        };
        let ghost frequency_warnings = warnings@;
        assert(frequency_warnings =~= warnings_of(frequencies, Seq::empty(), max_freq_khz));
        let temperature_stats = if temp_count > 0 {
            proof {
                lemma_extremes(temperatures);
                assert(temp_count * 0x8000_0000 <= 0xffff_ffff_ffff_ffff * 0x8000_0000)
                    by (nonlinear_arith)
                    requires
                        temp_count <= 0xffff_ffff_ffff_ffff,
                ;
            }
            let mean_millic: i32 = floor_div(temp_sum, temp_count as u128) as i32;
            let increase_millic: u32 = (temp_max as i64 - temp_min as i64) as u32;
            if temp_first < COLD_START_MILLIC {
                warnings.push(CpuWarning::ColdStart { initial_millic: temp_first });
            }
            if increase_millic > THROTTLING_INCREASE_MILLIC || temp_max > THROTTLING_MAX_MILLIC {
                warnings.push(
                    CpuWarning::ThermalThrottling { increase_millic, max_millic: temp_max },
                );
            }
            Some(
                TemperatureStats {
                    min_millic: temp_min,
                    max_millic: temp_max,
                    mean_millic,
                    increase_millic,
                    readings: temp_count,
                },
            )
        } else {
            None
        };
        assert(warnings@ =~= warnings_of(frequencies, temperatures, max_freq_khz));
        CpuAnalysis { frequency_stats, temperature_stats, warnings }
    }
}

/// How far the frequency readings spread.
#[derive(Debug, Clone, Copy, PartialEq, Eq, Structural)]
pub struct FrequencySpread {
    /// Standard deviation of the readings in kilohertz, rounded down.
    pub std_dev_khz: u128,
    /// Difference of highest and lowest reading in millionths of a percent
    /// of the mean, rounded down; absent where the mean is zero.
    pub variance_percent: Option<u128>,
}

/// Sum of the squares of the readings.
pub open spec fn square_sum(readings: Seq<int>) -> int
    decreases readings.len(),
{
    if readings.len() == 0 {
        0
    } else {
        square_sum(readings.drop_last()) + readings.last() * readings.last()
    }
}

/// The squared count times the population variance of the readings.
pub open spec fn scaled_spread(readings: Seq<int>) -> int {
    let d = readings.len() * square_sum(readings) - sum(readings) * sum(readings);
    if d >= 0 {
        d
    } else {
        0
    }
}

/// Whether the products that the spread needs fit in 128 bits.
pub open spec fn spread_fits(readings: Seq<int>) -> bool {
    &&& readings.len() * square_sum(readings) <= u128::MAX
    &&& sum(readings) * sum(readings) <= u128::MAX
    &&& 100_000_000 * readings.len() * (highest(readings) - lowest(readings)) <= u128::MAX
}

/// The spread of the readings; none where there is no reading or a product
/// does not fit.
pub open spec fn frequency_spread_of(readings: Seq<int>) -> Option<FrequencySpread> {
    if readings.len() == 0 || !spread_fits(readings) {
        None
    } else {
        Some(
            FrequencySpread {
                std_dev_khz: (floor_sqrt(scaled_spread(readings) as nat) / readings.len()) as u128,
                variance_percent: if sum(readings) == 0 {
                    None
                } else {
                    Some(
                        (100_000_000 * readings.len() * (highest(readings) - lowest(readings)) / sum(
                            readings,
                        )) as u128,
                    )
                },
            },
        )
    }
}

/// One more reading adds its square, and no sum of squares is negative.
proof fn lemma_square_sum_push(readings: Seq<int>, value: int)
    ensures
        square_sum(readings.push(value)) == square_sum(readings) + value * value,
        square_sum(readings) >= 0,
        value * value >= 0,
    decreases readings.len(),
{
    assert(readings.push(value).drop_last() =~= readings);
    assert(value * value >= 0) by (nonlinear_arith);
    if readings.len() > 0 {
        lemma_square_sum_push(readings.drop_last(), readings.last());
        assert(readings.drop_last().push(readings.last()) =~= readings);
    }
}

/// Standard deviation of the frequency readings of the snapshots and the
/// difference of highest and lowest as a share of the mean.
pub fn frequency_spread(snapshots: &[CpuSnapshot]) -> (spread: Option<FrequencySpread>)
    ensures
        spread == frequency_spread_of(frequency_readings(snapshots@)),
{
    let mut low: u64 = 0;
    let mut high: u64 = 0;
    let mut count: u128 = 0;
    let mut total: u128 = 0;
    let mut squares: u128 = 0;
    let mut fits = true;
    let mut i: usize = 0;
    while i < snapshots.len()
        invariant
            i <= snapshots@.len(),
            count == frequency_readings(snapshots@.take(i as int)).len(),
            count <= i,
            low == lowest(frequency_readings(snapshots@.take(i as int))),
            high == highest(frequency_readings(snapshots@.take(i as int))),
            total == sum(frequency_readings(snapshots@.take(i as int))),
            total <= count * 0xffff_ffff_ffff_ffff,
            fits ==> squares == square_sum(frequency_readings(snapshots@.take(i as int))),
            !fits ==> square_sum(frequency_readings(snapshots@.take(i as int))) > u128::MAX,
        decreases snapshots@.len() - i,
    {
        let ghost before = snapshots@.take(i as int);
        proof {
            assert(snapshots@.take(i + 1).drop_last() =~= before);
            assert(snapshots@.take(i + 1).last() == snapshots@[i as int]);
        }
        match snapshots[i].frequency_khz {
            Some(khz) => {
                proof {
                    lemma_push(frequency_readings(before), khz as int);
                    lemma_square_sum_push(frequency_readings(before), khz as int);
                    assert((count + 1) * 0xffff_ffff_ffff_ffff <= 0xffff_ffff_ffff_ffff
                        * 0xffff_ffff_ffff_ffff) by (nonlinear_arith)
                        requires
                            count + 1 <= 0xffff_ffff_ffff_ffff,
                    ;
                    assert(0xffff_ffff_ffff_ffffint * 0xffff_ffff_ffff_ffffint <= u128::MAX)
                        by (nonlinear_arith);
                    assert(khz * khz <= 0xffff_ffff_ffff_ffff * 0xffff_ffff_ffff_ffff)
                        by (nonlinear_arith)
                        requires
                            0 <= khz <= 0xffff_ffff_ffff_ffff,
                    ;
                }
                if count == 0 || khz < low {
                    low = khz;
                }
                if count == 0 || khz > high {
                    high = khz;
                }
                let square: u128 = (khz as u128) * (khz as u128);
                if fits {
                    match squares.checked_add(square) {
                        Some(next) => {
                            squares = next;
                        },
                        None => {
                            fits = false;
                        },
                    }
                }
                total = total + khz as u128;
                count = count + 1;
            },
            None => {},
        }
        i += 1;
    }
    let ghost readings = frequency_readings(snapshots@);
    proof {
        assert(snapshots@.take(i as int) =~= snapshots@);
    }
    if count == 0 {
        return None;
    }
    proof {
        lemma_square_sum_push(readings, 0);
        lemma_extremes(readings);
        assert(count * square_sum(readings) >= square_sum(readings)) by (nonlinear_arith)
            requires
                count >= 1,
                square_sum(readings) >= 0,
        ;
    }
    if !fits {
        return None;
    }
    let scaled_squares = match count.checked_mul(squares) {
        Some(product) => product,
        None => {
            return None;
        },
    };
    let total_squared = match total.checked_mul(total) {
        Some(product) => product,
        None => {
            return None;
        },
    };
    let width: u128 = (high - low) as u128;
    assert(100_000_000 * count <= 100_000_000 * 0xffff_ffff_ffff_ffff) by (nonlinear_arith)
        requires
            count <= 0xffff_ffff_ffff_ffff,
    ;
    let scale: u128 = 100_000_000 * count;
    let scaled_width = match scale.checked_mul(width) {
        Some(product) => product,
        None => {
            return None;
        },
    };
    let d: u128 = if scaled_squares >= total_squared {
        scaled_squares - total_squared
    } else {
        0
    };
    let root = integer_sqrt(d);
    proof {
        lemma_floor_sqrt(root as nat, d as nat);
    }
    let variance_percent = if total == 0 {
        None
    } else {
        Some(scaled_width / total)
    };
    Some(FrequencySpread { std_dev_khz: root / count, variance_percent })
}

} // verus!
