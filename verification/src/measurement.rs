//! The measurement of one benchmark: warmup, then sampling, then the result.
//!
//! A [`Measurement`] decides; its driver runs the workload, reads the clock
//! and the CPU, and emits progress. The driver asks
//! [`Measurement::continue_warmup`] before every warmup iteration and reports
//! each one with [`Measurement::record_warmup_iteration`], which answers with
//! a progress event where one is due. [`Measurement::end_warmup`] opens
//! sampling. While [`Measurement::samples_pending`] holds, the driver emits
//! what [`Measurement::sample_progress`] gives, times exactly one invocation
//! of the workload between two readings of the frequency, and hands all of it
//! to [`Measurement::record_sample`]. [`Measurement::finish`] gives the
//! terminal progress event and the result. Warmup iterations are counted and
//! never sampled.

use crate::clock::{elapsed_nanos, now};
use crate::config::BenchmarkConfig;
use crate::cpu_monitor::CpuSnapshot;
use crate::progress::ProgressPhase;
use crate::results::BenchResult;
use crate::statistics::{calculate_percentiles, mean_of, percentile_of, total, Percentiles};
use std::time::Instant;
use vstd::prelude::*;
use vstd::string::*;

verus! {

/// Largest sample count a measurement accepts.
pub const MAX_SAMPLES: usize = 1_000_000;

/// Nanoseconds between two progress events of warmup: 100 milliseconds.
pub const WARMUP_REPORT_INTERVAL_NS: u128 = 100_000_000;

/// Whether `samples` is a sample count that a measurement may be run with.
pub open spec fn valid_sample_count(samples: usize) -> bool {
    0 < samples <= MAX_SAMPLES
}

/// Checks a configured sample count before any measurement begins.
///
/// A count of zero and a count above [`MAX_SAMPLES`] are rejected, each with
/// its own message.
pub fn validate_measurement_params(samples: usize) -> (r: Result<(), String>)
    ensures
        r is Ok <==> valid_sample_count(samples),
        samples == 0 ==> r is Err && r->Err_0@ == "Samples must be greater than 0"@,
        samples > MAX_SAMPLES ==> r is Err && r->Err_0@
            == "Samples should not exceed 1,000,000 for reasonable execution time"@,
{
    if samples == 0 {
        return Err(String::from_str("Samples must be greater than 0"));
    }
    if samples > MAX_SAMPLES {
        return Err(
            String::from_str("Samples should not exceed 1,000,000 for reasonable execution time"),
        );
    }
    Ok(())
}

/// Runs `func` once and gives the time it took in nanoseconds.
pub fn measure_single_iteration<F: FnOnce()>(func: F) -> (nanos: u128)
    requires
        func.requires(()),
    ensures
        func.ensures((), ()),
{
    let start = now();
    func();
    elapsed_nanos(&start)
}

/// The frequency kept for a sample from the readings before and after it:
/// the higher of the two, or the one that could be read.
pub open spec fn combined_frequency(before: Option<u64>, after: Option<u64>) -> Option<u64> {
    match (before, after) {
        (Some(b), Some(a)) => Some(if b >= a {
            b
        } else {
            a
        }),
        (Some(f), None) => Some(f),
        (None, Some(f)) => Some(f),
        (None, None) => None,
    }
}

/// The frequency kept for a sample from the readings before and after it.
pub fn combine_frequency(before: Option<u64>, after: Option<u64>) -> (kept: Option<u64>)
    ensures
        kept == combined_frequency(before, after),
{
    match (before, after) {
        (Some(b), Some(a)) => Some(if b >= a {
            b
        } else {
            a
        }),
        (Some(f), None) => Some(f),
        (None, Some(f)) => Some(f),
        (None, None) => None,
    }
}

/// Number of samples between two progress events of sampling: a hundredth
/// of the samples, at least one.
pub open spec fn report_interval(samples: usize) -> int {
    if samples / 100 >= 1 {
        samples as int / 100
    } else {
        1
    }
}

/// The progress event that is due before sample `index`, if any.
pub open spec fn progress_before_sample(index: usize, samples: usize) -> Option<ProgressPhase> {
    if index as int % report_interval(samples) == 0 {
        Some(
            ProgressPhase::Samples {
                current: (index as int % 0x1_0000_0000) as u32,
                total: (samples as int % 0x1_0000_0000) as u32,
            },
        )
    } else {
        None
    }
}

/// The progress event that is due after a warmup iteration, if any.
pub open spec fn progress_after_warmup(since_report_ns: u128, elapsed_ns: u128, target_ms: u64) -> Option<
    ProgressPhase,
> {
    if since_report_ns >= WARMUP_REPORT_INTERVAL_NS {
        Some(
            ProgressPhase::Warmup {
                elapsed_ms: (elapsed_ns as int / 1_000_000 % 0x1_0000_0000_0000_0000) as u64,
                target_ms,
            },
        )
    } else {
        None
    }
}

/// The phase of a measurement that has not handed back its result.
#[derive(Debug, Clone, Copy, PartialEq, Eq, Structural)]
pub enum MeasurementPhase {
    /// Unmeasured iterations until the budget is used up.
    Warmup,
    /// Measured iterations, one per sample.
    Sampling,
}

/// The state of one benchmark's measurement.
pub struct Measurement {
    phase: MeasurementPhase,
    name: String,
    module: String,
    samples: usize,
    warmup_secs: u64,
    warmup_iterations: u64,
    warmup_ms: u128,
    timings: Vec<u128>,
    cpu_samples: Vec<CpuSnapshot>,
}

impl Measurement {
    /// The phase.
    pub closed spec fn phase(&self) -> MeasurementPhase {
        self.phase
    }

    /// Name of the benchmark.
    pub closed spec fn name(&self) -> Seq<char> {
        self.name@
    }

    /// Module of the benchmark.
    pub closed spec fn module(&self) -> Seq<char> {
        self.module@
    }

    /// Number of samples to take.
    pub closed spec fn samples(&self) -> usize {
        self.samples
    }

    /// Seconds that warmup is to last.
    pub closed spec fn warmup_secs(&self) -> u64 {
        self.warmup_secs
    }

    /// Warmup iterations run so far.
    pub closed spec fn warmup_iterations(&self) -> u64 {
        self.warmup_iterations
    }

    /// Milliseconds that warmup took; zero until warmup has ended.
    pub closed spec fn warmup_ms(&self) -> u128 {
        self.warmup_ms
    }

    /// The timings sampled so far, in the order of execution.
    pub closed spec fn timings(&self) -> Seq<u128> {
        self.timings@
    }

    /// The CPU snapshots taken so far, one per sample.
    pub closed spec fn snapshots(&self) -> Seq<CpuSnapshot> {
        self.cpu_samples@
    }

    /// Every sample has its snapshot, no more samples are held than are to
    /// be taken, and none is held during warmup.
    pub open spec fn wf(&self) -> bool {
        &&& self.timings().len() == self.snapshots().len()
        &&& self.timings().len() <= self.samples()
        &&& self.phase() == MeasurementPhase::Warmup ==> self.timings().len() == 0
            && self.warmup_ms() == 0
    }

    /// Nanoseconds that warmup is to last.
    pub open spec fn warmup_budget_ns(&self) -> int {
        self.warmup_secs() * 1_000_000_000
    }

    /// Milliseconds that warmup is to last, as progress events carry it.
    pub open spec fn warmup_target_ms(&self) -> u64 {
        (self.warmup_secs() * 1000 % 0x1_0000_0000_0000_0000) as u64
    }

    /// A measurement of the named benchmark with the configured sample count
    /// and warmup duration, about to warm up.
    pub fn new(config: &BenchmarkConfig, name: &str, module: &str) -> (m: Self)
        ensures
            m.wf(),
            m.phase() == MeasurementPhase::Warmup,
            m.name() == name@,
            m.module() == module@,
            m.samples() == config.measurement.samples,
            m.warmup_secs() == config.measurement.warmup_duration_secs,
            m.warmup_iterations() == 0,
            m.timings().len() == 0,
    {
        Measurement {
            phase: MeasurementPhase::Warmup,
            name: String::from_str(name),
            module: String::from_str(module),
            samples: config.measurement.samples,
            warmup_secs: config.measurement.warmup_duration_secs,
            warmup_iterations: 0,
            warmup_ms: 0,
            timings: Vec::new(),
            cpu_samples: Vec::new(),
        }
    }

    /// Whether another warmup iteration is to be run, `elapsed_ns`
    /// nanoseconds after warmup began: as long as the budget is not used up.
    pub fn continue_warmup(&self, elapsed_ns: u128) -> (again: bool)
        requires
            self.phase() == MeasurementPhase::Warmup,
        ensures
            again == (elapsed_ns < self.warmup_budget_ns()),
    {
        elapsed_ns < (self.warmup_secs as u128) * 1_000_000_000
    }

    /// Counts a warmup iteration. `since_report_ns` is the time since the
    /// last progress event of warmup, or since warmup began, `elapsed_ns` the
    /// time since warmup began. Gives the progress event to emit where at
    /// least 100 milliseconds have passed since the last.
    pub fn record_warmup_iteration(&mut self, since_report_ns: u128, elapsed_ns: u128) -> (progress:
        Option<ProgressPhase>)
        requires
            old(self).wf(),
            old(self).phase() == MeasurementPhase::Warmup,
            old(self).warmup_iterations() < u64::MAX,
        ensures
            final(self).wf(),
            final(self).phase() == MeasurementPhase::Warmup,
            final(self).warmup_iterations() == old(self).warmup_iterations() + 1,
            final(self).name() == old(self).name(),
            final(self).module() == old(self).module(),
            final(self).samples() == old(self).samples(),
            final(self).warmup_secs() == old(self).warmup_secs(),
            progress == progress_after_warmup(
                since_report_ns,
                elapsed_ns,
                old(self).warmup_target_ms(),
            ),
    {
        self.warmup_iterations = self.warmup_iterations + 1;
        if since_report_ns >= WARMUP_REPORT_INTERVAL_NS {
            let target_ms: u64 = ((self.warmup_secs as u128) * 1000 % 0x1_0000_0000_0000_0000) as u64;
            let elapsed_ms: u64 = (elapsed_ns / 1_000_000 % 0x1_0000_0000_0000_0000) as u64;
            Some(ProgressPhase::Warmup { elapsed_ms, target_ms })
        } else {
            None
        }
    }

    /// Ends warmup, `elapsed_ns` nanoseconds after it began, and opens
    /// sampling.
    pub fn end_warmup(&mut self, elapsed_ns: u128)
        requires
            old(self).wf(),
            old(self).phase() == MeasurementPhase::Warmup,
        ensures
            final(self).wf(),
            final(self).phase() == MeasurementPhase::Sampling,
            final(self).warmup_ms() == elapsed_ns / 1_000_000,
            final(self).warmup_iterations() == old(self).warmup_iterations(),
            final(self).name() == old(self).name(),
            final(self).module() == old(self).module(),
            final(self).samples() == old(self).samples(),
            final(self).warmup_secs() == old(self).warmup_secs(),
            final(self).timings().len() == 0,
    {
        self.phase = MeasurementPhase::Sampling;
        self.warmup_ms = elapsed_ns / 1_000_000;
    }

    /// Whether a sample is still to be taken.
    pub fn samples_pending(&self) -> (pending: bool)
        requires
            self.phase() == MeasurementPhase::Sampling,
        ensures
            pending == (self.timings().len() < self.samples()),
    {
        self.timings.len() < self.samples
    }

    /// The progress event to emit before the next sample is timed, if one is
    /// due: one for every hundredth of the samples, and for every sample
    /// where there are fewer than two hundred.
    pub fn sample_progress(&self) -> (progress: Option<ProgressPhase>)
        requires
            self.wf(),
            self.phase() == MeasurementPhase::Sampling,
        ensures
            progress == progress_before_sample(self.timings().len() as usize, self.samples()),
    {
        let index = self.timings.len();
        let interval = if self.samples / 100 >= 1 {
            self.samples / 100
        } else {
            1
        };
        if index % interval == 0 {
            Some(
                ProgressPhase::Samples {
                    current: ((index as u64) % 0x1_0000_0000) as u32,
                    total: ((self.samples as u64) % 0x1_0000_0000) as u32,
                },
            )
        } else {
            None
        }
    }

    /// Records a sample: the time that one invocation took, the frequency
    /// read before and after it, the temperature read after it, and the
    /// moment of the snapshot. The snapshot keeps the higher frequency.
    pub fn record_sample(
        &mut self,
        elapsed_ns: u128,
        frequency_before: Option<u64>,
        frequency_after: Option<u64>,
        temperature_millic: Option<i32>,
        timestamp: Instant,
    )
        requires
            old(self).wf(),
            old(self).phase() == MeasurementPhase::Sampling,
            old(self).timings().len() < old(self).samples(),
        ensures
            final(self).wf(),
            final(self).phase() == MeasurementPhase::Sampling,
            final(self).timings() == old(self).timings().push(elapsed_ns),
            final(self).snapshots() == old(self).snapshots().push(
                CpuSnapshot {
                    timestamp,
                    frequency_khz: combined_frequency(frequency_before, frequency_after),
                    temperature_millic,
                },
            ),
            final(self).warmup_ms() == old(self).warmup_ms(),
            final(self).warmup_iterations() == old(self).warmup_iterations(),
            final(self).name() == old(self).name(),
            final(self).module() == old(self).module(),
            final(self).samples() == old(self).samples(),
            final(self).warmup_secs() == old(self).warmup_secs(),
    {
        self.timings.push(elapsed_ns);
        self.cpu_samples.push(
            CpuSnapshot {
                timestamp,
                frequency_khz: combine_frequency(frequency_before, frequency_after),
                temperature_millic,
            },
        );
    }

    /// The result of a measurement that holds `result`'s samples.
    pub open spec fn is_result(&self, result: BenchResult) -> bool {
        &&& result.name@ == self.name()
        &&& result.module@ == self.module()
        &&& result.iterations == 1
        &&& result.samples == self.samples()
        &&& result.percentiles == (Percentiles {
            p50: percentile_of(self.timings(), 50),
            p90: percentile_of(self.timings(), 90),
            p99: percentile_of(self.timings(), 99),
            mean: mean_of(self.timings()) as u128,
        })
        &&& result.all_timings@ == self.timings()
        &&& result.cpu_samples@ == self.snapshots()
        &&& result.warmup_ms == Some(self.warmup_ms())
        &&& result.warmup_iterations == Some(self.warmup_iterations())
    }

    /// Ends the measurement once every sample is taken: gives the terminal
    /// progress event and the result, with the percentiles of the timings,
    /// the timings themselves, the snapshots and the warmup figures.
    pub fn finish(self) -> (r: (ProgressPhase, BenchResult))
        requires
            self.wf(),
            self.phase() == MeasurementPhase::Sampling,
            self.samples() > 0,
            self.timings().len() == self.samples(),
            total(self.timings()) <= u128::MAX,
        ensures
            r.0 == ProgressPhase::Complete,
            self.is_result(r.1),
    {
        let percentiles = calculate_percentiles(self.timings.as_slice());
        (
            ProgressPhase::Complete,
            BenchResult {
                name: self.name,
                module: self.module,
                iterations: 1,
                samples: self.samples,
                percentiles,
                all_timings: self.timings,
                cpu_samples: self.cpu_samples,
                warmup_ms: Some(self.warmup_ms),
                warmup_iterations: Some(self.warmup_iterations),
            },
        )
    }
}

} // verus!
