//! What a benchmark run hands back.

use crate::cpu_monitor::CpuSnapshot;
use crate::statistics::Percentiles;
use vstd::prelude::*;

verus! {

/// Complete result of one benchmark run. Durations are nanoseconds.
#[derive(Debug, Clone)]
pub struct BenchResult {
    /// Name of the benchmark.
    pub name: String,
    /// Module path where the benchmark is defined.
    pub module: String,
    /// Number of iterations that the run reports.
    pub iterations: usize,
    /// Number of samples collected.
    pub samples: usize,
    /// Percentiles computed from all timings.
    pub percentiles: Percentiles,
    /// One timing per sample, in the order of execution.
    pub all_timings: Vec<u128>,
    /// One CPU snapshot per sample.
    pub cpu_samples: Vec<CpuSnapshot>,
    /// Total warmup time in milliseconds.
    pub warmup_ms: Option<u128>,
    /// Number of iterations run during warmup.
    pub warmup_iterations: Option<u64>,
}

impl Default for BenchResult {
    fn default() -> (result: Self)
        ensures
            result.name@.len() == 0,
            result.module@.len() == 0,
            result.iterations == 0,
            result.samples == 0,
            result.percentiles == (Percentiles { p50: 0, p90: 0, p99: 0, mean: 0 }),
            result.all_timings@.len() == 0,
            result.cpu_samples@.len() == 0,
            result.warmup_ms is None,
            result.warmup_iterations is None,
    {
        BenchResult {
            name: String::new(),
            module: String::new(),
            iterations: 0,
            samples: 0,
            percentiles: Percentiles { p50: 0, p90: 0, p99: 0, mean: 0 },
            all_timings: Vec::new(),
            cpu_samples: Vec::new(),
            warmup_ms: None,
            warmup_iterations: None,
        }
    }
}

/// Name and grouping of a benchmark, as listings give it.
#[derive(Debug, Clone)]
pub struct BenchmarkInfo {
    /// Name of the benchmark.
    pub name: String,
    /// Module path where the benchmark is defined.
    pub module: String,
}

} // verus!
