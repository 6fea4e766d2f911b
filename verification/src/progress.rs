//! Progress of a running benchmark, as it is reported while the benchmark
//! runs, and what a progress display does with each report.

use vstd::prelude::*;

verus! {

/// Where a benchmark stands.
#[derive(Debug, Clone, Copy, PartialEq, Eq, Structural)]
pub enum ProgressPhase {
    /// Warming up: unmeasured iterations.
    Warmup {
        /// Milliseconds since warmup began.
        elapsed_ms: u64,
        /// Milliseconds that warmup is to last.
        target_ms: u64,
    },
    /// Collecting samples.
    Samples {
        /// Index of the sample about to be taken, from zero.
        current: u32,
        /// Number of samples to take.
        total: u32,
    },
    /// The benchmark is done.
    Complete,
}

/// A progress report of one benchmark.
#[derive(Debug, Clone)]
pub struct ProgressMessage {
    /// Name of the benchmark.
    pub bench: String,
    /// Where the benchmark stands.
    pub phase: ProgressPhase,
}

/// The envelope in which a progress report travels, which tells it apart
/// from other lines on the same stream.
#[derive(Debug, Clone)]
pub struct ProgressWrapper {
    /// The report.
    pub progress: ProgressMessage,
}

/// The kind of bar that a display shows for a benchmark.
#[derive(Debug, Clone, Copy, PartialEq, Eq, Structural)]
pub enum DisplayPhase {
    /// A bar for warmup, measured in milliseconds.
    Warmup,
    /// A bar for sampling, measured in samples.
    Samples,
}

/// What a display does with a benchmark's bar on a progress report.
#[derive(Debug, Clone, Copy, PartialEq, Eq, Structural)]
pub enum BarUpdate {
    /// Nothing: the display is off.
    Ignore,
    /// Show the position on the bar of the given kind. `replace` tells
    /// whether a bar of the other kind is cleared first, `create` whether the
    /// bar has to be made.
    Show { kind: DisplayPhase, replace: bool, create: bool, position: u64, length: u64 },
    /// Clear the benchmark's bar, if it has one.
    Clear,
}

/// What [`bar_update`] returns.
pub open spec fn bar_update_of(enabled: bool, shown: Option<DisplayPhase>, phase: ProgressPhase) -> BarUpdate {
    if !enabled {
        BarUpdate::Ignore
    } else {
        match phase {
            ProgressPhase::Warmup { elapsed_ms, target_ms } => BarUpdate::Show {
                kind: DisplayPhase::Warmup,
                replace: shown == Some(DisplayPhase::Samples),
                create: shown != Some(DisplayPhase::Warmup),
                position: elapsed_ms,
                length: target_ms,
            },
            ProgressPhase::Samples { current, total } => BarUpdate::Show {
                kind: DisplayPhase::Samples,
                replace: shown == Some(DisplayPhase::Warmup),
                create: shown != Some(DisplayPhase::Samples),
                position: current as u64,
                length: total as u64,
            },
            ProgressPhase::Complete => BarUpdate::Clear,
        }
    }
}

/// Whether a display shows progress: only on a terminal, and not when asked
/// to be quiet.
pub fn display_enabled(is_terminal: bool, quiet: bool) -> (enabled: bool)
    ensures
        enabled == (is_terminal && !quiet),
{
    is_terminal && !quiet
}

/// What a display does on a progress report for a benchmark whose bar is of
/// the kind `shown`, or that has no bar.
pub fn bar_update(enabled: bool, shown: Option<DisplayPhase>, phase: ProgressPhase) -> (update: BarUpdate)
    ensures
        update == bar_update_of(enabled, shown, phase),
{
    if !enabled {
        return BarUpdate::Ignore;
    }
    match phase {
        ProgressPhase::Warmup { elapsed_ms, target_ms } => {
            let (replace, create) = match shown {
                Some(DisplayPhase::Samples) => (true, true),
                Some(DisplayPhase::Warmup) => (false, false),
                None => (false, true),
            };
            BarUpdate::Show {
                kind: DisplayPhase::Warmup,
                replace,
                create,
                position: elapsed_ms,
                length: target_ms,
            }
        },
        ProgressPhase::Samples { current, total } => {
            let (replace, create) = match shown {
                Some(DisplayPhase::Warmup) => (true, true),
                Some(DisplayPhase::Samples) => (false, false),
                None => (false, true),
            };
            BarUpdate::Show {
                kind: DisplayPhase::Samples,
                replace,
                create,
                position: current as u64,
                length: total as u64,
            }
        },
        ProgressPhase::Complete => BarUpdate::Clear,
    }
}

} // verus!
