//! Settings of measurement and comparison.
//!
//! Settings come from three places, later ones taking precedence: the
//! defaults, a configuration file, and overrides from the environment.
//! The threshold is a percentage in millionths of a percent; confidence
//! level, change point threshold and hazard rate are fractions in millionths.

use crate::text::{parse_u64, parse_usize, unsigned_within};
use vstd::prelude::*;

verus! {

/// Samples per benchmark unless configured otherwise.
pub const DEFAULT_SAMPLES: usize = 1000;

/// Seconds of warmup unless configured otherwise.
pub const DEFAULT_WARMUP_SECS: u64 = 3;

/// Regression threshold unless configured otherwise: 5 percent.
pub const DEFAULT_THRESHOLD: i64 = 5_000_000;

/// Number of historical runs compared against unless configured otherwise.
pub const DEFAULT_WINDOW_SIZE: usize = 10;

/// Confidence level unless configured otherwise: 0.95.
pub const DEFAULT_CONFIDENCE_LEVEL: u64 = 950_000;

/// Change point probability threshold unless configured otherwise: 0.8.
pub const DEFAULT_CP_THRESHOLD: u64 = 800_000;

/// Hazard rate unless configured otherwise: 0.1, a change every ten runs.
pub const DEFAULT_HAZARD_RATE: u64 = 100_000;

/// How benchmarks are measured.
#[derive(Debug, Clone, Copy, PartialEq, Eq, Structural)]
pub struct MeasurementConfig {
    /// Number of timing samples per benchmark.
    pub samples: usize,
    /// Warmup duration in seconds.
    pub warmup_duration_secs: u64,
}

/// How a run is compared with its baselines.
#[derive(Debug, Clone, Copy, PartialEq, Eq, Structural)]
pub struct ComparisonConfig {
    /// Regression threshold in millionths of a percent.
    pub threshold: i64,
    /// Whether a regression fails the whole run.
    pub ci_mode: bool,
    /// Number of historical runs compared against.
    pub window_size: usize,
    /// Statistical confidence level in millionths.
    pub confidence_level: u64,
    /// Change point probability threshold in millionths.
    pub cp_threshold: u64,
    /// Prior probability of a change per run, in millionths.
    pub hazard_rate: u64,
}

/// All settings.
#[derive(Debug, Clone, Copy, PartialEq, Eq, Structural)]
pub struct BenchmarkConfig {
    /// How benchmarks are measured.
    pub measurement: MeasurementConfig,
    /// How a run is compared with its baselines.
    pub comparison: ComparisonConfig,
}

/// Overrides found in the environment. A numeric setting comes as the text
/// of its variable where the setting is a whole number, and as its value
/// where it is a fraction; `None` where the variable is not set or, for a
/// fraction, does not hold a number.
#[derive(Debug, Clone)]
pub struct EnvOverrides {
    /// Text of the sample count.
    pub samples: Option<String>,
    /// Text of the warmup duration in seconds.
    pub warmup_duration: Option<String>,
    /// Whether the variable that turns on CI mode is set, to whatever value.
    pub ci: bool,
    /// Threshold in millionths of a percent.
    pub threshold: Option<i64>,
    /// Text of the window size.
    pub window: Option<String>,
    /// Confidence level in millionths.
    pub confidence: Option<u64>,
    /// Change point probability threshold in millionths.
    pub cp_threshold: Option<u64>,
    /// Hazard rate in millionths.
    pub hazard_rate: Option<u64>,
}

/// The default measurement settings.
pub open spec fn default_measurement() -> MeasurementConfig {
    MeasurementConfig { samples: DEFAULT_SAMPLES, warmup_duration_secs: DEFAULT_WARMUP_SECS }
}

/// The default comparison settings.
pub open spec fn default_comparison() -> ComparisonConfig {
    ComparisonConfig {
        threshold: DEFAULT_THRESHOLD,
        ci_mode: false,
        window_size: DEFAULT_WINDOW_SIZE,
        confidence_level: DEFAULT_CONFIDENCE_LEVEL,
        cp_threshold: DEFAULT_CP_THRESHOLD,
        hazard_rate: DEFAULT_HAZARD_RATE,
    }
}

/// The default settings.
pub open spec fn default_config() -> BenchmarkConfig {
    BenchmarkConfig { measurement: default_measurement(), comparison: default_comparison() }
}

/// The setting after an override given as text: the number that the text
/// writes, or the earlier setting where the variable is not set or its text
/// writes no number that fits.
pub open spec fn overridden(earlier: nat, text: Option<String>, max: nat) -> nat {
    match text {
        Some(text) => match unsigned_within(text@, max) {
            Some(value) => value,
            None => earlier,
        },
        None => earlier,
    }
}

/// The setting after an override given as a value.
pub open spec fn replaced<T>(earlier: T, value: Option<T>) -> T {
    match value {
        Some(value) => value,
        None => earlier,
    }
}

/// The settings after the overrides.
pub open spec fn with_overrides(config: BenchmarkConfig, overrides: EnvOverrides) -> BenchmarkConfig {
    BenchmarkConfig {
        measurement: MeasurementConfig {
            samples: overridden(
                config.measurement.samples as nat,
                overrides.samples,
                usize::MAX as nat,
            ) as usize,
            warmup_duration_secs: overridden(
                config.measurement.warmup_duration_secs as nat,
                overrides.warmup_duration,
                u64::MAX as nat,
            ) as u64,
        },
        comparison: ComparisonConfig {
            threshold: replaced(config.comparison.threshold, overrides.threshold),
            ci_mode: config.comparison.ci_mode || overrides.ci,
            window_size: overridden(
                config.comparison.window_size as nat,
                overrides.window,
                usize::MAX as nat,
            ) as usize,
            confidence_level: replaced(config.comparison.confidence_level, overrides.confidence),
            cp_threshold: replaced(config.comparison.cp_threshold, overrides.cp_threshold),
            hazard_rate: replaced(config.comparison.hazard_rate, overrides.hazard_rate),
        },
    }
}

impl Default for MeasurementConfig {
    fn default() -> (config: Self)
        ensures
            config == default_measurement(),
    {
        MeasurementConfig { samples: DEFAULT_SAMPLES, warmup_duration_secs: DEFAULT_WARMUP_SECS }
    }
}

impl Default for ComparisonConfig {
    fn default() -> (config: Self)
        ensures
            config == default_comparison(),
    {
        ComparisonConfig {
            threshold: DEFAULT_THRESHOLD,
            ci_mode: false,
            window_size: DEFAULT_WINDOW_SIZE,
            confidence_level: DEFAULT_CONFIDENCE_LEVEL,
            cp_threshold: DEFAULT_CP_THRESHOLD,
            hazard_rate: DEFAULT_HAZARD_RATE,
        }
    }
}

impl Default for BenchmarkConfig {
    fn default() -> (config: Self)
        ensures
            config == default_config(),
    {
        BenchmarkConfig {
            measurement: MeasurementConfig::default(),
            comparison: ComparisonConfig::default(),
        }
    }
}

impl Default for EnvOverrides {
    fn default() -> (overrides: Self)
        ensures
            overrides.samples is None,
            overrides.warmup_duration is None,
            !overrides.ci,
            overrides.threshold is None,
            overrides.window is None,
            overrides.confidence is None,
            overrides.cp_threshold is None,
            overrides.hazard_rate is None,
    {
        EnvOverrides {
            samples: None,
            warmup_duration: None,
            ci: false,
            threshold: None,
            window: None,
            confidence: None,
            cp_threshold: None,
            hazard_rate: None,
        }
    }
}

impl BenchmarkConfig {
    /// The settings in force: the defaults, replaced by those of the
    /// configuration file where one could be read, then the overrides.
    pub fn load(file_config: Option<BenchmarkConfig>, overrides: &EnvOverrides) -> (config: Self)
        ensures
            config == with_overrides(
                match file_config {
                    Some(from_file) => from_file,
                    None => default_config(),
                },
                *overrides,
            ),
    {
        let mut config = match file_config {
            Some(from_file) => from_file,
            None => BenchmarkConfig::default(),
        };
        config.apply_env_overrides(overrides);
        config
    }

    /// Applies the overrides. A whole number that cannot be read from its
    /// text leaves the setting as it was.
    pub fn apply_env_overrides(&mut self, overrides: &EnvOverrides)
        ensures
            *final(self) == with_overrides(*old(self), *overrides),
    {
        match &overrides.samples {
            Some(text) => match parse_usize(text.as_str()) {
                Some(value) => {
                    self.measurement.samples = value;
                },
                None => {},
            },
            None => {},
        }
        match &overrides.warmup_duration {
            Some(text) => match parse_u64(text.as_str()) {
                Some(value) => {
                    self.measurement.warmup_duration_secs = value;
                },
                None => {},
            },
            None => {},
        }
        if overrides.ci {
            self.comparison.ci_mode = true;
        }
        match overrides.threshold {
            Some(value) => {
                self.comparison.threshold = value;
            },
            None => {},
        }
        match &overrides.window {
            Some(text) => match parse_usize(text.as_str()) {
                Some(value) => {
                    self.comparison.window_size = value;
                },
                None => {},
            },
            None => {},
        }
        match overrides.confidence {
            Some(value) => {
                self.comparison.confidence_level = value;
            },
            None => {},
        }
        match overrides.cp_threshold {
            Some(value) => {
                self.comparison.cp_threshold = value;
            },
            None => {},
        }
        match overrides.hazard_rate {
            Some(value) => {
                self.comparison.hazard_rate = value;
            },
            None => {},
        }
    }
}

} // verus!
