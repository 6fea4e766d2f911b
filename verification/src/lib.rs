//! Measurement and regression detection for microbenchmarks.
//!
//! Every quantity is an integer: durations are nanoseconds, frequencies are
//! kilohertz, temperatures are millidegrees Celsius, and fractions such as
//! thresholds and probabilities are counted in millionths.

pub mod analysis;
pub mod arith;
pub mod baseline;
pub mod changepoint;
pub mod clock;
pub mod config;
pub mod cpu_analysis;
pub mod cpu_monitor;
pub mod environment;
pub mod machine;
pub mod measurement;
pub mod orchestrator;
pub mod progress;
pub mod regression;
pub mod results;
pub mod rlibs;
pub mod runner;
pub mod stamp;
pub mod statistics;
pub mod text;
pub mod topology;
pub mod workspace;
