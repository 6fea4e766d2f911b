use simplebench::config::{BenchmarkConfig, MeasurementConfig};
use simplebench::measurement::{
    combine_frequency, measure_single_iteration, validate_measurement_params, Measurement,
};
use simplebench::progress::ProgressPhase;
use std::time::{Duration, Instant};

/// Runs a benchmark as the measurement loop does: warmup while the budget
/// lasts, then one timed call for each sample.
fn run<F: FnMut()>(config: &BenchmarkConfig, name: &str, module: &str, mut func: F) -> (
    Vec<ProgressPhase>,
    simplebench::results::BenchResult,
) {
    let mut events = Vec::new();
    let mut measurement = Measurement::new(config, name, module);
    let warmup_start = Instant::now();
    let mut last_report = Instant::now();
    while measurement.continue_warmup(warmup_start.elapsed().as_nanos()) {
        func();
        let progress = measurement.record_warmup_iteration(
            last_report.elapsed().as_nanos(),
            warmup_start.elapsed().as_nanos(),
        );
        if let Some(event) = progress {
            events.push(event);
            last_report = Instant::now();
        }
    }
    measurement.end_warmup(warmup_start.elapsed().as_nanos());
    while measurement.samples_pending() {
        if let Some(event) = measurement.sample_progress() {
            events.push(event);
        }
        let elapsed = measure_single_iteration(&mut func);
        measurement.record_sample(elapsed, Some(3_000_000), Some(3_100_000), None, Instant::now());
    }
    let (last, result) = measurement.finish();
    events.push(last);
    (events, result)
}

#[test]
fn test_measure_single_iteration() {
    let duration = measure_single_iteration(|| {
        let start = Instant::now();
        while start.elapsed() < Duration::from_millis(1) {
            std::hint::spin_loop();
        }
    });

    assert!(duration >= Duration::from_millis(1).as_nanos());
    assert!(duration < Duration::from_millis(10).as_nanos());
}

#[test]
fn test_validate_measurement_params() {
    assert!(validate_measurement_params(100).is_ok());
    assert!(validate_measurement_params(0).is_err());
    assert!(validate_measurement_params(1_000_001).is_err());
    assert!(validate_measurement_params(100_000).is_ok());
}

#[test]
fn test_measure_simple_basic() {
    let config = BenchmarkConfig {
        measurement: MeasurementConfig { samples: 10, warmup_duration_secs: 0 },
        ..Default::default()
    };

    let (_, result) = run(&config, "test_bench", "test_module", || {
        let _ = (0..100).sum::<i32>();
    });

    assert_eq!(result.name, "test_bench");
    assert_eq!(result.module, "test_module");
    assert_eq!(result.samples, 10);
    assert_eq!(result.all_timings.len(), 10);

    for timing in &result.all_timings {
        assert!(*timing > 0);
        assert!(*timing < Duration::from_secs(1).as_nanos());
    }
}

#[test]
fn messages_of_the_validation() {
    assert_eq!(validate_measurement_params(0), Err("Samples must be greater than 0".to_string()));
    assert_eq!(
        validate_measurement_params(1_000_001),
        Err("Samples should not exceed 1,000,000 for reasonable execution time".to_string())
    );
    assert_eq!(validate_measurement_params(1), Ok(()));
    assert_eq!(validate_measurement_params(1_000_000), Ok(()));
    assert!(validate_measurement_params(usize::MAX).is_err());
}

#[test]
fn a_measurement_reports_what_it_recorded() {
    let config = BenchmarkConfig {
        measurement: MeasurementConfig { samples: 4, warmup_duration_secs: 2 },
        ..Default::default()
    };
    let mut measurement = Measurement::new(&config, "bench", "group::inner");
    assert!(measurement.continue_warmup(0));
    assert!(measurement.continue_warmup(1_999_999_999));
    assert!(!measurement.continue_warmup(2_000_000_000));
    assert_eq!(measurement.record_warmup_iteration(99_999_999, 99_999_999), None);
    assert_eq!(
        measurement.record_warmup_iteration(100_000_000, 1_234_567_890),
        Some(ProgressPhase::Warmup { elapsed_ms: 1234, target_ms: 2000 })
    );
    measurement.end_warmup(2_000_400_000);

    let timings: [u128; 4] = [40, 10, 30, 20];
    let mut events = Vec::new();
    for elapsed in timings {
        assert!(measurement.samples_pending());
        events.push(measurement.sample_progress());
        measurement.record_sample(elapsed, Some(1000), None, Some(41_000), Instant::now());
    }
    assert!(!measurement.samples_pending());
    assert_eq!(
        events,
        vec![
            Some(ProgressPhase::Samples { current: 0, total: 4 }),
            Some(ProgressPhase::Samples { current: 1, total: 4 }),
            Some(ProgressPhase::Samples { current: 2, total: 4 }),
            Some(ProgressPhase::Samples { current: 3, total: 4 }),
        ]
    );
    let (last, result) = measurement.finish();
    assert_eq!(last, ProgressPhase::Complete);
    assert_eq!(result.name, "bench");
    assert_eq!(result.module, "group::inner");
    assert_eq!(result.iterations, 1);
    assert_eq!(result.samples, 4);
    assert_eq!(result.all_timings, vec![40, 10, 30, 20]);
    assert_eq!(result.percentiles.p50, 30);
    assert_eq!(result.percentiles.p90, 40);
    assert_eq!(result.percentiles.p99, 40);
    assert_eq!(result.percentiles.mean, 25);
    assert_eq!(result.warmup_ms, Some(2000));
    assert_eq!(result.warmup_iterations, Some(2));
    assert_eq!(result.cpu_samples.len(), 4);
    assert_eq!(result.cpu_samples[0].frequency_khz, Some(1000));
    assert_eq!(result.cpu_samples[0].temperature_millic, Some(41_000));
}

#[test]
fn progress_of_sampling_comes_every_hundredth() {
    let config = BenchmarkConfig {
        measurement: MeasurementConfig { samples: 250, warmup_duration_secs: 0 },
        ..Default::default()
    };
    let (events, result) = run(&config, "bench", "module", || {});
    assert_eq!(result.all_timings.len(), 250);
    assert_eq!(result.warmup_iterations, Some(0));
    let sampled: Vec<u32> = events
        .iter()
        .filter_map(|e| match e {
            ProgressPhase::Samples { current, total } => {
                assert_eq!(*total, 250);
                Some(*current)
            }
            _ => None,
        })
        .collect();
    let expected: Vec<u32> = (0..250).filter(|i| i % 2 == 0).collect();
    assert_eq!(sampled, expected);
    assert_eq!(events.last(), Some(&ProgressPhase::Complete));
    assert_eq!(result.cpu_samples[0].frequency_khz, Some(3_100_000));
}

#[test]
fn the_higher_frequency_is_kept() {
    assert_eq!(combine_frequency(Some(3), Some(5)), Some(5));
    assert_eq!(combine_frequency(Some(5), Some(3)), Some(5));
    assert_eq!(combine_frequency(Some(4), None), Some(4));
    assert_eq!(combine_frequency(None, Some(4)), Some(4));
    assert_eq!(combine_frequency(None, None), None);
}
