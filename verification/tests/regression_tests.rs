use simplebench::baseline::BaselineData;
use simplebench::config::ComparisonConfig;
use simplebench::orchestrator::{check_regressions, summarize, Summary};
use simplebench::regression::{
    compare_means, detect_regression_with_cpd, means_in_range, process_result,
    checked_squares, try_detect_regression, window_statistics, ComparisonResult, Evidence,
    WindowStatistics, MAX_MEAN_NS, MAX_SCALED_MEAN, MAX_SCALED_SQUARES, MAX_WINDOW,
};
use simplebench::results::BenchResult;
use simplebench::statistics::Percentiles;

const THRESHOLD: i64 = 5_000_000;
const CONFIDENCE: u64 = 950_000;
const CP_THRESHOLD: u64 = 800_000;
const HAZARD: u64 = 100_000;

fn result_with_mean(name: &str, mean: u128) -> BenchResult {
    BenchResult {
        name: name.to_string(),
        module: "group::bench".to_string(),
        iterations: 1,
        samples: 3,
        percentiles: Percentiles { p50: mean, p90: mean, p99: mean, mean },
        all_timings: vec![mean; 3],
        cpu_samples: vec![],
        ..Default::default()
    }
}

fn history(means: &[u128]) -> Vec<BaselineData> {
    means
        .iter()
        .map(|&mean| {
            BaselineData::from_bench_result_at(
                &result_with_mean("bench", mean),
                "0123456789abcdef".to_string(),
                false,
                "2025-01-01T00:00:00+00:00".to_string(),
            )
        })
        .collect()
}

fn detect(current: u128, means: &[u128], hazard: u64, likelihood: u64) -> ComparisonResult {
    detect_regression_with_cpd(
        &result_with_mean("bench", current),
        &history(means),
        THRESHOLD,
        CONFIDENCE,
        CP_THRESHOLD,
        hazard,
        likelihood,
    )
}

const CLUSTER: [u128; 5] = [999_990, 1_000_010, 1_000_000, 999_995, 1_000_005];

#[test]
fn doubled_mean_against_a_tight_cluster_is_a_regression() {
    let outcome = detect(2_000_000, &CLUSTER, HAZARD, 0);
    assert!(outcome.is_regression);
    assert_eq!(outcome.benchmark_name, "bench");
    let comparison = outcome.comparison.unwrap();
    assert_eq!(comparison.current_mean, 2_000_000);
    assert_eq!(comparison.baseline_mean, 1_000_000);
    assert_eq!(comparison.percentage_change, Some(100_000_000));
    assert_eq!(comparison.baseline_count, 5);
    assert_eq!(comparison.evidence, Evidence::Extreme);
    assert!(comparison.statistically_significant);
    assert!(comparison.practically_significant);
    assert_eq!(comparison.change_probability, 780_000);
    let window = window_statistics(2_000_000, &CLUSTER, CONFIDENCE);
    assert_eq!(comparison.z_score, window.z_score);
    assert_eq!(comparison.confidence_interval, (window.lower_bound, window.upper_bound));
    assert!(comparison.z_score > 5000);
    assert_eq!(comparison.confidence_interval, (999_988, 1_000_011));
    // Extreme evidence does not wait for the change point probability.
    assert!(detect(2_000_000, &CLUSTER, 0, 1_000_000).is_regression);
}

#[test]
fn change_below_the_threshold_is_no_regression() {
    let outcome = detect(1_020_000, &CLUSTER, HAZARD, 0);
    assert!(!outcome.is_regression);
    let comparison = outcome.comparison.unwrap();
    assert_eq!(comparison.percentage_change, Some(2_000_000));
    assert_eq!(comparison.evidence, Evidence::Extreme);
    assert!(comparison.statistically_significant);
    assert!(!comparison.practically_significant);
    for hazard in [0, HAZARD, 1_000_000] {
        for likelihood in [0, 500_000, 1_000_000] {
            assert!(!detect(1_020_000, &CLUSTER, hazard, likelihood).is_regression);
            assert!(!detect(1_020_000, &[900_000, 1_100_000, 1_000_000], hazard, likelihood).is_regression);
        }
    }
    // Exactly at the threshold is not above it.
    assert!(!detect(1_050_000, &CLUSTER, HAZARD, 0).is_regression);
    assert!(detect(1_050_001, &CLUSTER, HAZARD, 0).is_regression);
}

#[test]
fn strong_evidence_needs_the_change_point() {
    let means: [u128; 4] = [900, 1100, 1000, 1000];
    let below = detect(1250, &means, 100_000, 0);
    let comparison = below.comparison.unwrap();
    assert_eq!(comparison.evidence, Evidence::Strong);
    assert!(comparison.statistically_significant);
    assert!(comparison.practically_significant);
    assert_eq!(comparison.percentage_change, Some(25_000_000));
    assert_eq!(comparison.change_probability, 780_000);
    assert!(!below.is_regression);

    let above = detect(1250, &means, 300_000, 0);
    assert_eq!(above.comparison.unwrap().change_probability, 940_000);
    assert!(above.is_regression);
}

#[test]
fn weak_evidence_is_no_regression() {
    let means: [u128; 4] = [900, 1100, 1000, 1000];
    let outcome = detect(1100, &means, 1_000_000, 0);
    let comparison = outcome.comparison.unwrap();
    assert_eq!(comparison.evidence, Evidence::Weak);
    assert!(comparison.practically_significant);
    assert_eq!(comparison.change_probability, 1_000_000);
    assert!(!outcome.is_regression);
}

#[test]
fn history_that_does_not_vary_gives_weak_evidence() {
    let outcome = detect(2_000_000, &[1_000_000; 8], HAZARD, 0);
    let comparison = outcome.comparison.unwrap();
    assert_eq!(comparison.evidence, Evidence::Weak);
    assert_eq!(comparison.percentage_change, Some(100_000_000));
    assert!(!outcome.is_regression);
}

#[test]
fn no_history_is_no_comparison() {
    let outcome = detect(2_000_000, &[], HAZARD, 0);
    assert!(outcome.comparison.is_none());
    assert!(!outcome.is_regression);
    assert_eq!(outcome.benchmark_name, "bench");
    // Whatever the current mean.
    for mean in [0, MAX_SCALED_MEAN + 1, u128::MAX] {
        let mut current = result_with_mean("bench", 1);
        current.percentiles.mean = mean;
        let outcome = detect_regression_with_cpd(
            &current,
            &[],
            THRESHOLD,
            CONFIDENCE,
            CP_THRESHOLD,
            HAZARD,
            0,
        );
        assert!(outcome.comparison.is_none());
        assert!(!outcome.is_regression);
        assert_eq!(outcome.benchmark_name, "bench");
        let tried =
            try_detect_regression(&current, &[], THRESHOLD, CONFIDENCE, CP_THRESHOLD, HAZARD, 0)
                .unwrap();
        assert!(tried.comparison.is_none());
    }
}

#[test]
fn the_comparison_holds_z_score_and_interval() {
    let (comparison, _) =
        compare_means(1150, &[900, 1100], THRESHOLD, CONFIDENCE, CP_THRESHOLD, HAZARD, 0);
    assert_eq!(comparison.z_score, 1500);
    assert_eq!(comparison.confidence_interval, (835, 1164));
    let (comparison, _) =
        compare_means(7, &[0, 1000], THRESHOLD, 990_000, CP_THRESHOLD, HAZARD, 0);
    assert_eq!(comparison.z_score, -986);
    assert_eq!(comparison.confidence_interval, (-663, 1663));
    let (flat, _) =
        compare_means(2_000_000, &[1_000_000; 8], THRESHOLD, CONFIDENCE, CP_THRESHOLD, HAZARD, 0);
    assert_eq!(flat.z_score, 0);
    assert_eq!(flat.confidence_interval, (1_000_000, 1_000_000));
}

#[test]
fn faster_run_is_no_regression() {
    let outcome = detect(500_000, &CLUSTER, 1_000_000, 0);
    assert!(!outcome.is_regression);
    let comparison = outcome.comparison.unwrap();
    assert_eq!(comparison.percentage_change, Some(-50_000_000));
    assert_eq!(comparison.evidence, Evidence::Extreme);
    assert!(!comparison.statistically_significant);
    assert!(!comparison.practically_significant);
}

#[test]
fn percentage_rounds_down() {
    let (comparison, _) = compare_means(1001, &[3000, 3000, 3001], THRESHOLD, CONFIDENCE, CP_THRESHOLD, HAZARD, 0);
    // Historical mean 9001 / 3; change (3003 - 9001) / 9001 in millionths of
    // a percent, rounded down.
    assert_eq!(comparison.baseline_mean, 3000);
    assert_eq!(comparison.percentage_change, Some(-66_637_041));
    let (zero, regression) = compare_means(5, &[0, 0], THRESHOLD, CONFIDENCE, CP_THRESHOLD, HAZARD, 0);
    assert_eq!(zero.percentage_change, None);
    assert!(zero.practically_significant);
    assert!(!regression);
}

#[test]
fn confidence_levels() {
    // Mean 1000, standard deviation 100: z-score of 1150 is 1.5.
    let means: [u128; 2] = [900, 1100];
    let at = |confidence: u64, current: u128| {
        compare_means(current, &means, THRESHOLD, confidence, CP_THRESHOLD, HAZARD, 0)
            .0
            .statistically_significant
    };
    assert!(at(900_000, 1129));
    assert!(!at(900_000, 1128));
    assert!(at(950_000, 1165));
    assert!(!at(950_000, 1164));
    assert!(at(990_000, 1233));
    assert!(!at(990_000, 1232));
    assert!(at(500_000, 1197));
    assert!(!at(500_000, 1196));
    assert!(!at(950_000, 800));
}

#[test]
fn means_out_of_range_are_refused() {
    // Means of up to eighteen minutes with up to 4096 runs are in range.
    assert!(means_in_range(MAX_MEAN_NS, &[MAX_MEAN_NS, 0]));
    assert!(means_in_range(MAX_MEAN_NS, &vec![MAX_MEAN_NS; 4096]));
    // The bounds are on the sums: fewer runs leave room for longer means.
    assert!(means_in_range(MAX_SCALED_MEAN, &[MAX_SCALED_MEAN]));
    assert!(!means_in_range(MAX_SCALED_MEAN + 1, &[1]));
    assert!(!means_in_range(1, &[MAX_SCALED_MEAN + 1]));
    assert!(means_in_range(MAX_SCALED_MEAN / 2, &[1, 1]));
    assert!(!means_in_range(MAX_SCALED_MEAN / 2 + 1, &[1, 1]));
    assert!(means_in_range(1, &[MAX_SCALED_MEAN / 2, MAX_SCALED_MEAN / 2]));
    assert!(!means_in_range(1, &[MAX_SCALED_MEAN / 2, MAX_SCALED_MEAN / 2 + 1]));
    // Two means of 2^51: twice the sum of squares is 2^104.
    assert_eq!(2 * 2 * (MAX_SCALED_MEAN / 2) * (MAX_SCALED_MEAN / 2), MAX_SCALED_SQUARES);
    assert!(!means_in_range(1, &[MAX_SCALED_MEAN / 2, MAX_SCALED_MEAN / 2, 1]));
    assert!(!means_in_range(1, &[u128::MAX, u128::MAX]));
    assert!(!means_in_range(u128::MAX, &[1, 1]));
    assert!(means_in_range(u128::MAX, &[]));
    assert!(MAX_WINDOW >= 4096);
    assert_eq!(checked_squares(&[3, 4]), Some(25));
    assert_eq!(checked_squares(&[]), Some(0));
    assert_eq!(checked_squares(&[1 << 64]), None);
    assert_eq!(checked_squares(&[u128::MAX >> 65, u128::MAX >> 65, 1 << 63, 1 << 63]), Some(
        2 * (u128::MAX >> 65) * (u128::MAX >> 65) + (1 << 127)
    ));

    let current = result_with_mean("bench", MAX_SCALED_MEAN);
    assert!(try_detect_regression(&current, &history(&CLUSTER), THRESHOLD, CONFIDENCE, CP_THRESHOLD, HAZARD, 0)
        .is_none());
    let fine = result_with_mean("bench", 2_000_000);
    let outcome =
        try_detect_regression(&fine, &history(&CLUSTER), THRESHOLD, CONFIDENCE, CP_THRESHOLD, HAZARD, 0)
            .unwrap();
    assert!(outcome.is_regression);
    let extreme = detect(MAX_MEAN_NS, &vec![MAX_MEAN_NS - 1; 4095], HAZARD, 0);
    assert!(!extreme.is_regression);
    // A day against a history of days.
    let day: u128 = 86_400_000_000_000;
    let long = detect(2 * day, &[day - 1_000_000, day + 1_000_000, day], HAZARD, 0);
    assert!(long.is_regression);
    assert_eq!(long.comparison.unwrap().percentage_change, Some(100_000_000));
}

#[test]
fn the_record_carries_the_verdict() {
    let config = ComparisonConfig::default();
    let slow = process_result(
        &result_with_mean("bench", 2_000_000),
        &history(&CLUSTER),
        &config,
        0,
        "0123456789abcdef".to_string(),
        "2025-02-02T00:00:00+00:00".to_string(),
    )
    .unwrap();
    assert!(slow.comparison.is_regression);
    assert!(slow.record.was_regression);
    assert_eq!(slow.record.benchmark_name, "bench");
    assert_eq!(slow.record.machine_id, "0123456789abcdef");
    assert_eq!(slow.record.timestamp, "2025-02-02T00:00:00+00:00");
    assert_eq!(slow.record.statistics.mean, 2_000_000);

    let first = process_result(
        &result_with_mean("bench", 2_000_000),
        &[],
        &config,
        0,
        "0123456789abcdef".to_string(),
        "2025-02-02T00:00:00+00:00".to_string(),
    )
    .unwrap();
    assert!(first.comparison.comparison.is_none());
    assert!(!first.record.was_regression);

    let mut overflowing = result_with_mean("bench", 1);
    overflowing.all_timings = vec![u128::MAX, u128::MAX];
    assert!(process_result(
        &overflowing,
        &[],
        &config,
        0,
        "0123456789abcdef".to_string(),
        "2025-02-02T00:00:00+00:00".to_string(),
    )
    .is_none());
}

#[test]
fn summary_counts_each_result_once() {
    let results = vec![
        detect(2_000_000, &CLUSTER, HAZARD, 0),
        detect(1_020_000, &CLUSTER, HAZARD, 0),
        detect(500_000, &CLUSTER, HAZARD, 0),
        detect(949_999, &CLUSTER, HAZARD, 0),
        detect(950_000, &CLUSTER, HAZARD, 0),
        detect(1_000_000, &[], HAZARD, 0),
        detect(3_000_000, &CLUSTER, HAZARD, 0),
    ];
    let summary = summarize(&results);
    assert_eq!(
        summary,
        Summary { total: 7, stable: 2, improved: 2, regressed: 2, new_benchmarks: 1 }
    );
    assert_eq!(summarize(&[]), Summary { total: 0, stable: 0, improved: 0, regressed: 0, new_benchmarks: 0 });
}

#[test]
fn a_regression_fails_the_run_in_ci_mode_only() {
    let with_regression =
        vec![detect(1_000_000, &CLUSTER, HAZARD, 0), detect(2_000_000, &CLUSTER, HAZARD, 0)];
    let without = vec![detect(1_000_000, &CLUSTER, HAZARD, 0), detect(1_000_000, &[], HAZARD, 0)];
    assert!(check_regressions(&with_regression, true));
    assert!(!check_regressions(&with_regression, false));
    assert!(!check_regressions(&without, true));
    assert!(!check_regressions(&without, false));
    assert!(!check_regressions(&[], true));
}

#[test]
fn z_score_and_confidence_interval() {
    // Mean 1000, standard deviation 100.
    assert_eq!(
        window_statistics(1150, &[900, 1100], CONFIDENCE),
        WindowStatistics { z_score: 1500, lower_bound: 835, upper_bound: 1164 }
    );
    assert_eq!(
        window_statistics(850, &[900, 1100], CONFIDENCE),
        WindowStatistics { z_score: -1500, lower_bound: 835, upper_bound: 1164 }
    );
    assert_eq!(
        window_statistics(1000, &[900, 1100], 900_000),
        WindowStatistics { z_score: 0, lower_bound: 871, upper_bound: 1128 }
    );
    assert_eq!(
        window_statistics(1000, &[900, 1100], 500_000),
        WindowStatistics { z_score: 0, lower_bound: 804, upper_bound: 1196 }
    );
    // Mean 500, standard deviation 500: the lower bound is negative.
    assert_eq!(
        window_statistics(7, &[0, 1000], 990_000),
        WindowStatistics { z_score: -986, lower_bound: -663, upper_bound: 1663 }
    );
    // Neither root is whole.
    assert_eq!(
        window_statistics(5, &[1, 2, 4], CONFIDENCE),
        WindowStatistics { z_score: 2138, lower_bound: 0, upper_bound: 4 }
    );
    // A history that does not vary.
    assert_eq!(
        window_statistics(2_000_000, &[1_000_000; 8], CONFIDENCE),
        WindowStatistics { z_score: 0, lower_bound: 1_000_000, upper_bound: 1_000_000 }
    );
}
