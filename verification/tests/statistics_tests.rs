use simplebench::statistics::{
    calculate_percentiles, calculate_statistics, checked_squared_deviations, checked_total,
    integer_sqrt, mean, order_statistics, standard_deviation, try_calculate_statistics, variance,
    OrderStatistics,
};
use simplebench::regression::{confidence_interval, z_score, MAX_INTERVAL_TERM};

const MS: u128 = 1_000_000;

#[test]
fn test_calculate_percentiles() {
    let timings: Vec<u128> = vec![
        1 * MS,
        2 * MS,
        3 * MS,
        4 * MS,
        5 * MS,
        6 * MS,
        7 * MS,
        8 * MS,
        9 * MS,
        10 * MS,
    ];

    let percentiles = calculate_percentiles(&timings);

    assert_eq!(percentiles.p50, 6 * MS);
    assert_eq!(percentiles.p90, 10 * MS);
    assert_eq!(percentiles.p99, 10 * MS);
    assert_eq!(percentiles.mean, 5_500_000);
}

#[test]
fn test_calculate_percentiles_single_element() {
    let timings: Vec<u128> = vec![5 * MS];
    let percentiles = calculate_percentiles(&timings);

    assert_eq!(percentiles.p50, 5 * MS);
    assert_eq!(percentiles.p90, 5 * MS);
    assert_eq!(percentiles.p99, 5 * MS);
    assert_eq!(percentiles.mean, 5 * MS);
}

#[test]
fn percentiles_do_not_depend_on_the_order_of_the_timings() {
    let timings: Vec<u128> = vec![9, 1, 8, 2, 7, 3, 6, 4, 5, 10];
    let percentiles = calculate_percentiles(&timings);
    assert_eq!(percentiles.p50, 6);
    assert_eq!(percentiles.p90, 10);
    assert_eq!(percentiles.p99, 10);
    assert_eq!(percentiles.mean, 5);
}

#[test]
fn percentiles_of_a_hundred_samples() {
    let timings: Vec<u128> = (1..=100).rev().collect();
    let percentiles = calculate_percentiles(&timings);
    assert_eq!(percentiles.p50, 51);
    assert_eq!(percentiles.p90, 91);
    assert_eq!(percentiles.p99, 100);
    assert_eq!(percentiles.mean, 50);
}

#[test]
fn statistics_of_known_samples() {
    let samples: Vec<u128> = vec![9, 4, 2, 5, 4, 7, 4, 5];
    let stats = calculate_statistics(&samples);
    assert_eq!(stats.sample_count, 8);
    assert_eq!(stats.mean, 5);
    assert_eq!(stats.variance, 4);
    assert_eq!(stats.std_dev, 2);
    assert_eq!(stats.median, 5);
    assert_eq!(stats.p90, 9);
    assert_eq!(stats.p99, 9);
    assert_eq!(stats.min, 2);
    assert_eq!(stats.max, 9);
}

#[test]
fn statistics_round_down() {
    let samples: Vec<u128> = vec![1, 2, 4];
    let stats = calculate_statistics(&samples);
    // Sum 7, mean 2; squared deviations 1 + 0 + 4 = 5, variance 1.
    assert_eq!(stats.mean, 2);
    assert_eq!(stats.variance, 1);
    assert_eq!(stats.std_dev, 1);
    assert_eq!(stats.median, 2);
    assert_eq!(stats.min, 1);
    assert_eq!(stats.max, 4);
}

#[test]
fn statistics_are_ordered() {
    let sets: Vec<Vec<u128>> = vec![
        vec![5],
        vec![3, 1],
        vec![10, 10, 10],
        vec![100, 1, 50, 7, 7, 93, 2],
        (0..250).map(|i| (i * 7919) % 1000).collect(),
    ];
    for samples in sets {
        let stats = calculate_statistics(&samples);
        assert!(stats.median <= stats.p90);
        assert!(stats.p90 <= stats.p99);
        assert!(stats.min <= stats.median);
        assert!(stats.median <= stats.max);
        assert_eq!(stats.min, *samples.iter().min().unwrap());
        assert_eq!(stats.max, *samples.iter().max().unwrap());
        assert_eq!(stats.sample_count, samples.len());
    }
}

#[test]
fn statistics_of_no_samples_are_zero() {
    let samples: Vec<u128> = vec![];
    let stats = calculate_statistics(&samples);
    assert_eq!(stats.sample_count, 0);
    assert_eq!(stats.mean, 0);
    assert_eq!(stats.median, 0);
    assert_eq!(stats.p90, 0);
    assert_eq!(stats.p99, 0);
    assert_eq!(stats.std_dev, 0);
    assert_eq!(stats.variance, 0);
    assert_eq!(stats.min, 0);
    assert_eq!(stats.max, 0);
}

#[test]
fn statistics_of_one_sample() {
    let samples: Vec<u128> = vec![42];
    let stats = calculate_statistics(&samples);
    assert_eq!(stats.sample_count, 1);
    assert_eq!(stats.mean, 42);
    assert_eq!(stats.median, 42);
    assert_eq!(stats.p90, 42);
    assert_eq!(stats.p99, 42);
    assert_eq!(stats.variance, 0);
    assert_eq!(stats.std_dev, 0);
    assert_eq!(stats.min, 42);
    assert_eq!(stats.max, 42);
}

#[test]
fn statistics_that_do_not_fit_are_refused() {
    let samples: Vec<u128> = vec![u128::MAX, 1];
    assert!(try_calculate_statistics(&samples).is_none());
    let spread: Vec<u128> = vec![0, u128::MAX / 2];
    assert!(try_calculate_statistics(&spread).is_none());
    let fine: Vec<u128> = vec![1, 2, 3];
    let stats = try_calculate_statistics(&fine).unwrap();
    assert_eq!(stats.mean, 2);
    assert_eq!(stats.sample_count, 3);
}

#[test]
fn checked_sums() {
    let samples: Vec<u128> = vec![1, 2, 3, 4];
    assert_eq!(checked_total(&samples), Some(10));
    assert_eq!(checked_squared_deviations(&samples, 2), Some(1 + 0 + 1 + 4));
    let empty: Vec<u128> = vec![];
    assert_eq!(checked_total(&empty), Some(0));
    assert_eq!(checked_squared_deviations(&empty, 7), Some(0));
    let large: Vec<u128> = vec![u128::MAX, 1];
    assert_eq!(checked_total(&large), None);
    let far: Vec<u128> = vec![u128::MAX];
    assert_eq!(checked_squared_deviations(&far, 0), None);
}

#[test]
fn integer_square_roots() {
    assert_eq!(integer_sqrt(0), 0);
    assert_eq!(integer_sqrt(1), 1);
    assert_eq!(integer_sqrt(3), 1);
    assert_eq!(integer_sqrt(4), 2);
    assert_eq!(integer_sqrt(24), 4);
    assert_eq!(integer_sqrt(25), 5);
    assert_eq!(integer_sqrt(1_000_000_000_000), 1_000_000);
    assert_eq!(integer_sqrt(u128::MAX), u64::MAX as u128);
}

#[test]
fn order_statistics_of_any_samples() {
    assert_eq!(
        order_statistics(&[9, 4, 2, 5, 4, 7, 4, 5]),
        OrderStatistics { median: 5, p90: 9, p99: 9, min: 2, max: 9 }
    );
    assert_eq!(
        order_statistics(&[42]),
        OrderStatistics { median: 42, p90: 42, p99: 42, min: 42, max: 42 }
    );
    // Samples whose sum exceeds 128 bits.
    let huge = [u128::MAX, 1, u128::MAX - 1, 0, u128::MAX];
    assert!(try_calculate_statistics(&huge).is_none());
    let order = order_statistics(&huge);
    assert_eq!(
        order,
        OrderStatistics {
            median: u128::MAX - 1,
            p90: u128::MAX,
            p99: u128::MAX,
            min: 0,
            max: u128::MAX
        }
    );
    assert!(order.min <= order.median && order.median <= order.p90);
    assert!(order.p90 <= order.p99 && order.p99 <= order.max);
}

#[test]
fn test_mean() {
    let values: Vec<u128> = vec![1, 2, 3, 4, 5];
    assert_eq!(mean(&values), Some(3));

    let empty: Vec<u128> = vec![];
    assert_eq!(mean(&empty), Some(0));
}

#[test]
fn test_variance() {
    let values: Vec<u128> = vec![2, 4, 4, 4, 5, 5, 7, 9];
    let var = variance(&values);
    assert_eq!(var, Some(4));
}

#[test]
fn test_standard_deviation() {
    let values: Vec<u128> = vec![2, 4, 4, 4, 5, 5, 7, 9];
    let std = standard_deviation(&values);
    assert_eq!(std, Some(2));
}

#[test]
fn test_z_score() {
    let z = z_score(10, 5, 2);
    assert_eq!(z, Some(2500));

    let z_zero = z_score(10, 5, 0);
    assert_eq!(z_zero, Some(0));
}

#[test]
fn test_confidence_interval() {
    let (lower, upper) = confidence_interval(100, 10, 950_000).unwrap();
    // 83.55 and 116.45, each rounded down.
    assert_eq!(lower, 83);
    assert_eq!(upper, 116);
}

#[test]
fn means_and_variances_at_their_limits() {
    assert_eq!(mean(&[7]), Some(7));
    assert_eq!(mean(&[1, 2]), Some(1));
    assert_eq!(mean(&[u128::MAX]), Some(u128::MAX));
    assert_eq!(mean(&[u128::MAX, 1]), None);
    assert_eq!(variance(&[]), Some(0));
    assert_eq!(variance(&[9]), Some(0));
    assert_eq!(variance(&[1, 2, 4]), Some(1));
    assert_eq!(variance(&[0, u128::MAX / 2]), None);
    assert_eq!(standard_deviation(&[]), Some(0));
    assert_eq!(standard_deviation(&[0, 10]), Some(5));
    assert_eq!(standard_deviation(&[0, 0, 0, 3]), Some(1));
    assert_eq!(standard_deviation(&[u128::MAX, 1]), None);
}

#[test]
fn z_scores_and_intervals_at_their_limits() {
    // Zero spread gives zero, whatever value and mean.
    for (value, mean) in [(0, 0), (10, 5), (5, 10), (u128::MAX, 0), (0, u128::MAX)] {
        assert_eq!(z_score(value, mean, 0), Some(0));
    }
    assert_eq!(z_score(5, 10, 2), Some(-2500));
    assert_eq!(z_score(10, 5, 3), Some(1666));
    assert_eq!(z_score(5, 10, 3), Some(-1666));
    assert_eq!(z_score(7, 7, 3), Some(0));
    let most: u128 = (i128::MAX as u128) / 1000;
    assert_eq!(z_score(most, 0, 1), Some((most * 1000) as i128));
    assert_eq!(z_score(most + 1, 0, 1), None);
    assert_eq!(z_score(0, most + 1, u128::MAX), None);
    assert_eq!(z_score(u128::MAX, 0, 1), None);

    assert_eq!(confidence_interval(100, 10, 900_000), Some((87, 112)));
    assert_eq!(confidence_interval(100, 10, 990_000), Some((76, 123)));
    assert_eq!(confidence_interval(100, 10, 500_000), Some((80, 119)));
    assert_eq!(confidence_interval(100, 0, 950_000), Some((100, 100)));
    assert_eq!(confidence_interval(0, 1000, 950_000), Some((-1645, 1645)));
    assert_eq!(confidence_interval(0, 1, 950_000), Some((-2, 1)));
    assert_eq!(
        confidence_interval(MAX_INTERVAL_TERM / 1000, 0, 950_000),
        Some(((MAX_INTERVAL_TERM / 1000) as i128, (MAX_INTERVAL_TERM / 1000) as i128))
    );
    assert_eq!(confidence_interval(MAX_INTERVAL_TERM / 1000 + 1, 0, 950_000), None);
    assert_eq!(confidence_interval(0, MAX_INTERVAL_TERM / 2326 + 1, 950_000), None);
    assert_eq!(confidence_interval(u128::MAX, u128::MAX, 950_000), None);
}
