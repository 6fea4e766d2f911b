use simplebench::changepoint::{
    bayesian_change_point_probability, likelihood_without_spread, means_all_equal, BayesianCPD, ONE,
};

/// Predictive likelihood of `value` under the historical values, in
/// millionths.
fn likelihood(value: f64, historical: &[f64]) -> u64 {
    if historical.is_empty() {
        return 500_000;
    }
    let n = historical.len() as f64;
    let hist_mean = historical.iter().sum::<f64>() / n;
    let variance = if n > 1.0 {
        historical.iter().map(|&x| (x - hist_mean).powi(2)).sum::<f64>() / n
    } else {
        1.0
    };
    let raw = if variance < 1e-10 {
        let stddev = variance.sqrt().max(1e-5);
        let z = ((value - hist_mean) / stddev).abs();
        (-0.5 * z * z).exp()
    } else {
        let df = (n - 1.0).max(1.0);
        let t = (value - hist_mean) / variance.sqrt();
        (1.0 + t * t / df).powf(-(df + 1.0) / 2.0)
    };
    (raw.min(1.0) * 1_000_000.0).round() as u64
}

fn probability(new_value: f64, historical: &[f64], hazard_rate: u64) -> u64 {
    bayesian_change_point_probability(
        likelihood(new_value, historical),
        historical.len(),
        hazard_rate,
    )
}

#[test]
fn test_stable_data_low_change_probability() {
    let historical = vec![1.0, 1.01, 0.99, 1.0, 1.02, 0.98, 1.0, 1.01];
    let new_value = 1.0;
    let prob = probability(new_value, &historical, 100_000);

    assert!(prob < 500_000, "Expected low change probability, got {}", prob);
}

#[test]
fn test_clear_change_point() {
    let historical = vec![1.0, 1.01, 0.99, 1.0, 1.02, 0.98, 1.0, 1.01];
    let new_value = 2.0;
    let prob = probability(new_value, &historical, 100_000);

    assert!(prob > 300_000, "Expected high change probability, got {}", prob);
}

#[test]
fn test_empty_historical() {
    let historical: Vec<f64> = vec![];
    let new_value = 1.0;
    let prob = probability(new_value, &historical, 100_000);

    assert_eq!(prob, 0);
}

#[test]
fn test_gradual_drift() {
    let historical = vec![1.0, 1.05, 1.1, 1.15, 1.2, 1.25, 1.3];
    let new_value = 1.35;
    let prob_gradual = probability(new_value, &historical, 100_000);

    let historical_stable = vec![1.0, 1.0, 1.0, 1.0, 1.0, 1.0, 1.0];
    let new_value_jump = 1.35;
    let prob_sudden = probability(new_value_jump, &historical_stable, 100_000);

    assert!(
        prob_sudden > prob_gradual,
        "Sudden jump ({}) should have higher change probability than gradual drift ({})",
        prob_sudden,
        prob_gradual
    );
}

#[test]
fn test_higher_hazard_rate_increases_change_probability() {
    let historical = vec![1.0, 1.0, 1.0, 1.0, 1.0];
    let new_value = 1.2;

    let prob_low_hazard = probability(new_value, &historical, 50_000);
    let prob_high_hazard = probability(new_value, &historical, 300_000);

    assert!(
        prob_high_hazard > prob_low_hazard,
        "Higher hazard rate ({}) should produce higher change probability than lower hazard rate ({})",
        prob_high_hazard,
        prob_low_hazard
    );
    assert_eq!(prob_low_hazard, 740_000);
    assert_eq!(prob_high_hazard, 940_000);
}

#[test]
fn no_history_gives_no_change_whatever_the_hazard() {
    for hazard in [0, 1, 100_000, 500_000, ONE, 5 * ONE, u64::MAX] {
        for likelihood in [0, 1, 500_000, ONE, 2 * ONE, u64::MAX] {
            assert_eq!(bayesian_change_point_probability(likelihood, 0, hazard), 0);
            let mut detector = BayesianCPD::new(hazard);
            assert_eq!(detector.update(likelihood, 0), 0);
        }
    }
}

#[test]
fn probability_does_not_fall_with_the_hazard_rate() {
    let hazards = [0, 1, 10, 50_000, 100_000, 300_000, 999_999, ONE, 2 * ONE, u64::MAX];
    for likelihood in [0, 1, 250_000, 500_000, 999_999, ONE, 3 * ONE] {
        for history_len in [1, 5, 4096] {
            let mut previous: u64 = 0;
            for hazard in hazards {
                let p = bayesian_change_point_probability(likelihood, history_len, hazard);
                assert!(p >= previous);
                assert!(p <= ONE);
                previous = p;
            }
        }
    }
}

#[test]
fn probability_does_not_rise_with_the_likelihood() {
    let likelihoods = [0, 1, 250_000, 500_000, 999_999, ONE, 3 * ONE, u64::MAX];
    for hazard in [0, 100_000, 900_000] {
        let mut previous: u64 = ONE;
        for likelihood in likelihoods {
            let p = bayesian_change_point_probability(likelihood, 3, hazard);
            assert!(p <= previous);
            previous = p;
        }
    }
}

#[test]
fn far_value_is_more_probable_a_change_than_a_matching_one() {
    let historical = vec![1.0; 8];
    let far = probability(2.0, &historical, 100_000);
    let matching = probability(1.0, &historical, 100_000);
    assert_eq!(far, 780_000);
    assert_eq!(matching, 30_000);
    assert!(far > matching + 500_000);
}

#[test]
fn blend_of_evidence_and_prior() {
    // Unlikelihood 0.5 and hazard 0.2: 0.35 + 0.06 + 0.05.
    assert_eq!(bayesian_change_point_probability(500_000, 4, 200_000), 460_000);
    // Capped at one.
    assert_eq!(bayesian_change_point_probability(0, 4, ONE), ONE);
    // A likelihood above one counts as one.
    assert_eq!(bayesian_change_point_probability(7 * ONE, 4, 100_000), 30_000);
    // Rounded down: unlikelihood 0.000001 and hazard 0.000001.
    assert_eq!(bayesian_change_point_probability(999_999, 1, 1), 1);
    let mut detector = BayesianCPD::new(200_000);
    assert_eq!(detector.update(500_000, 4), 460_000);
    assert_eq!(detector.update(500_000, 4), 460_000);
}

#[test]
fn likelihood_under_a_history_without_spread() {
    assert_eq!(likelihood_without_spread(7, &[]), Some(500_000));
    // One historical mean: 1 / (1 + d d).
    assert_eq!(likelihood_without_spread(1000, &[1000]), Some(1_000_000));
    assert_eq!(likelihood_without_spread(1001, &[1000]), Some(500_000));
    assert_eq!(likelihood_without_spread(998, &[1000]), Some(200_000));
    assert_eq!(likelihood_without_spread(1003, &[1000]), Some(100_000));
    assert_eq!(likelihood_without_spread(2000, &[1000]), Some(1));
    assert_eq!(likelihood_without_spread(2414, &[1000]), Some(1));
    assert_eq!(likelihood_without_spread(2415, &[1000]), Some(0));
    assert_eq!(likelihood_without_spread(u128::MAX, &[0]), Some(0));
    assert_eq!(likelihood_without_spread(0, &[u128::MAX]), Some(0));
    // Means that are all the same.
    assert_eq!(likelihood_without_spread(1000, &[1000; 8]), Some(1_000_000));
    assert_eq!(likelihood_without_spread(1001, &[1000; 8]), Some(0));
    assert_eq!(likelihood_without_spread(999, &[1000, 1000]), Some(0));
    // Means that vary.
    assert_eq!(likelihood_without_spread(1000, &[1000, 1001]), None);
    assert_eq!(likelihood_without_spread(1000, &[1000, 1000, 999]), None);
    assert!(means_all_equal(&[]));
    assert!(means_all_equal(&[5]));
    assert!(means_all_equal(&[5, 5, 5]));
    assert!(!means_all_equal(&[5, 5, 6]));
}

#[test]
fn likelihood_agrees_with_the_densities() {
    for (value, history) in [
        (1.0, vec![1.0; 8]),
        (2.0, vec![1.0; 8]),
        (1000.0, vec![1000.0]),
        (1001.0, vec![1000.0]),
        (1003.0, vec![1000.0]),
        (2500.0, vec![1000.0]),
        (3.0, vec![]),
    ] {
        let means: Vec<u128> = history.iter().map(|&m| m as u128).collect();
        assert_eq!(
            likelihood_without_spread(value as u128, &means),
            Some(likelihood(value, &history)),
            "{} under {:?}",
            value,
            history
        );
    }
}

#[test]
fn far_value_against_a_flat_history() {
    let history: [u128; 8] = [1_000_000; 8];
    let far = likelihood_without_spread(2_000_000, &history).unwrap();
    let matching = likelihood_without_spread(1_000_000, &history).unwrap();
    for hazard in [0, 100_000, 375_000, 500_000, ONE] {
        let p_far = bayesian_change_point_probability(far, history.len(), hazard);
        let p_matching = bayesian_change_point_probability(matching, history.len(), hazard);
        assert!(p_far >= p_matching + 700_000);
    }
    assert_eq!(bayesian_change_point_probability(far, history.len(), 100_000), 780_000);
    assert_eq!(bayesian_change_point_probability(matching, history.len(), 100_000), 30_000);
}
