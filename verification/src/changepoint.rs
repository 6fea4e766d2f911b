//! Probability that a new observation marks a change point.
//!
//! The predictive likelihood of the observation under the historical series
//! is blended with the hazard rate, the prior probability of a change at any
//! one observation. Likelihood, hazard rate and the resulting probability
//! are fractions counted in millionths: `1_000_000` stands for one.

use vstd::prelude::*;

verus! {

/// The fraction one, in millionths.
pub const ONE: u64 = 1_000_000;

/// How unlikely the observation is: one less the likelihood, where the
/// likelihood is capped at one.
pub open spec fn unlikelihood(likelihood: nat) -> nat {
    if likelihood >= ONE {
        0
    } else {
        (ONE - likelihood) as nat
    }
}

/// `0.7 u + 0.3 h + 0.5 u h` for the unlikelihood `u` and the hazard rate
/// `h`, rounded down to a millionth.
pub open spec fn blend(u: nat, h: nat) -> nat {
    ((7 * u * ONE + 3 * h * ONE + 5 * u * h) / (10 * ONE)) as nat
}

/// The change point probability: zero without history, else the blend of
/// unlikelihood and hazard rate, capped at one.
pub open spec fn change_probability(likelihood: nat, history_len: nat, hazard_rate: nat) -> nat {
    if history_len == 0 {
        0
    } else if blend(unlikelihood(likelihood), hazard_rate) >= ONE {
        ONE as nat
    } else {
        blend(unlikelihood(likelihood), hazard_rate)
    }
}

/// Detector of change points with a fixed hazard rate.
pub struct BayesianCPD {
    hazard_rate: u64,
}

impl BayesianCPD {
    /// The prior probability of a change at any one observation, in
    /// millionths.
    pub closed spec fn hazard(&self) -> u64 {
        self.hazard_rate
    }

    /// A detector with the given hazard rate in millionths; `100_000` expects
    /// a change every ten observations.
    pub fn new(hazard_rate: u64) -> (detector: Self)
        ensures
            detector.hazard() == hazard_rate,
    {
        BayesianCPD { hazard_rate }
    }

    /// The probability, in millionths, that the observation marks a change
    /// point.
    ///
    /// `likelihood` is the predictive likelihood of the observation under the
    /// `history_len` earlier observations, in millionths. The detector itself
    /// is left as it was.
    pub fn update(&mut self, likelihood: u64, history_len: usize) -> (probability: u64)
        ensures
            final(self).hazard() == old(self).hazard(),
            probability == change_probability(
                likelihood as nat,
                history_len as nat,
                old(self).hazard() as nat,
            ),
            probability <= ONE,
    {
        if history_len == 0 {
            return 0;
        }
        let capped: u64 = if likelihood >= ONE {
            ONE
        } else {
            likelihood
        };
        let u: u128 = (ONE - capped) as u128;
        let h: u128 = self.hazard_rate as u128;
        let one: u128 = ONE as u128;
        assert(u * h <= 1_000_000 * 0xffff_ffff_ffff_ffff) by (nonlinear_arith)
            requires
                u <= 1_000_000,
                h <= 0xffff_ffff_ffff_ffff,
        ;
        let blended: u128 = (7 * u * one + 3 * h * one + 5 * (u * h)) / (10 * one);
        assert(5 * (u * h) == 5 * u * h) by (nonlinear_arith);
        if blended >= one {
            ONE
        } else {
            blended as u64
        }
    }
}

/// The probability, in millionths, that an observation with the given
/// predictive likelihood marks a change point.
pub fn bayesian_change_point_probability(likelihood: u64, history_len: usize, hazard_rate: u64) -> (probability:
    u64)
    ensures
        probability == change_probability(
            likelihood as nat,
            history_len as nat,
            hazard_rate as nat,
        ),
        probability <= ONE,
{
    let mut detector = BayesianCPD::new(hazard_rate);
    detector.update(likelihood, history_len)
}

/// Without history the probability is zero, whatever the observation and the
/// hazard rate.
pub proof fn lemma_no_history_no_change(likelihood: nat, hazard_rate: nat)
    ensures
        change_probability(likelihood, 0, hazard_rate) == 0,
{
}

/// For a fixed observation and history a higher hazard rate never gives a
/// lower probability.
pub proof fn lemma_hazard_monotonic(likelihood: nat, history_len: nat, low: nat, high: nat)
    requires
        low <= high,
    ensures
        change_probability(likelihood, history_len, low) <= change_probability(
            likelihood,
            history_len,
            high,
        ),
{
    let u = unlikelihood(likelihood);
    assert(7 * u * ONE + 3 * low * ONE + 5 * u * low <= 7 * u * ONE + 3 * high * ONE + 5 * u
        * high) by (nonlinear_arith)
        requires
            low <= high,
            u >= 0,
    ;
}

/// For a fixed hazard rate and history a less likely observation never gives
/// a lower probability.
pub proof fn lemma_likelihood_antitone(less: nat, more: nat, history_len: nat, hazard_rate: nat)
    requires
        less <= more,
    ensures
        change_probability(more, history_len, hazard_rate) <= change_probability(
            less,
            history_len,
            hazard_rate,
        ),
{
    let u_less = unlikelihood(less);
    let u_more = unlikelihood(more);
    let h = hazard_rate;
    assert(7 * u_more * ONE + 3 * h * ONE + 5 * u_more * h <= 7 * u_less * ONE + 3 * h * ONE + 5
        * u_less * h) by (nonlinear_arith)
        requires
            u_more <= u_less,
            h >= 0,
    ;
}

/// Whether the means are all the same.
pub open spec fn all_equal(means: Seq<u128>) -> bool {
    forall|i: int| 0 <= i < means.len() ==> #[trigger] means[i] == means[0]
}

/// `ONE / q`, rounded to the nearest millionth.
pub open spec fn nearest_share(q: nat) -> nat
    recommends
        q > 0,
{
    ((2 * ONE + q) as int / (2 * q) as int) as nat
}

/// The predictive likelihood of the current mean, in millionths, for the
/// histories under which it needs no powers of fractions.
///
/// Under no history it is one half. Under one historical mean the variance
/// counts as one, and the likelihood is `1 / (1 + d d)` for the distance `d`
/// of the current mean from it. Under two or more historical means that are
/// all the same it is that of a normal distribution whose standard
/// deviation is a hundred-thousandth of a nanosecond: one on the historical
/// mean, and less than any millionth a whole nanosecond or more away from
/// it.
pub open spec fn plain_likelihood(current: u128, means: Seq<u128>) -> Option<nat> {
    if means.len() == 0 {
        Some((ONE / 2) as nat)
    } else if means.len() == 1 {
        let d = if current >= means[0] {
            current - means[0]
        } else {
            means[0] - current
        };
        Some(nearest_share((1 + d * d) as nat))
    } else if all_equal(means) {
        Some(
            if current == means[0] {
                ONE as nat
            } else {
                0
            },
        )
    } else {
        None
    }
}

/// Whether the means are all the same.
pub fn means_all_equal(means: &[u128]) -> (equal: bool)
    ensures
        equal == all_equal(means@),
{
    let mut i: usize = 0;
    while i < means.len()
        invariant
            i <= means@.len(),
            forall|k: int| 0 <= k < i ==> #[trigger] means@[k] == means@[0],
        decreases means@.len() - i,
    {
        if means[i] != means[0] {
            return false;
        }
        i += 1;
    }
    true
}

/// The predictive likelihood of the current mean, in millionths, where the
/// history is empty, holds one mean, or does not vary; `None` for a history
/// that varies.
pub fn likelihood_without_spread(current_mean: u128, historical_means: &[u128]) -> (likelihood:
    Option<u64>)
    ensures
        likelihood is Some <==> plain_likelihood(current_mean, historical_means@) is Some,
        likelihood is Some ==> likelihood->Some_0 == plain_likelihood(
            current_mean,
            historical_means@,
        )->Some_0,
        likelihood is Some ==> likelihood->Some_0 <= ONE,
{
    if historical_means.len() == 0 {
        return Some(ONE / 2);
    }
    let first = historical_means[0];
    if historical_means.len() == 1 {
        let d: u128 = if current_mean >= first {
            current_mean - first
        } else {
            first - current_mean
        };
        if d >= 2000 {
            assert(nearest_share((1 + d * d) as nat) == 0) by (nonlinear_arith)
                requires
                    d >= 2000,
                    nearest_share((1 + d * d) as nat) == (2 * 1_000_000 + (1 + d * d)) / (2 * (1 + d
                        * d)),
            ;
            return Some(0);
        }
        assert(d * d <= 1999 * 1999) by (nonlinear_arith)
            requires
                d <= 1999,
        ;
        let q: u128 = 1 + d * d;
        let share: u128 = (2 * (ONE as u128) + q) / (2 * q);
        assert(share <= 1_000_000) by (nonlinear_arith)
            requires
                q >= 1,
                share == (2 * 1_000_000 + q) / (2 * q),
        ;
        return Some(share as u64);
    }
    if means_all_equal(historical_means) {
        if current_mean == first {
            Some(ONE)
        } else {
            Some(0)
        }
    } else {
        None
    }
}

/// Against two or more historical means that are all the same, a current
/// mean away from them is a change point with a probability that exceeds
/// that of a current mean on them by seven tenths or more, whatever the
/// hazard rate up to one.
pub proof fn lemma_far_value_more_probable(
    matching: u128,
    far: u128,
    means: Seq<u128>,
    hazard_rate: nat,
)
    requires
        means.len() >= 2,
        all_equal(means),
        matching == means[0],
        far != means[0],
        hazard_rate <= ONE,
    ensures
        plain_likelihood(matching, means) == Some(ONE as nat),
        plain_likelihood(far, means) == Some(0nat),
        change_probability(0, means.len(), hazard_rate) >= change_probability(
            ONE as nat,
            means.len(),
            hazard_rate,
        ) + 700_000,
{
    let h = hazard_rate;
    let on = blend(0, h);
    let off = blend(1_000_000, h);
    assert(on <= 300_000) by (nonlinear_arith)
        requires
            h <= 1_000_000,
            on == (7 * 0 * 1_000_000 + 3 * h * 1_000_000 + 5 * 0 * h) / (10 * 1_000_000),
    ;
    assert(off >= on + 700_000) by (nonlinear_arith)
        requires
            h <= 1_000_000,
            on == (7 * 0 * 1_000_000 + 3 * h * 1_000_000 + 5 * 0 * h) / (10 * 1_000_000),
            off == (7 * 1_000_000 * 1_000_000 + 3 * h * 1_000_000 + 5 * 1_000_000 * h) / (10
                * 1_000_000),
    ;
}

} // verus!
