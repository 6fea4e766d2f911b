//! Integer division that rounds down.

use vstd::arithmetic::div_mod::{lemma_fundamental_div_mod, lemma_fundamental_div_mod_converse};
use vstd::prelude::*;

verus! {

/// Largest magnitude of a numerator that [`floor_div`] takes.
pub const FLOOR_DIV_LIMIT: i128 = 0x4000_0000_0000_0000_0000_0000_0000_0000;

/// The quotient of `numerator` by `divisor`, rounded down.
pub fn floor_div(numerator: i128, divisor: u128) -> (quotient: i128)
    requires
        0 < divisor <= FLOOR_DIV_LIMIT,
        -FLOOR_DIV_LIMIT <= numerator <= FLOOR_DIV_LIMIT,
    ensures
        quotient == numerator as int / divisor as int,
{
    if numerator >= 0 {
        ((numerator as u128) / divisor) as i128
    } else {
        let magnitude: u128 = (-numerator) as u128;
        let quotient: u128 = (magnitude + (divisor - 1)) / divisor;
        proof {
            let d = divisor as int;
            let shifted = (magnitude + (divisor - 1)) as int;
            lemma_fundamental_div_mod(shifted, d);
            let rest = shifted % d;
            assert(numerator as int == (-(quotient as int)) * d + (d - 1 - rest))
                by (nonlinear_arith)
                requires
                    shifted == d * (quotient as int) + rest,
                    shifted == -(numerator as int) + d - 1,
            ;
            lemma_fundamental_div_mod_converse(
                numerator as int,
                d,
                -(quotient as int),
                d - 1 - rest,
            );
        }
        -(quotient as i128)
    }
}

} // verus!
