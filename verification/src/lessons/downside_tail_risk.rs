//! Chebyshev's inequality as a bound on extreme downside: whatever the
//! distribution, P(|X - mean| >= k) <= variance / k^2.

use crate::decimal::{
    dec_checked_add, dec_checked_div, dec_checked_mul, dec_checked_powu, dec_checked_sub,
    decimal_checked_add, decimal_checked_div, decimal_checked_mul, decimal_checked_powu,
    decimal_checked_sub, pow10, common_scale, exact_difference_fits, exact_sum, exact_sum_fits,
    lemma_exact_sum_units, lemma_pow10_add, lemma_units_zero, mantissa_at, Dec, MAX_MANTISSA, MAX_SCALE,
};
use vstd::prelude::*;

verus! {

/// `variance / distance^2`.
pub open spec fn chebyshev_spec(distance_from_mean: Dec, variance: Dec) -> Option<Dec> {
    match decimal_checked_powu(distance_from_mean, 2) {
        Some(square) => decimal_checked_div(variance, square),
        None => None,
    }
}

/// The most probability that can lie at `distance_from_mean` or further from
/// the mean; never negative for a variance that is not.
pub fn chebyshev_max_probability(distance_from_mean: Dec, variance: Dec) -> (r: Option<Dec>)
    requires
        distance_from_mean.wf(),
        variance.wf(),
    ensures
        r == chebyshev_spec(distance_from_mean, variance),
        r matches Some(p) ==> p.wf(),
        variance.mantissa >= 0 ==> (r matches Some(p) ==> p.mantissa >= 0),
{
    match dec_checked_powu(distance_from_mean, 2) {
        Some(square) => dec_checked_div(variance, square),
        None => None,
    }
}

/// 3.5.
pub open spec fn three_and_a_half() -> Dec {
    Dec { mantissa: 35, scale: 1 }
}

/// The distance from the mean of the cutoff 3.5 standard deviations below it.
pub open spec fn downside_distance_spec(standard_deviation: Dec, mean: Dec) -> Option<Dec> {
    let negated = Dec { mantissa: (-standard_deviation.mantissa) as i128, scale: standard_deviation.scale };
    match decimal_checked_mul(negated, three_and_a_half()) {
        Some(signed_downside_deviation) => match decimal_checked_add(mean, signed_downside_deviation) {
            Some(downside_return_cutoff) => decimal_checked_sub(mean, downside_return_cutoff),
            None => None,
        },
        None => None,
    }
}

pub open spec fn beyond_3_5_spec(standard_deviation: Dec, mean: Dec) -> Option<Dec> {
    match (downside_distance_spec(standard_deviation, mean), decimal_checked_powu(standard_deviation, 2)) {
        (Some(distance), Some(variance)) => chebyshev_spec(distance, variance),
        _ => None,
    }
}

/// The signed deviation `-standard_deviation * 3.5`, exact: `-35` times the
/// mantissa at one more decimal place.
pub open spec fn signed_deviation(standard_deviation: Dec) -> Dec {
    Dec { mantissa: (-35 * standard_deviation.mantissa) as i128, scale: (standard_deviation.scale + 1) as u32 }
}

/// The distance 3.5 standard deviations make, at one more decimal place.
pub open spec fn three_and_a_half_deviations(standard_deviation: Dec) -> Dec {
    Dec { mantissa: (35 * standard_deviation.mantissa) as i128, scale: (standard_deviation.scale + 1) as u32 }
}

/// The scale at which the cutoff is formed: that of the mean or of the
/// signed deviation, whichever is larger.
pub open spec fn cutoff_scale(standard_deviation: Dec, mean: Dec) -> nat {
    common_scale(mean, signed_deviation(standard_deviation))
}

/// The mantissa of 3.5 standard deviations at the cutoff's scale.
pub open spec fn deviations_mantissa_at_cutoff_scale(standard_deviation: Dec, mean: Dec) -> int {
    35 * standard_deviation.mantissa * pow10(
        (cutoff_scale(standard_deviation, mean) - standard_deviation.scale - 1) as nat,
    )
}

/// 3.5 standard deviations written at the cutoff's scale.
pub open spec fn deviations_at_cutoff_scale(standard_deviation: Dec, mean: Dec) -> Dec {
    Dec {
        mantissa: deviations_mantissa_at_cutoff_scale(standard_deviation, mean) as i128,
        scale: cutoff_scale(standard_deviation, mean) as u32,
    }
}

/// Where the arithmetic of the cutoff is exact: a non-zero standard
/// deviation whose product with 3.5 fits at one more decimal place, and a
/// mean that is zero, or whose sum with that product fits at the larger of
/// the two scales, as does the product at that scale.
pub open spec fn exact_cutoff_domain(standard_deviation: Dec, mean: Dec) -> bool {
    let product = 35 * standard_deviation.mantissa;
    &&& standard_deviation.mantissa != 0
    &&& -MAX_MANTISSA <= product <= MAX_MANTISSA
    &&& standard_deviation.scale + 1 <= MAX_SCALE
    &&& mean.mantissa != 0 ==> {
        &&& exact_sum_fits(mean, signed_deviation(standard_deviation))
        &&& -MAX_MANTISSA <= deviations_mantissa_at_cutoff_scale(standard_deviation, mean) <= MAX_MANTISSA
    }
}

/// The distance from the mean to the cutoff where the cutoff is exact: 3.5
/// standard deviations at one more decimal place for a zero mean; the mean
/// itself where the cutoff is zero; otherwise 3.5 standard deviations at
/// the cutoff's scale.
pub open spec fn exact_downside_distance(standard_deviation: Dec, mean: Dec) -> Dec {
    if mean.mantissa == 0 {
        three_and_a_half_deviations(standard_deviation)
    } else if exact_sum(mean, signed_deviation(standard_deviation)).mantissa == 0 {
        mean
    } else {
        deviations_at_cutoff_scale(standard_deviation, mean)
    }
}

/// Wherever the cutoff is exact, its distance from the mean is 3.5 standard
/// deviations in value, whatever the mean; and it is 3.5 standard deviations
/// in representation too (so that the bound is the same decimal) for a zero
/// mean and for a non-zero cutoff whose mean has at most one more decimal
/// place than the standard deviation.
pub proof fn lemma_downside_distance(standard_deviation: Dec, mean: Dec)
    requires
        standard_deviation.wf(),
        mean.wf(),
        exact_cutoff_domain(standard_deviation, mean),
    ensures
        exact_downside_distance(standard_deviation, mean).units() * 10 == 35 * standard_deviation.units(),
        (mean.mantissa == 0 || (mean.scale <= standard_deviation.scale + 1 && exact_sum(
            mean,
            signed_deviation(standard_deviation),
        ).mantissa != 0)) ==> exact_downside_distance(standard_deviation, mean) == three_and_a_half_deviations(
            standard_deviation,
        ),
{
    let sd = standard_deviation;
    let t = signed_deviation(sd);
    let s = cutoff_scale(sd, mean);
    let k = (s - sd.scale - 1) as nat;
    let top = (MAX_SCALE - s) as nat;
    let low = (MAX_SCALE - sd.scale - 1) as nat;
    lemma_pow10_add(k, top);
    assert(k + top == low);
    lemma_pow10_add(1, low);
    assert(pow10(1) == 10 * pow10(0));
    assert((MAX_SCALE - sd.scale) as nat == 1 + low);
    let pk = pow10(k);
    let ptop = pow10(top);
    let plow = pow10(low);
    let m = sd.mantissa as int;
    assert(three_and_a_half_deviations(sd).units() == (35 * m) * plow);
    assert(sd.units() == m * (10 * plow));
    assert((35 * m) * plow * 10 == 35 * (m * (10 * plow))) by (nonlinear_arith);
    let d = deviations_at_cutoff_scale(sd, mean);
    if mean.mantissa != 0 {
        assert(d.mantissa == 35 * m * pk);
        assert(d.units() == (35 * m * pk) * ptop);
        assert((35 * m * pk) * ptop == (35 * m) * plow) by (nonlinear_arith)
            requires
                plow == pk * ptop,
        ;
        lemma_exact_sum_units(mean, t);
        let c = exact_sum(mean, t);
        if c.mantissa == 0 {
            lemma_units_zero(c);
            assert(t.units() == (-35 * m) * plow);
            assert((-35 * m) * plow == -((35 * m) * plow)) by (nonlinear_arith);
        }
        if mean.scale <= sd.scale + 1 {
            assert(s == sd.scale + 1);
            assert(k == 0);
            assert(pk == 1);
            assert(35 * m * pk == 35 * m);
        }
    }
}

/// The Chebyshev bound for a return 3.5 standard deviations below the mean:
/// the cutoff is a return, the bound uses its distance from the mean.  Where
/// the cutoff's arithmetic is exact, the bound is that of the exact distance
/// (3.5 standard deviations in value, see `lemma_downside_distance`).
pub fn chebyshev_max_probability_beyond_3_5_standard_deviations(
    standard_deviation: Dec,
    mean: Dec,
) -> (r: Option<Dec>)
    requires
        standard_deviation.wf(),
        mean.wf(),
    ensures
        r == beyond_3_5_spec(standard_deviation, mean),
        r matches Some(p) ==> p.wf() && p.mantissa >= 0,
        exact_cutoff_domain(standard_deviation, mean) ==> r == match decimal_checked_powu(standard_deviation, 2) {
            Some(variance) => chebyshev_spec(exact_downside_distance(standard_deviation, mean), variance),
            None => None,
        },
{
    let ghost domain = exact_cutoff_domain(standard_deviation, mean);
    let negated = standard_deviation.neg();
    let three_and_a_half = Dec::new(35, 1);
    proof {
        if domain {
            assert(negated.mantissa * three_and_a_half.mantissa == -35 * standard_deviation.mantissa) by (nonlinear_arith)
                requires
                    negated.mantissa == -standard_deviation.mantissa,
                    three_and_a_half.mantissa == 35,
            ;
        }
    }
    let signed_downside_deviation = match dec_checked_mul(negated, three_and_a_half) {
        Some(d) => d,
        None => return None,
    };
    proof {
        if domain {
            assert(signed_downside_deviation == signed_deviation(standard_deviation));
            assert(signed_downside_deviation.mantissa != 0);
            if mean.mantissa != 0 {
                assert(exact_sum_fits(mean, signed_downside_deviation));
            }
        }
    }
    let downside_return_cutoff = match dec_checked_add(mean, signed_downside_deviation) {
        Some(c) => c,
        None => return None,
    };
    proof {
        if domain && mean.mantissa != 0 {
            assert(downside_return_cutoff == exact_sum(mean, signed_deviation(standard_deviation)));
        }
        if domain {
            let sd = standard_deviation;
            let t = signed_deviation(sd);
            if mean.mantissa != 0 && downside_return_cutoff.mantissa != 0 {
                let s = cutoff_scale(sd, mean);
                let k = (s - sd.scale - 1) as nat;
                assert(pow10(0) == 1);
                assert(downside_return_cutoff.scale == s);
                assert(common_scale(mean, downside_return_cutoff) == s);
                assert(mantissa_at(downside_return_cutoff, s) == downside_return_cutoff.mantissa) by (nonlinear_arith)
                    requires
                        mantissa_at(downside_return_cutoff, s) == downside_return_cutoff.mantissa * pow10(0),
                        pow10(0) == 1,
                ;
                assert(mantissa_at(t, s) == (-35 * sd.mantissa) * pow10(k));
                assert(mantissa_at(mean, s) - mantissa_at(downside_return_cutoff, s) == 35 * sd.mantissa * pow10(k))
                    by (nonlinear_arith)
                    requires
                        downside_return_cutoff.mantissa == mantissa_at(mean, s) + mantissa_at(t, s),
                        mantissa_at(downside_return_cutoff, s) == downside_return_cutoff.mantissa,
                        mantissa_at(t, s) == (-35 * sd.mantissa) * pow10(k),
                ;
                assert(exact_difference_fits(mean, downside_return_cutoff));
            }
        }
    }
    let distance_from_mean = match dec_checked_sub(mean, downside_return_cutoff) {
        Some(d) => d,
        None => return None,
    };
    proof {
        if domain {
            if mean.mantissa == 0 {
                assert(distance_from_mean == three_and_a_half_deviations(standard_deviation));
            } else if downside_return_cutoff.mantissa != 0 {
                assert(distance_from_mean == deviations_at_cutoff_scale(standard_deviation, mean));
            }
        }
    }
    // The cutoff is a return value; Chebyshev uses its distance from the mean.
    match dec_checked_powu(standard_deviation, 2) {
        Some(variance) => chebyshev_max_probability(distance_from_mean, variance),
        None => None,
    }
}

/// The illustrative bound, in percent, for a standard deviation of 4 around a
/// mean of 25: the cutoff 11.0 is exact, so the bound is that of the
/// distance 14.0 (3.5 times 4) over the square of 4, times 100.
pub open spec fn illustrative_bound_spec() -> Option<Dec> {
    match decimal_checked_powu(Dec { mantissa: 4, scale: 0 }, 2) {
        Some(variance) => match chebyshev_spec(Dec { mantissa: 140, scale: 1 }, variance) {
            Some(bound) => decimal_checked_mul(bound, Dec { mantissa: 100, scale: 0 }),
            None => None,
        },
        None => None,
    }
}

pub fn run() -> (r: Option<Dec>)
    ensures
        r == illustrative_bound_spec(),
{
    downside_extreme_tail_risk()
}

fn downside_extreme_tail_risk() -> (r: Option<Dec>)
    ensures
        r == illustrative_bound_spec(),
{
    let standard_deviation = Dec::new(4, 0);
    let mean = Dec::new(25, 0);
    proof {
        assert(pow10(0) == 1);
        assert(pow10(1) == 10) by {
            assert(pow10(1) == 10 * pow10(0));
        }
        let t = signed_deviation(standard_deviation);
        assert(t == Dec { mantissa: -140i128, scale: 1 });
        assert(common_scale(mean, t) == 1);
        assert(mantissa_at(mean, 1) == 250) by (nonlinear_arith)
            requires
                mantissa_at(mean, 1) == 25 * pow10(1),
                pow10(1) == 10,
        ;
        assert(mantissa_at(t, 1) == -140) by (nonlinear_arith)
            requires
                mantissa_at(t, 1) == -140 * pow10(0),
                pow10(0) == 1,
        ;
        assert(exact_sum_fits(mean, t));
        assert(exact_sum(mean, t).mantissa == 110);
        assert(deviations_at_cutoff_scale(standard_deviation, mean).mantissa == 140) by (nonlinear_arith)
            requires
                deviations_at_cutoff_scale(standard_deviation, mean).mantissa == 35 * 4 * pow10(0),
                pow10(0) == 1,
        ;
        assert(exact_cutoff_domain(standard_deviation, mean));
        assert(exact_downside_distance(standard_deviation, mean) == Dec { mantissa: 140, scale: 1 });
    }
    let illustrative_upper_bound = chebyshev_max_probability_beyond_3_5_standard_deviations(
        standard_deviation,
        mean,
    );
    match illustrative_upper_bound {
        Some(bound) => dec_checked_mul(bound, Dec::new(100, 0)),
        None => None,
    }
}

} // verus!
