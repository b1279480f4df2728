//! The sample variance on its own, squaring with `powd`.

use crate::decimal::{
    all_wf, dec_checked_add, dec_checked_div, dec_checked_powd, dec_checked_sub,
    decimal_checked_add, decimal_checked_div, decimal_checked_powd, decimal_checked_sub,
    from_int_spec, lemma_same_value_difference, lemma_units_zero, zero_spec, Dec,
};
use crate::decimal::{exact_add, lemma_exact_add_units, one_spec, pow10, MAX_MANTISSA, MAX_SCALE};
use crate::statistics::{
    constant_sample, copies_fit, exact_square, exact_sub, lemma_exact_square_units, lemma_exact_sub_units,
    lemma_squared_deviations_none_extends, mean_spec, sample_variance_spec, squared_deviation_spec,
    squared_deviation_total, squared_deviations_spec, unit_scale,
};
use vstd::prelude::*;

verus! {

/// `(x - average)` raised to the decimal power 2.
pub open spec fn powd_deviation_spec(x: Dec, average: Dec) -> Option<Dec> {
    match decimal_checked_sub(x, average) {
        Some(d) => decimal_checked_powd(d, from_int_spec(2)),
        None => None,
    }
}

/// The running sum of the squared deviations, left to right, from zero.
pub open spec fn powd_deviations_spec(s: Seq<Dec>, average: Dec) -> Option<Dec>
    decreases s.len(),
{
    if s.len() == 0 {
        Some(zero_spec())
    } else {
        match (powd_deviations_spec(s.drop_last(), average), powd_deviation_spec(s.last(), average)) {
            (Some(t), Some(q)) => decimal_checked_add(t, q),
            _ => None,
        }
    }
}

/// The squared deviations summed and divided by `n - 1`.
pub open spec fn variance_spec(s: Seq<Dec>) -> Option<Dec> {
    match mean_spec(s) {
        Some(average) => match powd_deviations_spec(s, average) {
            Some(t) => decimal_checked_div(t, from_int_spec(s.len() - 1)),
            None => None,
        },
        None => None,
    }
}

/// No deviation from the average is exactly one in value: for every other
/// deviation `powd` squares by the same product as `statistics` does.
pub open spec fn no_unit_deviation(s: Seq<Dec>, average: Dec) -> bool {
    forall|k: int|
        0 <= k < s.len() ==> (decimal_checked_sub(#[trigger] s[k], average) matches Some(d) ==> d.units()
            != one_spec().units())
}

proof fn lemma_powd_deviations_none_extends(s: Seq<Dec>, average: Dec, i: int)
    requires
        0 <= i <= s.len(),
        powd_deviations_spec(s.take(i), average) is None,
    ensures
        powd_deviations_spec(s, average) is None,
    decreases s.len() - i,
{
    if i < s.len() {
        assert(s.take(i + 1).drop_last() =~= s.take(i));
        lemma_powd_deviations_none_extends(s, average, i + 1);
    } else {
        assert(s.take(i) =~= s);
    }
}

/// Squaring exactly as `powd` does: zero for zero, one (at scale 0) for a
/// value of one, the exact product otherwise where it fits.
pub open spec fn exact_powd_square(d: Dec) -> Option<Dec> {
    if d.mantissa == 0 {
        Some(zero_spec())
    } else if d.units() == one_spec().units() {
        Some(one_spec())
    } else {
        exact_square(d)
    }
}

/// The running sum of the squared deviations in exact arithmetic, each
/// squared as `powd` squares it; `None` where a step does not fit.
pub open spec fn exact_powd_total(s: Seq<Dec>, average: Dec) -> Option<Dec>
    decreases s.len(),
{
    if s.len() == 0 {
        Some(zero_spec())
    } else {
        match (exact_powd_total(s.drop_last(), average), exact_sub(s.last(), average)) {
            (Some(t), Some(d)) => match exact_powd_square(d) {
                Some(q) => exact_add(t, q),
                None => None,
            },
            _ => None,
        }
    }
}

/// Where every step is exact, the running sum is the sum of the squared
/// deviations in value: every value's squared deviation enters it once.
pub proof fn lemma_exact_powd_total(s: Seq<Dec>, average: Dec)
    requires
        all_wf(s),
        average.wf(),
    ensures
        exact_powd_total(s, average) matches Some(t) ==> t.units() * unit_scale() == squared_deviation_total(
            s,
            average.units(),
        ) && t.wf(),
    decreases s.len(),
{
    if s.len() == 0 {
        lemma_units_zero(zero_spec());
    } else {
        let rest = s.drop_last();
        assert forall|i: int| 0 <= i < rest.len() implies #[trigger] rest[i].wf() by {
            assert(rest[i] == s[i]);
        }
        lemma_exact_powd_total(rest, average);
        assert(s.last().wf());
        lemma_exact_sub_units(s.last(), average);
        if let (Some(t), Some(d)) = (exact_powd_total(rest, average), exact_sub(s.last(), average)) {
            lemma_exact_square_units(d);
            if let Some(q) = exact_powd_square(d) {
                if d.mantissa != 0 && d.units() == one_spec().units() {
                    let u = unit_scale();
                    assert(one_spec().units() == u);
                    assert(q.units() * u == d.units() * d.units());
                }
                assert(q.units() * unit_scale() == d.units() * d.units() && q.wf());
                lemma_exact_add_units(t, q);
                let dv = s.last().units() - average.units();
                assert(d.units() == dv);
                if let Some(c) = exact_add(t, q) {
                    assert(c.units() * unit_scale() == t.units() * unit_scale() + q.units() * unit_scale())
                        by (nonlinear_arith)
                        requires
                            c.units() == t.units() + q.units(),
                    ;
                }
            }
        }
    }
}

proof fn lemma_exact_powd_none_extends(s: Seq<Dec>, average: Dec, i: int)
    requires
        0 <= i <= s.len(),
        exact_powd_total(s.take(i), average) is None,
    ensures
        exact_powd_total(s, average) is None,
    decreases s.len() - i,
{
    if i < s.len() {
        assert(s.take(i + 1).drop_last() =~= s.take(i));
        lemma_exact_powd_none_extends(s, average, i + 1);
    } else {
        assert(s.take(i) =~= s);
    }
}

/// The sample variance (divided by `n - 1`), never negative, and zero for a
/// sample that does not vary (where its copies add up exactly and the count
/// fits in 32 bits).  Where no deviation is exactly one, it is the sample
/// variance of `statistics` to the last digit, failures included.  `None` where the decimal arithmetic fails, which
/// includes samples of fewer than two values (a division by zero).
pub fn variance(efx: &[Dec]) -> (r: Option<Dec>)
    requires
        all_wf(efx@),
    ensures
        r == variance_spec(efx@),
        efx.len() < 2 ==> r is None,
        r matches Some(v) ==> v.wf() && v.mantissa >= 0,
        (mean_spec(efx@) matches Some(m) && no_unit_deviation(efx@, m)) ==> r == sample_variance_spec(efx@),
        2 <= efx@.len() <= 0x1_0000_0000 ==> match mean_spec(efx@) {
            Some(m) => match exact_powd_total(efx@, m) {
                Some(t) => (t.mantissa as int) % (efx@.len() - 1) == 0 ==> (r matches Some(v) && v.units() * (
                efx@.len() - 1) * unit_scale() == squared_deviation_total(efx@, m.units())),
                None => true,
            },
            None => true,
        },
        2 <= efx@.len() <= 0xFFFF_FFFF && constant_sample(efx@, efx@[0]) && copies_fit(
            efx@.len() as int,
            efx@[0],
        ) ==> r == Some(zero_spec()),
{
    let mean = match crate::mean::mean(efx) {
        Some(m) => m,
        None => return None,
    };
    proof {
        let c = efx@[0];
        if 2 <= efx@.len() <= 0xFFFF_FFFF && constant_sample(efx@, c) && copies_fit(efx@.len() as int, c) {
            lemma_units_zero(c);
            lemma_units_zero(mean);
            assert forall|i: int| 0 <= i < efx@.len() implies #[trigger] efx@[i].units() == mean.units() by {
                assert(efx@[i] == c);
            }
        }
    }
    let n = efx.len();
    let two = Dec::new(2, 0);
    assert(two == from_int_spec(2));
    let mut xminusmeansq = Dec::zero();
    for i in 0..n
        invariant
            n == efx.len(),
            all_wf(efx@),
            mean.wf(),
            two == from_int_spec(2),
            mean_spec(efx@) == Some(mean),
            xminusmeansq.wf(),
            xminusmeansq.mantissa >= 0,
            powd_deviations_spec(efx@.take(i as int), mean) == Some(xminusmeansq),
            exact_powd_total(efx@.take(i as int), mean) matches Some(e) ==> xminusmeansq == e,
            no_unit_deviation(efx@, mean) ==> squared_deviations_spec(efx@.take(i as int), mean) == Some(
                xminusmeansq,
            ),
            (forall|k: int| 0 <= k < efx@.len() ==> #[trigger] efx@[k].units() == mean.units())
                ==> xminusmeansq == zero_spec(),
            2 <= efx@.len() <= 0xFFFF_FFFF && constant_sample(efx@, efx@[0]) && copies_fit(
                efx@.len() as int,
                efx@[0],
            ) ==> (forall|k: int| 0 <= k < efx@.len() ==> #[trigger] efx@[k].units() == mean.units()),
    {
        proof {
            assert(efx@.take(i + 1).drop_last() =~= efx@.take(i as int));
        }
        let value = efx[i];
        proof {
            if value.units() == mean.units() {
                lemma_units_zero(value);
                lemma_units_zero(mean);
                if value.mantissa != 0 {
                    lemma_same_value_difference(value, mean);
                }
            }
        }
        let square = match dec_checked_sub(value, mean) {
            Some(deviation) => dec_checked_powd(deviation, two),
            None => None,
        };
        proof {
            if no_unit_deviation(efx@, mean) {
                assert(efx@[i as int] == value);
                assert(squared_deviation_spec(value, mean) == powd_deviation_spec(value, mean));
            }
            assert(efx@.take(i + 1).last() == value);
            if let Some(d) = exact_sub(value, mean) {
                if exact_powd_square(d) is Some {
                    assert(square == exact_powd_square(d));
                }
            }
        }
        let next = match square {
            Some(q) => dec_checked_add(xminusmeansq, q),
            None => None,
        };
        match next {
            Some(t) => xminusmeansq = t,
            None => {
                proof {
                    lemma_powd_deviations_none_extends(efx@, mean, i + 1);
                    lemma_exact_powd_none_extends(efx@, mean, i + 1);
                    if no_unit_deviation(efx@, mean) {
                        lemma_squared_deviations_none_extends(efx@, mean, i + 1);
                    }
                }
                return None;
            },
        }
    }
    proof {
        assert(efx@.take(n as int) =~= efx@);
        lemma_exact_powd_total(efx@, mean);
    }
    if n < 2 {
        return dec_checked_div(xminusmeansq, Dec::from_usize(n - 1));
    }
    let k = n - 1;
    let ghost exact = exact_powd_total(efx@, mean) is Some && k <= 0xFFFF_FFFF && (xminusmeansq.mantissa as int)
        % (k as int) == 0;
    proof {
        if exact && xminusmeansq.mantissa != 0 {
            let q = (xminusmeansq.mantissa as int) / (k as int);
            assert(q * k == xminusmeansq.mantissa) by (nonlinear_arith)
                requires
                    k > 0,
                    (xminusmeansq.mantissa as int) % (k as int) == 0,
                    q == (xminusmeansq.mantissa as int) / (k as int),
            ;
            assert(-MAX_MANTISSA <= q <= MAX_MANTISSA) by (nonlinear_arith)
                requires
                    q * k == xminusmeansq.mantissa,
                    k >= 1,
                    -MAX_MANTISSA <= xminusmeansq.mantissa <= MAX_MANTISSA,
            ;
            assert(xminusmeansq.mantissa % from_int_spec(k as int).mantissa == 0);
            assert(xminusmeansq.mantissa / from_int_spec(k as int).mantissa == q);
        }
    }
    let r = dec_checked_div(xminusmeansq, Dec::from_usize(k));
    proof {
        if exact {
            let v = r->0;
            let p = pow10((MAX_SCALE - xminusmeansq.scale) as nat);
            if xminusmeansq.mantissa == 0 {
                lemma_units_zero(xminusmeansq);
                lemma_units_zero(zero_spec());
                assert(v == zero_spec());
                assert(v.units() * k == xminusmeansq.units());
            } else {
                let q = (xminusmeansq.mantissa as int) / (k as int);
                assert(v == Dec { mantissa: q as i128, scale: xminusmeansq.scale });
                assert(q * k == xminusmeansq.mantissa) by (nonlinear_arith)
                    requires
                        k > 0,
                        (xminusmeansq.mantissa as int) % (k as int) == 0,
                        q == (xminusmeansq.mantissa as int) / (k as int),
                ;
                assert(v.units() == q * p);
                assert(xminusmeansq.units() == xminusmeansq.mantissa * p);
                assert((q * p) * k == xminusmeansq.mantissa * p) by (nonlinear_arith)
                    requires
                        q * k == xminusmeansq.mantissa,
                ;
                assert(v.units() * k == xminusmeansq.units());
            }
            assert(v.units() * k * unit_scale() == xminusmeansq.units() * unit_scale()) by (nonlinear_arith)
                requires
                    v.units() * k == xminusmeansq.units(),
            ;
        }
    }
    r
}

} // verus!
