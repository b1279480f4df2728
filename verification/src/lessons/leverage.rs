//! Leverage as an affine map of returns: for Y = aX + b, E[Y] = a E[X] + b and
//! Var(Y) = a^2 Var(X).  The shift b moves the mean but cancels out of every
//! deviation.

use crate::decimal::{
    all_wf, dec_checked_add, dec_checked_div, dec_checked_mul, decimal_checked_add,
    decimal_checked_div, decimal_checked_mul, exact_product, exact_product_fits, exact_sum,
    exact_sum_fits, lemma_exact_sum_units, lemma_pow10_add, lemma_pow10_positive, lemma_units_zero, pow10,
    Dec, MAX_SCALE,
};
use crate::statistics::{squared_deviation_total, unit_scale, units_total, basic_summary, basic_summary_spec, sample_variance, sample_variance_spec, BasicSummary};
use vstd::prelude::*;

verus! {

/// `value * multiplier + offset`.
pub open spec fn affine_spec(value: Dec, multiplier: Dec, offset: Dec) -> Option<Dec> {
    match decimal_checked_mul(value, multiplier) {
        Some(p) => decimal_checked_add(p, offset),
        None => None,
    }
}

/// `value * multiplier + offset` computed exactly, where both steps fit:
/// the product of non-zero operands fits, and so does its sum with a
/// non-zero offset.
pub open spec fn exact_affine(value: Dec, multiplier: Dec, offset: Dec) -> Option<Dec> {
    if value.mantissa != 0 && multiplier.mantissa != 0 && exact_product_fits(value, multiplier) {
        let product = exact_product(value, multiplier);
        if offset.mantissa == 0 {
            Some(product)
        } else if exact_sum_fits(product, offset) {
            Some(exact_sum(product, offset))
        } else {
            None
        }
    } else {
        None
    }
}

/// `y = a x + b` in value, with values in units of 10^-28 (so that the
/// product carries one factor of 10^28 too many).
pub open spec fn affine_in_value(x: int, y: int, a: Dec, b: Dec) -> bool {
    y * unit_scale() == a.units() * x + b.units() * unit_scale()
}

/// An exact affine value is `a x + b` in value.
pub proof fn lemma_exact_affine_value(x: Dec, a: Dec, b: Dec)
    requires
        x.wf(),
        a.wf(),
        b.wf(),
    ensures
        exact_affine(x, a, b) matches Some(y) ==> affine_in_value(x.units(), y.units(), a, b),
{
    if let Some(y) = exact_affine(x, a, b) {
        let p = exact_product(x, a);
        let sx = (MAX_SCALE - x.scale) as nat;
        let sa = (MAX_SCALE - a.scale) as nat;
        let sp = (MAX_SCALE - p.scale) as nat;
        lemma_pow10_add(sx, sa);
        lemma_pow10_add(sp, MAX_SCALE as nat);
        assert(sx + sa == sp + MAX_SCALE);
        let xp = pow10(sx);
        let ap = pow10(sa);
        let pp = pow10(sp);
        let u = unit_scale();
        assert(xp * ap == pp * u);
        let xm = x.mantissa as int;
        let am = a.mantissa as int;
        assert(p.units() == (xm * am) * pp);
        assert(x.units() == xm * xp);
        assert(a.units() == am * ap);
        assert((xm * am) * pp * u == (xm * xp) * (am * ap)) by (nonlinear_arith)
            requires
                xp * ap == pp * u,
        ;
        assert(p.wf());
        if b.mantissa == 0 {
            lemma_units_zero(b);
        } else {
            lemma_exact_sum_units(p, b);
        }
        assert(y.units() * unit_scale() == (p.units() + b.units()) * unit_scale()) by (nonlinear_arith)
            requires
                y.units() == p.units() + b.units(),
        ;
        assert((p.units() + b.units()) * unit_scale() == p.units() * unit_scale() + b.units() * unit_scale())
            by (nonlinear_arith);
        assert(x.units() * a.units() == a.units() * x.units()) by (nonlinear_arith);
    }
}

/// Every value of `ys` is `a x + b` in value for the matching `x` of `xs`.
pub open spec fn affine_pairs(xs: Seq<Dec>, ys: Seq<Dec>, a: Dec, b: Dec) -> bool {
    &&& ys.len() == xs.len()
    &&& forall|i: int| 0 <= i < xs.len() ==> affine_in_value(#[trigger] xs[i].units(), ys[i].units(), a, b)
}

proof fn lemma_affine_total(xs: Seq<Dec>, ys: Seq<Dec>, a: Dec, b: Dec)
    requires
        affine_pairs(xs, ys, a, b),
    ensures
        units_total(ys) * unit_scale() == a.units() * units_total(xs) + xs.len() * (b.units() * unit_scale()),
    decreases xs.len(),
{
    if xs.len() > 0 {
        let n = xs.len() - 1;
        let xr = xs.drop_last();
        let yr = ys.drop_last();
        assert forall|i: int| 0 <= i < xr.len() implies affine_in_value(#[trigger] xr[i].units(), yr[i].units(), a, b) by {
            assert(xr[i] == xs[i] && yr[i] == ys[i]);
            assert(affine_in_value(xs[i].units(), ys[i].units(), a, b));
        }
        lemma_affine_total(xr, yr, a, b);
        assert(affine_in_value(xs[n].units(), ys[n].units(), a, b));
        let c = b.units() * unit_scale();
        assert(units_total(ys) * unit_scale() == a.units() * units_total(xs) + xs.len() * c) by (nonlinear_arith)
            requires
                units_total(ys) == units_total(yr) + ys[n].units(),
                units_total(xs) == units_total(xr) + xs[n].units(),
                units_total(yr) * unit_scale() == a.units() * units_total(xr) + xr.len() * c,
                ys[n].units() * unit_scale() == a.units() * xs[n].units() + c,
                xs.len() == xr.len() + 1,
        ;
    }
}

/// The mean under an affine map, where no rounding occurs: when every value
/// of `ys` is `a x + b` of the matching `x` exactly, and `mx` and `my` are
/// exact means of the two samples (their value times the count is the
/// total), then `E[Y] = a E[X] + b`.  `mean` states exactly this of its
/// result where its running sum is exact and the count divides the sum's
/// mantissa; `affine_transform` gives exact affine values where
/// `exact_affine` does (see `lemma_exact_affine_value`).
pub proof fn lemma_affine_mean(xs: Seq<Dec>, ys: Seq<Dec>, a: Dec, b: Dec, mx: Dec, my: Dec)
    requires
        xs.len() > 0,
        affine_pairs(xs, ys, a, b),
        mx.units() * xs.len() == units_total(xs),
        my.units() * ys.len() == units_total(ys),
    ensures
        affine_in_value(mx.units(), my.units(), a, b),
{
    lemma_affine_total(xs, ys, a, b);
    let n = xs.len() as int;
    let c = b.units() * unit_scale();
    let x = mx.units();
    let y = my.units();
    assert(y * unit_scale() == a.units() * x + c) by (nonlinear_arith)
        requires
            n > 0,
            y * n * unit_scale() == a.units() * (x * n) + n * c,
    {
        assert((y * unit_scale() - a.units() * x - c) * n == 0);
    }
}

/// The sample variance under an affine map, where no rounding occurs: when
/// every value of `ys` is `a x + b` of the matching `x` exactly, the means
/// are related as `lemma_affine_mean` gives, and `vx`, `vy` are the exact
/// sample variances about those means (as `sample_variance` states of its
/// result where the sum of squares is exact and `n - 1` divides it), then
/// `Var(aX + b) = a^2 Var(X)` in value; the shift `b` drops out.
pub proof fn lemma_affine_sample_variance(
    xs: Seq<Dec>,
    ys: Seq<Dec>,
    a: Dec,
    b: Dec,
    mx: Dec,
    my: Dec,
    vx: Dec,
    vy: Dec,
)
    requires
        xs.len() >= 2,
        affine_pairs(xs, ys, a, b),
        affine_in_value(mx.units(), my.units(), a, b),
        vx.units() * (xs.len() - 1) * unit_scale() == squared_deviation_total(xs, mx.units()),
        vy.units() * (ys.len() - 1) * unit_scale() == squared_deviation_total(ys, my.units()),
    ensures
        vy.units() * (unit_scale() * unit_scale()) == (a.units() * a.units()) * vx.units(),
{
    lemma_affine_variance(xs, ys, a, b, mx.units(), my.units());
    lemma_pow10_positive(MAX_SCALE as nat);
    let k = xs.len() - 1;
    let u = unit_scale();
    let aa = a.units() * a.units();
    let x = vx.units();
    let y = vy.units();
    let sx = squared_deviation_total(xs, mx.units());
    let sy = squared_deviation_total(ys, my.units());
    assert(y * (u * u) == aa * x) by (nonlinear_arith)
        requires
            k > 0,
            u > 0,
            x * k * u == sx,
            y * k * u == sy,
            sy * (u * u) == aa * sx,
    {
        assert((y * (u * u) - aa * x) * (k * u) == 0);
    }
}

/// The spread under an affine map, where no rounding occurs: the shift `b`
/// cancels out of every deviation, so that the squared deviations of `Y`
/// from its mean are `a^2` times those of `X` from its mean, and so is their
/// sum: `Var(aX + b) = a^2 Var(X)` for any divisor.  The product `a^2` of two
/// values in units carries the factor 10^28 twice.
pub proof fn lemma_affine_variance(xs: Seq<Dec>, ys: Seq<Dec>, a: Dec, b: Dec, mx: int, my: int)
    requires
        affine_pairs(xs, ys, a, b),
        affine_in_value(mx, my, a, b),
    ensures
        squared_deviation_total(ys, my) * (unit_scale() * unit_scale()) == (a.units() * a.units())
            * squared_deviation_total(xs, mx),
    decreases xs.len(),
{
    if xs.len() > 0 {
        let n = xs.len() - 1;
        let xr = xs.drop_last();
        let yr = ys.drop_last();
        assert forall|i: int| 0 <= i < xr.len() implies affine_in_value(#[trigger] xr[i].units(), yr[i].units(), a, b) by {
            assert(xr[i] == xs[i] && yr[i] == ys[i]);
            assert(affine_in_value(xs[i].units(), ys[i].units(), a, b));
        }
        lemma_affine_variance(xr, yr, a, b, mx, my);
        assert(affine_in_value(xs[n].units(), ys[n].units(), a, b));
        let p = unit_scale();
        let dy = ys[n].units() - my;
        let dx = xs[n].units() - mx;
        assert(dy * p == a.units() * dx) by (nonlinear_arith)
            requires
                ys[n].units() * p == a.units() * xs[n].units() + b.units() * p,
                my * p == a.units() * mx + b.units() * p,
                dy == ys[n].units() - my,
                dx == xs[n].units() - mx,
        ;
        assert(dy * dy * (p * p) == (a.units() * a.units()) * (dx * dx)) by (nonlinear_arith)
            requires
                dy * p == a.units() * dx,
        ;
        assert(squared_deviation_total(ys, my) * (p * p) == (a.units() * a.units()) * squared_deviation_total(xs, mx))
            by (nonlinear_arith)
            requires
                squared_deviation_total(ys, my) == squared_deviation_total(yr, my) + dy * dy,
                squared_deviation_total(xs, mx) == squared_deviation_total(xr, mx) + dx * dx,
                squared_deviation_total(yr, my) * (p * p) == (a.units() * a.units()) * squared_deviation_total(xr, mx),
                dy * dy * (p * p) == (a.units() * a.units()) * (dx * dx),
        ;
    }
}

/// Every value mapped by `affine_spec`, in order.
pub open spec fn affine_all_spec(values: Seq<Dec>, multiplier: Dec, offset: Dec) -> Option<Seq<Dec>>
    decreases values.len(),
{
    if values.len() == 0 {
        Some(Seq::empty())
    } else {
        match (affine_all_spec(values.drop_last(), multiplier, offset), affine_spec(values.last(), multiplier, offset)) {
            (Some(r), Some(y)) => Some(r.push(y)),
            _ => None,
        }
    }
}

proof fn lemma_affine_none_extends(values: Seq<Dec>, multiplier: Dec, offset: Dec, k: int)
    requires
        0 <= k <= values.len(),
        affine_all_spec(values.take(k), multiplier, offset) is None,
    ensures
        affine_all_spec(values, multiplier, offset) is None,
    decreases values.len() - k,
{
    if k < values.len() {
        assert(values.take(k + 1).drop_last() =~= values.take(k));
        lemma_affine_none_extends(values, multiplier, offset, k + 1);
    } else {
        assert(values.take(k) =~= values);
    }
}

/// Each value times the multiplier plus the offset; where the arithmetic
/// fits, each result is exactly `a x + b`.
pub fn affine_transform(values: &[Dec], multiplier: Dec, offset: Dec) -> (r: Option<Vec<Dec>>)
    requires
        all_wf(values@),
        multiplier.wf(),
        offset.wf(),
    ensures
        match r {
            Some(v) => affine_all_spec(values@, multiplier, offset) == Some(v@) && all_wf(v@)
                && v@.len() == values@.len(),
            None => affine_all_spec(values@, multiplier, offset) is None,
        },
        r matches Some(v) ==> forall|i: int|
            0 <= i < v@.len() ==> (exact_affine(values@[i], multiplier, offset) matches Some(e) ==> #[trigger] v@[i] == e),
{
    let n = values.len();
    let mut mapped: Vec<Dec> = Vec::new();
    for i in 0..n
        invariant
            n == values.len(),
            all_wf(values@),
            multiplier.wf(),
            offset.wf(),
            affine_all_spec(values@.take(i as int), multiplier, offset) == Some(mapped@),
            all_wf(mapped@),
            mapped@.len() == i,
            forall|k: int|
                0 <= k < i ==> (exact_affine(values@[k], multiplier, offset) matches Some(e) ==> #[trigger] mapped@[k] == e),
    {
        proof {
            assert(values@.take(i + 1).drop_last() =~= values@.take(i as int));
        }
        let value = values[i];
        proof {
            if value.mantissa != 0 && multiplier.mantissa != 0 {
                assert(value.mantissa * multiplier.mantissa != 0) by (nonlinear_arith)
                    requires
                        value.mantissa != 0,
                        multiplier.mantissa != 0,
                ;
            }
        }
        let y = match dec_checked_mul(value, multiplier) {
            Some(p) => dec_checked_add(p, offset),
            None => None,
        };
        match y {
            Some(y) => mapped.push(y),
            None => {
                proof {
                    lemma_affine_none_extends(values@, multiplier, offset, i + 1);
                }
                return None;
            },
        }
    }
    proof {
        assert(values@.take(n as int) =~= values@);
    }
    Some(mapped)
}

/// Daily returns as decimal fractions, not percent: 0.0228 is a 2.28% day.
pub open spec fn unleveraged_returns_spec() -> Seq<Dec> {
    seq![
        Dec { mantissa: 228, scale: 4 },
        Dec { mantissa: 212, scale: 4 },
        Dec { mantissa: 233, scale: 4 },
        Dec { mantissa: 579, scale: 4 },
        Dec { mantissa: 122, scale: 4 },
        Dec { mantissa: 189, scale: 4 },
    ]
}

/// The multiplier a = 2.5.
pub open spec fn leverage_multiplier_spec() -> Dec {
    Dec { mantissa: 25, scale: 1 }
}

/// The offset b = 0.01.
pub open spec fn fixed_return_offset_spec() -> Dec {
    Dec { mantissa: 1, scale: 2 }
}

/// A series and its summary.
pub struct LeverageSeries {
    pub values: Vec<Dec>,
    pub summary: BasicSummary,
}

/// The four series and the variance ratios the lesson compares with a^2 and 1.
pub struct LeverageReport {
    /// X.
    pub unleveraged: LeverageSeries,
    /// X + 0.01.
    pub shifted: LeverageSeries,
    /// 2.5 X.
    pub scaled: LeverageSeries,
    /// 2.5 X + 0.01.
    pub scaled_and_shifted: LeverageSeries,
    /// Var(2.5 X + 0.01) / Var(X).
    pub scaled_and_shifted_ratio: Dec,
    /// The predicted ratio a^2 = 2.5 * 2.5.
    pub predicted_scaled_ratio: Dec,
    /// Var(X + 0.01) / Var(X).
    pub shifted_ratio: Dec,
}

fn series(values: Vec<Dec>) -> (r: Option<LeverageSeries>)
    requires
        values@.len() >= 2,
        all_wf(values@),
    ensures
        match r {
            Some(s) => s.values@ == values@ && basic_summary_spec(values@) == Some(s.summary),
            None => basic_summary_spec(values@) is None,
        },
{
    match basic_summary(values.as_slice()) {
        Some(summary) => Some(LeverageSeries { values, summary }),
        None => None,
    }
}

/// `Var(numerator) / Var(denominator)`.
pub open spec fn variance_ratio_spec(numerator: Seq<Dec>, denominator: Seq<Dec>) -> Option<Dec> {
    match (sample_variance_spec(numerator), sample_variance_spec(denominator)) {
        (Some(a), Some(b)) => decimal_checked_div(a, b),
        _ => None,
    }
}

/// Whether every step of the lesson's decimal arithmetic goes through.
pub open spec fn leverage_succeeds() -> bool {
    let x = unleveraged_returns_spec();
    let a = leverage_multiplier_spec();
    let b = fixed_return_offset_spec();
    let shifted = affine_all_spec(x, Dec { mantissa: 1, scale: 0 }, b);
    let scaled = affine_all_spec(x, a, Dec { mantissa: 0, scale: 0 });
    let both = affine_all_spec(x, a, b);
    &&& shifted is Some
    &&& scaled is Some
    &&& both is Some
    &&& basic_summary_spec(x) is Some
    &&& basic_summary_spec(shifted->0) is Some
    &&& basic_summary_spec(scaled->0) is Some
    &&& basic_summary_spec(both->0) is Some
    &&& variance_ratio_spec(both->0, x) is Some
    &&& decimal_checked_mul(a, a) is Some
    &&& variance_ratio_spec(shifted->0, x) is Some
}

/// Runs the lesson: X, X + b, aX and aX + b with their summaries, and the
/// variance ratios; `None` exactly where the decimal arithmetic fails.  The
/// ratios are never negative.
pub fn run() -> (r: Option<LeverageReport>)
    ensures
        r is Some <==> leverage_succeeds(),
        r matches Some(report) ==> {
            let x = unleveraged_returns_spec();
            let a = leverage_multiplier_spec();
            let b = fixed_return_offset_spec();
            &&& report.unleveraged.values@ == x
            &&& affine_all_spec(x, Dec { mantissa: 1, scale: 0 }, b) == Some(report.shifted.values@)
            &&& affine_all_spec(x, a, Dec { mantissa: 0, scale: 0 }) == Some(report.scaled.values@)
            &&& affine_all_spec(x, a, b) == Some(report.scaled_and_shifted.values@)
            &&& basic_summary_spec(x) == Some(report.unleveraged.summary)
            &&& basic_summary_spec(report.shifted.values@) == Some(report.shifted.summary)
            &&& basic_summary_spec(report.scaled.values@) == Some(report.scaled.summary)
            &&& basic_summary_spec(report.scaled_and_shifted.values@) == Some(report.scaled_and_shifted.summary)
            &&& variance_ratio_spec(report.scaled_and_shifted.values@, x) == Some(report.scaled_and_shifted_ratio)
            &&& decimal_checked_mul(a, a) == Some(report.predicted_scaled_ratio)
            &&& variance_ratio_spec(report.shifted.values@, x) == Some(report.shifted_ratio)
            &&& report.scaled_and_shifted_ratio.mantissa >= 0
            &&& report.shifted_ratio.mantissa >= 0
        },
{
    let unleveraged_returns = vec![
        Dec::new(228, 4),
        Dec::new(212, 4),
        Dec::new(233, 4),
        Dec::new(579, 4),
        Dec::new(122, 4),
        Dec::new(189, 4),
    ];
    assert(unleveraged_returns@ =~= unleveraged_returns_spec());
    let leverage_multiplier = Dec::new(25, 1);
    let fixed_return_offset = Dec::new(1, 2);
    let shifted_returns = match affine_transform(unleveraged_returns.as_slice(), Dec::new(1, 0), fixed_return_offset) {
        Some(v) => v,
        None => return None,
    };
    let scaled_returns = match affine_transform(unleveraged_returns.as_slice(), leverage_multiplier, Dec::zero()) {
        Some(v) => v,
        None => return None,
    };
    let scaled_and_shifted_returns = match affine_transform(
        unleveraged_returns.as_slice(),
        leverage_multiplier,
        fixed_return_offset,
    ) {
        Some(v) => v,
        None => return None,
    };
    let baseline_variance = match sample_variance(unleveraged_returns.as_slice()) {
        Some(v) => v,
        None => return None,
    };
    let scaled_and_shifted_variance = match sample_variance(scaled_and_shifted_returns.as_slice()) {
        Some(v) => v,
        None => return None,
    };
    let shifted_variance = match sample_variance(shifted_returns.as_slice()) {
        Some(v) => v,
        None => return None,
    };
    let scaled_and_shifted_ratio = match dec_checked_div(scaled_and_shifted_variance, baseline_variance) {
        Some(q) => q,
        None => return None,
    };
    let predicted_scaled_ratio = match dec_checked_mul(leverage_multiplier, leverage_multiplier) {
        Some(p) => p,
        None => return None,
    };
    let shifted_ratio = match dec_checked_div(shifted_variance, baseline_variance) {
        Some(q) => q,
        None => return None,
    };
    let unleveraged = match series(unleveraged_returns) {
        Some(s) => s,
        None => return None,
    };
    let shifted = match series(shifted_returns) {
        Some(s) => s,
        None => return None,
    };
    let scaled = match series(scaled_returns) {
        Some(s) => s,
        None => return None,
    };
    let scaled_and_shifted = match series(scaled_and_shifted_returns) {
        Some(s) => s,
        None => return None,
    };
    Some(
        LeverageReport {
            unleveraged,
            shifted,
            scaled,
            scaled_and_shifted,
            scaled_and_shifted_ratio,
            predicted_scaled_ratio,
            shifted_ratio,
        },
    )
}

} // verus!
