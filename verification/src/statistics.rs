//! Summary statistics of a sample of decimals: mean, trimmed mean, median,
//! sample variance (with Bessel's correction), standard deviation, quartiles.
//!
//! Every decimal operation is the `rust_decimal` one; `None` stands where the
//! decimal arithmetic overflows or divides by zero.

use crate::decimal::{
    all_wf, dec_checked_add, dec_checked_div, dec_checked_mul, dec_checked_sub, dec_compare,
    square_root, decimal_checked_add, decimal_checked_div, decimal_checked_mul,
    decimal_checked_sub, sqrt_spec, exact_add, from_int_spec, lemma_exact_add_units, mantissa_at,
    common_scale, exact_sum, exact_sum_fits, lemma_same_value_difference, lemma_units_zero, pow10, zero_spec, Dec, MAX_MANTISSA,
    lemma_exact_sum_units, MAX_SCALE, exact_difference, exact_difference_fits, exact_product,
    exact_product_fits, lemma_pow10_add,
};
use crate::sort::{
    lemma_sorted_permutations_agree, lemma_sort_all_wf, lemma_sort_by_value, lemma_sort_constant, sort_by_value, sort_values,
    sorted_by_value,
};
use vstd::prelude::*;

verus! {

/// Mean, sample variance and standard deviation of one sample.
#[derive(Clone, Copy, Debug)]
pub struct BasicSummary {
    pub mean: Dec,
    pub sample_variance: Dec,
    pub standard_deviation: Dec,
}

/// Quartiles, median, interquartile range and standard deviation of one sample.
#[derive(Clone, Copy, Debug)]
pub struct DispersionSummary {
    pub lower_quartile: Dec,
    pub median: Dec,
    pub upper_quartile: Dec,
    pub interquartile_range: Dec,
    pub standard_deviation: Dec,
}

/// The running decimal sum, left to right, starting from zero.
pub open spec fn sum_spec(s: Seq<Dec>) -> Option<Dec>
    decreases s.len(),
{
    if s.len() == 0 {
        Some(zero_spec())
    } else {
        match sum_spec(s.drop_last()) {
            Some(t) => decimal_checked_add(t, s.last()),
            None => None,
        }
    }
}

/// The running sum in exact arithmetic, `None` where a step does not fit.
pub open spec fn exact_running_sum(s: Seq<Dec>) -> Option<Dec>
    decreases s.len(),
{
    if s.len() == 0 {
        Some(zero_spec())
    } else {
        match exact_running_sum(s.drop_last()) {
            Some(t) => exact_add(t, s.last()),
            None => None,
        }
    }
}

/// The sum of the values, in units of 10^-28.
pub open spec fn units_total(s: Seq<Dec>) -> int
    decreases s.len(),
{
    if s.len() == 0 {
        0
    } else {
        units_total(s.drop_last()) + s.last().units()
    }
}

/// Where every step fits, the running sum is the exact sum of the values.
pub proof fn lemma_exact_running_sum_is_total(s: Seq<Dec>)
    requires
        all_wf(s),
    ensures
        exact_running_sum(s) matches Some(t) ==> t.units() == units_total(s) && t.wf(),
    decreases s.len(),
{
    if s.len() == 0 {
        assert(zero_spec().units() == 0) by (nonlinear_arith)
            requires
                zero_spec().mantissa == 0,
                zero_spec().units() == zero_spec().mantissa * pow10(28),
        ;
    } else {
        let rest = s.drop_last();
        assert forall|i: int| 0 <= i < rest.len() implies #[trigger] rest[i].wf() by {
            assert(rest[i] == s[i]);
        }
        lemma_exact_running_sum_is_total(rest);
        if let Some(t) = exact_running_sum(rest) {
            assert(s.last().wf());
            lemma_exact_add_units(t, s.last());
        }
    }
}

/// Every value of the sample is `c` (in representation).
pub open spec fn constant_sample(s: Seq<Dec>, c: Dec) -> bool {
    forall|i: int| 0 <= i < s.len() ==> #[trigger] s[i] == c
}

/// The bound under which `n` copies of `c` add up exactly.
pub open spec fn copies_fit(n: int, c: Dec) -> bool {
    -MAX_MANTISSA <= n * c.mantissa <= MAX_MANTISSA
}

/// `n` copies of a decimal add up exactly to `n` times its mantissa at its
/// scale (and copies of a zero add up to that zero).
pub proof fn lemma_constant_running_sum(s: Seq<Dec>, c: Dec)
    requires
        c.wf(),
        constant_sample(s, c),
        copies_fit(s.len() as int, c),
    ensures
        exact_running_sum(s) == if s.len() == 0 {
            Some(zero_spec())
        } else if c.mantissa == 0 {
            Some(c)
        } else {
            Some(Dec { mantissa: (s.len() * c.mantissa) as i128, scale: c.scale })
        },
    decreases s.len(),
{
    if s.len() > 0 {
        let rest = s.drop_last();
        let k = rest.len() as int;
        assert(constant_sample(rest, c)) by {
            assert forall|i: int| 0 <= i < rest.len() implies #[trigger] rest[i] == c by {
                assert(rest[i] == s[i]);
            }
        }
        assert(copies_fit(k, c)) by (nonlinear_arith)
            requires
                -MAX_MANTISSA <= (k + 1) * c.mantissa <= MAX_MANTISSA,
                k >= 0,
        ;
        lemma_constant_running_sum(rest, c);
        assert(s.last() == c);
        if c.mantissa != 0 && k > 0 {
            let t = Dec { mantissa: (k * c.mantissa) as i128, scale: c.scale };
            assert(k * c.mantissa != 0) by (nonlinear_arith)
                requires
                    k > 0,
                    c.mantissa != 0,
            ;
            assert(common_scale(t, c) == c.scale);
            assert(pow10(0) == 1);
            assert(t.mantissa * pow10(0) == t.mantissa) by (nonlinear_arith)
                requires
                    pow10(0) == 1,
            ;
            assert(c.mantissa * pow10(0) == c.mantissa) by (nonlinear_arith)
                requires
                    pow10(0) == 1,
            ;
            assert(mantissa_at(t, common_scale(t, c)) == k * c.mantissa);
            assert(mantissa_at(c, common_scale(t, c)) == c.mantissa);
            assert((k + 1) * c.mantissa == k * c.mantissa + c.mantissa) by (nonlinear_arith);
            assert(s.len() == k + 1);
            assert(exact_sum_fits(t, c));
            assert(exact_add(t, c) == Some(exact_sum(t, c)));
            assert(exact_sum(t, c) == Dec { mantissa: (s.len() * c.mantissa) as i128, scale: c.scale });
        } else if c.mantissa != 0 {
            assert(s.len() == 1);
            assert(1 * c.mantissa == c.mantissa);
            assert(exact_running_sum(rest) == Some(zero_spec()));
            assert(exact_add(zero_spec(), c) == Some(c));
        }
    }
}

/// The sum divided by the count.
pub open spec fn mean_spec(s: Seq<Dec>) -> Option<Dec> {
    match sum_spec(s) {
        Some(t) => decimal_checked_div(t, from_int_spec(s.len() as int)),
        None => None,
    }
}

/// `(x - average) * (x - average)`.
pub open spec fn squared_deviation_spec(x: Dec, average: Dec) -> Option<Dec> {
    match decimal_checked_sub(x, average) {
        Some(d) => decimal_checked_mul(d, d),
        None => None,
    }
}

/// The running sum of the squared deviations, left to right, from zero.
pub open spec fn squared_deviations_spec(s: Seq<Dec>, average: Dec) -> Option<Dec>
    decreases s.len(),
{
    if s.len() == 0 {
        Some(zero_spec())
    } else {
        match (squared_deviations_spec(s.drop_last(), average), squared_deviation_spec(s.last(), average)) {
            (Some(t), Some(q)) => decimal_checked_add(t, q),
            _ => None,
        }
    }
}

/// `10^28`: one unit of value in units of 10^-28.
pub open spec fn unit_scale() -> int {
    pow10(MAX_SCALE as nat)
}

/// The sum of `(x - m)^2` over the values, in squared units.
pub open spec fn squared_deviation_total(s: Seq<Dec>, m: int) -> int
    decreases s.len(),
{
    if s.len() == 0 {
        0
    } else {
        squared_deviation_total(s.drop_last(), m) + (s.last().units() - m) * (s.last().units() - m)
    }
}

/// Subtracting exactly: a zero left operand gives the right one negated, a
/// zero right operand the left one, two non-zero operands their exact
/// difference at the larger scale where it fits, and `None` where it does not.
pub open spec fn exact_sub(a: Dec, b: Dec) -> Option<Dec> {
    if a.mantissa == 0 {
        Some(Dec { mantissa: (-b.mantissa) as i128, scale: b.scale })
    } else if b.mantissa == 0 {
        Some(a)
    } else if exact_difference_fits(a, b) {
        Some(exact_difference(a, b))
    } else {
        None
    }
}

/// Squaring exactly: zero for zero, the exact product where it fits.
pub open spec fn exact_square(d: Dec) -> Option<Dec> {
    if d.mantissa == 0 {
        Some(zero_spec())
    } else if exact_product_fits(d, d) {
        Some(exact_product(d, d))
    } else {
        None
    }
}

/// The running sum of the squared deviations from `average` in exact
/// arithmetic, `None` where a step does not fit.
pub open spec fn exact_squares_total(s: Seq<Dec>, average: Dec) -> Option<Dec>
    decreases s.len(),
{
    if s.len() == 0 {
        Some(zero_spec())
    } else {
        match (exact_squares_total(s.drop_last(), average), exact_sub(s.last(), average)) {
            (Some(t), Some(d)) => match exact_square(d) {
                Some(q) => exact_add(t, q),
                None => None,
            },
            _ => None,
        }
    }
}

/// Once the exact running sum of squares fails, every longer one fails.
proof fn lemma_exact_squares_none_extends(s: Seq<Dec>, average: Dec, i: int)
    requires
        0 <= i <= s.len(),
        exact_squares_total(s.take(i), average) is None,
    ensures
        exact_squares_total(s, average) is None,
    decreases s.len() - i,
{
    if i < s.len() {
        assert(s.take(i + 1).drop_last() =~= s.take(i));
        lemma_exact_squares_none_extends(s, average, i + 1);
    } else {
        assert(s.take(i) =~= s);
    }
}

/// The exact sum of the squared deviations from the sample's mean.
pub open spec fn exact_sum_of_squares(s: Seq<Dec>) -> Option<Dec> {
    match mean_spec(s) {
        Some(m) => exact_squares_total(s, m),
        None => None,
    }
}

pub proof fn lemma_exact_sub_units(a: Dec, b: Dec)
    requires
        a.wf(),
        b.wf(),
    ensures
        exact_sub(a, b) matches Some(c) ==> c.units() == a.units() - b.units() && c.wf(),
{
    let nb = Dec { mantissa: (-b.mantissa) as i128, scale: b.scale };
    let pb = pow10((MAX_SCALE - b.scale) as nat);
    assert(nb.units() == -b.units()) by (nonlinear_arith)
        requires
            nb.units() == nb.mantissa * pb,
            b.units() == b.mantissa * pb,
            nb.mantissa == -b.mantissa,
    ;
    if a.mantissa == 0 {
        lemma_units_zero(a);
    } else if b.mantissa == 0 {
        lemma_units_zero(b);
    } else if exact_difference_fits(a, b) {
        let s = common_scale(a, b);
        let db = (s - b.scale) as nat;
        assert(mantissa_at(nb, s) == -mantissa_at(b, s)) by (nonlinear_arith)
            requires
                mantissa_at(nb, s) == nb.mantissa * pow10(db),
                mantissa_at(b, s) == b.mantissa * pow10(db),
                nb.mantissa == -b.mantissa,
        ;
        assert(common_scale(a, nb) == s);
        assert(exact_sum_fits(a, nb));
        assert(exact_sum(a, nb) == exact_difference(a, b));
        lemma_exact_sum_units(a, nb);
    }
}

pub proof fn lemma_exact_square_units(d: Dec)
    requires
        d.wf(),
    ensures
        exact_square(d) matches Some(q) ==> q.units() * unit_scale() == d.units() * d.units() && q.wf()
            && q.mantissa >= 0,
{
    if d.mantissa == 0 {
        lemma_units_zero(d);
        lemma_units_zero(zero_spec());
    } else if exact_product_fits(d, d) {
        let q = exact_product(d, d);
        let sd = (MAX_SCALE - d.scale) as nat;
        let sq = (MAX_SCALE - q.scale) as nat;
        lemma_pow10_add(sd, sd);
        lemma_pow10_add(sq, MAX_SCALE as nat);
        assert(sd + sd == sq + MAX_SCALE);
        let pd = pow10(sd);
        let pq = pow10(sq);
        let u = unit_scale();
        let m = d.mantissa as int;
        assert(pd * pd == pq * u);
        assert(q.units() == (m * m) * pq);
        assert(d.units() == m * pd);
        assert((m * m) * pq * u == (m * pd) * (m * pd)) by (nonlinear_arith)
            requires
                pd * pd == pq * u,
        ;
        assert(m * m >= 0) by (nonlinear_arith);
    }
}

/// Where every step is exact, the running sum of squares is the sum of the
/// squared deviations in value.
pub proof fn lemma_exact_squares_total(s: Seq<Dec>, average: Dec)
    requires
        all_wf(s),
        average.wf(),
    ensures
        exact_squares_total(s, average) matches Some(t) ==> t.units() * unit_scale()
            == squared_deviation_total(s, average.units()) && t.wf(),
    decreases s.len(),
{
    if s.len() == 0 {
        lemma_units_zero(zero_spec());
    } else {
        let rest = s.drop_last();
        assert forall|i: int| 0 <= i < rest.len() implies #[trigger] rest[i].wf() by {
            assert(rest[i] == s[i]);
        }
        lemma_exact_squares_total(rest, average);
        assert(s.last().wf());
        lemma_exact_sub_units(s.last(), average);
        if let (Some(t), Some(d)) = (exact_squares_total(rest, average), exact_sub(s.last(), average)) {
            lemma_exact_square_units(d);
            if let Some(q) = exact_square(d) {
                lemma_exact_add_units(t, q);
                let dv = s.last().units() - average.units();
                assert(d.units() == dv);
                if let Some(c) = exact_add(t, q) {
                    assert(c.units() * unit_scale() == t.units() * unit_scale() + q.units() * unit_scale())
                        by (nonlinear_arith)
                        requires
                            c.units() == t.units() + q.units(),
                    ;
                }
            }
        }
    }
}

/// The squared deviations from the mean, summed and divided by `n - 1`.
pub open spec fn sample_variance_spec(s: Seq<Dec>) -> Option<Dec> {
    match mean_spec(s) {
        Some(average) => match squared_deviations_spec(s, average) {
            Some(t) => decimal_checked_div(t, from_int_spec(s.len() - 1)),
            None => None,
        },
        None => None,
    }
}

/// The square root of the sample variance.
pub open spec fn standard_deviation_spec(s: Seq<Dec>) -> Option<Dec> {
    match sample_variance_spec(s) {
        Some(v) => sqrt_spec(v),
        None => None,
    }
}

/// The middle element of a sorted sample of odd size; the mean of the two
/// middle elements of one of even size.
pub open spec fn median_of_sorted_spec(s: Seq<Dec>) -> Option<Dec> {
    let middle = s.len() / 2;
    if s.len() % 2 == 0 {
        match decimal_checked_add(s[middle - 1], s[middle as int]) {
            Some(t) => decimal_checked_div(t, from_int_spec(2)),
            None => None,
        }
    } else {
        Some(s[middle as int])
    }
}

/// The two middle values of a sample of even size are non-zero, add up
/// exactly, and their sum has an even mantissa, so that halving it is exact.
pub open spec fn middle_pair_exact(s: Seq<Dec>) -> bool {
    let a = s[s.len() / 2 - 1];
    let b = s[(s.len() / 2) as int];
    &&& a.mantissa != 0
    &&& b.mantissa != 0
    &&& exact_sum_fits(a, b)
    &&& exact_sum(a, b).mantissa % 2 == 0
}

/// How many values are cut from each end: `n * trim_percent / 100`, rounded down.
pub open spec fn trim_count(n: nat, trim_percent: nat) -> nat {
    n * trim_percent / 100
}

/// The mean of the sorted values without the `trim_count` smallest and largest.
pub open spec fn trimmed_mean_spec(s: Seq<Dec>, trim_percent: nat) -> Option<Dec> {
    let k = trim_count(s.len(), trim_percent);
    mean_spec(sort_by_value(s).subrange(k as int, s.len() - k))
}

/// The median of the sorted values.
pub open spec fn median_spec(s: Seq<Dec>) -> Option<Dec> {
    median_of_sorted_spec(sort_by_value(s))
}

/// `n / d` rounded up.
pub open spec fn ceil_div(n: nat, d: nat) -> nat {
    if n % d == 0 {
        n / d
    } else {
        n / d + 1
    }
}

/// The position of the lower quartile in the sorted sample: `ceil(n / 4) - 1`.
pub open spec fn lower_quartile_index(n: nat) -> int {
    ceil_div(n, 4) - 1
}

/// The position of the upper quartile in the sorted sample: `ceil(3n / 4) - 1`.
pub open spec fn upper_quartile_index(n: nat) -> int {
    ceil_div(3 * n, 4) - 1
}

pub open spec fn basic_summary_spec(s: Seq<Dec>) -> Option<BasicSummary> {
    match (sample_variance_spec(s), mean_spec(s)) {
        (Some(v), Some(m)) => match sqrt_spec(v) {
            Some(d) => Some(BasicSummary { mean: m, sample_variance: v, standard_deviation: d }),
            None => None,
        },
        _ => None,
    }
}

pub open spec fn dispersion_summary_spec(s: Seq<Dec>) -> Option<DispersionSummary> {
    let t = sort_by_value(s);
    let lower = t[lower_quartile_index(s.len())];
    let upper = t[upper_quartile_index(s.len())];
    match (median_of_sorted_spec(t), decimal_checked_sub(upper, lower), standard_deviation_spec(s)) {
        (Some(m), Some(r), Some(d)) => Some(
            DispersionSummary {
                lower_quartile: lower,
                median: m,
                upper_quartile: upper,
                interquartile_range: r,
                standard_deviation: d,
            },
        ),
        _ => None,
    }
}

/// The decimal sum of the values, left to right, as `Iterator::sum` adds them.
pub fn sum(values: &[Dec]) -> (r: Option<Dec>)
    requires
        all_wf(values@),
    ensures
        r == sum_spec(values@),
        r matches Some(t) ==> t.wf(),
        exact_running_sum(values@) matches Some(t) ==> r == Some(t),
        (forall|i: int| 0 <= i < values@.len() ==> #[trigger] values@[i].mantissa >= 0) ==> (
        r matches Some(t) ==> t.mantissa >= 0),
{
    let n = values.len();
    let mut total = Dec::zero();
    for i in 0..n
        invariant
            n == values.len(),
            all_wf(values@),
            total.wf(),
            sum_spec(values@.take(i as int)) == Some(total),
            exact_running_sum(values@.take(i as int)) matches Some(t) ==> total == t,
            (forall|k: int| 0 <= k < values@.len() ==> #[trigger] values@[k].mantissa >= 0) ==> total.mantissa >= 0,
    {
        proof {
            assert(values@.take(i + 1).drop_last() =~= values@.take(i as int));
        }
        match dec_checked_add(total, values[i]) {
            Some(t) => total = t,
            None => {
                proof {
                    lemma_sum_none_extends(values@, i + 1);
                    lemma_exact_sum_none_extends(values@, i + 1);
                }
                return None;
            },
        }
    }
    proof {
        assert(values@.take(n as int) =~= values@);
    }
    Some(total)
}

/// Once a running sum overflows, every longer running sum is `None`.
proof fn lemma_sum_none_extends(s: Seq<Dec>, i: int)
    requires
        0 <= i <= s.len(),
        sum_spec(s.take(i)) is None,
    ensures
        sum_spec(s) is None,
    decreases s.len() - i,
{
    if i < s.len() {
        assert(s.take(i + 1).drop_last() =~= s.take(i));
        lemma_sum_none_extends(s, i + 1);
    } else {
        assert(s.take(i) =~= s);
    }
}

proof fn lemma_exact_sum_none_extends(s: Seq<Dec>, i: int)
    requires
        0 <= i <= s.len(),
        exact_running_sum(s.take(i)) is None,
    ensures
        exact_running_sum(s) is None,
    decreases s.len() - i,
{
    if i < s.len() {
        assert(s.take(i + 1).drop_last() =~= s.take(i));
        lemma_exact_sum_none_extends(s, i + 1);
    } else {
        assert(s.take(i) =~= s);
    }
}

/// The arithmetic mean of a non-empty sample.  The mean of a sample that does
/// not vary is its value: the value itself where it is not zero (and zero,
/// at scale 0, for a sample of zeros), as long as the copies add up exactly and
/// the count fits in 32 bits.  Where the running sum is exact and the count
/// divides its mantissa, the mean is exact: its value times the count is the
/// total of the values.
pub fn mean(values: &[Dec]) -> (r: Option<Dec>)
    requires
        values.len() > 0,
        all_wf(values@),
    ensures
        r == mean_spec(values@),
        r matches Some(m) ==> m.wf(),
        exact_running_sum(values@) matches Some(t) ==> r == decimal_checked_div(
            t,
            from_int_spec(values@.len() as int),
        ),
        values@.len() <= 0xFFFF_FFFF && (exact_running_sum(values@) matches Some(t) && (t.mantissa as int) % (
        values@.len() as int) == 0) ==> (r matches Some(m) && m.units() * values@.len() == units_total(
            values@,
        )),
        values@.len() <= 0xFFFF_FFFF && constant_sample(values@, values@[0]) && copies_fit(
            values@.len() as int,
            values@[0],
        ) ==> r == Some(if values@[0].mantissa == 0 { zero_spec() } else { values@[0] }),
{
    let n = values.len();
    proof {
        let c = values@[0];
        if n <= 0xFFFF_FFFF && constant_sample(values@, c) && copies_fit(n as int, c) {
            lemma_constant_running_sum(values@, c);
        }
    }
    let total = match sum(values) {
        Some(total) => total,
        None => return None,
    };
    proof {
        let c = values@[0];
        if n <= 0xFFFF_FFFF && constant_sample(values@, c) && copies_fit(n as int, c) {
            if c.mantissa != 0 {
                let m = n * c.mantissa;
                assert(m != 0) by (nonlinear_arith)
                    requires
                        n > 0,
                        c.mantissa != 0,
                        m == n * c.mantissa,
                ;
                assert(m % (n as int) == 0 && m / (n as int) == c.mantissa) by (nonlinear_arith)
                    requires
                        n > 0,
                        m == n * c.mantissa,
                ;
            }
        }
        lemma_exact_running_sum_is_total(values@);
        if n <= 0xFFFF_FFFF && (total.mantissa as int) % (n as int) == 0 && exact_running_sum(values@) is Some {
            let p = pow10((MAX_SCALE - total.scale) as nat);
            if total.mantissa == 0 {
                lemma_units_zero(total);
                lemma_units_zero(zero_spec());
            } else {
                let q = (total.mantissa as int) / (n as int);
                assert(q * n == total.mantissa) by (nonlinear_arith)
                    requires
                        n > 0,
                        (total.mantissa as int) % (n as int) == 0,
                        q == (total.mantissa as int) / (n as int),
                ;
                assert((q * p) * n == total.mantissa * p) by (nonlinear_arith)
                    requires
                        q * n == total.mantissa,
                ;
                assert(total.mantissa % from_int_spec(n as int).mantissa == 0);
                assert(-MAX_MANTISSA <= q <= MAX_MANTISSA) by (nonlinear_arith)
                    requires
                        q * n == total.mantissa,
                        n >= 1,
                        -MAX_MANTISSA <= total.mantissa <= MAX_MANTISSA,
                ;
                assert(total.mantissa / from_int_spec(n as int).mantissa == q);
            }
        }
    }
    let r = dec_checked_div(total, Dec::from_usize(n));
    proof {
        if n <= 0xFFFF_FFFF && (total.mantissa as int) % (n as int) == 0 && exact_running_sum(values@) is Some {
            let m = r->0;
            assert(total.units() == units_total(values@));
            assert(m.units() * n == total.units());
        }
    }
    r
}

/// The values of a non-empty sample, sorted ascending.
fn sorted(values: &[Dec]) -> (r: Vec<Dec>)
    requires
        values.len() > 0,
        all_wf(values@),
    ensures
        r@ == sort_by_value(values@),
        r@.len() == values@.len(),
        sorted_by_value(r@),
        all_wf(r@),
{
    proof {
        lemma_sort_by_value(values@);
        lemma_sort_all_wf(values@);
    }
    sort_values(values)
}

/// Halving an exact sum with an even mantissa (zero operands included) gives
/// half the sum in value.
pub(crate) proof fn lemma_halved_exact_sum(a: Dec, b: Dec)
    requires
        a.wf(),
        b.wf(),
    ensures
        exact_add(a, b) matches Some(t) ==> ((t.mantissa as int) % 2 == 0 ==> ({
            let h = if t.mantissa == 0 {
                zero_spec()
            } else {
                Dec { mantissa: ((t.mantissa as int) / 2) as i128, scale: t.scale }
            };
            2 * h.units() == a.units() + b.units() && t.wf()
        })),
{
    lemma_exact_add_units(a, b);
    if let Some(t) = exact_add(a, b) {
        let p = pow10((MAX_SCALE - t.scale) as nat);
        if t.mantissa == 0 {
            lemma_units_zero(t);
            lemma_units_zero(zero_spec());
        } else if (t.mantissa as int) % 2 == 0 {
            let q = (t.mantissa as int) / 2;
            let h = Dec { mantissa: q as i128, scale: t.scale };
            assert(2 * q == t.mantissa);
            assert(h.units() == q * p);
            assert(t.units() == t.mantissa * p);
            assert(2 * (q * p) == t.mantissa * p) by (nonlinear_arith)
                requires
                    2 * q == t.mantissa,
            ;
        }
    }
}

/// Halving an exact sum of two values with an even mantissa lands between
/// the two.
proof fn lemma_middle_pair_halved(a: Dec, b: Dec)
    requires
        a.wf(),
        b.wf(),
        a.units() <= b.units(),
        exact_sum_fits(a, b),
        exact_sum(a, b).mantissa % 2 == 0,
    ensures
        ({
            let t = exact_sum(a, b);
            let h = if t.mantissa == 0 {
                zero_spec()
            } else {
                Dec { mantissa: (t.mantissa / 2) as i128, scale: t.scale }
            };
            a.units() <= h.units() <= b.units()
        }),
{
    lemma_exact_sum_units(a, b);
    let t = exact_sum(a, b);
    let p = pow10((MAX_SCALE - t.scale) as nat);
    if t.mantissa == 0 {
        lemma_units_zero(t);
        lemma_units_zero(zero_spec());
    } else {
        let q = t.mantissa / 2;
        assert(t.mantissa == 2 * q);
        assert(2 * (q * p) == t.mantissa * p) by (nonlinear_arith)
            requires
                t.mantissa == 2 * q,
        ;
    }
}

/// The median of an already sorted, non-empty sample; for a sample that does
/// not vary, its value (where twice it fits).
fn median_of_sorted(sorted_values: &[Dec]) -> (r: Option<Dec>)
    requires
        sorted_values.len() > 0,
        all_wf(sorted_values@),
    ensures
        r == median_of_sorted_spec(sorted_values@),
        r matches Some(m) ==> m.wf(),
        ({
            let s = sorted_values@;
            let a = s[s.len() / 2 - 1];
            let b = s[(s.len() / 2) as int];
            s.len() % 2 == 0 ==> match exact_add(a, b) {
                Some(t) => (t.mantissa as int) % 2 == 0 ==> (r matches Some(m) && 2 * m.units() == a.units()
                    + b.units()),
                None => true,
            }
        }),
        ({
            let s = sorted_values@;
            s.len() % 2 == 1 ==> r == Some(s[(s.len() / 2) as int])
        }),
        sorted_values@.len() % 2 == 1 ==> r == Some(sorted_values@[(sorted_values@.len() / 2) as int]),
        sorted_values@.len() % 2 == 0 && sorted_by_value(sorted_values@) && middle_pair_exact(sorted_values@)
            ==> (r matches Some(m) && sorted_values@[sorted_values@.len() / 2 - 1].units() <= m.units()
            <= sorted_values@[(sorted_values@.len() / 2) as int].units()),
        constant_sample(sorted_values@, sorted_values@[0]) && copies_fit(2, sorted_values@[0]) ==> (r
            matches Some(m) && m.units() == sorted_values@[0].units() && (sorted_values@[0].mantissa != 0
            ==> m == sorted_values@[0])),
{
    let middle = sorted_values.len() / 2;
    proof {
        let c = sorted_values@[0];
        if constant_sample(sorted_values@, c) && copies_fit(2, c) {
            lemma_units_zero(c);
            lemma_units_zero(zero_spec());
            if sorted_values.len() % 2 == 0 {
                assert(sorted_values@[middle - 1] == c);
                assert(sorted_values@[middle as int] == c);
                if c.mantissa != 0 {
                    assert(pow10(0) == 1);
                    assert(c.mantissa * pow10(0) == c.mantissa) by (nonlinear_arith)
                        requires
                            pow10(0) == 1,
                    ;
                    assert(exact_sum_fits(c, c));
                    let t = exact_sum(c, c);
                    assert(t.mantissa == 2 * c.mantissa);
                    assert(t.mantissa % 2 == 0 && t.mantissa / 2 == c.mantissa);
                }
            }
        }
    }
    proof {
        let n = sorted_values@.len();
        if n % 2 == 0 {
            lemma_halved_exact_sum(sorted_values@[middle - 1], sorted_values@[middle as int]);
        }
        if n % 2 == 0 && sorted_by_value(sorted_values@) && middle_pair_exact(sorted_values@) {
            lemma_middle_pair_halved(sorted_values@[middle - 1], sorted_values@[middle as int]);
        }
    }
    if sorted_values.len() % 2 == 0 {
        match dec_checked_add(sorted_values[middle - 1], sorted_values[middle]) {
            Some(t) => dec_checked_div(t, Dec::from_usize(2)),
            None => None,
        }
    } else {
        Some(sorted_values[middle])
    }
}

/// The mean of the sorted values after cutting `len * trim_percent / 100`
/// values (rounded down: the largest count whose hundredfold does not exceed
/// `len * trim_percent`) from each end, which leaves at least one; for a sample that does not vary, its value (as for
/// `mean`).  The sample must not be empty and the
/// trim percentage must be below 50.
pub fn trimmed_mean(values: &[Dec], trim_percent: usize) -> (r: Option<Dec>)
    requires
        values.len() > 0,
        trim_percent < 50,
        values.len() * trim_percent <= usize::MAX,
        all_wf(values@),
    ensures
        r == trimmed_mean_spec(values@, trim_percent as nat),
        r matches Some(m) ==> m.wf(),
        trim_count(values@.len(), trim_percent as nat) * 100 <= values@.len() * trim_percent
            < trim_count(values@.len(), trim_percent as nat) * 100 + 100,
        2 * trim_count(values@.len(), trim_percent as nat) < values@.len(),
        r == mean_spec(
            sort_by_value(values@).subrange(
                trim_count(values@.len(), trim_percent as nat) as int,
                values@.len() - trim_count(values@.len(), trim_percent as nat),
            ),
        ),
        values@.len() <= 0xFFFF_FFFF && constant_sample(values@, values@[0]) && copies_fit(
            values@.len() as int,
            values@[0],
        ) ==> r == Some(if values@[0].mantissa == 0 { zero_spec() } else { values@[0] }),
{
    proof {
        if constant_sample(values@, values@[0]) {
            lemma_sort_constant(values@, values@[0]);
        }
    }
    let sorted_values = sorted(values);
    let n = sorted_values.len();
    let trim_count = n * trim_percent / 100;
    proof {
        assert(n * trim_percent <= n * 49) by (nonlinear_arith)
            requires
                trim_percent < 50,
        ;
        assert(trim_count * 2 < n) by (nonlinear_arith)
            requires
                trim_count == n * trim_percent / 100,
                n * trim_percent <= n * 49,
                n > 0,
        ;
    }
    let kept = &sorted_values.as_slice()[trim_count..n - trim_count];
    proof {
        assert forall|i: int| 0 <= i < kept@.len() implies #[trigger] kept@[i].wf() by {
            assert(kept@[i] == sorted_values@[i + trim_count]);
        }
        let c = values@[0];
        if values@.len() <= 0xFFFF_FFFF && constant_sample(values@, c) && copies_fit(values@.len() as int, c) {
            assert forall|i: int| 0 <= i < kept@.len() implies #[trigger] kept@[i] == kept@[0] by {
                assert(kept@[i] == sorted_values@[i + trim_count]);
                assert(kept@[0] == sorted_values@[trim_count as int]);
            }
            assert(kept@[0] == c);
            let m = kept@.len() as int;
            let nn = n as int;
            assert(copies_fit(m, c)) by (nonlinear_arith)
                requires
                    -MAX_MANTISSA <= nn * c.mantissa <= MAX_MANTISSA,
                    0 < m <= nn,
            ;
        }
    }
    mean(kept)
}

/// The median of a non-empty sample; for a sample that does not vary, its
/// value (where twice it fits).
pub fn median(values: &[Dec]) -> (r: Option<Dec>)
    requires
        values.len() > 0,
        all_wf(values@),
    ensures
        r == median_spec(values@),
        r matches Some(m) ==> m.wf(),
        ({
            let s = sort_by_value(values@);
            let a = s[s.len() / 2 - 1];
            let b = s[(s.len() / 2) as int];
            s.len() % 2 == 0 ==> match exact_add(a, b) {
                Some(t) => (t.mantissa as int) % 2 == 0 ==> (r matches Some(m) && 2 * m.units() == a.units()
                    + b.units()),
                None => true,
            }
        }),
        ({
            let s = sort_by_value(values@);
            s.len() % 2 == 1 ==> r == Some(s[(s.len() / 2) as int])
        }),
        constant_sample(values@, values@[0]) && copies_fit(2, values@[0]) ==> (r matches Some(m)
            && m.units() == values@[0].units() && (values@[0].mantissa != 0 ==> m == values@[0])),
{
    proof {
        if constant_sample(values@, values@[0]) {
            lemma_sort_constant(values@, values@[0]);
        }
    }
    let sorted_values = sorted(values);
    median_of_sorted(sorted_values.as_slice())
}

/// Once the running sum of squared deviations fails, every longer one fails.
pub(crate) proof fn lemma_squared_deviations_none_extends(s: Seq<Dec>, average: Dec, i: int)
    requires
        0 <= i <= s.len(),
        squared_deviations_spec(s.take(i), average) is None,
    ensures
        squared_deviations_spec(s, average) is None,
    decreases s.len() - i,
{
    if i < s.len() {
        assert(s.take(i + 1).drop_last() =~= s.take(i));
        lemma_squared_deviations_none_extends(s, average, i + 1);
    } else {
        assert(s.take(i) =~= s);
    }
}

/// The sum of `(x - average)^2` over the values, never negative.
fn squared_deviations(values: &[Dec], average: Dec) -> (r: Option<Dec>)
    requires
        all_wf(values@),
        average.wf(),
    ensures
        r == squared_deviations_spec(values@, average),
        r matches Some(t) ==> t.wf() && t.mantissa >= 0,
        (forall|i: int| 0 <= i < values@.len() ==> #[trigger] values@[i].units() == average.units())
            ==> r == Some(zero_spec()),
        exact_squares_total(values@, average) matches Some(e) ==> r == Some(e),
{
    let n = values.len();
    let mut total = Dec::zero();
    for i in 0..n
        invariant
            n == values.len(),
            all_wf(values@),
            average.wf(),
            total.wf(),
            total.mantissa >= 0,
            squared_deviations_spec(values@.take(i as int), average) == Some(total),
            exact_squares_total(values@.take(i as int), average) matches Some(e) ==> total == e,
            (forall|k: int| 0 <= k < values@.len() ==> #[trigger] values@[k].units() == average.units())
                ==> total == zero_spec(),
    {
        proof {
            assert(values@.take(i + 1).drop_last() =~= values@.take(i as int));
        }
        let value = values[i];
        proof {
            if value.units() == average.units() {
                lemma_units_zero(value);
                lemma_units_zero(average);
                if value.mantissa != 0 {
                    lemma_same_value_difference(value, average);
                }
            }
        }
        let square = match dec_checked_sub(value, average) {
            Some(deviation) => dec_checked_mul(deviation, deviation),
            None => None,
        };
        proof {
            assert(values@.take(i + 1).last() == value);
            if let Some(d) = exact_sub(value, average) {
                if exact_square(d) is Some {
                    assert(square == exact_square(d));
                }
            }
        }
        let next = match square {
            Some(q) => dec_checked_add(total, q),
            None => None,
        };
        match next {
            Some(t) => total = t,
            None => {
                proof {
                    lemma_squared_deviations_none_extends(values@, average, i + 1);
                    lemma_exact_squares_none_extends(values@, average, i + 1);
                }
                return None;
            },
        }
    }
    proof {
        assert(values@.take(n as int) =~= values@);
    }
    Some(total)
}

/// The sample variance, with Bessel's correction (divided by `n - 1`).
/// It is never negative, and it is zero for a sample that does not vary
/// (where its copies add up exactly and the count fits in 32 bits).  The
/// sample needs at least two values.
pub fn sample_variance(values: &[Dec]) -> (r: Option<Dec>)
    requires
        values.len() >= 2,
        all_wf(values@),
    ensures
        r == sample_variance_spec(values@),
        r matches Some(v) ==> v.wf() && v.mantissa >= 0,
        values@.len() <= 0xFFFF_FFFF && constant_sample(values@, values@[0]) && copies_fit(
            values@.len() as int,
            values@[0],
        ) ==> r == Some(zero_spec()),
        values@.len() - 1 <= 0xFFFF_FFFF ==> (exact_sum_of_squares(values@) matches Some(t) ==> ((
        t.mantissa as int) % (values@.len() - 1) == 0 ==> (r matches Some(v) && mean_spec(values@) matches Some(
            m,
        ) && v.units() * (values@.len() - 1) * unit_scale() == squared_deviation_total(values@, m.units())))),
{
    let average = match mean(values) {
        Some(m) => m,
        None => return None,
    };
    proof {
        let c = values@[0];
        if values@.len() <= 0xFFFF_FFFF && constant_sample(values@, c) && copies_fit(values@.len() as int, c) {
            lemma_units_zero(c);
            lemma_units_zero(average);
            assert forall|i: int| 0 <= i < values@.len() implies #[trigger] values@[i].units() == average.units() by {
                assert(values@[i] == c);
            }
        }
    }
    let squared = match squared_deviations(values, average) {
        Some(t) => t,
        None => return None,
    };
    let k = values.len() - 1;
    proof {
        lemma_exact_squares_total(values@, average);
        if k <= 0xFFFF_FFFF && exact_squares_total(values@, average) is Some && (squared.mantissa as int) % (
        k as int) == 0 {
            let p = pow10((MAX_SCALE - squared.scale) as nat);
            if squared.mantissa == 0 {
                lemma_units_zero(squared);
                lemma_units_zero(zero_spec());
            } else {
                let q = (squared.mantissa as int) / (k as int);
                assert(q * k == squared.mantissa) by (nonlinear_arith)
                    requires
                        k > 0,
                        (squared.mantissa as int) % (k as int) == 0,
                        q == (squared.mantissa as int) / (k as int),
                ;
                assert(-MAX_MANTISSA <= q <= MAX_MANTISSA) by (nonlinear_arith)
                    requires
                        q * k == squared.mantissa,
                        k >= 1,
                        -MAX_MANTISSA <= squared.mantissa <= MAX_MANTISSA,
                ;
                assert(squared.mantissa % from_int_spec(k as int).mantissa == 0);
                assert(squared.mantissa / from_int_spec(k as int).mantissa == q);
                assert((q * p) * k == squared.mantissa * p) by (nonlinear_arith)
                    requires
                        q * k == squared.mantissa,
                ;
            }
        }
    }
    let r = dec_checked_div(squared, Dec::from_usize(k));
    proof {
        if k <= 0xFFFF_FFFF && exact_squares_total(values@, average) is Some && (squared.mantissa as int) % (
        k as int) == 0 {
            let v = r->0;
            let p = pow10((MAX_SCALE - squared.scale) as nat);
            if squared.mantissa == 0 {
                lemma_units_zero(squared);
                lemma_units_zero(zero_spec());
                assert(v == zero_spec());
                assert(v.units() * k == squared.units());
            } else {
                let q = (squared.mantissa as int) / (k as int);
                assert(v == Dec { mantissa: q as i128, scale: squared.scale });
                assert(q * k == squared.mantissa) by (nonlinear_arith)
                    requires
                        k > 0,
                        (squared.mantissa as int) % (k as int) == 0,
                        q == (squared.mantissa as int) / (k as int),
                ;
                assert(v.units() == q * p);
                assert(squared.units() == squared.mantissa * p);
                assert((q * p) * k == squared.mantissa * p) by (nonlinear_arith)
                    requires
                        q * k == squared.mantissa,
                ;
                assert(v.units() * k == squared.units());
            }
            assert(v.units() * k * unit_scale() == squared.units() * unit_scale()) by (nonlinear_arith)
                requires
                    v.units() * k == squared.units(),
            ;
        }
    }
    r
}

/// The square root of the sample variance, never negative; it is zero for a
/// sample that does not vary (under the same bounds as the variance).
pub fn standard_deviation(values: &[Dec]) -> (r: Option<Dec>)
    requires
        values.len() >= 2,
        all_wf(values@),
    ensures
        r == standard_deviation_spec(values@),
        r is Some ==> sample_variance_spec(values@) is Some,
        r matches Some(d) ==> d.wf() && d.mantissa >= 0,
        values@.len() <= 0xFFFF_FFFF && constant_sample(values@, values@[0]) && copies_fit(
            values@.len() as int,
            values@[0],
        ) ==> r == Some(zero_spec()),
{
    match sample_variance(values) {
        Some(v) => square_root(v),
        None => None,
    }
}

/// Mean, sample variance and standard deviation together; for a sample
/// that does not vary, its value with a variance and a deviation of zero.
pub fn basic_summary(values: &[Dec]) -> (r: Option<BasicSummary>)
    requires
        values.len() >= 2,
        all_wf(values@),
    ensures
        r == basic_summary_spec(values@),
        r is Some ==> (sample_variance_spec(values@) is Some && mean_spec(values@) is Some),
        r matches Some(b) ==> b.mean.wf() && b.sample_variance.wf() && b.standard_deviation.wf()
            && b.sample_variance.mantissa >= 0 && b.standard_deviation.mantissa >= 0,
        values@.len() <= 0xFFFF_FFFF && constant_sample(values@, values@[0]) && copies_fit(
            values@.len() as int,
            values@[0],
        ) ==> r == Some(
            BasicSummary {
                mean: if values@[0].mantissa == 0 { zero_spec() } else { values@[0] },
                sample_variance: zero_spec(),
                standard_deviation: zero_spec(),
            },
        ),
{
    let variance = match sample_variance(values) {
        Some(v) => v,
        None => return None,
    };
    let average = match mean(values) {
        Some(m) => m,
        None => return None,
    };
    match square_root(variance) {
        Some(d) => Some(BasicSummary { mean: average, sample_variance: variance, standard_deviation: d }),
        None => None,
    }
}

/// Quartiles, median, interquartile range and standard deviation.  The lower
/// quartile never exceeds the upper one, the interquartile range and the
/// deviation are never negative, and the median lies between the quartiles
/// (for a sample of even size where halving the middle pair is exact); a sample that does not vary has its value for quartiles and
/// median and no spread at all.  The sample needs at least two values.
pub fn dispersion_summary(values: &[Dec]) -> (r: Option<DispersionSummary>)
    requires
        values.len() >= 2,
        3 * values.len() <= usize::MAX,
        all_wf(values@),
    ensures
        r == dispersion_summary_spec(values@),
        4 * lower_quartile_index(values@.len()) < values@.len() <= 4 * lower_quartile_index(values@.len()) + 4,
        4 * upper_quartile_index(values@.len()) < 3 * values@.len() <= 4 * upper_quartile_index(values@.len())
            + 4,
        r matches Some(d) ==> {
            &&& d.lower_quartile == sort_by_value(values@)[lower_quartile_index(values@.len())]
            &&& d.upper_quartile == sort_by_value(values@)[upper_quartile_index(values@.len())]
            &&& d.standard_deviation == standard_deviation_spec(values@)->0
            &&& d.lower_quartile.units() <= d.upper_quartile.units()
            &&& d.interquartile_range.mantissa >= 0
            &&& d.lower_quartile.wf() && d.median.wf() && d.upper_quartile.wf()
            &&& d.interquartile_range.wf() && d.standard_deviation.wf()
            &&& d.standard_deviation.mantissa >= 0
        },
        values@.len() % 2 == 1 || middle_pair_exact(sort_by_value(values@)) ==> (r matches Some(d)
            ==> d.lower_quartile.units() <= d.median.units() <= d.upper_quartile.units()),
        values@.len() <= 0xFFFF_FFFF && constant_sample(values@, values@[0]) && copies_fit(
            values@.len() as int,
            values@[0],
        ) ==> (r matches Some(d) && {
            &&& d.lower_quartile == values@[0]
            &&& d.upper_quartile == values@[0]
            &&& d.median.units() == values@[0].units()
            &&& d.interquartile_range.mantissa == 0
            &&& d.standard_deviation == zero_spec()
        }),
{
    proof {
        let c = values@[0];
        if values@.len() <= 0xFFFF_FFFF && constant_sample(values@, c) && copies_fit(values@.len() as int, c) {
            lemma_sort_constant(values@, c);
            let n = values@.len() as int;
            assert(copies_fit(2, c)) by (nonlinear_arith)
                requires
                    -MAX_MANTISSA <= n * c.mantissa <= MAX_MANTISSA,
                    n >= 2,
            ;
            lemma_units_zero(c);
            if c.mantissa != 0 {
                lemma_same_value_difference(c, c);
            }
        }
    }
    let sorted_values = sorted(values);
    let n = sorted_values.len();
    let lower_index = if n % 4 == 0 { n / 4 } else { n / 4 + 1 } - 1;
    let upper_index = if (3 * n) % 4 == 0 { 3 * n / 4 } else { 3 * n / 4 + 1 } - 1;
    let lower_quartile = sorted_values[lower_index];
    let upper_quartile = sorted_values[upper_index];
    let median = match median_of_sorted(sorted_values.as_slice()) {
        Some(m) => m,
        None => return None,
    };
    proof {
        let t = sorted_values@;
        let mid = (n / 2) as int;
        assert(lower_index <= mid);
        assert(mid <= upper_index);
        if n % 2 == 0 {
            assert(lower_index <= mid - 1);
            assert(t[lower_index as int].units() <= t[mid - 1].units());
        } else {
            assert(t[lower_index as int].units() <= t[mid].units());
        }
        assert(t[mid].units() <= t[upper_index as int].units());
    }
    let interquartile_range = match dec_checked_sub(upper_quartile, lower_quartile) {
        Some(d) => d,
        None => return None,
    };
    let standard_deviation = match standard_deviation(values) {
        Some(d) => d,
        None => return None,
    };
    Some(
        DispersionSummary {
            lower_quartile,
            median,
            upper_quartile,
            interquartile_range,
            standard_deviation,
        },
    )
}

/// The order of the sample moves neither quartile in value, nor the median of
/// a sample of odd size: the same values in any order give quartiles of the
/// same values.  (The representation of a quartile may change with the order
/// of equal values, and the deviation is summed in the sample's order.)
pub proof fn lemma_quartiles_ignore_order(s1: Seq<Dec>, s2: Seq<Dec>)
    requires
        s1.len() > 0,
        s1.to_multiset() == s2.to_multiset(),
    ensures
        s1.len() == s2.len(),
        (dispersion_summary_spec(s1), dispersion_summary_spec(s2)) matches (Some(d1), Some(d2)) ==> {
            &&& d1.lower_quartile.units() == d2.lower_quartile.units()
            &&& d1.upper_quartile.units() == d2.upper_quartile.units()
            &&& s1.len() % 2 == 1 ==> d1.median.units() == d2.median.units()
        },
{
    broadcast use vstd::seq_lib::group_to_multiset_ensures;
    assert(s1.len() == s1.to_multiset().len());
    assert(s2.len() == s2.to_multiset().len());
    lemma_sort_by_value(s1);
    lemma_sort_by_value(s2);
    let t1 = sort_by_value(s1);
    let t2 = sort_by_value(s2);
    lemma_sorted_permutations_agree(t1, t2);
    let n = s1.len();
    let lower = lower_quartile_index(n);
    let upper = upper_quartile_index(n);
    assert(0 <= lower < n);
    assert(0 <= upper < n);
    assert(t1[lower].units() == t2[lower].units());
    assert(t1[upper].units() == t2[upper].units());
    assert(t1[(n / 2) as int].units() == t2[(n / 2) as int].units());
    if let Some(d1) = dispersion_summary_spec(s1) {
        if let Some(d2) = dispersion_summary_spec(s2) {
            assert(d1.lower_quartile == t1[lower]);
            assert(d2.lower_quartile == t2[lower]);
            assert(d1.upper_quartile == t1[upper]);
            assert(d2.upper_quartile == t2[upper]);
            if n % 2 == 1 {
                assert(median_of_sorted_spec(t1) == Some(t1[(n / 2) as int]));
                assert(median_of_sorted_spec(t2) == Some(t2[(n / 2) as int]));
                assert(d1.median == t1[(n / 2) as int]);
                assert(d2.median == t2[(n / 2) as int]);
            }
            assert(d1.lower_quartile.units() == d2.lower_quartile.units());
            assert(d1.upper_quartile.units() == d2.upper_quartile.units());
        }
    }
}

/// The interquartile range over the standard deviation, the median minus the
/// lower quartile and the upper quartile minus the median; `None` for a
/// deviation of zero or where an operation fails.
pub open spec fn dispersion_ratios_spec(d: DispersionSummary) -> Option<(Dec, Dec, Dec)> {
    if d.standard_deviation.mantissa == 0 {
        None
    } else {
        match (
            decimal_checked_div(d.interquartile_range, d.standard_deviation),
            decimal_checked_sub(d.median, d.lower_quartile),
            decimal_checked_sub(d.upper_quartile, d.median),
        ) {
            (Some(ratio), Some(lower_spread), Some(upper_spread)) => Some((ratio, lower_spread, upper_spread)),
            _ => None,
        }
    }
}

/// How the dispersion compares with a Gaussian's (whose IQR over standard
/// deviation is 1.349), and the spread on each side of the median.  A spread
/// is never negative where the median lies on that side of its quartile.
pub fn dispersion_ratios(d: &DispersionSummary) -> (r: Option<(Dec, Dec, Dec)>)
    requires
        d.lower_quartile.wf(),
        d.median.wf(),
        d.upper_quartile.wf(),
        d.interquartile_range.wf(),
        d.standard_deviation.wf(),
    ensures
        r == dispersion_ratios_spec(*d),
        d.standard_deviation.mantissa == 0 ==> r is None,
        r matches Some(t) ==> {
            &&& (d.lower_quartile.units() <= d.median.units() ==> t.1.mantissa >= 0)
            &&& (d.median.units() <= d.upper_quartile.units() ==> t.2.mantissa >= 0)
            &&& (d.interquartile_range.mantissa >= 0 && d.standard_deviation.mantissa >= 0 ==> t.0.mantissa
                >= 0)
        },
{
    if d.standard_deviation.mantissa == 0 {
        return None;
    }
    let ratio = match dec_checked_div(d.interquartile_range, d.standard_deviation) {
        Some(q) => q,
        None => return None,
    };
    let lower_spread = match dec_checked_sub(d.median, d.lower_quartile) {
        Some(x) => x,
        None => return None,
    };
    let upper_spread = match dec_checked_sub(d.upper_quartile, d.median) {
        Some(x) => x,
        None => return None,
    };
    Some((ratio, lower_spread, upper_spread))
}

} // verus!
