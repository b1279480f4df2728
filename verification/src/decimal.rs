//! A plain-value model of a `rust_decimal::Decimal` and the arithmetic that the
//! statistics are built from.
//!
//! A `Dec` holds what a `Decimal` is made of: a signed mantissa below 2^96 in
//! magnitude and a scale of at most 28 decimal places.  Its value is
//! `mantissa / 10^scale`.  Every value of that form is an integer number of
//! units of 10^-28, which gives an exact order on values (`units`).

use rust_decimal::Decimal;
use rust_decimal::MathematicalOps;
use std::str::FromStr;
use vstd::prelude::*;

verus! {

/// The largest mantissa magnitude a decimal can hold: 2^96 - 1.
pub const MAX_MANTISSA: i128 = 0xFFFF_FFFF_FFFF_FFFF_FFFF_FFFFi128;

/// The largest number of decimal places.
pub const MAX_SCALE: u32 = 28u32;

/// `10^n`.
pub open spec fn pow10(n: nat) -> int
    decreases n,
{
    if n == 0 {
        1
    } else {
        10 * pow10((n - 1) as nat)
    }
}

pub proof fn lemma_pow10_positive(n: nat)
    ensures
        pow10(n) > 0,
    decreases n,
{
    if n > 0 {
        lemma_pow10_positive((n - 1) as nat);
    }
}

/// `10^(x + y) == 10^x * 10^y`.
pub proof fn lemma_pow10_add(x: nat, y: nat)
    ensures
        pow10(x + y) == pow10(x) * pow10(y),
    decreases x,
{
    if x > 0 {
        lemma_pow10_add((x - 1) as nat, y);
        assert(pow10(x + y) == 10 * pow10((x - 1 + y) as nat));
        assert(pow10(x) * pow10(y) == 10 * (pow10((x - 1) as nat) * pow10(y))) by (nonlinear_arith)
            requires
                pow10(x) == 10 * pow10((x - 1) as nat),
        ;
    }
}

/// A decimal number `mantissa / 10^scale`.  `==` compares the representation
/// (mantissa and scale); `compare` compares values, so that 2.0 and 2 are
/// equal in value but not in representation.
#[derive(Clone, Copy, Debug, PartialEq, Eq, Structural)]
pub struct Dec {
    pub mantissa: i128,
    pub scale: u32,
}

impl Dec {
    /// The representation limits of a decimal.
    pub open spec fn wf(self) -> bool {
        &&& -MAX_MANTISSA <= self.mantissa <= MAX_MANTISSA
        &&& self.scale <= MAX_SCALE
    }

    /// The value in units of 10^-28.
    pub open spec fn units(self) -> int {
        self.mantissa * pow10((MAX_SCALE - self.scale) as nat)
    }

    /// Builds `num / 10^scale`, as `Decimal::new` does.
    pub fn new(num: i64, scale: u32) -> (d: Dec)
        requires
            scale <= MAX_SCALE,
        ensures
            d.mantissa == num,
            d.scale == scale,
            d.wf(),
    {
        Dec { mantissa: num as i128, scale }
    }

    /// The decimal zero.
    pub fn zero() -> (d: Dec)
        ensures
            d == zero_spec(),
    {
        Dec { mantissa: 0, scale: 0 }
    }

    /// The integer `n`, as `Decimal::from(n)` builds it.
    pub fn from_usize(n: usize) -> (d: Dec)
        ensures
            d == from_int_spec(n as int),
            d.wf(),
    {
        proof {
            assert(usize::MAX <= 0xFFFF_FFFF_FFFF_FFFF);
        }
        Dec { mantissa: n as i128, scale: 0 }
    }

    /// The decimal a text stands for, as `Decimal::from_str` reads it.
    pub fn parse(text: &str) -> (r: Option<Dec>)
        ensures
            r == decimal_from_str(text@),
            r matches Some(c) ==> c.wf(),
    {
        dec_from_str(text)
    }

    /// -1, 0 or 1 as this decimal is less than, equal to or greater than the
    /// other in value.
    pub fn compare(&self, other: &Dec) -> (r: i8)
        requires
            self.wf(),
            other.wf(),
        ensures
            r == (if self.units() < other.units() { -1i8 } else if self.units() == other.units() { 0i8 } else { 1i8 }),
    {
        dec_compare(*self, *other)
    }

    /// Negation: the mantissa changes sign, the scale stays.
    pub fn neg(self) -> (d: Dec)
        requires
            self.wf(),
        ensures
            d.mantissa == -self.mantissa,
            d.scale == self.scale,
            d.wf(),
    {
        Dec { mantissa: -self.mantissa, scale: self.scale }
    }
}

pub open spec fn zero_spec() -> Dec {
    Dec { mantissa: 0, scale: 0 }
}

pub open spec fn from_int_spec(n: int) -> Dec {
    Dec { mantissa: n as i128, scale: 0 }
}

pub open spec fn all_wf(s: Seq<Dec>) -> bool {
    forall|i: int| 0 <= i < s.len() ==> #[trigger] s[i].wf()
}

// ----------------------------------------------------------------------------
// What the outside arithmetic computes, by name.
// ----------------------------------------------------------------------------

/// What `Decimal::checked_add` gives for two decimals.
pub uninterp spec fn decimal_checked_add(a: Dec, b: Dec) -> Option<Dec>;

/// What `Decimal::checked_sub` gives for two decimals.
pub uninterp spec fn decimal_checked_sub(a: Dec, b: Dec) -> Option<Dec>;

/// What `Decimal::checked_mul` gives for two decimals.
pub uninterp spec fn decimal_checked_mul(a: Dec, b: Dec) -> Option<Dec>;

/// What `Decimal::checked_div` gives for two decimals.
pub uninterp spec fn decimal_checked_div(a: Dec, b: Dec) -> Option<Dec>;

/// What `MathematicalOps::checked_powu` gives for a decimal and an exponent.
pub uninterp spec fn decimal_checked_powu(a: Dec, exp: u64) -> Option<Dec>;

/// What `Decimal::from_str` gives for a text, `None` where it reports an error.
pub uninterp spec fn decimal_from_str(text: Seq<char>) -> Option<Dec>;

/// The scale at which two decimals are added: the larger of the two.
pub open spec fn common_scale(a: Dec, b: Dec) -> nat {
    if a.scale >= b.scale { a.scale as nat } else { b.scale as nat }
}

/// The mantissa of `a` written at scale `s` (for `s >= a.scale`).
pub open spec fn mantissa_at(a: Dec, s: nat) -> int {
    a.mantissa * pow10((s - a.scale) as nat)
}

/// The exact sum at the common scale, when its mantissa fits.
pub open spec fn exact_sum_fits(a: Dec, b: Dec) -> bool {
    let m = mantissa_at(a, common_scale(a, b)) + mantissa_at(b, common_scale(a, b));
    -MAX_MANTISSA <= m <= MAX_MANTISSA
}

pub open spec fn exact_sum(a: Dec, b: Dec) -> Dec {
    Dec {
        mantissa: (mantissa_at(a, common_scale(a, b)) + mantissa_at(b, common_scale(a, b))) as i128,
        scale: common_scale(a, b) as u32,
    }
}

pub open spec fn exact_difference_fits(a: Dec, b: Dec) -> bool {
    let m = mantissa_at(a, common_scale(a, b)) - mantissa_at(b, common_scale(a, b));
    -MAX_MANTISSA <= m <= MAX_MANTISSA
}

pub open spec fn exact_difference(a: Dec, b: Dec) -> Dec {
    Dec {
        mantissa: (mantissa_at(a, common_scale(a, b)) - mantissa_at(b, common_scale(a, b))) as i128,
        scale: common_scale(a, b) as u32,
    }
}

pub open spec fn exact_product_fits(a: Dec, b: Dec) -> bool {
    &&& -MAX_MANTISSA <= a.mantissa * b.mantissa <= MAX_MANTISSA
    &&& a.scale + b.scale <= MAX_SCALE
}

pub open spec fn exact_product(a: Dec, b: Dec) -> Dec {
    Dec { mantissa: (a.mantissa * b.mantissa) as i128, scale: (a.scale + b.scale) as u32 }
}

/// Adding two decimals exactly: a zero operand gives the other one back, two
/// non-zero operands give their exact sum at the larger scale where it fits,
/// and `None` where it does not.
pub open spec fn exact_add(a: Dec, b: Dec) -> Option<Dec> {
    if a.mantissa == 0 {
        Some(b)
    } else if b.mantissa == 0 {
        Some(a)
    } else if exact_sum_fits(a, b) {
        Some(exact_sum(a, b))
    } else {
        None
    }
}

/// The exact sum keeps the value: its units are the units of the operands
/// added up.
pub proof fn lemma_exact_sum_units(a: Dec, b: Dec)
    requires
        a.wf(),
        b.wf(),
        exact_sum_fits(a, b),
    ensures
        exact_sum(a, b).units() == a.units() + b.units(),
        exact_sum(a, b).wf(),
{
    let s = common_scale(a, b);
    let da = (s - a.scale) as nat;
    let db = (s - b.scale) as nat;
    let top = (MAX_SCALE - s) as nat;
    lemma_pow10_add(da, top);
    lemma_pow10_add(db, top);
    assert((MAX_SCALE - a.scale) as nat == da + top);
    assert((MAX_SCALE - b.scale) as nat == db + top);
    let ma = a.mantissa * pow10(da);
    let mb = b.mantissa * pow10(db);
    assert(exact_sum(a, b).mantissa == ma + mb);
    assert((ma + mb) * pow10(top) == a.mantissa * pow10(da + top) + b.mantissa * pow10(db + top))
        by (nonlinear_arith)
        requires
            ma == a.mantissa * pow10(da),
            mb == b.mantissa * pow10(db),
            pow10(da + top) == pow10(da) * pow10(top),
            pow10(db + top) == pow10(db) * pow10(top),
    ;
}

/// What `exact_add` gives keeps the value.
pub proof fn lemma_exact_add_units(a: Dec, b: Dec)
    requires
        a.wf(),
        b.wf(),
    ensures
        exact_add(a, b) matches Some(c) ==> c.units() == a.units() + b.units() && c.wf(),
{
    if a.mantissa == 0 {
        assert(a.units() == 0) by (nonlinear_arith)
            requires
                a.mantissa == 0,
                a.units() == a.mantissa * pow10((MAX_SCALE - a.scale) as nat),
        ;
    } else if b.mantissa == 0 {
        assert(b.units() == 0) by (nonlinear_arith)
            requires
                b.mantissa == 0,
                b.units() == b.mantissa * pow10((MAX_SCALE - b.scale) as nat),
        ;
    } else if exact_sum_fits(a, b) {
        lemma_exact_sum_units(a, b);
    }
}

/// A decimal is zero exactly when its value is.
pub proof fn lemma_units_zero(a: Dec)
    ensures
        a.mantissa == 0 <==> a.units() == 0,
{
    let p = pow10((MAX_SCALE - a.scale) as nat);
    lemma_pow10_positive((MAX_SCALE - a.scale) as nat);
    assert(a.mantissa == 0 <==> a.mantissa * p == 0) by (nonlinear_arith)
        requires
            p > 0,
    ;
}

/// Two decimals of one value have an exact difference of zero.
pub proof fn lemma_same_value_difference(a: Dec, b: Dec)
    requires
        a.wf(),
        b.wf(),
        a.units() == b.units(),
    ensures
        exact_difference_fits(a, b),
        exact_difference(a, b).mantissa == 0,
{
    let s = common_scale(a, b);
    let da = (s - a.scale) as nat;
    let db = (s - b.scale) as nat;
    let top = (MAX_SCALE - s) as nat;
    lemma_pow10_add(da, top);
    lemma_pow10_add(db, top);
    lemma_pow10_positive(top);
    assert((MAX_SCALE - a.scale) as nat == da + top);
    assert((MAX_SCALE - b.scale) as nat == db + top);
    let ma = a.mantissa * pow10(da);
    let mb = b.mantissa * pow10(db);
    assert(ma == mb) by (nonlinear_arith)
        requires
            ma == a.mantissa * pow10(da),
            mb == b.mantissa * pow10(db),
            a.mantissa * pow10(da + top) == b.mantissa * pow10(db + top),
            pow10(da + top) == pow10(da) * pow10(top),
            pow10(db + top) == pow10(db) * pow10(top),
            pow10(top) > 0,
    ;
}

/// The two have opposite signs (zero counts as either).
pub open spec fn opposite_sign(a: Dec, b: Dec) -> bool {
    (a.mantissa >= 0 && b.mantissa <= 0) || (a.mantissa <= 0 && b.mantissa >= 0)
}

/// Both have the same sign (zero counts as either).
pub open spec fn same_sign(a: Dec, b: Dec) -> bool {
    (a.mantissa >= 0 && b.mantissa >= 0) || (a.mantissa <= 0 && b.mantissa <= 0)
}

// ----------------------------------------------------------------------------
// The calls into rust_decimal.
// ----------------------------------------------------------------------------

/// Calls `Decimal::checked_add`.  Claimed of it, as its source shows: a zero
/// left operand gives the right operand back, a zero right operand gives the
/// left one back, two non-zero operands whose exact sum fits in 96 bits at the
/// larger of their scales give that exact sum at that scale, the result has
/// the common sign of two operands of one sign, and every result is a valid
/// decimal.  Otherwise (rounding, overflow) only the name says what it is.
#[verifier::external_body]
pub(crate) fn dec_checked_add(a: Dec, b: Dec) -> (r: Option<Dec>)
    requires
        a.wf(),
        b.wf(),
    ensures
        r == decimal_checked_add(a, b),
        r matches Some(c) ==> c.wf(),
        a.mantissa == 0 ==> r == Some(b),
        a.mantissa != 0 && b.mantissa == 0 ==> r == Some(a),
        a.mantissa != 0 && b.mantissa != 0 && exact_sum_fits(a, b) ==> r == Some(exact_sum(a, b)),
        a.mantissa >= 0 && b.mantissa >= 0 ==> (r matches Some(c) ==> c.mantissa >= 0),
        a.mantissa <= 0 && b.mantissa <= 0 ==> (r matches Some(c) ==> c.mantissa <= 0),
{
    let x = Decimal::from_i128_with_scale(a.mantissa, a.scale);
    let y = Decimal::from_i128_with_scale(b.mantissa, b.scale);
    match x.checked_add(y) {
        Some(z) => Some(Dec { mantissa: z.mantissa(), scale: z.scale() }),
        None => None,
    }
}


/// Calls `Decimal::checked_sub`.  Claimed of it, as its source shows: a zero
/// left operand gives the right operand with its sign turned, a zero right
/// operand gives the left one back, two non-zero operands whose exact
/// difference fits in 96 bits at the larger of their scales give that exact
/// difference at that scale, the result is never below zero when the left
/// operand is at least the right one (nor above zero when it is at most), and
/// every result is a valid decimal.  The operands swapped give the negated
/// result, or fail alike.  The negation keeps the scale except where both
/// operands are zero: then each order gives the zero of its right operand
/// (so the swapped result has the scale of `a`).  Where one operand is zero,
/// the zero-operand rules above give this; where neither is, every path of
/// `add_sub_internal` (both fast paths, `aligned_add`, `unaligned_add` and its
/// wide buffer with `rescale`) works on the magnitudes in an order fixed by
/// the scales alone (the operand of lower scale is the one rescaled) and only
/// the sign flag depends on the order, rounding included.
#[verifier::external_body]
pub(crate) fn dec_checked_sub(a: Dec, b: Dec) -> (r: Option<Dec>)
    requires
        a.wf(),
        b.wf(),
    ensures
        r == decimal_checked_sub(a, b),
        r matches Some(c) ==> c.wf(),
        a.mantissa == 0 ==> r == Some(Dec { mantissa: (-b.mantissa) as i128, scale: b.scale }),
        a.mantissa != 0 && b.mantissa == 0 ==> r == Some(a),
        a.mantissa != 0 && b.mantissa != 0 && exact_difference_fits(a, b) ==> r == Some(
            exact_difference(a, b),
        ),
        a.units() >= b.units() ==> (r matches Some(c) ==> c.mantissa >= 0),
        a.units() <= b.units() ==> (r matches Some(c) ==> c.mantissa <= 0),
        r matches Some(c) ==> decimal_checked_sub(b, a) == Some(
            Dec {
                mantissa: (-c.mantissa) as i128,
                scale: if a.mantissa == 0 && b.mantissa == 0 { a.scale } else { c.scale },
            },
        ),
        r is None ==> decimal_checked_sub(b, a) is None,
{
    let x = Decimal::from_i128_with_scale(a.mantissa, a.scale);
    let y = Decimal::from_i128_with_scale(b.mantissa, b.scale);
    match x.checked_sub(y) {
        Some(z) => Some(Dec { mantissa: z.mantissa(), scale: z.scale() }),
        None => None,
    }
}

/// Calls `Decimal::checked_mul`.  Claimed of it, as its source shows: a zero
/// operand gives zero (mantissa 0, scale 0), two non-zero operands whose
/// mantissa product fits in 96 bits and whose scales add up to at most 28 give
/// that exact product, the sign of the result is the product of the signs
/// (operands of one sign give a result that is not negative, operands of
/// opposite signs one that is not positive), and every result is a valid
/// decimal.
#[verifier::external_body]
pub(crate) fn dec_checked_mul(a: Dec, b: Dec) -> (r: Option<Dec>)
    requires
        a.wf(),
        b.wf(),
    ensures
        r == decimal_checked_mul(a, b),
        r matches Some(c) ==> c.wf(),
        a.mantissa == 0 || b.mantissa == 0 ==> r == Some(zero_spec()),
        a.mantissa != 0 && b.mantissa != 0 && exact_product_fits(a, b) ==> r == Some(
            exact_product(a, b),
        ),
        same_sign(a, b) ==> (r matches Some(c) ==> c.mantissa >= 0),
        opposite_sign(a, b) ==> (r matches Some(c) ==> c.mantissa <= 0),
{
    let x = Decimal::from_i128_with_scale(a.mantissa, a.scale);
    let y = Decimal::from_i128_with_scale(b.mantissa, b.scale);
    match x.checked_mul(y) {
        Some(z) => Some(Dec { mantissa: z.mantissa(), scale: z.scale() }),
        None => None,
    }
}

/// Calls `Decimal::checked_div`.  Claimed of it, as its source shows: a zero
/// divisor gives `None`, a zero dividend over a non-zero divisor gives zero
/// (mantissa 0, scale 0), a non-zero dividend over a divisor whose mantissa
/// fits in 32 bits, divides the dividend's mantissa and has no more decimal
/// places gives the exact quotient of the mantissas at the difference of the
/// scales, operands of one sign give a result that is not negative and
/// operands of opposite signs one that is not positive, and every result is a
/// valid decimal.
#[verifier::external_body]
pub(crate) fn dec_checked_div(a: Dec, b: Dec) -> (r: Option<Dec>)
    requires
        a.wf(),
        b.wf(),
    ensures
        r == decimal_checked_div(a, b),
        r matches Some(c) ==> c.wf(),
        b.mantissa == 0 ==> r is None,
        a.mantissa == 0 && b.mantissa != 0 ==> r == Some(zero_spec()),
        a.mantissa != 0 && b.mantissa != 0 && -0xFFFF_FFFF <= b.mantissa <= 0xFFFF_FFFF
            && a.mantissa % b.mantissa == 0 && a.scale >= b.scale ==> r == Some(
            Dec { mantissa: (a.mantissa / b.mantissa) as i128, scale: (a.scale - b.scale) as u32 },
        ),
        same_sign(a, b) ==> (r matches Some(c) ==> c.mantissa >= 0),
        opposite_sign(a, b) ==> (r matches Some(c) ==> c.mantissa <= 0),
{
    let x = Decimal::from_i128_with_scale(a.mantissa, a.scale);
    let y = Decimal::from_i128_with_scale(b.mantissa, b.scale);
    match x.checked_div(y) {
        Some(z) => Some(Dec { mantissa: z.mantissa(), scale: z.scale() }),
        None => None,
    }
}

/// Calls `Ord::cmp` of `Decimal` and gives -1, 0 or 1 for less, equal and
/// greater.  Claimed of it: it orders by value, that is by `units`.
#[verifier::external_body]
pub(crate) fn dec_compare(a: Dec, b: Dec) -> (r: i8)
    requires
        a.wf(),
        b.wf(),
    ensures
        r == (if a.units() < b.units() { -1i8 } else if a.units() == b.units() { 0i8 } else { 1i8 }),
{
    let x = Decimal::from_i128_with_scale(a.mantissa, a.scale);
    let y = Decimal::from_i128_with_scale(b.mantissa, b.scale);
    match x.cmp(&y) {
        std::cmp::Ordering::Less => -1,
        std::cmp::Ordering::Equal => 0,
        std::cmp::Ordering::Greater => 1,
    }
}

/// The decimal one.
pub open spec fn one_spec() -> Dec {
    Dec { mantissa: 1, scale: 0 }
}

/// Calls `MathematicalOps::checked_powu`.  Claimed of it, as its source shows
/// for the square: zero gives zero, a value equal to one gives one (mantissa 1,
/// scale 0), any other base gives what `checked_mul` gives for the base
/// times itself, so that a square is never negative; every result is a valid
/// decimal.
#[verifier::external_body]
pub(crate) fn dec_checked_powu(a: Dec, exp: u64) -> (r: Option<Dec>)
    requires
        a.wf(),
    ensures
        r == decimal_checked_powu(a, exp),
        r matches Some(c) ==> c.wf(),
        exp == 2 ==> r == (if a.mantissa == 0 {
            Some(zero_spec())
        } else if a.units() == one_spec().units() {
            Some(one_spec())
        } else {
            decimal_checked_mul(a, a)
        }),
        exp == 2 ==> (r matches Some(c) ==> c.mantissa >= 0),
{
    let x = Decimal::from_i128_with_scale(a.mantissa, a.scale);
    match x.checked_powu(exp) {
        Some(z) => Some(Dec { mantissa: z.mantissa(), scale: z.scale() }),
        None => None,
    }
}

/// What `MathematicalOps::checked_powd` gives for a decimal and an exponent.
pub uninterp spec fn decimal_checked_powd(a: Dec, exp: Dec) -> Option<Dec>;

/// Calls `MathematicalOps::powd` (through its checked form, `checked_powd`,
/// which `powd` unwraps), for the exponent 2 only (mantissa 2, scale 0): other
/// exponents can reach the logarithm, which may panic.  Claimed of it, as its
/// source shows: with that exponent it goes on to `checked_powu` with the
/// exponent 2, so that zero gives zero, a value equal
/// to one gives one (mantissa 1, scale 0), any other base gives what
/// `checked_mul` gives for the base times itself, and the result is never
/// negative; every result is a valid decimal.  For every base not equal to
/// one in value (zero included: `checked_mul` gives zero for a zero operand
/// too) the result is what `checked_mul` gives for the base times itself,
/// and so the exact square where its mantissa fits and its scale is at most
/// 28 (the exact product of `checked_mul`).
#[verifier::external_body]
pub(crate) fn dec_checked_powd(a: Dec, exp: Dec) -> (r: Option<Dec>)
    requires
        a.wf(),
        exp == from_int_spec(2),
    ensures
        r == decimal_checked_powd(a, exp),
        r matches Some(c) ==> c.wf(),
        r == (if a.mantissa == 0 {
            Some(zero_spec())
        } else if a.units() == one_spec().units() {
            Some(one_spec())
        } else {
            decimal_checked_mul(a, a)
        }),
        r matches Some(c) ==> c.mantissa >= 0,
        a.units() != one_spec().units() ==> r == decimal_checked_mul(a, a),
        a.mantissa != 0 && a.units() != one_spec().units() && exact_product_fits(a, a) ==> r == Some(
            exact_product(a, a),
        ),
{
    let x = Decimal::from_i128_with_scale(a.mantissa, a.scale);
    let y = Decimal::from_i128_with_scale(exp.mantissa, exp.scale);
    match x.checked_powd(y) {
        Some(z) => Some(Dec { mantissa: z.mantissa(), scale: z.scale() }),
        None => None,
    }
}

/// Calls `Decimal::from_str` and keeps the decimal where it parses.  Claimed
/// of it: the result is the name applied to the text, and a valid decimal.
#[verifier::external_body]
pub(crate) fn dec_from_str(text: &str) -> (r: Option<Dec>)
    ensures
        r == decimal_from_str(text@),
        r matches Some(c) ==> c.wf(),
{
    match Decimal::from_str(text) {
        Ok(z) => Some(Dec { mantissa: z.mantissa(), scale: z.scale() }),
        Err(_) => None,
    }
}

// ----------------------------------------------------------------------------
// The square root, as `MathematicalOps::sqrt` computes it.
// ----------------------------------------------------------------------------

/// The decimal two.
pub open spec fn two_spec() -> Dec {
    Dec { mantissa: 2, scale: 0 }
}

/// The most rounds the square root runs before it gives up.
pub const SQRT_MAX_ROUNDS: u32 = 999u32;

/// One Babylonian round towards the root of `a` from the guess `r`:
/// `(r + a / r) / 2`, each step a checked decimal operation.
pub open spec fn sqrt_round(a: Dec, r: Dec) -> Option<Dec> {
    match decimal_checked_div(a, r) {
        Some(q) => match decimal_checked_add(r, q) {
            Some(s) => decimal_checked_div(s, two_spec()),
            None => None,
        },
        None => None,
    }
}

/// Rounds from the guess `r` (after the guess `last`) until two guesses in a
/// row are equal in value, with at most `rounds_left` rounds to go; `None`
/// where the rounds run out or an operation fails.
pub open spec fn sqrt_rounds(a: Dec, last: Dec, r: Dec, rounds_left: nat) -> Option<Dec>
    decreases rounds_left,
{
    if last.units() == r.units() {
        Some(r)
    } else if rounds_left == 0 {
        None
    } else {
        match sqrt_round(a, r) {
            Some(next) => sqrt_rounds(a, r, next, (rounds_left - 1) as nat),
            None => None,
        }
    }
}

/// The square root: `None` below zero, zero for zero; otherwise the rounds
/// start from half the value (the value itself where the half rounds to
/// zero), after a guess one above it.
pub open spec fn sqrt_spec(a: Dec) -> Option<Dec> {
    if a.mantissa < 0 {
        None
    } else if a.mantissa == 0 {
        Some(zero_spec())
    } else {
        match decimal_checked_div(a, two_spec()) {
            Some(half) => {
                let start = if half.mantissa == 0 { a } else { half };
                match decimal_checked_add(start, one_spec()) {
                    Some(last) => sqrt_rounds(a, last, start, SQRT_MAX_ROUNDS as nat),
                    None => None,
                }
            },
            None => None,
        }
    }
}

/// The square root by the iteration that `MathematicalOps::sqrt` runs: the
/// same start, the same rounds and the same stop, with at most 999 rounds.
/// Where that function would stop the program (an operation that fails, or
/// a 1000th round) this gives `None`.  A root is never negative.
pub fn square_root(a: Dec) -> (r: Option<Dec>)
    requires
        a.wf(),
    ensures
        r == sqrt_spec(a),
        r matches Some(c) ==> c.wf() && c.mantissa >= 0,
        a.mantissa < 0 ==> r is None,
        a.mantissa == 0 ==> r == Some(zero_spec()),
{
    if a.mantissa < 0 {
        return None;
    }
    if a.mantissa == 0 {
        return Some(Dec::zero());
    }
    let two = Dec { mantissa: 2, scale: 0 };
    let one = Dec { mantissa: 1, scale: 0 };
    let half = match dec_checked_div(a, two) {
        Some(h) => h,
        None => return None,
    };
    let mut result = if half.mantissa == 0 { a } else { half };
    let mut last = match dec_checked_add(result, one) {
        Some(l) => l,
        None => return None,
    };
    let mut rounds: u32 = 0;
    while dec_compare(last, result) != 0
        invariant
            a.wf(),
            a.mantissa > 0,
            two == two_spec(),
            result.wf(),
            last.wf(),
            result.mantissa >= 0,
            rounds <= SQRT_MAX_ROUNDS,
            sqrt_spec(a) == sqrt_rounds(a, last, result, (SQRT_MAX_ROUNDS - rounds) as nat),
        decreases SQRT_MAX_ROUNDS - rounds,
    {
        if rounds >= SQRT_MAX_ROUNDS {
            return None;
        }
        rounds = rounds + 1;
        let quotient = match dec_checked_div(a, result) {
            Some(q) => q,
            None => return None,
        };
        let sum = match dec_checked_add(result, quotient) {
            Some(s) => s,
            None => return None,
        };
        let next = match dec_checked_div(sum, two) {
            Some(n) => n,
            None => return None,
        };
        last = result;
        result = next;
    }
    Some(result)
}

} // verus!

