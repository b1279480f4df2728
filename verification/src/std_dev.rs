//! The standard deviation on its own, from the `powd` variance.

use crate::decimal::{all_wf, square_root, sqrt_spec, zero_spec, Dec};
use crate::statistics::{constant_sample, copies_fit};
use crate::variance::{variance, variance_spec};
use vstd::prelude::*;

verus! {

/// The square root of the sample variance, never negative; it is zero for a
/// sample that does not vary (under the bounds of `variance`).
pub fn std_dev(efx: &[Dec]) -> (r: Option<Dec>)
    requires
        all_wf(efx@),
    ensures
        r == (match variance_spec(efx@) {
            Some(v) => sqrt_spec(v),
            None => None,
        }),
        r is Some ==> variance_spec(efx@) is Some,
        r matches Some(d) ==> d.wf() && d.mantissa >= 0,
        2 <= efx@.len() <= 0xFFFF_FFFF && constant_sample(efx@, efx@[0]) && copies_fit(
            efx@.len() as int,
            efx@[0],
        ) ==> r == Some(zero_spec()),
{
    match variance(efx) {
        Some(v) => square_root(v),
        None => None,
    }
}

} // verus!
