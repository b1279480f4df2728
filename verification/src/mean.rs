//! The mean, and a trimmed mean with a fixed 5% trim, on their own.

use crate::decimal::{all_wf, decimal_checked_div, from_int_spec, zero_spec, Dec};
use crate::sort::{lemma_sort_all_wf, lemma_sort_by_value, sort_by_value, sort_values};
use crate::statistics::{
    constant_sample, copies_fit, exact_running_sum, lemma_constant_running_sum, mean_spec, sum,
    trim_count, trimmed_mean_spec,
};
use vstd::prelude::*;

verus! {

/// The arithmetic mean; `None` on an empty sample, where the division by a
/// count of zero fails, and where the sum overflows.  The mean of a sample
/// that does not vary is its value, as for `statistics::mean`.
pub fn mean(efx: &[Dec]) -> (r: Option<Dec>)
    requires
        all_wf(efx@),
    ensures
        r == mean_spec(efx@),
        efx.len() == 0 ==> r is None,
        r matches Some(m) ==> m.wf(),
        exact_running_sum(efx@) matches Some(t) ==> r == decimal_checked_div(
            t,
            from_int_spec(efx@.len() as int),
        ),
        0 < efx@.len() <= 0xFFFF_FFFF && constant_sample(efx@, efx@[0]) && copies_fit(
            efx@.len() as int,
            efx@[0],
        ) ==> r == Some(if efx@[0].mantissa == 0 { zero_spec() } else { efx@[0] }),
{
    let n = efx.len();
    proof {
        if 0 < n <= 0xFFFF_FFFF && constant_sample(efx@, efx@[0]) && copies_fit(n as int, efx@[0]) {
            lemma_constant_running_sum(efx@, efx@[0]);
            let c = efx@[0];
            if c.mantissa != 0 {
                let m = n * c.mantissa;
                assert(m != 0) by (nonlinear_arith)
                    requires
                        n > 0,
                        c.mantissa != 0,
                        m == n * c.mantissa,
                ;
                assert(m % (n as int) == 0 && m / (n as int) == c.mantissa) by (nonlinear_arith)
                    requires
                        n > 0,
                        m == n * c.mantissa,
                ;
            }
        }
    }
    match sum(efx) {
        Some(total) => crate::decimal::dec_checked_div(total, Dec::from_usize(n)),
        None => None,
    }
}

/// The mean after cutting 5% of the sorted values from each end.  The trim
/// argument is not read: the cut is always `len * 5 / 100`.
pub fn trimmed_mean(efx: &[Dec], trim: u8) -> (r: Option<Dec>)
    requires
        all_wf(efx@),
        efx.len() * 5 <= usize::MAX,
    ensures
        r == trimmed_mean_spec(efx@, 5),
        trim_count(efx@.len(), 5) * 100 <= efx@.len() * 5 < trim_count(efx@.len(), 5) * 100 + 100,
        r == mean_spec(
            sort_by_value(efx@).subrange(
                trim_count(efx@.len(), 5) as int,
                efx@.len() - trim_count(efx@.len(), 5),
            ),
        ),
{
    proof {
        lemma_sort_by_value(efx@);
        lemma_sort_all_wf(efx@);
    }
    let s = sort_values(efx);
    let n = s.len();
    let k = n * 5 / 100;
    let kept = &s.as_slice()[k..n - k];
    proof {
        assert forall|i: int| 0 <= i < kept@.len() implies #[trigger] kept@[i].wf() by {
            assert(kept@[i] == s@[i + k]);
        }
    }
    mean(kept)
}

} // verus!
