//! The quartiles and the interquartile range.

use crate::decimal::{all_wf, dec_checked_sub, decimal_checked_sub, Dec};
use crate::sort::{lemma_sort_all_wf, lemma_sort_by_value, sort_by_value, sort_values};
use crate::statistics::{lower_quartile_index, upper_quartile_index};
use vstd::prelude::*;

verus! {

/// The upper quartile: the sorted value at position `ceil(3n / 4) - 1`.
/// The sample must not be empty.
pub fn interquartile_get_upper_quartile(data: &[Dec]) -> (r: Dec)
    requires
        data.len() > 0,
        3 * data.len() <= usize::MAX,
        all_wf(data@),
    ensures
        r == sort_by_value(data@)[upper_quartile_index(data@.len())],
        r.wf(),
{
    proof {
        lemma_sort_by_value(data@);
        lemma_sort_all_wf(data@);
    }
    let data = sort_values(data);
    let n = data.len();
    let upper_quartile = if (3 * n) % 4 == 0 { 3 * n / 4 } else { 3 * n / 4 + 1 };
    data[upper_quartile - 1]
}

/// The lower quartile: the sorted value at position `ceil(n / 4) - 1`.
/// The sample must not be empty.
pub fn interquartile_get_lower_quartile(data: &[Dec]) -> (r: Dec)
    requires
        data.len() > 0,
        all_wf(data@),
    ensures
        r == sort_by_value(data@)[lower_quartile_index(data@.len())],
        r.wf(),
{
    proof {
        lemma_sort_by_value(data@);
        lemma_sort_all_wf(data@);
    }
    let data = sort_values(data);
    let n = data.len();
    let lower_quartile = if n % 4 == 0 { n / 4 } else { n / 4 + 1 };
    data[lower_quartile - 1]
}

/// The upper quartile minus the lower quartile, never negative.
pub fn get_interquartile_range(data: &[Dec]) -> (r: Option<Dec>)
    requires
        data.len() > 0,
        3 * data.len() <= usize::MAX,
        all_wf(data@),
    ensures
        r == decimal_checked_sub(
            sort_by_value(data@)[upper_quartile_index(data@.len())],
            sort_by_value(data@)[lower_quartile_index(data@.len())],
        ),
        r matches Some(d) ==> d.mantissa >= 0,
{
    let upper = interquartile_get_upper_quartile(data);
    let lower = interquartile_get_lower_quartile(data);
    proof {
        lemma_sort_by_value(data@);
    }
    dec_checked_sub(upper, lower)
}

} // verus!
