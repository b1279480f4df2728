//! The median on its own.

use crate::decimal::{all_wf, dec_checked_add, dec_checked_div, exact_add, Dec};
use crate::sort::{lemma_sort_all_wf, lemma_sort_by_value, sort_by_value, sort_values};
use crate::statistics::{lemma_halved_exact_sum, median_spec};
use vstd::prelude::*;

verus! {

/// The middle of the sorted values, or the mean of the two middle ones.  The
/// sample must not be empty.
pub fn median(data: &[Dec]) -> (r: Option<Dec>)
    requires
        data.len() > 0,
        all_wf(data@),
    ensures
        r == median_spec(data@),
        ({
            let s = sort_by_value(data@);
            let a = s[s.len() / 2 - 1];
            let b = s[(s.len() / 2) as int];
            s.len() % 2 == 0 ==> match exact_add(a, b) {
                Some(t) => (t.mantissa as int) % 2 == 0 ==> (r matches Some(m) && 2 * m.units() == a.units()
                    + b.units()),
                None => true,
            }
        }),
        ({
            let s = sort_by_value(data@);
            s.len() % 2 == 1 ==> r == Some(s[(s.len() / 2) as int])
        }),
{
    proof {
        lemma_sort_by_value(data@);
        lemma_sort_all_wf(data@);
    }
    let data = sort_values(data);
    let middle = data.len() / 2;
    if data.len() % 2 == 0 {
        let p1 = data[middle - 1];
        let p2 = data[middle];
        proof {
            lemma_halved_exact_sum(p1, p2);
        }
        match dec_checked_add(p1, p2) {
            Some(t) => dec_checked_div(t, Dec::new(2, 0)),
            None => None,
        }
    } else {
        Some(data[middle])
    }
}

} // verus!
