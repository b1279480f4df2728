//! Robust averages: during a crash the point changes of the closes have a
//! mean pulled by a few extreme days, while the trimmed mean and the median
//! stay near the typical day.

use crate::decimal::{
    all_wf, dec_checked_sub, decimal_checked_sub, exact_difference, exact_difference_fits, Dec,
};
use crate::statistics::{
    mean, mean_spec, median, median_spec, trimmed_mean, trimmed_mean_spec,
};
use vstd::prelude::*;

verus! {

/// One day's close.
#[derive(Debug)]
pub struct ClosingPrice {
    pub date: String,
    pub close: Dec,
}

/// How much is trimmed from each end for the trimmed mean, in percent.
pub const TRIM_PERCENT: usize = 5usize;

/// The change of each close from the close before it; the first day has none.
pub open spec fn point_changes_spec(days: Seq<ClosingPrice>) -> Option<Seq<Dec>>
    decreases days.len(),
{
    if days.len() <= 1 {
        Some(Seq::empty())
    } else {
        match (
            point_changes_spec(days.drop_last()),
            decimal_checked_sub(days.last().close, days[days.len() - 2].close),
        ) {
            (Some(changes), Some(c)) => Some(changes.push(c)),
            _ => None,
        }
    }
}

pub open spec fn closes_wf(days: Seq<ClosingPrice>) -> bool {
    forall|i: int| 0 <= i < days.len() ==> #[trigger] days[i].close.wf()
}

/// The changes, and the three averages of them.
pub struct RobustAveragesReport {
    /// The change at each day; `None` on the first day.
    pub point_changes: Vec<Option<Dec>>,
    pub mean: Dec,
    pub trimmed_mean: Dec,
    pub median: Dec,
}

proof fn lemma_changes_none_extends(days: Seq<ClosingPrice>, k: int)
    requires
        1 <= k <= days.len(),
        point_changes_spec(days.take(k)) is None,
    ensures
        point_changes_spec(days) is None,
    decreases days.len() - k,
{
    if k < days.len() {
        assert(days.take(k + 1).drop_last() =~= days.take(k));
        lemma_changes_none_extends(days, k + 1);
    } else {
        assert(days.take(k) =~= days);
    }
}

/// The change of every close from the one before, one fewer than the days.
pub fn point_changes(days: &[ClosingPrice]) -> (r: Option<Vec<Dec>>)
    requires
        days.len() >= 1,
        closes_wf(days@),
    ensures
        match r {
            Some(v) => point_changes_spec(days@) == Some(v@) && all_wf(v@) && v@.len() == days@.len()
                - 1,
            None => point_changes_spec(days@) is None,
        },
        r matches Some(v) ==> forall|i: int|
            0 <= i < v@.len() ==> (days@[i + 1].close.mantissa != 0 && days@[i].close.mantissa != 0
                && exact_difference_fits(days@[i + 1].close, days@[i].close) ==> #[trigger] v@[i]
                == exact_difference(days@[i + 1].close, days@[i].close)),
{
    let n = days.len();
    let mut changes: Vec<Dec> = Vec::new();
    let mut previous_closing_price = days[0].close;
    proof {
        assert(days@.take(1).len() == 1);
    }
    for i in 1..n
        invariant
            n == days.len(),
            closes_wf(days@),
            previous_closing_price == days@[i - 1].close,
            point_changes_spec(days@.take(i as int)) == Some(changes@),
            all_wf(changes@),
            changes@.len() == i - 1,
            forall|k: int|
                0 <= k < changes@.len() ==> (days@[k + 1].close.mantissa != 0 && days@[k].close.mantissa != 0
                    && exact_difference_fits(days@[k + 1].close, days@[k].close) ==> #[trigger] changes@[k]
                    == exact_difference(days@[k + 1].close, days@[k].close)),
    {
        proof {
            assert(days@.take(i + 1).drop_last() =~= days@.take(i as int));
            assert(days@.take(i + 1)[i - 1] == days@[i - 1]);
        }
        let closing_price = days[i].close;
        match dec_checked_sub(closing_price, previous_closing_price) {
            Some(c) => changes.push(c),
            None => {
                proof {
                    lemma_changes_none_extends(days@, i + 1);
                }
                return None;
            },
        }
        previous_closing_price = closing_price;
    }
    proof {
        assert(days@.take(n as int) =~= days@);
    }
    Some(changes)
}

/// The point changes of the closes, with their mean, 5% trimmed mean and
/// median; `None` where the decimal arithmetic fails.  The first day has no
/// change, so that neither a zero nor its close can skew the averages.  It
/// needs at least two days (one change to average).
pub fn run(days: &[ClosingPrice]) -> (r: Option<RobustAveragesReport>)
    requires
        days.len() >= 2,
        days.len() * TRIM_PERCENT <= usize::MAX,
        closes_wf(days@),
    ensures
        r is Some <==> (point_changes_spec(days@) matches Some(c) && mean_spec(c) is Some
            && trimmed_mean_spec(c, TRIM_PERCENT as nat) is Some && median_spec(c) is Some),
        r matches Some(report) ==> {
            &&& report.point_changes@.len() == days@.len()
            &&& report.point_changes@[0] is None
            &&& point_changes_spec(days@) matches Some(c) && {
                &&& forall|i: int| 1 <= i < days@.len() ==> #[trigger] report.point_changes@[i] == Some(c[i - 1])
                &&& mean_spec(c) == Some(report.mean)
                &&& trimmed_mean_spec(c, TRIM_PERCENT as nat) == Some(report.trimmed_mean)
                &&& median_spec(c) == Some(report.median)
            }
        },
{
    let changes = match point_changes(days) {
        Some(c) => c,
        None => return None,
    };
    let mut per_day: Vec<Option<Dec>> = Vec::new();
    per_day.push(None);
    let n = changes.len();
    for i in 0..n
        invariant
            n == changes@.len(),
            per_day@.len() == i + 1,
            per_day@[0] is None,
            forall|k: int| 1 <= k <= i ==> #[trigger] per_day@[k] == Some(changes@[k - 1]),
    {
        per_day.push(Some(changes[i]));
    }
    let average = match mean(changes.as_slice()) {
        Some(m) => m,
        None => return None,
    };
    let trimmed = match trimmed_mean(changes.as_slice(), TRIM_PERCENT) {
        Some(m) => m,
        None => return None,
    };
    let middle = match median(changes.as_slice()) {
        Some(m) => m,
        None => return None,
    };
    Some(RobustAveragesReport { point_changes: per_day, mean: average, trimmed_mean: trimmed, median: middle })
}

} // verus!
