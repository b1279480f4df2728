//! Daily volatility: the open-to-close change of each day in percent, and the
//! mean, sample variance and standard deviation of those changes.

use crate::decimal::{
    all_wf, dec_checked_div, dec_checked_mul, dec_checked_sub, decimal_checked_div,
    decimal_checked_mul, decimal_checked_sub, lemma_same_value_difference, lemma_units_zero,
    zero_spec, Dec,
};
use crate::statistics::{basic_summary, basic_summary_spec, BasicSummary};
use vstd::prelude::*;

verus! {

/// One day's opening and closing price.
#[derive(Debug)]
pub struct DailyPrice {
    pub date: String,
    pub opening_price: Dec,
    pub closing_price: Dec,
}

/// 100.
pub open spec fn hundred() -> Dec {
    Dec { mantissa: 100, scale: 0 }
}

/// `(to - from) * 100 / from`: the change from `from` to `to` in percent.
pub open spec fn percent_change_spec(from: Dec, to: Dec) -> Option<Dec> {
    match decimal_checked_sub(to, from) {
        Some(d) => match decimal_checked_mul(d, hundred()) {
            Some(p) => decimal_checked_div(p, from),
            None => None,
        },
        None => None,
    }
}

/// The change from `from` to `to` in percent; `None` for a `from` of zero.
/// From a positive price, a rise is never a negative change and a fall never
/// a positive one, and no move at all is a change of zero.
pub fn percent_change(from: Dec, to: Dec) -> (r: Option<Dec>)
    requires
        from.wf(),
        to.wf(),
    ensures
        r == percent_change_spec(from, to),
        r matches Some(c) ==> c.wf(),
        from.mantissa == 0 ==> r is None,
        from.mantissa > 0 && to.units() >= from.units() ==> (r matches Some(c) ==> c.mantissa >= 0),
        from.mantissa > 0 && to.units() <= from.units() ==> (r matches Some(c) ==> c.mantissa <= 0),
        from.mantissa != 0 && to.units() == from.units() ==> r == Some(zero_spec()),
{
    proof {
        if from.mantissa != 0 && to.units() == from.units() {
            lemma_units_zero(to);
            lemma_units_zero(from);
            lemma_same_value_difference(to, from);
        }
    }
    match dec_checked_sub(to, from) {
        Some(d) => match dec_checked_mul(d, Dec::new(100, 0)) {
            Some(p) => dec_checked_div(p, from),
            None => None,
        },
        None => None,
    }
}

pub open spec fn daily_changes_spec(days: Seq<DailyPrice>) -> Option<Seq<Dec>>
    decreases days.len(),
{
    if days.len() == 0 {
        Some(Seq::empty())
    } else {
        match (
            daily_changes_spec(days.drop_last()),
            percent_change_spec(days.last().opening_price, days.last().closing_price),
        ) {
            (Some(changes), Some(c)) => Some(changes.push(c)),
            _ => None,
        }
    }
}

/// The percentage changes and their summary.
pub struct VolatilityReport {
    pub percentage_changes: Vec<Dec>,
    pub summary: BasicSummary,
}

pub open spec fn prices_wf(days: Seq<DailyPrice>) -> bool {
    forall|i: int| #![trigger days[i]] 0 <= i < days.len() ==> days[i].opening_price.wf() && days[i].closing_price.wf()
}

proof fn lemma_changes_none_extends(days: Seq<DailyPrice>, k: int)
    requires
        0 <= k <= days.len(),
        daily_changes_spec(days.take(k)) is None,
    ensures
        daily_changes_spec(days) is None,
    decreases days.len() - k,
{
    if k < days.len() {
        assert(days.take(k + 1).drop_last() =~= days.take(k));
        lemma_changes_none_extends(days, k + 1);
    } else {
        assert(days.take(k) =~= days);
    }
}

/// The open-to-close change of every day, in percent, in the order of the days.
pub fn daily_changes(daily_prices: &[DailyPrice]) -> (r: Option<Vec<Dec>>)
    requires
        prices_wf(daily_prices@),
    ensures
        match r {
            Some(v) => daily_changes_spec(daily_prices@) == Some(v@) && all_wf(v@) && v@.len()
                == daily_prices@.len(),
            None => daily_changes_spec(daily_prices@) is None,
        },
{
    let n = daily_prices.len();
    let mut changes: Vec<Dec> = Vec::new();
    for i in 0..n
        invariant
            n == daily_prices.len(),
            prices_wf(daily_prices@),
            daily_changes_spec(daily_prices@.take(i as int)) == Some(changes@),
            all_wf(changes@),
            changes@.len() == i,
    {
        proof {
            assert(daily_prices@.take(i + 1).drop_last() =~= daily_prices@.take(i as int));
        }
        let day = &daily_prices[i];
        match percent_change(day.opening_price, day.closing_price) {
            Some(c) => changes.push(c),
            None => {
                proof {
                    lemma_changes_none_extends(daily_prices@, i + 1);
                }
                return None;
            },
        }
    }
    proof {
        assert(daily_prices@.take(n as int) =~= daily_prices@);
    }
    Some(changes)
}

/// The day-by-day percentage changes and their mean, sample variance and
/// standard deviation; `None` where the decimal arithmetic fails (an opening
/// price of zero among them).  It needs at least
/// two days.
pub fn run(daily_prices: &[DailyPrice]) -> (r: Option<VolatilityReport>)
    requires
        daily_prices.len() >= 2,
        prices_wf(daily_prices@),
    ensures
        r is Some <==> (daily_changes_spec(daily_prices@) matches Some(c) && basic_summary_spec(c) is Some),
        r matches Some(report) ==> {
            &&& daily_changes_spec(daily_prices@) == Some(report.percentage_changes@)
            &&& basic_summary_spec(report.percentage_changes@) == Some(report.summary)
        },
{
    let percentage_changes = match daily_changes(daily_prices) {
        Some(c) => c,
        None => return None,
    };
    match basic_summary(percentage_changes.as_slice()) {
        Some(summary) => Some(VolatilityReport { percentage_changes, summary }),
        None => None,
    }
}

} // verus!
