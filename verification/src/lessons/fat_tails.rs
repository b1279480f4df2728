//! Fat tails: the daily returns of bitcoin and the daily changes of the
//! ten-year treasury yield, sampled at the start, middle and end, and the
//! dispersion of each.  A Gaussian has IQR / standard deviation = 1.349;
//! lower values mean fatter tails.

use crate::decimal::{
    all_wf, dec_checked_sub, decimal_checked_sub, exact_difference, exact_difference_fits, Dec,
};
use crate::lessons::volatility::{percent_change, percent_change_spec};
use crate::statistics::{dispersion_summary, dispersion_summary_spec, DispersionSummary};
use vstd::prelude::*;

verus! {

/// How many rows each sample block shows.
pub const SAMPLE_SIZE: usize = 10usize;

/// The percent return of each day over the day before, one fewer than the prices.
pub open spec fn percent_returns_spec(prices: Seq<Dec>) -> Option<Seq<Dec>>
    decreases prices.len(),
{
    if prices.len() <= 1 {
        Some(Seq::empty())
    } else {
        match (
            percent_returns_spec(prices.drop_last()),
            percent_change_spec(prices[prices.len() - 2], prices.last()),
        ) {
            (Some(r), Some(c)) => Some(r.push(c)),
            _ => None,
        }
    }
}

/// The change of each value over the one before, one fewer than the values.
pub open spec fn changes_spec(values: Seq<Dec>) -> Option<Seq<Dec>>
    decreases values.len(),
{
    if values.len() <= 1 {
        Some(Seq::empty())
    } else {
        match (changes_spec(values.drop_last()), decimal_checked_sub(values.last(), values[values.len() - 2])) {
            (Some(r), Some(c)) => Some(r.push(c)),
            _ => None,
        }
    }
}

proof fn lemma_returns_none_extends(prices: Seq<Dec>, k: int)
    requires
        1 <= k <= prices.len(),
        percent_returns_spec(prices.take(k)) is None,
    ensures
        percent_returns_spec(prices) is None,
    decreases prices.len() - k,
{
    if k < prices.len() {
        assert(prices.take(k + 1).drop_last() =~= prices.take(k));
        lemma_returns_none_extends(prices, k + 1);
    } else {
        assert(prices.take(k) =~= prices);
    }
}

proof fn lemma_changes_none_extends(values: Seq<Dec>, k: int)
    requires
        1 <= k <= values.len(),
        changes_spec(values.take(k)) is None,
    ensures
        changes_spec(values) is None,
    decreases values.len() - k,
{
    if k < values.len() {
        assert(values.take(k + 1).drop_last() =~= values.take(k));
        lemma_changes_none_extends(values, k + 1);
    } else {
        assert(values.take(k) =~= values);
    }
}

/// Prices become percent returns: `(p1 - p0) * 100 / p0` for each pair of
/// neighbours.  `None` where the arithmetic fails, a price of zero included.
pub fn percent_returns(prices: &[Dec]) -> (r: Option<Vec<Dec>>)
    requires
        prices.len() >= 1,
        all_wf(prices@),
    ensures
        match r {
            Some(v) => percent_returns_spec(prices@) == Some(v@) && all_wf(v@) && v@.len()
                == prices@.len() - 1,
            None => percent_returns_spec(prices@) is None,
        },
{
    let n = prices.len();
    let mut gains: Vec<Dec> = Vec::new();
    proof {
        assert(prices@.take(1).len() == 1);
    }
    for i in 1..n
        invariant
            n == prices.len(),
            all_wf(prices@),
            percent_returns_spec(prices@.take(i as int)) == Some(gains@),
            all_wf(gains@),
            gains@.len() == i - 1,
    {
        proof {
            assert(prices@.take(i + 1).drop_last() =~= prices@.take(i as int));
            assert(prices@.take(i + 1)[i - 1] == prices@[i - 1]);
        }
        match percent_change(prices[i - 1], prices[i]) {
            Some(c) => gains.push(c),
            None => {
                proof {
                    lemma_returns_none_extends(prices@, i + 1);
                }
                return None;
            },
        }
    }
    proof {
        assert(prices@.take(n as int) =~= prices@);
    }
    Some(gains)
}

/// Rates become absolute changes: `y1 - y0` for each pair of neighbours.
pub fn absolute_changes(values: &[Dec]) -> (r: Option<Vec<Dec>>)
    requires
        values.len() >= 1,
        all_wf(values@),
    ensures
        match r {
            Some(v) => changes_spec(values@) == Some(v@) && all_wf(v@) && v@.len() == values@.len()
                - 1,
            None => changes_spec(values@) is None,
        },
        r matches Some(v) ==> forall|i: int|
            0 <= i < v@.len() ==> (values@[i + 1].mantissa != 0 && values@[i].mantissa != 0
                && exact_difference_fits(values@[i + 1], values@[i]) ==> #[trigger] v@[i]
                == exact_difference(values@[i + 1], values@[i])),
{
    let n = values.len();
    let mut changes: Vec<Dec> = Vec::new();
    proof {
        assert(values@.take(1).len() == 1);
    }
    for i in 1..n
        invariant
            n == values.len(),
            all_wf(values@),
            changes_spec(values@.take(i as int)) == Some(changes@),
            all_wf(changes@),
            changes@.len() == i - 1,
            forall|k: int|
                0 <= k < changes@.len() ==> (values@[k + 1].mantissa != 0 && values@[k].mantissa != 0
                    && exact_difference_fits(values@[k + 1], values@[k]) ==> #[trigger] changes@[k]
                    == exact_difference(values@[k + 1], values@[k])),
    {
        proof {
            assert(values@.take(i + 1).drop_last() =~= values@.take(i as int));
            assert(values@.take(i + 1)[i - 1] == values@[i - 1]);
        }
        match dec_checked_sub(values[i], values[i - 1]) {
            Some(c) => changes.push(c),
            None => {
                proof {
                    lemma_changes_none_extends(values@, i + 1);
                }
                return None;
            },
        }
    }
    proof {
        assert(values@.take(n as int) =~= values@);
    }
    Some(changes)
}

/// Where a block of rows starts in each of the two series.  The columns come
/// from their own series, so paired values are not from the same day.
#[derive(Clone, Copy, Debug)]
pub struct SampleBlock {
    pub title: &'static str,
    pub bitcoin_start: usize,
    pub treasury_start: usize,
}

/// The first ten, the ten from the middle and the last ten rows of each
/// series, titled in that order; the last block starts ten rows before the
/// end, or at the first row of a shorter series.
pub open spec fn sample_blocks_spec(blocks: Seq<SampleBlock>, bitcoin_len: nat, treasury_len: nat) -> bool {
    &&& blocks.len() == 3
    &&& blocks[0].title@ == "first 10"@ && blocks[0].bitcoin_start == 0 && blocks[0].treasury_start == 0
    &&& blocks[1].title@ == "mid 10"@ && blocks[1].bitcoin_start == bitcoin_len / 2
        && blocks[1].treasury_start == treasury_len / 2
    &&& blocks[2].title@ == "last 10"@ && blocks[2].bitcoin_start == (if bitcoin_len >= SAMPLE_SIZE {
        bitcoin_len - SAMPLE_SIZE
    } else {
        0
    }) && blocks[2].treasury_start == (if treasury_len >= SAMPLE_SIZE {
        treasury_len - SAMPLE_SIZE
    } else {
        0
    })
}

/// The three sample blocks for series of the given lengths.
pub fn sample_blocks(bitcoin_len: usize, treasury_len: usize) -> (r: Vec<SampleBlock>)
    ensures
        sample_blocks_spec(r@, bitcoin_len as nat, treasury_len as nat),
{
    let mut blocks: Vec<SampleBlock> = Vec::new();
    blocks.push(SampleBlock { title: "first 10", bitcoin_start: 0, treasury_start: 0 });
    blocks.push(
        SampleBlock { title: "mid 10", bitcoin_start: bitcoin_len / 2, treasury_start: treasury_len / 2 },
    );
    blocks.push(
        SampleBlock {
            title: "last 10",
            bitcoin_start: if bitcoin_len >= SAMPLE_SIZE { bitcoin_len - SAMPLE_SIZE } else { 0 },
            treasury_start: if treasury_len >= SAMPLE_SIZE { treasury_len - SAMPLE_SIZE } else { 0 },
        },
    );
    blocks
}

/// Everything the lesson shows.
pub struct FatTailsReport {
    pub bitcoin_returns: Vec<Dec>,
    pub treasury_changes: Vec<Dec>,
    pub sample_blocks: Vec<SampleBlock>,
    pub bitcoin_dispersion: DispersionSummary,
    pub treasury_dispersion: DispersionSummary,
}

/// The returns, the changes, the sample blocks and the dispersion of each
/// series; `None` where the decimal arithmetic fails.  Each series needs
/// at least three values, so that it has a sample variance.
pub fn run(bitcoin_closes: &[Dec], treasury_yields: &[Dec]) -> (r: Option<FatTailsReport>)
    requires
        bitcoin_closes.len() >= 3,
        treasury_yields.len() >= 3,
        3 * bitcoin_closes.len() <= usize::MAX,
        3 * treasury_yields.len() <= usize::MAX,
        all_wf(bitcoin_closes@),
        all_wf(treasury_yields@),
    ensures
        r is Some <==> (percent_returns_spec(bitcoin_closes@) matches Some(b) && changes_spec(
            treasury_yields@,
        ) matches Some(t) && dispersion_summary_spec(b) is Some && dispersion_summary_spec(t) is Some),
        r matches Some(report) ==> {
            &&& percent_returns_spec(bitcoin_closes@) == Some(report.bitcoin_returns@)
            &&& changes_spec(treasury_yields@) == Some(report.treasury_changes@)
            &&& dispersion_summary_spec(report.bitcoin_returns@) == Some(report.bitcoin_dispersion)
            &&& dispersion_summary_spec(report.treasury_changes@) == Some(report.treasury_dispersion)
            &&& sample_blocks_spec(
                report.sample_blocks@,
                report.bitcoin_returns@.len(),
                report.treasury_changes@.len(),
            )
        },
{
    let bitcoin_returns = match percent_returns(bitcoin_closes) {
        Some(r) => r,
        None => return None,
    };
    let treasury_changes = match absolute_changes(treasury_yields) {
        Some(c) => c,
        None => return None,
    };
    let blocks = sample_blocks(bitcoin_returns.len(), treasury_changes.len());
    let bitcoin_dispersion = match dispersion_summary(bitcoin_returns.as_slice()) {
        Some(d) => d,
        None => return None,
    };
    let treasury_dispersion = match dispersion_summary(treasury_changes.as_slice()) {
        Some(d) => d,
        None => return None,
    };
    Some(
        FatTailsReport {
            bitcoin_returns,
            treasury_changes,
            sample_blocks: blocks,
            bitcoin_dispersion,
            treasury_dispersion,
        },
    )
}

} // verus!
