//! Mean reversion against a simple moving average: a close far above the
//! average of the previous closes is a short entry, one far below it a long
//! entry, each held for one day.

use crate::decimal::{
    all_wf, dec_checked_add, dec_checked_div, dec_checked_sub, dec_compare, decimal_checked_add,
    decimal_checked_div, decimal_checked_sub, exact_difference, exact_difference_fits, lemma_units_zero, zero_spec,
    Dec,
};
use crate::output::MeanReversionRow;
use crate::decimal::{lemma_pow10_positive, MAX_SCALE};
use crate::statistics::unit_scale;
use crate::statistics::{
    constant_sample, copies_fit, mean, mean_spec, standard_deviation, standard_deviation_spec,
};
use vstd::prelude::*;

verus! {

/// How many previous closes the moving average is taken over.
pub const LOOKBACK_DAYS: usize = 20usize;

/// How many standard deviations from the average make an entry.
pub open spec fn entry_threshold_spec() -> Dec {
    Dec { mantissa: 2, scale: 0 }
}

fn entry_threshold() -> (d: Dec)
    ensures
        d == entry_threshold_spec(),
        d.wf(),
{
    Dec { mantissa: 2, scale: 0 }
}

/// The entry that a z-score calls for.
#[derive(Clone, Copy, Debug, PartialEq, Eq, Structural)]
pub enum EntrySignal {
    Long,
    Short,
    NoEntry,
}

pub open spec fn label_spec(signal: EntrySignal) -> Seq<char> {
    match signal {
        EntrySignal::Long => "LONG"@,
        EntrySignal::Short => "SHORT"@,
        EntrySignal::NoEntry => "-"@,
    }
}

impl EntrySignal {
    /// The signal's column text.
    pub fn label(&self) -> (r: &'static str)
        ensures
            r@ == label_spec(*self),
    {
        match self {
            EntrySignal::Long => "LONG",
            EntrySignal::Short => "SHORT",
            EntrySignal::NoEntry => "-",
        }
    }
}

/// Short above the threshold, long below its negative, nothing in between
/// (the threshold itself included).
pub open spec fn classify_spec(z_score: Dec) -> EntrySignal {
    if z_score.units() > entry_threshold_spec().units() {
        EntrySignal::Short
    } else if z_score.units() < -entry_threshold_spec().units() {
        EntrySignal::Long
    } else {
        EntrySignal::NoEntry
    }
}

/// The entry for a z-score.
pub fn classify_entry_signal(z_score: Dec) -> (r: EntrySignal)
    requires
        z_score.wf(),
    ensures
        r == classify_spec(z_score),
{
    let threshold = entry_threshold();
    if dec_compare(z_score, threshold) > 0 {
        EntrySignal::Short
    } else if dec_compare(z_score, threshold.neg()) < 0 {
        EntrySignal::Long
    } else {
        EntrySignal::NoEntry
    }
}

/// The one-share result of an entry held to the next close: `Some(None)`
/// without an entry, `None` where the subtraction fails.
pub open spec fn price_difference_spec(entry_signal: EntrySignal, entry_price: Dec, next_closing_price: Dec) -> Option<Option<Dec>> {
    match entry_signal {
        EntrySignal::Long => match decimal_checked_sub(next_closing_price, entry_price) {
            Some(d) => Some(Some(d)),
            None => None,
        },
        EntrySignal::Short => match decimal_checked_sub(entry_price, next_closing_price) {
            Some(d) => Some(Some(d)),
            None => None,
        },
        EntrySignal::NoEntry => Some(None),
    }
}

/// The short result is the long one negated, and one fails exactly when the
/// other does.  The scale is the same, except for two zero prices, where each
/// result is the zero of the price subtracted (of the entry price for the
/// long, of the next close for the short).
pub open spec fn opposite_results(
    long: Option<Option<Dec>>,
    short: Option<Option<Dec>>,
    entry_price: Dec,
    next_closing_price: Dec,
) -> bool {
    match (long, short) {
        (Some(Some(x)), Some(Some(y))) => y.mantissa == -x.mantissa && if entry_price.mantissa == 0
            && next_closing_price.mantissa == 0 {
            x.scale == entry_price.scale && y.scale == next_closing_price.scale
        } else {
            y.scale == x.scale
        },
        (None, None) => true,
        _ => false,
    }
}

/// A long entry earns the next close minus the entry price, a short entry the
/// entry price minus the next close; no entry earns nothing.  The outer
/// `None` stands where the subtraction overflows.  A rise in price is a gain
/// for a long and a loss for a short, and a short always earns exactly the
/// negative of what a long earns on the same prices.
pub fn calculate_price_difference(
    entry_signal: EntrySignal,
    entry_price: Dec,
    next_closing_price: Dec,
) -> (r: Option<Option<Dec>>)
    requires
        entry_price.wf(),
        next_closing_price.wf(),
    ensures
        r == price_difference_spec(entry_signal, entry_price, next_closing_price),
        r matches Some(Some(d)) ==> d.wf(),
        entry_signal != EntrySignal::NoEntry ==> opposite_results(
            price_difference_spec(EntrySignal::Long, entry_price, next_closing_price),
            price_difference_spec(EntrySignal::Short, entry_price, next_closing_price),
            entry_price,
            next_closing_price,
        ),
        entry_signal == EntrySignal::Long && next_closing_price.units() >= entry_price.units() ==> (
        r matches Some(Some(d)) ==> d.mantissa >= 0),
        entry_signal == EntrySignal::Long && next_closing_price.units() <= entry_price.units() ==> (
        r matches Some(Some(d)) ==> d.mantissa <= 0),
        entry_signal == EntrySignal::Short && next_closing_price.units() >= entry_price.units() ==> (
        r matches Some(Some(d)) ==> d.mantissa <= 0),
        entry_signal == EntrySignal::Short && next_closing_price.units() <= entry_price.units() ==> (
        r matches Some(Some(d)) ==> d.mantissa >= 0),
        entry_signal == EntrySignal::Long && entry_price.mantissa != 0 && next_closing_price.mantissa != 0
            && exact_difference_fits(next_closing_price, entry_price) ==> r == Some(
            Some(exact_difference(next_closing_price, entry_price)),
        ),
        entry_signal == EntrySignal::Short && entry_price.mantissa != 0 && next_closing_price.mantissa
            != 0 && exact_difference_fits(entry_price, next_closing_price) ==> r == Some(
            Some(exact_difference(entry_price, next_closing_price)),
        ),
{
    match entry_signal {
        EntrySignal::Long => match dec_checked_sub(next_closing_price, entry_price) {
            Some(d) => Some(Some(d)),
            None => None,
        },
        EntrySignal::Short => match dec_checked_sub(entry_price, next_closing_price) {
            Some(d) => Some(Some(d)),
            None => None,
        },
        EntrySignal::NoEntry => Some(None),
    }
}


/// A short earns the negative of what a long earns on the same prices: the
/// exact differences in the two directions are opposite at one scale, and
/// one fits exactly when the other does.
pub proof fn lemma_long_and_short_are_opposite(entry_price: Dec, next_closing_price: Dec)
    ensures
        exact_difference_fits(next_closing_price, entry_price) <==> exact_difference_fits(
            entry_price,
            next_closing_price,
        ),
        exact_difference_fits(next_closing_price, entry_price) ==> {
            &&& exact_difference(next_closing_price, entry_price).mantissa == -exact_difference(
                entry_price,
                next_closing_price,
            ).mantissa
            &&& exact_difference(next_closing_price, entry_price).scale == exact_difference(
                entry_price,
                next_closing_price,
            ).scale
        },
{
}

/// Why the lesson stops.
#[derive(Clone, Copy, Debug, PartialEq, Eq, Structural)]
pub enum MeanReversionError {
    /// The series is no longer than the look-back window plus one day.
    NotEnoughClosingPrices,
    /// A decimal operation overflowed or divided by zero.
    ArithmeticFailure,
}

/// The counts and the running result over all evaluated days.
#[derive(Clone, Copy, Debug)]
pub struct MeanReversionSummary {
    pub evaluated_days: usize,
    pub long_entries: usize,
    pub short_entries: usize,
    pub winning_trades: usize,
    pub losing_trades: usize,
    pub flat_trades: usize,
    /// The sum of the one-share results of all entries.
    pub total_price_difference: Dec,
}

/// Every evaluated day, and the summary over them.
pub struct MeanReversionReport {
    pub rows: Vec<MeanReversionRow>,
    pub summary: MeanReversionSummary,
}

/// A day whose close is `current_price`, judged against the moving average
/// and standard deviation of the closes before it: `Some(None)` where the
/// standard deviation is zero (the previous closes do not vary) and the day is
/// skipped, `None` where a decimal operation fails.  `row_day` is the day's
/// position counted from 1.
pub open spec fn evaluation_spec(
    row_day: usize,
    current_price: Dec,
    next_closing_price: Dec,
    moving_average: Dec,
    sd: Dec,
) -> Option<Option<MeanReversionRow>> {
    if sd.mantissa == 0 {
        Some(None)
    } else {
        match decimal_checked_sub(current_price, moving_average) {
            Some(distance) => match decimal_checked_div(distance, sd) {
                Some(z_score) => {
                    let signal = classify_spec(z_score);
                    match price_difference_spec(signal, current_price, next_closing_price) {
                        Some(price_difference) => Some(
                            Some(
                                MeanReversionRow {
                                    day: row_day,
                                    current_price,
                                    next_closing_price,
                                    moving_average,
                                    standard_deviation: sd,
                                    z_score,
                                    signal,
                                    price_difference,
                                },
                            ),
                        ),
                        None => None,
                    }
                },
                None => None,
            },
            None => None,
        }
    }
}

/// The day at position `day` (counted from 0) of the series, judged against
/// the `LOOKBACK_DAYS` closes before it.
pub open spec fn observation_spec(closes: Seq<Dec>, day: int) -> Option<Option<MeanReversionRow>> {
    let baseline = closes.subrange(day - LOOKBACK_DAYS, day);
    match (mean_spec(baseline), standard_deviation_spec(baseline)) {
        (Some(moving_average), Some(sd)) => evaluation_spec(
            (day + 1) as usize,
            closes[day],
            closes[day + 1],
            moving_average,
            sd,
        ),
        _ => None,
    }
}

/// The rows of the evaluated days among the positions `LOOKBACK_DAYS .. end`.
pub open spec fn rows_spec(closes: Seq<Dec>, end: int) -> Option<Seq<MeanReversionRow>>
    decreases end,
{
    if end <= LOOKBACK_DAYS {
        Some(Seq::empty())
    } else {
        match (rows_spec(closes, end - 1), observation_spec(closes, end - 1)) {
            (Some(rows), Some(Some(row))) => Some(rows.push(row)),
            (Some(rows), Some(None)) => Some(rows),
            _ => None,
        }
    }
}

/// How many rows carry the signal.
pub open spec fn count_signal(rows: Seq<MeanReversionRow>, signal: EntrySignal) -> nat
    decreases rows.len(),
{
    if rows.len() == 0 {
        0
    } else {
        count_signal(rows.drop_last(), signal) + if rows.last().signal == signal { 1nat } else { 0nat }
    }
}

/// -1, 0 or 1 as the result of a trade is a loss, flat or a gain.
pub open spec fn outcome(d: Dec) -> int {
    if d.units() > 0 {
        1
    } else if d.units() < 0 {
        -1
    } else {
        0
    }
}

/// How many rows carry a trade with the outcome.
pub open spec fn count_outcome(rows: Seq<MeanReversionRow>, wanted: int) -> nat
    decreases rows.len(),
{
    if rows.len() == 0 {
        0
    } else {
        count_outcome(rows.drop_last(), wanted) + match rows.last().price_difference {
            Some(d) => if outcome(d) == wanted { 1nat } else { 0nat },
            None => 0nat,
        }
    }
}

/// The running sum of the trade results, from zero.
pub open spec fn total_spec(rows: Seq<MeanReversionRow>) -> Option<Dec>
    decreases rows.len(),
{
    if rows.len() == 0 {
        Some(zero_spec())
    } else {
        match (total_spec(rows.drop_last()), rows.last().price_difference) {
            (Some(t), Some(d)) => decimal_checked_add(t, d),
            (Some(t), None) => Some(t),
            _ => None,
        }
    }
}

pub open spec fn summary_of(rows: Seq<MeanReversionRow>, total: Dec) -> MeanReversionSummary {
    MeanReversionSummary {
        evaluated_days: rows.len() as usize,
        long_entries: count_signal(rows, EntrySignal::Long) as usize,
        short_entries: count_signal(rows, EntrySignal::Short) as usize,
        winning_trades: count_outcome(rows, 1) as usize,
        losing_trades: count_outcome(rows, -1) as usize,
        flat_trades: count_outcome(rows, 0) as usize,
        total_price_difference: total,
    }
}

/// The rows and the summary of the whole series, `None` where a decimal
/// operation fails.
pub open spec fn report_spec(closes: Seq<Dec>) -> Option<(Seq<MeanReversionRow>, MeanReversionSummary)> {
    match rows_spec(closes, closes.len() - 1) {
        Some(rows) => match total_spec(rows) {
            Some(total) => Some((rows, summary_of(rows, total))),
            None => None,
        },
        None => None,
    }
}

/// A day's row depends only on the `LOOKBACK_DAYS` closes before it, its own
/// close and the next one: two series that agree up to the next close give
/// the same row, or the same absence of one.
pub proof fn lemma_observation_depends_on_window(closes: Seq<Dec>, other: Seq<Dec>, day: int)
    requires
        LOOKBACK_DAYS <= day,
        day + 1 < closes.len(),
        day + 1 < other.len(),
        closes.subrange(0, day + 2) == other.subrange(0, day + 2),
    ensures
        observation_spec(closes, day) == observation_spec(other, day),
{
    assert(closes.subrange(day - LOOKBACK_DAYS, day) =~= other.subrange(day - LOOKBACK_DAYS, day)) by {
        assert forall|i: int| 0 <= i < LOOKBACK_DAYS implies #[trigger] closes.subrange(day - LOOKBACK_DAYS, day)[i]
            == other.subrange(day - LOOKBACK_DAYS, day)[i] by {
            assert(closes[day - LOOKBACK_DAYS + i] == closes.subrange(0, day + 2)[day - LOOKBACK_DAYS + i]);
            assert(other[day - LOOKBACK_DAYS + i] == other.subrange(0, day + 2)[day - LOOKBACK_DAYS + i]);
        }
    }
    assert(closes[day] == closes.subrange(0, day + 2)[day]);
    assert(other[day] == other.subrange(0, day + 2)[day]);
    assert(closes[day + 1] == closes.subrange(0, day + 2)[day + 1]);
    assert(other[day + 1] == other.subrange(0, day + 2)[day + 1]);
}

/// No later close changes an earlier row: two series that agree on their
/// first `end + 1` closes give the same rows for the days before `end`.
pub proof fn lemma_rows_depend_on_prefix(closes: Seq<Dec>, other: Seq<Dec>, end: int)
    requires
        end < closes.len(),
        end < other.len(),
        closes.subrange(0, end + 1) == other.subrange(0, end + 1),
    ensures
        rows_spec(closes, end) == rows_spec(other, end),
    decreases end,
{
    if end > LOOKBACK_DAYS {
        assert(closes.subrange(0, end) =~= other.subrange(0, end)) by {
            assert forall|i: int| 0 <= i < end implies #[trigger] closes.subrange(0, end)[i] == other.subrange(0, end)[i] by {
                assert(closes.subrange(0, end + 1)[i] == other.subrange(0, end + 1)[i]);
            }
        }
        lemma_rows_depend_on_prefix(closes, other, end - 1);
        lemma_observation_depends_on_window(closes, other, end - 1);
    }
}

/// The counts of a report are the numbers of rows of each kind: a winning
/// trade is a row whose result is above zero in value, a losing trade one
/// below zero, a flat trade one at zero; long and short entries are the rows
/// with that signal.
pub proof fn lemma_trade_counts(rows: Seq<MeanReversionRow>)
    ensures
        count_outcome(rows, 1) == rows.filter(
            |row: MeanReversionRow| row.price_difference matches Some(d) && d.units() > 0,
        ).len(),
        count_outcome(rows, -1) == rows.filter(
            |row: MeanReversionRow| row.price_difference matches Some(d) && d.units() < 0,
        ).len(),
        count_outcome(rows, 0) == rows.filter(
            |row: MeanReversionRow| row.price_difference matches Some(d) && d.units() == 0,
        ).len(),
        count_signal(rows, EntrySignal::Long) == rows.filter(
            |row: MeanReversionRow| row.signal == EntrySignal::Long,
        ).len(),
        count_signal(rows, EntrySignal::Short) == rows.filter(
            |row: MeanReversionRow| row.signal == EntrySignal::Short,
        ).len(),
    decreases rows.len(),
{
    reveal(Seq::filter);
    if rows.len() > 0 {
        lemma_trade_counts(rows.drop_last());
    }
}

/// A row carries a trade exactly when it carries an entry.
pub open spec fn row_consistent(row: MeanReversionRow) -> bool {
    row.price_difference is Some <==> row.signal != EntrySignal::NoEntry
}

proof fn lemma_observation_consistent(closes: Seq<Dec>, day: int)
    ensures
        observation_spec(closes, day) matches Some(Some(row)) ==> row_consistent(row),
{
}

proof fn lemma_rows_consistent(closes: Seq<Dec>, end: int)
    ensures
        rows_spec(closes, end) matches Some(rows) ==> forall|i: int|
            0 <= i < rows.len() ==> row_consistent(#[trigger] rows[i]),
    decreases end,
{
    if end > LOOKBACK_DAYS {
        lemma_rows_consistent(closes, end - 1);
        lemma_observation_consistent(closes, end - 1);
    }
}

/// Every entry is a trade, and every trade is won, lost or flat: the long and
/// the short entries add up to the winning, losing and flat trades.  No count
/// exceeds the number of rows.
pub proof fn lemma_entries_are_trades(rows: Seq<MeanReversionRow>)
    requires
        forall|i: int| 0 <= i < rows.len() ==> row_consistent(#[trigger] rows[i]),
    ensures
        count_signal(rows, EntrySignal::Long) + count_signal(rows, EntrySignal::Short) == count_outcome(rows, 1)
            + count_outcome(rows, -1) + count_outcome(rows, 0),
        count_signal(rows, EntrySignal::Long) + count_signal(rows, EntrySignal::Short) <= rows.len(),
    decreases rows.len(),
{
    if rows.len() > 0 {
        let t = rows.drop_last();
        assert forall|i: int| 0 <= i < t.len() implies row_consistent(#[trigger] t[i]) by {
            assert(t[i] == rows[i]);
        }
        lemma_entries_are_trades(t);
        assert(row_consistent(rows[rows.len() - 1]));
    }
}

proof fn lemma_counts_bounded(rows: Seq<MeanReversionRow>, signal: EntrySignal, wanted: int)
    ensures
        count_signal(rows, signal) <= rows.len(),
        count_outcome(rows, wanted) <= rows.len(),
    decreases rows.len(),
{
    if rows.len() > 0 {
        lemma_counts_bounded(rows.drop_last(), signal, wanted);
    }
}


proof fn lemma_rows_none_extends(closes: Seq<Dec>, k: int, m: int)
    requires
        k <= m,
        rows_spec(closes, k) is None,
    ensures
        rows_spec(closes, m) is None,
    decreases m - k,
{
    if k < m {
        lemma_rows_none_extends(closes, k, m - 1);
    }
}

proof fn lemma_rows_prefix(closes: Seq<Dec>, k: int, m: int)
    requires
        k <= m,
        rows_spec(closes, k) is Some,
        rows_spec(closes, m) is Some,
    ensures
        rows_spec(closes, k)->0.len() <= rows_spec(closes, m)->0.len(),
        rows_spec(closes, m)->0.take(rows_spec(closes, k)->0.len() as int) == rows_spec(closes, k)->0,
    decreases m - k,
{
    if k < m {
        if rows_spec(closes, m - 1) is None {
            lemma_rows_none_extends(closes, m - 1, m);
        }
        lemma_rows_prefix(closes, k, m - 1);
        let a = rows_spec(closes, k)->0;
        let b = rows_spec(closes, m - 1)->0;
        let c = rows_spec(closes, m)->0;
        assert(c.take(a.len() as int) =~= b.take(a.len() as int));
    } else {
        let a = rows_spec(closes, k)->0;
        assert(a.take(a.len() as int) =~= a);
    }
}

proof fn lemma_total_none_extends(rows: Seq<MeanReversionRow>, k: int)
    requires
        0 <= k <= rows.len(),
        total_spec(rows.take(k)) is None,
    ensures
        total_spec(rows) is None,
    decreases rows.len() - k,
{
    if k < rows.len() {
        assert(rows.take(k + 1).drop_last() =~= rows.take(k));
        lemma_total_none_extends(rows, k + 1);
    } else {
        assert(rows.take(k) =~= rows);
    }
}

/// The evaluation of one day.
fn observe(closes: &[Dec], day: usize) -> (r: Option<Option<MeanReversionRow>>)
    requires
        LOOKBACK_DAYS <= day,
        day + 1 < closes.len(),
        all_wf(closes@),
    ensures
        r == observation_spec(closes@, day as int),
        r matches Some(Some(row)) ==> (row.price_difference matches Some(d) ==> d.wf()),
        constant_sample(closes@, closes@[0]) && copies_fit(LOOKBACK_DAYS as int, closes@[0]) ==> r
            == Some(None::<MeanReversionRow>),
{
    let baseline = &closes[day - LOOKBACK_DAYS..day];
    proof {
        assert(baseline@ == closes@.subrange(day - LOOKBACK_DAYS, day as int));
        assert forall|i: int| 0 <= i < baseline@.len() implies #[trigger] baseline@[i].wf() by {
            assert(baseline@[i] == closes@[i + day - LOOKBACK_DAYS]);
        }
        if constant_sample(closes@, closes@[0]) {
            assert(baseline@[0] == closes@[0]);
            assert forall|i: int| 0 <= i < baseline@.len() implies #[trigger] baseline@[i] == baseline@[0] by {
                assert(baseline@[i] == closes@[i + day - LOOKBACK_DAYS]);
            }
        }
    }
    let current_price = closes[day];
    let next_closing_price = closes[day + 1];
    let moving_average = match mean(baseline) {
        Some(m) => m,
        None => return None,
    };
    let price_standard_deviation = match standard_deviation(baseline) {
        Some(d) => d,
        None => return None,
    };
    evaluate_day(day + 1, current_price, next_closing_price, moving_average, price_standard_deviation)
}

/// Judges one day: where the previous closes vary, the z-score of the close
/// against their moving average and standard deviation decides the entry,
/// and the entry's one-share result is taken at the next close.  A day whose
/// previous closes do not vary is skipped (`Some(None)`); `None` stands where
/// a decimal operation fails.  A row carries a trade exactly when it carries
/// an entry.
pub fn evaluate_day(
    row_day: usize,
    current_price: Dec,
    next_closing_price: Dec,
    moving_average: Dec,
    price_standard_deviation: Dec,
) -> (r: Option<Option<MeanReversionRow>>)
    requires
        current_price.wf(),
        next_closing_price.wf(),
        moving_average.wf(),
        price_standard_deviation.wf(),
    ensures
        r == evaluation_spec(row_day, current_price, next_closing_price, moving_average, price_standard_deviation),
        r matches Some(Some(row)) ==> row_consistent(row) && (row.price_difference matches Some(d) ==> d.wf()),
        r matches Some(Some(row)) ==> {
            &&& row.day == row_day
            &&& row.current_price == current_price
            &&& row.next_closing_price == next_closing_price
            &&& row.moving_average == moving_average
            &&& row.standard_deviation == price_standard_deviation
            &&& (row.signal == EntrySignal::Short <==> row.z_score.units() > 2 * unit_scale())
            &&& (row.signal == EntrySignal::Long <==> row.z_score.units() < -2 * unit_scale())
            &&& (price_standard_deviation.mantissa > 0 && current_price.units() >= moving_average.units()
                ==> row.z_score.mantissa >= 0)
            &&& (price_standard_deviation.mantissa > 0 && current_price.units() <= moving_average.units()
                ==> row.z_score.mantissa <= 0)
        },
        price_standard_deviation.mantissa == 0 ==> r == Some(None::<MeanReversionRow>),
{
    proof {
        lemma_pow10_positive(MAX_SCALE as nat);
        assert(entry_threshold_spec().units() == 2 * unit_scale());
    }
    if price_standard_deviation.mantissa == 0 {
        return Some(None);
    }
    let distance = match dec_checked_sub(current_price, moving_average) {
        Some(d) => d,
        None => return None,
    };
    let z_score = match dec_checked_div(distance, price_standard_deviation) {
        Some(z) => z,
        None => return None,
    };
    let entry_signal = classify_entry_signal(z_score);
    let price_difference = match calculate_price_difference(entry_signal, current_price, next_closing_price) {
        Some(p) => p,
        None => return None,
    };
    Some(
        Some(
            MeanReversionRow {
                day: row_day,
                current_price,
                next_closing_price,
                moving_average,
                standard_deviation: price_standard_deviation,
                z_score,
                signal: entry_signal,
                price_difference,
            },
        ),
    )
}

/// Runs the strategy over a series of daily closes: for each day that has
/// `LOOKBACK_DAYS` closes before it and one after it, the z-score of its close
/// against the mean and standard deviation of the previous closes decides the
/// entry, held to the next close.  Days whose previous closes do not vary are
/// skipped, so that a series that never moves gives no evaluated day.  Every
/// entry is a trade, and every trade is won, lost or flat.
pub fn run(daily_closes: &[Dec]) -> (r: Result<MeanReversionReport, MeanReversionError>)
    requires
        all_wf(daily_closes@),
    ensures
        daily_closes.len() <= LOOKBACK_DAYS + 1 ==> r matches Err(
            MeanReversionError::NotEnoughClosingPrices,
        ),
        daily_closes.len() > LOOKBACK_DAYS + 1 ==> (r is Ok <==> report_spec(daily_closes@) is Some),
        daily_closes.len() > LOOKBACK_DAYS + 1 ==> (r is Err ==> r matches Err(
            MeanReversionError::ArithmeticFailure,
        )),
        r matches Ok(report) ==> {
            &&& report_spec(daily_closes@) == Some((report.rows@, report.summary))
            &&& report.summary.evaluated_days == report.rows@.len()
            &&& report.summary.long_entries + report.summary.short_entries
                == report.summary.winning_trades + report.summary.losing_trades
                + report.summary.flat_trades
            &&& report.summary.long_entries + report.summary.short_entries
                <= report.summary.evaluated_days
            &&& report.summary.winning_trades == report.rows@.filter(
                |row: MeanReversionRow| row.price_difference matches Some(d) && d.units() > 0,
            ).len()
            &&& report.summary.losing_trades == report.rows@.filter(
                |row: MeanReversionRow| row.price_difference matches Some(d) && d.units() < 0,
            ).len()
            &&& report.summary.flat_trades == report.rows@.filter(
                |row: MeanReversionRow| row.price_difference matches Some(d) && d.units() == 0,
            ).len()
            &&& report.summary.long_entries == report.rows@.filter(
                |row: MeanReversionRow| row.signal == EntrySignal::Long,
            ).len()
            &&& report.summary.short_entries == report.rows@.filter(
                |row: MeanReversionRow| row.signal == EntrySignal::Short,
            ).len()
        },
        daily_closes.len() > LOOKBACK_DAYS + 1 && constant_sample(daily_closes@, daily_closes@[0])
            && copies_fit(LOOKBACK_DAYS as int, daily_closes@[0]) ==> (r matches Ok(report)
            && report.rows@.len() == 0),
{
    let n = daily_closes.len();
    if n <= LOOKBACK_DAYS + 1 {
        return Err(MeanReversionError::NotEnoughClosingPrices);
    }
    let mut rows: Vec<MeanReversionRow> = Vec::new();
    let mut long_entries: usize = 0;
    let mut short_entries: usize = 0;
    let mut winning_trades: usize = 0;
    let mut losing_trades: usize = 0;
    let mut flat_trades: usize = 0;
    let mut total_price_difference = Dec::zero();
    let ghost closes = daily_closes@;
    for current_day_index in LOOKBACK_DAYS..n - 1
        invariant
            n == daily_closes.len(),
            closes == daily_closes@,
            n > LOOKBACK_DAYS + 1,
            all_wf(closes),
            rows_spec(closes, current_day_index as int) == Some(rows@),
            rows@.len() <= current_day_index - LOOKBACK_DAYS,
            total_spec(rows@) == Some(total_price_difference),
            total_price_difference.wf(),
            forall|i: int|
                0 <= i < rows@.len() ==> ((#[trigger] rows@[i]).price_difference matches Some(d)
                    ==> d.wf()),
            long_entries == count_signal(rows@, EntrySignal::Long),
            short_entries == count_signal(rows@, EntrySignal::Short),
            winning_trades == count_outcome(rows@, 1),
            losing_trades == count_outcome(rows@, -1),
            flat_trades == count_outcome(rows@, 0),
            constant_sample(closes, closes[0]) && copies_fit(LOOKBACK_DAYS as int, closes[0]) ==> rows@.len()
                == 0,
    {
        proof {
            lemma_counts_bounded(rows@, EntrySignal::Long, 1);
            lemma_counts_bounded(rows@, EntrySignal::Short, -1);
            lemma_counts_bounded(rows@, EntrySignal::Long, 0);
        }
        match observe(daily_closes, current_day_index) {
            None => {
                proof {
                    lemma_rows_none_extends(closes, current_day_index + 1, n - 1);
                }
                return Err(MeanReversionError::ArithmeticFailure);
            },
            Some(None) => {},
            Some(Some(row)) => {
                let ghost before = rows@;
                match row.signal {
                    EntrySignal::Long => long_entries = long_entries + 1,
                    EntrySignal::Short => short_entries = short_entries + 1,
                    EntrySignal::NoEntry => {},
                }
                match row.price_difference {
                    Some(price_difference) => {
                        match dec_checked_add(total_price_difference, price_difference) {
                            Some(t) => total_price_difference = t,
                            None => {
                                proof {
                                    let after = before.push(row);
                                    assert(after.drop_last() =~= before);
                                    if rows_spec(closes, n - 1) is Some {
                                        lemma_rows_prefix(closes, current_day_index + 1, n - 1);
                                        let all = rows_spec(closes, n - 1)->0;
                                        assert(all.take(after.len() as int) == after);
                                        lemma_total_none_extends(all, after.len() as int);
                                    }
                                }
                                return Err(MeanReversionError::ArithmeticFailure);
                            },
                        }
                        let sign = dec_compare(price_difference, Dec::zero());
                        proof {
                            lemma_units_zero(zero_spec());
                            assert(zero_spec().units() == 0);
                            assert(sign > 0 ==> outcome(price_difference) == 1);
                            assert(sign < 0 ==> outcome(price_difference) == -1);
                        }
                        if sign > 0 {
                            winning_trades = winning_trades + 1;
                        } else if sign < 0 {
                            losing_trades = losing_trades + 1;
                        } else {
                            flat_trades = flat_trades + 1;
                        }
                    },
                    None => {},
                }
                rows.push(row);
                proof {
                    assert(rows@.drop_last() =~= before);
                }
            },
        }
    }
    proof {
        lemma_rows_consistent(closes, n - 1);
        lemma_entries_are_trades(rows@);
        lemma_trade_counts(rows@);
        lemma_counts_bounded(rows@, EntrySignal::Long, 1);
        lemma_counts_bounded(rows@, EntrySignal::Short, -1);
        lemma_counts_bounded(rows@, EntrySignal::Long, 0);
    }
    let evaluated_days = rows.len();
    Ok(
        MeanReversionReport {
            rows,
            summary: MeanReversionSummary {
                evaluated_days,
                long_entries,
                short_entries,
                winning_trades,
                losing_trades,
                flat_trades,
                total_price_difference,
            },
        },
    )
}

} // verus!
