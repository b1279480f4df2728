//! What the loaders keep of the downloaded series.  Yahoo reports prices on a
//! timeline with nulls on days without a bar; FRED writes "." on non-trading
//! days.  Neither a null nor a "." ever becomes a zero: such days are dropped.

use crate::decimal::{dec_from_str, decimal_from_str, Dec};
use chrono::{DateTime, Utc};
use vstd::prelude::*;

verus! {

/// One day's close from Yahoo, with its date as `YYYY-MM-DD` (UTC).
#[derive(Debug)]
pub struct YahooDailyClose {
    pub date: String,
    pub closing_price: Dec,
}

/// One entry of Yahoo's `close` list, as the reader hands it over: a null,
/// a price that converts to a decimal, or one that does not.
#[derive(Clone, Copy, Debug)]
pub enum CloseValue {
    Missing,
    Price(Dec),
    Unrepresentable,
}

/// One entry of Yahoo's `result` list: the timestamps, and one `close` list per
/// entry of its `quote` list.
#[derive(Debug)]
pub struct YahooSeries {
    pub timestamps: Vec<i64>,
    pub quote_closes: Vec<Vec<CloseValue>>,
}

/// Why a Yahoo chart gives no daily closes.
#[derive(Clone, Copy, Debug, PartialEq, Eq, Structural)]
pub enum YahooError {
    /// The `result` list is empty.
    EmptyResult,
    /// The first result's `quote` list is empty.
    EmptyQuote,
    /// A timestamp with a price is out of the calendar's range.
    InvalidTimestamp,
    /// A price has no decimal form.
    UnrepresentablePrice,
}

/// The UTC calendar date of a Unix timestamp (seconds), as `YYYY-MM-DD`.
pub uninterp spec fn utc_date_text(timestamp: i64) -> Option<Seq<char>>;

/// Calls `DateTime::<Utc>::from_timestamp(timestamp, 0)`, then `date_naive`
/// and `to_string` on the result.  Claimed of it: the text, or its absence
/// (out of range), is the name applied to the timestamp.
#[verifier::external_body]
fn date_of_timestamp(timestamp: i64) -> (r: Option<String>)
    ensures
        r matches Some(text) ==> utc_date_text(timestamp) == Some(text@),
        r is None ==> utc_date_text(timestamp) is None,
{
    match DateTime::<Utc>::from_timestamp(timestamp, 0) {
        Some(moment) => Some(moment.date_naive().to_string()),
        None => None,
    }
}

/// What a day gives, for the prices that are there: `None` for a null, else
/// the date and the price, or the error.
pub open spec fn daily_close_spec(timestamp: i64, close: CloseValue) -> Option<Result<(Seq<char>, Dec), YahooError>> {
    match close {
        CloseValue::Missing => None,
        _ => match utc_date_text(timestamp) {
            None => Some(Err(YahooError::InvalidTimestamp)),
            Some(date) => match close {
                CloseValue::Price(p) => Some(Ok((date, p))),
                _ => Some(Err(YahooError::UnrepresentablePrice)),
            },
        },
    }
}

/// The days of the zipped lists (as long as the shorter one), nulls dropped,
/// stopping at the first error.
pub open spec fn daily_closes_spec(timestamps: Seq<i64>, closes: Seq<CloseValue>, n: int) -> Result<Seq<(Seq<char>, Dec)>, YahooError>
    decreases n,
{
    if n <= 0 {
        Ok(Seq::empty())
    } else {
        match daily_closes_spec(timestamps, closes, n - 1) {
            Err(e) => Err(e),
            Ok(days) => match daily_close_spec(timestamps[n - 1], closes[n - 1]) {
                None => Ok(days),
                Some(Ok(day)) => Ok(days.push(day)),
                Some(Err(e)) => Err(e),
            },
        }
    }
}

pub open spec fn min(a: int, b: int) -> int {
    if a <= b { a } else { b }
}

/// The daily closes of a chart: those of the first quote of the first result.
pub open spec fn chart_closes_spec(results: Seq<YahooSeries>) -> Result<Seq<(Seq<char>, Dec)>, YahooError> {
    if results.len() == 0 {
        Err(YahooError::EmptyResult)
    } else if results[0].quote_closes@.len() == 0 {
        Err(YahooError::EmptyQuote)
    } else {
        let timestamps = results[0].timestamps@;
        let closes = results[0].quote_closes@[0]@;
        daily_closes_spec(timestamps, closes, min(timestamps.len() as int, closes.len() as int))
    }
}

pub open spec fn view_closes(days: Seq<YahooDailyClose>) -> Seq<(Seq<char>, Dec)> {
    Seq::new(days.len(), |i: int| (days[i].date@, days[i].closing_price))
}

/// The dated daily closes of a Yahoo chart: the first quote of the first
/// result, zipped with the timestamps, with every null dropped so that a
/// missing day never passes for a zero price.
pub fn load_yahoo_daily_closes_with_dates(results: &[YahooSeries]) -> (r: Result<Vec<YahooDailyClose>, YahooError>)
    ensures
        match r {
            Ok(days) => chart_closes_spec(results@) == Ok::<Seq<(Seq<char>, Dec)>, YahooError>(view_closes(days@)),
            Err(e) => chart_closes_spec(results@) == Err::<Seq<(Seq<char>, Dec)>, YahooError>(e),
        },
{
    if results.len() == 0 {
        return Err(YahooError::EmptyResult);
    }
    let result = &results[0];
    if result.quote_closes.len() == 0 {
        return Err(YahooError::EmptyQuote);
    }
    let closing_prices = &result.quote_closes[0];
    let n = if result.timestamps.len() <= closing_prices.len() {
        result.timestamps.len()
    } else {
        closing_prices.len()
    };
    let ghost timestamps = result.timestamps@;
    let ghost closes = closing_prices@;
    let mut daily_closes: Vec<YahooDailyClose> = Vec::new();
    proof {
        assert(view_closes(daily_closes@) =~= Seq::<(Seq<char>, Dec)>::empty());
    }
    for i in 0..n
        invariant
            timestamps == result.timestamps@,
            closes == closing_prices@,
            results@.len() > 0,
            timestamps == results@[0].timestamps@,
            results@[0].quote_closes@.len() > 0,
            closes == results@[0].quote_closes@[0]@,
            n == min(timestamps.len() as int, closes.len() as int),
            daily_closes_spec(timestamps, closes, i as int) == Ok::<Seq<(Seq<char>, Dec)>, YahooError>(
                view_closes(daily_closes@),
            ),
    {
        let ghost before = daily_closes@;
        let timestamp = result.timestamps[i];
        match closing_prices[i] {
            CloseValue::Missing => {},
            close => {
                let date = match date_of_timestamp(timestamp) {
                    Some(d) => d,
                    None => {
                        proof {
                            lemma_daily_closes_err_extends(timestamps, closes, i + 1, n as int);
                        }
                        return Err(YahooError::InvalidTimestamp);
                    },
                };
                match close {
                    CloseValue::Price(closing_price) => {
                        daily_closes.push(YahooDailyClose { date, closing_price });
                        proof {
                            assert(view_closes(daily_closes@) =~= view_closes(before).push(
                                (date@, closing_price),
                            ));
                        }
                    },
                    _ => {
                        proof {
                            lemma_daily_closes_err_extends(timestamps, closes, i + 1, n as int);
                        }
                        return Err(YahooError::UnrepresentablePrice);
                    },
                }
            },
        }
    }
    Ok(daily_closes)
}

proof fn lemma_daily_closes_err_extends(timestamps: Seq<i64>, closes: Seq<CloseValue>, k: int, n: int)
    requires
        0 <= k <= n,
        daily_closes_spec(timestamps, closes, k) is Err,
    ensures
        daily_closes_spec(timestamps, closes, n) == daily_closes_spec(timestamps, closes, k),
    decreases n - k,
{
    if k < n {
        lemma_daily_closes_err_extends(timestamps, closes, k, n - 1);
    }
}

/// The closing prices alone, in order.
pub fn load_yahoo_daily_closes(daily_closes: &[YahooDailyClose]) -> (r: Vec<Dec>)
    ensures
        r@.len() == daily_closes@.len(),
        forall|i: int| 0 <= i < r@.len() ==> #[trigger] r@[i] == daily_closes@[i].closing_price,
{
    let mut prices: Vec<Dec> = Vec::new();
    for i in 0..daily_closes.len()
        invariant
            prices@.len() == i,
            forall|k: int| 0 <= k < i ==> #[trigger] prices@[k] == daily_closes@[k].closing_price,
    {
        prices.push(daily_closes[i].closing_price);
    }
    prices
}

/// The text of each field that is there.
pub open spec fn field_views(fields: Seq<Option<String>>) -> Seq<Option<Seq<char>>> {
    fields.map_values(|field: Option<String>| match field {
        Some(text) => Some(text@),
        None => None,
    })
}

/// What the `csv` reader gives for a text with a header line: for each record
/// after the header, its second field where it has one; `None` where a record
/// cannot be read.
pub uninterp spec fn csv_second_fields(text: Seq<char>) -> Option<Seq<Option<Seq<char>>>>;

/// Reads the records of a CSV text with `csv::ReaderBuilder` (first line a
/// header, as `csv::Reader` has it) and takes the second field of each.
/// Claimed of it: the fields, or their absence where a record cannot be
/// read, are the name applied to the text.
#[verifier::external_body]
fn read_second_fields(text: &str) -> (r: Option<Vec<Option<String>>>)
    ensures
        r is None <==> csv_second_fields(text@) is None,
        r matches Some(fields) ==> csv_second_fields(text@) == Some(field_views(fields@)),
{
    let mut reader = csv::ReaderBuilder::new().has_headers(true).from_reader(text.as_bytes());
    reader
        .records()
        .map(|record| record.map(|fields| fields.get(1).map(|field| field.to_string())))
        .collect::<Result<Vec<Option<String>>, csv::Error>>()
        .ok()
}

/// The values that parse, in order; records without a second field and
/// values that do not parse are dropped.
pub open spec fn fred_values_spec(fields: Seq<Option<Seq<char>>>) -> Seq<Dec>
    decreases fields.len(),
{
    if fields.len() == 0 {
        Seq::empty()
    } else {
        let kept = fred_values_spec(fields.drop_last());
        match fields.last() {
            Some(text) => match decimal_from_str(text) {
                Some(d) => kept.push(d),
                None => kept,
            },
            None => kept,
        }
    }
}

/// The second fields of FRED's records, parsed as decimals.  A "." (a
/// non-trading day) and anything else that does not parse is skipped, never
/// coerced to zero.
pub fn parse_fred_fields(second_fields: &[Option<String>]) -> (r: Vec<Dec>)
    ensures
        r@ == fred_values_spec(field_views(second_fields@)),
        crate::decimal::all_wf(r@),
{
    let mut values: Vec<Dec> = Vec::new();
    for i in 0..second_fields.len()
        invariant
            values@ == fred_values_spec(field_views(second_fields@.take(i as int))),
            crate::decimal::all_wf(values@),
    {
        proof {
            let before = field_views(second_fields@.take(i as int));
            let after = field_views(second_fields@.take(i + 1));
            assert(after.drop_last() =~= before);
            assert(after.last() == match second_fields@[i as int] {
                Some(text) => Some(text@),
                None => None::<Seq<char>>,
            });
        }
        match &second_fields[i] {
            Some(text) => match dec_from_str(text.as_str()) {
                Some(value) => values.push(value),
                None => {},
            },
            None => {},
        }
    }
    proof {
        assert(second_fields@.take(second_fields@.len() as int) =~= second_fields@);
    }
    values
}

/// FRED's daily values from the text of its CSV file: the second field of
/// each record after the header, where it parses as a decimal.  `None` where
/// the `csv` reader cannot read a record.
pub fn load_fred_daily_values(csv_text: &str) -> (r: Option<Vec<Dec>>)
    ensures
        r is None <==> csv_second_fields(csv_text@) is None,
        csv_second_fields(csv_text@) matches Some(fields) ==> (r matches Some(values) && values@
            == fred_values_spec(fields)),
        r matches Some(values) ==> crate::decimal::all_wf(values@),
{
    match read_second_fields(csv_text) {
        Some(fields) => Some(parse_fred_fields(fields.as_slice())),
        None => None,
    }
}

/// How many of the first `n` closes are there (not null).
pub open spec fn present_count(closes: Seq<CloseValue>, n: int) -> nat
    decreases n,
{
    if n <= 0 {
        0
    } else {
        present_count(closes, n - 1) + match closes[n - 1] {
            CloseValue::Missing => 0nat,
            _ => 1nat,
        }
    }
}

/// Nulls never become prices: when the days come through, there is one kept
/// day for every close that is there, and every kept day is the price and the
/// date of one of the entries.
pub proof fn lemma_kept_days_are_present_prices(timestamps: Seq<i64>, closes: Seq<CloseValue>, n: int)
    requires
        0 <= n <= timestamps.len(),
        n <= closes.len(),
    ensures
        daily_closes_spec(timestamps, closes, n) matches Ok(days) ==> {
            &&& days.len() == present_count(closes, n)
            &&& forall|i: int|
                #![trigger days[i]]
                0 <= i < days.len() ==> exists|j: int|
                    0 <= j < n && #[trigger] closes[j] == CloseValue::Price(days[i].1)
                        && utc_date_text(timestamps[j]) == Some(days[i].0)
        },
    decreases n,
{
    if n > 0 {
        lemma_kept_days_are_present_prices(timestamps, closes, n - 1);
        if let Ok(days) = daily_closes_spec(timestamps, closes, n) {
            let before = daily_closes_spec(timestamps, closes, n - 1)->Ok_0;
            assert forall|i: int| #![trigger days[i]] 0 <= i < days.len() implies exists|j: int|
                0 <= j < n && #[trigger] closes[j] == CloseValue::Price(days[i].1)
                    && utc_date_text(timestamps[j]) == Some(days[i].0) by {
                if i < before.len() {
                    assert(days[i] == before[i]);
                    let j = choose|j: int|
                        0 <= j < n - 1 && #[trigger] closes[j] == CloseValue::Price(before[i].1)
                            && utc_date_text(timestamps[j]) == Some(before[i].0);
                    assert(closes[j] == CloseValue::Price(days[i].1));
                } else {
                    assert(closes[n - 1] == CloseValue::Price(days[i].1));
                }
            }
        }
    }
}

/// The field is there and parses to `value`.
pub open spec fn parses_to(field: Option<Seq<char>>, value: Dec) -> bool {
    match field {
        Some(text) => decimal_from_str(text) == Some(value),
        None => false,
    }
}

/// Some record's second field parses to `value`.
pub open spec fn parsed_from_a_record(fields: Seq<Option<Seq<char>>>, value: Dec) -> bool {
    exists|j: int| 0 <= j < fields.len() && #[trigger] parses_to(fields[j], value)
}

/// Unparseable values never become numbers: every kept FRED value is what
/// `Decimal::from_str` gives for the second field of one of the records, and
/// no more values are kept than there are records.
pub proof fn lemma_fred_values_are_parsed(fields: Seq<Option<Seq<char>>>)
    ensures
        fred_values_spec(fields).len() <= fields.len(),
        forall|i: int|
            0 <= i < fred_values_spec(fields).len() ==> parsed_from_a_record(
                fields,
                #[trigger] fred_values_spec(fields)[i],
            ),
    decreases fields.len(),
{
    if fields.len() > 0 {
        let rest = fields.drop_last();
        lemma_fred_values_are_parsed(rest);
        assert forall|i: int| 0 <= i < fred_values_spec(fields).len() implies parsed_from_a_record(
            fields,
            #[trigger] fred_values_spec(fields)[i],
        ) by {
            let v = fred_values_spec(fields)[i];
            if i < fred_values_spec(rest).len() {
                assert(v == fred_values_spec(rest)[i]);
                assert(parsed_from_a_record(rest, v));
                let j = choose|j: int| 0 <= j < rest.len() && #[trigger] parses_to(rest[j], v);
                assert(fields[j] == rest[j]);
                assert(parses_to(fields[j], v));
            } else {
                assert(parses_to(fields[fields.len() - 1], v));
            }
        }
    }
}

} // verus!
