//! The records that the lessons hand over to be printed.

use crate::decimal::Dec;
use crate::lessons::mean_reversion::EntrySignal;
use vstd::prelude::*;

verus! {

/// One evaluated day of the mean-reversion lesson.
#[derive(Clone, Copy, Debug)]
pub struct MeanReversionRow {
    /// The day's position in the series, counted from 1.
    pub day: usize,
    pub current_price: Dec,
    pub next_closing_price: Dec,
    pub moving_average: Dec,
    pub standard_deviation: Dec,
    pub z_score: Dec,
    pub signal: EntrySignal,
    /// The one-share result of the entry, where there is one.
    pub price_difference: Option<Dec>,
}

} // verus!
