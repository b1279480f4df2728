//! The chance of three up-ticks in a row when each tick depends only on the
//! one before it.

use crate::decimal::{dec_checked_mul, Dec};
use vstd::prelude::*;

verus! {

/// With P(up) = 0.51 and P(up | previous up) = 0.64:
/// P(Up, Up, Up) = 0.51 * 0.64 * 0.64 = 0.208896, and the same in percent,
/// 20.889600 (the product's scale is kept: 6 places).  Both products are
/// exact.
pub fn run() -> (r: (Dec, Dec))
    ensures
        r.0 == (Dec { mantissa: 208896, scale: 6 }),
        r.1 == (Dec { mantissa: 20889600, scale: 6 }),
{
    let up = Dec { mantissa: 51, scale: 2 };
    let up_after_up = Dec { mantissa: 64, scale: 2 };
    let hundred = Dec { mantissa: 100, scale: 0 };
    let two_ups = dec_checked_mul(up, up_after_up);
    assert(two_ups == Some(Dec { mantissa: 3264, scale: 4 }));
    let two_ups = two_ups.unwrap();
    let three_ups = dec_checked_mul(two_ups, up_after_up);
    assert(three_ups == Some(Dec { mantissa: 208896, scale: 6 }));
    let three_ups = three_ups.unwrap();
    let percent = dec_checked_mul(three_ups, hundred);
    assert(percent == Some(Dec { mantissa: 20889600, scale: 6 }));
    (three_ups, percent.unwrap())
}

} // verus!
