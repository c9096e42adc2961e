//! The two conversions around the display loop: wall-clock milliseconds
//! to the model's micro-minutes, and a micro-degree reading to the
//! tenths of a degree the terminal shows.

use vstd::prelude::*;

verus! {

use crate::model::TIME_MAX;

/// Elapsed micro-minutes from elapsed milliseconds: `ms * 50 / 3`
/// (that is, `ms * 10^6 / 60000` in lowest terms), saturated at
/// `TIME_MAX` so the result always suits the model.
pub open spec fn spec_elapsed_micro_minutes(ms: int) -> int {
    let t = ms * 50 / 3;
    if t > TIME_MAX as int {
        TIME_MAX as int
    } else {
        t
    }
}

/// Converts an elapsed wall-clock duration in milliseconds to the
/// model's time argument in micro-minutes.
pub fn elapsed_micro_minutes(elapsed_ms: u64) -> (t: u64)
    ensures
        t == spec_elapsed_micro_minutes(elapsed_ms as int),
        t <= TIME_MAX,
{
    let wide: u128 = (elapsed_ms as u128) * 50 / 3;
    if wide > TIME_MAX as u128 {
        TIME_MAX
    } else {
        wide as u64
    }
}

/// A micro-degree reading rounded to tenths of a degree, half away
/// from zero: `25_060_000` micro-degrees round to `251` deci-degrees.
pub open spec fn spec_deci_celsius(micro: int) -> int {
    if micro >= 0 {
        (micro + 50_000) / 100_000
    } else {
        -((-micro + 50_000) / 100_000)
    }
}

/// Rounds a temperature in micro-degrees Celsius to deci-degrees for
/// rendering with one decimal place.
pub fn deci_celsius(micro: i64) -> (d: i64)
    requires
        micro > i64::MIN,
    ensures
        d == spec_deci_celsius(micro as int),
{
    if micro >= 0 {
        let m: u64 = micro as u64;
        ((m + 50_000) / 100_000) as i64
    } else {
        let m: u64 = (-micro) as u64;
        -(((m + 50_000) / 100_000) as i64)
    }
}

} // verus!
