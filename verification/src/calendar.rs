//! Calendar arithmetic, delegated to a conventional civil-date library.
//!
//! The policy thresholds are computed by subtracting a day count from a civil
//! date. The result is a pure function of the two arguments; the library does
//! not restate the Gregorian calendar, it names the result and relies on the
//! outside implementation for its value.

use vstd::prelude::*;
use crate::date::{Date, date_lt};

verus! {

/// The civil date `n` days before `d` in the proleptic Gregorian calendar.
pub uninterp spec fn sub_days(d: Date, n: u16) -> Date;

/// Relies on `jiff::civil::Date::checked_sub` with a day span: subtracting a
/// day count from a valid civil date yields the civil date that many days
/// earlier. The result depends on the two arguments alone; subtracting zero
/// days changes nothing, and subtracting at least one day gives a strictly
/// earlier date. The year floor in [`Date::is_valid`] keeps the subtraction of
/// any `u16` day count (at most about 180 years) inside the year range jiff
/// supports, which reaches down to -9999, so the checked calls cannot fail.
/// The result may still lie below this library's own year floor, so no
/// validity is claimed of it.
#[verifier::external_body]
pub fn date_sub_days(d: Date, n: u16) -> (r: Date)
    requires
        d.is_valid(),
    ensures
        r == sub_days(d, n),
        n == 0 ==> r == d,
        n >= 1 ==> date_lt(r, d),
{
    let jd = match jiff::civil::Date::new(d.year, d.month, d.day) {
        Ok(x) => x,
        Err(_) => return d,
    };
    let span = jiff::Span::new().days(n as i64);
    match jd.checked_sub(span) {
        Ok(e) => Date { year: e.year(), month: e.month(), day: e.day() },
        Err(_) => d,
    }
}

} // verus!
