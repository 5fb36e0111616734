//! A plain civil date: a (year, month, day) triple, ordered lexicographically.

use vstd::prelude::*;

verus! {

/// Just a date
///
/// Nothing interesting about this.  It's just a date.
#[derive(Clone, Copy, PartialEq, Eq, Structural, Debug, Hash)]
pub struct Date {
    pub year: i16,
    pub month: i8,
    pub day: i8,
}

/// Strict lexicographic order on (year, month, day).
pub open spec fn date_lt(a: Date, b: Date) -> bool {
    ||| a.year < b.year
    ||| (a.year == b.year && a.month < b.month)
    ||| (a.year == b.year && a.month == b.month && a.day < b.day)
}

/// Non-strict lexicographic order on (year, month, day).
pub open spec fn date_le(a: Date, b: Date) -> bool {
    a == b || date_lt(a, b)
}

/// Whether a year is a leap year of the proleptic Gregorian calendar.
/// The year is offset by 10000 (a multiple of 400, so the rule is unchanged)
/// to keep the reasoning over non-negative numbers.
pub open spec fn is_leap_year(y: int) -> bool {
    let s = y + 10000;
    (s % 4 == 0 && s % 100 != 0) || s % 400 == 0
}

/// Number of days in a month of the proleptic Gregorian calendar.
pub open spec fn days_in_month(y: int, m: int) -> int {
    if m == 2 {
        if is_leap_year(y) {
            29
        } else {
            28
        }
    } else if m == 4 || m == 6 || m == 9 || m == 11 {
        30
    } else {
        31
    }
}

impl Date {
    /// A real date of the proleptic Gregorian calendar, within the year range
    /// the calendar arithmetic supports.
    pub open spec fn is_valid(self) -> bool {
        &&& -9000 <= self.year <= 9999
        &&& 1 <= self.month <= 12
        &&& 1 <= self.day <= days_in_month(self.year as int, self.month as int)
    }

    /// Runtime check for [`Date::is_valid`].
    pub fn check_valid(&self) -> (r: bool)
        ensures
            r == self.is_valid(),
    {
        if self.year < -9000 || self.year > 9999 {
            return false;
        }
        if self.month < 1 || self.month > 12 {
            return false;
        }
        if self.day < 1 {
            return false;
        }
        let max_day: i8 = if self.month == 2 {
            let s = self.year as i32 + 10000;
            if (s % 4 == 0 && s % 100 != 0) || s % 400 == 0 {
                29
            } else {
                28
            }
        } else if self.month == 4 || self.month == 6 || self.month == 9 || self.month == 11 {
            30
        } else {
            31
        };
        self.day <= max_day
    }
}

impl PartialOrd for Date {
    fn partial_cmp(&self, other: &Self) -> (r: Option<core::cmp::Ordering>) {
        if self.year < other.year {
            Some(core::cmp::Ordering::Less)
        } else if self.year > other.year {
            Some(core::cmp::Ordering::Greater)
        } else if self.month < other.month {
            Some(core::cmp::Ordering::Less)
        } else if self.month > other.month {
            Some(core::cmp::Ordering::Greater)
        } else if self.day < other.day {
            Some(core::cmp::Ordering::Less)
        } else if self.day > other.day {
            Some(core::cmp::Ordering::Greater)
        } else {
            Some(core::cmp::Ordering::Equal)
        }
    }
}

impl vstd::std_specs::cmp::PartialOrdSpecImpl for Date {
    open spec fn obeys_partial_cmp_spec() -> bool {
        true
    }

    open spec fn partial_cmp_spec(&self, other: &Self) -> Option<core::cmp::Ordering> {
        if date_lt(*self, *other) {
            Some(core::cmp::Ordering::Less)
        } else if date_lt(*other, *self) {
            Some(core::cmp::Ordering::Greater)
        } else {
            Some(core::cmp::Ordering::Equal)
        }
    }
}

/// The lexicographic order is total: dates that are not ordered are equal.
pub proof fn lemma_date_order_total(a: Date, b: Date)
    ensures
        date_le(a, b) || date_le(b, a),
        date_le(a, b) && date_le(b, a) ==> a == b,
        date_lt(a, b) ==> !date_lt(b, a),
{
}

} // verus!
