//! Small ordinal enumerations for the two coarsest sub-day resolutions:
//! the half-day (AM/PM) and the six-hour period of the day.

use vstd::prelude::*;

verus! {

/// A six-hour period of the day.
#[derive(Copy, Clone, PartialEq, Eq, Structural, PartialOrd, Ord, Debug, Hash)]
pub enum SixHour {
    /// 24:00--06:00
    Night,
    /// 06:00--12:00
    Morning,
    /// 12:00--18:00
    Afternoon,
    /// 18:00--24:00
    Evening,
}

impl SixHour {
    /// Ordinal of the period within the day: `Night` is 0, `Evening` is 3.
    pub open spec fn ord_spec(self) -> u8 {
        match self {
            SixHour::Night => 0,
            SixHour::Morning => 1,
            SixHour::Afternoon => 2,
            SixHour::Evening => 3,
        }
    }

    /// Ordinal of the period within the day.
    pub fn to_ord(self) -> (r: u8)
        ensures
            r == self.ord_spec(),
    {
        match self {
            SixHour::Night => 0,
            SixHour::Morning => 1,
            SixHour::Afternoon => 2,
            SixHour::Evening => 3,
        }
    }

    /// The period with the given ordinal, or `None` above 3.
    pub fn from_ord(x: u8) -> (r: Option<SixHour>)
        ensures
            x <= 3 <==> r is Some,
            r matches Some(v) ==> v.ord_spec() == x,
    {
        match x {
            0 => Some(SixHour::Night),
            1 => Some(SixHour::Morning),
            2 => Some(SixHour::Afternoon),
            3 => Some(SixHour::Evening),
            _ => None,
        }
    }

    /// The period's lower-case English name.
    pub fn name(self) -> (r: &'static str)
        ensures
            r@ == self.name_spec(),
    {
        match self {
            SixHour::Night => "night",
            SixHour::Morning => "morning",
            SixHour::Afternoon => "afternoon",
            SixHour::Evening => "evening",
        }
    }

    /// The period's lower-case English name.
    pub open spec fn name_spec(self) -> Seq<char> {
        match self {
            SixHour::Night => "night"@,
            SixHour::Morning => "morning"@,
            SixHour::Afternoon => "afternoon"@,
            SixHour::Evening => "evening"@,
        }
    }
}

/// Half of the day: before or after noon.
#[derive(Copy, Clone, PartialEq, Eq, Structural, PartialOrd, Ord, Debug, Hash)]
pub enum AmPm {
    AM,
    PM,
}

impl AmPm {
    /// Ordinal of the half-day: `AM` is 0, `PM` is 1.
    pub open spec fn ord_spec(self) -> u8 {
        match self {
            AmPm::AM => 0,
            AmPm::PM => 1,
        }
    }

    /// Ordinal of the half-day.
    pub fn to_ord(self) -> (r: u8)
        ensures
            r == self.ord_spec(),
    {
        match self {
            AmPm::AM => 0,
            AmPm::PM => 1,
        }
    }

    /// The half-day with the given ordinal, or `None` above 1.
    pub fn from_ord(x: u8) -> (r: Option<AmPm>)
        ensures
            x <= 1 <==> r is Some,
            r matches Some(v) ==> v.ord_spec() == x,
    {
        match x {
            0 => Some(AmPm::AM),
            1 => Some(AmPm::PM),
            _ => None,
        }
    }

    /// The half-day's conventional name.
    pub fn name(self) -> (r: &'static str)
        ensures
            r@ == self.name_spec(),
    {
        match self {
            AmPm::AM => "AM",
            AmPm::PM => "PM",
        }
    }

    /// The half-day's conventional name.
    pub open spec fn name_spec(self) -> Seq<char> {
        match self {
            AmPm::AM => "AM"@,
            AmPm::PM => "PM"@,
        }
    }
}

} // verus!
