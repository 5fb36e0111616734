//! The closed, ordered set of time-interval widths a [`Time`](crate::time::Time)
//! value can carry, together with its per-resolution metadata: bucket width,
//! subdivision factor, and the bit layout inside the packed time word.

use vstd::prelude::*;

verus! {

/// There are 19 resolutions available:
///
/// * milli, 5ms, 10ms, 50ms, 100ms, 500ms
/// * second, 5s, 15s, 30s
/// * minute, 5m, 15m, 30m
/// * hour, 3h, 6h, 12h (am/pm)
/// * whole day
///
/// The ordering follows natural language: `x < y` means that `x` is
/// lower-resolution (coarser) than `y`.
#[derive(Copy, Clone, PartialEq, Eq, Structural, PartialOrd, Ord, Debug, Hash)]
pub enum Resolution {
    Day,
    AmPm,
    SixHour,
    ThreeHour,
    Hour,
    ThirtyMinute,
    FifteenMinute,
    FiveMinute,
    Minute,
    ThirtySecond,
    FifteenSecond,
    FiveSecond,
    Second,
    FiveHundredMilli,
    HundredMilli,
    FiftyMilli,
    TenMilli,
    FiveMilli,
    Millisecond,
}

impl Resolution {
    /// Position in the coarse-to-fine enumeration: `Day` is 0, `Millisecond` is 18.
    pub open spec fn idx(self) -> int {
        match self {
            Resolution::Day => 0,
            Resolution::AmPm => 1,
            Resolution::SixHour => 2,
            Resolution::ThreeHour => 3,
            Resolution::Hour => 4,
            Resolution::ThirtyMinute => 5,
            Resolution::FifteenMinute => 6,
            Resolution::FiveMinute => 7,
            Resolution::Minute => 8,
            Resolution::ThirtySecond => 9,
            Resolution::FifteenSecond => 10,
            Resolution::FiveSecond => 11,
            Resolution::Second => 12,
            Resolution::FiveHundredMilli => 13,
            Resolution::HundredMilli => 14,
            Resolution::FiftyMilli => 15,
            Resolution::TenMilli => 16,
            Resolution::FiveMilli => 17,
            Resolution::Millisecond => 18,
        }
    }

    /// The resolution at a given position of the enumeration (clamped to the ends).
    pub open spec fn res_at(i: int) -> Resolution {
        if i <= 0 {
            Resolution::Day
        } else if i == 1 {
            Resolution::AmPm
        } else if i == 2 {
            Resolution::SixHour
        } else if i == 3 {
            Resolution::ThreeHour
        } else if i == 4 {
            Resolution::Hour
        } else if i == 5 {
            Resolution::ThirtyMinute
        } else if i == 6 {
            Resolution::FifteenMinute
        } else if i == 7 {
            Resolution::FiveMinute
        } else if i == 8 {
            Resolution::Minute
        } else if i == 9 {
            Resolution::ThirtySecond
        } else if i == 10 {
            Resolution::FifteenSecond
        } else if i == 11 {
            Resolution::FiveSecond
        } else if i == 12 {
            Resolution::Second
        } else if i == 13 {
            Resolution::FiveHundredMilli
        } else if i == 14 {
            Resolution::HundredMilli
        } else if i == 15 {
            Resolution::FiftyMilli
        } else if i == 16 {
            Resolution::TenMilli
        } else if i == 17 {
            Resolution::FiveMilli
        } else {
            Resolution::Millisecond
        }
    }

    /// Duration of one bucket at this resolution, in milliseconds.
    pub open spec fn width_spec(self) -> u64 {
        match self {
            Resolution::Day => 86400000,
            Resolution::AmPm => 43200000,
            Resolution::SixHour => 21600000,
            Resolution::ThreeHour => 10800000,
            Resolution::Hour => 3600000,
            Resolution::ThirtyMinute => 1800000,
            Resolution::FifteenMinute => 900000,
            Resolution::FiveMinute => 300000,
            Resolution::Minute => 60000,
            Resolution::ThirtySecond => 30000,
            Resolution::FifteenSecond => 15000,
            Resolution::FiveSecond => 5000,
            Resolution::Second => 1000,
            Resolution::FiveHundredMilli => 500,
            Resolution::HundredMilli => 100,
            Resolution::FiftyMilli => 50,
            Resolution::TenMilli => 10,
            Resolution::FiveMilli => 5,
            Resolution::Millisecond => 1,
        }
    }

    /// How many buckets of this resolution fit in one bucket of the next-coarser
    /// resolution (0 for `Day`, which has no coarser sibling).
    pub open spec fn sub_spec(self) -> u32 {
        match self {
            Resolution::Day => 0,
            Resolution::AmPm => 2,
            Resolution::SixHour => 2,
            Resolution::ThreeHour => 2,
            Resolution::Hour => 3,
            Resolution::ThirtyMinute => 2,
            Resolution::FifteenMinute => 2,
            Resolution::FiveMinute => 3,
            Resolution::Minute => 5,
            Resolution::ThirtySecond => 2,
            Resolution::FifteenSecond => 2,
            Resolution::FiveSecond => 3,
            Resolution::Second => 5,
            Resolution::FiveHundredMilli => 2,
            Resolution::HundredMilli => 5,
            Resolution::FiftyMilli => 2,
            Resolution::TenMilli => 5,
            Resolution::FiveMilli => 2,
            Resolution::Millisecond => 5,
        }
    }

    /// Number of data bits the resolution's slot occupies in the packed time word.
    pub open spec fn nbits_spec(self) -> u32 {
        match self {
            Resolution::Day => 0,
            Resolution::AmPm => 1,
            Resolution::SixHour => 1,
            Resolution::ThreeHour => 1,
            Resolution::Hour => 2,
            Resolution::ThirtyMinute => 1,
            Resolution::FifteenMinute => 1,
            Resolution::FiveMinute => 2,
            Resolution::Minute => 3,
            Resolution::ThirtySecond => 1,
            Resolution::FifteenSecond => 1,
            Resolution::FiveSecond => 2,
            Resolution::Second => 3,
            Resolution::FiveHundredMilli => 1,
            Resolution::HundredMilli => 3,
            Resolution::FiftyMilli => 1,
            Resolution::TenMilli => 3,
            Resolution::FiveMilli => 1,
            Resolution::Millisecond => 3,
        }
    }

    /// The bit position of the resolution's marker bit in the packed time word.
    pub open spec fn z_spec(self) -> u32 {
        match self {
            Resolution::Day => 31,
            Resolution::AmPm => 30,
            Resolution::SixHour => 29,
            Resolution::ThreeHour => 28,
            Resolution::Hour => 26,
            Resolution::ThirtyMinute => 25,
            Resolution::FifteenMinute => 24,
            Resolution::FiveMinute => 22,
            Resolution::Minute => 19,
            Resolution::ThirtySecond => 18,
            Resolution::FifteenSecond => 17,
            Resolution::FiveSecond => 15,
            Resolution::Second => 12,
            Resolution::FiveHundredMilli => 11,
            Resolution::HundredMilli => 8,
            Resolution::FiftyMilli => 7,
            Resolution::TenMilli => 4,
            Resolution::FiveMilli => 3,
            Resolution::Millisecond => 0,
        }
    }
}

/// The marker-bit positions that correspond to some resolution.
pub open spec fn valid_z(z: u32) -> bool {
    ||| z == 0
    ||| z == 3
    ||| z == 4
    ||| z == 7
    ||| z == 8
    ||| z == 11
    ||| z == 12
    ||| z == 15
    ||| z == 17
    ||| z == 18
    ||| z == 19
    ||| z == 22
    ||| z == 24
    ||| z == 25
    ||| z == 26
    ||| z == 28
    ||| z == 29
    ||| z == 30
    ||| z == 31
}

/// The resolution whose marker sits at bit `z` (meaningful when `valid_z(z)`).
pub open spec fn res_of_z(z: u32) -> Resolution {
    if z == 0 {
        Resolution::Millisecond
    } else if z == 3 {
        Resolution::FiveMilli
    } else if z == 4 {
        Resolution::TenMilli
    } else if z == 7 {
        Resolution::FiftyMilli
    } else if z == 8 {
        Resolution::HundredMilli
    } else if z == 11 {
        Resolution::FiveHundredMilli
    } else if z == 12 {
        Resolution::Second
    } else if z == 15 {
        Resolution::FiveSecond
    } else if z == 17 {
        Resolution::FifteenSecond
    } else if z == 18 {
        Resolution::ThirtySecond
    } else if z == 19 {
        Resolution::Minute
    } else if z == 22 {
        Resolution::FiveMinute
    } else if z == 24 {
        Resolution::FifteenMinute
    } else if z == 25 {
        Resolution::ThirtyMinute
    } else if z == 26 {
        Resolution::Hour
    } else if z == 28 {
        Resolution::ThreeHour
    } else if z == 29 {
        Resolution::SixHour
    } else if z == 30 {
        Resolution::AmPm
    } else {
        Resolution::Day
    }
}

/// Integer ratio of bucket counts between a coarser resolution at position `ai`
/// and a finer one at position `bi`: the product of the subdivision factors of
/// every resolution strictly finer than `ai` up to and including `bi`.
pub open spec fn quot(ai: int, bi: int) -> int
    decreases bi - ai,
{
    if bi <= ai {
        1
    } else {
        quot(ai, bi - 1) * Resolution::res_at(bi).sub_spec()
    }
}

impl Resolution {
    /// Duration of one bucket at this resolution, in milliseconds.
    pub fn width(self) -> (r: u64)
        ensures
            r == self.width_spec(),
    {
        match self {
            Resolution::Day => 86400000,
            Resolution::AmPm => 43200000,
            Resolution::SixHour => 21600000,
            Resolution::ThreeHour => 10800000,
            Resolution::Hour => 3600000,
            Resolution::ThirtyMinute => 1800000,
            Resolution::FifteenMinute => 900000,
            Resolution::FiveMinute => 300000,
            Resolution::Minute => 60000,
            Resolution::ThirtySecond => 30000,
            Resolution::FifteenSecond => 15000,
            Resolution::FiveSecond => 5000,
            Resolution::Second => 1000,
            Resolution::FiveHundredMilli => 500,
            Resolution::HundredMilli => 100,
            Resolution::FiftyMilli => 50,
            Resolution::TenMilli => 10,
            Resolution::FiveMilli => 5,
            Resolution::Millisecond => 1,
        }
    }

    /// The next coarser resolution, or `None` at `Day`.
    pub fn coarser(self) -> (r: Option<Self>)
        ensures
            self.idx() == 0 <==> r is None,
            self.idx() > 0 ==> r == Some(Resolution::res_at(self.idx() - 1)),
    {
        match self {
            Resolution::Day => None,
            Resolution::AmPm => Some(Resolution::Day),
            Resolution::SixHour => Some(Resolution::AmPm),
            Resolution::ThreeHour => Some(Resolution::SixHour),
            Resolution::Hour => Some(Resolution::ThreeHour),
            Resolution::ThirtyMinute => Some(Resolution::Hour),
            Resolution::FifteenMinute => Some(Resolution::ThirtyMinute),
            Resolution::FiveMinute => Some(Resolution::FifteenMinute),
            Resolution::Minute => Some(Resolution::FiveMinute),
            Resolution::ThirtySecond => Some(Resolution::Minute),
            Resolution::FifteenSecond => Some(Resolution::ThirtySecond),
            Resolution::FiveSecond => Some(Resolution::FifteenSecond),
            Resolution::Second => Some(Resolution::FiveSecond),
            Resolution::FiveHundredMilli => Some(Resolution::Second),
            Resolution::HundredMilli => Some(Resolution::FiveHundredMilli),
            Resolution::FiftyMilli => Some(Resolution::HundredMilli),
            Resolution::TenMilli => Some(Resolution::FiftyMilli),
            Resolution::FiveMilli => Some(Resolution::TenMilli),
            Resolution::Millisecond => Some(Resolution::FiveMilli),
        }
    }

    /// The next finer resolution, or `None` at `Millisecond`.
    pub fn finer(self) -> (r: Option<Self>)
        ensures
            self.idx() == 18 <==> r is None,
            self.idx() < 18 ==> r == Some(Resolution::res_at(self.idx() + 1)),
    {
        match self {
            Resolution::Day => Some(Resolution::AmPm),
            Resolution::AmPm => Some(Resolution::SixHour),
            Resolution::SixHour => Some(Resolution::ThreeHour),
            Resolution::ThreeHour => Some(Resolution::Hour),
            Resolution::Hour => Some(Resolution::ThirtyMinute),
            Resolution::ThirtyMinute => Some(Resolution::FifteenMinute),
            Resolution::FifteenMinute => Some(Resolution::FiveMinute),
            Resolution::FiveMinute => Some(Resolution::Minute),
            Resolution::Minute => Some(Resolution::ThirtySecond),
            Resolution::ThirtySecond => Some(Resolution::FifteenSecond),
            Resolution::FifteenSecond => Some(Resolution::FiveSecond),
            Resolution::FiveSecond => Some(Resolution::Second),
            Resolution::Second => Some(Resolution::FiveHundredMilli),
            Resolution::FiveHundredMilli => Some(Resolution::HundredMilli),
            Resolution::HundredMilli => Some(Resolution::FiftyMilli),
            Resolution::FiftyMilli => Some(Resolution::TenMilli),
            Resolution::TenMilli => Some(Resolution::FiveMilli),
            Resolution::FiveMilli => Some(Resolution::Millisecond),
            Resolution::Millisecond => None,
        }
    }

    /// Position in the coarse-to-fine enumeration.
    pub fn index(self) -> (r: u8)
        ensures
            r as int == self.idx(),
            r <= 18,
    {
        match self {
            Resolution::Day => 0,
            Resolution::AmPm => 1,
            Resolution::SixHour => 2,
            Resolution::ThreeHour => 3,
            Resolution::Hour => 4,
            Resolution::ThirtyMinute => 5,
            Resolution::FifteenMinute => 6,
            Resolution::FiveMinute => 7,
            Resolution::Minute => 8,
            Resolution::ThirtySecond => 9,
            Resolution::FifteenSecond => 10,
            Resolution::FiveSecond => 11,
            Resolution::Second => 12,
            Resolution::FiveHundredMilli => 13,
            Resolution::HundredMilli => 14,
            Resolution::FiftyMilli => 15,
            Resolution::TenMilli => 16,
            Resolution::FiveMilli => 17,
            Resolution::Millisecond => 18,
        }
    }

    /// All 19 resolutions, from coarsest (`Day`) to finest (`Millisecond`).
    pub fn all() -> (r: Vec<Resolution>)
        ensures
            r@.len() == 19,
            forall|i: int| 0 <= i < 19 ==> (#[trigger] r@[i]) == Resolution::res_at(i),
    {
        let mut v: Vec<Resolution> = Vec::new();
        v.push(Resolution::Day);
        v.push(Resolution::AmPm);
        v.push(Resolution::SixHour);
        v.push(Resolution::ThreeHour);
        v.push(Resolution::Hour);
        v.push(Resolution::ThirtyMinute);
        v.push(Resolution::FifteenMinute);
        v.push(Resolution::FiveMinute);
        v.push(Resolution::Minute);
        v.push(Resolution::ThirtySecond);
        v.push(Resolution::FifteenSecond);
        v.push(Resolution::FiveSecond);
        v.push(Resolution::Second);
        v.push(Resolution::FiveHundredMilli);
        v.push(Resolution::HundredMilli);
        v.push(Resolution::FiftyMilli);
        v.push(Resolution::TenMilli);
        v.push(Resolution::FiveMilli);
        v.push(Resolution::Millisecond);
        v
    }

    /// Resolutions strictly finer than `to`, up to and including `from`,
    /// ordered finest to coarsest. `from` should be finer than `to`; when it is
    /// not, the result is empty.
    pub fn range(from: Resolution, to: Resolution) -> (r: Vec<Resolution>)
        ensures
            from.idx() <= to.idx() ==> r@.len() == 0,
            from.idx() > to.idx() ==> r@.len() == from.idx() - to.idx(),
            forall|k: int|
                0 <= k < r@.len() ==> (#[trigger] r@[k]) == Resolution::res_at(from.idx() - k),
    {
        let mut v: Vec<Resolution> = Vec::new();
        let fi = from.index();
        let ti = to.index();
        if fi <= ti {
            return v;
        }
        let all = Resolution::all();
        let mut i: u8 = fi;
        while i > ti
            invariant
                ti < fi <= 18,
                ti <= i <= fi,
                all@.len() == 19,
                forall|j: int| 0 <= j < 19 ==> (#[trigger] all@[j]) == Resolution::res_at(j),
                v@.len() == fi - i,
                forall|k: int| 0 <= k < v@.len() ==> (#[trigger] v@[k]) == Resolution::res_at(
                    fi - k,
                ),
            decreases i,
        {
            v.push(all[i as usize]);
            i = i - 1;
        }
        v
    }

    /// How many buckets of this resolution fit in one bucket of the next-coarser
    /// resolution (0 for `Day`).
    pub fn subdivision(self) -> (r: u32)
        ensures
            r == self.sub_spec(),
    {
        match self {
            Resolution::Day => 0,
            Resolution::AmPm => 2,
            Resolution::SixHour => 2,
            Resolution::ThreeHour => 2,
            Resolution::Hour => 3,
            Resolution::ThirtyMinute => 2,
            Resolution::FifteenMinute => 2,
            Resolution::FiveMinute => 3,
            Resolution::Minute => 5,
            Resolution::ThirtySecond => 2,
            Resolution::FifteenSecond => 2,
            Resolution::FiveSecond => 3,
            Resolution::Second => 5,
            Resolution::FiveHundredMilli => 2,
            Resolution::HundredMilli => 5,
            Resolution::FiftyMilli => 2,
            Resolution::TenMilli => 5,
            Resolution::FiveMilli => 2,
            Resolution::Millisecond => 5,
        }
    }

    /// Number of data bits the resolution's slot occupies in the packed time word.
    pub fn n_bits(self) -> (r: u8)
        ensures
            r as int == self.nbits_spec() as int,
    {
        match self {
            Resolution::Day => 0,
            Resolution::AmPm => 1,
            Resolution::SixHour => 1,
            Resolution::ThreeHour => 1,
            Resolution::Hour => 2,
            Resolution::ThirtyMinute => 1,
            Resolution::FifteenMinute => 1,
            Resolution::FiveMinute => 2,
            Resolution::Minute => 3,
            Resolution::ThirtySecond => 1,
            Resolution::FifteenSecond => 1,
            Resolution::FiveSecond => 2,
            Resolution::Second => 3,
            Resolution::FiveHundredMilli => 1,
            Resolution::HundredMilli => 3,
            Resolution::FiftyMilli => 1,
            Resolution::TenMilli => 3,
            Resolution::FiveMilli => 1,
            Resolution::Millisecond => 3,
        }
    }

    /// The bit position of the resolution's marker bit in the packed time word.
    pub fn trailing_zeros(self) -> (r: u8)
        ensures
            r as int == self.z_spec() as int,
    {
        match self {
            Resolution::Day => 31,
            Resolution::AmPm => 30,
            Resolution::SixHour => 29,
            Resolution::ThreeHour => 28,
            Resolution::Hour => 26,
            Resolution::ThirtyMinute => 25,
            Resolution::FifteenMinute => 24,
            Resolution::FiveMinute => 22,
            Resolution::Minute => 19,
            Resolution::ThirtySecond => 18,
            Resolution::FifteenSecond => 17,
            Resolution::FiveSecond => 15,
            Resolution::Second => 12,
            Resolution::FiveHundredMilli => 11,
            Resolution::HundredMilli => 8,
            Resolution::FiftyMilli => 7,
            Resolution::TenMilli => 4,
            Resolution::FiveMilli => 3,
            Resolution::Millisecond => 0,
        }
    }

    /// The resolution whose marker sits at bit `x`.
    pub fn from_trailing_zeros(x: u8) -> (r: Self)
        requires
            valid_z(x as u32),
        ensures
            r == res_of_z(x as u32),
            r.z_spec() == x as u32,
    {
        match x {
            0 => Resolution::Millisecond,
            3 => Resolution::FiveMilli,
            4 => Resolution::TenMilli,
            7 => Resolution::FiftyMilli,
            8 => Resolution::HundredMilli,
            11 => Resolution::FiveHundredMilli,
            12 => Resolution::Second,
            15 => Resolution::FiveSecond,
            17 => Resolution::FifteenSecond,
            18 => Resolution::ThirtySecond,
            19 => Resolution::Minute,
            22 => Resolution::FiveMinute,
            24 => Resolution::FifteenMinute,
            25 => Resolution::ThirtyMinute,
            26 => Resolution::Hour,
            28 => Resolution::ThreeHour,
            29 => Resolution::SixHour,
            30 => Resolution::AmPm,
            _ => {
                proof {
                    assert(x == 31);
                }
                Resolution::Day
            },
        }
    }

    /// Integer ratio of bucket counts: with `self` coarser than `rhs`, how many
    /// `rhs` buckets fit in one `self` bucket (1 when `self` is not coarser).
    pub fn div(self, rhs: Self) -> (r: u32)
        ensures
            r as int == quot(self.idx(), rhs.idx()),
    {
        let ghost si = self.idx();
        let ghost ri = rhs.idx();
        proof {
            lemma_idx_range(self);
            lemma_idx_range(rhs);
        }
        let range = Resolution::range(rhs, self);
        let mut ret: u32 = 1;
        let mut k: usize = 0;
        while k < range.len()
            invariant
                0 <= si <= 18,
                0 <= ri <= 18,
                si == self.idx(),
                ri == rhs.idx(),
                0 <= k <= range@.len(),
                forall|j: int| 0 <= j < range@.len() ==> (#[trigger] range@[j])
                    == Resolution::res_at(ri - j),
                range@.len() == if si < ri {
                    ri - si
                } else {
                    0int
                },
                ret as int == quot(ri - k, ri),
                ret as int <= 86400000,
            decreases range@.len() - k,
        {
            proof {
                let ai = ri - k - 1;
                lemma_quot_step(ai, ri);
                lemma_quot_bound(ai, ri);
                assert(range@[k as int] == Resolution::res_at(ai + 1));
                assert(quot(ai, ri) == Resolution::res_at(ai + 1).sub_spec() * quot(ai + 1, ri));
            }
            ret = ret * range[k].subdivision();
            k = k + 1;
        }
        proof {
            if si >= ri {
                assert(quot(si, ri) == 1);
            }
        }
        ret
    }
}

/// One step of the quotient product: peeling off the coarsest factor.
proof fn lemma_quot_step(ai: int, bi: int)
    requires
        ai < bi,
    ensures
        quot(ai, bi) == Resolution::res_at(ai + 1).sub_spec() * quot(ai + 1, bi),
    decreases bi - ai,
{
    if bi == ai + 1 {
        assert(quot(ai, bi) == quot(ai, bi - 1) * Resolution::res_at(bi).sub_spec());
        assert(quot(ai, ai) == 1);
    } else {
        lemma_quot_step(ai, bi - 1);
        assert(quot(ai, bi) == quot(ai, bi - 1) * Resolution::res_at(bi).sub_spec());
        vstd::arithmetic::mul::lemma_mul_is_associative(
            Resolution::res_at(ai + 1).sub_spec() as int,
            quot(ai + 1, bi - 1),
            Resolution::res_at(bi).sub_spec() as int,
        );
    }
}

/// The bucket-count ratio times the finer width gives the coarser width
/// exactly; in particular the ratio never exceeds the number of milliseconds
/// in a day.
pub proof fn lemma_quotient(a: Resolution, b: Resolution)
    requires
        a.idx() <= b.idx(),
    ensures
        a.width_spec() == quot(a.idx(), b.idx()) * b.width_spec(),
        1 <= quot(a.idx(), b.idx()) <= 86400000,
    decreases b.idx() - a.idx(),
{
    if a.idx() == b.idx() {
        assert(quot(a.idx(), b.idx()) == 1);
    } else {
        let c = Resolution::res_at(b.idx() - 1);
        assert(c.idx() == b.idx() - 1);
        lemma_quotient(a, c);
        lemma_width_ratio(b);
        let q = quot(a.idx(), c.idx());
        let s = b.sub_spec() as int;
        let w = b.width_spec() as int;
        assert(quot(a.idx(), b.idx()) == q * s);
        assert(a.width_spec() == (q * s) * w && 1 <= q * s && q * s <= 86400000) by (nonlinear_arith)
            requires
                a.width_spec() == q * c.width_spec(),
                c.width_spec() == w * s,
                1 <= q,
                2 <= s,
                1 <= w,
                a.width_spec() <= 86400000,
        ;
    }
}

/// Bound on the quotient alone, for overflow-freedom of the running product.
proof fn lemma_quot_bound(ai: int, bi: int)
    requires
        0 <= ai <= 18,
        0 <= bi <= 18,
    ensures
        1 <= quot(ai, bi) <= 86400000,
{
    if bi <= ai {
    } else {
        let a = Resolution::res_at(ai);
        let b = Resolution::res_at(bi);
        assert(a.idx() == ai);
        assert(b.idx() == bi);
        lemma_quotient(a, b);
    }
}

/// Every resolution's position lies in the enumeration's range.
pub proof fn lemma_idx_range(r: Resolution)
    ensures
        0 <= r.idx() <= 18,
        Resolution::res_at(r.idx()) == r,
{
}

/// Every resolution's marker position is one of the valid positions, below 32,
/// and determines the resolution.
pub proof fn lemma_res_z(r: Resolution)
    ensures
        valid_z(r.z_spec()),
        r.z_spec() < 32,
        res_of_z(r.z_spec()) == r,
{
}

/// Width ratio: one bucket of `r` is exactly `subdivision(finer(r))` buckets of
/// `finer(r)` laid side by side.
pub proof fn lemma_width_ratio(f: Resolution)
    requires
        f.idx() >= 1,
    ensures
        f.width_spec() * f.sub_spec() == Resolution::res_at(f.idx() - 1).width_spec(),
{
    assert(f.width_spec() * f.sub_spec() == Resolution::res_at(f.idx() - 1).width_spec())
        by (nonlinear_arith)
        requires
            f.idx() >= 1,
    ;
}

} // verus!
