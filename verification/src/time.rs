//! A time-of-day interval with its resolution packed into one non-zero 32-bit
//! word.
//!
//! The number of trailing zeros of the word identifies the resolution: the
//! lowest set bit is the *marker*. All bits above the marker are data bits, in
//! fixed slots per resolution (the AM/PM bit is always bit 31, the hour slot is
//! always bits 27-28, and so on), so raising the resolution lights up more low
//! bits without disturbing the ones already set. The all-zero pattern is never
//! a valid time, and two words at different resolutions are never equal.

use vstd::prelude::*;
use vstd::std_specs::bits::u32_trailing_zeros;
use crate::resolution::{Resolution, valid_z, res_of_z};
use crate::types::{AmPm, SixHour};

verus! {

/// Mask of the bits strictly below position `z`.
pub open spec fn low_mask(z: u32) -> u32
    recommends
        z < 32,
{
    !(u32::MAX << z)
}

/// The word's lowest set bit is at position `z`: everything below is zero.
pub open spec fn marker_at(w: u32, z: u32) -> bool {
    &&& z < 32
    &&& w & low_mask(z) == 0
    &&& (w >> z) & 1 == 1
}

/// Clear all bits below `z` and set the marker bit at `z`.
pub open spec fn reduce_w(w: u32, z: u32) -> u32
    recommends
        z < 32,
{
    (w & (u32::MAX << z)) | (1u32 << z)
}

/// Reduce to marker position `z` when `z` is above the word's own marker;
/// otherwise the word is already at least that coarse and stays unchanged.
pub open spec fn ru(w: u32, z: u32) -> u32 {
    if z <= u32_trailing_zeros(w) {
        w
    } else {
        reduce_w(w, z)
    }
}

/// Every multi-bit data slot holds a value below its subdivision factor, as
/// the builder methods always produce.
pub open spec fn canonical(w: u32) -> bool {
    &&& (w >> 27) & 3 < 3  // hour within three-hour block
    &&& (w >> 23) & 3 < 3  // five-minute block within fifteen
    &&& (w >> 20) & 7 < 5  // minute within five
    &&& (w >> 16) & 3 < 3  // five-second block within fifteen
    &&& (w >> 13) & 7 < 5  // second within five
    &&& (w >> 9) & 7 < 5  // hundred-milli block within five hundred
    &&& (w >> 5) & 7 < 5  // ten-milli block within fifty
    &&& (w >> 1) & 7 < 5  // milli within five
}

/// A well-formed packed time word: non-zero, marker at a position that names a
/// resolution, and canonical data slots.
pub open spec fn time_wf(w: u32) -> bool {
    &&& w != 0
    &&& valid_z(u32_trailing_zeros(w))
    &&& canonical(w)
}

/// The larger of two marker positions.
pub open spec fn mx(z1: u32, z2: u32) -> u32 {
    if z1 < z2 {
        z2
    } else {
        z1
    }
}

/// The coarser of the two words' marker positions.
pub open spec fn zmax(x: u32, y: u32) -> u32 {
    mx(u32_trailing_zeros(x), u32_trailing_zeros(y))
}

/// The interval of `x` lies entirely before the interval of `y`: after
/// coarsening both words to the coarser of their two resolutions, `x`'s word
/// is strictly smaller.
pub open spec fn coarse_lt(x: u32, y: u32) -> bool {
    reduce_w(x, zmax(x, y)) < reduce_w(y, zmax(x, y))
}

/// One of the two intervals contains the other: coarsened to the coarser of
/// the two resolutions, the words agree.
pub open spec fn coarse_eq(x: u32, y: u32) -> bool {
    reduce_w(x, zmax(x, y)) == reduce_w(y, zmax(x, y))
}

/// A non-zero word has its marker at its trailing-zero count.
pub proof fn lemma_tz(w: u32)
    requires
        w != 0,
    ensures
        u32_trailing_zeros(w) < 32,
        marker_at(w, u32_trailing_zeros(w)),
{
    vstd::std_specs::bits::axiom_u32_trailing_zeros(w);
    let z = u32_trailing_zeros(w);
    assert(z < 32 && (w << vstd::prelude::sub(32, z)) == 0 ==> w & low_mask(z) == 0)
        by (bit_vector);
}

/// The marker position determines the trailing-zero count, and a word with a
/// marker is never zero.
pub proof fn lemma_marker_tz(w: u32, z: u32)
    requires
        marker_at(w, z),
    ensures
        u32_trailing_zeros(w) == z,
        w != 0,
{
    assert(w != 0) by (bit_vector)
        requires
            z < 32 && (w >> z) & 1 == 1,
    ;
    lemma_tz(w);
    let z2 = u32_trailing_zeros(w);
    assert(z == z2) by (bit_vector)
        requires
            z < 32 && w & low_mask(z) == 0 && (w >> z) & 1 == 1 && z2 < 32 && w & low_mask(z2) == 0
                && (w >> z2) & 1 == 1,
    ;
}

/// Reducing places the marker at the requested position and keeps the data
/// slots canonical.
pub proof fn lemma_reduce_props(w: u32, z: u32)
    requires
        z < 32,
    ensures
        marker_at(reduce_w(w, z), z),
        u32_trailing_zeros(reduce_w(w, z)) == z,
        canonical(w) && valid_z(z) ==> canonical(reduce_w(w, z)),
{
    assert(marker_at(reduce_w(w, z), z)) by (bit_vector)
        requires
            z < 32,
    ;
    lemma_marker_tz(reduce_w(w, z), z);
    if canonical(w) && valid_z(z) {
        assert(canonical(reduce_w(w, z))) by (bit_vector)
            requires
                z < 32 && valid_z(z) && canonical(w),
        ;
    }
}

/// Reducing to the word's own marker position changes nothing.
pub proof fn lemma_reduce_id(w: u32, z: u32)
    requires
        marker_at(w, z),
    ensures
        reduce_w(w, z) == w,
{
    assert(reduce_w(w, z) == w) by (bit_vector)
        requires
            z < 32 && w & low_mask(z) == 0 && (w >> z) & 1 == 1,
    ;
}

/// Reducing twice is the same as reducing once to the coarser position.
pub proof fn lemma_reduce_compose(w: u32, z1: u32, z2: u32)
    requires
        z1 <= z2 < 32,
    ensures
        reduce_w(reduce_w(w, z1), z2) == reduce_w(w, z2),
{
    assert(reduce_w(reduce_w(w, z1), z2) == reduce_w(w, z2)) by (bit_vector)
        requires
            z1 <= z2 < 32,
    ;
}

/// The coarse interval order is transitive.
pub proof fn lemma_coarse_lt_trans(a: u32, b: u32, c: u32)
    requires
        a != 0,
        b != 0,
        c != 0,
        coarse_lt(a, b),
        coarse_lt(b, c),
    ensures
        coarse_lt(a, c),
{
    lemma_tz(a);
    lemma_tz(b);
    lemma_tz(c);
    let za = u32_trailing_zeros(a);
    let zb = u32_trailing_zeros(b);
    let zc = u32_trailing_zeros(c);
    assert(reduce_w(a, mx(za, zc)) < reduce_w(c, mx(za, zc))) by (bit_vector)
        requires
            marker_at(a, za),
            marker_at(b, zb),
            marker_at(c, zc),
            reduce_w(a, mx(za, zb)) < reduce_w(b, mx(za, zb)),
            reduce_w(b, mx(zb, zc)) < reduce_w(c, mx(zb, zc)),
    ;
}

/// Coarsening both sides of a strictly ordered pair keeps them ordered unless
/// it makes them the same bucket.
pub proof fn lemma_coarse_lt_reduce(a: u32, b: u32, z: u32)
    requires
        a != 0,
        b != 0,
        z < 32,
        coarse_lt(a, b),
    ensures
        coarse_lt(ru(a, z), ru(b, z)) || ru(a, z) == ru(b, z),
        ru(a, z) != 0,
        ru(b, z) != 0,
{
    lemma_tz(a);
    lemma_tz(b);
    let za = u32_trailing_zeros(a);
    let zb = u32_trailing_zeros(b);
    // A reduced word is the same as a plain reduce to the coarser position.
    lemma_reduce_id(a, za);
    lemma_reduce_id(b, zb);
    let a2 = ru(a, z);
    let b2 = ru(b, z);
    assert(a2 == reduce_w(a, mx(za, z)));
    assert(b2 == reduce_w(b, mx(zb, z)));
    lemma_reduce_props(a, mx(za, z));
    lemma_reduce_props(b, mx(zb, z));
    lemma_marker_tz(a2, mx(za, z));
    lemma_marker_tz(b2, mx(zb, z));
    let m2 = mx(mx(za, z), mx(zb, z));
    assert(reduce_w(a2, m2) < reduce_w(b2, m2) || a2 == b2) by (bit_vector)
        requires
            marker_at(a, za),
            marker_at(b, zb),
            z < 32,
            reduce_w(a, mx(za, zb)) < reduce_w(b, mx(za, zb)),
            a2 == reduce_w(a, mx(za, z)),
            b2 == reduce_w(b, mx(zb, z)),
            m2 == mx(mx(za, z), mx(zb, z)),
    ;
}

/// Between words at the same resolution the coarse order is the plain integer
/// order of the words.
pub proof fn lemma_same_res_cmp(a: u32, b: u32)
    requires
        a != 0,
        b != 0,
        u32_trailing_zeros(a) == u32_trailing_zeros(b),
    ensures
        coarse_lt(a, b) <==> a < b,
        coarse_eq(a, b) <==> a == b,
{
    lemma_tz(a);
    lemma_tz(b);
    lemma_reduce_id(a, u32_trailing_zeros(a));
    lemma_reduce_id(b, u32_trailing_zeros(b));
}

/// A time with a resolution
///
/// Start with `Time::new()`, which is a timestamp at the lowest resolution
/// possible, and covers the whole day. Increase the resolution using the
/// `Time::with_*` methods. Reduce the resolution using [`Time::reduce_to`].
///
/// Unlike most date/time libraries, the resolution is part of the value:
/// `t.with_millis(0)` is a *different value* from `t`, because before the call
/// the number of sub-second millis was unknown and afterwards it is known to
/// be zero. Two `Time`s at different resolutions never compare equal, even if
/// one interval contains the other; ordering between resolutions is available
/// through [`Time::coarse_cmp`].
#[derive(Copy, Clone, PartialEq, Eq, Structural, Debug)]
pub struct Time {
    bits: u32,
}

impl View for Time {
    type V = u32;

    closed spec fn view(&self) -> u32 {
        self.bits
    }
}

impl Time {
    /// Every reachable `Time` is a well-formed packed word.
    #[verifier::type_invariant]
    pub open spec fn wf(self) -> bool {
        time_wf(self@)
    }

    /// The packed word of the interval covering the whole day.
    pub open spec fn day_word() -> u32 {
        0x8000_0000u32
    }

    /// Covers the whole day
    pub fn new() -> (r: Self)
        ensures
            r@ == Time::day_word(),
            time_wf(r@),
            u32_trailing_zeros(r@) == 31,
    {
        proof {
            lemma_day_word();
        }
        Time { bits: 0x8000_0000 }
    }

    /// The interval covering the whole day.
    pub fn whole_day() -> (r: Self)
        ensures
            r@ == Time::day_word(),
            time_wf(r@),
            u32_trailing_zeros(r@) == 31,
    {
        Time::new()
    }

    /// The resolution encoded in the word's marker bit.
    pub fn resolution(&self) -> (r: Resolution)
        ensures
            r == res_of_z(u32_trailing_zeros(self@)),
            r.z_spec() == u32_trailing_zeros(self@),
            time_wf(self@),
    {
        proof {
            use_type_invariant(self);
            lemma_tz(self@);
        }
        let tz = self.bits.trailing_zeros();
        Resolution::from_trailing_zeros(tz as u8)
    }

    /// Has no effect if `res` is finer than the current resolution; otherwise
    /// clears the bits below the new marker and moves the marker there.
    pub fn reduce_to(&mut self, res: Resolution)
        ensures
            final(self)@ == ru(old(self)@, res.z_spec()),
            u32_trailing_zeros(final(self)@) == mx(u32_trailing_zeros(old(self)@), res.z_spec()),
            time_wf(final(self)@),
    {
        proof {
            use_type_invariant(&*self);
            lemma_tz(self@);
            crate::resolution::lemma_res_z(res);
        }
        let z = res.trailing_zeros() as u32;
        let cur = self.bits.trailing_zeros();
        if z <= cur {
            return ;
        }
        let x = (self.bits & (u32::MAX << z)) | (1u32 << z);
        proof {
            lemma_reduce_props(old(self)@, z);
            lemma_marker_tz(x, z);
        }
        self.bits = x;
    }

    /// The same value at resolution `res`, or `None` when `res` is finer than
    /// the current resolution.
    pub fn with_res(self, res: Resolution) -> (r: Option<Self>)
        ensures
            r is Some <==> res.z_spec() >= u32_trailing_zeros(self@),
            r matches Some(t) ==> t@ == reduce_w(self@, res.z_spec()) && time_wf(t@)
                && u32_trailing_zeros(t@) == res.z_spec(),
    {
        proof {
            use_type_invariant(&self);
            lemma_tz(self@);
            crate::resolution::lemma_res_z(res);
        }
        let z = res.trailing_zeros() as u32;
        let cur = self.bits.trailing_zeros();
        if z < cur {
            return None;
        }
        let x = (self.bits & (u32::MAX << z)) | (1u32 << z);
        proof {
            lemma_reduce_props(self@, z);
            lemma_marker_tz(x, z);
        }
        Some(Time { bits: x })
    }

    /// Compare two values by first coarsening both to the coarser of their two
    /// resolutions. This is consistent with `partial_cmp()` where that is
    /// defined, but returns `Equal` whenever one interval contains the other,
    /// where `eq()` returns `false`.
    pub fn coarse_cmp(self, other: Time) -> (r: core::cmp::Ordering)
        ensures
            r == core::cmp::Ordering::Less <==> coarse_lt(self@, other@),
            r == core::cmp::Ordering::Greater <==> coarse_lt(other@, self@),
            r == core::cmp::Ordering::Equal <==> coarse_eq(self@, other@),
    {
        proof {
            use_type_invariant(&self);
            use_type_invariant(&other);
            lemma_tz(self@);
            lemma_tz(other@);
        }
        let za = self.bits.trailing_zeros();
        let zb = other.bits.trailing_zeros();
        let z = if za < zb {
            zb
        } else {
            za
        };
        let x = (self.bits & (u32::MAX << z)) | (1u32 << z);
        let y = (other.bits & (u32::MAX << z)) | (1u32 << z);
        if x < y {
            core::cmp::Ordering::Less
        } else if x == y {
            core::cmp::Ordering::Equal
        } else {
            core::cmp::Ordering::Greater
        }
    }
}

impl Default for Time {
    /// The whole-day interval.
    fn default() -> (r: Self)
        ensures
            r@ == Time::day_word(),
            time_wf(r@),
    {
        Time::new()
    }
}

impl PartialOrd for Time {
    fn partial_cmp(&self, other: &Self) -> (r: Option<core::cmp::Ordering>) {
        if self.bits.trailing_zeros() == other.bits.trailing_zeros() {
            if self.bits < other.bits {
                Some(core::cmp::Ordering::Less)
            } else if self.bits == other.bits {
                Some(core::cmp::Ordering::Equal)
            } else {
                Some(core::cmp::Ordering::Greater)
            }
        } else {
            None
        }
    }
}

impl vstd::std_specs::cmp::PartialOrdSpecImpl for Time {
    open spec fn obeys_partial_cmp_spec() -> bool {
        true
    }

    open spec fn partial_cmp_spec(&self, other: &Self) -> Option<core::cmp::Ordering> {
        if u32_trailing_zeros(self@) != u32_trailing_zeros(other@) {
            None
        } else if self@ < other@ {
            Some(core::cmp::Ordering::Less)
        } else if self@ == other@ {
            Some(core::cmp::Ordering::Equal)
        } else {
            Some(core::cmp::Ordering::Greater)
        }
    }
}

// ---------------------------------------------------------------------------
// Component words: what each builder method writes into the packed word.
// ---------------------------------------------------------------------------

/// The word a half-day ordinal produces when set into a whole-day value.
pub open spec fn ampm_word(a: u32) -> u32 {
    (1u32 << 30) | ((a % 2) << 31)
}

/// The word a six-hour-period ordinal produces when set into a whole-day value.
pub open spec fn tod_word(t: u32) -> u32 {
    (1u32 << 29) | ((t % 2) << 30) | (((t / 2) % 2) << 31)
}

/// The word an hour produces when set into a whole-day value.
pub open spec fn hour_word(h: u32) -> u32 {
    (1u32 << 26) | ((h % 3) << 27) | (((h / 3) % 2) << 29) | (((h / 6) % 2) << 30) | (((h / 12)
        % 2) << 31)
}

/// The word a minute produces when set into an hour-resolution word `w`.
pub open spec fn minute_word(w: u32, m: u32) -> u32 {
    (w & !(1u32 << 26)) | (1u32 << 19) | ((m % 5) << 20) | (((m / 5) % 3) << 23) | (((m / 15) % 2)
        << 25) | (((m / 30) % 2) << 26)
}

/// The word a second produces when set into a minute-resolution word `w`.
pub open spec fn second_word(w: u32, s: u32) -> u32 {
    (w & !(1u32 << 19)) | (1u32 << 12) | ((s % 5) << 13) | (((s / 5) % 3) << 16) | (((s / 15) % 2)
        << 18) | (((s / 30) % 2) << 19)
}

/// The word a millisecond count produces when set into a second-resolution
/// word `w`.
pub open spec fn millis_word(w: u32, q: u32) -> u32 {
    (w & !(1u32 << 12)) | 1u32 | ((q % 5) << 1) | (((q / 5) % 2) << 4) | (((q / 10) % 5) << 5) | ((
    (q / 50) % 2) << 8) | (((q / 100) % 5) << 9) | (((q / 500) % 2) << 12)
}

// ---------------------------------------------------------------------------
// Component readers: the integer value a reader method reconstructs. Each bit
// slot contributes only when the resolution is fine enough to include it.
// ---------------------------------------------------------------------------

/// The hour (0-23) encoded in `w`, or the coarsest representative.
pub open spec fn hour_of(w: u32) -> int {
    let tz = u32_trailing_zeros(w);
    (if 30 >= tz {
        ((w >> 31) & 1) as int * 12
    } else {
        0
    }) + (if 29 >= tz {
        ((w >> 30) & 1) as int * 6
    } else {
        0
    }) + (if 28 >= tz {
        ((w >> 29) & 1) as int * 3
    } else {
        0
    }) + (if 26 >= tz {
        ((w >> 27) & 3) as int
    } else {
        0
    })
}

/// The minute (0-59) encoded in `w`, or the coarsest representative.
pub open spec fn minute_of(w: u32) -> int {
    let tz = u32_trailing_zeros(w);
    (if 25 >= tz {
        ((w >> 26) & 1) as int * 30
    } else {
        0
    }) + (if 24 >= tz {
        ((w >> 25) & 1) as int * 15
    } else {
        0
    }) + (if 22 >= tz {
        ((w >> 23) & 3) as int * 5
    } else {
        0
    }) + (if 19 >= tz {
        ((w >> 20) & 7) as int
    } else {
        0
    })
}

/// The second (0-59) encoded in `w`, or the coarsest representative.
pub open spec fn second_of(w: u32) -> int {
    let tz = u32_trailing_zeros(w);
    (if 18 >= tz {
        ((w >> 19) & 1) as int * 30
    } else {
        0
    }) + (if 17 >= tz {
        ((w >> 18) & 1) as int * 15
    } else {
        0
    }) + (if 15 >= tz {
        ((w >> 16) & 3) as int * 5
    } else {
        0
    }) + (if 12 >= tz {
        ((w >> 13) & 7) as int
    } else {
        0
    })
}

/// The milliseconds (0-999) encoded in `w`, or the coarsest representative.
pub open spec fn millis_of(w: u32) -> int {
    let tz = u32_trailing_zeros(w);
    (if 11 >= tz {
        ((w >> 12) & 1) as int * 500
    } else {
        0
    }) + (if 8 >= tz {
        ((w >> 9) & 7) as int * 100
    } else {
        0
    }) + (if 7 >= tz {
        ((w >> 8) & 1) as int * 50
    } else {
        0
    }) + (if 4 >= tz {
        ((w >> 5) & 7) as int * 10
    } else {
        0
    }) + (if 3 >= tz {
        ((w >> 4) & 1) as int * 5
    } else {
        0
    }) + (if 0 >= tz {
        ((w >> 1) & 7) as int
    } else {
        0
    })
}

/// The half-day ordinal encoded in `w` (meaningful when the resolution is at
/// least AM/PM).
pub open spec fn ampm_of(w: u32) -> int {
    ((w >> 31) & 1) as int
}

/// The six-hour-period ordinal encoded in `w`, or the coarsest representative.
pub open spec fn tod_of(w: u32) -> int {
    let tz = u32_trailing_zeros(w);
    ((w >> 31) & 1) as int * 2 + (if 29 >= tz {
        ((w >> 30) & 1) as int
    } else {
        0
    })
}

/// Every 1-bit slot extraction is at most 1, every 2-bit one at most 3, every
/// 3-bit one at most 7.
proof fn lemma_slot_bounds(w: u32)
    ensures
        (w >> 31) & 1 <= 1,
        (w >> 30) & 1 <= 1,
        (w >> 29) & 1 <= 1,
        (w >> 27) & 3 <= 3,
        (w >> 26) & 1 <= 1,
        (w >> 25) & 1 <= 1,
        (w >> 23) & 3 <= 3,
        (w >> 20) & 7 <= 7,
        (w >> 19) & 1 <= 1,
        (w >> 18) & 1 <= 1,
        (w >> 16) & 3 <= 3,
        (w >> 13) & 7 <= 7,
        (w >> 12) & 1 <= 1,
        (w >> 9) & 7 <= 7,
        (w >> 8) & 1 <= 1,
        (w >> 5) & 7 <= 7,
        (w >> 4) & 1 <= 1,
        (w >> 1) & 7 <= 7,
{
    assert((w >> 31) & 1 <= 1 && (w >> 30) & 1 <= 1 && (w >> 29) & 1 <= 1 && (w >> 27) & 3 <= 3 && (
    w >> 26) & 1 <= 1 && (w >> 25) & 1 <= 1 && (w >> 23) & 3 <= 3 && (w >> 20) & 7 <= 7 && (w >> 19)
        & 1 <= 1 && (w >> 18) & 1 <= 1 && (w >> 16) & 3 <= 3 && (w >> 13) & 7 <= 7 && (w >> 12) & 1
        <= 1 && (w >> 9) & 7 <= 7 && (w >> 8) & 1 <= 1 && (w >> 5) & 7 <= 7 && (w >> 4) & 1 <= 1 && (
    w >> 1) & 7 <= 7) by (bit_vector);
}

/// Setting the half-day into a whole-day word: marker, canonicity and
/// read-back.
proof fn lemma_ampm_word(a: u32)
    requires
        a <= 1,
    ensures
        marker_at(ampm_word(a), 30),
        canonical(ampm_word(a)),
        u32_trailing_zeros(ampm_word(a)) == 30,
        (ampm_word(a) >> 31) & 1 == a,
        (ampm_word(a) >> 30) & 1 == 1,
{
    assert(marker_at(ampm_word(a), 30) && canonical(ampm_word(a)) && (ampm_word(a) >> 31) & 1 == a
        && (ampm_word(a) >> 30) & 1 == 1) by (bit_vector)
        requires
            a <= 1,
    ;
    lemma_marker_tz(ampm_word(a), 30);
}

/// Setting the six-hour period into a whole-day word: marker, canonicity and
/// read-back.
proof fn lemma_tod_word(t: u32)
    requires
        t <= 3,
    ensures
        marker_at(tod_word(t), 29),
        canonical(tod_word(t)),
        u32_trailing_zeros(tod_word(t)) == 29,
        ((tod_word(t) >> 31) & 1) as int * 2 + ((tod_word(t) >> 30) & 1) as int == t,
        (tod_word(t) >> 31) & 1 == t / 2,
{
    assert(marker_at(tod_word(t), 29) && canonical(tod_word(t)) && ((tod_word(t) >> 31) & 1) as int
        * 2 + ((tod_word(t) >> 30) & 1) as int == t && (tod_word(t) >> 31) & 1 == t / 2)
        by (bit_vector)
        requires
            t <= 3,
    ;
    lemma_marker_tz(tod_word(t), 29);
}

/// Setting the hour into a whole-day word: marker, canonicity and read-back.
proof fn lemma_hour_word(h: u32)
    requires
        h <= 23,
    ensures
        marker_at(hour_word(h), 26),
        canonical(hour_word(h)),
        u32_trailing_zeros(hour_word(h)) == 26,
        ((hour_word(h) >> 31) & 1) as int * 12 + ((hour_word(h) >> 30) & 1) as int * 6 + ((
        hour_word(h) >> 29) & 1) as int * 3 + ((hour_word(h) >> 27) & 3) as int == h,
        (hour_word(h) >> 31) & 1 == h / 12,
        ((hour_word(h) >> 31) & 1) as int * 2 + ((hour_word(h) >> 30) & 1) as int == h / 6,
{
    assert(marker_at(hour_word(h), 26) && canonical(hour_word(h)) && ((hour_word(h) >> 31)
        & 1) as int * 12 + ((hour_word(h) >> 30) & 1) as int * 6 + ((hour_word(h) >> 29)
        & 1) as int * 3 + ((hour_word(h) >> 27) & 3) as int == h && (hour_word(h) >> 31) & 1 == h
        / 12 && ((hour_word(h) >> 31) & 1) as int * 2 + ((hour_word(h) >> 30) & 1) as int == h / 6)
        by (bit_vector)
        requires
            h <= 23,
    ;
    lemma_marker_tz(hour_word(h), 26);
}

/// Setting the minute into an hour-resolution word: marker, canonicity,
/// read-back, and preservation of the hour slots.
proof fn lemma_minute_word(w: u32, m: u32)
    requires
        marker_at(w, 26),
        canonical(w),
        m <= 59,
    ensures
        marker_at(minute_word(w, m), 19),
        canonical(minute_word(w, m)),
        u32_trailing_zeros(minute_word(w, m)) == 19,
        ((minute_word(w, m) >> 26) & 1) as int * 30 + ((minute_word(w, m) >> 25) & 1) as int * 15
            + ((minute_word(w, m) >> 23) & 3) as int * 5 + ((minute_word(w, m) >> 20)
            & 7) as int == m,
        (minute_word(w, m) >> 31) & 1 == (w >> 31) & 1,
        (minute_word(w, m) >> 30) & 1 == (w >> 30) & 1,
        (minute_word(w, m) >> 29) & 1 == (w >> 29) & 1,
        (minute_word(w, m) >> 27) & 3 == (w >> 27) & 3,
{
    let ww = minute_word(w, m);
    assert(marker_at(ww, 19) && canonical(ww) && ((ww >> 26) & 1) as int * 30 + ((ww >> 25)
        & 1) as int * 15 + ((ww >> 23) & 3) as int * 5 + ((ww >> 20) & 7) as int == m && (ww >> 31)
        & 1 == (w >> 31) & 1 && (ww >> 30) & 1 == (w >> 30) & 1 && (ww >> 29) & 1 == (w >> 29) & 1
        && (ww >> 27) & 3 == (w >> 27) & 3) by (bit_vector)
        requires
            ww == minute_word(w, m),
            w & low_mask(26) == 0,
            (w >> 26) & 1 == 1,
            canonical(w),
            m <= 59,
    ;
    lemma_marker_tz(ww, 19);
}

/// Setting the second into a minute-resolution word: marker, canonicity,
/// read-back, and preservation of the coarser slots.
proof fn lemma_second_word(w: u32, s: u32)
    requires
        marker_at(w, 19),
        canonical(w),
        s <= 59,
    ensures
        marker_at(second_word(w, s), 12),
        canonical(second_word(w, s)),
        u32_trailing_zeros(second_word(w, s)) == 12,
        ((second_word(w, s) >> 19) & 1) as int * 30 + ((second_word(w, s) >> 18) & 1) as int * 15
            + ((second_word(w, s) >> 16) & 3) as int * 5 + ((second_word(w, s) >> 13)
            & 7) as int == s,
        second_word(w, s) >> 20 == w >> 20,
{
    let ww = second_word(w, s);
    assert(marker_at(ww, 12) && canonical(ww) && ((ww >> 19) & 1) as int * 30 + ((ww >> 18)
        & 1) as int * 15 + ((ww >> 16) & 3) as int * 5 + ((ww >> 13) & 7) as int == s && ww >> 20
        == w >> 20) by (bit_vector)
        requires
            ww == second_word(w, s),
            w & low_mask(19) == 0,
            (w >> 19) & 1 == 1,
            canonical(w),
            s <= 59,
    ;
    lemma_marker_tz(ww, 12);
}

/// Setting the milliseconds into a second-resolution word: marker, canonicity,
/// read-back, and preservation of the coarser slots.
proof fn lemma_millis_word(w: u32, q: u32)
    requires
        marker_at(w, 12),
        canonical(w),
        q <= 999,
    ensures
        marker_at(millis_word(w, q), 0),
        canonical(millis_word(w, q)),
        u32_trailing_zeros(millis_word(w, q)) == 0,
        ((millis_word(w, q) >> 12) & 1) as int * 500 + ((millis_word(w, q) >> 9) & 7) as int * 100
            + ((millis_word(w, q) >> 8) & 1) as int * 50 + ((millis_word(w, q) >> 5) & 7) as int
            * 10 + ((millis_word(w, q) >> 4) & 1) as int * 5 + ((millis_word(w, q) >> 1)
            & 7) as int == q,
        millis_word(w, q) >> 13 == w >> 13,
{
    let ww = millis_word(w, q);
    assert(marker_at(ww, 0) && canonical(ww) && ((ww >> 12) & 1) as int * 500 + ((ww >> 9)
        & 7) as int * 100 + ((ww >> 8) & 1) as int * 50 + ((ww >> 5) & 7) as int * 10 + ((ww >> 4)
        & 1) as int * 5 + ((ww >> 1) & 7) as int == q && ww >> 13 == w >> 13) by (bit_vector)
        requires
            ww == millis_word(w, q),
            w & low_mask(12) == 0,
            (w >> 12) & 1 == 1,
            canonical(w),
            q <= 999,
    ;
    lemma_marker_tz(ww, 0);
}

impl Time {
    /// Set the half of the day, if the current resolution is exactly `Day`.
    pub fn try_with_am_pm(self, x: AmPm) -> (r: Option<Self>)
        ensures
            r is Some <==> u32_trailing_zeros(self@) == 31,
            r matches Some(t) ==> t@ == ampm_word(x.ord_spec() as u32) && time_wf(t@)
                && u32_trailing_zeros(t@) == 30 && ampm_of(t@) == x.ord_spec() && hour_of(t@) == 12
                * x.ord_spec(),
    {
        proof {
            use_type_invariant(&self);
            lemma_tz(self@);
        }
        if self.bits.trailing_zeros() != 31 {
            return None;
        }
        let a = x.to_ord() as u32;
        let word = (1u32 << 30) | ((a % 2) << 31);
        proof {
            lemma_ampm_word(a);
        }
        Some(Time { bits: word })
    }

    /// Set the six-hour period, if the current resolution is exactly `Day`.
    pub fn try_with_time_of_day(self, x: SixHour) -> (r: Option<Self>)
        ensures
            r is Some <==> u32_trailing_zeros(self@) == 31,
            r matches Some(t) ==> t@ == tod_word(x.ord_spec() as u32) && time_wf(t@)
                && u32_trailing_zeros(t@) == 29 && tod_of(t@) == x.ord_spec() && ampm_of(t@)
                == x.ord_spec() as int / 2 && hour_of(t@) == 6 * x.ord_spec(),
    {
        proof {
            use_type_invariant(&self);
            lemma_tz(self@);
        }
        if self.bits.trailing_zeros() != 31 {
            return None;
        }
        let t = x.to_ord() as u32;
        let word = (1u32 << 29) | ((t % 2) << 30) | (((t / 2) % 2) << 31);
        proof {
            lemma_tod_word(t);
        }
        Some(Time { bits: word })
    }

    /// Set the hour (0-23), if the current resolution is exactly `Day`.
    pub fn try_with_hour(self, x: u8) -> (r: Option<Self>)
        ensures
            r is Some <==> (x <= 23 && u32_trailing_zeros(self@) == 31),
            r matches Some(t) ==> t@ == hour_word(x as u32) && time_wf(t@) && u32_trailing_zeros(
                t@,
            ) == 26 && hour_of(t@) == x && minute_of(t@) == 0 && second_of(t@) == 0 && millis_of(
                t@,
            ) == 0 && ampm_of(t@) == x as int / 12 && tod_of(t@) == x as int / 6,
    {
        proof {
            use_type_invariant(&self);
            lemma_tz(self@);
        }
        if x > 23 {
            return None;
        }
        if self.bits.trailing_zeros() != 31 {
            return None;
        }
        let h = x as u32;
        let word = (1u32 << 26) | ((h % 3) << 27) | (((h / 3) % 2) << 29) | (((h / 6) % 2) << 30)
            | (((h / 12) % 2) << 31);
        proof {
            lemma_hour_word(h);
        }
        Some(Time { bits: word })
    }

    /// Set the minute (0-59), if the current resolution is exactly `Hour`.
    pub fn try_with_minute(self, x: u8) -> (r: Option<Self>)
        ensures
            r is Some <==> (x <= 59 && u32_trailing_zeros(self@) == 26),
            r matches Some(t) ==> t@ == minute_word(self@, x as u32) && time_wf(t@)
                && u32_trailing_zeros(t@) == 19 && minute_of(t@) == x && hour_of(t@) == hour_of(
                self@,
            ) && second_of(t@) == 0 && millis_of(t@) == 0 && ampm_of(t@) == ampm_of(self@)
                && tod_of(t@) == tod_of(self@),
    {
        proof {
            use_type_invariant(&self);
            lemma_tz(self@);
        }
        if x > 59 {
            return None;
        }
        if self.bits.trailing_zeros() != 26 {
            return None;
        }
        let m = x as u32;
        let word = (self.bits & !(1u32 << 26)) | (1u32 << 19) | ((m % 5) << 20) | (((m / 5) % 3)
            << 23) | (((m / 15) % 2) << 25) | (((m / 30) % 2) << 26);
        proof {
            lemma_minute_word(self@, m);
        }
        Some(Time { bits: word })
    }

    /// Set the second (0-59), if the current resolution is exactly `Minute`.
    pub fn try_with_second(self, x: u8) -> (r: Option<Self>)
        ensures
            r is Some <==> (x <= 59 && u32_trailing_zeros(self@) == 19),
            r matches Some(t) ==> t@ == second_word(self@, x as u32) && time_wf(t@)
                && u32_trailing_zeros(t@) == 12 && second_of(t@) == x && minute_of(t@) == minute_of(
                self@,
            ) && hour_of(t@) == hour_of(self@) && millis_of(t@) == 0 && ampm_of(t@) == ampm_of(
                self@,
            ) && tod_of(t@) == tod_of(self@),
    {
        proof {
            use_type_invariant(&self);
            lemma_tz(self@);
        }
        if x > 59 {
            return None;
        }
        if self.bits.trailing_zeros() != 19 {
            return None;
        }
        let s = x as u32;
        let word = (self.bits & !(1u32 << 19)) | (1u32 << 12) | ((s % 5) << 13) | (((s / 5) % 3)
            << 16) | (((s / 15) % 2) << 18) | (((s / 30) % 2) << 19);
        proof {
            lemma_second_word(self@, s);
            lemma_shift_slices(self@, word);
        }
        Some(Time { bits: word })
    }

    /// Set the milliseconds (0-999), if the current resolution is exactly
    /// `Second`.
    pub fn try_with_millis(self, x: u16) -> (r: Option<Self>)
        ensures
            r is Some <==> (x <= 999 && u32_trailing_zeros(self@) == 12),
            r matches Some(t) ==> t@ == millis_word(self@, x as u32) && time_wf(t@)
                && u32_trailing_zeros(t@) == 0 && millis_of(t@) == x && second_of(t@) == second_of(
                self@,
            ) && minute_of(t@) == minute_of(self@) && hour_of(t@) == hour_of(self@) && ampm_of(t@)
                == ampm_of(self@) && tod_of(t@) == tod_of(self@),
    {
        proof {
            use_type_invariant(&self);
            lemma_tz(self@);
        }
        if x > 999 {
            return None;
        }
        if self.bits.trailing_zeros() != 12 {
            return None;
        }
        let q = x as u32;
        let word = (self.bits & !(1u32 << 12)) | 1u32 | ((q % 5) << 1) | (((q / 5) % 2) << 4) | (((
        q / 10) % 5) << 5) | (((q / 50) % 2) << 8) | (((q / 100) % 5) << 9) | (((q / 500) % 2)
            << 12);
        proof {
            lemma_millis_word(self@, q);
            lemma_shift_slices(self@, word);
        }
        Some(Time { bits: word })
    }

    /// Set the half of the day; unchanged unless the resolution is `Day`.
    pub fn with_am_pm(self, x: AmPm) -> (r: Self)
        ensures
            u32_trailing_zeros(self@) == 31 ==> r@ == ampm_word(x.ord_spec() as u32),
            u32_trailing_zeros(self@) != 31 ==> r == self,
    {
        match self.try_with_am_pm(x) {
            Some(t) => t,
            None => self,
        }
    }

    /// Set the six-hour period; unchanged unless the resolution is `Day`.
    pub fn with_time_of_day(self, x: SixHour) -> (r: Self)
        ensures
            u32_trailing_zeros(self@) == 31 ==> r@ == tod_word(x.ord_spec() as u32),
            u32_trailing_zeros(self@) != 31 ==> r == self,
    {
        match self.try_with_time_of_day(x) {
            Some(t) => t,
            None => self,
        }
    }

    /// Set the hour (0-23); unchanged unless in range and the resolution is
    /// `Day`.
    pub fn with_hour(self, x: u8) -> (r: Self)
        ensures
            x <= 23 && u32_trailing_zeros(self@) == 31 ==> r@ == hour_word(x as u32),
            !(x <= 23 && u32_trailing_zeros(self@) == 31) ==> r == self,
    {
        match self.try_with_hour(x) {
            Some(t) => t,
            None => self,
        }
    }

    /// Set the minute (0-59); unchanged unless in range and the resolution is
    /// `Hour`.
    pub fn with_minute(self, x: u8) -> (r: Self)
        ensures
            x <= 59 && u32_trailing_zeros(self@) == 26 ==> r@ == minute_word(self@, x as u32),
            !(x <= 59 && u32_trailing_zeros(self@) == 26) ==> r == self,
    {
        match self.try_with_minute(x) {
            Some(t) => t,
            None => self,
        }
    }

    /// Set the second (0-59); unchanged unless in range and the resolution is
    /// `Minute`.
    pub fn with_second(self, x: u8) -> (r: Self)
        ensures
            x <= 59 && u32_trailing_zeros(self@) == 19 ==> r@ == second_word(self@, x as u32),
            !(x <= 59 && u32_trailing_zeros(self@) == 19) ==> r == self,
    {
        match self.try_with_second(x) {
            Some(t) => t,
            None => self,
        }
    }

    /// Set the milliseconds (0-999); unchanged unless in range and the
    /// resolution is `Second`.
    pub fn with_millis(self, x: u16) -> (r: Self)
        ensures
            x <= 999 && u32_trailing_zeros(self@) == 12 ==> r@ == millis_word(self@, x as u32),
            !(x <= 999 && u32_trailing_zeros(self@) == 12) ==> r == self,
    {
        match self.try_with_millis(x) {
            Some(t) => t,
            None => self,
        }
    }

    /// In-place version of [`Time::with_millis`].
    pub fn set_millis(&mut self, x: u16)
        ensures
            x <= 999 && u32_trailing_zeros(old(self)@) == 12 ==> final(self)@ == millis_word(
                old(self)@,
                x as u32,
            ),
            !(x <= 999 && u32_trailing_zeros(old(self)@) == 12) ==> *final(self) == *old(self),
    {
        *self = self.with_millis(x);
    }

    /// In-place version of [`Time::with_second`].
    pub fn set_second(&mut self, x: u8)
        ensures
            x <= 59 && u32_trailing_zeros(old(self)@) == 19 ==> final(self)@ == second_word(
                old(self)@,
                x as u32,
            ),
            !(x <= 59 && u32_trailing_zeros(old(self)@) == 19) ==> *final(self) == *old(self),
    {
        *self = self.with_second(x);
    }

    /// In-place version of [`Time::with_minute`].
    pub fn set_minute(&mut self, x: u8)
        ensures
            x <= 59 && u32_trailing_zeros(old(self)@) == 26 ==> final(self)@ == minute_word(
                old(self)@,
                x as u32,
            ),
            !(x <= 59 && u32_trailing_zeros(old(self)@) == 26) ==> *final(self) == *old(self),
    {
        *self = self.with_minute(x);
    }

    /// In-place version of [`Time::with_hour`].
    pub fn set_hour(&mut self, x: u8)
        ensures
            x <= 23 && u32_trailing_zeros(old(self)@) == 31 ==> final(self)@ == hour_word(
                x as u32,
            ),
            !(x <= 23 && u32_trailing_zeros(old(self)@) == 31) ==> *final(self) == *old(self),
    {
        *self = self.with_hour(x);
    }

    /// In-place version of [`Time::with_time_of_day`].
    pub fn set_time_of_day(&mut self, x: SixHour)
        ensures
            u32_trailing_zeros(old(self)@) == 31 ==> final(self)@ == tod_word(
                x.ord_spec() as u32,
            ),
            u32_trailing_zeros(old(self)@) != 31 ==> *final(self) == *old(self),
    {
        *self = self.with_time_of_day(x);
    }

    /// In-place version of [`Time::with_am_pm`].
    pub fn set_am_pm(&mut self, x: AmPm)
        ensures
            u32_trailing_zeros(old(self)@) == 31 ==> final(self)@ == ampm_word(
                x.ord_spec() as u32,
            ),
            u32_trailing_zeros(old(self)@) != 31 ==> *final(self) == *old(self),
    {
        *self = self.with_am_pm(x);
    }

    /// A whole-day value with the given hour set.
    pub fn from_hour(h: u8) -> (r: Self)
        ensures
            h <= 23 ==> r@ == hour_word(h as u32),
            h > 23 ==> r@ == Time::day_word(),
    {
        Time::new().with_hour(h)
    }

    /// The first half of the day; equals `Time::new().with_am_pm(AmPm::AM)`.
    pub fn am() -> (r: Self)
        ensures
            r@ == ampm_word(0),
    {
        Time::new().with_am_pm(AmPm::AM)
    }

    /// The second half of the day; equals `Time::new().with_am_pm(AmPm::PM)`.
    pub fn pm() -> (r: Self)
        ensures
            r@ == ampm_word(1),
    {
        Time::new().with_am_pm(AmPm::PM)
    }

    /// 24:00--06:00; equals `Time::new().with_time_of_day(SixHour::Night)`.
    pub fn night() -> (r: Self)
        ensures
            r@ == tod_word(0),
    {
        Time::new().with_time_of_day(SixHour::Night)
    }

    /// 06:00--12:00; equals `Time::new().with_time_of_day(SixHour::Morning)`.
    pub fn morning() -> (r: Self)
        ensures
            r@ == tod_word(1),
    {
        Time::new().with_time_of_day(SixHour::Morning)
    }

    /// 12:00--18:00; equals `Time::new().with_time_of_day(SixHour::Afternoon)`.
    pub fn afternoon() -> (r: Self)
        ensures
            r@ == tod_word(2),
    {
        Time::new().with_time_of_day(SixHour::Afternoon)
    }

    /// 18:00--24:00; equals `Time::new().with_time_of_day(SixHour::Evening)`.
    pub fn evening() -> (r: Self)
        ensures
            r@ == tod_word(3),
    {
        Time::new().with_time_of_day(SixHour::Evening)
    }
}

impl Time {
    /// The milliseconds (0-999), or the coarsest representative when the
    /// resolution is coarser than `Millisecond`.
    pub fn millis(&self) -> (r: u16)
        ensures
            r as int == millis_of(self@),
            r <= 999,
    {
        proof {
            use_type_invariant(self);
            lemma_tz(self@);
            lemma_slot_bounds(self@);
        }
        let w = self.bits;
        let tz = w.trailing_zeros();
        let f500: u32 = if 11 >= tz {
            (w >> 12) & 1
        } else {
            0
        };
        let h100: u32 = if 8 >= tz {
            (w >> 9) & 7
        } else {
            0
        };
        let f50: u32 = if 7 >= tz {
            (w >> 8) & 1
        } else {
            0
        };
        let t10: u32 = if 4 >= tz {
            (w >> 5) & 7
        } else {
            0
        };
        let f5: u32 = if 3 >= tz {
            (w >> 4) & 1
        } else {
            0
        };
        let q: u32 = if 0 >= tz {
            (w >> 1) & 7
        } else {
            0
        };
        (f500 * 500 + h100 * 100 + f50 * 50 + t10 * 10 + f5 * 5 + q) as u16
    }

    /// The second (0-59), or the coarsest representative.
    pub fn second(&self) -> (r: u8)
        ensures
            r as int == second_of(self@),
            r <= 59,
    {
        proof {
            use_type_invariant(self);
            lemma_tz(self@);
            lemma_slot_bounds(self@);
        }
        let w = self.bits;
        let tz = w.trailing_zeros();
        let t30: u32 = if 18 >= tz {
            (w >> 19) & 1
        } else {
            0
        };
        let t15: u32 = if 17 >= tz {
            (w >> 18) & 1
        } else {
            0
        };
        let f5: u32 = if 15 >= tz {
            (w >> 16) & 3
        } else {
            0
        };
        let s: u32 = if 12 >= tz {
            (w >> 13) & 7
        } else {
            0
        };
        (t30 * 30 + t15 * 15 + f5 * 5 + s) as u8
    }

    /// The minute (0-59), or the coarsest representative.
    pub fn minute(&self) -> (r: u8)
        ensures
            r as int == minute_of(self@),
            r <= 59,
    {
        proof {
            use_type_invariant(self);
            lemma_tz(self@);
            lemma_slot_bounds(self@);
        }
        let w = self.bits;
        let tz = w.trailing_zeros();
        let t30: u32 = if 25 >= tz {
            (w >> 26) & 1
        } else {
            0
        };
        let t15: u32 = if 24 >= tz {
            (w >> 25) & 1
        } else {
            0
        };
        let f5: u32 = if 22 >= tz {
            (w >> 23) & 3
        } else {
            0
        };
        let m: u32 = if 19 >= tz {
            (w >> 20) & 7
        } else {
            0
        };
        (t30 * 30 + t15 * 15 + f5 * 5 + m) as u8
    }

    /// The hour (0-23), or the coarsest representative (an AM/PM-resolution
    /// value reads as 0 or 12).
    pub fn hour(&self) -> (r: u8)
        ensures
            r as int == hour_of(self@),
            r <= 23,
    {
        proof {
            use_type_invariant(self);
            lemma_tz(self@);
            lemma_slot_bounds(self@);
        }
        let w = self.bits;
        let tz = w.trailing_zeros();
        let a: u32 = if 30 >= tz {
            (w >> 31) & 1
        } else {
            0
        };
        let s: u32 = if 29 >= tz {
            (w >> 30) & 1
        } else {
            0
        };
        let t: u32 = if 28 >= tz {
            (w >> 29) & 1
        } else {
            0
        };
        let h: u32 = if 26 >= tz {
            (w >> 27) & 3
        } else {
            0
        };
        (a * 12 + s * 6 + t * 3 + h) as u8
    }

    /// The six-hour period, or `None` when the resolution is `Day`.
    pub fn time_of_day(&self) -> (r: Option<SixHour>)
        ensures
            r is Some <==> u32_trailing_zeros(self@) != 31,
            r matches Some(v) ==> v.ord_spec() as int == tod_of(self@),
    {
        proof {
            use_type_invariant(self);
            lemma_tz(self@);
            lemma_slot_bounds(self@);
        }
        let w = self.bits;
        let tz = w.trailing_zeros();
        if tz >= 31 {
            return None;
        }
        let a: u32 = (w >> 31) & 1;
        let s: u32 = if 29 >= tz {
            (w >> 30) & 1
        } else {
            0
        };
        match SixHour::from_ord((a * 2 + s) as u8) {
            Some(v) => Some(v),
            None => {
                proof {
                    assert(false);
                }
                None
            },
        }
    }

    /// The half of the day, or `None` when the resolution is `Day`.
    pub fn am_pm(&self) -> (r: Option<AmPm>)
        ensures
            r is Some <==> u32_trailing_zeros(self@) != 31,
            r matches Some(v) ==> v.ord_spec() as int == ampm_of(self@),
    {
        proof {
            use_type_invariant(self);
            lemma_tz(self@);
            lemma_slot_bounds(self@);
        }
        let w = self.bits;
        let tz = w.trailing_zeros();
        if tz >= 31 {
            return None;
        }
        let a: u32 = (w >> 31) & 1;
        match AmPm::from_ord(a as u8) {
            Some(v) => Some(v),
            None => {
                proof {
                    assert(false);
                }
                None
            },
        }
    }
}

/// A slot-wise restatement of whole-word shift equalities: equality of `w >> k`
/// carries every slot extraction above bit `k`.
proof fn lemma_shift_slices(w: u32, ww: u32)
    ensures
        ww >> 20 == w >> 20 ==> ((ww >> 31) & 1 == (w >> 31) & 1 && (ww >> 30) & 1 == (w >> 30) & 1
            && (ww >> 29) & 1 == (w >> 29) & 1 && (ww >> 27) & 3 == (w >> 27) & 3 && (ww >> 26) & 1
            == (w >> 26) & 1 && (ww >> 25) & 1 == (w >> 25) & 1 && (ww >> 23) & 3 == (w >> 23) & 3
            && (ww >> 20) & 7 == (w >> 20) & 7),
        ww >> 13 == w >> 13 ==> ((ww >> 19) & 1 == (w >> 19) & 1 && (ww >> 18) & 1 == (w >> 18) & 1
            && (ww >> 16) & 3 == (w >> 16) & 3 && (ww >> 13) & 7 == (w >> 13) & 7 && ww >> 20 == w
            >> 20),
{
    assert((ww >> 20 == w >> 20 ==> ((ww >> 31) & 1 == (w >> 31) & 1 && (ww >> 30) & 1 == (w >> 30)
        & 1 && (ww >> 29) & 1 == (w >> 29) & 1 && (ww >> 27) & 3 == (w >> 27) & 3 && (ww >> 26) & 1
        == (w >> 26) & 1 && (ww >> 25) & 1 == (w >> 25) & 1 && (ww >> 23) & 3 == (w >> 23) & 3 && (
    ww >> 20) & 7 == (w >> 20) & 7)) && (ww >> 13 == w >> 13 ==> ((ww >> 19) & 1 == (w >> 19) & 1
        && (ww >> 18) & 1 == (w >> 18) & 1 && (ww >> 16) & 3 == (w >> 16) & 3 && (ww >> 13) & 7 == (
    w >> 13) & 7 && ww >> 20 == w >> 20))) by (bit_vector);
}

/// Trailing-zero identity: reducing a time to a resolution no finer than its
/// own puts the marker exactly at that resolution's position, so reading the
/// resolution back returns it.
pub proof fn lemma_trailing_zero_identity(t: Time, r: Resolution)
    requires
        time_wf(t@),
        r.z_spec() >= u32_trailing_zeros(t@),
    ensures
        u32_trailing_zeros(ru(t@, r.z_spec())) == r.z_spec(),
        res_of_z(u32_trailing_zeros(ru(t@, r.z_spec()))) == r,
{
    crate::resolution::lemma_res_z(r);
    lemma_tz(t@);
    let z = r.z_spec();
    if z <= u32_trailing_zeros(t@) {
        assert(ru(t@, z) == t@);
    } else {
        lemma_reduce_props(t@, z);
    }
}

/// Two times are the same value exactly when their packed words agree.
pub proof fn lemma_time_eq(a: Time, b: Time)
    ensures
        a == b <==> a@ == b@,
{
}

/// A strictly earlier interval never coarsens onto a later word that is
/// already at the target resolution or coarser.
pub proof fn lemma_coarse_lt_ru_ne(a: u32, b: u32, z: u32)
    requires
        a != 0,
        b != 0,
        z < 32,
        coarse_lt(a, b),
        u32_trailing_zeros(b) >= z,
    ensures
        ru(a, z) != b,
{
    lemma_tz(a);
    lemma_tz(b);
    let za = u32_trailing_zeros(a);
    let zb = u32_trailing_zeros(b);
    if z <= za {
        // `ru` leaves `a` unchanged, and a strictly smaller interval is not `b`.
        if a == b {
            assert(!coarse_lt(a, b));
        }
    } else {
        lemma_reduce_props(a, z);
        if zb > z {
            // Different marker positions give different words.
            if reduce_w(a, z) == b {
                lemma_marker_tz(b, z);
            }
        } else {
            // Both at `z`: the coarse order compares the words directly.
            assert(zb == z);
            lemma_reduce_id(b, zb);
            assert(zmax(a, b) == z);
            assert(reduce_w(a, z) < b);
        }
    }
}

/// The whole-day word is well formed with its marker at bit 31.
proof fn lemma_day_word()
    ensures
        marker_at(0x8000_0000u32, 31),
        time_wf(0x8000_0000u32),
        u32_trailing_zeros(0x8000_0000u32) == 31,
{
    assert(marker_at(0x8000_0000u32, 31) && canonical(0x8000_0000u32)) by (bit_vector);
    lemma_marker_tz(0x8000_0000u32, 31);
}

} // verus!
