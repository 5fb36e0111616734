//! Plain-text rendering of the library's values: decimal numbers, resolution
//! names, and the human-readable forms of times and policies.

use vstd::prelude::*;
use vstd::std_specs::bits::u32_trailing_zeros;
use crate::policy::Policy;
use crate::resolution::Resolution;
use crate::time::{ampm_of, hour_of, millis_of, minute_of, second_of, tod_of, Time};

verus! {

/// The character of a single decimal digit.
pub open spec fn digit_char(d: int) -> char {
    if d == 0 {
        '0'
    } else if d == 1 {
        '1'
    } else if d == 2 {
        '2'
    } else if d == 3 {
        '3'
    } else if d == 4 {
        '4'
    } else if d == 5 {
        '5'
    } else if d == 6 {
        '6'
    } else if d == 7 {
        '7'
    } else if d == 8 {
        '8'
    } else {
        '9'
    }
}

/// The decimal digits of `n`, most significant first, no leading zeros.
pub open spec fn dec_spec(n: int) -> Seq<char>
    decreases n,
{
    if n < 10 {
        seq![digit_char(n)]
    } else {
        dec_spec(n / 10).push(digit_char(n % 10))
    }
}

/// A run of `k` zero characters.
pub open spec fn zeros_spec(k: int) -> Seq<char>
    decreases k,
{
    if k <= 0 {
        Seq::empty()
    } else {
        seq!['0'] + zeros_spec(k - 1)
    }
}

/// `n` in decimal, zero-padded on the left to at least `w` characters.
pub open spec fn dec_pad_spec(n: int, w: int) -> Seq<char> {
    zeros_spec(w - dec_spec(n).len()) + dec_spec(n)
}

/// A one-character string for each decimal digit.
fn digit_str(d: u32) -> (r: &'static str)
    requires
        d <= 9,
    ensures
        r@ == seq![digit_char(d as int)],
{
    proof {
        reveal_strlit("0");
        reveal_strlit("1");
        reveal_strlit("2");
        reveal_strlit("3");
        reveal_strlit("4");
        reveal_strlit("5");
        reveal_strlit("6");
        reveal_strlit("7");
        reveal_strlit("8");
        reveal_strlit("9");
    }
    let r = match d {
        0 => "0",
        1 => "1",
        2 => "2",
        3 => "3",
        4 => "4",
        5 => "5",
        6 => "6",
        7 => "7",
        8 => "8",
        _ => "9",
    };
    proof {
        assert(r@ =~= seq![digit_char(d as int)]);
    }
    r
}

/// The digits of a digit stack read top-down: the characters of the digits
/// taken from the last pushed to the first.
spec fn digits_rev(ds: Seq<u32>) -> Seq<char>
    decreases ds.len(),
{
    if ds.len() == 0 {
        Seq::empty()
    } else {
        seq![digit_char(ds.last() as int)] + digits_rev(ds.drop_last())
    }
}

/// Index form of `digits_rev`.
proof fn lemma_digits_rev_index(ds: Seq<u32>)
    ensures
        digits_rev(ds).len() == ds.len(),
        forall|i: int|
            0 <= i < ds.len() ==> digits_rev(ds)[i] == digit_char(ds[ds.len() - 1 - i] as int),
    decreases ds.len(),
{
    if ds.len() > 0 {
        lemma_digits_rev_index(ds.drop_last());
        assert forall|i: int| 0 <= i < ds.len() implies digits_rev(ds)[i] == digit_char(
            ds[ds.len() - 1 - i] as int,
        ) by {
            if i > 0 {
                assert(digits_rev(ds)[i] == digits_rev(ds.drop_last())[i - 1]);
                assert(ds.drop_last()[ds.len() - 1 - i] == ds[ds.len() - 1 - i]);
            }
        }
    }
}

/// `n` in decimal, no padding.
pub fn dec_string(x: u32) -> (r: String)
    ensures
        r@ == dec_spec(x as int),
{
    let mut ds: Vec<u32> = Vec::new();
    ds.push(x % 10);
    let mut n = x / 10;
    proof {
        assert(ds@.len() == 1);
        assert(ds@.last() == x % 10);
        assert(ds@.drop_last().len() == 0);
        assert(digits_rev(ds@.drop_last()) =~= Seq::<char>::empty());
        assert(digits_rev(ds@) == seq![digit_char(ds@.last() as int)] + digits_rev(
            ds@.drop_last(),
        ));
        assert(digits_rev(ds@) =~= seq![digit_char((x % 10) as int)]);
        if x >= 10 {
            assert(dec_spec(x as int) == dec_spec(x as int / 10).push(digit_char(x as int % 10)));
            assert(dec_spec(x as int) =~= dec_spec(n as int) + digits_rev(ds@));
        } else {
            assert(dec_spec(x as int) =~= digits_rev(ds@));
        }
    }
    while n > 0
        invariant
            dec_spec(x as int) == (if n > 0 {
                dec_spec(n as int) + digits_rev(ds@)
            } else {
                digits_rev(ds@)
            }),
            ds@.len() >= 1,
            forall|i: int| 0 <= i < ds@.len() ==> (#[trigger] ds@[i]) <= 9,
        decreases n,
    {
        proof {
            let ds2 = ds@.push(n % 10);
            assert(ds2.drop_last() =~= ds@);
            assert(digits_rev(ds2) == seq![digit_char((n % 10) as int)] + digits_rev(ds@));
            if n >= 10 {
                assert(dec_spec(n as int) == dec_spec(n as int / 10).push(
                    digit_char(n as int % 10),
                ));
                assert(dec_spec(n as int / 10).push(digit_char(n as int % 10)) + digits_rev(ds@)
                    =~= dec_spec(n as int / 10) + (seq![digit_char((n % 10) as int)] + digits_rev(
                    ds@,
                )));
            } else {
                assert(dec_spec(n as int) == seq![digit_char(n as int)]);
                assert(dec_spec(n as int) + digits_rev(ds@) =~= seq![
                    digit_char((n % 10) as int),
                ] + digits_rev(ds@));
            }
        }
        ds.push(n % 10);
        n = n / 10;
    }
    proof {
        lemma_digits_rev_index(ds@);
    }
    let mut out = String::new();
    let mut k: usize = ds.len();
    while k > 0
        invariant
            k <= ds@.len(),
            forall|i: int| 0 <= i < ds@.len() ==> (#[trigger] ds@[i]) <= 9,
            out@.len() == ds@.len() - k,
            forall|i: int|
                0 <= i < out@.len() ==> (#[trigger] out@[i]) == digit_char(
                    ds@[ds@.len() - 1 - i] as int,
                ),
        decreases k,
    {
        out.append(digit_str(ds[k - 1]));
        k = k - 1;
    }
    proof {
        lemma_digits_rev_index(ds@);
        assert(out@ =~= digits_rev(ds@));
    }
    out
}

/// `n` in decimal, zero-padded on the left to at least `width` characters
/// (the component widths the displays use).
fn dec_pad(x: u32, width: usize) -> (r: String)
    requires
        x < 1000,
        width <= 3,
    ensures
        r@ == dec_pad_spec(x as int, width as int),
{
    let mut out = String::new();
    if width >= 3 && x < 100 {
        out.append("0");
    }
    if width >= 2 && x < 10 {
        out.append("0");
    }
    let t = dec_string(x);
    out.append(t.as_str());
    proof {
        reveal_strlit("0");
        if x < 10 {
            assert(dec_spec(x as int).len() == 1);
        } else if x < 100 {
            assert(dec_spec(x as int) == dec_spec(x as int / 10).push(digit_char(x as int % 10)));
            assert(dec_spec(x as int).len() == 2);
        } else {
            assert(dec_spec(x as int) == dec_spec(x as int / 10).push(digit_char(x as int % 10)));
            assert(dec_spec(x as int / 10) == dec_spec(x as int / 100).push(
                digit_char((x as int / 10) % 10),
            ));
            assert(dec_spec(x as int).len() == 3);
        }
        assert(zeros_spec(0) =~= Seq::<char>::empty());
        assert(zeros_spec(1) == seq!['0'] + zeros_spec(0));
        assert(zeros_spec(1) =~= seq!['0']);
        assert(zeros_spec(2) == seq!['0'] + zeros_spec(1));
        assert(zeros_spec(2) =~= seq!['0', '0']);
        assert(out@ =~= dec_pad_spec(x as int, width as int));
    }
    out
}

impl Resolution {
    /// The resolution's short conventional name.
    pub open spec fn name_spec(self) -> Seq<char> {
        match self {
            Resolution::Day => "day"@,
            Resolution::AmPm => "AM/PM"@,
            Resolution::SixHour => "6h"@,
            Resolution::ThreeHour => "3h"@,
            Resolution::Hour => "hour"@,
            Resolution::ThirtyMinute => "30m"@,
            Resolution::FifteenMinute => "15m"@,
            Resolution::FiveMinute => "5m"@,
            Resolution::Minute => "minute"@,
            Resolution::ThirtySecond => "30s"@,
            Resolution::FifteenSecond => "15s"@,
            Resolution::FiveSecond => "5s"@,
            Resolution::Second => "second"@,
            Resolution::FiveHundredMilli => "500ms"@,
            Resolution::HundredMilli => "100ms"@,
            Resolution::FiftyMilli => "50ms"@,
            Resolution::TenMilli => "10ms"@,
            Resolution::FiveMilli => "5ms"@,
            Resolution::Millisecond => "1ms"@,
        }
    }

    /// The resolution's short conventional name.
    pub fn name(self) -> (r: &'static str)
        ensures
            r@ == self.name_spec(),
    {
        match self {
            Resolution::Day => "day",
            Resolution::AmPm => "AM/PM",
            Resolution::SixHour => "6h",
            Resolution::ThreeHour => "3h",
            Resolution::Hour => "hour",
            Resolution::ThirtyMinute => "30m",
            Resolution::FifteenMinute => "15m",
            Resolution::FiveMinute => "5m",
            Resolution::Minute => "minute",
            Resolution::ThirtySecond => "30s",
            Resolution::FifteenSecond => "15s",
            Resolution::FiveSecond => "5s",
            Resolution::Second => "second",
            Resolution::FiveHundredMilli => "500ms",
            Resolution::HundredMilli => "100ms",
            Resolution::FiftyMilli => "50ms",
            Resolution::TenMilli => "10ms",
            Resolution::FiveMilli => "5ms",
            Resolution::Millisecond => "1ms",
        }
    }
}

/// The human-readable form of a packed time word: the covered interval at its
/// own resolution, from "whole day" down to "hh:mm:ss.mmm".
pub open spec fn time_display(w: u32) -> Seq<char> {
    let tz = u32_trailing_zeros(w);
    if tz >= 31 {
        "whole day"@
    } else if tz == 30 {
        if ampm_of(w) == 1 {
            "PM"@
        } else {
            "AM"@
        }
    } else if tz == 29 {
        if tod_of(w) == 0 {
            "night"@
        } else if tod_of(w) == 1 {
            "morning"@
        } else if tod_of(w) == 2 {
            "afternoon"@
        } else {
            "evening"@
        }
    } else {
        dec_pad_spec(hour_of(w), 2) + ":"@ + dec_pad_spec(minute_of(w), 2) + (if tz < 19 {
            ":"@ + dec_pad_spec(second_of(w), 2)
        } else {
            Seq::empty()
        }) + (if tz == 8 || tz == 11 {
            "."@ + dec_pad_spec(millis_of(w) / 100, 1)
        } else if tz == 4 || tz == 7 {
            "."@ + dec_pad_spec(millis_of(w) / 10, 2)
        } else if tz < 4 {
            "."@ + dec_pad_spec(millis_of(w), 3)
        } else {
            Seq::empty()
        })
    }
}

impl Time {
    /// Render the interval: "whole day", "AM"/"PM", the six-hour period's
    /// name, or "hh:mm", extended with seconds and a fraction as the
    /// resolution gets finer.
    pub fn to_string(&self) -> (r: String)
        ensures
            r@ == time_display(self@),
    {
        let res = self.resolution();
        let tz = res.trailing_zeros() as u32;
        proof {
            crate::time::lemma_tz(self@);
        }
        if tz >= 31 {
            return "whole day".to_owned();
        }
        if tz == 30 {
            let r = match self.am_pm() {
                Option::Some(crate::types::AmPm::PM) => "PM",
                Option::Some(crate::types::AmPm::AM) => "AM",
                Option::None => {
                    proof {
                        assert(false);
                    }
                    "AM"
                },
            };
            return r.to_owned();
        }
        if tz == 29 {
            let r = match self.time_of_day() {
                Option::Some(v) => v.name(),
                Option::None => {
                    proof {
                        assert(false);
                    }
                    "night"
                },
            };
            return r.to_owned();
        }
        let mut out = dec_pad(self.hour() as u32, 2);
        out.append(":");
        let mm = dec_pad(self.minute() as u32, 2);
        out.append(mm.as_str());
        if tz < 19 {
            out.append(":");
            let ss = dec_pad(self.second() as u32, 2);
            out.append(ss.as_str());
        }
        if tz == 8 || tz == 11 {
            out.append(".");
            let f = dec_pad(self.millis() as u32 / 100, 1);
            out.append(f.as_str());
        } else if tz == 4 || tz == 7 {
            out.append(".");
            let f = dec_pad(self.millis() as u32 / 10, 2);
            out.append(f.as_str());
        } else if tz < 4 {
            out.append(".");
            let f = dec_pad(self.millis() as u32, 3);
            out.append(f.as_str());
        }
        proof {
            assert(out@ =~= time_display(self@));
        }
        out
    }
}

/// One compaction step of the policy's plain rendering.
pub open spec fn rule_disp(rule: (u16, Resolution)) -> Seq<char> {
    " →  ("@ + dec_spec(rule.0 as int) + "d) "@ + rule.1.name_spec()
}

/// The plain renderings of the rules from index `k` up, newest first.
pub open spec fn rules_disp(rules: Seq<(u16, Resolution)>, k: int) -> Seq<char>
    decreases rules.len() - k,
{
    if k < 0 || k >= rules.len() {
        Seq::empty()
    } else {
        rules_disp(rules, k + 1) + rule_disp(rules[k])
    }
}

/// One compaction step of the policy's verbose rendering.
pub open spec fn rule_verbose(rule: (u16, Resolution)) -> Seq<char> {
    "After "@ + dec_spec(rule.0 as int) + " days: reduce to "@ + rule.1.name_spec()
        + "-resolution\n"@
}

/// The verbose renderings of the rules from index `k` up, newest first.
pub open spec fn rules_verbose(rules: Seq<(u16, Resolution)>, k: int) -> Seq<char>
    decreases rules.len() - k,
{
    if k < 0 || k >= rules.len() {
        Seq::empty()
    } else {
        rules_verbose(rules, k + 1) + rule_verbose(rules[k])
    }
}

/// The policy's one-line rendering: the stored resolution, each reduction step
/// from newest to oldest, and the discard threshold.
pub open spec fn policy_display(p: Policy) -> Seq<char> {
    p.spec_max_res().name_spec() + rules_disp(p.rules(), 0) + " →  ("@ + dec_spec(
        p.spec_max_retention() as int,
    ) + "d) delete"@
}

/// The policy's multi-line rendering.
pub open spec fn policy_verbose(p: Policy) -> Seq<char> {
    "Initial: "@ + p.spec_max_res().name_spec() + "-resolution\n"@ + rules_verbose(p.rules(), 0)
        + "After "@ + dec_spec(p.spec_max_retention() as int) + " days: delete"@
}

impl Policy {
    /// The one-line rendering: resolution, reduction steps, discard threshold.
    pub fn to_string(&self) -> (r: String)
        ensures
            r@ == policy_display(*self),
    {
        let mut out = self.max_res().name().to_owned();
        let n = self.rule_count();
        let mut idx: usize = 0;
        while idx < n
            invariant
                idx <= n,
                n == self.rules().len(),
                out@ == self.spec_max_res().name_spec() + rules_disp(
                    self.rules(),
                    n - idx as int,
                ),
            decreases n - idx,
        {
            let k = n - 1 - idx;
            let rule = self.rule_at(k);
            out.append(" →  (");
            let d = dec_string(rule.0 as u32);
            out.append(d.as_str());
            out.append("d) ");
            out.append(rule.1.name());
            proof {
                assert(rules_disp(self.rules(), k as int) == rules_disp(self.rules(), k + 1 as int)
                    + rule_disp(self.rules()[k as int]));
                assert(out@ =~= self.spec_max_res().name_spec() + rules_disp(
                    self.rules(),
                    k as int,
                ));
            }
            idx = idx + 1;
        }
        out.append(" →  (");
        let d = dec_string(self.max_retention() as u32);
        out.append(d.as_str());
        out.append("d) delete");
        proof {
            assert(out@ =~= policy_display(*self));
        }
        out
    }

    /// The multi-line rendering, one reduction step per line.
    pub fn describe(&self) -> (r: String)
        ensures
            r@ == policy_verbose(*self),
    {
        let mut out = "Initial: ".to_owned();
        out.append(self.max_res().name());
        out.append("-resolution\n");
        let n = self.rule_count();
        let mut idx: usize = 0;
        while idx < n
            invariant
                idx <= n,
                n == self.rules().len(),
                out@ == "Initial: "@ + self.spec_max_res().name_spec() + "-resolution\n"@
                    + rules_verbose(self.rules(), n - idx as int),
            decreases n - idx,
        {
            let k = n - 1 - idx;
            let rule = self.rule_at(k);
            out.append("After ");
            let d = dec_string(rule.0 as u32);
            out.append(d.as_str());
            out.append(" days: reduce to ");
            out.append(rule.1.name());
            out.append("-resolution\n");
            proof {
                assert(rules_verbose(self.rules(), k as int) == rules_verbose(
                    self.rules(),
                    k + 1 as int,
                ) + rule_verbose(self.rules()[k as int]));
                assert(out@ =~= "Initial: "@ + self.spec_max_res().name_spec() + "-resolution\n"@
                    + rules_verbose(self.rules(), k as int));
            }
            idx = idx + 1;
        }
        out.append("After ");
        let d = dec_string(self.max_retention() as u32);
        out.append(d.as_str());
        out.append(" days: delete");
        proof {
            assert(out@ =~= policy_verbose(*self));
        }
        out
    }
}

} // verus!
