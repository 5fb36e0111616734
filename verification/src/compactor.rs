//! The user-facing store: accepts ordered pushes, clamps them to the policy's
//! finest resolution, folds same-bucket samples together, and applies the
//! policy whenever the date advances.

use vstd::prelude::*;
use vstd::std_specs::bits::u32_trailing_zeros;
use crate::aggregate::Aggregate;
use crate::data::{
    apply_rel, entries_wf, entry_lt, lemma_dates_mono, policy_applied, weakened_entry,
    CompactedData, Entry,
};
use crate::date::{date_le, date_lt, Date};
use crate::policy::{build_result, Policy, PolicyBuilder, PolicyError};
use crate::resolution::Resolution;
use crate::time::{lemma_same_res_cmp, lemma_time_eq, ru, time_wf, Time};

verus! {

/// Stores data at gradually diminishing resolution.
pub struct Compactor<T> {
    policy: Policy,
    data: CompactedData<T>,
    asof: Ghost<Date>,
}

/// The only failure a push reports: the sample is older than the newest entry.
#[derive(Clone, Copy, PartialEq, Eq, Structural, Debug)]
pub enum PushError {
    NonMonotonic,
}

/// What `update_date` does to the buffer: nothing unless the date advances
/// past the newest entry, in which case the policy is applied as of that date.
pub open spec fn update_rel<T: Aggregate>(
    pre: Seq<Entry<T>>,
    post: Seq<Entry<T>>,
    policy: Policy,
    date: Date,
) -> bool {
    if pre.len() > 0 && date_lt(pre.last().0, date) {
        apply_rel(pre, post, policy, date)
    } else {
        post == pre
    }
}

impl<T> Compactor<T> {
    /// The stored entries, oldest first.
    pub closed spec fn entries(self) -> Seq<Entry<T>> {
        self.data@
    }

    /// The validated policy the store was built with.
    pub closed spec fn spec_policy(self) -> Policy {
        self.policy
    }

    /// The date as of which the policy was last applied: the date of the most
    /// recent push or date advance that triggered it.
    pub closed spec fn asof(self) -> Date {
        self.asof@
    }

    /// The store's invariant: a well-formed policy, a well-formed ordered
    /// buffer, and, once data is present, the retention and post-compaction
    /// invariants as of the reference date.
    pub open spec fn inv(self) -> bool {
        &&& self.spec_policy().wf()
        &&& entries_wf(self.entries())
        &&& self.entries().len() > 0 ==> {
            &&& self.asof().is_valid()
            &&& date_le(self.entries().last().0, self.asof())
            &&& policy_applied(self.entries(), self.spec_policy(), self.asof())
        }
    }

    /// The packed word a pushed time is stored as: the time clamped to the
    /// policy's finest resolution.
    pub open spec fn clamped(self, time: Time) -> u32 {
        ru(time@, self.spec_policy().spec_max_res().z_spec())
    }

    /// A same-day push must carry a time at the same resolution as the newest
    /// entry (after clamping): pushing a coarser or finer interval between two
    /// samples of one day has no meaningful order.
    pub open spec fn can_push(self, date: Date, time: Time) -> bool {
        self.entries().len() > 0 && self.entries().last().0 == date ==> u32_trailing_zeros(
            self.clamped(time),
        ) == u32_trailing_zeros(self.entries().last().1@)
    }

    /// Start building a compactor by collecting its retention rules.
    pub fn new() -> (r: CompactorBuilder<T>)
        ensures
            r@ == Seq::<(u16, Resolution)>::empty(),
    {
        CompactorBuilder { policy: Policy::new(), _marker: core::marker::PhantomData }
    }

    /// The policy the store was built with.
    pub fn policy(&self) -> (r: &Policy)
        ensures
            *r == self.spec_policy(),
    {
        &self.policy
    }

    /// Whether no entries are stored.
    pub fn is_empty(&self) -> (r: bool)
        ensures
            r == (self.entries().len() == 0),
    {
        self.data.len() == 0
    }

    /// Number of stored entries.
    pub fn len(&self) -> (r: usize)
        ensures
            r == self.entries().len(),
    {
        self.data.len()
    }

    /// The stored entries, oldest to newest, by reference.
    pub fn iter(&self) -> (r: Vec<(Date, Time, &T)>)
        ensures
            r@.len() == self.entries().len(),
            forall|i: int|
                0 <= i < r@.len() ==> (#[trigger] r@[i]).0 == self.entries()[i].0 && r@[i].1
                    == self.entries()[i].1 && *(r@[i].2) == self.entries()[i].2,
            self.inv() ==> forall|i: int|
                0 <= i < r@.len() - 1 ==> date_lt((#[trigger] r@[i]).0, r@[i + 1].0) || (r@[i].0
                    == r@[i + 1].0 && crate::time::coarse_lt(r@[i].1@, r@[i + 1].1@)),
    {
        let n = self.data.len();
        let mut out: Vec<(Date, Time, &T)> = Vec::new();
        let mut i: usize = 0;
        while i < n
            invariant
                i <= n,
                n == self.entries().len(),
                out@.len() == i,
                forall|j: int|
                    0 <= j < i ==> (#[trigger] out@[j]).0 == self.entries()[j].0 && out@[j].1
                        == self.entries()[j].1 && *(out@[j].2) == self.entries()[j].2,
            decreases n - i,
        {
            let e = self.data.index(i);
            out.push((e.0, e.1, &e.2));
            i = i + 1;
        }
        proof {
            if self.inv() {
                assert forall|i: int| 0 <= i < out@.len() - 1 implies date_lt(
                    (#[trigger] out@[i]).0,
                    out@[i + 1].0,
                ) || (out@[i].0 == out@[i + 1].0 && crate::time::coarse_lt(
                    out@[i].1@,
                    out@[i + 1].1@,
                )) by {
                    assert(entry_lt(self.entries()[i], self.entries()[i + 1]));
                }
            }
        }
        out
    }
}

impl<T: Aggregate> Compactor<T> {
    /// Append a sample. The time is clamped to the policy's finest resolution;
    /// a sample falling into the newest entry's bucket is merged into it; a
    /// sample on a later date triggers the policy; a sample before the newest
    /// entry is rejected and the store is left unchanged.
    pub fn push(&mut self, date: Date, time: Time, x: T) -> (r: Result<(), PushError>)
        requires
            date.is_valid(),
            old(self).inv(),
            old(self).can_push(date, time),
        ensures
            final(self).inv(),
            final(self).spec_policy() == old(self).spec_policy(),
            ({
                let s = old(self).entries();
                let s2 = final(self).entries();
                let cw = old(self).clamped(time);
                if s.len() == 0 {
                    &&& r is Ok
                    &&& s2.len() == 1
                    &&& s2[0].0 == date
                    &&& s2[0].1@ == cw
                    &&& s2[0].2 == x
                } else if date_lt(date, s.last().0) {
                    &&& r == Result::<(), PushError>::Err(PushError::NonMonotonic)
                    &&& s2 == s
                } else if s.last().0 == date {
                    if cw == s.last().1@ {
                        &&& r is Ok
                        &&& s2 == s.update(s.len() - 1, s2.last())
                        &&& s2.last().0 == s.last().0
                        &&& s2.last().1 == s.last().1
                        &&& T::merge_rel(s.last().2, x, s2.last().2)
                    } else if s.last().1@ < cw {
                        &&& r is Ok
                        &&& s2 == s.push(s2.last())
                        &&& s2.last().0 == date
                        &&& s2.last().1@ == cw
                        &&& s2.last().2 == x
                    } else {
                        &&& r == Result::<(), PushError>::Err(PushError::NonMonotonic)
                        &&& s2 == s
                    }
                } else {
                    &&& r is Ok
                    &&& exists|e: Entry<T>|
                        #![trigger s.push(e)]
                        {
                            &&& e.0 == date
                            &&& e.1@ == cw
                            &&& e.2 == x
                            &&& apply_rel(s.push(e), s2, old(self).spec_policy(), date)
                        }
                }
            }),
    {
        let ghost s = self.entries();
        let mut time = time;
        time.reduce_to(self.policy.max_res());
        proof {
            crate::resolution::lemma_res_z(self.policy.spec_max_res());
        }
        let n = self.data.len();
        if n == 0 {
            // The very first sample: append it, then apply the policy once so
            // the retention invariant is established for its date.
            let ghost enew = (date, time, x);
            self.data.push_entry((date, time, x));
            proof {
                assert(entries_wf(self.data@));
            }
            self.data.apply_policy(&self.policy, date);
            proof {
                self.asof@ = date;
                let mid = s.push(enew);
                assert(policy_applied(mid, self.policy, date)) by {
                    assert(mid.len() == 1);
                    assert(mid[0] == enew);
                    assert(date_lt(
                        crate::calendar::sub_days(date, self.policy.spec_max_retention()),
                        date,
                    ));
                }
                assert(self.data@ == mid);
            }
            return Result::Ok(());
        }
        let last_ref = self.data.index(n - 1);
        let last_date = last_ref.0;
        let last_time = last_ref.1;
        proof {
            assert(s.last() == s[n - 1]);
        }
        if date < last_date {
            return Result::Err(PushError::NonMonotonic);
        }
        if last_date == date {
            match last_time.partial_cmp(&time) {
                Option::None => {
                    // Excluded by `can_push`: the clamped time shares the
                    // newest entry's resolution.
                    proof {
                        assert(false);
                    }
                    Result::Err(PushError::NonMonotonic)
                },
                Option::Some(core::cmp::Ordering::Less) => {
                    let ghost enew = (date, time, x);
                    proof {
                        lemma_same_res_cmp(last_time@, time@);
                        lemma_push_applied(s, self.policy, self.asof@, enew);
                    }
                    self.data.push_entry((date, time, x));
                    proof {
                        assert(final(self).entries() == s.push((date, time, x)));
                        assert(entries_wf(self.data@)) by {
                            assert forall|i: int|
                                0 <= i < self.data@.len() - 1 implies entry_lt(
                                #[trigger] self.data@[i],
                                self.data@[i + 1],
                            ) by {
                                if i < s.len() - 1 {
                                    assert(self.data@[i] == s[i] && self.data@[i + 1] == s[i + 1]);
                                    assert(entry_lt(s[i], s[i + 1]));
                                } else {
                                    assert(self.data@[i] == s.last());
                                }
                            }
                        }
                    }
                    Result::Ok(())
                },
                Option::Some(core::cmp::Ordering::Equal) => {
                    proof {
                        lemma_same_res_cmp(last_time@, time@);
                        lemma_time_eq(last_time, time);
                    }
                    self.data.merge_last(x);
                    proof {
                        let s2 = self.data@;
                        assert(s2 == s.update(s.len() - 1, s2.last()));
                        assert(entries_wf(s2)) by {
                            assert forall|i: int|
                                0 <= i < s2.len() - 1 implies entry_lt(
                                #[trigger] s2[i],
                                s2[i + 1],
                            ) by {
                                assert(entry_lt(s[i], s[i + 1]));
                                if i < s2.len() - 2 {
                                    assert(s2[i] == s[i] && s2[i + 1] == s[i + 1]);
                                }
                            }
                            assert forall|i: int|
                                0 <= i < s2.len() implies (#[trigger] s2[i]).0.is_valid()
                                && time_wf(s2[i].1@) by {
                                assert(s[i].0.is_valid() && time_wf(s[i].1@));
                                if i < s2.len() - 1 {
                                    assert(s2[i] == s[i]);
                                }
                            }
                        }
                        assert(policy_applied(s2, self.policy, self.asof@)) by {
                            lemma_applied_same_keys(s, s2, self.policy, self.asof@);
                        }
                    }
                    Result::Ok(())
                },
                Option::Some(core::cmp::Ordering::Greater) => {
                    proof {
                        lemma_same_res_cmp(last_time@, time@);
                    }
                    Result::Err(PushError::NonMonotonic)
                },
            }
        } else {
            // A new day: append, then bring the whole buffer up to the policy.
            let ghost enew = (date, time, x);
            proof {
                assert(date_lt(last_date, date));
            }
            self.data.push_entry((date, time, x));
            proof {
                let mid = self.data@;
                assert(mid == s.push((date, time, x)));
                assert(entries_wf(mid)) by {
                    assert forall|i: int|
                        0 <= i < mid.len() - 1 implies entry_lt(
                        #[trigger] mid[i],
                        mid[i + 1],
                    ) by {
                        if i < s.len() - 1 {
                            assert(mid[i] == s[i] && mid[i + 1] == s[i + 1]);
                            assert(entry_lt(s[i], s[i + 1]));
                        } else {
                            assert(mid[i] == s.last());
                        }
                    }
                }
            }
            self.data.apply_policy(&self.policy, date);
            proof {
                self.asof@ = date;
                assert(apply_rel(s.push(enew), self.data@, self.policy, date));
                assert(self.data@.len() > 0 && self.data@.last() == enew);
            }
            Result::Ok(())
        }
    }

    /// Advance the store's notion of the current date without pushing a
    /// sample, forcing compaction and eviction. Does nothing unless `date` is
    /// later than the newest entry's date.
    pub fn update_date(&mut self, date: Date)
        requires
            date.is_valid(),
            old(self).inv(),
        ensures
            final(self).inv(),
            final(self).spec_policy() == old(self).spec_policy(),
            update_rel(old(self).entries(), final(self).entries(), old(self).spec_policy(), date),
    {
        let ghost s = self.entries();
        let n = self.data.len();
        if n == 0 {
            return ;
        }
        let last_date = self.data.index(n - 1).0;
        proof {
            assert(s.last() == s[n - 1]);
        }
        if last_date < date {
            self.data.apply_policy(&self.policy, date);
            proof {
                self.asof@ = date;
                let s2 = self.data@;
                if s2.len() > 0 {
                    assert(date_le(s2.last().0, date)) by {
                        assert(weakened_entry(s, s2.last()));
                        let j = choose|j: int|
                            0 <= j < s.len() && s2.last().0 == (#[trigger] s[j]).0
                                && u32_trailing_zeros(s2.last().1@) >= u32_trailing_zeros(
                                s[j].1@,
                            );
                        lemma_dates_mono(s, j, s.len() - 1);
                    }
                }
            }
        }
    }
}

/// The key sequence a coarsening pass produces: every time reduced to marker
/// position `z`, with runs of equal (date, word) keys collapsed to one.
pub open spec fn reduced_keys<T>(s: Seq<Entry<T>>, z: u32) -> Seq<(Date, u32)>
    decreases s.len(),
{
    if s.len() == 0 {
        Seq::empty()
    } else {
        let rest = reduced_keys(s.drop_last(), z);
        let k = (s.last().0, ru(s.last().1@, z));
        if rest.len() > 0 && rest.last() == k {
            rest
        } else {
            rest.push(k)
        }
    }
}

impl<T: Aggregate + Clone> Compactor<T> {
    /// The stored entries re-coarsened on the fly to at most resolution `res`,
    /// oldest to newest: entries that fall into the same bucket after
    /// coarsening are merged into one, on clones of the payloads. The output
    /// stands in the coarsen-and-merge fold relation to the entries with each
    /// payload replaced by its clone (nothing more is known of a generic
    /// clone).
    pub fn iter_with_max_resolution(&self, res: Resolution) -> (r: Vec<(Date, Time, T)>)
        ensures
            r@.len() == reduced_keys(self.entries(), res.z_spec()).len(),
            forall|i: int|
                0 <= i < r@.len() ==> ((#[trigger] r@[i]).0, r@[i].1@) == reduced_keys(
                    self.entries(),
                    res.z_spec(),
                )[i],
            exists|cl: Seq<T>|
                {
                    &&& #[trigger] cl.len() == self.entries().len()
                    &&& (forall|i: int|
                        0 <= i < cl.len() ==> vstd::pervasive::cloned::<T>(
                            (#[trigger] self.entries()[i]).2,
                            cl[i],
                        ))
                    &&& crate::data::merge_fold_rel(
                        Seq::new(
                            self.entries().len(),
                            |j: int| (self.entries()[j].0, self.entries()[j].1, cl[j]),
                        ),
                        Seq::new(
                            self.entries().len(),
                            |j: int| ru(self.entries()[j].1@, res.z_spec()),
                        ),
                        r@,
                    )
                },
    {
        let ghost s = self.entries();
        let ghost z = res.z_spec();
        let n = self.data.len();
        let mut out: Vec<(Date, Time, T)> = Vec::new();
        let ghost mut clg: Seq<T> = Seq::empty();
        proof {
            assert(Seq::new(0, |j: int| (s[j].0, s[j].1, clg[j])).len() == 0);
            assert(crate::data::merge_fold_rel(
                Seq::new(0, |j: int| (s[j].0, s[j].1, clg[j])),
                Seq::new(0, |j: int| ru(s[j].1@, z)),
                out@,
            ));
        }
        let mut i: usize = 0;
        while i < n
            invariant
                i <= n,
                n == s.len(),
                s == self.entries(),
                z == res.z_spec(),
                out@.len() == reduced_keys(s.subrange(0, i as int), z).len(),
                forall|j: int|
                    0 <= j < out@.len() ==> ((#[trigger] out@[j]).0, out@[j].1@) == reduced_keys(
                        s.subrange(0, i as int),
                        z,
                    )[j],
                clg.len() == i,
                forall|j: int|
                    0 <= j < i ==> vstd::pervasive::cloned::<T>((#[trigger] s[j]).2, clg[j]),
                crate::data::merge_fold_rel(
                    Seq::new(i as nat, |j: int| (s[j].0, s[j].1, clg[j])),
                    Seq::new(i as nat, |j: int| ru(s[j].1@, z)),
                    out@,
                ),
            decreases n - i,
        {
            let ghost rk = reduced_keys(s.subrange(0, i as int), z);
            let ghost clg0 = clg;
            let ghost pre0 = Seq::new(i as nat, |j: int| (s[j].0, s[j].1, clg0[j]));
            let ghost w0 = Seq::new(i as nat, |j: int| ru(s[j].1@, z));
            let e = self.data.index(i);
            let d = e.0;
            let mut t = e.1;
            let x = e.2.clone();
            proof {
                assert(vstd::pervasive::cloned::<T>(s[i as int].2, x));
                clg = clg0.push(x);
            }
            t.reduce_to(res);
            let ghost pre1 = Seq::new((i + 1) as nat, |j: int| (s[j].0, s[j].1, clg[j]));
            let ghost w1 = Seq::new((i + 1) as nat, |j: int| ru(s[j].1@, z));
            proof {
                assert(s.subrange(0, i + 1 as int).drop_last() =~= s.subrange(0, i as int));
                assert(s.subrange(0, i + 1 as int).last() == s[i as int]);
                assert(t@ == ru(s[i as int].1@, z));
                assert(pre1.drop_last() =~= pre0);
                assert(w1.drop_last() =~= w0);
                assert(pre1.last() == (s[i as int].0, s[i as int].1, x));
                assert(w1[i as int] == ru(s[i as int].1@, z));
                if i > 0 {
                    // the previous entry's target key is the last reduced key
                    assert(s.subrange(0, i as int).drop_last() =~= s.subrange(0, i - 1));
                    assert(s.subrange(0, i as int).last() == s[i - 1]);
                    assert(rk.last() == (s[i - 1].0, ru(s[i - 1].1@, z)));
                    assert(pre1[i - 1] == (s[i - 1].0, s[i - 1].1, clg[i - 1]));
                    assert(w1[i - 1] == ru(s[i - 1].1@, z));
                }
            }
            let m = out.len();
            let mut do_merge = false;
            if m > 0 {
                let ld = out[m - 1].0;
                let lt = out[m - 1].1;
                proof {
                    lemma_time_eq(lt, t);
                }
                if ld == d && lt == t {
                    do_merge = true;
                }
            }
            let ghost rk2 = reduced_keys(s.subrange(0, i + 1 as int), z);
            if do_merge {
                proof {
                    assert(rk.last() == (d, t@));
                    assert(rk2 == rk);
                }
                let ghost out0 = out@;
                match out.pop() {
                    Option::Some(prev) => {
                        let mut prev = prev;
                        prev.2.merge(x);
                        out.push((prev.0, prev.1, prev.2));
                        proof {
                            let o2 = out@;
                            assert forall|j: int| 0 <= j < o2.len() implies ((#[trigger] o2[j]).0,
                            o2[j].1@) == rk2[j] by {
                                if j < o2.len() - 1 {
                                    assert(o2[j] == out0[j]);
                                }
                            }
                            // the fold relation merges into the last bucket
                            assert(pre1[i - 1].0 == pre1.last().0 && w1[i - 1] == w1[
                                i as int
                            ]) by {
                                assert(rk.last() == (s[i - 1].0, ru(s[i - 1].1@, z)));
                                assert(rk.last() == (d, t@));
                            }
                            assert(o2.last().0 == out0.last().0 && o2.last().1 == out0.last().1);
                            assert(o2.last().1@ == w1[i as int]);
                            crate::data::lemma_fold_snoc_merge(
                                pre1,
                                w1,
                                out0,
                                o2,
                                out0.last().2,
                            );
                        }
                    },
                    Option::None => {
                        proof {
                            assert(false);
                        }
                    },
                }
            } else {
                let ghost out0 = out@;
                proof {
                    if m > 0 {
                        assert(rk.last() == (out@[m - 1].0, out@[m - 1].1@));
                        assert(rk.last() != (d, t@));
                    }
                    assert(rk2 == rk.push((d, t@)));
                }
                out.push((d, t, x));
                proof {
                    let o2 = out@;
                    assert(o2.drop_last() =~= out0);
                    // a fresh bucket opens: the previous target key differs
                    if i > 0 {
                        assert(!(pre1[i - 1].0 == pre1.last().0 && w1[i - 1] == w1[
                            i as int
                        ])) by {
                            if pre1[i - 1].0 == pre1.last().0 && w1[i - 1] == w1[i as int] {
                                assert(rk.last() == (s[i - 1].0, ru(s[i - 1].1@, z)));
                                assert(rk.last() == (d, t@));
                            }
                        }
                    }
                    crate::data::lemma_fold_snoc_push(pre1, w1, out0, o2);
                }
            }
            i = i + 1;
        }
        proof {
            assert(s.subrange(0, n as int) =~= s);
            assert(clg.len() == s.len());
            assert(Seq::new(n as nat, |j: int| (s[j].0, s[j].1, clg[j])) =~= Seq::new(
                self.entries().len(),
                |j: int| (self.entries()[j].0, self.entries()[j].1, clg[j]),
            ));
            assert(Seq::new(n as nat, |j: int| ru(s[j].1@, z)) =~= Seq::new(
                self.entries().len(),
                |j: int| ru(self.entries()[j].1@, res.z_spec()),
            ));
        }
        out
    }
}

/// A same-day append at the newest entry's resolution keeps the policy
/// invariants: any rule that covers the new entry's date covers the newest
/// entry too, whose resolution the new entry shares.
proof fn lemma_push_applied<T>(s: Seq<Entry<T>>, policy: Policy, asof: Date, e: Entry<T>)
    requires
        entries_wf(s),
        s.len() > 0,
        policy_applied(s, policy, asof),
        s.last().0 == e.0,
        u32_trailing_zeros(e.1@) == u32_trailing_zeros(s.last().1@),
    ensures
        policy_applied(s.push(e), policy, asof),
{
    {
        let s2 = s.push(e);
        assert(date_lt(crate::calendar::sub_days(asof, policy.spec_max_retention()), s.last().0));
        assert forall|i: int| 0 <= i < s2.len() implies date_lt(
            crate::calendar::sub_days(asof, policy.spec_max_retention()),
            (#[trigger] s2[i]).0,
        ) by {
            if i < s.len() {
                assert(s2[i] == s[i]);
            } else {
                assert(s2[i] == e);
            }
        }
        assert forall|k: int| 0 <= k < policy.rules().len() implies crate::data::compacted_to(
            s2,
            crate::calendar::sub_days(asof, (#[trigger] policy.rules()[k]).0),
            policy.rules()[k].1.z_spec(),
        ) by {
            let th = crate::calendar::sub_days(asof, policy.rules()[k].0);
            let z = policy.rules()[k].1.z_spec();
            assert(crate::data::compacted_to(s, th, z));
            assert forall|i: int| 0 <= i < s2.len() implies (date_le((#[trigger] s2[i]).0, th)
                ==> u32_trailing_zeros(s2[i].1@) >= z) by {
                if i < s.len() {
                    assert(s2[i] == s[i]);
                } else {
                    assert(s2[i] == e);
                    if date_le(e.0, th) {
                        assert(date_le(s.last().0, th));
                        assert(u32_trailing_zeros(s.last().1@) >= z);
                    }
                }
            }
        }
    }
}

/// The policy invariants depend only on the entry keys, not the payloads:
/// merging a payload into the newest entry keeps them.
proof fn lemma_applied_same_keys<T>(
    s: Seq<Entry<T>>,
    s2: Seq<Entry<T>>,
    policy: Policy,
    asof: Date,
)
    requires
        policy_applied(s, policy, asof),
        s2.len() == s.len(),
        forall|i: int|
            0 <= i < s.len() ==> (#[trigger] s2[i]).0 == s[i].0 && s2[i].1 == s[i].1,
    ensures
        policy_applied(s2, policy, asof),
{
    assert forall|i: int| 0 <= i < s2.len() implies date_lt(
        crate::calendar::sub_days(asof, policy.spec_max_retention()),
        (#[trigger] s2[i]).0,
    ) by {
        assert(date_lt(crate::calendar::sub_days(asof, policy.spec_max_retention()), s[i].0));
    }
    assert forall|k: int| 0 <= k < policy.rules().len() implies crate::data::compacted_to(
        s2,
        crate::calendar::sub_days(asof, (#[trigger] policy.rules()[k]).0),
        policy.rules()[k].1.z_spec(),
    ) by {
        let th = crate::calendar::sub_days(asof, policy.rules()[k].0);
        let z = policy.rules()[k].1.z_spec();
        assert(crate::data::compacted_to(s, th, z));
        assert forall|i: int| 0 <= i < s2.len() implies (date_le((#[trigger] s2[i]).0, th)
            ==> u32_trailing_zeros(s2[i].1@) >= z) by {
            assert(s2[i].0 == s[i].0 && s2[i].1 == s[i].1);
            if date_le(s[i].0, th) {
                assert(u32_trailing_zeros(s[i].1@) >= z);
            }
        }
    }
}

/// Applying the policy twice on the same date changes nothing the second
/// time: the second pass finds the buffer already in the applied state.
pub proof fn lemma_update_date_idempotent<T: Aggregate>(
    s0: Seq<Entry<T>>,
    s1: Seq<Entry<T>>,
    s2: Seq<Entry<T>>,
    policy: Policy,
    date: Date,
)
    requires
        entries_wf(s0),
        update_rel(s0, s1, policy, date),
        update_rel(s1, s2, policy, date),
    ensures
        s2 == s1,
{
    if s0.len() > 0 && date_lt(s0.last().0, date) {
        assert(apply_rel(s0, s1, policy, date));
        if s1.len() > 0 {
            assert(date_lt(s1.last().0, date)) by {
                assert(weakened_entry(s0, s1.last()));
                let j = choose|j: int|
                    0 <= j < s0.len() && s1.last().0 == (#[trigger] s0[j]).0 && u32_trailing_zeros(
                        s1.last().1@,
                    ) >= u32_trailing_zeros(s0[j].1@);
                lemma_dates_mono(s0, j, s0.len() - 1);
            }
            assert(apply_rel(s1, s2, policy, date));
        }
    }
}

/// Collects retention rules and finally builds a [`Compactor`].
pub struct CompactorBuilder<T> {
    policy: PolicyBuilder,
    _marker: core::marker::PhantomData<T>,
}

impl<T> View for CompactorBuilder<T> {
    type V = Seq<(u16, Resolution)>;

    closed spec fn view(&self) -> Seq<(u16, Resolution)> {
        self.policy@
    }
}

impl<T> Default for CompactorBuilder<T> {
    fn default() -> (r: Self)
        ensures
            r@ == Seq::<(u16, Resolution)>::empty(),
    {
        CompactorBuilder { policy: PolicyBuilder::default(), _marker: core::marker::PhantomData }
    }
}

impl<T> CompactorBuilder<T> {
    /// Allow this compactor to keep data at resolution `res` for up to
    /// `num_days` days.
    pub fn keep_for_days(self, num_days: u16, res: Resolution) -> (r: Self)
        ensures
            r@ == self@.push((num_days, res)),
    {
        CompactorBuilder { policy: self.policy.keep_for_days(num_days, res), _marker: self._marker }
    }

    /// Validate the rules and produce an empty store governed by them.
    pub fn build(self) -> (r: Result<Compactor<T>, PolicyError>)
        ensures
            match r {
                Result::Ok(c) => {
                    &&& build_result(self@, Result::Ok(c.spec_policy()))
                    &&& c.entries() == Seq::<Entry<T>>::empty()
                    &&& c.inv()
                },
                Result::Err(e) => build_result(self@, Result::<Policy, PolicyError>::Err(e)),
            },
    {
        match self.policy.build() {
            Result::Ok(p) => {
                let d = Date { year: 0, month: 1, day: 1 };
                Result::Ok(Compactor { policy: p, data: CompactedData::empty(), asof: Ghost(d) })
            },
            Result::Err(e) => Result::Err(e),
        }
    }
}

} // verus!
