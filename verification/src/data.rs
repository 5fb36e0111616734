//! The ordered buffer of (date, time, payload) entries, with the eviction and
//! compaction algorithms the policy drives.

use vstd::prelude::*;
use vstd::std_specs::bits::u32_trailing_zeros;
use crate::aggregate::Aggregate;
use crate::calendar::{date_sub_days, sub_days};
use crate::date::{date_le, date_lt, Date};
use crate::policy::Policy;
use crate::resolution::Resolution;
use crate::time::{coarse_lt, lemma_coarse_lt_reduce, lemma_time_eq, ru, time_wf, Time};

verus! {

/// One stored sample: a date, a resolution-tagged time, and the payload.
pub type Entry<T> = (Date, Time, T);

/// Strict order on entry keys: by date, then by the coarse interval order of
/// the times.
pub open spec fn entry_lt<T>(a: Entry<T>, b: Entry<T>) -> bool {
    date_lt(a.0, b.0) || (a.0 == b.0 && coarse_lt(a.1@, b.1@))
}

/// Well-formed buffer contents: valid dates, well-formed packed time words,
/// and strictly increasing keys between consecutive entries.
pub open spec fn entries_wf<T>(s: Seq<Entry<T>>) -> bool {
    &&& forall|i: int| 0 <= i < s.len() ==> (#[trigger] s[i]).0.is_valid() && time_wf(s[i].1@)
    &&& forall|i: int| 0 <= i < s.len() - 1 ==> entry_lt(#[trigger] s[i], s[i + 1])
}

/// No entry is dated on or before `up_to`.
pub open spec fn discarded_to<T>(s: Seq<Entry<T>>, up_to: Date) -> bool {
    forall|i: int| 0 <= i < s.len() ==> date_lt(up_to, (#[trigger] s[i]).0)
}

/// Every entry dated on or before `up_to` sits at marker position `z` or
/// coarser.
pub open spec fn compacted_to<T>(s: Seq<Entry<T>>, up_to: Date, z: u32) -> bool {
    forall|i: int|
        0 <= i < s.len() ==> (date_le((#[trigger] s[i]).0, up_to) ==> u32_trailing_zeros(s[i].1@)
            >= z)
}

/// The entry carries the date of some entry of `pre` and a resolution at most
/// as fine.
pub open spec fn weakened_entry<T>(pre: Seq<Entry<T>>, e: Entry<T>) -> bool {
    exists|j: int|
        0 <= j < pre.len() && e.0 == (#[trigger] pre[j]).0 && u32_trailing_zeros(e.1@)
            >= u32_trailing_zeros(pre[j].1@)
}

/// Every entry of `post` carries the date of some entry of `pre` and a
/// resolution at most as fine: compaction and eviction only coarsen and drop.
pub open spec fn weakens<T>(pre: Seq<Entry<T>>, post: Seq<Entry<T>>) -> bool {
    forall|i: int| 0 <= i < post.len() ==> weakened_entry(pre, #[trigger] post[i])
}

/// The retention and post-compaction invariants relative to a reference date:
/// nothing older than the maximum retention remains, and for every rule the
/// entries past its age threshold are at its resolution or coarser.
pub open spec fn policy_applied<T>(s: Seq<Entry<T>>, policy: Policy, today: Date) -> bool {
    &&& discarded_to(s, sub_days(today, policy.spec_max_retention()))
    &&& forall|k: int|
        0 <= k < policy.rules().len() ==> compacted_to(
            s,
            sub_days(today, (#[trigger] policy.rules()[k]).0),
            policy.rules()[k].1.z_spec(),
        )
}

/// Everything applying the policy on a date guarantees about the buffer's
/// transformation: well-formedness and the policy invariants hold afterwards;
/// the result is exactly the discard of everything past the maximum retention
/// followed by one coarsen-and-merge pass per rule, in order (`compact_chain`),
/// which pins every surviving key and every payload fold; every entry is a
/// coarsened survivor and the buffer never grows; a buffer already in the
/// applied state is left exactly as it was; and an entry dated on the
/// reference date itself survives as the last entry.
pub open spec fn apply_rel<T: Aggregate>(
    pre: Seq<Entry<T>>,
    post: Seq<Entry<T>>,
    policy: Policy,
    today: Date,
) -> bool {
    &&& entries_wf(post)
    &&& policy_applied(post, policy, today)
    &&& weakens(pre, post)
    &&& compact_chain(
        discard_spec(pre, sub_days(today, policy.spec_max_retention())),
        post,
        policy,
        today,
        policy.rules().len() as int,
    )
    &&& post.len() <= pre.len()
    &&& (entries_wf(pre) && policy_applied(pre, policy, today) ==> post == pre)
    &&& (pre.len() > 0 && pre.last().0 == today ==> post.len() > 0 && post.last() == pre.last())
    &&& date_lt(sub_days(today, policy.spec_max_retention()), today)
    &&& forall|k: int|
        0 <= k < policy.rules().len() ==> date_lt(
            sub_days(today, (#[trigger] policy.rules()[k]).0),
            today,
        )
}

/// Dates never decrease along a well-formed buffer.
pub proof fn lemma_dates_mono<T>(s: Seq<Entry<T>>, i: int, j: int)
    requires
        entries_wf(s),
        0 <= i <= j < s.len(),
    ensures
        date_le(s[i].0, s[j].0),
    decreases j - i,
{
    if i < j {
        lemma_dates_mono(s, i, j - 1);
        assert(entry_lt(s[j - 1], s[j]));
    }
}

/// Weakening is transitive.
pub proof fn lemma_weakens_trans<T>(a: Seq<Entry<T>>, b: Seq<Entry<T>>, c: Seq<Entry<T>>)
    requires
        weakens(a, b),
        weakens(b, c),
    ensures
        weakens(a, c),
{
    assert forall|i: int| 0 <= i < c.len() implies weakened_entry(a, #[trigger] c[i]) by {
        assert(weakened_entry(b, c[i]));
        let jb = choose|jb: int|
            0 <= jb < b.len() && c[i].0 == (#[trigger] b[jb]).0 && u32_trailing_zeros(c[i].1@)
                >= u32_trailing_zeros(b[jb].1@);
        assert(weakened_entry(a, b[jb]));
        let ja = choose|ja: int|
            0 <= ja < a.len() && b[jb].0 == (#[trigger] a[ja]).0 && u32_trailing_zeros(b[jb].1@)
                >= u32_trailing_zeros(a[ja].1@);
        assert(0 <= ja < a.len() && c[i].0 == a[ja].0 && u32_trailing_zeros(c[i].1@)
            >= u32_trailing_zeros(a[ja].1@));
    }
}

/// Weakening carries the discard property over.
pub proof fn lemma_weakens_discarded<T>(pre: Seq<Entry<T>>, post: Seq<Entry<T>>, up_to: Date)
    requires
        weakens(pre, post),
        discarded_to(pre, up_to),
    ensures
        discarded_to(post, up_to),
{
    assert forall|i: int| 0 <= i < post.len() implies date_lt(up_to, (#[trigger] post[i]).0) by {
        assert(weakened_entry(pre, post[i]));
        let j = choose|j: int|
            0 <= j < pre.len() && post[i].0 == (#[trigger] pre[j]).0 && u32_trailing_zeros(
                post[i].1@,
            ) >= u32_trailing_zeros(pre[j].1@);
        assert(date_lt(up_to, pre[j].0));
    }
}

/// Weakening carries every compaction property over.
pub proof fn lemma_weakens_compacted<T>(
    pre: Seq<Entry<T>>,
    post: Seq<Entry<T>>,
    up_to: Date,
    z: u32,
)
    requires
        weakens(pre, post),
        compacted_to(pre, up_to, z),
    ensures
        compacted_to(post, up_to, z),
{
    assert forall|i: int|
        0 <= i < post.len() implies (date_le((#[trigger] post[i]).0, up_to)
        ==> u32_trailing_zeros(post[i].1@) >= z) by {
        assert(weakened_entry(pre, post[i]));
        let j = choose|j: int|
            0 <= j < pre.len() && post[i].0 == (#[trigger] pre[j]).0 && u32_trailing_zeros(
                post[i].1@,
            ) >= u32_trailing_zeros(pre[j].1@);
        if date_le(post[i].0, up_to) {
            assert(date_le(pre[j].0, up_to));
        }
    }
}

/// What discarding up to a date leaves: the suffix past the leading run of
/// entries dated on or before `up_to`.
pub open spec fn discard_spec<T>(s: Seq<Entry<T>>, up_to: Date) -> Seq<Entry<T>>
    decreases s.len(),
{
    if s.len() > 0 && date_le(s[0].0, up_to) {
        discard_spec(s.drop_first(), up_to)
    } else {
        s
    }
}

/// Scanning form of `discard_spec`: once the leading run of entries dated on
/// or before `up_to` ends at index `i`, the result is exactly the suffix from
/// `i`.
proof fn lemma_discard_spec_skip<T>(s: Seq<Entry<T>>, up_to: Date, i: int)
    requires
        0 <= i <= s.len(),
        forall|j: int| 0 <= j < i ==> date_le((#[trigger] s[j]).0, up_to),
        i == s.len() || !date_le(s[i].0, up_to),
    ensures
        discard_spec(s, up_to) == s.subrange(i, s.len() as int),
    decreases i,
{
    if i == 0 {
        assert(s.subrange(0, s.len() as int) =~= s);
    } else {
        let t = s.drop_first();
        assert(date_le(s[0].0, up_to));
        assert(forall|j: int| 0 <= j < i - 1 ==> date_le((#[trigger] t[j]).0, up_to)) by {
            assert(forall|j: int| 0 <= j < i - 1 ==> (#[trigger] t[j]) == s[j + 1]);
        }
        if i - 1 < t.len() {
            assert(t[i - 1] == s[i as int]);
        }
        lemma_discard_spec_skip(t, up_to, i - 1);
        assert(t.subrange(i - 1, t.len() as int) =~= s.subrange(i, s.len() as int));
    }
}

/// Discarding never lengthens the buffer.
pub proof fn lemma_discard_spec_len<T>(s: Seq<Entry<T>>, up_to: Date)
    ensures
        discard_spec(s, up_to).len() <= s.len(),
    decreases s.len(),
{
    if s.len() > 0 && date_le(s[0].0, up_to) {
        lemma_discard_spec_len(s.drop_first(), up_to);
    }
}

/// The packed words a compaction pass aims each entry at.
pub open spec fn target_words<T>(s: Seq<Entry<T>>, up_to: Date, z: u32) -> Seq<u32> {
    Seq::new(s.len(), |i: int| proc_word(s[i], up_to, z))
}

/// How a coarsen-and-merge pass transforms a buffer: entry `i` of `pre` is
/// headed for the packed word `words[i]`; a run of consecutive entries that
/// land on the same (date, word) key collapses into one entry whose payload
/// folds the run's payloads left-to-right with the merge operation; every
/// other entry is carried over verbatim, in order. This pins the output
/// completely, up to what each payload type's `merge_rel` leaves open.
pub open spec fn merge_fold_rel<T: Aggregate>(
    pre: Seq<Entry<T>>,
    words: Seq<u32>,
    post: Seq<Entry<T>>,
) -> bool
    decreases pre.len(),
{
    if pre.len() == 0 {
        post.len() == 0
    } else {
        let l = pre.len();
        let e = pre.last();
        &&& post.len() > 0
        &&& post.last().0 == e.0
        &&& post.last().1@ == words[l - 1]
        &&& if l >= 2 && pre[l - 2].0 == e.0 && words[l - 2] == words[l - 1] {
            exists|q: T|
                {
                    &&& #[trigger] T::merge_rel(q, e.2, post.last().2)
                    &&& merge_fold_rel(
                        pre.drop_last(),
                        words.drop_last(),
                        post.update(post.len() - 1, (post.last().0, post.last().1, q)),
                    )
                }
        } else {
            &&& post.last().2 == e.2
            &&& merge_fold_rel(pre.drop_last(), words.drop_last(), post.drop_last())
        }
    }
}

/// The compaction steps of rules `0..k`, applied in order to `s`: a sequence
/// of intermediate buffers starts at `s`, ends at `post`, and each step is the
/// coarsen-and-merge pass of the next rule.
pub open spec fn compact_chain<T: Aggregate>(
    s: Seq<Entry<T>>,
    post: Seq<Entry<T>>,
    policy: Policy,
    today: Date,
    k: int,
) -> bool {
    exists|steps: Seq<Seq<Entry<T>>>|
        {
            &&& #[trigger] steps.len() == k + 1
            &&& k >= 0
            &&& steps[0] == s
            &&& steps[k] == post
            &&& forall|j: int|
                0 <= j < k ==> merge_fold_rel(
                    #[trigger] steps[j],
                    target_words(
                        steps[j],
                        sub_days(today, policy.rules()[j].0),
                        policy.rules()[j].1.z_spec(),
                    ),
                    steps[j + 1],
                )
        }
}

/// The ordered buffer: an append-only sequence of entries that the policy
/// compacts and evicts in place.
pub struct CompactedData<T> {
    v: Vec<Entry<T>>,
}

impl<T> View for CompactedData<T> {
    type V = Seq<Entry<T>>;

    closed spec fn view(&self) -> Seq<Entry<T>> {
        self.v@
    }
}

impl<T> CompactedData<T> {
    /// An empty buffer.
    pub fn empty() -> (r: Self)
        ensures
            r@ == Seq::<Entry<T>>::empty(),
    {
        CompactedData { v: Vec::new() }
    }

    /// Number of entries.
    pub fn len(&self) -> (r: usize)
        ensures
            r == self@.len(),
    {
        self.v.len()
    }

    /// A borrow of the `i`-th entry, oldest first.
    pub fn index(&self, i: usize) -> (r: &Entry<T>)
        requires
            i < self@.len(),
        ensures
            *r == self@[i as int],
    {
        &self.v[i]
    }

    /// Append an entry (the caller maintains the ordering).
    pub fn push_entry(&mut self, e: Entry<T>)
        ensures
            final(self)@ == old(self)@.push(e),
    {
        self.v.push(e);
    }

    /// Merge a payload into the last entry, leaving its key unchanged.
    pub fn merge_last(&mut self, x: T) where T: Aggregate
        requires
            old(self)@.len() > 0,
        ensures
            final(self)@.len() == old(self)@.len(),
            final(self)@ == old(self)@.update(
                old(self)@.len() - 1,
                final(self)@.last(),
            ),
            final(self)@.last().0 == old(self)@.last().0,
            final(self)@.last().1 == old(self)@.last().1,
            T::merge_rel(old(self)@.last().2, x, final(self)@.last().2),
    {
        let n = self.v.len();
        match self.v.pop() {
            Option::Some(prev) => {
                let mut prev = prev;
                prev.2.merge(x);
                self.v.push((prev.0, prev.1, prev.2));
                proof {
                    assert(final(self)@ =~= old(self)@.update(
                        old(self)@.len() - 1,
                        final(self)@.last(),
                    ));
                }
            },
            Option::None => {
                proof {
                    assert(false);
                }
            },
        }
    }

    /// Remove every leading entry dated on or before `up_to`.
    #[verifier::rlimit(50)]
    pub fn discard(&mut self, up_to: Date)
        requires
            entries_wf(old(self)@),
        ensures
            entries_wf(final(self)@),
            discarded_to(final(self)@, up_to),
            weakens(old(self)@, final(self)@),
            final(self)@ == discard_spec(old(self)@, up_to),
            discarded_to(old(self)@, up_to) ==> final(self)@ == old(self)@,
            old(self)@.len() > 0 && date_lt(up_to, old(self)@.last().0) ==> final(self)@.len() > 0
                && final(self)@.last() == old(self)@.last(),
    {
        let ghost s = old(self)@;
        let n = self.v.len();
        let mut i: usize = 0;
        while i < n && self.v[i].0 <= up_to
            invariant
                i <= n,
                n == s.len(),
                self@ == s,
                entries_wf(s),
                forall|j: int| 0 <= j < i ==> date_le((#[trigger] s[j]).0, up_to),
            decreases n - i,
        {
            i = i + 1;
        }
        let tail = self.v.split_off(i);
        self.v = tail;
        proof {
            assert(self@ =~= s.subrange(i as int, s.len() as int));
            lemma_discard_spec_skip(s, up_to, i as int);
            assert forall|j: int| 0 <= j < self@.len() implies date_lt(
                up_to,
                (#[trigger] self@[j]).0,
            ) by {
                assert(self@[j] == s[i + j]);
                assert(i < n);
                assert(!date_le(s[i as int].0, up_to));
                lemma_dates_mono(s, i as int, i + j);
            }
            assert forall|j: int| 0 <= j < self@.len() - 1 implies entry_lt(
                #[trigger] self@[j],
                self@[j + 1],
            ) by {
                assert(self@[j] == s[i + j] && self@[j + 1] == s[i + j + 1]);
                assert(entry_lt(s[i + j], s[i + j + 1]));
            }
            assert forall|j: int| 0 <= j < self@.len() implies (#[trigger] self@[j]).0.is_valid()
                && time_wf(self@[j].1@) by {
                assert(self@[j] == s[i + j]);
                assert(s[i + j].0.is_valid() && time_wf(s[i + j].1@));
            }
            assert forall|k: int| 0 <= k < self@.len() implies weakened_entry(
                s,
                #[trigger] self@[k],
            ) by {
                assert(0 <= i + k < s.len() && self@[k].0 == (#[trigger] s[i + k]).0
                    && u32_trailing_zeros(self@[k].1@) >= u32_trailing_zeros(s[i + k].1@));
            }
            if discarded_to(s, up_to) {
                if i > 0 {
                    assert(date_le(s[0].0, up_to));
                    assert(date_lt(up_to, s[0].0));
                }
                assert(self@ =~= s);
            }
            if s.len() > 0 && date_lt(up_to, s.last().0) {
                if i == n {
                    assert(date_le(s[n - 1].0, up_to));
                }
                assert(self@.len() > 0);
                assert(self@.last() == s.last());
            }
        }
    }
}

impl<T: Aggregate> CompactedData<T> {
    /// Reduce every entry dated on or before `up_to` to resolution `res` (or
    /// leave it if already coarser), merging runs of entries whose keys become
    /// equal, left to right.
    #[verifier::rlimit(100)]
    #[verifier::spinoff_prover]
    pub fn compact(&mut self, up_to: Date, res: Resolution)
        requires
            entries_wf(old(self)@),
        ensures
            entries_wf(final(self)@),
            compacted_to(final(self)@, up_to, res.z_spec()),
            weakens(old(self)@, final(self)@),
            merge_fold_rel(
                old(self)@,
                target_words(old(self)@, up_to, res.z_spec()),
                final(self)@,
            ),
            final(self)@.len() <= old(self)@.len(),
            compacted_to(old(self)@, up_to, res.z_spec()) ==> final(self)@ == old(self)@,
            old(self)@.len() > 0 && date_lt(up_to, old(self)@.last().0) ==> final(self)@.len() > 0
                && final(self)@.last() == old(self)@.last(),
    {
        let ghost s = old(self)@;
        let ghost z = res.z_spec();
        proof {
            crate::resolution::lemma_res_z(res);
        }
        // Reverse the buffer onto a stack so entries can be taken oldest
        // first by value.
        let mut old_v: Vec<Entry<T>> = Vec::new();
        core::mem::swap(&mut self.v, &mut old_v);
        let mut stack: Vec<Entry<T>> = Vec::new();
        while old_v.len() > 0
            invariant
                old_v@.len() + stack@.len() == s.len(),
                old_v@ == s.subrange(0, old_v@.len() as int),
                forall|k: int| 0 <= k < stack@.len() ==> (#[trigger] stack@[k]) == s[s.len() - 1
                    - k],
            decreases old_v@.len(),
        {
            match old_v.pop() {
                Option::Some(e) => {
                    proof {
                        assert(e == s[old_v@.len() as int]);
                        assert(old_v@ =~= s.subrange(0, old_v@.len() as int));
                    }
                    stack.push(e);
                },
                Option::None => {
                    proof {
                        assert(false);
                    }
                },
            }
        }
        // Single pass: coarsen in-range entries and merge an entry whose key
        // collapses onto the previous output entry's key into that entry.
        let mut out: Vec<Entry<T>> = Vec::new();
        proof {
            lemma_compact_start(s, up_to, z);
            assert(out@ =~= Seq::<Entry<T>>::empty());
        }
        while stack.len() > 0
            invariant
                entries_wf(s),
                0 <= z < 32,
                crate::resolution::valid_z(z),
                z == res.z_spec(),
                stack@.len() <= s.len(),
                forall|k: int| 0 <= k < stack@.len() ==> (#[trigger] stack@[k]) == s[s.len() - 1
                    - k],
                compact_inv(s, up_to, z, s.len() - stack@.len(), out@),
            decreases stack@.len(),
        {
            let ghost p = s.len() - stack@.len();
            let ghost out0 = out@;
            match stack.pop() {
                Option::Some(e) => {
                    proof {
                        assert(e == s[p]);
                        assert(s[p].0.is_valid() && time_wf(s[p].1@));
                    }
                    let (d, t, x) = e;
                    let mut t2 = t;
                    if d <= up_to {
                        t2.reduce_to(res);
                    }
                    proof {
                        assert(t2@ == proc_word(s[p], up_to, z));
                        assert(time_wf(t2@));
                        if !date_le(s[p].0, up_to) {
                            lemma_time_eq(t2, t);
                        }
                    }
                    let m = out.len();
                    let mut do_merge = false;
                    if m > 0 {
                        let ld = out[m - 1].0;
                        let lt = out[m - 1].1;
                        if ld == d && lt == t2 {
                            do_merge = true;
                        }
                        proof {
                            lemma_time_eq(lt, t2);
                        }
                    }
                    if do_merge {
                        match out.pop() {
                            Option::Some(prev) => {
                                let mut prev = prev;
                                prev.2.merge(x);
                                out.push((prev.0, prev.1, prev.2));
                                proof {
                                    lemma_compact_step_merge(s, up_to, z, p, out0, out@);
                                }
                            },
                            Option::None => {
                                proof {
                                    assert(false);
                                }
                            },
                        }
                    } else {
                        out.push((d, t2, x));
                        proof {
                            assert(out@ == out0.push((d, t2, x)));
                            lemma_compact_step_push(s, up_to, z, p, out0, out@, (d, t2, x));
                        }
                    }
                },
                Option::None => {
                    proof {
                        assert(false);
                    }
                },
            }
        }
        self.v = out;
        proof {
            lemma_compact_finish(s, up_to, z, self@);
        }
    }
}

impl<T: Aggregate> CompactedData<T> {
    /// Enforce the policy as of `today`: discard entries past the maximum
    /// retention, then compact each rule's age range to its resolution.
    #[verifier::rlimit(100)]
    #[verifier::spinoff_prover]
    pub fn apply_policy(&mut self, policy: &Policy, today: Date)
        requires
            entries_wf(old(self)@),
            policy.wf(),
            today.is_valid(),
        ensures
            apply_rel(old(self)@, final(self)@, *policy, today),
    {
        let ghost s0 = old(self)@;
        let cutoff = date_sub_days(today, policy.max_retention());
        self.discard(cutoff);
        let ghost d0 = self@;
        let ghost mut chain_steps: Seq<Seq<Entry<T>>> = seq![d0];
        proof {
            lemma_discard_spec_len(s0, cutoff);
            if entries_wf(s0) && policy_applied(s0, *policy, today) {
                assert(discarded_to(s0, cutoff));
                assert(self@ == s0);
            }
            if s0.len() > 0 && s0.last().0 == today {
                assert(date_lt(cutoff, s0.last().0));
            }
        }
        let nr = policy.rule_count();
        let mut k: usize = 0;
        while k < nr
            invariant
                nr == policy.rules().len(),
                k <= nr,
                policy.wf(),
                today.is_valid(),
                entries_wf(self@),
                weakens(s0, self@),
                discarded_to(self@, sub_days(today, policy.spec_max_retention())),
                forall|j: int|
                    0 <= j < k ==> compacted_to(
                        self@,
                        sub_days(today, (#[trigger] policy.rules()[j]).0),
                        policy.rules()[j].1.z_spec(),
                    ),
                date_lt(sub_days(today, policy.spec_max_retention()), today),
                forall|j: int|
                    0 <= j < k ==> date_lt(
                        sub_days(today, (#[trigger] policy.rules()[j]).0),
                        today,
                    ),
                d0 == discard_spec(s0, sub_days(today, policy.spec_max_retention())),
                chain_steps.len() == k + 1,
                chain_steps[0] == d0,
                chain_steps[k as int] == self@,
                forall|j: int|
                    0 <= j < k ==> merge_fold_rel(
                        #[trigger] chain_steps[j],
                        target_words(
                            chain_steps[j],
                            sub_days(today, policy.rules()[j].0),
                            policy.rules()[j].1.z_spec(),
                        ),
                        chain_steps[j + 1],
                    ),
                self@.len() <= s0.len(),
                entries_wf(s0) && policy_applied(s0, *policy, today) ==> self@ == s0,
                s0.len() > 0 && s0.last().0 == today ==> self@.len() > 0 && self@.last()
                    == s0.last(),
            decreases nr - k,
        {
            let ghost mid = self@;
            let rule = policy.rule_at(k);
            let up_to = date_sub_days(today, rule.0);
            proof {
                assert(rule.0 >= 1);
            }
            self.compact(up_to, rule.1);
            proof {
                lemma_weakens_trans(s0, mid, self@);
                lemma_weakens_discarded(
                    mid,
                    self@,
                    sub_days(today, policy.spec_max_retention()),
                );
                assert forall|j: int| 0 <= j < k + 1 implies compacted_to(
                    self@,
                    sub_days(today, (#[trigger] policy.rules()[j]).0),
                    policy.rules()[j].1.z_spec(),
                ) by {
                    if j < k {
                        lemma_weakens_compacted(
                            mid,
                            self@,
                            sub_days(today, policy.rules()[j].0),
                            policy.rules()[j].1.z_spec(),
                        );
                    }
                }
                let cs0 = chain_steps;
                chain_steps = chain_steps.push(self@);
                assert(chain_steps[k as int] == mid);
                assert forall|j: int| 0 <= j < k + 1 implies merge_fold_rel(
                    #[trigger] chain_steps[j],
                    target_words(
                        chain_steps[j],
                        sub_days(today, policy.rules()[j].0),
                        policy.rules()[j].1.z_spec(),
                    ),
                    chain_steps[j + 1],
                ) by {
                    if j < k {
                        assert(chain_steps[j] == cs0[j] && chain_steps[j + 1] == cs0[j + 1]);
                        assert(merge_fold_rel(
                            cs0[j],
                            target_words(
                                cs0[j],
                                sub_days(today, policy.rules()[j].0),
                                policy.rules()[j].1.z_spec(),
                            ),
                            cs0[j + 1],
                        ));
                    }
                }
                if entries_wf(s0) && policy_applied(s0, *policy, today) {
                    assert(mid == s0);
                    assert(compacted_to(mid, sub_days(today, policy.rules()[k as int].0),
                        policy.rules()[k as int].1.z_spec()));
                    assert(self@ == mid);
                }
                if s0.len() > 0 && s0.last().0 == today {
                    assert(date_lt(up_to, mid.last().0));
                }
            }
            k = k + 1;
        }
        proof {
            assert(chain_steps.len() == policy.rules().len() + 1);
            assert(compact_chain(d0, self@, *policy, today, policy.rules().len() as int));
        }
    }
}

/// The packed time word an entry ends up with after a compaction pass at
/// marker position `z` up to `up_to`: coarsened when in range, kept otherwise.
pub open spec fn proc_word<T>(e: Entry<T>, up_to: Date, z: u32) -> u32 {
    if date_le(e.0, up_to) {
        ru(e.1@, z)
    } else {
        e.1@
    }
}

/// An entry the compaction pass actually changes: in range and finer than `z`.
pub open spec fn needs_work<T>(e: Entry<T>, up_to: Date, z: u32) -> bool {
    date_le(e.0, up_to) && u32_trailing_zeros(e.1@) < z
}

/// The fold relation extends by a merge: the appended source entry's key
/// equals the previous one's target key, and only the last output payload
/// changes, by a merge of the appended payload.
pub proof fn lemma_fold_snoc_merge<T: Aggregate>(
    pre1: Seq<Entry<T>>,
    w1: Seq<u32>,
    out0: Seq<Entry<T>>,
    o2: Seq<Entry<T>>,
    q: T,
)
    requires
        pre1.len() >= 2,
        w1.len() == pre1.len(),
        merge_fold_rel(pre1.drop_last(), w1.drop_last(), out0),
        pre1[pre1.len() - 2].0 == pre1.last().0,
        w1[pre1.len() - 2] == w1[pre1.len() - 1],
        out0.len() > 0,
        o2.len() == out0.len(),
        forall|i: int| 0 <= i < out0.len() - 1 ==> o2[i] == out0[i],
        o2.last().0 == out0.last().0,
        o2.last().1 == out0.last().1,
        o2.last().0 == pre1.last().0,
        o2.last().1@ == w1[pre1.len() - 1],
        q == out0.last().2,
        T::merge_rel(q, pre1.last().2, o2.last().2),
    ensures
        merge_fold_rel(pre1, w1, o2),
{
    assert(o2.update(o2.len() - 1, (o2.last().0, o2.last().1, q)) =~= out0);
    assert(T::merge_rel(q, pre1.last().2, o2.last().2));
    assert(merge_fold_rel(
        pre1.drop_last(),
        w1.drop_last(),
        o2.update(o2.len() - 1, (o2.last().0, o2.last().1, q)),
    ));
    assert(merge_fold_rel(pre1, w1, o2));
}

/// The fold relation extends by a fresh bucket: the appended source entry's
/// key differs from the previous one's target key, so it is carried over.
pub proof fn lemma_fold_snoc_push<T: Aggregate>(
    pre1: Seq<Entry<T>>,
    w1: Seq<u32>,
    out0: Seq<Entry<T>>,
    o2: Seq<Entry<T>>,
)
    requires
        pre1.len() >= 1,
        w1.len() == pre1.len(),
        merge_fold_rel(pre1.drop_last(), w1.drop_last(), out0),
        o2.len() == out0.len() + 1,
        o2.drop_last() == out0,
        o2.last().0 == pre1.last().0,
        o2.last().1@ == w1[pre1.len() - 1],
        o2.last().2 == pre1.last().2,
        pre1.len() >= 2 ==> !(pre1[pre1.len() - 2].0 == pre1.last().0 && w1[pre1.len() - 2]
            == w1[pre1.len() - 1]),
    ensures
        merge_fold_rel(pre1, w1, o2),
{
    assert(merge_fold_rel(pre1, w1, o2));
}

/// The compaction pass's loop invariant over the processed prefix of length
/// `p`: the output is well-formed, within the coarseness bound, made of
/// weakened survivors of the prefix and no longer than it, tracks the last
/// processed entry's key (carrying an out-of-range entry verbatim), is the
/// identity on a prefix with nothing to do, and stands in the fold relation
/// to the prefix.
spec fn compact_inv<T: Aggregate>(
    s: Seq<Entry<T>>,
    up_to: Date,
    z: u32,
    p: int,
    out: Seq<Entry<T>>,
) -> bool {
    &&& entries_wf(out)
    &&& forall|i: int|
        0 <= i < out.len() ==> (date_le((#[trigger] out[i]).0, up_to) ==> u32_trailing_zeros(
            out[i].1@,
        ) >= z)
    &&& forall|i: int| 0 <= i < out.len() ==> weakened_entry(s.subrange(0, p), #[trigger] out[i])
    &&& (out.len() > 0 <==> p > 0)
    &&& p > 0 ==> out.last().0 == s[p - 1].0 && out.last().1@ == proc_word(s[p - 1], up_to, z) && (
    !date_le(s[p - 1].0, up_to) ==> out.last() == s[p - 1])
    &&& (forall|j: int| 0 <= j < p ==> !needs_work(#[trigger] s[j], up_to, z)) ==> out
        == s.subrange(0, p)
    &&& out.len() <= p
    &&& merge_fold_rel(s.subrange(0, p), target_words(s.subrange(0, p), up_to, z), out)
}

/// The invariant holds of the empty output before anything is processed.
proof fn lemma_compact_start<T: Aggregate>(s: Seq<Entry<T>>, up_to: Date, z: u32)
    ensures
        compact_inv(s, up_to, z, 0, Seq::<Entry<T>>::empty()),
{
    let e = Seq::<Entry<T>>::empty();
    assert(s.subrange(0, 0) =~= e);
    assert(merge_fold_rel(s.subrange(0, 0), target_words(s.subrange(0, 0), up_to, z), e));
}

/// Invariant step for a merge: the processed entry's key collapsed onto the
/// previous output entry's key and only that entry's payload changed, by a
/// merge.
#[verifier::rlimit(100)]
#[verifier::spinoff_prover]
proof fn lemma_compact_step_merge<T: Aggregate>(
    s: Seq<Entry<T>>,
    up_to: Date,
    z: u32,
    p: int,
    out0: Seq<Entry<T>>,
    o2: Seq<Entry<T>>,
)
    requires
        entries_wf(s),
        z < 32,
        0 <= p < s.len(),
        compact_inv(s, up_to, z, p, out0),
        out0.len() > 0,
        out0.last().0 == s[p].0,
        out0.last().1@ == proc_word(s[p], up_to, z),
        o2.len() == out0.len(),
        forall|i: int| 0 <= i < out0.len() - 1 ==> o2[i] == out0[i],
        o2.last().0 == out0.last().0,
        o2.last().1 == out0.last().1,
        T::merge_rel(out0.last().2, s[p].2, o2.last().2),
    ensures
        compact_inv(s, up_to, z, p + 1, o2),
{
    assert(p > 0);
    assert(needs_work(s[p], up_to, z)) by {
        if !needs_work(s[p], up_to, z) {
            lemma_no_merge_without_work(s, out0, p, up_to, z);
        }
    }
    assert(entries_wf(o2)) by {
        assert forall|i: int| 0 <= i < o2.len() - 1 implies entry_lt(
            #[trigger] o2[i],
            o2[i + 1],
        ) by {
            assert(entry_lt(out0[i], out0[i + 1]));
        }
        assert forall|i: int| 0 <= i < o2.len() implies (#[trigger] o2[i]).0.is_valid() && time_wf(
            o2[i].1@,
        ) by {
            assert(out0[i].0.is_valid() && time_wf(out0[i].1@));
            assert(o2[i].0 == out0[i].0 && o2[i].1 == out0[i].1);
        }
    }
    assert forall|i: int|
        0 <= i < o2.len() implies (date_le((#[trigger] o2[i]).0, up_to) ==> u32_trailing_zeros(
            o2[i].1@,
        ) >= z) by {
        assert(o2[i].0 == out0[i].0 && o2[i].1 == out0[i].1);
    }
    let pref0 = s.subrange(0, p);
    let pref = s.subrange(0, p + 1);
    assert forall|i: int| 0 <= i < o2.len() implies weakened_entry(pref, #[trigger] o2[i]) by {
        assert(o2[i].0 == out0[i].0 && o2[i].1 == out0[i].1);
        assert(weakened_entry(pref0, out0[i]));
        let j0 = choose|j: int|
            0 <= j < pref0.len() && out0[i].0 == (#[trigger] pref0[j]).0 && u32_trailing_zeros(
                out0[i].1@,
            ) >= u32_trailing_zeros(pref0[j].1@);
        assert(pref[j0] == pref0[j0]);
        assert(0 <= j0 < pref.len() && o2[i].0 == (#[trigger] pref[j0]).0 && u32_trailing_zeros(
            o2[i].1@,
        ) >= u32_trailing_zeros(pref[j0].1@));
    }
    lemma_fold_step_merge(s, p, up_to, z, out0, o2, out0.last().2);
}

/// Shape part of the carried-over step: ordering, validity, coarseness bound
/// and weakening extend from the output so far to the output with the fresh
/// entry appended.
#[verifier::rlimit(100)]
#[verifier::spinoff_prover]
proof fn lemma_compact_push_shape<T: Aggregate>(
    s: Seq<Entry<T>>,
    up_to: Date,
    z: u32,
    p: int,
    out0: Seq<Entry<T>>,
    o2: Seq<Entry<T>>,
    e: Entry<T>,
)
    requires
        entries_wf(s),
        z < 32,
        0 <= p < s.len(),
        compact_inv(s, up_to, z, p, out0),
        o2 == out0.push(e),
        e.0 == s[p].0,
        e.1@ == proc_word(s[p], up_to, z),
        time_wf(e.1@),
        u32_trailing_zeros(e.1@) >= u32_trailing_zeros(s[p].1@),
        date_le(s[p].0, up_to) ==> u32_trailing_zeros(e.1@) >= z,
        !(out0.len() > 0 && out0.last().0 == s[p].0 && out0.last().1@ == proc_word(
            s[p],
            up_to,
            z,
        )),
    ensures
        entries_wf(o2),
        forall|i: int|
            0 <= i < o2.len() ==> (date_le((#[trigger] o2[i]).0, up_to) ==> u32_trailing_zeros(
                o2[i].1@,
            ) >= z),
        forall|i: int|
            0 <= i < o2.len() ==> weakened_entry(s.subrange(0, p + 1), #[trigger] o2[i]),
{
    assert(s[p].0.is_valid() && time_wf(s[p].1@));
    if p > 0 {
        assert(entry_lt(s[p - 1], s[p]));
        assert(s[p - 1].0.is_valid() && time_wf(s[p - 1].1@));
    }
    assert(entries_wf(o2)) by {
        assert forall|i: int| 0 <= i < o2.len() - 1 implies entry_lt(
            #[trigger] o2[i],
            o2[i + 1],
        ) by {
            if i < o2.len() - 2 {
                assert(o2[i] == out0[i] && o2[i + 1] == out0[i + 1]);
                assert(entry_lt(out0[i], out0[i + 1]));
            } else {
                assert(o2[i] == out0.last() && o2[i + 1] == e);
                if s[p - 1].0 == e.0 {
                    assert(out0.last().1@ != proc_word(s[p], up_to, z) || out0.last().0
                        != s[p].0);
                    lemma_compact_step(s, out0, p, up_to, z);
                    assert(coarse_lt(out0.last().1@, e.1@));
                } else {
                    assert(date_lt(out0.last().0, e.0));
                }
            }
        }
        assert forall|i: int| 0 <= i < o2.len() implies (#[trigger] o2[i]).0.is_valid() && time_wf(
            o2[i].1@,
        ) by {
            if i < o2.len() - 1 {
                assert(o2[i] == out0[i]);
                assert(out0[i].0.is_valid() && time_wf(out0[i].1@));
            }
        }
    }
    assert forall|i: int|
        0 <= i < o2.len() implies (date_le((#[trigger] o2[i]).0, up_to) ==> u32_trailing_zeros(
            o2[i].1@,
        ) >= z) by {
        if i < o2.len() - 1 {
            assert(o2[i] == out0[i]);
        }
    }
    let pref0 = s.subrange(0, p);
    let pref = s.subrange(0, p + 1);
    assert forall|i: int| 0 <= i < o2.len() implies weakened_entry(pref, #[trigger] o2[i]) by {
        if i < o2.len() - 1 {
            assert(o2[i] == out0[i]);
            assert(weakened_entry(pref0, out0[i]));
            let j0 = choose|j: int|
                0 <= j < pref0.len() && out0[i].0 == (#[trigger] pref0[j]).0 && u32_trailing_zeros(
                    out0[i].1@,
                ) >= u32_trailing_zeros(pref0[j].1@);
            assert(pref[j0] == pref0[j0]);
            assert(0 <= j0 < pref.len() && o2[i].0 == (#[trigger] pref[j0]).0
                && u32_trailing_zeros(o2[i].1@) >= u32_trailing_zeros(pref[j0].1@));
        } else {
            assert(o2[i] == e);
            assert(pref[p] == s[p]);
            assert(0 <= p < pref.len() && o2[i].0 == (#[trigger] pref[p]).0 && u32_trailing_zeros(
                o2[i].1@,
            ) >= u32_trailing_zeros(pref[p].1@));
        }
    }
}

/// Invariant step for a carried-over entry: the processed entry opens a fresh
/// output bucket.
#[verifier::rlimit(100)]
#[verifier::spinoff_prover]
proof fn lemma_compact_step_push<T: Aggregate>(
    s: Seq<Entry<T>>,
    up_to: Date,
    z: u32,
    p: int,
    out0: Seq<Entry<T>>,
    o2: Seq<Entry<T>>,
    e: Entry<T>,
)
    requires
        entries_wf(s),
        z < 32,
        crate::resolution::valid_z(z),
        0 <= p < s.len(),
        compact_inv(s, up_to, z, p, out0),
        o2 == out0.push(e),
        e.0 == s[p].0,
        e.1@ == proc_word(s[p], up_to, z),
        e.2 == s[p].2,
        time_wf(e.1@),
        !(out0.len() > 0 && out0.last().0 == s[p].0 && out0.last().1@ == proc_word(
            s[p],
            up_to,
            z,
        )),
        !date_le(s[p].0, up_to) ==> e.1 == s[p].1,
    ensures
        compact_inv(s, up_to, z, p + 1, o2),
{
    lemma_proc_word_coarsens(s, up_to, z, p, e);
    lemma_compact_push_shape(s, up_to, z, p, out0, o2, e);
    lemma_compact_push_ident(s, up_to, z, p, out0, o2, e);
    lemma_compact_push_fold(s, up_to, z, p, out0, o2, e);
    // an out-of-range entry is carried over verbatim
    assert(!date_le(s[p].0, up_to) ==> e == s[p]);
    assert(o2.last() == e);
}

/// The target word of a pass is never finer than the source word, and at
/// least as coarse as the pass's own resolution for an in-range entry.
proof fn lemma_proc_word_coarsens<T: Aggregate>(
    s: Seq<Entry<T>>,
    up_to: Date,
    z: u32,
    p: int,
    e: Entry<T>,
)
    requires
        entries_wf(s),
        z < 32,
        0 <= p < s.len(),
        e.1@ == proc_word(s[p], up_to, z),
    ensures
        u32_trailing_zeros(e.1@) >= u32_trailing_zeros(s[p].1@),
        date_le(s[p].0, up_to) ==> u32_trailing_zeros(e.1@) >= z,
{
    assert(time_wf(s[p].1@));
    if date_le(s[p].0, up_to) {
        assert(e.1@ == ru(s[p].1@, z));
        crate::time::lemma_tz(s[p].1@);
        if z > u32_trailing_zeros(s[p].1@) {
            crate::time::lemma_reduce_props(s[p].1@, z);
        }
    }
}

/// Identity part of the carried-over step: a processed prefix in which no
/// entry needs any work is reproduced verbatim.
proof fn lemma_compact_push_ident<T: Aggregate>(
    s: Seq<Entry<T>>,
    up_to: Date,
    z: u32,
    p: int,
    out0: Seq<Entry<T>>,
    o2: Seq<Entry<T>>,
    e: Entry<T>,
)
    requires
        entries_wf(s),
        z < 32,
        0 <= p < s.len(),
        compact_inv(s, up_to, z, p, out0),
        o2 == out0.push(e),
        e.0 == s[p].0,
        e.1@ == proc_word(s[p], up_to, z),
        e.2 == s[p].2,
        !date_le(s[p].0, up_to) ==> e.1 == s[p].1,
    ensures
        (forall|j: int| 0 <= j < p + 1 ==> !needs_work(#[trigger] s[j], up_to, z)) ==> o2
            == s.subrange(0, p + 1),
{
    if forall|j: int| 0 <= j < p + 1 ==> !needs_work(#[trigger] s[j], up_to, z) {
        assert(!needs_work(s[p], up_to, z));
        assert(e == s[p]) by {
            if date_le(s[p].0, up_to) {
                assert(u32_trailing_zeros(s[p].1@) >= z);
                assert(e.1@ == ru(s[p].1@, z));
                assert(e.1@ == s[p].1@);
                lemma_time_eq(e.1, s[p].1);
            }
        }
        assert(out0 == s.subrange(0, p)) by {
            assert(forall|j: int| 0 <= j < p ==> !needs_work(#[trigger] s[j], up_to, z));
        }
        assert(o2 =~= s.subrange(0, p + 1));
    }
}

/// Fold part of the carried-over step: the previous output key differs from
/// the fresh entry's, so the fold relation opens a new bucket.
proof fn lemma_compact_push_fold<T: Aggregate>(
    s: Seq<Entry<T>>,
    up_to: Date,
    z: u32,
    p: int,
    out0: Seq<Entry<T>>,
    o2: Seq<Entry<T>>,
    e: Entry<T>,
)
    requires
        entries_wf(s),
        0 <= p < s.len(),
        compact_inv(s, up_to, z, p, out0),
        o2 == out0.push(e),
        e.0 == s[p].0,
        e.1@ == proc_word(s[p], up_to, z),
        e.2 == s[p].2,
        !(out0.len() > 0 && out0.last().0 == s[p].0 && out0.last().1@ == proc_word(
            s[p],
            up_to,
            z,
        )),
    ensures
        merge_fold_rel(s.subrange(0, p + 1), target_words(s.subrange(0, p + 1), up_to, z), o2),
{
    if p > 0 {
        assert(!(s[p - 1].0 == s[p].0 && proc_word(s[p - 1], up_to, z) == proc_word(
            s[p],
            up_to,
            z,
        ))) by {
            if s[p - 1].0 == s[p].0 && proc_word(s[p - 1], up_to, z) == proc_word(s[p], up_to, z) {
                assert(out0.last().0 == s[p - 1].0 && out0.last().1@ == proc_word(
                    s[p - 1],
                    up_to,
                    z,
                ));
            }
        }
    }
    assert(o2.drop_last() =~= out0);
    lemma_fold_step_push(s, p, up_to, z, out0, o2);
}

/// The loop invariant at the end of the pass gives the pass's whole contract.
proof fn lemma_compact_finish<T: Aggregate>(
    s: Seq<Entry<T>>,
    up_to: Date,
    z: u32,
    out: Seq<Entry<T>>,
)
    requires
        entries_wf(s),
        compact_inv(s, up_to, z, s.len() as int, out),
    ensures
        entries_wf(out),
        compacted_to(out, up_to, z),
        weakens(s, out),
        merge_fold_rel(s, target_words(s, up_to, z), out),
        out.len() <= s.len(),
        compacted_to(s, up_to, z) ==> out == s,
        s.len() > 0 && date_lt(up_to, s.last().0) ==> out.len() > 0 && out.last() == s.last(),
{
    assert(s.subrange(0, s.len() as int) =~= s);
    assert(target_words(s.subrange(0, s.len() as int), up_to, z) =~= target_words(s, up_to, z));
    if compacted_to(s, up_to, z) {
        assert forall|j: int| 0 <= j < s.len() implies !needs_work(#[trigger] s[j], up_to, z) by {}
        assert(out == s.subrange(0, s.len() as int));
    }
    if s.len() > 0 && date_lt(up_to, s.last().0) {
        assert(!date_le(s[s.len() - 1].0, up_to));
    }
}

/// Fold-relation step for a merge: the processed entry collapsed onto the
/// previous output key, and only its payload was folded in.
proof fn lemma_fold_step_merge<T: Aggregate>(
    s: Seq<Entry<T>>,
    p: int,
    up_to: Date,
    z: u32,
    out0: Seq<Entry<T>>,
    o2: Seq<Entry<T>>,
    q: T,
)
    requires
        0 < p < s.len(),
        out0.len() > 0,
        merge_fold_rel(s.subrange(0, p), target_words(s.subrange(0, p), up_to, z), out0),
        out0.last().0 == s[p - 1].0,
        out0.last().1@ == proc_word(s[p - 1], up_to, z),
        out0.last().0 == s[p].0,
        out0.last().1@ == proc_word(s[p], up_to, z),
        o2.len() == out0.len(),
        forall|i: int| 0 <= i < out0.len() - 1 ==> o2[i] == out0[i],
        o2.last().0 == out0.last().0,
        o2.last().1 == out0.last().1,
        q == out0.last().2,
        T::merge_rel(q, s[p].2, o2.last().2),
    ensures
        merge_fold_rel(s.subrange(0, p + 1), target_words(s.subrange(0, p + 1), up_to, z), o2),
{
    let pre1 = s.subrange(0, p + 1);
    let w1 = target_words(pre1, up_to, z);
    assert(pre1.drop_last() =~= s.subrange(0, p));
    assert(w1.drop_last() =~= target_words(s.subrange(0, p), up_to, z));
    assert(pre1.last() == s[p]);
    assert(w1[p] == proc_word(s[p], up_to, z));
    assert(pre1[p - 1] == s[p - 1]);
    assert(w1[p - 1] == proc_word(s[p - 1], up_to, z));
    assert(pre1[p - 1].0 == pre1.last().0);
    assert(w1[p - 1] == w1[p]);
    assert(T::merge_rel(q, pre1.last().2, o2.last().2));
    assert(o2.update(o2.len() - 1, (o2.last().0, o2.last().1, q)) =~= out0);
    assert(merge_fold_rel(
        pre1.drop_last(),
        w1.drop_last(),
        o2.update(o2.len() - 1, (o2.last().0, o2.last().1, q)),
    ));
    assert(merge_fold_rel(pre1, w1, o2));
}

/// Fold-relation step for a carried-over entry: a fresh bucket is opened.
proof fn lemma_fold_step_push<T: Aggregate>(
    s: Seq<Entry<T>>,
    p: int,
    up_to: Date,
    z: u32,
    out0: Seq<Entry<T>>,
    o2: Seq<Entry<T>>,
)
    requires
        0 <= p < s.len(),
        merge_fold_rel(s.subrange(0, p), target_words(s.subrange(0, p), up_to, z), out0),
        o2.len() == out0.len() + 1,
        o2.drop_last() == out0,
        o2.last().0 == s[p].0,
        o2.last().1@ == proc_word(s[p], up_to, z),
        o2.last().2 == s[p].2,
        p > 0 ==> !(s[p - 1].0 == s[p].0 && proc_word(s[p - 1], up_to, z) == proc_word(
            s[p],
            up_to,
            z,
        )),
    ensures
        merge_fold_rel(s.subrange(0, p + 1), target_words(s.subrange(0, p + 1), up_to, z), o2),
{
    let pre1 = s.subrange(0, p + 1);
    let w1 = target_words(pre1, up_to, z);
    assert(pre1.drop_last() =~= s.subrange(0, p));
    assert(w1.drop_last() =~= target_words(s.subrange(0, p), up_to, z));
    assert(pre1.last() == s[p]);
    assert(w1[p] == proc_word(s[p], up_to, z));
    if p > 0 {
        assert(pre1[p - 1] == s[p - 1]);
        assert(w1[p - 1] == proc_word(s[p - 1], up_to, z));
        assert(!(pre1[p - 1].0 == pre1.last().0 && w1[p - 1] == w1[p]));
    }
    assert(merge_fold_rel(pre1, w1, o2));
}

/// Consecutive entries keep their strict key order, or collapse into the same
/// key, when both pass through the compaction treatment.
proof fn lemma_compact_step<T>(s: Seq<Entry<T>>, out: Seq<Entry<T>>, p: int, up_to: Date, z: u32)
    requires
        entries_wf(s),
        0 < p < s.len(),
        out.len() > 0,
        z < 32,
        out.last().0 == s[p - 1].0,
        out.last().1@ == proc_word(s[p - 1], up_to, z),
        s[p - 1].0 == s[p].0,
        out.last().1@ != proc_word(s[p], up_to, z),
    ensures
        coarse_lt(out.last().1@, proc_word(s[p], up_to, z)),
{
    assert(entry_lt(s[p - 1], s[p]));
    assert(s[p - 1].0.is_valid() && time_wf(s[p - 1].1@));
    assert(s[p].0.is_valid() && time_wf(s[p].1@));
    assert(coarse_lt(s[p - 1].1@, s[p].1@));
    if date_le(s[p].0, up_to) {
        lemma_coarse_lt_reduce(s[p - 1].1@, s[p].1@, z);
    }
}

/// An entry that needs no work never collapses onto the previous output key.
proof fn lemma_no_merge_without_work<T>(
    s: Seq<Entry<T>>,
    out: Seq<Entry<T>>,
    p: int,
    up_to: Date,
    z: u32,
)
    requires
        entries_wf(s),
        0 < p < s.len(),
        !needs_work(s[p], up_to, z),
        out.len() > 0,
        out.last().0 == s[p - 1].0,
        out.last().1@ == proc_word(s[p - 1], up_to, z),
        z < 32,
    ensures
        out.last().0 != s[p].0 || out.last().1@ != proc_word(s[p], up_to, z),
{
    if out.last().0 == s[p].0 {
        assert(entry_lt(s[p - 1], s[p]));
        assert(s[p - 1].0 == s[p].0);
        assert(coarse_lt(s[p - 1].1@, s[p].1@));
        assert(time_wf(s[p - 1].1@) && time_wf(s[p].1@));
        let a = s[p - 1].1@;
        let b = s[p].1@;
        if date_le(s[p].0, up_to) {
            assert(u32_trailing_zeros(b) >= z);
            assert(proc_word(s[p], up_to, z) == ru(b, z));
            assert(ru(b, z) == b);
            assert(proc_word(s[p - 1], up_to, z) == ru(a, z));
            crate::time::lemma_coarse_lt_ru_ne(a, b, z);
        } else {
            // Both words unchanged, and the strict order keeps them distinct.
            if a == b {
                assert(!coarse_lt(a, b));
            }
        }
    }
}

} // verus!
