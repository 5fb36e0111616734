//! Validated retention policies: an ordered set of (age-in-days, resolution)
//! rules, finalized by a builder that sorts them, drops exact duplicates, and
//! rejects redundant or dominated rules.

use vstd::prelude::*;
use vstd::std_specs::cmp::PartialEqSpec;
use crate::resolution::Resolution;

verus! {

/// Describes how data should be compacted.
///
/// The compaction rules go from (distant, low-res) to (recent, high-res); each
/// rule `(days, res)` says that entries more than `days` days old are reduced
/// to resolution `res`. Entries older than the maximum retention are dropped
/// altogether.
#[derive(Debug)]
pub struct Policy {
    rules: Vec<(u16, Resolution)>,
    max_res: Resolution,
    max_retention: u16,
}

/// Strict order on rules: by days, then by fineness of the resolution.
pub open spec fn rule_lt(a: (u16, Resolution), b: (u16, Resolution)) -> bool {
    a.0 < b.0 || (a.0 == b.0 && a.1.idx() < b.1.idx())
}

/// Strictly descending, hence duplicate-free.
pub open spec fn sorted_desc(s: Seq<(u16, Resolution)>) -> bool {
    forall|i: int, j: int| 0 <= i < j < s.len() ==> rule_lt(#[trigger] s[j], #[trigger] s[i])
}

/// No rule dominates another: distinct rules have distinct day counts, and the
/// rule that retains longer is the one with the coarser resolution.
pub open spec fn compatible(s: Set<(u16, Resolution)>) -> bool {
    forall|a: (u16, Resolution), b: (u16, Resolution)|
        #[trigger] s.contains(a) && #[trigger] s.contains(b) ==> ((a.0 == b.0 ==> a.1 == b.1) && (
    a.0 > b.0 ==> a.1.idx() < b.1.idx()))
}

/// Some rule of the sequence applies for zero days.
pub open spec fn has_zero_days(s: Seq<(u16, Resolution)>) -> bool {
    exists|i: int| 0 <= i < s.len() && (#[trigger] s[i]).0 == 0
}

impl Policy {
    /// The compaction rules, oldest and coarsest first: entries more than
    /// `rules()[i].0` days old are reduced to `rules()[i].1`.
    pub closed spec fn rules(self) -> Seq<(u16, Resolution)> {
        self.rules@
    }

    /// The finest resolution the policy ever stores.
    pub closed spec fn spec_max_res(self) -> Resolution {
        self.max_res
    }

    /// The age in days past which entries are discarded.
    pub closed spec fn spec_max_retention(self) -> u16 {
        self.max_retention
    }

    /// Shape every built policy has: at least one day of retention, every
    /// rule's threshold strictly below it, thresholds strictly descending and
    /// resolutions strictly coarsening with age.
    pub open spec fn wf(self) -> bool {
        &&& self.spec_max_retention() >= 1
        &&& forall|i: int|
            0 <= i < self.rules().len() ==> 1 <= (#[trigger] self.rules()[i]).0
                < self.spec_max_retention()
        &&& forall|i: int, j: int|
            0 <= i < j < self.rules().len() ==> (#[trigger] self.rules()[j]).0 < (
            #[trigger] self.rules()[i]).0 && self.rules()[i].1.idx() < self.rules()[j].1.idx()
    }

    /// Start building a policy.
    pub fn new() -> (r: PolicyBuilder)
        ensures
            r@ == Seq::<(u16, Resolution)>::empty(),
    {
        PolicyBuilder { rules: Vec::new() }
    }

    /// The finest resolution the policy ever stores: the resolution of the
    /// most recent rule given to the builder.
    pub fn max_res(&self) -> (r: Resolution)
        ensures
            r == self.spec_max_res(),
    {
        self.max_res
    }

    /// The age in days past which entries are discarded: the largest day count
    /// given to the builder.
    pub fn max_retention(&self) -> (r: u16)
        ensures
            r == self.spec_max_retention(),
    {
        self.max_retention
    }

    /// How many compaction rules the policy holds (one fewer than the rules
    /// given to the builder survive deduplication; the oldest becomes the
    /// discard threshold).
    pub fn rule_count(&self) -> (r: usize)
        ensures
            r == self.rules().len(),
    {
        self.rules.len()
    }

    /// The `i`-th compaction rule, oldest and coarsest first.
    pub fn rule_at(&self, i: usize) -> (r: (u16, Resolution))
        requires
            i < self.rules().len(),
        ensures
            r == self.rules()[i as int],
    {
        self.rules[i]
    }
}

impl PartialEq for Policy {
    fn eq(&self, other: &Self) -> (r: bool) {
        if self.max_retention != other.max_retention {
            return false;
        }
        if self.max_res.index() != other.max_res.index() {
            proof {
                crate::resolution::lemma_idx_range(self.max_res);
                crate::resolution::lemma_idx_range(other.max_res);
            }
            return false;
        }
        proof {
            crate::resolution::lemma_idx_range(self.max_res);
            crate::resolution::lemma_idx_range(other.max_res);
        }
        if self.rules.len() != other.rules.len() {
            proof {
                assert(self.rules@ != other.rules@);
            }
            return false;
        }
        let n = self.rules.len();
        let mut i: usize = 0;
        while i < n
            invariant
                i <= n,
                n == self.rules@.len() == other.rules@.len(),
                forall|j: int| 0 <= j < i ==> self.rules@[j] == other.rules@[j],
            decreases n - i,
        {
            let a = self.rules[i];
            let b = other.rules[i];
            if a.0 != b.0 {
                return false;
            }
            if a.1.index() != b.1.index() {
                proof {
                    crate::resolution::lemma_idx_range(a.1);
                    crate::resolution::lemma_idx_range(b.1);
                }
                return false;
            }
            proof {
                crate::resolution::lemma_idx_range(a.1);
                crate::resolution::lemma_idx_range(b.1);
            }
            i = i + 1;
        }
        proof {
            assert(self.rules@ =~= other.rules@);
        }
        true
    }
}

impl vstd::std_specs::cmp::PartialEqSpecImpl for Policy {
    open spec fn obeys_eq_spec() -> bool {
        true
    }

    open spec fn eq_spec(&self, other: &Self) -> bool {
        self.rules() == other.rules() && self.spec_max_res() == other.spec_max_res()
            && self.spec_max_retention() == other.spec_max_retention()
    }
}

/// Collects retention rules for [`Policy`]; `build` validates them.
pub struct PolicyBuilder {
    rules: Vec<(u16, Resolution)>,
}

impl View for PolicyBuilder {
    type V = Seq<(u16, Resolution)>;

    closed spec fn view(&self) -> Seq<(u16, Resolution)> {
        self.rules@
    }
}

impl Default for PolicyBuilder {
    fn default() -> (r: Self)
        ensures
            r@ == Seq::<(u16, Resolution)>::empty(),
    {
        PolicyBuilder { rules: Vec::new() }
    }
}

/// Why a rule set was rejected.
#[derive(Clone, Copy, PartialEq, Eq, Structural, Debug)]
pub enum PolicyError {
    /// No rule was given: the policy would retain nothing.
    ZeroRetention,
    /// A rule was given with a day count of zero.
    PolicyAppliesForZeroDays,
    /// Some rule is redundant: it retains no longer than another rule while
    /// being at most as fine.
    SomePoliciesDominateOthers,
}

/// How a built policy's parts derive from the sorted, deduplicated rule
/// sequence: the oldest rule's day count is the discard threshold; each other
/// rule's day count is paired with the resolution of the next-older rule, so
/// that data older than that count falls back to the coarser resolution.
pub open spec fn derived_from(ss: Seq<(u16, Resolution)>, p: Policy) -> bool {
    &&& ss.len() >= 1
    &&& p.spec_max_retention() == ss[0].0
    &&& p.spec_max_res() == ss[ss.len() - 1].1
    &&& p.rules().len() == ss.len() - 1
    &&& forall|i: int|
        0 <= i < ss.len() - 1 ==> (#[trigger] p.rules()[i]) == (ss[i + 1].0, ss[i].1)
}

/// The policy is derived from the unique descending ordering of the rule set.
pub open spec fn policy_of(s: Set<(u16, Resolution)>, p: Policy) -> bool {
    exists|ss: Seq<(u16, Resolution)>|
        sorted_desc(ss) && #[trigger] ss.to_set() == s && derived_from(ss, p)
}

/// What `PolicyBuilder::build` returns for a given rule sequence: exactly one
/// of the three errors, each on exactly the inputs that provoke it, or a
/// policy derived from the sorted rule set.
pub open spec fn build_result(inp: Seq<(u16, Resolution)>, r: Result<Policy, PolicyError>) -> bool {
    match r {
        Result::Err(e) => {
            &&& (e == PolicyError::ZeroRetention <==> inp.len() == 0)
            &&& (e == PolicyError::PolicyAppliesForZeroDays <==> inp.len() > 0 && has_zero_days(
                inp,
            ))
            &&& (e == PolicyError::SomePoliciesDominateOthers <==> inp.len() > 0 && !has_zero_days(
                inp,
            ) && !compatible(inp.to_set()))
        },
        Result::Ok(p) => {
            &&& inp.len() > 0
            &&& !has_zero_days(inp)
            &&& compatible(inp.to_set())
            &&& p.wf()
            &&& policy_of(inp.to_set(), p)
        },
    }
}

impl PolicyBuilder {
    /// Allow this policy to keep data at resolution `res` for up to `num_days`
    /// days.  No validation happens here.
    pub fn keep_for_days(self, num_days: u16, res: Resolution) -> (r: Self)
        ensures
            r@ == self@.push((num_days, res)),
    {
        let mut rules = self.rules;
        rules.push((num_days, res));
        PolicyBuilder { rules }
    }

    /// Validate the collected rules and finalize the policy: sort the rules
    /// from oldest to newest, drop exact duplicates, reject empty rule sets,
    /// zero-day rules and dominated rules, and derive the discard threshold
    /// and the finest stored resolution.
    pub fn build(self) -> (r: Result<Policy, PolicyError>)
        ensures
            build_result(self@, r),
    {
        let v = self.rules;
        if v.len() == 0 {
            return Result::Err(PolicyError::ZeroRetention);
        }
        if any_zero_days(&v) {
            return Result::Err(PolicyError::PolicyAppliesForZeroDays);
        }
        let ss = sorted_dedup(&v);
        proof {
            assert(ss@.to_set().contains(v@[0])) by {
                assert(v@.contains(v@[0]));
            }
            assert(ss@.len() >= 1) by {
                if ss@.len() == 0 {
                    assert(!ss@.contains(v@[0]));
                }
            }
        }
        if let Option::Some((a, b)) = find_violation(&ss) {
            proof {
                lemma_rule_order(a, b);
                assert(!compatible(v@.to_set())) by {
                    assert(v@.to_set().contains(a) && v@.to_set().contains(b));
                    assert(!((a.0 == b.0 ==> a.1 == b.1) && (a.0 > b.0 ==> a.1.idx()
                        < b.1.idx()))) by {
                        crate::resolution::lemma_idx_range(a.1);
                        crate::resolution::lemma_idx_range(b.1);
                    }
                }
            }
            return Result::Err(PolicyError::SomePoliciesDominateOthers);
        }
        proof {
            lemma_sorted_strict_compatible(ss@, v@.to_set());
        }
        // Derive: the oldest rule's day count is the discard threshold; each
        // remaining day count is paired with the next-older resolution.
        let m = ss.len();
        let max_retention = ss[0].0;
        let max_res = ss[m - 1].1;
        let mut rules: Vec<(u16, Resolution)> = Vec::new();
        let mut i: usize = 0;
        while i + 1 < m
            invariant
                i < m == ss@.len(),
                m >= 1,
                rules@.len() == i,
                forall|j: int| 0 <= j < i ==> (#[trigger] rules@[j]) == (ss@[j + 1].0, ss@[j].1),
            decreases m - i,
        {
            rules.push((ss[i + 1].0, ss[i].1));
            i = i + 1;
        }
        let p = Policy { rules, max_res, max_retention };
        proof {
            assert(ss@.to_set().contains(ss@[0]));
            assert(v@.contains(ss@[0]));
            let k0 = choose|k: int| 0 <= k < v@.len() && v@[k] == ss@[0];
            assert(ss@[0].0 >= 1) by {
                assert(v@[k0].0 != 0);
            }
            assert(p.wf()) by {
                assert forall|j: int| 0 <= j < p.rules().len() implies 1 <= (
                #[trigger] p.rules()[j]).0 < p.spec_max_retention() by {
                    assert(p.rules()[j] == (ss@[j + 1].0, ss@[j].1));
                    assert(ss@.to_set().contains(ss@[j + 1]));
                    assert(v@.contains(ss@[j + 1]));
                    let k = choose|k: int| 0 <= k < v@.len() && v@[k] == ss@[j + 1];
                    assert(v@[k].0 != 0);
                    if j + 1 > 0 {
                        assert(rule_lt(ss@[j + 1], ss@[0]));
                    }
                }
                assert forall|a: int, b: int| 0 <= a < b < p.rules().len() implies (
                #[trigger] p.rules()[b]).0 < (#[trigger] p.rules()[a]).0 && p.rules()[a].1.idx()
                    < p.rules()[b].1.idx() by {
                    assert(p.rules()[a] == (ss@[a + 1].0, ss@[a].1));
                    assert(p.rules()[b] == (ss@[b + 1].0, ss@[b].1));
                    assert(rule_lt(ss@[b + 1], ss@[a + 1]));
                    lemma_sorted_strict_pairwise_outer(ss@, a, b);
                }
            }
            assert(derived_from(ss@, p));
            assert(policy_of(v@.to_set(), p));
        }
        Result::Ok(p)
    }
}

/// Whether some rule applies for zero days.
fn any_zero_days(v: &Vec<(u16, Resolution)>) -> (r: bool)
    ensures
        r == has_zero_days(v@),
{
    let n = v.len();
    let mut i: usize = 0;
    while i < n
        invariant
            i <= n,
            n == v@.len(),
            forall|j: int| 0 <= j < i ==> (#[trigger] v@[j]).0 != 0,
        decreases n - i,
    {
        if v[i].0 == 0 {
            return true;
        }
        i = i + 1;
    }
    false
}

/// Sort the rules in descending (days, resolution) order, dropping exact
/// duplicates, by insertion into an already-sorted vector.
#[verifier::rlimit(40)]
fn sorted_dedup(v: &Vec<(u16, Resolution)>) -> (ss: Vec<(u16, Resolution)>)
    ensures
        sorted_desc(ss@),
        ss@.to_set() == v@.to_set(),
{
    let n = v.len();
    let mut ss: Vec<(u16, Resolution)> = Vec::new();
    let mut i: usize = 0;
    while i < n
        invariant
            i <= n,
            n == v@.len(),
            sorted_desc(ss@),
            ss@.to_set() == v@.take(i as int).to_set(),
        decreases n - i,
    {
        let cur = v[i];
        let mut pos: usize = 0;
        while pos < ss.len() && rule_gt(ss[pos], cur)
            invariant
                pos <= ss@.len(),
                forall|j: int| 0 <= j < pos ==> rule_lt(cur, #[trigger] ss@[j]),
            decreases ss@.len() - pos,
        {
            pos = pos + 1;
        }
        let dup = pos < ss.len() && rule_eq(ss[pos], cur);
        proof {
            assert(v@.take(i + 1 as int).drop_last() =~= v@.take(i as int));
            assert(v@.take(i + 1 as int).last() == cur);
            assert(v@.take(i + 1 as int) =~= v@.take(i as int).push(cur));
            v@.take(i as int).lemma_push_to_set_commute(cur);
        }
        if dup {
            proof {
                assert(ss@.to_set().contains(cur)) by {
                    assert(ss@.contains(cur));
                }
                assert(ss@.to_set().insert(cur) =~= ss@.to_set());
            }
        } else {
            proof {
                if pos < ss@.len() as usize {
                    lemma_rule_order(cur, ss@[pos as int]);
                }
                ss@.insert_ensures(pos as int, cur);
                lemma_insert_to_set(ss@, pos as int, cur);
                let s2 = ss@.insert(pos as int, cur);
                assert forall|a: int, b: int| 0 <= a < b < s2.len() implies rule_lt(
                    s2[b],
                    s2[a],
                ) by {
                    if b < pos {
                        assert(s2[a] == ss@[a] && s2[b] == ss@[b]);
                    } else if a == pos as int {
                        assert(s2[a] == cur);
                        assert(s2[b] == ss@[b - 1]);
                        assert(rule_lt(ss@[pos as int], cur));
                        if b - 1 > pos {
                            assert(rule_lt(ss@[b - 1], ss@[pos as int]));
                        }
                    } else if b == pos as int {
                        assert(s2[b] == cur);
                        assert(s2[a] == ss@[a]);
                        assert(rule_lt(cur, ss@[a]));
                    } else if a > pos {
                        assert(s2[a] == ss@[a - 1] && s2[b] == ss@[b - 1]);
                    } else {
                        // a < pos < b
                        assert(s2[a] == ss@[a] && s2[b] == ss@[b - 1]);
                        assert(rule_lt(ss@[pos as int], cur));
                        if b - 1 == pos as int {
                            assert(rule_lt(cur, ss@[a]));
                            assert(rule_lt(s2[b], ss@[a]));
                        } else {
                            assert(rule_lt(ss@[b - 1], ss@[a]));
                        }
                    }
                }
                assert(sorted_desc(s2));
            }
            ss.insert(pos, cur);
        }
        i = i + 1;
    }
    proof {
        assert(v@.take(n as int) =~= v@);
    }
    ss
}

/// Find an adjacent pair of the sorted rules where descending days do not come
/// with strictly ascending fineness: a witness that some rule is dominated.
fn find_violation(ss: &Vec<(u16, Resolution)>) -> (r: Option<
    ((u16, Resolution), (u16, Resolution)),
>)
    requires
        sorted_desc(ss@),
    ensures
        match r {
            Option::Some(pair) => {
                &&& ss@.contains(pair.0)
                &&& ss@.contains(pair.1)
                &&& rule_lt(pair.1, pair.0)
                &&& (pair.1.0 >= pair.0.0 || pair.0.1.idx() >= pair.1.1.idx())
            },
            Option::None => forall|j: int|
                0 <= j < ss@.len() - 1 ==> (#[trigger] ss@[j]).1.idx() < ss@[j + 1].1.idx() && ss@[
                    j + 1
                ].0 < ss@[j].0,
        },
{
    let m = ss.len();
    if m == 0 {
        return Option::None;
    }
    let mut i: usize = 0;
    while i + 1 < m
        invariant
            i < m == ss@.len(),
            sorted_desc(ss@),
            forall|j: int|
                0 <= j < i ==> (#[trigger] ss@[j]).1.idx() < ss@[j + 1].1.idx() && ss@[j + 1].0
                    < ss@[j].0,
        decreases m - i,
    {
        let a = ss[i];
        let b = ss[i + 1];
        proof {
            crate::resolution::lemma_idx_range(a.1);
            crate::resolution::lemma_idx_range(b.1);
            assert(rule_lt(ss@[i + 1], ss@[i as int]));
        }
        if b.0 >= a.0 || a.1.index() >= b.1.index() {
            proof {
                assert(ss@.contains(a) && ss@.contains(b));
            }
            return Option::Some((a, b));
        }
        i = i + 1;
    }
    Option::None
}

/// Pairwise strict ordering, restated for any index pair.
proof fn lemma_sorted_strict_pairwise_outer(ss: Seq<(u16, Resolution)>, a: int, b: int)
    requires
        forall|k: int|
            0 <= k < ss.len() - 1 ==> (#[trigger] ss[k]).1.idx() < ss[k + 1].1.idx() && ss[k
                + 1].0 < ss[k].0,
        0 <= a < b < ss.len(),
    ensures
        ss[b].0 < ss[a].0,
        ss[a].1.idx() < ss[b].1.idx(),
{
    lemma_sorted_strict_pairwise(ss, a, b);
}

/// Exec comparison: `a` comes strictly before `b` in the descending order.
fn rule_gt(a: (u16, Resolution), b: (u16, Resolution)) -> (r: bool)
    ensures
        r == rule_lt(b, a),
{
    proof {
        crate::resolution::lemma_idx_range(a.1);
        crate::resolution::lemma_idx_range(b.1);
    }
    a.0 > b.0 || (a.0 == b.0 && a.1.index() > b.1.index())
}

/// Exec equality of rules.
fn rule_eq(a: (u16, Resolution), b: (u16, Resolution)) -> (r: bool)
    ensures
        r == (a == b),
{
    proof {
        crate::resolution::lemma_idx_range(a.1);
        crate::resolution::lemma_idx_range(b.1);
    }
    a.0 == b.0 && a.1.index() == b.1.index()
}

/// The rule order is a strict total order.
proof fn lemma_rule_order(a: (u16, Resolution), b: (u16, Resolution))
    ensures
        rule_lt(a, b) || rule_lt(b, a) || a == b,
        !(rule_lt(a, b) && rule_lt(b, a)),
        !(rule_lt(a, b) && a == b),
{
    crate::resolution::lemma_idx_range(a.1);
    crate::resolution::lemma_idx_range(b.1);
}

/// Inserting into a sequence inserts into its set of elements.
proof fn lemma_insert_to_set(s: Seq<(u16, Resolution)>, pos: int, x: (u16, Resolution))
    requires
        0 <= pos <= s.len(),
    ensures
        s.insert(pos, x).to_set() == s.to_set().insert(x),
{
    let s2 = s.insert(pos, x);
    s.insert_ensures(pos, x);
    assert forall|y: (u16, Resolution)| s2.to_set().contains(y) implies s.to_set().insert(
        x,
    ).contains(y) by {
        assert(s2.contains(y));
        let k = choose|k: int| 0 <= k < s2.len() && s2[k] == y;
        if k < pos {
            assert(s[k] == y);
            assert(s.contains(y));
        } else if k == pos {
        } else {
            assert(s2[(k - 1) + 1] == s[k - 1]);
            assert(s.contains(y));
        }
    }
    assert forall|y: (u16, Resolution)| s.to_set().insert(x).contains(y) implies s2.to_set()
        .contains(y) by {
        if y == x {
            assert(s2[pos] == y);
            assert(s2.contains(y));
        } else {
            assert(s.contains(y));
            let k = choose|k: int| 0 <= k < s.len() && s[k] == y;
            if k < pos {
                assert(s2[k] == y);
            } else {
                assert(s2[k + 1] == y);
            }
            assert(s2.contains(y));
        }
    }
    assert(s2.to_set() =~= s.to_set().insert(x));
}

/// A strictly descending sequence whose resolutions strictly ascend in
/// fineness has a compatible element set.
proof fn lemma_sorted_strict_compatible(ss: Seq<(u16, Resolution)>, s: Set<(u16, Resolution)>)
    requires
        sorted_desc(ss),
        ss.to_set() == s,
        forall|j: int|
            0 <= j < ss.len() - 1 ==> (#[trigger] ss[j]).1.idx() < ss[j + 1].1.idx() && ss[j
                + 1].0 < ss[j].0,
    ensures
        compatible(s),
{
    assert forall|i: int, j: int| 0 <= i < j < ss.len() implies (#[trigger] ss[j]).0 < ss[i].0 && (
    #[trigger] ss[i]).1.idx() < ss[j].1.idx() by {
        lemma_sorted_strict_pairwise(ss, i, j);
    }
    assert forall|a: (u16, Resolution), b: (u16, Resolution)|
        #[trigger] s.contains(a) && #[trigger] s.contains(b) implies ((a.0 == b.0 ==> a.1 == b.1)
        && (a.0 > b.0 ==> a.1.idx() < b.1.idx())) by {
        assert(ss.contains(a));
        assert(ss.contains(b));
        let i = choose|i: int| 0 <= i < ss.len() && ss[i] == a;
        let j = choose|j: int| 0 <= j < ss.len() && ss[j] == b;
        if i < j {
            lemma_sorted_strict_pairwise(ss, i, j);
        } else if j < i {
            lemma_sorted_strict_pairwise(ss, j, i);
        }
        crate::resolution::lemma_idx_range(a.1);
        crate::resolution::lemma_idx_range(b.1);
    }
}

/// Pairwise form of the adjacent strict ordering facts.
proof fn lemma_sorted_strict_pairwise(ss: Seq<(u16, Resolution)>, i: int, j: int)
    requires
        forall|k: int|
            0 <= k < ss.len() - 1 ==> (#[trigger] ss[k]).1.idx() < ss[k + 1].1.idx() && ss[k
                + 1].0 < ss[k].0,
        0 <= i < j < ss.len(),
    ensures
        ss[j].0 < ss[i].0,
        ss[i].1.idx() < ss[j].1.idx(),
    decreases j - i,
{
    if j == i + 1 {
    } else {
        lemma_sorted_strict_pairwise(ss, i, j - 1);
        assert(ss[j - 1].1.idx() < ss[(j - 1) + 1].1.idx() && ss[(j - 1) + 1].0 < ss[j - 1].0);
    }
}

/// Two strictly descending sequences with the same element set are the same
/// sequence: a policy is determined by its rule set.
pub proof fn lemma_sorted_desc_unique(s1: Seq<(u16, Resolution)>, s2: Seq<(u16, Resolution)>)
    requires
        sorted_desc(s1),
        sorted_desc(s2),
        s1.to_set() == s2.to_set(),
    ensures
        s1 == s2,
    decreases s1.len(),
{
    if s1.len() == 0 {
        if s2.len() > 0 {
            assert(s2.to_set().contains(s2[0]));
            assert(s1.contains(s2[0]));
        }
        assert(s1 =~= s2);
    } else {
        assert(s1.to_set().contains(s1[0]));
        assert(s2.contains(s1[0]));
        if s2.len() == 0 {
            assert(s2.to_set().contains(s1[0]));
        }
        assert(s2.to_set().contains(s2[0]));
        assert(s1.contains(s2[0]));
        let k1 = choose|k: int| 0 <= k < s2.len() && s2[k] == s1[0];
        let k2 = choose|k: int| 0 <= k < s1.len() && s1[k] == s2[0];
        lemma_rule_order(s1[0], s2[0]);
        if k1 > 0 && k2 > 0 {
            assert(rule_lt(s2[k1], s2[0]));
            assert(rule_lt(s1[k2], s1[0]));
        }
        assert(s1[0] == s2[0]);
        let t1 = s1.drop_first();
        let t2 = s2.drop_first();
        assert(sorted_desc(t1)) by {
            assert forall|a: int, b: int| 0 <= a < b < t1.len() implies rule_lt(t1[b], t1[a]) by {
                assert(t1[a] == s1[a + 1] && t1[b] == s1[b + 1]);
            }
        }
        assert(sorted_desc(t2)) by {
            assert forall|a: int, b: int| 0 <= a < b < t2.len() implies rule_lt(t2[b], t2[a]) by {
                assert(t2[a] == s2[a + 1] && t2[b] == s2[b + 1]);
            }
        }
        lemma_drop_first_to_set(s1);
        lemma_drop_first_to_set(s2);
        lemma_sorted_desc_unique(t1, t2);
        assert(s1 =~= s2) by {
            assert forall|i: int| 0 <= i < s1.len() implies s1[i] == s2[i] by {
                if i > 0 {
                    assert(t1[i - 1] == s1[i] && t2[i - 1] == s2[i]);
                }
            }
        }
    }
}

/// Dropping the head of a strictly descending sequence removes exactly the
/// head from its element set.
proof fn lemma_drop_first_to_set(s: Seq<(u16, Resolution)>)
    requires
        sorted_desc(s),
        s.len() >= 1,
    ensures
        s.drop_first().to_set() == s.to_set().remove(s[0]),
{
    let t = s.drop_first();
    assert forall|y: (u16, Resolution)| t.to_set().contains(y) implies s.to_set().remove(
        s[0],
    ).contains(y) by {
        assert(t.contains(y));
        let k = choose|k: int| 0 <= k < t.len() && t[k] == y;
        assert(s[k + 1] == y);
        assert(s.contains(y));
        assert(rule_lt(s[k + 1], s[0]));
        lemma_rule_order(y, s[0]);
    }
    assert forall|y: (u16, Resolution)| s.to_set().remove(s[0]).contains(y) implies t.to_set()
        .contains(y) by {
        assert(s.contains(y));
        let k = choose|k: int| 0 <= k < s.len() && s[k] == y;
        if k == 0 {
        } else {
            assert(t[k - 1] == y);
            assert(t.contains(y));
        }
    }
    assert(t.to_set() =~= s.to_set().remove(s[0]));
}

/// Equal rule sets yield equal policies: two successful builds from rule
/// sequences with the same set of rules agree on every observable of the
/// policy, and so compare equal.
pub proof fn lemma_equal_rule_sets_equal_policies(
    s: Set<(u16, Resolution)>,
    p1: Policy,
    p2: Policy,
)
    requires
        policy_of(s, p1),
        policy_of(s, p2),
    ensures
        p1.rules() == p2.rules(),
        p1.spec_max_res() == p2.spec_max_res(),
        p1.spec_max_retention() == p2.spec_max_retention(),
        p1.eq_spec(&p2),
{
    let ss1 = choose|ss: Seq<(u16, Resolution)>|
        sorted_desc(ss) && #[trigger] ss.to_set() == s && derived_from(ss, p1);
    let ss2 = choose|ss: Seq<(u16, Resolution)>|
        sorted_desc(ss) && #[trigger] ss.to_set() == s && derived_from(ss, p2);
    lemma_sorted_desc_unique(ss1, ss2);
    assert(p1.rules() =~= p2.rules());
}

} // verus!
