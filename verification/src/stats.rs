//! Per-file safety counters and their aggregation.
//!
//! A `CodeStats` record holds seven non-negative counters describing one
//! source file (or a whole project, as the field-wise sum over its files).
//! Aggregation saturates at `u64::MAX` instead of wrapping; the contracts
//! describe the result exactly as the clamped mathematical sum.

use vstd::prelude::*;

verus! {

/// Safety counters for one file, or the field-wise total over many files.
#[derive(Clone, Copy, Debug, PartialEq, Eq, Structural)]
pub struct CodeStats {
    pub static_mut_items: u64,
    pub total_fns: u64,
    pub total_lines: u64,
    pub total_statements: u64,
    pub unsafe_fns: u64,
    pub unsafe_statements: u64,
    pub unwraps: u64,
}

/// Mathematical value of a `CodeStats`: the same seven counters as
/// unbounded naturals.
pub ghost struct StatsModel {
    pub static_mut_items: nat,
    pub total_fns: nat,
    pub total_lines: nat,
    pub total_statements: nat,
    pub unsafe_fns: nat,
    pub unsafe_statements: nat,
    pub unwraps: nat,
}

impl View for CodeStats {
    type V = StatsModel;

    open spec fn view(&self) -> StatsModel {
        StatsModel {
            static_mut_items: self.static_mut_items as nat,
            total_fns: self.total_fns as nat,
            total_lines: self.total_lines as nat,
            total_statements: self.total_statements as nat,
            unsafe_fns: self.unsafe_fns as nat,
            unsafe_statements: self.unsafe_statements as nat,
            unwraps: self.unwraps as nat,
        }
    }
}

pub open spec fn stats_zero() -> StatsModel {
    StatsModel {
        static_mut_items: 0,
        total_fns: 0,
        total_lines: 0,
        total_statements: 0,
        unsafe_fns: 0,
        unsafe_statements: 0,
        unwraps: 0,
    }
}

pub open spec fn stats_add(a: StatsModel, b: StatsModel) -> StatsModel {
    StatsModel {
        static_mut_items: a.static_mut_items + b.static_mut_items,
        total_fns: a.total_fns + b.total_fns,
        total_lines: a.total_lines + b.total_lines,
        total_statements: a.total_statements + b.total_statements,
        unsafe_fns: a.unsafe_fns + b.unsafe_fns,
        unsafe_statements: a.unsafe_statements + b.unsafe_statements,
        unwraps: a.unwraps + b.unwraps,
    }
}

/// A counter larger than `u64::MAX` saturates to `u64::MAX`.
pub open spec fn sat64(n: nat) -> nat {
    if n > u64::MAX { u64::MAX as nat } else { n }
}

pub open spec fn stats_clamp(a: StatsModel) -> StatsModel {
    StatsModel {
        static_mut_items: sat64(a.static_mut_items),
        total_fns: sat64(a.total_fns),
        total_lines: sat64(a.total_lines),
        total_statements: sat64(a.total_statements),
        unsafe_fns: sat64(a.unsafe_fns),
        unsafe_statements: sat64(a.unsafe_statements),
        unwraps: sat64(a.unwraps),
    }
}

/// Field-wise sum of a sequence of records, as unbounded naturals.
pub open spec fn spec_sum(s: Seq<CodeStats>) -> StatsModel
    decreases s.len(),
{
    if s.len() == 0 {
        stats_zero()
    } else {
        stats_add(spec_sum(s.drop_last()), s.last()@)
    }
}

/// Clamping the left summand first does not change the clamped sum.
pub proof fn lemma_clamp_add_left(a: StatsModel, b: StatsModel)
    ensures
        stats_clamp(stats_add(stats_clamp(a), b)) == stats_clamp(stats_add(a, b)),
{
}

/// Clamping the right summand first does not change the clamped sum.
pub proof fn lemma_clamp_add_right(a: StatsModel, b: StatsModel)
    ensures
        stats_clamp(stats_add(a, stats_clamp(b))) == stats_clamp(stats_add(a, b)),
{
}

pub(crate) fn sat_add(a: u64, b: u64) -> (r: u64)
    ensures
        r as nat == sat64(a as nat + b as nat),
{
    if a > u64::MAX - b {
        u64::MAX
    } else {
        a + b
    }
}

/// Removing one element takes its contribution out of the sum.
proof fn lemma_sum_remove(s: Seq<CodeStats>, i: int)
    requires
        0 <= i < s.len(),
    ensures
        spec_sum(s) == stats_add(spec_sum(s.remove(i)), s[i]@),
    decreases s.len(),
{
    if i == s.len() - 1 {
        assert(s.remove(i) =~= s.drop_last());
    } else {
        lemma_sum_remove(s.drop_last(), i);
        assert(s.remove(i).drop_last() =~= s.drop_last().remove(i));
        assert(s.remove(i).last() == s.last());
    }
}

/// Aggregation is order-independent: two sequences holding the same records
/// (as a multiset) have the same field-wise sum.
pub proof fn lemma_sum_permutation(a: Seq<CodeStats>, b: Seq<CodeStats>)
    requires
        a.to_multiset() == b.to_multiset(),
    ensures
        spec_sum(a) == spec_sum(b),
    decreases a.len(),
{
    broadcast use vstd::seq_lib::group_to_multiset_ensures;

    a.to_multiset_ensures();
    b.to_multiset_ensures();
    if a.len() == 0 {
        assert(b.to_multiset().len() == 0);
    } else {
        let x = a.last();
        let ad = a.drop_last();
        assert(a =~= ad.push(x));
        assert(a.to_multiset() == ad.to_multiset().insert(x));
        assert(b.to_multiset().count(x) > 0);
        let j = b.lemma_contains_to_index(x);
        let bd = b.remove(j);
        assert(bd.to_multiset() =~= b.to_multiset().remove(x));
        assert(ad.to_multiset() =~= a.to_multiset().remove(x));
        lemma_sum_permutation(ad, bd);
        lemma_sum_remove(b, j);
    }
}

impl CodeStats {
    /// Field-wise saturating addition of two records.
    pub fn plus(&self, rhs: &CodeStats) -> (r: CodeStats)
        ensures
            r@ == stats_clamp(stats_add(self@, rhs@)),
    {
        CodeStats {
            static_mut_items: sat_add(self.static_mut_items, rhs.static_mut_items),
            total_fns: sat_add(self.total_fns, rhs.total_fns),
            total_lines: sat_add(self.total_lines, rhs.total_lines),
            total_statements: sat_add(self.total_statements, rhs.total_statements),
            unsafe_fns: sat_add(self.unsafe_fns, rhs.unsafe_fns),
            unsafe_statements: sat_add(self.unsafe_statements, rhs.unsafe_statements),
            unwraps: sat_add(self.unwraps, rhs.unwraps),
        }
    }

    /// Field-wise sum of a collection of records; each counter saturates
    /// at `u64::MAX`.
    pub fn sum(items: &Vec<CodeStats>) -> (r: CodeStats)
        ensures
            r@ == stats_clamp(spec_sum(items@)),
    {
        let mut acc = CodeStats::default();
        let mut i: usize = 0;
        while i < items.len()
            invariant
                0 <= i <= items@.len(),
                acc@ == stats_clamp(spec_sum(items@.take(i as int))),
            decreases items@.len() - i,
        {
            proof {
                let pre = items@.take(i as int);
                let post = items@.take(i as int + 1);
                assert(post.drop_last() =~= pre);
                lemma_clamp_add_left(spec_sum(pre), items@[i as int]@);
            }
            acc = acc.plus(&items[i]);
            i = i + 1;
        }
        proof {
            assert(items@.take(items@.len() as int) =~= items@);
        }
        acc
    }

    /// A record with no unsafe functions, no statements in unsafe regions,
    /// no mutable statics and no unwrap calls.
    pub fn is_perfect(&self) -> (r: bool)
        ensures
            r == (self.unsafe_fns == 0 && self.unsafe_statements == 0
                && self.static_mut_items == 0 && self.unwraps == 0),
    {
        self.unsafe_fns == 0 && self.unsafe_statements == 0 && self.static_mut_items == 0
            && self.unwraps == 0
    }

    /// Whether a file that went from `self` (before) to `rhs` (after) must
    /// appear in a diff: only the four safety-relevant counters take part;
    /// `total_fns`, `total_statements` and `total_lines` are ignored.
    pub fn should_report_change(&self, rhs: &Self) -> (r: bool)
        ensures
            r == report_change(*self, *rhs),
    {
        self.unsafe_fns != rhs.unsafe_fns || self.unsafe_statements != rhs.unsafe_statements
            || self.static_mut_items != rhs.static_mut_items || self.unwraps != rhs.unwraps
    }
}

/// The safety-relevant equality rule used by the diff engine, as a predicate
/// on the (before, after) pair.
pub open spec fn report_change(before: CodeStats, after: CodeStats) -> bool {
    before.unsafe_fns != after.unsafe_fns || before.unsafe_statements != after.unsafe_statements
        || before.static_mut_items != after.static_mut_items || before.unwraps != after.unwraps
}

/// Records that differ only in the cosmetic counters are never reported as
/// changed; records that differ in any safety counter always are.
pub proof fn lemma_report_change_safety_fields(before: CodeStats, after: CodeStats)
    ensures
        (before.unsafe_fns == after.unsafe_fns && before.unsafe_statements
            == after.unsafe_statements && before.static_mut_items == after.static_mut_items
            && before.unwraps == after.unwraps) ==> !report_change(before, after),
        before.unwraps != after.unwraps ==> report_change(before, after),
        before.unsafe_fns != after.unsafe_fns ==> report_change(before, after),
        before.unsafe_statements != after.unsafe_statements ==> report_change(before, after),
        before.static_mut_items != after.static_mut_items ==> report_change(before, after),
{
}

impl Default for CodeStats {
    /// The all-zero record.
    fn default() -> (r: Self)
        ensures
            r@ == stats_zero(),
    {
        CodeStats {
            static_mut_items: 0,
            total_fns: 0,
            total_lines: 0,
            total_statements: 0,
            unsafe_fns: 0,
            unsafe_statements: 0,
            unwraps: 0,
        }
    }
}

} // verus!
