//! Reports and the diff engine.
//!
//! A `Report` maps file identifiers to their `CodeStats`, kept as a list
//! of entries strictly sorted by filename, together with the field-wise
//! total.  Diffing two reports classifies every file of either report as
//! added, removed or changed under the safety-relevant equality rule;
//! files equal under that rule are dropped.  The contracts state the diff
//! as a mathematical map from filename to classification.

use vstd::prelude::*;

use crate::stats::{report_change, spec_sum, stats_clamp, CodeStats};
use crate::strorder::{
    lemma_str_lt_transitive, lemma_str_lt_trichotomy, str_compare, str_equal, str_lt, StrCmp,
};

verus! {

/// One file of a report.
pub struct FileEntry {
    pub filename: String,
    pub stats: CodeStats,
}

/// A report: per-file records sorted by filename, and their field-wise sum.
pub struct Report {
    pub files: Vec<FileEntry>,
    pub total: CodeStats,
}

/// A before/after pair.
#[derive(Clone, Copy, Debug)]
pub struct Change<T> {
    pub after: T,
    pub before: T,
}

/// Classification of one file in a diff.
pub enum Diff {
    Added(CodeStats),
    Changed(Change<CodeStats>),
    Removed(CodeStats),
}

/// The outcome of diffing two reports: both project totals, and the
/// classified files sorted by filename.
pub struct DiffReport {
    pub after_total: CodeStats,
    pub before_total: CodeStats,
    pub changes: Vec<(String, Diff)>,
}

impl<T> Change<T> {
    /// Applies `f` to both sides of the pair.
    pub fn project<U, F: Fn(&T) -> U>(&self, f: F) -> (r: Change<U>)
        requires
            call_requires(f, (&self.after,)),
            call_requires(f, (&self.before,)),
        ensures
            call_ensures(f, (&self.after,), r.after),
            call_ensures(f, (&self.before,), r.before),
    {
        Change { after: f(&self.after), before: f(&self.before) }
    }
}

pub open spec fn sorted_strict(s: Seq<FileEntry>) -> bool {
    forall|i: int, j: int|
        #![trigger s[i], s[j]]
        0 <= i < j < s.len() ==> str_lt(s[i].filename@, s[j].filename@)
}

pub open spec fn has_name(s: Seq<FileEntry>, n: Seq<char>) -> bool {
    exists|t: int| 0 <= t < s.len() && (#[trigger] s[t]).filename@ == n
}

/// The mapping an entry list stands for; a later entry overwrites an
/// earlier one of the same name.
pub open spec fn entries_map(s: Seq<FileEntry>) -> Map<Seq<char>, CodeStats>
    decreases s.len(),
{
    if s.len() == 0 {
        Map::empty()
    } else {
        entries_map(s.drop_last()).insert(s.last().filename@, s.last().stats)
    }
}

/// The per-file records of an entry list.
pub open spec fn stats_seq(s: Seq<FileEntry>) -> Seq<CodeStats> {
    s.map_values(|e: FileEntry| e.stats)
}

impl Report {
    /// Entries are strictly sorted by filename.
    pub open spec fn wf(&self) -> bool {
        sorted_strict(self.files@)
    }

    /// The mapping from filename to record.
    pub open spec fn map_view(&self) -> Map<Seq<char>, CodeStats> {
        entries_map(self.files@)
    }
}

pub proof fn lemma_entries_map_contains(s: Seq<FileEntry>, n: Seq<char>)
    ensures
        entries_map(s).contains_key(n) <==> has_name(s, n),
    decreases s.len(),
{
    if s.len() > 0 {
        lemma_entries_map_contains(s.drop_last(), n);
        if s.last().filename@ == n {
            assert(s[s.len() - 1].filename@ == n);
        } else {
            if has_name(s, n) {
                let t = choose|t: int| 0 <= t < s.len() && (#[trigger] s[t]).filename@ == n;
                assert(s.drop_last()[t] == s[t]);
            }
            if has_name(s.drop_last(), n) {
                let t = choose|t: int|
                    0 <= t < s.drop_last().len() && (#[trigger] s.drop_last()[t]).filename@ == n;
                assert(s[t] == s.drop_last()[t]);
            }
        }
    }
}

pub proof fn lemma_entries_map_value(s: Seq<FileEntry>, i: int)
    requires
        sorted_strict(s),
        0 <= i < s.len(),
    ensures
        entries_map(s).contains_key(s[i].filename@),
        entries_map(s)[s[i].filename@] == s[i].stats,
    decreases s.len(),
{
    if i == s.len() - 1 {
    } else {
        assert(forall|p: int, q: int|
            #![trigger s.drop_last()[p], s.drop_last()[q]]
            0 <= p < q < s.drop_last().len() ==> s.drop_last()[p] == s[p] && s.drop_last()[q]
                == s[q]);
        lemma_entries_map_value(s.drop_last(), i);
        assert(s.drop_last()[i] == s[i]);
        lemma_str_lt_trichotomy(s[i].filename@, s.last().filename@);
    }
}

/// A name smaller than everything from position `lo` on, and larger than
/// everything before `lo`, is not in the map.
proof fn lemma_outside_window(s: Seq<FileEntry>, lo: int, n: Seq<char>)
    requires
        sorted_strict(s),
        0 <= lo <= s.len(),
        forall|t: int| 0 <= t < lo ==> str_lt((#[trigger] s[t]).filename@, n),
        lo < s.len() ==> str_lt(n, s[lo].filename@),
    ensures
        !entries_map(s).contains_key(n),
{
    assert forall|t: int| 0 <= t < s.len() implies (#[trigger] s[t]).filename@ != n by {
        if t < lo {
            lemma_str_lt_trichotomy(s[t].filename@, n);
        } else {
            if t > lo {
                lemma_str_lt_transitive(n, s[lo].filename@, s[t].filename@);
            }
            lemma_str_lt_trichotomy(n, s[t].filename@);
        }
    }
    lemma_entries_map_contains(s, n);
    if has_name(s, n) {
        let t = choose|t: int| 0 <= t < s.len() && (#[trigger] s[t]).filename@ == n;
    }
}

/// The classification the diff gives one name, if any: a file in both
/// maps is `Changed` exactly when the safety-relevant counters differ, a
/// file in only one map is `Added` or `Removed`, and a file in both maps
/// with equal safety counters is dropped.
pub open spec fn diff_at(
    cur: Map<Seq<char>, CodeStats>,
    base: Map<Seq<char>, CodeStats>,
    n: Seq<char>,
) -> Option<Diff> {
    if base.contains_key(n) && cur.contains_key(n) {
        if report_change(base[n], cur[n]) {
            Some(Diff::Changed(Change { after: cur[n], before: base[n] }))
        } else {
            None
        }
    } else if cur.contains_key(n) {
        Some(Diff::Added(cur[n]))
    } else if base.contains_key(n) {
        Some(Diff::Removed(base[n]))
    } else {
        None
    }
}

/// The whole diff as a map: every name that `diff_at` classifies.
pub open spec fn spec_diff_map(
    cur: Map<Seq<char>, CodeStats>,
    base: Map<Seq<char>, CodeStats>,
) -> Map<Seq<char>, Diff> {
    Map::new(
        |n: Seq<char>| diff_at(cur, base, n) is Some,
        |n: Seq<char>| diff_at(cur, base, n)->0,
    )
}

pub open spec fn pairs_sorted(s: Seq<(String, Diff)>) -> bool {
    forall|i: int, j: int|
        #![trigger s[i], s[j]]
        0 <= i < j < s.len() ==> str_lt(s[i].0@, s[j].0@)
}

/// The mapping a change list stands for.
pub open spec fn changes_map(s: Seq<(String, Diff)>) -> Map<Seq<char>, Diff>
    decreases s.len(),
{
    if s.len() == 0 {
        Map::empty()
    } else {
        changes_map(s.drop_last()).insert(s.last().0@, s.last().1)
    }
}

pub proof fn lemma_changes_map_contains_entry(s: Seq<(String, Diff)>, k: int)
    requires
        0 <= k < s.len(),
    ensures
        changes_map(s).contains_key(s[k].0@),
    decreases s.len(),
{
    if k < s.len() - 1 {
        lemma_changes_map_contains_entry(s.drop_last(), k);
        assert(s.drop_last()[k] == s[k]);
    }
}

/// Which names the remaining part of a sorted list can still produce:
/// `n` lies strictly before position `i`'s name (or the list is spent).
pub open spec fn below_rest(s: Seq<FileEntry>, i: int, n: Seq<char>) -> bool {
    i >= s.len() || str_lt(n, s[i].filename@)
}

/// The names settled once the merge has consumed `i` entries of `a` and
/// `j` entries of `b`.
pub open spec fn settled(a: Seq<FileEntry>, b: Seq<FileEntry>, i: int, j: int) -> Set<
    Seq<char>,
> {
    Set::new(|n: Seq<char>| below_rest(a, i, n) && below_rest(b, j, n))
}

impl Report {
    /// Classifies every file of this report (the "after" side) against a
    /// baseline (the "before" side).  The change list is sorted by
    /// filename and holds exactly the classified names.
    pub fn diff(&self, baseline: &Self) -> (r: DiffReport)
        requires
            self.wf(),
            baseline.wf(),
        ensures
            r.after_total == self.total,
            r.before_total == baseline.total,
            pairs_sorted(r.changes@),
            changes_map(r.changes@) == spec_diff_map(self.map_view(), baseline.map_view()),
    {
        let a = &self.files;
        let b = &baseline.files;
        let ghost cmap = entries_map(a@);
        let ghost bmap = entries_map(b@);
        let ghost dmap = spec_diff_map(cmap, bmap);
        let mut out: Vec<(String, Diff)> = Vec::new();
        let mut i: usize = 0;
        let mut j: usize = 0;
        proof {
            assert forall|n: Seq<char>| #[trigger]
                settled(a@, b@, 0, 0).contains(n) implies !dmap.contains_key(n) by {
                lemma_outside_window(a@, 0, n);
                lemma_outside_window(b@, 0, n);
            }
            assert(changes_map(out@) =~= dmap.restrict(settled(a@, b@, 0, 0)));
        }
        while i < a.len() || j < b.len()
            invariant
                self.wf(),
                baseline.wf(),
                a@ == self.files@,
                b@ == baseline.files@,
                cmap == entries_map(a@),
                bmap == entries_map(b@),
                dmap == spec_diff_map(cmap, bmap),
                0 <= i <= a@.len(),
                0 <= j <= b@.len(),
                forall|t: int, s: int|
                    #![trigger b@[t], a@[s]]
                    0 <= t < j && i <= s < a@.len() ==> str_lt(b@[t].filename@, a@[s].filename@),
                forall|t: int, s: int|
                    #![trigger a@[t], b@[s]]
                    0 <= t < i && j <= s < b@.len() ==> str_lt(a@[t].filename@, b@[s].filename@),
                pairs_sorted(out@),
                forall|p: int, s: int|
                    #![trigger out@[p], a@[s]]
                    0 <= p < out@.len() && i <= s < a@.len() ==> str_lt(
                        out@[p].0@,
                        a@[s].filename@,
                    ),
                forall|p: int, s: int|
                    #![trigger out@[p], b@[s]]
                    0 <= p < out@.len() && j <= s < b@.len() ==> str_lt(
                        out@[p].0@,
                        b@[s].filename@,
                    ),
                changes_map(out@) == dmap.restrict(settled(a@, b@, i as int, j as int)),
            decreases (a@.len() - i) + (b@.len() - j),
        {
            let mut take_a = false;
            let mut take_b = false;
            if j == b.len() {
                take_a = true;
            } else if i == a.len() {
                take_b = true;
            } else {
                match str_compare(a[i].filename.as_str(), b[j].filename.as_str()) {
                    StrCmp::Less => {
                        take_a = true;
                    },
                    StrCmp::Greater => {
                        take_b = true;
                    },
                    StrCmp::Equal => {
                        take_a = true;
                        take_b = true;
                    },
                }
            }
            let ghost pre_set = settled(a@, b@, i as int, j as int);
            if take_a && take_b {
                let ghost n0 = a@[i as int].filename@;
                let ghost post_set = settled(a@, b@, i as int + 1, j as int + 1);
                proof {
                    lemma_entries_map_value(a@, i as int);
                    lemma_entries_map_value(b@, j as int);
                    assert(b@[j as int].filename@ == n0);
                    lemma_settled_step(a@, b@, i as int, j as int, i as int + 1, j as int + 1, cmap, bmap, n0);
                }
                let before = b[j].stats;
                let after = a[i].stats;
                if before.should_report_change(&after) {
                    let name = a[i].filename.clone();
                    let pair = (name, Diff::Changed(Change { after, before }));
                    proof {
                        assert(out@.push(pair).drop_last() =~= out@);
                        assert(diff_at(cmap, bmap, n0) == Some(pair.1));
                        assert(changes_map(out@.push(pair)) =~= dmap.restrict(post_set));
                    }
                    out.push(pair);
                } else {
                    proof {
                        assert(diff_at(cmap, bmap, n0) is None);
                        assert(changes_map(out@) =~= dmap.restrict(post_set));
                    }
                }
                proof {
                    lemma_frontier_after_step(a@, b@, i as int, j as int, i as int + 1, j as int + 1);
                }
                i = i + 1;
                j = j + 1;
            } else if take_a {
                let ghost n0 = a@[i as int].filename@;
                let ghost post_set = settled(a@, b@, i as int + 1, j as int);
                proof {
                    lemma_entries_map_value(a@, i as int);
                    assert forall|t: int| 0 <= t < j as int implies str_lt(
                        (#[trigger] b@[t]).filename@,
                        n0,
                    ) by {}
                    lemma_outside_window(b@, j as int, n0);
                    lemma_settled_step(a@, b@, i as int, j as int, i as int + 1, j as int, cmap, bmap, n0);
                    assert(diff_at(cmap, bmap, n0) == Some(Diff::Added(a@[i as int].stats)));
                }
                let name = a[i].filename.clone();
                let pair = (name, Diff::Added(a[i].stats));
                proof {
                    assert(out@.push(pair).drop_last() =~= out@);
                    assert(changes_map(out@.push(pair)) =~= dmap.restrict(post_set));
                    lemma_frontier_after_step(a@, b@, i as int, j as int, i as int + 1, j as int);
                }
                out.push(pair);
                i = i + 1;
            } else {
                let ghost n0 = b@[j as int].filename@;
                let ghost post_set = settled(a@, b@, i as int, j as int + 1);
                proof {
                    lemma_entries_map_value(b@, j as int);
                    assert forall|t: int| 0 <= t < i as int implies str_lt(
                        (#[trigger] a@[t]).filename@,
                        n0,
                    ) by {}
                    lemma_outside_window(a@, i as int, n0);
                    lemma_settled_step(a@, b@, i as int, j as int, i as int, j as int + 1, cmap, bmap, n0);
                    assert(diff_at(cmap, bmap, n0) == Some(Diff::Removed(b@[j as int].stats)));
                }
                let name = b[j].filename.clone();
                let pair = (name, Diff::Removed(b[j].stats));
                proof {
                    assert(out@.push(pair).drop_last() =~= out@);
                    assert(changes_map(out@.push(pair)) =~= dmap.restrict(post_set));
                    lemma_frontier_after_step(a@, b@, i as int, j as int, i as int, j as int + 1);
                }
                out.push(pair);
                j = j + 1;
            }
        }
        proof {
            assert forall|n: Seq<char>| #[trigger] dmap.contains_key(n) implies settled(
                a@,
                b@,
                a@.len() as int,
                b@.len() as int,
            ).contains(n) by {}
            assert(dmap.restrict(settled(a@, b@, a@.len() as int, b@.len() as int)) =~= dmap);
        }
        DiffReport { after_total: self.total, before_total: baseline.total, changes: out }
    }
}

/// Stepping the merge frontier: every name newly settled and distinct
/// from the consumed name is classified by neither map, so restricting
/// the diff map to the new frontier adds exactly the consumed name's
/// classification (if any).
proof fn lemma_settled_step(
    a: Seq<FileEntry>,
    b: Seq<FileEntry>,
    i: int,
    j: int,
    i2: int,
    j2: int,
    cmap: Map<Seq<char>, CodeStats>,
    bmap: Map<Seq<char>, CodeStats>,
    n0: Seq<char>,
)
    requires
        sorted_strict(a),
        sorted_strict(b),
        cmap == entries_map(a),
        bmap == entries_map(b),
        0 <= i <= i2 <= a.len(),
        0 <= j <= j2 <= b.len(),
        i2 <= i + 1,
        j2 <= j + 1,
        i2 == i + 1 ==> n0 == a[i].filename@,
        j2 == j + 1 ==> n0 == b[j].filename@,
        i2 > i || j2 > j,
        forall|t: int, s: int|
            #![trigger b[t], a[s]]
            0 <= t < j && i <= s < a.len() ==> str_lt(b[t].filename@, a[s].filename@),
        forall|t: int, s: int|
            #![trigger a[t], b[s]]
            0 <= t < i && j <= s < b.len() ==> str_lt(a[t].filename@, b[s].filename@),
        i2 == i ==> i >= a.len() || str_lt(n0, a[i].filename@),
        j2 == j ==> j >= b.len() || str_lt(n0, b[j].filename@),
    ensures
        !settled(a, b, i, j).contains(n0),
        settled(a, b, i2, j2).contains(n0),
        forall|n: Seq<char>|
            settled(a, b, i2, j2).contains(n) && n != n0 && !settled(a, b, i, j).contains(n)
                ==> #[trigger] diff_at(cmap, bmap, n) is None,
        diff_at(cmap, bmap, n0) is Some ==> spec_diff_map(cmap, bmap).restrict(
            settled(a, b, i2, j2),
        ) == spec_diff_map(cmap, bmap).restrict(settled(a, b, i, j)).insert(
            n0,
            diff_at(cmap, bmap, n0)->0,
        ),
        diff_at(cmap, bmap, n0) is None ==> spec_diff_map(cmap, bmap).restrict(
            settled(a, b, i2, j2),
        ) == spec_diff_map(cmap, bmap).restrict(settled(a, b, i, j)),
{
    // n0 is not yet settled, but is settled after the step.
    if i2 == i + 1 {
        lemma_str_lt_trichotomy(n0, a[i].filename@);
    } else {
        lemma_str_lt_trichotomy(n0, b[j].filename@);
    }
    assert(settled(a, b, i2, j2).contains(n0)) by {
        if i2 == i + 1 && i2 < a.len() {
            assert(str_lt(a[i].filename@, a[i2].filename@));
        }
        if i2 == i && i < a.len() {
            assert(str_lt(n0, a[i].filename@));
        }
        if j2 == j + 1 && j2 < b.len() {
            assert(str_lt(b[j].filename@, b[j2].filename@));
        }
        if j2 == j && j < b.len() {
            assert(str_lt(n0, b[j].filename@));
        }
    }
    // Every other newly settled name lies strictly between the consumed
    // name and the rest of both lists, so neither map holds it.
    assert forall|n: Seq<char>|
        settled(a, b, i2, j2).contains(n) && n != n0 && !settled(a, b, i, j).contains(
            n,
        ) implies #[trigger] diff_at(cmap, bmap, n) is None by {
        // n is above the consumed position: not below_rest at (i, j),
        // so the consumed name is strictly below n.
        if !below_rest(a, i, n) {
            assert(i < a.len() && !str_lt(n, a[i].filename@));
            lemma_str_lt_trichotomy(n, a[i].filename@);
            if n0 != a[i].filename@ {
                // then i2 == i, so str_lt(n0, a[i]) and n >= a[i] > n0;
                // but n must still be below a[i2] == a[i], contradiction
                // with not below_rest(a, i, n) unless n == a[i].
                assert(i2 == i);
                assert(str_lt(n, a[i].filename@));
            } else {
                assert(str_lt(a[i].filename@, n) || a[i].filename@ == n);
            }
        }
        if !below_rest(b, j, n) {
            assert(j < b.len() && !str_lt(n, b[j].filename@));
            lemma_str_lt_trichotomy(n, b[j].filename@);
            if n0 != b[j].filename@ {
                assert(j2 == j);
                assert(str_lt(n, b[j].filename@));
            } else {
                assert(str_lt(b[j].filename@, n) || b[j].filename@ == n);
            }
        }
        // In every consistent case, n is strictly greater than all names
        // before the new frontier and strictly less than all names from
        // the new frontier on, in both lists.
        assert forall|t: int| 0 <= t < i2 implies str_lt((#[trigger] a[t]).filename@, n) by {
            assert(str_lt(n0, n) || below_rest(a, i, n) || a[i].filename@ == n0);
            lemma_step_gap_a(a, b, i, j, i2, j2, n0, n, t);
        }
        assert forall|t: int| 0 <= t < j2 implies str_lt((#[trigger] b[t]).filename@, n) by {
            lemma_step_gap_b(a, b, i, j, i2, j2, n0, n, t);
        }
        lemma_outside_window(a, i2, n);
        lemma_outside_window(b, j2, n);
    }
    let pre = spec_diff_map(cmap, bmap).restrict(settled(a, b, i, j));
    let post = spec_diff_map(cmap, bmap).restrict(settled(a, b, i2, j2));
    assert forall|n: Seq<char>|
        #[trigger] settled(a, b, i, j).contains(n) implies settled(a, b, i2, j2).contains(
        n,
    ) by {
        if i2 == i + 1 && i2 < a.len() && i < a.len() {
            if str_lt(n, a[i].filename@) {
                lemma_str_lt_transitive(n, a[i].filename@, a[i2].filename@);
            }
        }
        if j2 == j + 1 && j2 < b.len() && j < b.len() {
            if str_lt(n, b[j].filename@) {
                lemma_str_lt_transitive(n, b[j].filename@, b[j2].filename@);
            }
        }
    }
    if diff_at(cmap, bmap, n0) is Some {
        assert(post =~= pre.insert(n0, diff_at(cmap, bmap, n0)->0));
    } else {
        assert(post =~= pre);
    }
}

/// After consuming one name, everything before the new frontier of one
/// list is still strictly below everything a newly settled distinct name
/// can be.
proof fn lemma_step_gap_a(
    a: Seq<FileEntry>,
    b: Seq<FileEntry>,
    i: int,
    j: int,
    i2: int,
    j2: int,
    n0: Seq<char>,
    n: Seq<char>,
    t: int,
)
    requires
        sorted_strict(a),
        sorted_strict(b),
        0 <= i <= i2 <= a.len(),
        0 <= j <= j2 <= b.len(),
        i2 <= i + 1,
        j2 <= j + 1,
        i2 == i + 1 ==> n0 == a[i].filename@,
        j2 == j + 1 ==> n0 == b[j].filename@,
        i2 > i || j2 > j,
        forall|t0: int, s: int|
            #![trigger b[t0], a[s]]
            0 <= t0 < j && i <= s < a.len() ==> str_lt(b[t0].filename@, a[s].filename@),
        forall|t0: int, s: int|
            #![trigger a[t0], b[s]]
            0 <= t0 < i && j <= s < b.len() ==> str_lt(a[t0].filename@, b[s].filename@),
        i2 == i ==> i >= a.len() || str_lt(n0, a[i].filename@),
        j2 == j ==> j >= b.len() || str_lt(n0, b[j].filename@),
        settled(a, b, i2, j2).contains(n),
        n != n0,
        !settled(a, b, i, j).contains(n),
        0 <= t < i2,
    ensures
        str_lt(a[t].filename@, n),
{
    // n is not settled at (i, j): one of the old frontier names is <= n.
    if !below_rest(a, i, n) {
        // i < a.len() and a[i] <= n; since n is settled at (i2, j2) and
        // n != n0, the a-side must have advanced: i2 == i + 1 and
        // n0 == a[i], with a[i] < n.
        lemma_str_lt_trichotomy(n, a[i].filename@);
        assert(i2 == i + 1);
        assert(str_lt(a[i].filename@, n));
        if t < i {
            lemma_str_lt_transitive(a[t].filename@, a[i].filename@, n);
        }
    } else {
        // b[j] <= n; so the b-side advanced: n0 == b[j] with b[j] < n.
        assert(!below_rest(b, j, n));
        lemma_str_lt_trichotomy(n, b[j].filename@);
        assert(j2 == j + 1);
        assert(str_lt(b[j].filename@, n));
        // every a[t] with t < i2 is at most n0 == b[j] or below a[i] <= ...
        if t < i {
            assert(str_lt(a[t].filename@, b[j].filename@));
            lemma_str_lt_transitive(a[t].filename@, b[j].filename@, n);
        } else {
            // t == i < i2 means the a-side advanced too: n0 == a[i] and
            // also n0 == b[j]; a[t] == n0 < n.
            assert(t == i && i2 == i + 1);
            assert(a[t].filename@ == n0);
            assert(str_lt(n0, n));
        }
    }
}

proof fn lemma_step_gap_b(
    a: Seq<FileEntry>,
    b: Seq<FileEntry>,
    i: int,
    j: int,
    i2: int,
    j2: int,
    n0: Seq<char>,
    n: Seq<char>,
    t: int,
)
    requires
        sorted_strict(a),
        sorted_strict(b),
        0 <= i <= i2 <= a.len(),
        0 <= j <= j2 <= b.len(),
        i2 <= i + 1,
        j2 <= j + 1,
        i2 == i + 1 ==> n0 == a[i].filename@,
        j2 == j + 1 ==> n0 == b[j].filename@,
        i2 > i || j2 > j,
        forall|t0: int, s: int|
            #![trigger b[t0], a[s]]
            0 <= t0 < j && i <= s < a.len() ==> str_lt(b[t0].filename@, a[s].filename@),
        forall|t0: int, s: int|
            #![trigger a[t0], b[s]]
            0 <= t0 < i && j <= s < b.len() ==> str_lt(a[t0].filename@, b[s].filename@),
        i2 == i ==> i >= a.len() || str_lt(n0, a[i].filename@),
        j2 == j ==> j >= b.len() || str_lt(n0, b[j].filename@),
        settled(a, b, i2, j2).contains(n),
        n != n0,
        !settled(a, b, i, j).contains(n),
        0 <= t < j2,
    ensures
        str_lt(b[t].filename@, n),
{
    if !below_rest(b, j, n) {
        lemma_str_lt_trichotomy(n, b[j].filename@);
        assert(j2 == j + 1);
        assert(str_lt(b[j].filename@, n));
        if t < j {
            lemma_str_lt_transitive(b[t].filename@, b[j].filename@, n);
        }
    } else {
        assert(!below_rest(a, i, n));
        lemma_str_lt_trichotomy(n, a[i].filename@);
        assert(i2 == i + 1);
        assert(str_lt(a[i].filename@, n));
        if t < j {
            assert(str_lt(b[t].filename@, a[i].filename@));
            lemma_str_lt_transitive(b[t].filename@, a[i].filename@, n);
        } else {
            assert(t == j && j2 == j + 1);
            assert(b[t].filename@ == n0);
            assert(str_lt(n0, n));
        }
    }
}

/// The two frontier facts survive one merge step.
proof fn lemma_frontier_after_step(
    a: Seq<FileEntry>,
    b: Seq<FileEntry>,
    i: int,
    j: int,
    i2: int,
    j2: int,
)
    requires
        sorted_strict(a),
        sorted_strict(b),
        0 <= i <= i2 <= a.len(),
        0 <= j <= j2 <= b.len(),
        i2 <= i + 1,
        j2 <= j + 1,
        forall|t: int, s: int|
            #![trigger b[t], a[s]]
            0 <= t < j && i <= s < a.len() ==> str_lt(b[t].filename@, a[s].filename@),
        forall|t: int, s: int|
            #![trigger a[t], b[s]]
            0 <= t < i && j <= s < b.len() ==> str_lt(a[t].filename@, b[s].filename@),
        i2 == i + 1 && j2 == j ==> j >= b.len() || str_lt(a[i].filename@, b[j].filename@),
        j2 == j + 1 && i2 == i ==> i >= a.len() || str_lt(b[j].filename@, a[i].filename@),
        i2 == i + 1 && j2 == j + 1 ==> a[i].filename@ == b[j].filename@,
    ensures
        forall|t: int, s: int|
            #![trigger b[t], a[s]]
            0 <= t < j2 && i2 <= s < a.len() ==> str_lt(b[t].filename@, a[s].filename@),
        forall|t: int, s: int|
            #![trigger a[t], b[s]]
            0 <= t < i2 && j2 <= s < b.len() ==> str_lt(a[t].filename@, b[s].filename@),
{
    assert forall|t: int, s: int|
        0 <= t < j2 && i2 <= s < a.len() implies str_lt(
        (#[trigger] b[t]).filename@,
        (#[trigger] a[s]).filename@,
    ) by {
        if t < j {
        } else {
            // t == j, so b was consumed this step.
            assert(j2 == j + 1 && t == j);
            if i2 == i + 1 {
                // both consumed: b[j] == a[i] < a[s]
                assert(str_lt(a[i].filename@, a[s].filename@));
            } else {
                // only b consumed: b[j] < a[i] <= a[s]
                assert(str_lt(b[j].filename@, a[i].filename@));
                if s > i {
                    lemma_str_lt_transitive(b[j].filename@, a[i].filename@, a[s].filename@);
                }
            }
        }
    }
    assert forall|t: int, s: int|
        0 <= t < i2 && j2 <= s < b.len() implies str_lt(
        (#[trigger] a[t]).filename@,
        (#[trigger] b[s]).filename@,
    ) by {
        if t < i {
        } else {
            assert(i2 == i + 1 && t == i);
            if j2 == j + 1 {
                assert(str_lt(b[j].filename@, b[s].filename@));
            } else {
                assert(str_lt(a[i].filename@, b[j].filename@));
                if s > j {
                    lemma_str_lt_transitive(a[t].filename@, b[j].filename@, b[s].filename@);
                }
            }
        }
    }
}

proof fn lemma_entries_map_insert_at(s: Seq<FileEntry>, k: int, e: FileEntry)
    requires
        0 <= k <= s.len(),
        forall|t: int| 0 <= t < s.len() ==> (#[trigger] s[t]).filename@ != e.filename@,
    ensures
        entries_map(s.insert(k, e)) == entries_map(s).insert(e.filename@, e.stats),
    decreases s.len(),
{
    s.insert_ensures(k, e);
    let s2 = s.insert(k, e);
    if k == s.len() {
        assert(s2 =~= s.push(e));
        assert(s.push(e).drop_last() =~= s);
        assert(s.push(e).last() == e);
    } else {
        s.drop_last().insert_ensures(k, e);
        assert(s2.drop_last() =~= s.drop_last().insert(k, e));
        assert(s2.last() == s.last());
        assert(forall|t: int|
            0 <= t < s.drop_last().len() ==> (#[trigger] s.drop_last()[t]).filename@
                != e.filename@);
        lemma_entries_map_insert_at(s.drop_last(), k, e);
        assert(s.last().filename@ != e.filename@);
        assert(entries_map(s.drop_last()).insert(e.filename@, e.stats).insert(
            s.last().filename@,
            s.last().stats,
        ) =~= entries_map(s.drop_last()).insert(s.last().filename@, s.last().stats).insert(
            e.filename@,
            e.stats,
        ));
    }
}

proof fn lemma_entries_map_update_at(s: Seq<FileEntry>, k: int, e: FileEntry)
    requires
        sorted_strict(s),
        0 <= k < s.len(),
        s[k].filename@ == e.filename@,
    ensures
        entries_map(s.update(k, e)) == entries_map(s).insert(e.filename@, e.stats),
    decreases s.len(),
{
    let s2 = s.update(k, e);
    if k == s.len() - 1 {
        assert(s2.drop_last() =~= s.drop_last());
        assert(s2.last() == e);
        assert(entries_map(s.drop_last()).insert(e.filename@, e.stats) =~= entries_map(
            s.drop_last(),
        ).insert(s[k].filename@, s[k].stats).insert(e.filename@, e.stats));
    } else {
        assert(s2.drop_last() =~= s.drop_last().update(k, e));
        assert(s2.last() == s.last());
        assert(forall|p: int, q: int|
            #![trigger s.drop_last()[p], s.drop_last()[q]]
            0 <= p < q < s.drop_last().len() ==> s.drop_last()[p] == s[p] && s.drop_last()[q]
                == s[q]);
        assert(s.drop_last()[k] == s[k]);
        lemma_entries_map_update_at(s.drop_last(), k, e);
        lemma_str_lt_trichotomy(s[k].filename@, s.last().filename@);
        assert(entries_map(s.drop_last()).insert(e.filename@, e.stats).insert(
            s.last().filename@,
            s.last().stats,
        ) =~= entries_map(s.drop_last()).insert(s.last().filename@, s.last().stats).insert(
            e.filename@,
            e.stats,
        ));
    }
}

/// Puts one record into a sorted entry list: a record under a new name
/// takes its sorted place, a record under a present name replaces the
/// old one.
pub fn insert_entry(files: &mut Vec<FileEntry>, entry: FileEntry)
    requires
        sorted_strict(old(files)@),
    ensures
        sorted_strict(final(files)@),
        entries_map(final(files)@) == entries_map(old(files)@).insert(
            entry.filename@,
            entry.stats,
        ),
{
    let ghost n = entry.filename@;
    let mut k: usize = 0;
    let mut stop = false;
    while !stop && k < files.len()
        invariant
            files@ == old(files)@,
            0 <= k <= files@.len(),
            forall|t: int| 0 <= t < k ==> str_lt((#[trigger] files@[t]).filename@, n),
            n == entry.filename@,
            stop ==> k < files@.len() && !str_lt(files@[k as int].filename@, n),
        decreases files@.len() - k + (if stop {
            0int
        } else {
            1int
        }),
    {
        match str_compare(files[k].filename.as_str(), entry.filename.as_str()) {
            StrCmp::Less => {
                k = k + 1;
            },
            StrCmp::Equal => {
                proof {
                    lemma_str_lt_trichotomy(files@[k as int].filename@, n);
                }
                stop = true;
            },
            StrCmp::Greater => {
                proof {
                    lemma_str_lt_trichotomy(files@[k as int].filename@, n);
                }
                stop = true;
            },
        }
    }
    let ghost pre = files@;
    if k < files.len() && str_equal(files[k].filename.as_str(), entry.filename.as_str()) {
        files.set(k, entry);
        proof {
            lemma_entries_map_update_at(pre, k as int, entry);
            assert forall|p: int, q: int|
                0 <= p < q < files@.len() implies str_lt(
                (#[trigger] files@[p]).filename@,
                (#[trigger] files@[q]).filename@,
            ) by {
                assert(pre[p].filename@ == files@[p].filename@);
                assert(pre[q].filename@ == files@[q].filename@);
            }
        }
    } else {
        proof {
            assert forall|t: int|
                0 <= t < pre.len() implies (#[trigger] pre[t]).filename@ != n by {
                if t < k {
                    lemma_str_lt_trichotomy(pre[t].filename@, n);
                } else {
                    lemma_str_lt_trichotomy(n, pre[k as int].filename@);
                    if t > k {
                        lemma_str_lt_transitive(
                            n,
                            pre[k as int].filename@,
                            pre[t].filename@,
                        );
                    }
                    lemma_str_lt_trichotomy(n, pre[t].filename@);
                }
            }
            lemma_entries_map_insert_at(pre, k as int, entry);
            pre.insert_ensures(k as int, entry);
        }
        files.insert(k, entry);
        proof {
            assert forall|p: int, q: int|
                0 <= p < q < files@.len() implies str_lt(
                (#[trigger] files@[p]).filename@,
                (#[trigger] files@[q]).filename@,
            ) by {
                let kk = k as int;
                if q < kk {
                    assert(files@[p] == pre[p] && files@[q] == pre[q]);
                } else if p > kk {
                    assert(files@[p] == pre[p - 1] && files@[q] == pre[q - 1]);
                } else if p < kk && q == kk {
                    assert(files@[p] == pre[p]);
                } else if p == kk && q > kk {
                    assert(files@[q] == pre[q - 1]);
                    lemma_str_lt_trichotomy(n, pre[kk].filename@);
                    if q - 1 > kk {
                        lemma_str_lt_transitive(
                            n,
                            pre[kk].filename@,
                            pre[q - 1].filename@,
                        );
                    }
                } else {
                    assert(files@[p] == pre[p] && files@[q] == pre[q - 1]);
                    if q - 1 > p {
                        assert(str_lt(pre[p].filename@, pre[q - 1].filename@));
                    }
                }
            }
        }
    }
}

/// The field-wise (saturating) sum of a report's records.
pub fn total_of(files: &Vec<FileEntry>) -> (r: CodeStats)
    ensures
        r@ == stats_clamp(spec_sum(stats_seq(files@))),
{
    let mut per_file: Vec<CodeStats> = Vec::new();
    let mut t: usize = 0;
    while t < files.len()
        invariant
            0 <= t <= files@.len(),
            per_file@ == stats_seq(files@.take(t as int)),
        decreases files@.len() - t,
    {
        per_file.push(files[t].stats);
        proof {
            assert(per_file@ =~= stats_seq(files@.take(t as int + 1)));
        }
        t = t + 1;
    }
    proof {
        assert(files@.take(files@.len() as int) =~= files@);
    }
    CodeStats::sum(&per_file)
}

/// Builds a report from per-file records in any order: the entries are
/// sorted by filename (a later duplicate name overwrites an earlier one)
/// and the total is their field-wise sum.
pub fn build_report(entries: Vec<FileEntry>) -> (r: Report)
    ensures
        r.wf(),
        r.map_view() == entries_map(entries@),
        r.total@ == stats_clamp(spec_sum(stats_seq(r.files@))),
{
    let ghost orig = entries@;
    let mut input = entries;
    let mut files: Vec<FileEntry> = Vec::new();
    let ghost mut done: Seq<FileEntry> = Seq::empty();
    proof {
        assert(orig =~= done + input@);
        assert(entries_map(files@) =~= entries_map(done));
    }
    while input.len() > 0
        invariant
            orig =~= done + input@,
            sorted_strict(files@),
            entries_map(files@) == entries_map(done),
        decreases input@.len(),
    {
        let ghost input_pre = input@;
        let e = input.remove(0);
        let ghost ge = e;
        insert_entry(&mut files, e);
        proof {
            assert(ge == input_pre[0]);
            assert(input@ =~= input_pre.drop_first());
            assert(done.push(ge).drop_last() =~= done);
            assert(done.push(ge).last() == ge);
            assert(entries_map(files@) =~= entries_map(done.push(ge)));
            done = done.push(ge);
            assert(orig =~= done + input@);
        }
    }
    proof {
        assert(done =~= orig);
    }
    let total = total_of(&files);
    Report { files, total }
}

/// Diffing a report against itself classifies nothing.
pub proof fn lemma_diff_self_empty(m: Map<Seq<char>, CodeStats>)
    ensures
        spec_diff_map(m, m) =~= Map::<Seq<char>, Diff>::empty(),
{
    assert forall|n: Seq<char>| !(#[trigger] diff_at(m, m, n) is Some) by {}
}

/// Diffing any report against itself yields no per-file entries at all,
/// and the two reported totals are equal: the premises are exactly what
/// `Report::diff` ensures of its result when both arguments are the same
/// report.
pub proof fn lemma_diff_self(r: Report, d: DiffReport)
    requires
        d.after_total == r.total,
        d.before_total == r.total,
        changes_map(d.changes@) == spec_diff_map(r.map_view(), r.map_view()),
    ensures
        d.changes@.len() == 0,
        d.before_total == d.after_total,
{
    lemma_diff_self_empty(r.map_view());
    if d.changes@.len() > 0 {
        lemma_changes_map_contains_entry(d.changes@, d.changes@.len() - 1);
    }
}

/// Two records that differ only in the cosmetic counters (total lines,
/// functions, statements) never appear in a diff; two records differing
/// in `unwraps` alone always do, as `Changed`.
pub proof fn lemma_safety_field_sensitivity(
    cur: Map<Seq<char>, CodeStats>,
    base: Map<Seq<char>, CodeStats>,
    n: Seq<char>,
)
    requires
        cur.contains_key(n),
        base.contains_key(n),
    ensures
        (base[n].unsafe_fns == cur[n].unsafe_fns && base[n].unsafe_statements
            == cur[n].unsafe_statements && base[n].static_mut_items == cur[n].static_mut_items
            && base[n].unwraps == cur[n].unwraps) ==> !spec_diff_map(cur, base).contains_key(n),
        base[n].unwraps != cur[n].unwraps ==> spec_diff_map(cur, base).contains_key(n)
            && spec_diff_map(cur, base)[n] == Diff::Changed(
            Change { after: cur[n], before: base[n] },
        ),
{
}

/// A file present in only one of the two reports is always classified:
/// only in the baseline as `Removed` with the baseline's record, only in
/// the current report as `Added` with the current record.
pub proof fn lemma_added_removed_classification(
    cur: Map<Seq<char>, CodeStats>,
    base: Map<Seq<char>, CodeStats>,
    n: Seq<char>,
)
    ensures
        base.contains_key(n) && !cur.contains_key(n) ==> spec_diff_map(cur, base).contains_key(n)
            && spec_diff_map(cur, base)[n] == Diff::Removed(base[n]),
        cur.contains_key(n) && !base.contains_key(n) ==> spec_diff_map(cur, base).contains_key(n)
            && spec_diff_map(cur, base)[n] == Diff::Added(cur[n]),
{
}

} // verus!
