//! Lexicographic order on file identifiers.
//!
//! Reports keep their per-file entries sorted by filename; the order is
//! plain lexicographic comparison of the character sequences.

use vstd::prelude::*;

verus! {

/// Strict lexicographic order on character sequences.
pub open spec fn str_lt(a: Seq<char>, b: Seq<char>) -> bool
    decreases a.len(),
{
    if b.len() == 0 {
        false
    } else if a.len() == 0 {
        true
    } else if (a[0] as int) < (b[0] as int) {
        true
    } else if a[0] == b[0] {
        str_lt(a.drop_first(), b.drop_first())
    } else {
        false
    }
}

/// Exactly one of `a < b`, `a == b`, `b < a` holds.
pub proof fn lemma_str_lt_trichotomy(a: Seq<char>, b: Seq<char>)
    ensures
        str_lt(a, b) || str_lt(b, a) || a == b,
        str_lt(a, b) ==> !str_lt(b, a),
        str_lt(a, b) ==> a != b,
        str_lt(b, a) ==> a != b,
    decreases a.len(),
{
    if a.len() == 0 && b.len() == 0 {
        assert(a =~= b);
    } else if a.len() == 0 || b.len() == 0 {
    } else if a[0] == b[0] {
        lemma_str_lt_trichotomy(a.drop_first(), b.drop_first());
        if a.drop_first() == b.drop_first() {
            assert forall|k: int| 0 <= k < a.len() implies a[k] == b[k] by {
                if k >= 1 {
                    assert(a.drop_first()[k - 1] == b.drop_first()[k - 1]);
                }
            }
            assert(a =~= b);
        }
        if a == b {
            assert(a.drop_first() =~= b.drop_first());
        }
    }
}

/// Lexicographic order is transitive.
pub proof fn lemma_str_lt_transitive(a: Seq<char>, b: Seq<char>, c: Seq<char>)
    requires
        str_lt(a, b),
        str_lt(b, c),
    ensures
        str_lt(a, c),
    decreases a.len(),
{
    if a.len() > 0 && b.len() > 0 && c.len() > 0 {
        if a[0] == b[0] && b[0] == c[0] {
            lemma_str_lt_transitive(a.drop_first(), b.drop_first(), c.drop_first());
        }
    }
}

/// Non-strict lexicographic order.
pub open spec fn str_le(a: Seq<char>, b: Seq<char>) -> bool {
    str_lt(a, b) || a == b
}

/// Non-strict lexicographic order is transitive.
pub proof fn lemma_str_le_transitive(a: Seq<char>, b: Seq<char>, c: Seq<char>)
    requires
        str_le(a, b),
        str_le(b, c),
    ensures
        str_le(a, c),
{
    if str_lt(a, b) && str_lt(b, c) {
        lemma_str_lt_transitive(a, b, c);
    }
}

/// Any two strings are ordered one way or the other.
pub proof fn lemma_str_le_total(a: Seq<char>, b: Seq<char>)
    ensures
        str_le(a, b) || str_le(b, a),
        str_le(a, b) && str_le(b, a) ==> a == b,
{
    lemma_str_lt_trichotomy(a, b);
}

/// Result of a three-way string comparison.
pub enum StrCmp {
    Less,
    Equal,
    Greater,
}

/// A shared proper prefix with a smaller next character (or running out
/// first) makes a string lexicographically smaller.
proof fn lemma_str_lt_from_prefix(a: Seq<char>, b: Seq<char>, i: int)
    requires
        0 <= i <= a.len(),
        i <= b.len(),
        forall|j: int| 0 <= j < i ==> a[j] == b[j],
        (i < a.len() && i < b.len() && (a[i] as int) < (b[i] as int)) || (i == a.len() && i
            < b.len()),
    ensures
        str_lt(a, b),
    decreases i,
{
    if i == 0 {
    } else {
        lemma_str_lt_from_prefix(a.drop_first(), b.drop_first(), i - 1);
    }
}

/// Three-way lexicographic comparison of two strings.
pub fn str_compare(a: &str, b: &str) -> (r: StrCmp)
    ensures
        r is Less <==> str_lt(a@, b@),
        r is Equal <==> a@ == b@,
        r is Greater <==> str_lt(b@, a@),
{
    proof {
        lemma_str_lt_trichotomy(a@, b@);
    }
    let alen = a.unicode_len();
    let blen = b.unicode_len();
    let mut i: usize = 0;
    while i < alen && i < blen
        invariant
            0 <= i <= alen,
            i <= blen,
            alen == a@.len(),
            blen == b@.len(),
            forall|j: int| 0 <= j < i ==> a@[j] == b@[j],
        decreases alen - i,
    {
        let ca = a.get_char(i) as u32;
        let cb = b.get_char(i) as u32;
        if ca < cb {
            proof {
                lemma_str_lt_from_prefix(a@, b@, i as int);
                lemma_str_lt_trichotomy(a@, b@);
            }
            return StrCmp::Less;
        }
        if ca > cb {
            proof {
                lemma_str_lt_from_prefix(b@, a@, i as int);
                lemma_str_lt_trichotomy(a@, b@);
            }
            return StrCmp::Greater;
        }
        proof {
            assert(a@[i as int] == b@[i as int]);
        }
        i = i + 1;
    }
    if alen == blen {
        proof {
            assert(a@ =~= b@);
        }
        StrCmp::Equal
    } else if alen < blen {
        proof {
            lemma_str_lt_from_prefix(a@, b@, alen as int);
            lemma_str_lt_trichotomy(a@, b@);
        }
        StrCmp::Less
    } else {
        proof {
            lemma_str_lt_from_prefix(b@, a@, blen as int);
            lemma_str_lt_trichotomy(a@, b@);
        }
        StrCmp::Greater
    }
}

/// Whether two strings hold the same characters.
pub fn str_equal(a: &str, b: &str) -> (r: bool)
    ensures
        r == (a@ == b@),
{
    match str_compare(a, b) {
        StrCmp::Equal => true,
        _ => false,
    }
}

} // verus!
