//! Decimal reading and writing of counters.
//!
//! The baseline table stores every counter as a decimal string, and the
//! renderers print counters and deltas back out.  Both directions are
//! verified against one spec-level notion of a decimal digit string.

use vstd::prelude::*;

verus! {

pub open spec fn is_digit(c: char) -> bool {
    48 <= c as int <= 57
}

pub open spec fn digit_val(c: char) -> nat {
    (c as int - 48) as nat
}

pub open spec fn all_digits(s: Seq<char>) -> bool {
    forall|i: int| 0 <= i < s.len() ==> is_digit(#[trigger] s[i])
}

/// Value of a digit string read as a base-10 number.
pub open spec fn dec_value(s: Seq<char>) -> nat
    decreases s.len(),
{
    if s.len() == 0 {
        0
    } else {
        dec_value(s.drop_last()) * 10 + digit_val(s.last())
    }
}

/// A prefix of a digit string never has a larger value than the whole.
proof fn lemma_dec_value_prefix(s: Seq<char>, i: int)
    requires
        0 <= i <= s.len(),
    ensures
        dec_value(s.take(i)) <= dec_value(s),
    decreases s.len(),
{
    if i == s.len() {
        assert(s.take(i) =~= s);
    } else {
        assert(s.drop_last().take(i) =~= s.take(i));
        lemma_dec_value_prefix(s.drop_last(), i);
        assert(dec_value(s.drop_last()) * 10 >= dec_value(s.drop_last()));
    }
}

/// What `u64` parsing accepts: an optional leading `+`, then one or more
/// decimal digits, with a value that fits in the type.
pub open spec fn u64_body(s: Seq<char>) -> Seq<char> {
    if s.len() > 0 && s[0] == '+' {
        s.drop_first()
    } else {
        s
    }
}

pub open spec fn spec_parse_u64(s: Seq<char>) -> Option<u64> {
    let b = u64_body(s);
    if b.len() >= 1 && all_digits(b) && dec_value(b) <= u64::MAX {
        Some(dec_value(b) as u64)
    } else {
        None
    }
}

/// Reads a counter the way `u64` reads decimal text: `Some` exactly on an
/// optional `+` followed by digits whose value fits in a `u64`.
pub fn parse_u64(s: &str) -> (r: Option<u64>)
    ensures
        r == spec_parse_u64(s@),
{
    let len = s.unicode_len();
    let start: usize = if len > 0 && s.get_char(0) == '+' {
        1
    } else {
        0
    };
    let ghost b = u64_body(s@);
    proof {
        assert(b =~= s@.subrange(start as int, len as int));
    }
    if start == len {
        return None;
    }
    let mut acc: u64 = 0;
    let mut i: usize = start;
    while i < len
        invariant
            start <= i <= len,
            len == s@.len(),
            b == u64_body(s@),
            b == s@.subrange(start as int, len as int),
            all_digits(s@.subrange(start as int, i as int)),
            acc as nat == dec_value(s@.subrange(start as int, i as int)),
        decreases len - i,
    {
        let c = s.get_char(i);
        let code = c as u32;
        proof {
            assert(c == s@[i as int]);
            assert(code as int == c as int);
        }
        if code < 48 || code > 57 {
            proof {
                assert(!is_digit(s@[i as int]));
                assert(b[i - start as int] == s@[i as int]);
                assert(!all_digits(b));
            }
            return None;
        }
        let digit = (code - 48) as u64;
        let ghost pre = s@.subrange(start as int, i as int);
        let ghost post = s@.subrange(start as int, i as int + 1);
        proof {
            assert(post.drop_last() =~= pre);
            assert(post.last() == s@[i as int]);
            assert(digit_val(s@[i as int]) == digit as nat);
            assert(dec_value(post) == acc as nat * 10 + digit as nat);
        }
        if acc > (u64::MAX - digit) / 10 {
            proof {
                let m = u64::MAX as int;
                let a = acc as int;
                let d = digit as int;
                assert(a * 10 + d > m) by (nonlinear_arith)
                    requires
                        a >= (m - d) / 10 + 1,
                        0 <= d <= 9,
                        m == 0xffff_ffff_ffff_ffff,
                ;
                assert(dec_value(post) > u64::MAX);
                assert(b.take(i + 1 - start as int) =~= post);
                lemma_dec_value_prefix(b, i + 1 - start as int);
                assert(dec_value(b) > u64::MAX);
            }
            return None;
        }
        proof {
            let m = u64::MAX as int;
            let a = acc as int;
            let d = digit as int;
            assert(a * 10 + d <= m) by (nonlinear_arith)
                requires
                    a <= (m - d) / 10,
                    0 <= d <= 9,
                    m == 0xffff_ffff_ffff_ffff,
            ;
        }
        acc = acc * 10 + digit;
        i = i + 1;
    }
    proof {
        assert(s@.subrange(start as int, len as int) =~= b);
    }
    Some(acc)
}

/// What `i32` parsing accepts: an optional sign, then one or more decimal
/// digits, with the signed value in the `i32` range.
pub open spec fn spec_parse_i32(s: Seq<char>) -> Option<i32> {
    if s.len() == 0 {
        None
    } else {
        let neg = s[0] == '-';
        let signed = s[0] == '-' || s[0] == '+';
        let b = if signed {
            s.drop_first()
        } else {
            s
        };
        if b.len() >= 1 && all_digits(b) {
            let v: int = if neg {
                -(dec_value(b) as int)
            } else {
                dec_value(b) as int
            };
            if i32::MIN <= v <= i32::MAX {
                Some(v as i32)
            } else {
                None
            }
        } else {
            None
        }
    }
}

/// Reads an integer literal the way `i32` reads decimal text.
pub fn parse_i32(s: &str) -> (r: Option<i32>)
    ensures
        r == spec_parse_i32(s@),
{
    let len = s.unicode_len();
    if len == 0 {
        return None;
    }
    let first = s.get_char(0);
    let neg = first == '-';
    let signed = neg || first == '+';
    let start: usize = if signed {
        1
    } else {
        0
    };
    let ghost b = if signed {
        s@.drop_first()
    } else {
        s@
    };
    proof {
        assert(b =~= s@.subrange(start as int, len as int));
    }
    if start == len {
        return None;
    }
    let bound: u64 = if neg {
        2147483648
    } else {
        2147483647
    };
    let mut acc: u64 = 0;
    let mut i: usize = start;
    while i < len
        invariant
            start <= i <= len,
            len == s@.len(),
            len > 0,
            neg == (s@[0] == '-'),
            signed == (s@[0] == '-' || s@[0] == '+'),
            start == if signed { 1int } else { 0int },
            b == if signed { s@.drop_first() } else { s@ },
            b == s@.subrange(start as int, len as int),
            all_digits(s@.subrange(start as int, i as int)),
            acc as nat == dec_value(s@.subrange(start as int, i as int)),
            acc <= bound,
            bound == if neg { 2147483648u64 } else { 2147483647u64 },
        decreases len - i,
    {
        let c = s.get_char(i);
        let code = c as u32;
        proof {
            assert(c == s@[i as int]);
            assert(code as int == c as int);
        }
        if code < 48 || code > 57 {
            proof {
                assert(!is_digit(s@[i as int]));
                assert(b[i - start as int] == s@[i as int]);
                assert(!all_digits(b));
            }
            return None;
        }
        let digit = (code - 48) as u64;
        let ghost pre = s@.subrange(start as int, i as int);
        let ghost post = s@.subrange(start as int, i as int + 1);
        proof {
            assert(post.drop_last() =~= pre);
            assert(post.last() == s@[i as int]);
            assert(digit_val(s@[i as int]) == digit as nat);
            assert(dec_value(post) == acc as nat * 10 + digit as nat);
        }
        let next = acc * 10 + digit;
        if next > bound {
            proof {
                assert(b.take(i + 1 - start as int) =~= post);
                lemma_dec_value_prefix(b, i + 1 - start as int);
                assert(dec_value(b) > bound as nat);
            }
            return None;
        }
        acc = next;
        i = i + 1;
    }
    proof {
        assert(s@.subrange(start as int, len as int) =~= b);
    }
    if neg {
        let sv: i64 = -(acc as i64);
        proof {
            assert(i32::MIN <= sv <= i32::MAX);
        }
        Some(sv as i32)
    } else {
        Some(acc as i32)
    }
}

/// The decimal digit characters.
pub open spec fn digit_char(d: nat) -> char {
    if d == 0 {
        '0'
    } else if d == 1 {
        '1'
    } else if d == 2 {
        '2'
    } else if d == 3 {
        '3'
    } else if d == 4 {
        '4'
    } else if d == 5 {
        '5'
    } else if d == 6 {
        '6'
    } else if d == 7 {
        '7'
    } else if d == 8 {
        '8'
    } else {
        '9'
    }
}

/// The decimal digit string of `n`, most significant digit first, with no
/// sign and no leading zeros (`0` itself prints as `"0"`).
pub open spec fn spec_u64_digits(n: nat) -> Seq<char>
    decreases n,
{
    if n < 10 {
        seq![digit_char(n)]
    } else {
        spec_u64_digits(n / 10).push(digit_char(n % 10))
    }
}

fn push_digit(d: u64, out: &mut String)
    requires
        d < 10,
    ensures
        final(out)@ == old(out)@ + seq![digit_char(d as nat)],
{
    if d == 0 {
        out.append("0");
        proof {
            reveal_strlit("0");
            assert("0"@ =~= seq![digit_char(0)]);
        }
    } else if d == 1 {
        out.append("1");
        proof {
            reveal_strlit("1");
            assert("1"@ =~= seq![digit_char(1)]);
        }
    } else if d == 2 {
        out.append("2");
        proof {
            reveal_strlit("2");
            assert("2"@ =~= seq![digit_char(2)]);
        }
    } else if d == 3 {
        out.append("3");
        proof {
            reveal_strlit("3");
            assert("3"@ =~= seq![digit_char(3)]);
        }
    } else if d == 4 {
        out.append("4");
        proof {
            reveal_strlit("4");
            assert("4"@ =~= seq![digit_char(4)]);
        }
    } else if d == 5 {
        out.append("5");
        proof {
            reveal_strlit("5");
            assert("5"@ =~= seq![digit_char(5)]);
        }
    } else if d == 6 {
        out.append("6");
        proof {
            reveal_strlit("6");
            assert("6"@ =~= seq![digit_char(6)]);
        }
    } else if d == 7 {
        out.append("7");
        proof {
            reveal_strlit("7");
            assert("7"@ =~= seq![digit_char(7)]);
        }
    } else if d == 8 {
        out.append("8");
        proof {
            reveal_strlit("8");
            assert("8"@ =~= seq![digit_char(8)]);
        }
    } else {
        out.append("9");
        proof {
            reveal_strlit("9");
            assert("9"@ =~= seq![digit_char(9)]);
        }
    }
}

/// Appends the decimal digits of `n` to `out`.
pub fn push_u64(n: u64, out: &mut String)
    ensures
        final(out)@ == old(out)@ + spec_u64_digits(n as nat),
    decreases n,
{
    if n >= 10 {
        push_u64(n / 10, out);
        push_digit(n % 10, out);
        proof {
            assert(old(out)@ + spec_u64_digits(n as nat / 10) + seq![
                digit_char(n as nat % 10),
            ] =~= old(out)@ + spec_u64_digits(n as nat));
        }
    } else {
        push_digit(n, out);
    }
}

/// The decimal digit string of `n` as a fresh `String`.
pub fn u64_string(n: u64) -> (r: String)
    ensures
        r@ == spec_u64_digits(n as nat),
{
    let mut out = String::new();
    push_u64(n, &mut out);
    proof {
        assert(Seq::<char>::empty() + spec_u64_digits(n as nat) =~= spec_u64_digits(n as nat));
    }
    out
}

} // verus!
