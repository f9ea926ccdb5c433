//! Severity classification and delta texts for the renderers.
//!
//! The rendering itself (tables, colour, markup) lives outside the
//! library; these are the rules it applies: zero is safe, a single-digit
//! count warns, ten or more is danger, and a ratio of unsafe to total
//! functions of one half or more is danger as well.

use vstd::prelude::*;

use crate::decimal::{push_u64, spec_u64_digits};

verus! {

/// Severity of an unsafe-to-total ratio: no functions at all is neutral,
/// no unsafe functions is safe, under half is a warning, half or more is
/// danger.
pub fn get_safety_class(unsafe_count: u64, total_count: u64) -> (r: &'static str)
    ensures
        total_count == 0 ==> r@ == "neutral"@,
        total_count > 0 && unsafe_count == 0 ==> r@ == "safe"@,
        total_count > 0 && 0 < unsafe_count && 2 * unsafe_count < total_count ==> r@
            == "warning"@,
        total_count > 0 && 0 < unsafe_count && 2 * unsafe_count >= total_count ==> r@
            == "danger"@,
{
    if total_count == 0 {
        "neutral"
    } else if unsafe_count == 0 {
        "safe"
    } else if (unsafe_count as u128) * 2 < (total_count as u128) {
        "warning"
    } else {
        "danger"
    }
}

/// Severity of a plain counter: zero is safe, a single digit warns, ten
/// or more is danger.
pub fn get_count_class(count: u64) -> (r: &'static str)
    ensures
        count == 0 ==> r@ == "safe"@,
        0 < count < 10 ==> r@ == "warning"@,
        count >= 10 ==> r@ == "danger"@,
{
    if count == 0 {
        "safe"
    } else if count < 10 {
        "warning"
    } else {
        "danger"
    }
}

/// A delta as review-comment text: `0` unchanged, otherwise the signed
/// decimal value.
pub fn format_pr_delta(delta: i64) -> (r: String)
    ensures
        delta == 0 ==> r@ == "0"@,
        delta > 0 ==> r@ == "+"@ + spec_u64_digits(delta as nat),
        delta < 0 ==> r@ == "-"@ + spec_u64_digits((-(delta as int)) as nat),
{
    if delta == 0 {
        String::from_str("0")
    } else if delta > 0 {
        let mut out = String::from_str("+");
        push_u64(delta as u64, &mut out);
        out
    } else {
        let magnitude = (-(delta as i128)) as u64;
        let mut out = String::from_str("-");
        push_u64(magnitude, &mut out);
        out
    }
}

/// A before/after delta as summary text: `no change`, or the signed
/// decimal difference.
pub fn format_change_delta(before: u64, after: u64) -> (r: String)
    ensures
        after == before ==> r@ == "no change"@,
        after > before ==> r@ == "+"@ + spec_u64_digits((after - before) as nat),
        after < before ==> r@ == "-"@ + spec_u64_digits((before - after) as nat),
{
    if after == before {
        String::from_str("no change")
    } else if after > before {
        let mut out = String::from_str("+");
        push_u64(after - before, &mut out);
        out
    } else {
        let mut out = String::from_str("-");
        push_u64(before - after, &mut out);
        out
    }
}

} // verus!
