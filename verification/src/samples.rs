//! Small example functions for the candidate heuristics.
//!
//! These are the shapes the `i32`-to-`bool` detector tells apart: pure
//! `0`/`1` returns, an early `-1`, a value computed elsewhere, a wrong
//! return type.  The tests mirror each of them as a syntax-tree value
//! and check what the detector decides.

use vstd::prelude::*;

verus! {

pub fn some_condition() -> (r: bool)
    ensures
        r,
{
    true
}

pub fn get_state() -> (r: Option<i32>)
    ensures
        r == Some(1i32),
{
    Some(1)
}

pub fn error_condition() -> (r: bool)
    ensures
        !r,
{
    false
}

pub fn calculate() -> (r: i32)
    ensures
        r == 42,
{
    42
}

pub fn ready() -> (r: bool)
    ensures
        r,
{
    true
}

/// Returns only the literals `1` and `0`: the detector flags this shape.
pub fn is_valid() -> (r: i32)
    ensures
        r == 1,
{
    if some_condition() {
        return 1;
    }
    0
}

/// Every match arm yields `0` or `1`: flagged as well.
pub fn check_status() -> (r: i32)
    ensures
        r == 1,
{
    match get_state() {
        Some(x) if x > 0 => 1,
        _ => 0,
    }
}

/// Returns `-1` on one path: not flagged.
pub fn get_code() -> (r: i32)
    ensures
        r == 0,
{
    if error_condition() {
        return -1;
    }
    0
}

/// Returns `bool`, not `i32`: not flagged.
pub fn is_enabled() -> (r: bool)
    ensures
        r,
{
    true
}

/// Returns a computed value, not a literal: not flagged.
pub fn compute_value() -> (r: i32)
    ensures
        r == 42,
{
    let x = calculate();
    return x;
}

/// A conditional tail yielding only literals: flagged.
pub fn simple_flag() -> (r: i32)
    ensures
        r == 1,
{
    if ready() {
        1
    } else {
        0
    }
}

} // verus!
