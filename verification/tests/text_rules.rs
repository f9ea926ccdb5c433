//! Tests for decimal reading/writing, the severity classes, the delta
//! texts, string ordering and the detector helpers on single nodes.

use crate_report::bool_candidates::{
    check_block_returns_only_zero_or_one, is_i32_type, is_zero_or_one_literal,
};
use crate_report::decimal::{parse_i32, parse_u64, u64_string};
use crate_report::render::{
    format_change_delta, format_pr_delta, get_count_class, get_safety_class,
};
use crate_report::stats::CodeStats;
use crate_report::strorder::{str_compare, str_equal, StrCmp};
use crate_report::syntax::{Block, Expr, Lit, Stmt, Ty};
use crate_report::samples;

#[test]
fn parse_u64_accepts_plain_and_signed_plus() {
    assert_eq!(parse_u64("0"), Some(0));
    assert_eq!(parse_u64("42"), Some(42));
    assert_eq!(parse_u64("+42"), Some(42));
    assert_eq!(parse_u64("007"), Some(7));
    assert_eq!(parse_u64("18446744073709551615"), Some(u64::MAX));
}

#[test]
fn parse_u64_rejects_bad_text() {
    assert_eq!(parse_u64(""), None);
    assert_eq!(parse_u64("+"), None);
    assert_eq!(parse_u64("-1"), None);
    assert_eq!(parse_u64("4 2"), None);
    assert_eq!(parse_u64("12a"), None);
    assert_eq!(parse_u64("18446744073709551616"), None);
    assert_eq!(parse_u64("99999999999999999999999999"), None);
}

#[test]
fn parse_i32_handles_signs_and_range() {
    assert_eq!(parse_i32("0"), Some(0));
    assert_eq!(parse_i32("1"), Some(1));
    assert_eq!(parse_i32("+1"), Some(1));
    assert_eq!(parse_i32("-1"), Some(-1));
    assert_eq!(parse_i32("2147483647"), Some(i32::MAX));
    assert_eq!(parse_i32("-2147483648"), Some(i32::MIN));
    assert_eq!(parse_i32("2147483648"), None);
    assert_eq!(parse_i32("-2147483649"), None);
    assert_eq!(parse_i32(""), None);
    assert_eq!(parse_i32("-"), None);
    assert_eq!(parse_i32("1x"), None);
}

#[test]
fn u64_string_prints_decimal() {
    assert_eq!(u64_string(0), "0");
    assert_eq!(u64_string(7), "7");
    assert_eq!(u64_string(1234567890), "1234567890");
    assert_eq!(u64_string(u64::MAX), "18446744073709551615");
}

#[test]
fn safety_class_thresholds() {
    assert_eq!(get_safety_class(0, 0), "neutral");
    assert_eq!(get_safety_class(0, 5), "safe");
    assert_eq!(get_safety_class(2, 5), "warning");
    assert_eq!(get_safety_class(3, 5), "danger");
    // exactly half the functions unsafe is danger
    assert_eq!(get_safety_class(1, 2), "danger");
}

#[test]
fn count_class_thresholds() {
    assert_eq!(get_count_class(0), "safe");
    assert_eq!(get_count_class(1), "warning");
    assert_eq!(get_count_class(9), "warning");
    assert_eq!(get_count_class(10), "danger");
    assert_eq!(get_count_class(50), "danger");
}

#[test]
fn pr_delta_text() {
    assert_eq!(format_pr_delta(0), "0");
    assert_eq!(format_pr_delta(5), "+5");
    assert_eq!(format_pr_delta(-7), "-7");
    assert_eq!(format_pr_delta(i64::MIN), "-9223372036854775808");
}

#[test]
fn change_delta_text() {
    assert_eq!(format_change_delta(3, 3), "no change");
    assert_eq!(format_change_delta(3, 10), "+7");
    assert_eq!(format_change_delta(10, 3), "-7");
}

#[test]
fn string_order_is_lexicographic() {
    assert!(matches!(str_compare("a.rs", "b.rs"), StrCmp::Less));
    assert!(matches!(str_compare("b.rs", "a.rs"), StrCmp::Greater));
    assert!(matches!(str_compare("a.rs", "a.rs"), StrCmp::Equal));
    assert!(matches!(str_compare("a", "ab"), StrCmp::Less));
    assert!(str_equal("same", "same"));
    assert!(!str_equal("same", "Same"));
}

#[test]
fn i32_type_goes_by_the_last_path_segment() {
    assert!(is_i32_type(&Ty::Path { last_segment: Some("i32".to_string()) }));
    assert!(!is_i32_type(&Ty::Path { last_segment: Some("u32".to_string()) }));
    assert!(!is_i32_type(&Ty::Path { last_segment: None }));
    assert!(!is_i32_type(&Ty::Ptr));
    assert!(!is_i32_type(&Ty::Other));
}

#[test]
fn zero_or_one_literal_rules() {
    let lit = |d: &str| Expr::Lit(Lit::Int { digits: d.to_string() });
    assert!(is_zero_or_one_literal(&lit("0")));
    assert!(is_zero_or_one_literal(&lit("1")));
    assert!(!is_zero_or_one_literal(&lit("2")));
    assert!(!is_zero_or_one_literal(&lit("999")));
    assert!(!is_zero_or_one_literal(&Expr::Lit(Lit::Other)));
    let neg = |d: &str| Expr::Unary { neg: true, inner: Box::new(lit(d)) };
    assert!(is_zero_or_one_literal(&neg("0")));
    assert!(!is_zero_or_one_literal(&neg("1")));
    let not_neg = Expr::Unary { neg: false, inner: Box::new(lit("1")) };
    assert!(!is_zero_or_one_literal(&not_neg));
}

#[test]
fn empty_block_has_no_returns() {
    let empty = Block { stmts: Vec::new() };
    assert!(!check_block_returns_only_zero_or_one(&empty));
    let only_semi = Block {
        stmts: vec![Stmt::Expr {
            expr: Box::new(Expr::Lit(Lit::Int { digits: "1".to_string() })),
            semi: true,
        }],
    };
    assert!(!check_block_returns_only_zero_or_one(&only_semi));
}

#[test]
fn sample_functions_behave_as_documented() {
    assert_eq!(samples::is_valid(), 1);
    assert_eq!(samples::check_status(), 1);
    assert_eq!(samples::get_code(), 0);
    assert!(samples::is_enabled());
    assert_eq!(samples::compute_value(), 42);
    assert_eq!(samples::simple_flag(), 1);
    assert!(samples::some_condition());
    assert_eq!(samples::get_state(), Some(1));
    assert!(!samples::error_condition());
    assert_eq!(samples::calculate(), 42);
    assert!(samples::ready());
}

#[test]
fn default_stats_record_is_all_zero() {
    let d = CodeStats::default();
    assert_eq!(d.static_mut_items, 0);
    assert_eq!(d.total_fns, 0);
    assert_eq!(d.total_lines, 0);
    assert_eq!(d.total_statements, 0);
    assert_eq!(d.unsafe_fns, 0);
    assert_eq!(d.unsafe_statements, 0);
    assert_eq!(d.unwraps, 0);
    assert!(d.is_perfect());
}
