//! Tests for the metrics collector and the two candidate detectors,
//! driven by hand-built syntax trees.

use crate_report::bool_candidates;
use crate_report::collect::collect;
use crate_report::safe_candidates;
use crate_report::syntax::{Arm, Block, Expr, FnDecl, Item, Lit, SourceFile, Stmt, Ty};

fn tree_block(stmts: Vec<Stmt>) -> Block {
    Block { stmts }
}

fn tree_expr_stmt(expr: Expr, semi: bool) -> Stmt {
    Stmt::Expr { expr: Box::new(expr), semi }
}

fn tree_int(digits: &str) -> Expr {
    Expr::Lit(Lit::Int { digits: digits.to_string() })
}

fn tree_return(value: Expr) -> Expr {
    Expr::Return(Some(Box::new(value)))
}

fn tree_call() -> Expr {
    Expr::Other { exprs: Vec::new(), blocks: Vec::new() }
}

fn tree_i32() -> Ty {
    Ty::Path { last_segment: Some("i32".to_string()) }
}

fn tree_bool_ty() -> Ty {
    Ty::Path { last_segment: Some("bool".to_string()) }
}

fn tree_fn(name: &str, line: usize, is_unsafe: bool, params: Vec<Ty>, ret: Option<Ty>, body: Block) -> FnDecl {
    FnDecl { name: name.to_string(), line, is_unsafe, params, ret, body }
}

fn tree_file(items: Vec<Item>) -> SourceFile {
    SourceFile { items }
}

fn bool_candidate_names(file: &SourceFile) -> Vec<String> {
    let report = bool_candidates::analyze_file("sample.rs".to_string(), file);
    report.stats.candidates.iter().map(|c| c.fn_name.clone()).collect()
}

#[test]
fn unsafe_statement_counting_one_block() {
    // One unsafe block with exactly three statements.
    let body = tree_block(vec![tree_expr_stmt(
        Expr::Unsafe(tree_block(vec![
            tree_expr_stmt(tree_call(), true),
            tree_expr_stmt(tree_call(), true),
            tree_expr_stmt(tree_call(), true),
        ])),
        true,
    )]);
    let file = tree_file(vec![Item::Fn(tree_fn("u", 1, false, vec![], None, body))]);
    let stats = collect(&file, &Vec::new());
    assert_eq!(stats.unsafe_statements, 3);
    assert_eq!(stats.total_fns, 1);
    assert_eq!(stats.unsafe_fns, 0);
    // the unsafe-block statement itself plus its three direct statements
    assert_eq!(stats.total_statements, 4);
}

#[test]
fn unsafe_statement_counting_two_blocks() {
    // A second unsafe block with two statements in the same file adds up.
    let body = tree_block(vec![
        tree_expr_stmt(
            Expr::Unsafe(tree_block(vec![
                tree_expr_stmt(tree_call(), true),
                tree_expr_stmt(tree_call(), true),
                tree_expr_stmt(tree_call(), true),
            ])),
            true,
        ),
        tree_expr_stmt(
            Expr::Unsafe(tree_block(vec![
                tree_expr_stmt(tree_call(), true),
                tree_expr_stmt(tree_call(), true),
            ])),
            true,
        ),
    ]);
    let file = tree_file(vec![Item::Fn(tree_fn("u", 1, false, vec![], None, body))]);
    let stats = collect(&file, &Vec::new());
    assert_eq!(stats.unsafe_statements, 5);
}

#[test]
fn nested_unsafe_blocks_count_their_own_statements() {
    // An unsafe block holding one statement that is itself an unsafe
    // block with two statements: 1 + 2.
    let inner = Expr::Unsafe(tree_block(vec![
        tree_expr_stmt(tree_call(), true),
        tree_expr_stmt(tree_call(), true),
    ]));
    let outer = Expr::Unsafe(tree_block(vec![tree_expr_stmt(inner, true)]));
    let body = tree_block(vec![tree_expr_stmt(outer, true)]);
    let file = tree_file(vec![Item::Fn(tree_fn("u", 1, false, vec![], None, body))]);
    let stats = collect(&file, &Vec::new());
    assert_eq!(stats.unsafe_statements, 3);
}

#[test]
fn function_and_static_counting() {
    let inner_fn = Item::Fn(tree_fn("inner", 3, true, vec![], None, tree_block(vec![])));
    let outer_body = tree_block(vec![Stmt::Item(Box::new(inner_fn))]);
    let file = tree_file(vec![
        Item::Fn(tree_fn("outer", 1, false, vec![], None, outer_body)),
        Item::Static { mutable: true, init: Box::new(tree_int("0")) },
        Item::Static { mutable: false, init: Box::new(tree_int("0")) },
    ]);
    let stats = collect(&file, &Vec::new());
    assert_eq!(stats.total_fns, 2);
    assert_eq!(stats.unsafe_fns, 1);
    assert_eq!(stats.static_mut_items, 1);
    // the nested item declaration is one statement
    assert_eq!(stats.total_statements, 1);
}

#[test]
fn unwrap_calls_are_counted_at_any_depth() {
    let inner_unwrap = Expr::MethodCall {
        method: "unwrap".to_string(),
        receiver: Box::new(tree_call()),
        args: vec![],
    };
    let outer_unwrap = Expr::MethodCall {
        method: "unwrap".to_string(),
        receiver: Box::new(inner_unwrap),
        args: vec![],
    };
    let other_call = Expr::MethodCall {
        method: "expect".to_string(),
        receiver: Box::new(tree_call()),
        args: vec![outer_unwrap],
    };
    let body = tree_block(vec![tree_expr_stmt(other_call, true)]);
    let file = tree_file(vec![Item::Fn(tree_fn("f", 1, false, vec![], None, body))]);
    let stats = collect(&file, &Vec::new());
    assert_eq!(stats.unwraps, 2);
}

#[test]
fn line_counting_follows_the_source_text() {
    let file = tree_file(vec![]);
    assert_eq!(collect(&file, &b"".to_vec()).total_lines, 0);
    assert_eq!(collect(&file, &b"a\nb\nc".to_vec()).total_lines, 3);
    assert_eq!(collect(&file, &b"a\nb\n".to_vec()).total_lines, 2);
    assert_eq!(collect(&file, &b"\n\n".to_vec()).total_lines, 2);
}

#[test]
fn collector_never_reports_more_unsafe_than_total_fns() {
    let file = tree_file(vec![
        Item::Fn(tree_fn("a", 1, true, vec![], None, tree_block(vec![]))),
        Item::Fn(tree_fn("b", 2, true, vec![], None, tree_block(vec![]))),
    ]);
    let stats = collect(&file, &Vec::new());
    assert!(stats.unsafe_fns <= stats.total_fns);
    assert_eq!(stats.unsafe_fns, 2);
}

#[test]
fn bool_candidate_early_return_one_tail_zero() {
    // fn f() -> i32 { if cond() { return 1; } 0 }  -- detected
    let body = tree_block(vec![
        tree_expr_stmt(
            Expr::If {
                cond: Box::new(tree_call()),
                then_branch: tree_block(vec![tree_expr_stmt(tree_return(tree_int("1")), true)]),
                else_branch: None,
            },
            false,
        ),
        tree_expr_stmt(tree_int("0"), false),
    ]);
    let file = tree_file(vec![Item::Fn(tree_fn("f", 4, false, vec![], Some(tree_i32()), body))]);
    assert_eq!(bool_candidate_names(&file), vec!["f".to_string()]);
}

#[test]
fn bool_candidate_minus_one_rejected() {
    // fn g() -> i32 { if cond() { return -1; } 0 }  -- not detected
    let minus_one = Expr::Unary { neg: true, inner: Box::new(tree_int("1")) };
    let body = tree_block(vec![
        tree_expr_stmt(
            Expr::If {
                cond: Box::new(tree_call()),
                then_branch: tree_block(vec![tree_expr_stmt(tree_return(minus_one), true)]),
                else_branch: None,
            },
            false,
        ),
        tree_expr_stmt(tree_int("0"), false),
    ]);
    let file = tree_file(vec![Item::Fn(tree_fn("g", 20, false, vec![], Some(tree_i32()), body))]);
    assert_eq!(bool_candidate_names(&file).len(), 0);
}

#[test]
fn bool_candidate_wrong_return_type_rejected() {
    // fn h() -> bool { true }  -- not detected (wrong return type)
    let body = tree_block(vec![tree_expr_stmt(tree_call(), false)]);
    let file = tree_file(vec![Item::Fn(tree_fn(
        "h",
        28,
        false,
        vec![],
        Some(tree_bool_ty()),
        body,
    ))]);
    assert_eq!(bool_candidate_names(&file).len(), 0);
}

#[test]
fn bool_candidate_match_arms_zero_or_one() {
    // every arm yields the literal 0 or 1  -- detected
    let arms = vec![
        Arm { guard: Some(Box::new(tree_call())), body: Box::new(tree_int("1")) },
        Arm { guard: None, body: Box::new(tree_int("0")) },
    ];
    let body = tree_block(vec![tree_expr_stmt(
        Expr::Match { scrutinee: Box::new(tree_call()), arms },
        false,
    )]);
    let file = tree_file(vec![Item::Fn(tree_fn("m", 12, false, vec![], Some(tree_i32()), body))]);
    assert_eq!(bool_candidate_names(&file), vec!["m".to_string()]);
}

#[test]
fn bool_candidate_no_returns_rejected() {
    // fn l() -> i32 { loop {} }  -- never yields a value, not detected
    let endless = Expr::Other { exprs: vec![], blocks: vec![tree_block(vec![])] };
    let body = tree_block(vec![tree_expr_stmt(endless, false)]);
    let file = tree_file(vec![Item::Fn(tree_fn("l", 7, false, vec![], Some(tree_i32()), body))]);
    assert_eq!(bool_candidate_names(&file).len(), 0);

    // a body of only let statements has no return or tail either
    let lets = tree_block(vec![Stmt::Local { children: vec![tree_int("1")] }]);
    let file2 = tree_file(vec![Item::Fn(tree_fn("e", 9, false, vec![], Some(tree_i32()), lets))]);
    assert_eq!(bool_candidate_names(&file2).len(), 0);
}

#[test]
fn bool_candidate_returns_computed_value_rejected() {
    // fn c() -> i32 { return x; }  -- not a literal, not detected
    let body = tree_block(vec![tree_expr_stmt(tree_return(tree_call()), true)]);
    let file = tree_file(vec![Item::Fn(tree_fn("c", 33, false, vec![], Some(tree_i32()), body))]);
    assert_eq!(bool_candidate_names(&file).len(), 0);
}

#[test]
fn bool_candidate_negated_zero_accepted() {
    // a negated literal evaluating to 0 is degenerate but accepted
    let minus_zero = Expr::Unary { neg: true, inner: Box::new(tree_int("0")) };
    let body = tree_block(vec![tree_expr_stmt(minus_zero, false)]);
    let file = tree_file(vec![Item::Fn(tree_fn("z", 2, false, vec![], Some(tree_i32()), body))]);
    assert_eq!(bool_candidate_names(&file), vec!["z".to_string()]);
}

#[test]
fn bool_candidate_out_of_range_literal_is_no_match() {
    // an out-of-range literal parses to no i32 and never matches
    let body = tree_block(vec![
        tree_expr_stmt(tree_return(tree_int("2147483648")), true),
        tree_expr_stmt(tree_int("0"), false),
    ]);
    let file = tree_file(vec![Item::Fn(tree_fn("w", 5, false, vec![], Some(tree_i32()), body))]);
    assert_eq!(bool_candidate_names(&file).len(), 0);
}

#[test]
fn bool_candidate_line_numbers_reported() {
    let body = tree_block(vec![tree_expr_stmt(tree_int("1"), false)]);
    let file = tree_file(vec![Item::Fn(tree_fn("one", 17, false, vec![], Some(tree_i32()), body))]);
    let report = bool_candidates::analyze_file("lib.rs".to_string(), &file);
    assert_eq!(report.filename, "lib.rs");
    assert_eq!(report.stats.candidates.len(), 1);
    assert_eq!(report.stats.candidates[0].fn_name, "one");
    assert_eq!(report.stats.candidates[0].line_number, 17);
}

#[test]
fn bool_candidates_found_in_nested_functions() {
    let inner_body = tree_block(vec![tree_expr_stmt(tree_int("0"), false)]);
    let inner = Item::Fn(tree_fn("inner", 2, false, vec![], Some(tree_i32()), inner_body));
    let outer_body = tree_block(vec![Stmt::Item(Box::new(inner))]);
    let file = tree_file(vec![Item::Fn(tree_fn("outer", 1, false, vec![], None, outer_body))]);
    assert_eq!(bool_candidate_names(&file), vec!["inner".to_string()]);
}

#[test]
fn bool_find_candidates_sorts_and_drops_empty_files() {
    let file_z = tree_file(vec![Item::Fn(tree_fn(
        "zf",
        1,
        false,
        vec![],
        Some(tree_i32()),
        tree_block(vec![tree_expr_stmt(tree_int("1"), false)]),
    ))]);
    let file_a = tree_file(vec![Item::Fn(tree_fn(
        "af",
        1,
        false,
        vec![],
        Some(tree_i32()),
        tree_block(vec![tree_expr_stmt(tree_int("1"), false)]),
    ))]);
    let empty = tree_file(vec![]);
    let reports = vec![
        bool_candidates::analyze_file("z.rs".to_string(), &file_z),
        bool_candidates::analyze_file("m.rs".to_string(), &empty),
        bool_candidates::analyze_file("a.rs".to_string(), &file_a),
    ];
    let found = bool_candidates::find_candidates(reports);
    assert_eq!(found.len(), 2);
    assert_eq!(found[0].filename, "a.rs");
    assert_eq!(found[1].filename, "z.rs");
}

#[test]
fn safe_candidate_unsafe_without_raw_pointers_flagged() {
    let d = tree_fn("do_it", 3, true, vec![tree_i32(), tree_bool_ty()], None, tree_block(vec![]));
    assert!(safe_candidates::detect_safe_candidate(&d));
}

#[test]
fn safe_candidate_raw_pointer_parameter_rejected() {
    let d = tree_fn("touch", 8, true, vec![Ty::Ptr], None, tree_block(vec![]));
    assert!(!safe_candidates::detect_safe_candidate(&d));
}

#[test]
fn safe_candidate_safe_function_never_flagged() {
    let no_params = tree_fn("plain", 1, false, vec![], None, tree_block(vec![]));
    let with_ptr = tree_fn("plain_ptr", 2, false, vec![Ty::Ptr], None, tree_block(vec![]));
    assert!(!safe_candidates::detect_safe_candidate(&no_params));
    assert!(!safe_candidates::detect_safe_candidate(&with_ptr));
}

#[test]
fn safe_find_candidates_groups_per_file() {
    let file = tree_file(vec![
        Item::Fn(tree_fn("ok", 1, true, vec![], None, tree_block(vec![]))),
        Item::Fn(tree_fn("no", 2, true, vec![Ty::Ptr], None, tree_block(vec![]))),
    ]);
    let report = safe_candidates::analyze_file("s.rs".to_string(), &file);
    assert_eq!(report.candidates.len(), 1);
    assert_eq!(report.candidates[0].fn_name, "ok");
    assert_eq!(report.candidates[0].line_number, 1);
    let found = safe_candidates::find_candidates(vec![report]);
    assert_eq!(found.len(), 1);
    assert_eq!(found[0].filename, "s.rs");
}
