//! The metrics collector: one pass over a syntax tree, producing the
//! seven safety counters of a `CodeStats`.
//!
//! The spec side (`stats_of_*`) states, node kind by node kind, what each
//! construct contributes: a function declaration counts once (twice if
//! unsafe), every statement at any depth counts once, an unsafe region
//! contributes the number of its direct statements, a mutable static and
//! an `unwrap` call count once each.  The executable walk returns exactly
//! the clamped mathematical totals.

use vstd::prelude::*;

use crate::stats::{
    lemma_clamp_add_left, lemma_clamp_add_right, stats_add, stats_clamp, stats_zero, sat_add,
    sat64, CodeStats, StatsModel,
};
use crate::strorder::str_equal;
use crate::syntax::{Arm, Block, Expr, Item, SourceFile, Stmt};

verus! {

/// Contribution of one function declaration header.
pub open spec fn fn_header_stats(is_unsafe: bool) -> StatsModel {
    StatsModel {
        static_mut_items: 0,
        total_fns: 1,
        total_lines: 0,
        total_statements: 0,
        unsafe_fns: if is_unsafe {
            1
        } else {
            0
        },
        unsafe_statements: 0,
        unwraps: 0,
    }
}

/// Contribution of one static item header.
pub open spec fn static_header_stats(mutable: bool) -> StatsModel {
    StatsModel {
        static_mut_items: if mutable {
            1
        } else {
            0
        },
        total_fns: 0,
        total_lines: 0,
        total_statements: 0,
        unsafe_fns: 0,
        unsafe_statements: 0,
        unwraps: 0,
    }
}

/// Contribution of one statement node itself.
pub open spec fn stmt_self_stats() -> StatsModel {
    StatsModel {
        static_mut_items: 0,
        total_fns: 0,
        total_lines: 0,
        total_statements: 1,
        unsafe_fns: 0,
        unsafe_statements: 0,
        unwraps: 0,
    }
}

/// Contribution of one unsafe region with `n` direct statements.
pub open spec fn unsafe_region_stats(n: nat) -> StatsModel {
    StatsModel {
        static_mut_items: 0,
        total_fns: 0,
        total_lines: 0,
        total_statements: 0,
        unsafe_fns: 0,
        unsafe_statements: n,
        unwraps: 0,
    }
}

/// Contribution of one method-style call with the given selector.
pub open spec fn method_call_stats(method: Seq<char>) -> StatsModel {
    StatsModel {
        static_mut_items: 0,
        total_fns: 0,
        total_lines: 0,
        total_statements: 0,
        unsafe_fns: 0,
        unsafe_statements: 0,
        unwraps: if method == "unwrap"@ {
            1
        } else {
            0
        },
    }
}

/// A record holding only a line count.
pub open spec fn lines_stats(n: nat) -> StatsModel {
    StatsModel {
        static_mut_items: 0,
        total_fns: 0,
        total_lines: n,
        total_statements: 0,
        unsafe_fns: 0,
        unsafe_statements: 0,
        unwraps: 0,
    }
}

pub open spec fn stats_of_items(items: Seq<Item>) -> StatsModel
    decreases items,
{
    if items.len() == 0 {
        stats_zero()
    } else {
        stats_add(stats_of_items(items.drop_last()), stats_of_item(items.last()))
    }
}

pub open spec fn stats_of_item(item: Item) -> StatsModel
    decreases item,
{
    match item {
        Item::Fn(d) => stats_add(fn_header_stats(d.is_unsafe), stats_of_stmts(d.body.stmts@)),
        Item::Static { mutable, init } => stats_add(
            static_header_stats(mutable),
            stats_of_expr(*init),
        ),
        Item::Other { items, exprs } => stats_add(
            stats_of_items(items@),
            stats_of_exprs(exprs@),
        ),
    }
}

pub open spec fn stats_of_stmts(stmts: Seq<Stmt>) -> StatsModel
    decreases stmts,
{
    if stmts.len() == 0 {
        stats_zero()
    } else {
        stats_add(stats_of_stmts(stmts.drop_last()), stats_of_stmt(stmts.last()))
    }
}

pub open spec fn stats_of_stmt(stmt: Stmt) -> StatsModel
    decreases stmt,
{
    stats_add(
        stmt_self_stats(),
        match stmt {
            Stmt::Local { children } => stats_of_exprs(children@),
            Stmt::Item(item) => stats_of_item(*item),
            Stmt::Expr { expr, semi } => stats_of_expr(*expr),
            Stmt::Other => stats_zero(),
        },
    )
}

pub open spec fn stats_of_exprs(exprs: Seq<Expr>) -> StatsModel
    decreases exprs,
{
    if exprs.len() == 0 {
        stats_zero()
    } else {
        stats_add(stats_of_exprs(exprs.drop_last()), stats_of_expr(exprs.last()))
    }
}

pub open spec fn stats_of_expr(expr: Expr) -> StatsModel
    decreases expr,
{
    match expr {
        Expr::Lit(_) => stats_zero(),
        Expr::Unary { neg, inner } => stats_of_expr(*inner),
        Expr::Return(value) => match value {
            Some(inner) => stats_of_expr(*inner),
            None => stats_zero(),
        },
        Expr::Block(block) => stats_of_stmts(block.stmts@),
        Expr::Unsafe(block) => stats_add(
            unsafe_region_stats(block.stmts@.len()),
            stats_of_stmts(block.stmts@),
        ),
        Expr::If { cond, then_branch, else_branch } => stats_add(
            stats_add(stats_of_expr(*cond), stats_of_stmts(then_branch.stmts@)),
            match else_branch {
                Some(inner) => stats_of_expr(*inner),
                None => stats_zero(),
            },
        ),
        Expr::Match { scrutinee, arms } => stats_add(
            stats_of_expr(*scrutinee),
            stats_of_arms(arms@),
        ),
        Expr::MethodCall { method, receiver, args } => stats_add(
            stats_add(method_call_stats(method@), stats_of_expr(*receiver)),
            stats_of_exprs(args@),
        ),
        Expr::Other { exprs, blocks } => stats_add(
            stats_of_exprs(exprs@),
            stats_of_blocks(blocks@),
        ),
    }
}

pub open spec fn stats_of_arms(arms: Seq<Arm>) -> StatsModel
    decreases arms,
{
    if arms.len() == 0 {
        stats_zero()
    } else {
        stats_add(stats_of_arms(arms.drop_last()), stats_of_arm(arms.last()))
    }
}

pub open spec fn stats_of_arm(arm: Arm) -> StatsModel
    decreases arm,
{
    stats_add(
        match arm.guard {
            Some(inner) => stats_of_expr(*inner),
            None => stats_zero(),
        },
        stats_of_expr(*arm.body),
    )
}

pub open spec fn stats_of_blocks(blocks: Seq<Block>) -> StatsModel
    decreases blocks,
{
    if blocks.len() == 0 {
        stats_zero()
    } else {
        stats_add(stats_of_blocks(blocks.drop_last()), stats_of_stmts(blocks.last().stmts@))
    }
}

/// Number of newline bytes in the text.
pub open spec fn newline_count(s: Seq<u8>) -> nat
    decreases s.len(),
{
    if s.len() == 0 {
        0
    } else {
        newline_count(s.drop_last()) + if s.last() == 10 {
            1nat
        } else {
            0nat
        }
    }
}

/// Number of lines of the text: every newline ends a line, and a final
/// fragment without a trailing newline counts as one more line.
pub open spec fn line_count(s: Seq<u8>) -> nat {
    newline_count(s) + if s.len() > 0 && s.last() != 10 {
        1nat
    } else {
        0nat
    }
}

/// Everything `collect` reports for a file: the tree's counters plus the
/// line count of the source text.
pub open spec fn collect_spec(file: SourceFile, source: Seq<u8>) -> StatsModel {
    stats_add(stats_of_items(file.items@), lines_stats(line_count(source)))
}

proof fn lemma_clamp_add_both(a: StatsModel, b: StatsModel)
    ensures
        stats_clamp(stats_add(stats_clamp(a), stats_clamp(b))) == stats_clamp(stats_add(a, b)),
{
    lemma_clamp_add_left(a, stats_clamp(b));
    lemma_clamp_add_right(a, b);
}

fn collect_items(items: &Vec<Item>) -> (r: CodeStats)
    ensures
        r@ == stats_clamp(stats_of_items(items@)),
    decreases items@,
{
    let mut acc = CodeStats::default();
    proof {
        assert(items@.take(0) =~= Seq::<Item>::empty());
    }
    let mut j: usize = 0;
    while j < items.len()
        invariant
            0 <= j <= items@.len(),
            acc@ == stats_clamp(stats_of_items(items@.take(j as int))),
        decreases items@.len() - j,
    {
        let delta = collect_item(&items[j]);
        proof {
            let pre = items@.take(j as int);
            let post = items@.take(j as int + 1);
            assert(post.drop_last() =~= pre);
            assert(post.last() == items@[j as int]);
            lemma_clamp_add_both(stats_of_items(pre), stats_of_item(items@[j as int]));
        }
        acc = acc.plus(&delta);
        j = j + 1;
    }
    proof {
        assert(items@.take(items@.len() as int) =~= items@);
    }
    acc
}

fn collect_item(item: &Item) -> (r: CodeStats)
    ensures
        r@ == stats_clamp(stats_of_item(*item)),
    decreases *item,
{
    match item {
        Item::Fn(d) => {
            let header = CodeStats {
                static_mut_items: 0,
                total_fns: 1,
                total_lines: 0,
                total_statements: 0,
                unsafe_fns: if d.is_unsafe {
                    1
                } else {
                    0
                },
                unsafe_statements: 0,
                unwraps: 0,
            };
            let body = collect_block(&d.body);
            proof {
                assert(header@ == stats_clamp(fn_header_stats(d.is_unsafe)));
                lemma_clamp_add_both(
                    fn_header_stats(d.is_unsafe),
                    stats_of_stmts(d.body.stmts@),
                );
            }
            header.plus(&body)
        },
        Item::Static { mutable, init } => {
            let header = CodeStats {
                static_mut_items: if *mutable {
                    1
                } else {
                    0
                },
                total_fns: 0,
                total_lines: 0,
                total_statements: 0,
                unsafe_fns: 0,
                unsafe_statements: 0,
                unwraps: 0,
            };
            let body = collect_expr(&**init);
            proof {
                assert(header@ == stats_clamp(static_header_stats(*mutable)));
                lemma_clamp_add_both(static_header_stats(*mutable), stats_of_expr(**init));
            }
            header.plus(&body)
        },
        Item::Other { items, exprs } => {
            let a = collect_items(items);
            let b = collect_exprs(exprs);
            proof {
                lemma_clamp_add_both(stats_of_items(items@), stats_of_exprs(exprs@));
            }
            a.plus(&b)
        },
    }
}

fn collect_block(block: &Block) -> (r: CodeStats)
    ensures
        r@ == stats_clamp(stats_of_stmts(block.stmts@)),
    decreases *block,
{
    let stmts = &block.stmts;
    let mut acc = CodeStats::default();
    proof {
        assert(stmts@.take(0) =~= Seq::<Stmt>::empty());
    }
    let mut j: usize = 0;
    while j < stmts.len()
        invariant
            0 <= j <= stmts@.len(),
            stmts@ == block.stmts@,
            acc@ == stats_clamp(stats_of_stmts(stmts@.take(j as int))),
        decreases stmts@.len() - j,
    {
        let delta = collect_stmt(&stmts[j]);
        proof {
            let pre = stmts@.take(j as int);
            let post = stmts@.take(j as int + 1);
            assert(post.drop_last() =~= pre);
            assert(post.last() == stmts@[j as int]);
            lemma_clamp_add_both(stats_of_stmts(pre), stats_of_stmt(stmts@[j as int]));
        }
        acc = acc.plus(&delta);
        j = j + 1;
    }
    proof {
        assert(stmts@.take(stmts@.len() as int) =~= stmts@);
    }
    acc
}

fn collect_stmt(stmt: &Stmt) -> (r: CodeStats)
    ensures
        r@ == stats_clamp(stats_of_stmt(*stmt)),
    decreases *stmt,
{
    let one = CodeStats {
        static_mut_items: 0,
        total_fns: 0,
        total_lines: 0,
        total_statements: 1,
        unsafe_fns: 0,
        unsafe_statements: 0,
        unwraps: 0,
    };
    proof {
        assert(one@ == stats_clamp(stmt_self_stats()));
    }
    match stmt {
        Stmt::Local { children } => {
            let inner = collect_exprs(children);
            proof {
                lemma_clamp_add_both(stmt_self_stats(), stats_of_exprs(children@));
            }
            one.plus(&inner)
        },
        Stmt::Item(item) => {
            let inner = collect_item(&**item);
            proof {
                lemma_clamp_add_both(stmt_self_stats(), stats_of_item(**item));
            }
            one.plus(&inner)
        },
        Stmt::Expr { expr, semi } => {
            let inner = collect_expr(&**expr);
            proof {
                lemma_clamp_add_both(stmt_self_stats(), stats_of_expr(**expr));
            }
            one.plus(&inner)
        },
        Stmt::Other => {
            proof {
                lemma_clamp_add_right(stmt_self_stats(), stats_zero());
            }
            one
        },
    }
}

fn collect_exprs(exprs: &Vec<Expr>) -> (r: CodeStats)
    ensures
        r@ == stats_clamp(stats_of_exprs(exprs@)),
    decreases exprs@,
{
    let mut acc = CodeStats::default();
    proof {
        assert(exprs@.take(0) =~= Seq::<Expr>::empty());
    }
    let mut j: usize = 0;
    while j < exprs.len()
        invariant
            0 <= j <= exprs@.len(),
            acc@ == stats_clamp(stats_of_exprs(exprs@.take(j as int))),
        decreases exprs@.len() - j,
    {
        let delta = collect_expr(&exprs[j]);
        proof {
            let pre = exprs@.take(j as int);
            let post = exprs@.take(j as int + 1);
            assert(post.drop_last() =~= pre);
            assert(post.last() == exprs@[j as int]);
            lemma_clamp_add_both(stats_of_exprs(pre), stats_of_expr(exprs@[j as int]));
        }
        acc = acc.plus(&delta);
        j = j + 1;
    }
    proof {
        assert(exprs@.take(exprs@.len() as int) =~= exprs@);
    }
    acc
}

fn collect_expr(expr: &Expr) -> (r: CodeStats)
    ensures
        r@ == stats_clamp(stats_of_expr(*expr)),
    decreases *expr,
{
    match expr {
        Expr::Lit(_) => {
            let r = CodeStats::default();
            r
        },
        Expr::Unary { neg, inner } => collect_expr(&**inner),
        Expr::Return(value) => match value {
            Some(inner) => collect_expr(&**inner),
            None => CodeStats::default(),
        },
        Expr::Block(block) => collect_block(block),
        Expr::Unsafe(block) => {
            let direct = block.stmts.len();
            let header = CodeStats {
                static_mut_items: 0,
                total_fns: 0,
                total_lines: 0,
                total_statements: 0,
                unsafe_fns: 0,
                unsafe_statements: direct as u64,
                unwraps: 0,
            };
            let body = collect_block(block);
            proof {
                assert(header@ == stats_clamp(unsafe_region_stats(block.stmts@.len())));
                lemma_clamp_add_both(
                    unsafe_region_stats(block.stmts@.len()),
                    stats_of_stmts(block.stmts@),
                );
            }
            header.plus(&body)
        },
        Expr::If { cond, then_branch, else_branch } => {
            let a = collect_expr(&**cond);
            let b = collect_block(then_branch);
            proof {
                lemma_clamp_add_both(stats_of_expr(**cond), stats_of_stmts(then_branch.stmts@));
            }
            let ab = a.plus(&b);
            let c = match else_branch {
                Some(inner) => collect_expr(&**inner),
                None => CodeStats::default(),
            };
            proof {
                lemma_clamp_add_both(
                    stats_add(stats_of_expr(**cond), stats_of_stmts(then_branch.stmts@)),
                    match else_branch {
                        Some(inner) => stats_of_expr(**inner),
                        None => stats_zero(),
                    },
                );
            }
            ab.plus(&c)
        },
        Expr::Match { scrutinee, arms } => {
            let a = collect_expr(&**scrutinee);
            let b = collect_arms(arms);
            proof {
                lemma_clamp_add_both(stats_of_expr(**scrutinee), stats_of_arms(arms@));
            }
            a.plus(&b)
        },
        Expr::MethodCall { method, receiver, args } => {
            let header = CodeStats {
                static_mut_items: 0,
                total_fns: 0,
                total_lines: 0,
                total_statements: 0,
                unsafe_fns: 0,
                unsafe_statements: 0,
                unwraps: if str_equal(method.as_str(), "unwrap") {
                    1
                } else {
                    0
                },
            };
            let a = collect_expr(&**receiver);
            proof {
                assert(header@ == stats_clamp(method_call_stats(method@)));
                lemma_clamp_add_right(method_call_stats(method@), stats_of_expr(**receiver));
            }
            let ha = header.plus(&a);
            let b = collect_exprs(args);
            proof {
                lemma_clamp_add_both(
                    stats_add(method_call_stats(method@), stats_of_expr(**receiver)),
                    stats_of_exprs(args@),
                );
            }
            ha.plus(&b)
        },
        Expr::Other { exprs, blocks } => {
            let a = collect_exprs(exprs);
            let b = collect_blocks(blocks);
            proof {
                lemma_clamp_add_both(stats_of_exprs(exprs@), stats_of_blocks(blocks@));
            }
            a.plus(&b)
        },
    }
}

fn collect_arms(arms: &Vec<Arm>) -> (r: CodeStats)
    ensures
        r@ == stats_clamp(stats_of_arms(arms@)),
    decreases arms@,
{
    let mut acc = CodeStats::default();
    proof {
        assert(arms@.take(0) =~= Seq::<Arm>::empty());
    }
    let mut j: usize = 0;
    while j < arms.len()
        invariant
            0 <= j <= arms@.len(),
            acc@ == stats_clamp(stats_of_arms(arms@.take(j as int))),
        decreases arms@.len() - j,
    {
        let arm = &arms[j];
        let a = match &arm.guard {
            Some(inner) => collect_expr(&**inner),
            None => CodeStats::default(),
        };
        let b = collect_expr(&*arm.body);
        proof {
            lemma_clamp_add_both(
                match arms@[j as int].guard {
                    Some(inner) => stats_of_expr(*inner),
                    None => stats_zero(),
                },
                stats_of_expr(*arms@[j as int].body),
            );
        }
        let delta = a.plus(&b);
        proof {
            let pre = arms@.take(j as int);
            let post = arms@.take(j as int + 1);
            assert(post.drop_last() =~= pre);
            assert(post.last() == arms@[j as int]);
            lemma_clamp_add_both(stats_of_arms(pre), stats_of_arm(arms@[j as int]));
        }
        acc = acc.plus(&delta);
        j = j + 1;
    }
    proof {
        assert(arms@.take(arms@.len() as int) =~= arms@);
    }
    acc
}

fn collect_blocks(blocks: &Vec<Block>) -> (r: CodeStats)
    ensures
        r@ == stats_clamp(stats_of_blocks(blocks@)),
    decreases blocks@,
{
    let mut acc = CodeStats::default();
    proof {
        assert(blocks@.take(0) =~= Seq::<Block>::empty());
    }
    let mut j: usize = 0;
    while j < blocks.len()
        invariant
            0 <= j <= blocks@.len(),
            acc@ == stats_clamp(stats_of_blocks(blocks@.take(j as int))),
        decreases blocks@.len() - j,
    {
        let delta = collect_block(&blocks[j]);
        proof {
            let pre = blocks@.take(j as int);
            let post = blocks@.take(j as int + 1);
            assert(post.drop_last() =~= pre);
            assert(post.last() == blocks@[j as int]);
            lemma_clamp_add_both(
                stats_of_blocks(pre),
                stats_of_stmts(blocks@[j as int].stmts@),
            );
        }
        acc = acc.plus(&delta);
        j = j + 1;
    }
    proof {
        assert(blocks@.take(blocks@.len() as int) =~= blocks@);
    }
    acc
}

/// Number of lines of the source text, saturating at `u64::MAX`.
pub fn count_lines(source: &Vec<u8>) -> (r: u64)
    ensures
        r as nat == sat64(line_count(source@)),
{
    let mut count: u64 = 0;
    proof {
        assert(source@.take(0) =~= Seq::<u8>::empty());
    }
    let mut i: usize = 0;
    while i < source.len()
        invariant
            0 <= i <= source@.len(),
            count as nat == newline_count(source@.take(i as int)),
            count <= i,
        decreases source@.len() - i,
    {
        proof {
            let pre = source@.take(i as int);
            let post = source@.take(i as int + 1);
            assert(post.drop_last() =~= pre);
            assert(post.last() == source@[i as int]);
        }
        if source[i] == 10 {
            count = count + 1;
        }
        i = i + 1;
    }
    proof {
        assert(source@.take(source@.len() as int) =~= source@);
    }
    if source.len() > 0 && source[source.len() - 1] != 10 {
        sat_add(count, 1)
    } else {
        count
    }
}

/// Collects the safety counters of one parsed file: the tree's counters
/// plus the line count of its source text.  Each counter is the exact
/// count, saturating at `u64::MAX`; the number of unsafe functions never
/// exceeds the number of functions.
pub fn collect(file: &SourceFile, source: &Vec<u8>) -> (r: CodeStats)
    ensures
        r@ == stats_clamp(collect_spec(*file, source@)),
        r.unsafe_fns <= r.total_fns,
{
    let tree = collect_items(&file.items);
    let lines = count_lines(source);
    let line_part = CodeStats {
        static_mut_items: 0,
        total_fns: 0,
        total_lines: lines,
        total_statements: 0,
        unsafe_fns: 0,
        unsafe_statements: 0,
        unwraps: 0,
    };
    proof {
        assert(line_part@ == stats_clamp(lines_stats(line_count(source@))));
        lemma_clamp_add_both(
            stats_of_items(file.items@),
            lines_stats(line_count(source@)),
        );
        lemma_items_fn_invariant(file.items@);
    }
    tree.plus(&line_part)
}

/// In the counters of any item sequence, unsafe functions never outnumber
/// functions.
pub proof fn lemma_items_fn_invariant(items: Seq<Item>)
    ensures
        stats_of_items(items).unsafe_fns <= stats_of_items(items).total_fns,
    decreases items,
{
    if items.len() > 0 {
        lemma_items_fn_invariant(items.drop_last());
        lemma_item_fn_invariant(items.last());
    }
}

proof fn lemma_item_fn_invariant(item: Item)
    ensures
        stats_of_item(item).unsafe_fns <= stats_of_item(item).total_fns,
    decreases item,
{
    match item {
        Item::Fn(d) => lemma_stmts_fn_invariant(d.body.stmts@),
        Item::Static { mutable, init } => lemma_expr_fn_invariant(*init),
        Item::Other { items, exprs } => {
            lemma_items_fn_invariant(items@);
            lemma_exprs_fn_invariant(exprs@);
        },
    }
}

proof fn lemma_stmts_fn_invariant(stmts: Seq<Stmt>)
    ensures
        stats_of_stmts(stmts).unsafe_fns <= stats_of_stmts(stmts).total_fns,
    decreases stmts,
{
    if stmts.len() > 0 {
        lemma_stmts_fn_invariant(stmts.drop_last());
        lemma_stmt_fn_invariant(stmts.last());
    }
}

proof fn lemma_stmt_fn_invariant(stmt: Stmt)
    ensures
        stats_of_stmt(stmt).unsafe_fns <= stats_of_stmt(stmt).total_fns,
    decreases stmt,
{
    match stmt {
        Stmt::Local { children } => lemma_exprs_fn_invariant(children@),
        Stmt::Item(item) => lemma_item_fn_invariant(*item),
        Stmt::Expr { expr, semi } => lemma_expr_fn_invariant(*expr),
        Stmt::Other => {},
    }
}

proof fn lemma_exprs_fn_invariant(exprs: Seq<Expr>)
    ensures
        stats_of_exprs(exprs).unsafe_fns <= stats_of_exprs(exprs).total_fns,
    decreases exprs,
{
    if exprs.len() > 0 {
        lemma_exprs_fn_invariant(exprs.drop_last());
        lemma_expr_fn_invariant(exprs.last());
    }
}

proof fn lemma_expr_fn_invariant(expr: Expr)
    ensures
        stats_of_expr(expr).unsafe_fns <= stats_of_expr(expr).total_fns,
    decreases expr,
{
    match expr {
        Expr::Lit(_) => {},
        Expr::Unary { neg, inner } => lemma_expr_fn_invariant(*inner),
        Expr::Return(value) => match value {
            Some(inner) => lemma_expr_fn_invariant(*inner),
            None => {},
        },
        Expr::Block(block) => lemma_stmts_fn_invariant(block.stmts@),
        Expr::Unsafe(block) => lemma_stmts_fn_invariant(block.stmts@),
        Expr::If { cond, then_branch, else_branch } => {
            lemma_expr_fn_invariant(*cond);
            lemma_stmts_fn_invariant(then_branch.stmts@);
            match else_branch {
                Some(inner) => lemma_expr_fn_invariant(*inner),
                None => {},
            }
        },
        Expr::Match { scrutinee, arms } => {
            lemma_expr_fn_invariant(*scrutinee);
            lemma_arms_fn_invariant(arms@);
        },
        Expr::MethodCall { method, receiver, args } => {
            lemma_expr_fn_invariant(*receiver);
            lemma_exprs_fn_invariant(args@);
        },
        Expr::Other { exprs, blocks } => {
            lemma_exprs_fn_invariant(exprs@);
            lemma_blocks_fn_invariant(blocks@);
        },
    }
}

proof fn lemma_arms_fn_invariant(arms: Seq<Arm>)
    ensures
        stats_of_arms(arms).unsafe_fns <= stats_of_arms(arms).total_fns,
    decreases arms,
{
    if arms.len() > 0 {
        lemma_arms_fn_invariant(arms.drop_last());
        let arm = arms.last();
        match arm.guard {
            Some(inner) => lemma_expr_fn_invariant(*inner),
            None => {},
        }
        lemma_expr_fn_invariant(*arm.body);
        assert(stats_of_arm(arm).unsafe_fns <= stats_of_arm(arm).total_fns);
    }
}

proof fn lemma_blocks_fn_invariant(blocks: Seq<Block>)
    ensures
        stats_of_blocks(blocks).unsafe_fns <= stats_of_blocks(blocks).total_fns,
    decreases blocks,
{
    if blocks.len() > 0 {
        lemma_blocks_fn_invariant(blocks.drop_last());
        lemma_stmts_fn_invariant(blocks.last().stmts@);
    }
}

} // verus!
