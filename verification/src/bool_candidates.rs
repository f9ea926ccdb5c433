//! Detector for functions that could return `bool` instead of `i32`.
//!
//! A function qualifies when its declared return type is exactly `i32`
//! and every explicit return and every final tail expression yields only
//! the literal `0` or `1` (a negated literal evaluating to `0` or `1`
//! counts as well).  The check is a recursive structural walk with the
//! deliberate blind spots of a heuristic: only explicit returns and tail
//! expressions are examined, and a function with no qualifying return or
//! tail at all is never flagged.

use vstd::prelude::*;

use crate::decimal::{parse_i32, spec_parse_i32};
use crate::strorder::{
    lemma_str_le_total, lemma_str_le_transitive, str_compare, str_equal, str_le, StrCmp,
};
use crate::syntax::{
    fns_of_file, fns_of_item, fns_of_items, fns_of_stmt, fns_of_stmts, fns_of_arm, fns_of_arms,
    fns_of_blocks, fns_of_expr, fns_of_exprs, Arm, Block, Expr, FnDecl, Item, Lit, SourceFile,
    Stmt, Ty,
};

verus! {

/// Candidates found in one file.
#[derive(Clone, Debug)]
pub struct FileStats {
    pub filename: String,
    pub stats: CodeStats,
}

/// One flagged function: its name and declaration line.
#[derive(Clone, Debug)]
pub struct BoolCandidate {
    pub fn_name: String,
    pub line_number: usize,
}

/// The candidates collected for one file.
#[derive(Clone, Debug)]
pub struct CodeStats {
    pub candidates: Vec<BoolCandidate>,
}

/// Walks a syntax tree and gathers the flagged functions in visit order.
pub struct CodeAnalyzer {
    pub stats: CodeStats,
}

/// Whether a type is spelled `i32` (by the last segment of its path).
pub open spec fn is_i32_ty(ty: Ty) -> bool {
    match ty {
        Ty::Path { last_segment } => match last_segment {
            Some(name) => name@ == "i32"@,
            None => false,
        },
        _ => false,
    }
}

/// Check if a type is i32.
pub fn is_i32_type(ty: &Ty) -> (r: bool)
    ensures
        r == is_i32_ty(*ty),
{
    match ty {
        Ty::Path { last_segment } => match last_segment {
            Some(name) => str_equal(name.as_str(), "i32"),
            None => false,
        },
        _ => false,
    }
}

/// Whether an expression is the literal `0` or `1`, or a negated integer
/// literal evaluating to `0` or `1`.  A literal that does not read as an
/// `i32` is never a match.
pub open spec fn is_zero_or_one(e: Expr) -> bool {
    match e {
        Expr::Lit(lit) => match lit {
            Lit::Int { digits } => spec_parse_i32(digits@) == Some(0i32) || spec_parse_i32(
                digits@,
            ) == Some(1i32),
            Lit::Other => false,
        },
        Expr::Unary { neg, inner } => neg && match *inner {
            Expr::Lit(lit) => match lit {
                Lit::Int { digits } => spec_parse_i32(digits@) == Some(0i32) || spec_parse_i32(
                    digits@,
                ) == Some((-1) as i32),
                Lit::Other => false,
            },
            _ => false,
        },
        _ => false,
    }
}

/// Check if an expression is a literal 0 or 1.
pub fn is_zero_or_one_literal(e: &Expr) -> (r: bool)
    ensures
        r == is_zero_or_one(*e),
{
    match e {
        Expr::Lit(lit) => match lit {
            Lit::Int { digits } => match parse_i32(digits.as_str()) {
                Some(v) => v == 0 || v == 1,
                None => false,
            },
            Lit::Other => false,
        },
        Expr::Unary { neg, inner } => {
            if !*neg {
                return false;
            }
            match &**inner {
                Expr::Lit(lit) => match lit {
                    Lit::Int { digits } => match parse_i32(digits.as_str()) {
                        Some(v) => v == 0 || v == -1,
                        None => false,
                    },
                    Lit::Other => false,
                },
                _ => false,
            }
        },
        _ => false,
    }
}

/// The recursive predicate over expressions: every explicit return in a
/// return/conditional/match/block position yields only `0` or `1`.
pub open spec fn check_expr_zo(e: Expr) -> bool
    decreases e, 0int,
{
    match e {
        Expr::Return(value) => match value {
            Some(inner) => is_zero_or_one(*inner),
            None => false,
        },
        Expr::Block(block) => check_block_zo(block),
        Expr::Unsafe(block) => check_block_zo(block),
        Expr::If { cond, then_branch, else_branch } => check_block_zo(then_branch) && match else_branch {
            Some(inner) => check_expr_zo(*inner),
            None => true,
        },
        Expr::Match { scrutinee, arms } => arms_zo(arms@),
        _ => true,
    }
}

pub open spec fn arms_zo(arms: Seq<Arm>) -> bool
    decreases arms, 0int,
{
    if arms.len() == 0 {
        true
    } else {
        arms_zo(arms.drop_last()) && arm_zo(arms.last())
    }
}

pub open spec fn arm_zo(arm: Arm) -> bool
    decreases arm, 0int,
{
    match *arm.body {
        Expr::Block(block) => check_block_zo(block),
        _ => is_zero_or_one(*arm.body) || check_expr_zo(*arm.body),
    }
}

/// A nested conditional, match, block or unsafe block whose own check
/// recurses successfully.
pub open spec fn valid_nested(e: Expr) -> bool
    decreases e, 1int,
{
    match e {
        Expr::If { .. } => check_expr_zo(e),
        Expr::Match { .. } => check_expr_zo(e),
        Expr::Block(_) => check_expr_zo(e),
        Expr::Unsafe(_) => check_expr_zo(e),
        _ => false,
    }
}

pub open spec fn stmt_zo(s: Stmt) -> bool
    decreases s, 0int,
{
    match s {
        Stmt::Expr { expr, semi } => check_expr_zo(*expr),
        _ => true,
    }
}

pub open spec fn stmts_zo(stmts: Seq<Stmt>) -> bool
    decreases stmts, 0int,
{
    if stmts.len() == 0 {
        true
    } else {
        stmts_zo(stmts.drop_last()) && stmt_zo(stmts.last())
    }
}

/// Whether a statement is an explicit return expression.
pub open spec fn stmt_is_return(s: Stmt) -> bool {
    match s {
        Stmt::Expr { expr, semi } => (*expr) is Return,
        _ => false,
    }
}

/// Whether the first `n` statements hold an explicit return.
pub open spec fn returns_in_prefix(stmts: Seq<Stmt>, n: int) -> bool
    decreases n,
{
    if n <= 0 {
        false
    } else {
        returns_in_prefix(stmts, n - 1) || stmt_is_return(stmts[n - 1])
    }
}

/// The tail check: a final expression statement without a semicolon must
/// be a `0`/`1` literal or a valid nested expression.
pub open spec fn tail_zo(stmts: Seq<Stmt>) -> bool
    decreases stmts, 2int,
{
    if stmts.len() == 0 {
        true
    } else {
        match stmts.last() {
            Stmt::Expr { expr, semi } => semi || is_zero_or_one(*expr) || valid_nested(*expr),
            _ => true,
        }
    }
}

/// Whether the block has any return at all: an explicit return statement,
/// or a final expression statement without a semicolon.
pub open spec fn block_has_returns(stmts: Seq<Stmt>) -> bool {
    returns_in_prefix(stmts, stmts.len() as int) || (stmts.len() > 0 && match stmts.last() {
        Stmt::Expr { expr, semi } => !semi,
        _ => false,
    })
}

/// The block-level predicate: every statement passes the recursive check,
/// the tail passes, and at least one return or tail was found.
pub open spec fn check_block_zo(block: Block) -> bool
    decreases block, 0int,
{
    stmts_zo(block.stmts@) && tail_zo(block.stmts@) && block_has_returns(block.stmts@)
}

proof fn lemma_stmts_zo_index(stmts: Seq<Stmt>, i: int)
    requires
        stmts_zo(stmts),
        0 <= i < stmts.len(),
    ensures
        stmt_zo(stmts[i]),
    decreases stmts,
{
    if i < stmts.len() - 1 {
        lemma_stmts_zo_index(stmts.drop_last(), i);
    }
}

proof fn lemma_arms_zo_index(arms: Seq<Arm>, i: int)
    requires
        arms_zo(arms),
        0 <= i < arms.len(),
    ensures
        arm_zo(arms[i]),
    decreases arms,
{
    if i < arms.len() - 1 {
        lemma_arms_zo_index(arms.drop_last(), i);
    }
}

/// Check if an expression is a valid nested expression (if/match) that
/// only returns 0 or 1.
pub fn is_valid_nested_expression(e: &Expr) -> (r: bool)
    ensures
        r == valid_nested(*e),
    decreases *e, 1int,
{
    match e {
        Expr::If { .. } => check_expr_returns_only_zero_or_one(e),
        Expr::Match { .. } => check_expr_returns_only_zero_or_one(e),
        Expr::Block(_) => check_expr_returns_only_zero_or_one(e),
        Expr::Unsafe(_) => check_expr_returns_only_zero_or_one(e),
        _ => false,
    }
}

fn check_arm(arm: &Arm) -> (r: bool)
    ensures
        r == arm_zo(*arm),
    decreases *arm, 0int,
{
    match &*arm.body {
        Expr::Block(block) => check_block_returns_only_zero_or_one(block),
        _ => {
            if is_zero_or_one_literal(&*arm.body) {
                true
            } else {
                check_expr_returns_only_zero_or_one(&*arm.body)
            }
        },
    }
}

/// Recursively check expressions for return statements.
pub fn check_expr_returns_only_zero_or_one(e: &Expr) -> (r: bool)
    ensures
        r == check_expr_zo(*e),
    decreases *e, 0int,
{
    match e {
        Expr::Return(value) => match value {
            Some(inner) => is_zero_or_one_literal(&**inner),
            None => false,
        },
        Expr::Block(block) => check_block_returns_only_zero_or_one(block),
        Expr::Unsafe(block) => check_block_returns_only_zero_or_one(block),
        Expr::If { cond, then_branch, else_branch } => {
            if !check_block_returns_only_zero_or_one(then_branch) {
                return false;
            }
            match else_branch {
                Some(inner) => check_expr_returns_only_zero_or_one(&**inner),
                None => true,
            }
        },
        Expr::Match { scrutinee, arms } => check_arms(arms),
        _ => true,
    }
}

fn check_arms(arms: &Vec<Arm>) -> (r: bool)
    ensures
        r == arms_zo(arms@),
    decreases arms@, 1int,
{
    let mut k: usize = 0;
    while k < arms.len()
        invariant
            0 <= k <= arms@.len(),
            arms_zo(arms@.take(k as int)),
        decreases arms@.len() - k,
    {
        let arm_ok = check_arm(&arms[k]);
        if !arm_ok {
            proof {
                assert(!arm_zo(arms@[k as int]));
                assert(!arms_zo(arms@)) by {
                    if arms_zo(arms@) {
                        lemma_arms_zo_index(arms@, k as int);
                    }
                }
            }
            return false;
        }
        proof {
            let pre = arms@.take(k as int);
            let post = arms@.take(k as int + 1);
            assert(post.drop_last() =~= pre);
            assert(post.last() == arms@[k as int]);
            assert(arm_zo(arms@[k as int]));
        }
        k = k + 1;
    }
    proof {
        assert(arms@.take(arms@.len() as int) =~= arms@);
    }
    true
}

/// Check if all return statements and the final expression in a block are
/// 0 or 1 literals.
pub fn check_block_returns_only_zero_or_one(block: &Block) -> (r: bool)
    ensures
        r == check_block_zo(*block),
    decreases *block, 0int,
{
    let stmts = &block.stmts;
    let mut has_returns = false;
    let mut i: usize = 0;
    while i < stmts.len()
        invariant
            0 <= i <= stmts@.len(),
            stmts@ == block.stmts@,
            stmts_zo(stmts@.take(i as int)),
            has_returns == returns_in_prefix(stmts@, i as int),
        decreases stmts@.len() - i,
    {
        match &stmts[i] {
            Stmt::Expr { expr, semi } => {
                if matches!(&**expr, Expr::Return(_)) {
                    has_returns = true;
                }
                if !check_expr_returns_only_zero_or_one(&**expr) {
                    proof {
                        assert(!stmt_zo(stmts@[i as int]));
                        assert(!stmts_zo(stmts@)) by {
                            if stmts_zo(stmts@) {
                                lemma_stmts_zo_index(stmts@, i as int);
                            }
                        }
                    }
                    return false;
                }
            },
            _ => {},
        }
        proof {
            assert(stmt_zo(stmts@[i as int]));
            let pre = stmts@.take(i as int);
            let post = stmts@.take(i as int + 1);
            assert(post.drop_last() =~= pre);
            assert(post.last() == stmts@[i as int]);
        }
        i = i + 1;
    }
    proof {
        assert(stmts@.take(stmts@.len() as int) =~= stmts@);
    }
    if stmts.len() > 0 {
        match &stmts[stmts.len() - 1] {
            Stmt::Expr { expr, semi } => {
                if !*semi {
                    has_returns = true;
                    let lit_ok = is_zero_or_one_literal(&**expr);
                    if !lit_ok && !is_valid_nested_expression(&**expr) {
                        return false;
                    }
                }
            },
            _ => {},
        }
    }
    has_returns
}

/// Whether a declaration is flagged: it returns exactly `i32` and its body
/// passes the recursive `0`/`1` check.
pub open spec fn is_bool_candidate(d: FnDecl) -> bool {
    (match d.ret {
        Some(ty) => is_i32_ty(ty),
        None => false,
    }) && check_block_zo(d.body)
}

/// The candidate record of a flagged declaration.
pub open spec fn candidate_of(d: FnDecl) -> BoolCandidate {
    BoolCandidate { fn_name: d.name, line_number: d.line }
}

/// The candidates among a sequence of declarations, in order.
pub open spec fn candidates_among(fns: Seq<FnDecl>) -> Seq<BoolCandidate>
    decreases fns,
{
    if fns.len() == 0 {
        Seq::empty()
    } else {
        candidates_among(fns.drop_last()) + (if is_bool_candidate(fns.last()) {
            seq![candidate_of(fns.last())]
        } else {
            Seq::empty()
        })
    }
}

proof fn lemma_candidates_among_concat(a: Seq<FnDecl>, b: Seq<FnDecl>)
    ensures
        candidates_among(a + b) == candidates_among(a) + candidates_among(b),
    decreases b.len(),
{
    if b.len() == 0 {
        assert(a + b =~= a);
        assert(candidates_among(a) + candidates_among(b) =~= candidates_among(a));
    } else {
        lemma_candidates_among_concat(a, b.drop_last());
        assert((a + b).drop_last() =~= a + b.drop_last());
        assert((a + b).last() == b.last());
        assert(candidates_among(a) + candidates_among(b.drop_last()) + (if is_bool_candidate(
            b.last(),
        ) {
            seq![candidate_of(b.last())]
        } else {
            Seq::<BoolCandidate>::empty()
        }) =~= candidates_among(a) + candidates_among(b));
    }
}

impl CodeAnalyzer {
    pub fn visit_items(&mut self, items: &Vec<Item>)
        ensures
            final(self).stats.candidates@ == old(self).stats.candidates@ + candidates_among(
                fns_of_items(items@),
            ),
        decreases items@,
    {
        proof {
            assert(items@.take(0) =~= Seq::<Item>::empty());
            assert(old(self).stats.candidates@ + candidates_among(fns_of_items(items@.take(0)))
                =~= old(self).stats.candidates@);
        }
        let mut j: usize = 0;
        while j < items.len()
            invariant
                0 <= j <= items@.len(),
                self.stats.candidates@ == old(self).stats.candidates@ + candidates_among(
                    fns_of_items(items@.take(j as int)),
                ),
            decreases items@.len() - j,
        {
            self.visit_item(&items[j]);
            proof {
                let pre = items@.take(j as int);
                let post = items@.take(j as int + 1);
                assert(post.drop_last() =~= pre);
                assert(post.last() == items@[j as int]);
                lemma_candidates_among_concat(
                    fns_of_items(pre),
                    fns_of_item(items@[j as int]),
                );
                assert(old(self).stats.candidates@ + candidates_among(fns_of_items(pre))
                    + candidates_among(fns_of_item(items@[j as int])) =~= old(
                    self,
                ).stats.candidates@ + candidates_among(fns_of_items(post)));
            }
            j = j + 1;
        }
        proof {
            assert(items@.take(items@.len() as int) =~= items@);
        }
    }

    pub fn visit_item(&mut self, item: &Item)
        ensures
            final(self).stats.candidates@ == old(self).stats.candidates@ + candidates_among(
                fns_of_item(*item),
            ),
        decreases *item,
    {
        match item {
            Item::Fn(d) => self.visit_item_fn(d),
            Item::Static { mutable, init } => self.visit_expr(&**init),
            Item::Other { items, exprs } => {
                self.visit_items(items);
                self.visit_exprs(exprs);
                proof {
                    lemma_candidates_among_concat(fns_of_items(items@), fns_of_exprs(exprs@));
                    assert(old(self).stats.candidates@ + candidates_among(fns_of_items(items@))
                        + candidates_among(fns_of_exprs(exprs@)) =~= old(self).stats.candidates@
                        + candidates_among(fns_of_item(*item)));
                }
            },
        }
    }

    /// Flags the declaration itself if it qualifies, then walks its body
    /// for nested declarations.
    pub fn visit_item_fn(&mut self, d: &FnDecl)
        ensures
            final(self).stats.candidates@ == old(self).stats.candidates@ + candidates_among(
                fns_of_item(Item::Fn(*d)),
            ),
        decreases *d,
    {
        let returns_i32 = match &d.ret {
            Some(ty) => is_i32_type(ty),
            None => false,
        };
        if returns_i32 && check_block_returns_only_zero_or_one(&d.body) {
            let candidate = BoolCandidate { fn_name: d.name.clone(), line_number: d.line };
            proof {
                assert(candidate == candidate_of(*d));
            }
            self.stats.candidates.push(candidate);
        }
        proof {
            reveal_with_fuel(candidates_among, 2);
            let single = seq![*d];
            assert(single.drop_last() =~= Seq::<FnDecl>::empty());
            assert(single.last() == *d);
            if is_bool_candidate(*d) {
                assert(candidates_among(single) =~= seq![candidate_of(*d)]);
            } else {
                assert(candidates_among(single) =~= Seq::<BoolCandidate>::empty());
            }
            assert(self.stats.candidates@ =~= old(self).stats.candidates@ + candidates_among(
                single,
            ));
        }
        self.visit_block(&d.body);
        proof {
            lemma_candidates_among_concat(seq![*d], fns_of_stmts(d.body.stmts@));
            assert(seq![*d] + fns_of_stmts(d.body.stmts@) == fns_of_item(Item::Fn(*d)));
            assert(old(self).stats.candidates@ + candidates_among(seq![*d]) + candidates_among(
                fns_of_stmts(d.body.stmts@),
            ) =~= old(self).stats.candidates@ + candidates_among(fns_of_item(Item::Fn(*d))));
        }
    }

    pub fn visit_block(&mut self, block: &Block)
        ensures
            final(self).stats.candidates@ == old(self).stats.candidates@ + candidates_among(
                fns_of_stmts(block.stmts@),
            ),
        decreases *block,
    {
        let stmts = &block.stmts;
        proof {
            assert(stmts@.take(0) =~= Seq::<Stmt>::empty());
            assert(old(self).stats.candidates@ + candidates_among(fns_of_stmts(stmts@.take(0)))
                =~= old(self).stats.candidates@);
        }
        let mut j: usize = 0;
        while j < stmts.len()
            invariant
                0 <= j <= stmts@.len(),
                stmts@ == block.stmts@,
                self.stats.candidates@ == old(self).stats.candidates@ + candidates_among(
                    fns_of_stmts(stmts@.take(j as int)),
                ),
            decreases stmts@.len() - j,
        {
            self.visit_stmt(&stmts[j]);
            proof {
                let pre = stmts@.take(j as int);
                let post = stmts@.take(j as int + 1);
                assert(post.drop_last() =~= pre);
                assert(post.last() == stmts@[j as int]);
                lemma_candidates_among_concat(
                    fns_of_stmts(pre),
                    fns_of_stmt(stmts@[j as int]),
                );
                assert(old(self).stats.candidates@ + candidates_among(fns_of_stmts(pre))
                    + candidates_among(fns_of_stmt(stmts@[j as int])) =~= old(
                    self,
                ).stats.candidates@ + candidates_among(fns_of_stmts(post)));
            }
            j = j + 1;
        }
        proof {
            assert(stmts@.take(stmts@.len() as int) =~= stmts@);
        }
    }

    pub fn visit_stmt(&mut self, stmt: &Stmt)
        ensures
            final(self).stats.candidates@ == old(self).stats.candidates@ + candidates_among(
                fns_of_stmt(*stmt),
            ),
        decreases *stmt,
    {
        match stmt {
            Stmt::Local { children } => self.visit_exprs(children),
            Stmt::Item(item) => self.visit_item(&**item),
            Stmt::Expr { expr, semi } => self.visit_expr(&**expr),
            Stmt::Other => {
                proof {
                    assert(old(self).stats.candidates@ + candidates_among(fns_of_stmt(*stmt))
                        =~= old(self).stats.candidates@);
                }
            },
        }
    }

    pub fn visit_exprs(&mut self, exprs: &Vec<Expr>)
        ensures
            final(self).stats.candidates@ == old(self).stats.candidates@ + candidates_among(
                fns_of_exprs(exprs@),
            ),
        decreases exprs@,
    {
        proof {
            assert(exprs@.take(0) =~= Seq::<Expr>::empty());
            assert(old(self).stats.candidates@ + candidates_among(fns_of_exprs(exprs@.take(0)))
                =~= old(self).stats.candidates@);
        }
        let mut j: usize = 0;
        while j < exprs.len()
            invariant
                0 <= j <= exprs@.len(),
                self.stats.candidates@ == old(self).stats.candidates@ + candidates_among(
                    fns_of_exprs(exprs@.take(j as int)),
                ),
            decreases exprs@.len() - j,
        {
            self.visit_expr(&exprs[j]);
            proof {
                let pre = exprs@.take(j as int);
                let post = exprs@.take(j as int + 1);
                assert(post.drop_last() =~= pre);
                assert(post.last() == exprs@[j as int]);
                lemma_candidates_among_concat(
                    fns_of_exprs(pre),
                    fns_of_expr(exprs@[j as int]),
                );
                assert(old(self).stats.candidates@ + candidates_among(fns_of_exprs(pre))
                    + candidates_among(fns_of_expr(exprs@[j as int])) =~= old(
                    self,
                ).stats.candidates@ + candidates_among(fns_of_exprs(post)));
            }
            j = j + 1;
        }
        proof {
            assert(exprs@.take(exprs@.len() as int) =~= exprs@);
        }
    }

    pub fn visit_expr(&mut self, expr: &Expr)
        ensures
            final(self).stats.candidates@ == old(self).stats.candidates@ + candidates_among(
                fns_of_expr(*expr),
            ),
        decreases *expr,
    {
        match expr {
            Expr::Lit(_) => {
                proof {
                    assert(old(self).stats.candidates@ + candidates_among(fns_of_expr(*expr))
                        =~= old(self).stats.candidates@);
                }
            },
            Expr::Unary { neg, inner } => self.visit_expr(&**inner),
            Expr::Return(value) => match value {
                Some(inner) => self.visit_expr(&**inner),
                None => {
                    proof {
                        assert(old(self).stats.candidates@ + candidates_among(
                            fns_of_expr(*expr),
                        ) =~= old(self).stats.candidates@);
                    }
                },
            },
            Expr::Block(block) => self.visit_block(block),
            Expr::Unsafe(block) => self.visit_block(block),
            Expr::If { cond, then_branch, else_branch } => {
                self.visit_expr(&**cond);
                self.visit_block(then_branch);
                proof {
                    lemma_candidates_among_concat(
                        fns_of_expr(**cond),
                        fns_of_stmts(then_branch.stmts@),
                    );
                }
                match else_branch {
                    Some(inner) => self.visit_expr(&**inner),
                    None => {},
                }
                proof {
                    let a = fns_of_expr(**cond) + fns_of_stmts(then_branch.stmts@);
                    let b = match else_branch {
                        Some(inner) => fns_of_expr(**inner),
                        None => Seq::<FnDecl>::empty(),
                    };
                    lemma_candidates_among_concat(a, b);
                    assert(a + b == fns_of_expr(*expr));
                    assert(old(self).stats.candidates@ + candidates_among(a) + candidates_among(
                        b,
                    ) =~= old(self).stats.candidates@ + candidates_among(fns_of_expr(*expr)));
                }
            },
            Expr::Match { scrutinee, arms } => {
                self.visit_expr(&**scrutinee);
                self.visit_arms(arms);
                proof {
                    lemma_candidates_among_concat(fns_of_expr(**scrutinee), fns_of_arms(arms@));
                    assert(old(self).stats.candidates@ + candidates_among(
                        fns_of_expr(**scrutinee),
                    ) + candidates_among(fns_of_arms(arms@)) =~= old(self).stats.candidates@
                        + candidates_among(fns_of_expr(*expr)));
                }
            },
            Expr::MethodCall { method, receiver, args } => {
                self.visit_expr(&**receiver);
                self.visit_exprs(args);
                proof {
                    lemma_candidates_among_concat(
                        fns_of_expr(**receiver),
                        fns_of_exprs(args@),
                    );
                    assert(old(self).stats.candidates@ + candidates_among(
                        fns_of_expr(**receiver),
                    ) + candidates_among(fns_of_exprs(args@)) =~= old(self).stats.candidates@
                        + candidates_among(fns_of_expr(*expr)));
                }
            },
            Expr::Other { exprs, blocks } => {
                self.visit_exprs(exprs);
                self.visit_blocks(blocks);
                proof {
                    lemma_candidates_among_concat(fns_of_exprs(exprs@), fns_of_blocks(blocks@));
                    assert(old(self).stats.candidates@ + candidates_among(fns_of_exprs(exprs@))
                        + candidates_among(fns_of_blocks(blocks@)) =~= old(
                        self,
                    ).stats.candidates@ + candidates_among(fns_of_expr(*expr)));
                }
            },
        }
    }

    pub fn visit_arms(&mut self, arms: &Vec<Arm>)
        ensures
            final(self).stats.candidates@ == old(self).stats.candidates@ + candidates_among(
                fns_of_arms(arms@),
            ),
        decreases arms@,
    {
        proof {
            assert(arms@.take(0) =~= Seq::<Arm>::empty());
            assert(old(self).stats.candidates@ + candidates_among(fns_of_arms(arms@.take(0)))
                =~= old(self).stats.candidates@);
        }
        let mut j: usize = 0;
        while j < arms.len()
            invariant
                0 <= j <= arms@.len(),
                self.stats.candidates@ == old(self).stats.candidates@ + candidates_among(
                    fns_of_arms(arms@.take(j as int)),
                ),
            decreases arms@.len() - j,
        {
            let arm = &arms[j];
            let ghost before = self.stats.candidates@;
            match &arm.guard {
                Some(inner) => self.visit_expr(&**inner),
                None => {},
            }
            proof {
                let g = match arms@[j as int].guard {
                    Some(inner) => fns_of_expr(*inner),
                    None => Seq::<FnDecl>::empty(),
                };
                assert(self.stats.candidates@ =~= before + candidates_among(g));
            }
            self.visit_expr(&*arm.body);
            proof {
                let g = match arms@[j as int].guard {
                    Some(inner) => fns_of_expr(*inner),
                    None => Seq::<FnDecl>::empty(),
                };
                lemma_candidates_among_concat(g, fns_of_expr(*arms@[j as int].body));
                assert(self.stats.candidates@ =~= before + candidates_among(
                    fns_of_arm(arms@[j as int]),
                ));
                let pre = arms@.take(j as int);
                let post = arms@.take(j as int + 1);
                assert(post.drop_last() =~= pre);
                assert(post.last() == arms@[j as int]);
                lemma_candidates_among_concat(fns_of_arms(pre), fns_of_arm(arms@[j as int]));
                assert(old(self).stats.candidates@ + candidates_among(fns_of_arms(pre))
                    + candidates_among(fns_of_arm(arms@[j as int])) =~= old(
                    self,
                ).stats.candidates@ + candidates_among(fns_of_arms(post)));
            }
            j = j + 1;
        }
        proof {
            assert(arms@.take(arms@.len() as int) =~= arms@);
        }
    }

    pub fn visit_blocks(&mut self, blocks: &Vec<Block>)
        ensures
            final(self).stats.candidates@ == old(self).stats.candidates@ + candidates_among(
                fns_of_blocks(blocks@),
            ),
        decreases blocks@,
    {
        proof {
            assert(blocks@.take(0) =~= Seq::<Block>::empty());
            assert(old(self).stats.candidates@ + candidates_among(
                fns_of_blocks(blocks@.take(0)),
            ) =~= old(self).stats.candidates@);
        }
        let mut j: usize = 0;
        while j < blocks.len()
            invariant
                0 <= j <= blocks@.len(),
                self.stats.candidates@ == old(self).stats.candidates@ + candidates_among(
                    fns_of_blocks(blocks@.take(j as int)),
                ),
            decreases blocks@.len() - j,
        {
            self.visit_block(&blocks[j]);
            proof {
                let pre = blocks@.take(j as int);
                let post = blocks@.take(j as int + 1);
                assert(post.drop_last() =~= pre);
                assert(post.last() == blocks@[j as int]);
                lemma_candidates_among_concat(
                    fns_of_blocks(pre),
                    fns_of_stmts(blocks@[j as int].stmts@),
                );
                assert(old(self).stats.candidates@ + candidates_among(fns_of_blocks(pre))
                    + candidates_among(fns_of_stmts(blocks@[j as int].stmts@)) =~= old(
                    self,
                ).stats.candidates@ + candidates_among(fns_of_blocks(post)));
            }
            j = j + 1;
        }
        proof {
            assert(blocks@.take(blocks@.len() as int) =~= blocks@);
        }
    }
}

/// Analyzes one parsed file: the flagged functions of its tree, in visit
/// order, under the given filename.
pub fn analyze_file(filename: String, file: &SourceFile) -> (r: FileStats)
    ensures
        r.filename == filename,
        r.stats.candidates@ == candidates_among(fns_of_file(*file)),
{
    let mut analyzer = CodeAnalyzer { stats: CodeStats { candidates: Vec::new() } };
    analyzer.visit_items(&file.items);
    proof {
        assert(Seq::<BoolCandidate>::empty() + candidates_among(fns_of_items(file.items@))
            =~= candidates_among(fns_of_file(*file)));
    }
    FileStats { filename, stats: analyzer.stats }
}

/// The per-file reports that keep at least one candidate, in order.
pub open spec fn retain_nonempty(s: Seq<FileStats>) -> Seq<FileStats>
    decreases s,
{
    if s.len() == 0 {
        Seq::empty()
    } else {
        retain_nonempty(s.drop_last()) + (if s.last().stats.candidates@.len() > 0 {
            seq![s.last()]
        } else {
            Seq::empty()
        })
    }
}

/// Find good candidates for functions to convert from returning i32 to
/// bool, given the per-file analyses: the files that hold at least one
/// candidate, sorted by filename.
pub fn find_candidates(reports: Vec<FileStats>) -> (r: Vec<FileStats>)
    ensures
        forall|i: int, j: int|
            0 <= i < j < r@.len() ==> str_le(r@[i].filename@, r@[j].filename@),
        r@.to_multiset() == retain_nonempty(reports@).to_multiset(),
        forall|i: int| 0 <= i < r@.len() ==> r@[i].stats.candidates@.len() > 0,
{
    broadcast use vstd::seq_lib::group_to_multiset_ensures;

    let ghost orig = reports@;
    let mut input = reports;
    let mut kept: Vec<FileStats> = Vec::new();
    let ghost mut done: Seq<FileStats> = Seq::empty();
    proof {
        assert(orig =~= done + input@);
    }
    while input.len() > 0
        invariant
            orig =~= done + input@,
            kept@ == retain_nonempty(done),
            forall|q: int| 0 <= q < kept@.len() ==> kept@[q].stats.candidates@.len() > 0,
        decreases input@.len(),
    {
        let ghost input_pre = input@;
        let entry = input.remove(0);
        let ghost gentry = entry;
        let keep_it = entry.stats.candidates.len() > 0;
        if keep_it {
            kept.push(entry);
        }
        proof {
            assert(gentry == input_pre[0]);
            assert(input@ =~= input_pre.drop_first());
            assert(done.push(gentry).drop_last() =~= done);
            assert(done.push(gentry).last() == gentry);
            assert(kept@ == retain_nonempty(done.push(gentry)));
            done = done.push(gentry);
            assert(orig =~= done + input@);
        }
    }
    proof {
        assert(done =~= orig);
    }
    let ghost all = retain_nonempty(orig);
    let mut out: Vec<FileStats> = Vec::new();
    proof {
        out@.to_multiset_ensures();
        assert(out@.to_multiset().add(kept@.to_multiset()) =~= kept@.to_multiset());
    }
    while kept.len() > 0
        invariant
            forall|p: int, q: int|
                0 <= p < q < out@.len() ==> str_le(out@[p].filename@, out@[q].filename@),
            forall|p: int, q: int|
                0 <= p < out@.len() && 0 <= q < kept@.len() ==> str_le(
                    out@[p].filename@,
                    kept@[q].filename@,
                ),
            out@.to_multiset().add(kept@.to_multiset()) == all.to_multiset(),
            forall|p: int| 0 <= p < out@.len() ==> out@[p].stats.candidates@.len() > 0,
            forall|q: int| 0 <= q < kept@.len() ==> kept@[q].stats.candidates@.len() > 0,
        decreases kept@.len(),
    {
        let mut m: usize = 0;
        let mut k: usize = 1;
        while k < kept.len()
            invariant
                0 <= m < k <= kept@.len(),
                kept@.len() > 0,
                forall|t: int| 0 <= t < k ==> str_le(kept@[m as int].filename@, kept@[t].filename@),
            decreases kept@.len() - k,
        {
            let smaller = match str_compare(kept[k].filename.as_str(), kept[m].filename.as_str()) {
                StrCmp::Less => true,
                _ => false,
            };
            if smaller {
                proof {
                    assert forall|t: int| 0 <= t < k + 1 implies str_le(
                        kept@[k as int].filename@,
                        kept@[t].filename@,
                    ) by {
                        if t < k {
                            lemma_str_le_transitive(
                                kept@[k as int].filename@,
                                kept@[m as int].filename@,
                                kept@[t].filename@,
                            );
                        }
                    }
                }
                m = k;
            } else {
                proof {
                    lemma_str_le_total(kept@[m as int].filename@, kept@[k as int].filename@);
                }
            }
            k = k + 1;
        }
        let ghost kept_old = kept@;
        let item = kept.remove(m);
        proof {
            kept_old.to_multiset_ensures();
            out@.to_multiset_ensures();
            kept_old.remove_ensures(m as int);
            assert(item == kept_old[m as int]);
            assert(kept@ =~= kept_old.remove(m as int));
            assert(kept@.to_multiset() =~= kept_old.to_multiset().remove(item));
            assert(out@.push(item).to_multiset() =~= out@.to_multiset().insert(item));
            assert(kept_old.contains(item));
            assert(kept_old.to_multiset().count(item) > 0);
            assert(out@.to_multiset().insert(item).add(kept_old.to_multiset().remove(item))
                =~= out@.to_multiset().add(kept_old.to_multiset()));
        }
        out.push(item);
    }
    proof {
        assert(kept@.to_multiset().len() == 0);
        assert(out@.to_multiset().add(kept@.to_multiset()) =~= out@.to_multiset());
    }
    out
}

impl Default for CodeStats {
    /// An empty candidate list.
    fn default() -> (r: Self)
        ensures
            r.candidates@ == Seq::<BoolCandidate>::empty(),
    {
        CodeStats { candidates: Vec::new() }
    }
}

} // verus!
