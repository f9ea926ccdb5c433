//! Detector for unsafe functions that could drop their unsafe qualifier.
//!
//! A function is flagged when it is declared unsafe and none of its
//! parameters has a raw pointer type.  The result is advisory: the body
//! may still need unsafe operations; this is a necessary-not-sufficient
//! heuristic.

use vstd::prelude::*;

use crate::strorder::{lemma_str_le_total, lemma_str_le_transitive, str_compare, str_le, StrCmp};
use crate::syntax::{
    fns_of_file, fns_of_item, fns_of_items, fns_of_stmt, fns_of_stmts, fns_of_arm, fns_of_arms,
    fns_of_blocks, fns_of_expr, fns_of_exprs, Arm, Block, Expr, FnDecl, Item, SourceFile, Stmt,
    Ty,
};

verus! {

/// One flagged function: its name and declaration line.
#[derive(Clone, Debug)]
pub struct SafeCandidate {
    pub fn_name: String,
    pub line_number: usize,
}

/// The flagged functions of one file.
#[derive(Clone, Debug)]
pub struct FileStats {
    pub filename: String,
    pub candidates: Vec<SafeCandidate>,
}

/// Whether any declared parameter has a raw pointer type.
pub open spec fn has_raw_pointer_param(d: FnDecl) -> bool {
    exists|i: int| 0 <= i < d.params@.len() && (#[trigger] d.params@[i]) is Ptr
}

/// Whether a declaration is flagged: declared unsafe, and no parameter is
/// a raw pointer.
pub open spec fn is_safe_candidate(d: FnDecl) -> bool {
    d.is_unsafe && !has_raw_pointer_param(d)
}

/// Decides whether one function declaration is flagged.
pub fn detect_safe_candidate(d: &FnDecl) -> (r: bool)
    ensures
        r == is_safe_candidate(*d),
{
    if !d.is_unsafe {
        return false;
    }
    let mut i: usize = 0;
    while i < d.params.len()
        invariant
            0 <= i <= d.params@.len(),
            forall|t: int| 0 <= t < i ==> !((#[trigger] d.params@[t]) is Ptr),
        decreases d.params@.len() - i,
    {
        if matches!(&d.params[i], Ty::Ptr) {
            proof {
                assert(d.params@[i as int] is Ptr);
            }
            return false;
        }
        i = i + 1;
    }
    true
}

/// The candidate record of a flagged declaration.
pub open spec fn safe_candidate_of(d: FnDecl) -> SafeCandidate {
    SafeCandidate { fn_name: d.name, line_number: d.line }
}

/// The flagged declarations among a sequence, in order.
pub open spec fn safe_candidates_among(fns: Seq<FnDecl>) -> Seq<SafeCandidate>
    decreases fns,
{
    if fns.len() == 0 {
        Seq::empty()
    } else {
        safe_candidates_among(fns.drop_last()) + (if is_safe_candidate(fns.last()) {
            seq![safe_candidate_of(fns.last())]
        } else {
            Seq::empty()
        })
    }
}

proof fn lemma_safe_candidates_concat(a: Seq<FnDecl>, b: Seq<FnDecl>)
    ensures
        safe_candidates_among(a + b) == safe_candidates_among(a) + safe_candidates_among(b),
    decreases b.len(),
{
    if b.len() == 0 {
        assert(a + b =~= a);
        assert(safe_candidates_among(a) + safe_candidates_among(b) =~= safe_candidates_among(a));
    } else {
        lemma_safe_candidates_concat(a, b.drop_last());
        assert((a + b).drop_last() =~= a + b.drop_last());
        assert((a + b).last() == b.last());
        assert(safe_candidates_among(a) + safe_candidates_among(b.drop_last()) + (
        if is_safe_candidate(b.last()) {
            seq![safe_candidate_of(b.last())]
        } else {
            Seq::<SafeCandidate>::empty()
        }) =~= safe_candidates_among(a) + safe_candidates_among(b));
    }
}

fn scan_items(items: &Vec<Item>, out: &mut Vec<SafeCandidate>)
    ensures
        final(out)@ == old(out)@ + safe_candidates_among(fns_of_items(items@)),
    decreases items@,
{
    proof {
        assert(items@.take(0) =~= Seq::<Item>::empty());
        assert(old(out)@ + safe_candidates_among(fns_of_items(items@.take(0))) =~= old(out)@);
    }
    let mut j: usize = 0;
    while j < items.len()
        invariant
            0 <= j <= items@.len(),
            out@ == old(out)@ + safe_candidates_among(fns_of_items(items@.take(j as int))),
        decreases items@.len() - j,
    {
        scan_item(&items[j], out);
        proof {
            let pre = items@.take(j as int);
            let post = items@.take(j as int + 1);
            assert(post.drop_last() =~= pre);
            assert(post.last() == items@[j as int]);
            lemma_safe_candidates_concat(fns_of_items(pre), fns_of_item(items@[j as int]));
            assert(old(out)@ + safe_candidates_among(fns_of_items(pre)) + safe_candidates_among(
                fns_of_item(items@[j as int]),
            ) =~= old(out)@ + safe_candidates_among(fns_of_items(post)));
        }
        j = j + 1;
    }
    proof {
        assert(items@.take(items@.len() as int) =~= items@);
    }
}

fn scan_item(item: &Item, out: &mut Vec<SafeCandidate>)
    ensures
        final(out)@ == old(out)@ + safe_candidates_among(fns_of_item(*item)),
    decreases *item,
{
    match item {
        Item::Fn(d) => scan_fn(d, out),
        Item::Static { mutable, init } => scan_expr(&**init, out),
        Item::Other { items, exprs } => {
            scan_items(items, out);
            scan_exprs(exprs, out);
            proof {
                lemma_safe_candidates_concat(fns_of_items(items@), fns_of_exprs(exprs@));
                assert(old(out)@ + safe_candidates_among(fns_of_items(items@))
                    + safe_candidates_among(fns_of_exprs(exprs@)) =~= old(out)@
                    + safe_candidates_among(fns_of_item(*item)));
            }
        },
    }
}

fn scan_fn(d: &FnDecl, out: &mut Vec<SafeCandidate>)
    ensures
        final(out)@ == old(out)@ + safe_candidates_among(fns_of_item(Item::Fn(*d))),
    decreases *d,
{
    if detect_safe_candidate(d) {
        let candidate = SafeCandidate { fn_name: d.name.clone(), line_number: d.line };
        proof {
            assert(candidate == safe_candidate_of(*d));
        }
        out.push(candidate);
    }
    proof {
        reveal_with_fuel(safe_candidates_among, 2);
        let single = seq![*d];
        assert(single.drop_last() =~= Seq::<FnDecl>::empty());
        assert(single.last() == *d);
        if is_safe_candidate(*d) {
            assert(safe_candidates_among(single) =~= seq![safe_candidate_of(*d)]);
        } else {
            assert(safe_candidates_among(single) =~= Seq::<SafeCandidate>::empty());
        }
        assert(out@ =~= old(out)@ + safe_candidates_among(single));
    }
    scan_block(&d.body, out);
    proof {
        lemma_safe_candidates_concat(seq![*d], fns_of_stmts(d.body.stmts@));
        assert(seq![*d] + fns_of_stmts(d.body.stmts@) == fns_of_item(Item::Fn(*d)));
        assert(old(out)@ + safe_candidates_among(seq![*d]) + safe_candidates_among(
            fns_of_stmts(d.body.stmts@),
        ) =~= old(out)@ + safe_candidates_among(fns_of_item(Item::Fn(*d))));
    }
}

fn scan_block(block: &Block, out: &mut Vec<SafeCandidate>)
    ensures
        final(out)@ == old(out)@ + safe_candidates_among(fns_of_stmts(block.stmts@)),
    decreases *block,
{
    let stmts = &block.stmts;
    proof {
        assert(stmts@.take(0) =~= Seq::<Stmt>::empty());
        assert(old(out)@ + safe_candidates_among(fns_of_stmts(stmts@.take(0))) =~= old(out)@);
    }
    let mut j: usize = 0;
    while j < stmts.len()
        invariant
            0 <= j <= stmts@.len(),
            stmts@ == block.stmts@,
            out@ == old(out)@ + safe_candidates_among(fns_of_stmts(stmts@.take(j as int))),
        decreases stmts@.len() - j,
    {
        scan_stmt(&stmts[j], out);
        proof {
            let pre = stmts@.take(j as int);
            let post = stmts@.take(j as int + 1);
            assert(post.drop_last() =~= pre);
            assert(post.last() == stmts@[j as int]);
            lemma_safe_candidates_concat(fns_of_stmts(pre), fns_of_stmt(stmts@[j as int]));
            assert(old(out)@ + safe_candidates_among(fns_of_stmts(pre)) + safe_candidates_among(
                fns_of_stmt(stmts@[j as int]),
            ) =~= old(out)@ + safe_candidates_among(fns_of_stmts(post)));
        }
        j = j + 1;
    }
    proof {
        assert(stmts@.take(stmts@.len() as int) =~= stmts@);
    }
}

fn scan_stmt(stmt: &Stmt, out: &mut Vec<SafeCandidate>)
    ensures
        final(out)@ == old(out)@ + safe_candidates_among(fns_of_stmt(*stmt)),
    decreases *stmt,
{
    match stmt {
        Stmt::Local { children } => scan_exprs(children, out),
        Stmt::Item(item) => scan_item(&**item, out),
        Stmt::Expr { expr, semi } => scan_expr(&**expr, out),
        Stmt::Other => {
            proof {
                assert(old(out)@ + safe_candidates_among(fns_of_stmt(*stmt)) =~= old(out)@);
            }
        },
    }
}

fn scan_exprs(exprs: &Vec<Expr>, out: &mut Vec<SafeCandidate>)
    ensures
        final(out)@ == old(out)@ + safe_candidates_among(fns_of_exprs(exprs@)),
    decreases exprs@,
{
    proof {
        assert(exprs@.take(0) =~= Seq::<Expr>::empty());
        assert(old(out)@ + safe_candidates_among(fns_of_exprs(exprs@.take(0))) =~= old(out)@);
    }
    let mut j: usize = 0;
    while j < exprs.len()
        invariant
            0 <= j <= exprs@.len(),
            out@ == old(out)@ + safe_candidates_among(fns_of_exprs(exprs@.take(j as int))),
        decreases exprs@.len() - j,
    {
        scan_expr(&exprs[j], out);
        proof {
            let pre = exprs@.take(j as int);
            let post = exprs@.take(j as int + 1);
            assert(post.drop_last() =~= pre);
            assert(post.last() == exprs@[j as int]);
            lemma_safe_candidates_concat(fns_of_exprs(pre), fns_of_expr(exprs@[j as int]));
            assert(old(out)@ + safe_candidates_among(fns_of_exprs(pre)) + safe_candidates_among(
                fns_of_expr(exprs@[j as int]),
            ) =~= old(out)@ + safe_candidates_among(fns_of_exprs(post)));
        }
        j = j + 1;
    }
    proof {
        assert(exprs@.take(exprs@.len() as int) =~= exprs@);
    }
}

fn scan_expr(expr: &Expr, out: &mut Vec<SafeCandidate>)
    ensures
        final(out)@ == old(out)@ + safe_candidates_among(fns_of_expr(*expr)),
    decreases *expr,
{
    match expr {
        Expr::Lit(_) => {
            proof {
                assert(old(out)@ + safe_candidates_among(fns_of_expr(*expr)) =~= old(out)@);
            }
        },
        Expr::Unary { neg, inner } => scan_expr(&**inner, out),
        Expr::Return(value) => match value {
            Some(inner) => scan_expr(&**inner, out),
            None => {
                proof {
                    assert(old(out)@ + safe_candidates_among(fns_of_expr(*expr)) =~= old(
                        out,
                    )@);
                }
            },
        },
        Expr::Block(block) => scan_block(block, out),
        Expr::Unsafe(block) => scan_block(block, out),
        Expr::If { cond, then_branch, else_branch } => {
            scan_expr(&**cond, out);
            scan_block(then_branch, out);
            proof {
                lemma_safe_candidates_concat(
                    fns_of_expr(**cond),
                    fns_of_stmts(then_branch.stmts@),
                );
            }
            match else_branch {
                Some(inner) => scan_expr(&**inner, out),
                None => {},
            }
            proof {
                let a = fns_of_expr(**cond) + fns_of_stmts(then_branch.stmts@);
                let b = match else_branch {
                    Some(inner) => fns_of_expr(**inner),
                    None => Seq::<FnDecl>::empty(),
                };
                lemma_safe_candidates_concat(a, b);
                assert(a + b == fns_of_expr(*expr));
                assert(old(out)@ + safe_candidates_among(a) + safe_candidates_among(b) =~= old(
                    out,
                )@ + safe_candidates_among(fns_of_expr(*expr)));
            }
        },
        Expr::Match { scrutinee, arms } => {
            scan_expr(&**scrutinee, out);
            scan_arms(arms, out);
            proof {
                lemma_safe_candidates_concat(fns_of_expr(**scrutinee), fns_of_arms(arms@));
                assert(old(out)@ + safe_candidates_among(fns_of_expr(**scrutinee))
                    + safe_candidates_among(fns_of_arms(arms@)) =~= old(out)@
                    + safe_candidates_among(fns_of_expr(*expr)));
            }
        },
        Expr::MethodCall { method, receiver, args } => {
            scan_expr(&**receiver, out);
            scan_exprs(args, out);
            proof {
                lemma_safe_candidates_concat(fns_of_expr(**receiver), fns_of_exprs(args@));
                assert(old(out)@ + safe_candidates_among(fns_of_expr(**receiver))
                    + safe_candidates_among(fns_of_exprs(args@)) =~= old(out)@
                    + safe_candidates_among(fns_of_expr(*expr)));
            }
        },
        Expr::Other { exprs, blocks } => {
            scan_exprs(exprs, out);
            scan_blocks(blocks, out);
            proof {
                lemma_safe_candidates_concat(fns_of_exprs(exprs@), fns_of_blocks(blocks@));
                assert(old(out)@ + safe_candidates_among(fns_of_exprs(exprs@))
                    + safe_candidates_among(fns_of_blocks(blocks@)) =~= old(out)@
                    + safe_candidates_among(fns_of_expr(*expr)));
            }
        },
    }
}

fn scan_arms(arms: &Vec<Arm>, out: &mut Vec<SafeCandidate>)
    ensures
        final(out)@ == old(out)@ + safe_candidates_among(fns_of_arms(arms@)),
    decreases arms@,
{
    proof {
        assert(arms@.take(0) =~= Seq::<Arm>::empty());
        assert(old(out)@ + safe_candidates_among(fns_of_arms(arms@.take(0))) =~= old(out)@);
    }
    let mut j: usize = 0;
    while j < arms.len()
        invariant
            0 <= j <= arms@.len(),
            out@ == old(out)@ + safe_candidates_among(fns_of_arms(arms@.take(j as int))),
        decreases arms@.len() - j,
    {
        let arm = &arms[j];
        let ghost before = out@;
        match &arm.guard {
            Some(inner) => scan_expr(&**inner, out),
            None => {},
        }
        proof {
            let g = match arms@[j as int].guard {
                Some(inner) => fns_of_expr(*inner),
                None => Seq::<FnDecl>::empty(),
            };
            assert(out@ =~= before + safe_candidates_among(g));
        }
        scan_expr(&*arm.body, out);
        proof {
            let g = match arms@[j as int].guard {
                Some(inner) => fns_of_expr(*inner),
                None => Seq::<FnDecl>::empty(),
            };
            lemma_safe_candidates_concat(g, fns_of_expr(*arms@[j as int].body));
            assert(out@ =~= before + safe_candidates_among(fns_of_arm(arms@[j as int])));
            let pre = arms@.take(j as int);
            let post = arms@.take(j as int + 1);
            assert(post.drop_last() =~= pre);
            assert(post.last() == arms@[j as int]);
            lemma_safe_candidates_concat(fns_of_arms(pre), fns_of_arm(arms@[j as int]));
            assert(old(out)@ + safe_candidates_among(fns_of_arms(pre)) + safe_candidates_among(
                fns_of_arm(arms@[j as int]),
            ) =~= old(out)@ + safe_candidates_among(fns_of_arms(post)));
        }
        j = j + 1;
    }
    proof {
        assert(arms@.take(arms@.len() as int) =~= arms@);
    }
}

fn scan_blocks(blocks: &Vec<Block>, out: &mut Vec<SafeCandidate>)
    ensures
        final(out)@ == old(out)@ + safe_candidates_among(fns_of_blocks(blocks@)),
    decreases blocks@,
{
    proof {
        assert(blocks@.take(0) =~= Seq::<Block>::empty());
        assert(old(out)@ + safe_candidates_among(fns_of_blocks(blocks@.take(0))) =~= old(
            out,
        )@);
    }
    let mut j: usize = 0;
    while j < blocks.len()
        invariant
            0 <= j <= blocks@.len(),
            out@ == old(out)@ + safe_candidates_among(fns_of_blocks(blocks@.take(j as int))),
        decreases blocks@.len() - j,
    {
        scan_block(&blocks[j], out);
        proof {
            let pre = blocks@.take(j as int);
            let post = blocks@.take(j as int + 1);
            assert(post.drop_last() =~= pre);
            assert(post.last() == blocks@[j as int]);
            lemma_safe_candidates_concat(
                fns_of_blocks(pre),
                fns_of_stmts(blocks@[j as int].stmts@),
            );
            assert(old(out)@ + safe_candidates_among(fns_of_blocks(pre))
                + safe_candidates_among(fns_of_stmts(blocks@[j as int].stmts@)) =~= old(out)@
                + safe_candidates_among(fns_of_blocks(post)));
        }
        j = j + 1;
    }
    proof {
        assert(blocks@.take(blocks@.len() as int) =~= blocks@);
    }
}

/// Analyzes one parsed file: the flagged functions of its tree, in visit
/// order, under the given filename.
pub fn analyze_file(filename: String, file: &SourceFile) -> (r: FileStats)
    ensures
        r.filename == filename,
        r.candidates@ == safe_candidates_among(fns_of_file(*file)),
{
    let mut out: Vec<SafeCandidate> = Vec::new();
    scan_items(&file.items, &mut out);
    proof {
        assert(Seq::<SafeCandidate>::empty() + safe_candidates_among(fns_of_items(file.items@))
            =~= safe_candidates_among(fns_of_file(*file)));
    }
    FileStats { filename, candidates: out }
}

/// The per-file reports that keep at least one candidate, in order.
pub open spec fn retain_flagged(s: Seq<FileStats>) -> Seq<FileStats>
    decreases s,
{
    if s.len() == 0 {
        Seq::empty()
    } else {
        retain_flagged(s.drop_last()) + (if s.last().candidates@.len() > 0 {
            seq![s.last()]
        } else {
            Seq::empty()
        })
    }
}

/// Find candidates for functions to convert from unsafe to safe, given
/// the per-file analyses: the files with at least one flagged function,
/// sorted by filename.
pub fn find_candidates(reports: Vec<FileStats>) -> (r: Vec<FileStats>)
    ensures
        forall|i: int, j: int|
            0 <= i < j < r@.len() ==> str_le(r@[i].filename@, r@[j].filename@),
        r@.to_multiset() == retain_flagged(reports@).to_multiset(),
        forall|i: int| 0 <= i < r@.len() ==> r@[i].candidates@.len() > 0,
{
    broadcast use vstd::seq_lib::group_to_multiset_ensures;

    let ghost orig = reports@;
    let mut input = reports;
    let mut kept: Vec<FileStats> = Vec::new();
    let ghost mut done: Seq<FileStats> = Seq::empty();
    proof {
        assert(orig =~= done + input@);
    }
    while input.len() > 0
        invariant
            orig =~= done + input@,
            kept@ == retain_flagged(done),
            forall|q: int| 0 <= q < kept@.len() ==> kept@[q].candidates@.len() > 0,
        decreases input@.len(),
    {
        let ghost input_pre = input@;
        let entry = input.remove(0);
        let ghost gentry = entry;
        let keep_it = entry.candidates.len() > 0;
        if keep_it {
            kept.push(entry);
        }
        proof {
            assert(gentry == input_pre[0]);
            assert(input@ =~= input_pre.drop_first());
            assert(done.push(gentry).drop_last() =~= done);
            assert(done.push(gentry).last() == gentry);
            assert(kept@ == retain_flagged(done.push(gentry)));
            done = done.push(gentry);
            assert(orig =~= done + input@);
        }
    }
    proof {
        assert(done =~= orig);
    }
    let ghost all = retain_flagged(orig);
    let mut out: Vec<FileStats> = Vec::new();
    proof {
        out@.to_multiset_ensures();
        assert(out@.to_multiset().add(kept@.to_multiset()) =~= kept@.to_multiset());
    }
    while kept.len() > 0
        invariant
            forall|p: int, q: int|
                0 <= p < q < out@.len() ==> str_le(out@[p].filename@, out@[q].filename@),
            forall|p: int, q: int|
                0 <= p < out@.len() && 0 <= q < kept@.len() ==> str_le(
                    out@[p].filename@,
                    kept@[q].filename@,
                ),
            out@.to_multiset().add(kept@.to_multiset()) == all.to_multiset(),
            forall|p: int| 0 <= p < out@.len() ==> out@[p].candidates@.len() > 0,
            forall|q: int| 0 <= q < kept@.len() ==> kept@[q].candidates@.len() > 0,
        decreases kept@.len(),
    {
        let mut m: usize = 0;
        let mut k: usize = 1;
        while k < kept.len()
            invariant
                0 <= m < k <= kept@.len(),
                kept@.len() > 0,
                forall|t: int| 0 <= t < k ==> str_le(kept@[m as int].filename@, kept@[t].filename@),
            decreases kept@.len() - k,
        {
            let smaller = match str_compare(kept[k].filename.as_str(), kept[m].filename.as_str()) {
                StrCmp::Less => true,
                _ => false,
            };
            if smaller {
                proof {
                    assert forall|t: int| 0 <= t < k + 1 implies str_le(
                        kept@[k as int].filename@,
                        kept@[t].filename@,
                    ) by {
                        if t < k {
                            lemma_str_le_transitive(
                                kept@[k as int].filename@,
                                kept@[m as int].filename@,
                                kept@[t].filename@,
                            );
                        }
                    }
                }
                m = k;
            } else {
                proof {
                    lemma_str_le_total(kept@[m as int].filename@, kept@[k as int].filename@);
                }
            }
            k = k + 1;
        }
        let ghost kept_old = kept@;
        let item = kept.remove(m);
        proof {
            kept_old.to_multiset_ensures();
            out@.to_multiset_ensures();
            kept_old.remove_ensures(m as int);
            assert(item == kept_old[m as int]);
            assert(kept@ =~= kept_old.remove(m as int));
            assert(kept@.to_multiset() =~= kept_old.to_multiset().remove(item));
            assert(out@.push(item).to_multiset() =~= out@.to_multiset().insert(item));
            assert(kept_old.contains(item));
            assert(kept_old.to_multiset().count(item) > 0);
            assert(out@.to_multiset().insert(item).add(kept_old.to_multiset().remove(item))
                =~= out@.to_multiset().add(kept_old.to_multiset()));
        }
        out.push(item);
    }
    proof {
        assert(kept@.to_multiset().len() == 0);
        assert(out@.to_multiset().add(kept@.to_multiset()) =~= out@.to_multiset());
    }
    out
}

} // verus!
