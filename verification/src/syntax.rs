//! The syntax-tree model that the collectors and detectors walk.
//!
//! A parsed source file is handed to the library as this tree.  It keeps,
//! as plain values, exactly what the metrics and the candidate heuristics
//! read: declarations, statements, the expression shapes the detectors
//! distinguish, integer-literal digit strings, and for each function its
//! name, line, qualifier, parameter types and return type.  Every other
//! node kind is kept only as an anonymous carrier of its children, so the
//! walks still reach everything nested inside it.

use vstd::prelude::*;

verus! {

/// One parsed source file: its top-level items.
pub struct SourceFile {
    pub items: Vec<Item>,
}

/// A top-level or nested item.
pub enum Item {
    /// A free function declaration.
    Fn(FnDecl),
    /// A static item; `mutable` records a `static mut`.
    Static { mutable: bool, init: Box<Expr> },
    /// Any other item kind, holding the items and expressions nested in it
    /// (an impl or trait keeps its method bodies here as block expressions).
    Other { items: Vec<Item>, exprs: Vec<Expr> },
}

/// A function declaration with what the heuristics read from it.
pub struct FnDecl {
    pub name: String,
    /// Line of the declaration in its source file.
    pub line: usize,
    /// Whether the function is declared with the unsafe qualifier.
    pub is_unsafe: bool,
    /// The declared parameter types, in order.
    pub params: Vec<Ty>,
    /// The declared return type; `None` for the default (unit) return.
    pub ret: Option<Ty>,
    pub body: Block,
}

/// The type shapes the detectors distinguish.
pub enum Ty {
    /// A path type, keeping the identifier of its last segment
    /// (`None` for a degenerate empty path).
    Path { last_segment: Option<String> },
    /// A raw pointer type.
    Ptr,
    Other,
}

/// A block: a brace-enclosed sequence of statements.
pub struct Block {
    pub stmts: Vec<Stmt>,
}

/// A statement.
pub enum Stmt {
    /// A let binding; `children` holds its initializer expression and, for
    /// a let-else, the diverging expression.
    Local { children: Vec<Expr> },
    /// A nested item declaration.
    Item(Box<Item>),
    /// An expression statement; `semi` records a trailing semicolon.
    Expr { expr: Box<Expr>, semi: bool },
    /// Any other statement kind with no children to walk (a macro call).
    Other,
}

/// An expression.
pub enum Expr {
    Lit(Lit),
    /// A unary operation; `neg` records the negation operator.
    Unary { neg: bool, inner: Box<Expr> },
    /// An explicit return, with or without a value.
    Return(Option<Box<Expr>>),
    Block(Block),
    /// A block explicitly marked as an unsafe region.
    Unsafe(Block),
    If { cond: Box<Expr>, then_branch: Block, else_branch: Option<Box<Expr>> },
    Match { scrutinee: Box<Expr>, arms: Vec<Arm> },
    /// A method-style call, keeping the method name.
    MethodCall { method: String, receiver: Box<Expr>, args: Vec<Expr> },
    /// Any other expression kind, as an anonymous carrier of its child
    /// expressions and blocks (in source order).
    Other { exprs: Vec<Expr>, blocks: Vec<Block> },
}

/// A literal.
pub enum Lit {
    /// An integer literal, as its base-10 digit string (no sign).
    Int { digits: String },
    Other,
}

/// One arm of a match expression.
pub struct Arm {
    pub guard: Option<Box<Expr>>,
    pub body: Box<Expr>,
}

/// All function declarations under a sequence of items, in the order a
/// depth-first walk meets them.
pub open spec fn fns_of_items(items: Seq<Item>) -> Seq<FnDecl>
    decreases items,
{
    if items.len() == 0 {
        Seq::empty()
    } else {
        fns_of_items(items.drop_last()) + fns_of_item(items.last())
    }
}

pub open spec fn fns_of_item(item: Item) -> Seq<FnDecl>
    decreases item,
{
    match item {
        Item::Fn(d) => seq![d] + fns_of_stmts(d.body.stmts@),
        Item::Static { mutable, init } => fns_of_expr(*init),
        Item::Other { items, exprs } => fns_of_items(items@) + fns_of_exprs(exprs@),
    }
}

pub open spec fn fns_of_stmts(stmts: Seq<Stmt>) -> Seq<FnDecl>
    decreases stmts,
{
    if stmts.len() == 0 {
        Seq::empty()
    } else {
        fns_of_stmts(stmts.drop_last()) + fns_of_stmt(stmts.last())
    }
}

pub open spec fn fns_of_stmt(stmt: Stmt) -> Seq<FnDecl>
    decreases stmt,
{
    match stmt {
        Stmt::Local { children } => fns_of_exprs(children@),
        Stmt::Item(item) => fns_of_item(*item),
        Stmt::Expr { expr, semi } => fns_of_expr(*expr),
        Stmt::Other => Seq::empty(),
    }
}

pub open spec fn fns_of_exprs(exprs: Seq<Expr>) -> Seq<FnDecl>
    decreases exprs,
{
    if exprs.len() == 0 {
        Seq::empty()
    } else {
        fns_of_exprs(exprs.drop_last()) + fns_of_expr(exprs.last())
    }
}

pub open spec fn fns_of_expr(expr: Expr) -> Seq<FnDecl>
    decreases expr,
{
    match expr {
        Expr::Lit(_) => Seq::empty(),
        Expr::Unary { neg, inner } => fns_of_expr(*inner),
        Expr::Return(value) => match value {
            Some(inner) => fns_of_expr(*inner),
            None => Seq::empty(),
        },
        Expr::Block(block) => fns_of_stmts(block.stmts@),
        Expr::Unsafe(block) => fns_of_stmts(block.stmts@),
        Expr::If { cond, then_branch, else_branch } => fns_of_expr(*cond) + fns_of_stmts(
            then_branch.stmts@,
        ) + match else_branch {
            Some(inner) => fns_of_expr(*inner),
            None => Seq::empty(),
        },
        Expr::Match { scrutinee, arms } => fns_of_expr(*scrutinee) + fns_of_arms(arms@),
        Expr::MethodCall { method, receiver, args } => fns_of_expr(*receiver) + fns_of_exprs(
            args@,
        ),
        Expr::Other { exprs, blocks } => fns_of_exprs(exprs@) + fns_of_blocks(blocks@),
    }
}

pub open spec fn fns_of_arms(arms: Seq<Arm>) -> Seq<FnDecl>
    decreases arms,
{
    if arms.len() == 0 {
        Seq::empty()
    } else {
        fns_of_arms(arms.drop_last()) + fns_of_arm(arms.last())
    }
}

pub open spec fn fns_of_arm(arm: Arm) -> Seq<FnDecl>
    decreases arm,
{
    (match arm.guard {
        Some(inner) => fns_of_expr(*inner),
        None => Seq::empty(),
    }) + fns_of_expr(*arm.body)
}

pub open spec fn fns_of_blocks(blocks: Seq<Block>) -> Seq<FnDecl>
    decreases blocks,
{
    if blocks.len() == 0 {
        Seq::empty()
    } else {
        fns_of_blocks(blocks.drop_last()) + fns_of_stmts(blocks.last().stmts@)
    }
}

/// All function declarations of a file, in walk order.
pub open spec fn fns_of_file(file: SourceFile) -> Seq<FnDecl> {
    fns_of_items(file.items@)
}

} // verus!
