//! Form of a compiled script program.
//!
//! The compiler turns script source into this form; the virtual machine
//! runs it.  Variable and key names are byte strings, string literals are
//! byte strings taken verbatim from the source, and real literals carry the
//! bit pattern of their 64-bit floating-point value.

use vstd::prelude::*;

verus! {

/// Comparison operators.
#[derive(Clone, Copy)]
pub enum CmpOp {
    /// `==`
    EqEq,
    /// `!=`
    Ne,
    /// `<`
    Lt,
    /// `<=`
    Le,
    /// `>`
    Gt,
    /// `>=`
    Ge,
}

/// An expression of the script language.
pub enum Expr {
    /// The `null` literal.
    Null,
    /// The `true` literal.
    True,
    /// The `false` literal.
    False,
    /// An integer literal (a leading minus sign is part of the literal).
    Int(i64),
    /// A real literal, as the bit pattern of its 64-bit value.
    Real(u64),
    /// A single-quoted string literal, verbatim bytes.
    Str(Vec<u8>),
    /// A variable reference `$name`.
    Var(Vec<u8>),
    /// Container indexing `a[i]`.
    Index(Box<Expr>, Box<Expr>),
    /// String concatenation `a..b`.
    Cat(Box<Expr>, Box<Expr>),
    /// Addition or container union `a + b`.
    Plus(Box<Expr>, Box<Expr>),
    /// A comparison `a <op> b`.
    Cmp(CmpOp, Box<Expr>, Box<Expr>),
    /// An array literal `[a, b, ...]`.
    Arr(Vec<Expr>),
    /// An object literal `{ key: a, ... }`; keys are literal names or
    /// single-quoted strings.
    Obj(Vec<(Vec<u8>, Expr)>),
}

/// A statement of the script language.
pub enum Stmt {
    /// `print expr;`
    Print(Expr),
    /// `return expr;`
    Ret(Expr),
    /// `$name = expr;`
    Assign(Vec<u8>, Expr),
    /// `if (cond) { ... } else { ... }` (the else branch may be empty).
    If(Expr, Vec<Stmt>, Vec<Stmt>),
}

/// A compiled program: its statements in order.
pub struct Program {
    /// The statements in order.
    pub stmts: Vec<Stmt>,
}

} // verus!

verus! {

/// Ghost form of an expression: the same shape, carried by ghost
/// sequences, so that ghost functions can build and compare programs.
#[verifier::ext_equal]
pub enum ExprS {
    /// The `null` literal.
    Null,
    /// The `true` literal.
    True,
    /// The `false` literal.
    False,
    /// An integer literal.
    Int(i64),
    /// A real literal, as the bit pattern of its 64-bit value.
    Real(u64),
    /// A string literal, verbatim bytes.
    Str(Seq<u8>),
    /// A variable reference.
    Var(Seq<u8>),
    /// Container indexing.
    Index(Box<ExprS>, Box<ExprS>),
    /// String concatenation.
    Cat(Box<ExprS>, Box<ExprS>),
    /// Addition or container union.
    Plus(Box<ExprS>, Box<ExprS>),
    /// A comparison.
    Cmp(CmpOp, Box<ExprS>, Box<ExprS>),
    /// An array literal.
    Arr(Seq<ExprS>),
    /// An object literal.
    Obj(Seq<(Seq<u8>, ExprS)>),
}

/// Ghost form of a statement.
#[verifier::ext_equal]
pub enum StmtS {
    /// `print expr;`
    Print(ExprS),
    /// `return expr;`
    Ret(ExprS),
    /// `$name = expr;`
    Assign(Seq<u8>, ExprS),
    /// `if (cond) { ... } else { ... }`.
    If(ExprS, Seq<StmtS>, Seq<StmtS>),
}

/// Ghost form of an expression.
pub open spec fn expr_view(e: Expr) -> ExprS
    decreases e,
{
    match e {
        Expr::Null => ExprS::Null,
        Expr::True => ExprS::True,
        Expr::False => ExprS::False,
        Expr::Int(i) => ExprS::Int(i),
        Expr::Real(r) => ExprS::Real(r),
        Expr::Str(v) => ExprS::Str(v@),
        Expr::Var(n) => ExprS::Var(n@),
        Expr::Index(a, ix) => ExprS::Index(Box::new(expr_view(*a)), Box::new(expr_view(*ix))),
        Expr::Cat(a, b) => ExprS::Cat(Box::new(expr_view(*a)), Box::new(expr_view(*b))),
        Expr::Plus(a, b) => ExprS::Plus(Box::new(expr_view(*a)), Box::new(expr_view(*b))),
        Expr::Cmp(op, a, b) => ExprS::Cmp(op, Box::new(expr_view(*a)), Box::new(expr_view(*b))),
        Expr::Arr(items) => ExprS::Arr(exprs_view(items@)),
        Expr::Obj(pairs) => ExprS::Obj(expr_pairs_view(pairs@)),
    }
}

/// Ghost form of an expression list.
pub open spec fn exprs_view(s: Seq<Expr>) -> Seq<ExprS>
    decreases s,
{
    if s.len() == 0 {
        Seq::<ExprS>::empty()
    } else {
        exprs_view(s.drop_last()).push(expr_view(s.last()))
    }
}

/// Ghost form of an object literal's pair list.
pub open spec fn expr_pairs_view(s: Seq<(Vec<u8>, Expr)>) -> Seq<(Seq<u8>, ExprS)>
    decreases s,
{
    if s.len() == 0 {
        Seq::<(Seq<u8>, ExprS)>::empty()
    } else {
        expr_pairs_view(s.drop_last()).push((s.last().0@, expr_view(s.last().1)))
    }
}

/// Ghost form of a statement.
pub open spec fn stmt_view(s: Stmt) -> StmtS
    decreases s,
{
    match s {
        Stmt::Print(e) => StmtS::Print(expr_view(e)),
        Stmt::Ret(e) => StmtS::Ret(expr_view(e)),
        Stmt::Assign(n, e) => StmtS::Assign(n@, expr_view(e)),
        Stmt::If(c, t, f) => StmtS::If(expr_view(c), stmts_view(t@), stmts_view(f@)),
    }
}

/// Ghost form of a statement list.
pub open spec fn stmts_view(s: Seq<Stmt>) -> Seq<StmtS>
    decreases s,
{
    if s.len() == 0 {
        Seq::<StmtS>::empty()
    } else {
        stmts_view(s.drop_last()).push(stmt_view(s.last()))
    }
}

/// The ghost expression list is as long as the concrete one, element for
/// element.
pub proof fn lemma_exprs_view_len(s: Seq<Expr>)
    ensures
        exprs_view(s).len() == s.len(),
        forall|i: int| 0 <= i < s.len() ==> #[trigger] exprs_view(s)[i] == expr_view(s[i]),
    decreases s,
{
    if s.len() > 0 {
        lemma_exprs_view_len(s.drop_last());
    }
}

/// The ghost pair list is as long as the concrete one, pair for pair.
pub proof fn lemma_expr_pairs_view_len(s: Seq<(Vec<u8>, Expr)>)
    ensures
        expr_pairs_view(s).len() == s.len(),
        forall|i: int|
            0 <= i < s.len() ==> #[trigger] expr_pairs_view(s)[i] == (
                s[i].0@,
                expr_view(s[i].1),
            ),
    decreases s,
{
    if s.len() > 0 {
        lemma_expr_pairs_view_len(s.drop_last());
    }
}

/// The ghost statement list is as long as the concrete one, statement for
/// statement.
pub proof fn lemma_stmts_view_len(s: Seq<Stmt>)
    ensures
        stmts_view(s).len() == s.len(),
        forall|i: int| 0 <= i < s.len() ==> #[trigger] stmts_view(s)[i] == stmt_view(s[i]),
    decreases s,
{
    if s.len() > 0 {
        lemma_stmts_view_len(s.drop_last());
    }
}

} // verus!
