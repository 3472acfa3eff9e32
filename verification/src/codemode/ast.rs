//! Statements and expressions of the bounded guest subset, and their views.

use vstd::prelude::*;
use crate::json::JsonValue;

verus! {

/// One statement.
#[derive(Debug, PartialEq, Eq)]
pub enum Stmt {
    /// `let` / `const` binding.
    Let {
        /// Binding name.
        name: String,
        /// Right-hand side.
        expr: Expr,
    },
    /// `return expr;`
    Return(Expr),
    /// Expression statement.
    Expr(Expr),
}

/// Expression.
#[derive(Debug, PartialEq, Eq)]
pub enum Expr {
    /// `await expr` (scheduling is already async; this is sugar).
    Await(Box<Expr>),
    /// `callee(args...)`
    Call {
        /// Function expression.
        callee: Box<Expr>,
        /// Arguments.
        args: Vec<Expr>,
    },
    /// `object.prop`
    Member {
        /// Receiver.
        object: Box<Expr>,
        /// Property name.
        prop: String,
    },
    /// `object[index]`
    Index {
        /// Receiver.
        object: Box<Expr>,
        /// Index expression.
        index: Box<Expr>,
    },
    /// Identifier.
    Ident(String),
    /// JSON literal.
    Literal(JsonValue),
    /// `{ k: expr }`
    Object(Vec<(String, Expr)>),
    /// `[expr, ...]`
    Array(Vec<Expr>),
}

/// A literal as plain values.
pub enum LitView {
    Null,
    Bool(bool),
    Number(Seq<char>),
    Text(Seq<char>),
}

/// An expression as plain values.
pub enum ExprView {
    Await(Box<ExprView>),
    Call(Box<ExprView>, Seq<ExprView>),
    Member(Box<ExprView>, Seq<char>),
    Index(Box<ExprView>, Box<ExprView>),
    Ident(Seq<char>),
    Literal(LitView),
    Object(Seq<(Seq<char>, ExprView)>),
    Array(Seq<ExprView>),
}

/// A statement as plain values.
pub enum StmtView {
    Let(Seq<char>, ExprView),
    Return(ExprView),
    Expr(ExprView),
}

/// Whether a JSON value is the literal `l`.
pub open spec fn lit_is(v: JsonValue, l: LitView) -> bool {
    match l {
        LitView::Null => v is Null,
        LitView::Bool(b) => v == JsonValue::Bool(b),
        LitView::Number(t) => v matches JsonValue::Number(s) && s@ == t,
        LitView::Text(t) => v matches JsonValue::Text(s) && s@ == t,
    }
}

/// Whether `e` is the expression `v`.
pub open spec fn expr_is(e: Expr, v: ExprView) -> bool
    decreases e,
{
    match e {
        Expr::Await(inner) => v matches ExprView::Await(vi) && expr_is(*inner, *vi),
        Expr::Call { callee, args } => v matches ExprView::Call(vc, va) && expr_is(*callee, *vc) && args.len()
            == va.len() && forall|i: int| 0 <= i < args.len() ==> expr_is(#[trigger] args[i], va[i]),
        Expr::Member { object, prop } => v matches ExprView::Member(vo, vp) && expr_is(*object, *vo) && prop@
            == vp,
        Expr::Index { object, index } => v matches ExprView::Index(vo, vi) && expr_is(*object, *vo) && expr_is(
            *index,
            *vi,
        ),
        Expr::Ident(s) => v matches ExprView::Ident(t) && s@ == t,
        Expr::Literal(j) => v matches ExprView::Literal(l) && lit_is(j, l),
        Expr::Object(fields) => v matches ExprView::Object(vf) && fields.len() == vf.len() && forall|i: int|
            0 <= i < fields.len() ==> (#[trigger] fields[i]).0@ == vf[i].0 && expr_is(fields[i].1, vf[i].1),
        Expr::Array(items) => v matches ExprView::Array(vi) && items.len() == vi.len() && forall|i: int|
            0 <= i < items.len() ==> expr_is(#[trigger] items[i], vi[i]),
    }
}

/// Whether `s` is the statement `v`.
pub open spec fn stmt_is(s: Stmt, v: StmtView) -> bool {
    match s {
        Stmt::Let { name, expr } => v matches StmtView::Let(n, e) && name@ == n && expr_is(expr, e),
        Stmt::Return(e) => v matches StmtView::Return(ve) && expr_is(e, ve),
        Stmt::Expr(e) => v matches StmtView::Expr(ve) && expr_is(e, ve),
    }
}

} // verus!
