//! The abstract syntax tree the parser produces and the lowering
//! compiler consumes.

use vstd::prelude::*;
use crate::value::Value;

verus! {

pub enum Expr {
    Literal(Value),
    Identifier(String),
    Binary { left: Box<Expr>, operator: BinaryOp, right: Box<Expr> },
    Unary { operator: UnaryOp, operand: Box<Expr> },
    Call { callee: Box<Expr>, args: Vec<Expr> },
    Index { object: Box<Expr>, index: Box<Expr> },
    FieldAccess { object: Box<Expr>, field: String },
}

pub enum Stmt {
    Expression(Expr),
    Assignment { target: String, value: Expr },
    LocalAssignment { names: Vec<String>, values: Vec<Expr> },
    If { condition: Expr, then_branch: Vec<Stmt>, else_branch: Option<Vec<Stmt>> },
    While { condition: Expr, body: Vec<Stmt> },
    For { var: String, start: Expr, end: Expr, step: Option<Expr>, body: Vec<Stmt> },
    Function { name: String, params: Vec<String>, body: Vec<Stmt> },
    Return(Option<Expr>),
    Break,
}

#[derive(Clone, Copy)]
pub enum BinaryOp {
    Add,
    Sub,
    Mul,
    Div,
    Mod,
    Pow,
    Equal,
    NotEqual,
    Less,
    LessEqual,
    Greater,
    GreaterEqual,
    And,
    Or,
    Concat,
}

#[derive(Clone, Copy)]
pub enum UnaryOp {
    Not,
    Minus,
}

pub struct Program {
    pub statements: Vec<Stmt>,
}

/// Whether the lowering compiler recognizes every node of this
/// expression.  Bracketed indexing has no lowering.
pub open spec fn expr_supported(e: Expr) -> bool
    decreases e,
{
    match e {
        Expr::Literal(_) => true,
        Expr::Identifier(_) => true,
        Expr::Binary { left, operator, right } => expr_supported(*left) && expr_supported(*right),
        Expr::Unary { operator, operand } => expr_supported(*operand),
        Expr::Call { callee, args } => expr_supported(*callee) && exprs_supported(args@),
        Expr::Index { .. } => false,
        Expr::FieldAccess { object, field } => expr_supported(*object),
    }
}

pub open spec fn exprs_supported(s: Seq<Expr>) -> bool
    decreases s,
{
    if s.len() == 0 {
        true
    } else {
        expr_supported(s[0]) && exprs_supported(s.subrange(1, s.len() as int))
    }
}

/// Whether the lowering compiler recognizes every node of this
/// statement.  Function declarations and `break` have no lowering.
pub open spec fn stmt_supported(s: Stmt) -> bool
    decreases s,
{
    match s {
        Stmt::Expression(e) => expr_supported(e),
        Stmt::Assignment { target, value } => expr_supported(value),
        Stmt::LocalAssignment { names, values } => exprs_supported(values@),
        Stmt::If { condition, then_branch, else_branch } => expr_supported(condition)
            && stmts_supported(then_branch@) && (match else_branch {
            Some(es) => stmts_supported(es@),
            None => true,
        }),
        Stmt::While { condition, body } => expr_supported(condition) && stmts_supported(body@),
        Stmt::For { var, start, end, step, body } => expr_supported(start) && expr_supported(end)
            && (match step {
            Some(e) => expr_supported(e),
            None => true,
        }) && stmts_supported(body@),
        Stmt::Function { .. } => false,
        Stmt::Return(e) => match e {
            Some(x) => expr_supported(x),
            None => true,
        },
        Stmt::Break => false,
    }
}

pub open spec fn stmts_supported(s: Seq<Stmt>) -> bool
    decreases s,
{
    if s.len() == 0 {
        true
    } else {
        stmt_supported(s[0]) && stmts_supported(s.subrange(1, s.len() as int))
    }
}

/// Whether the lowering compiler recognizes every statement of the
/// program.
pub open spec fn program_supported(p: &Program) -> bool {
    stmts_supported(p.statements@)
}

/// A sequence of expressions is supported exactly when each one is.
pub proof fn lemma_exprs_supported_pointwise(s: Seq<Expr>)
    ensures
        exprs_supported(s) <==> (forall|i: int| 0 <= i < s.len() ==> expr_supported(#[trigger] s[i])),
    decreases s.len(),
{
    if s.len() > 0 {
        lemma_exprs_supported_pointwise(s.subrange(1, s.len() as int));
        assert forall|i: int| 1 <= i < s.len() implies s[i] == s.subrange(1, s.len() as int)[i
            - 1] by {}
        if expr_supported(s[0]) && (forall|i: int|
            0 <= i < s.len() ==> expr_supported(#[trigger] s[i])) {
            assert(forall|i: int|
                0 <= i < s.subrange(1, s.len() as int).len() ==> expr_supported(
                    #[trigger] s.subrange(1, s.len() as int)[i],
                ));
        }
    }
}

/// A sequence of statements is supported exactly when each one is.
pub proof fn lemma_stmts_supported_pointwise(s: Seq<Stmt>)
    ensures
        stmts_supported(s) <==> (forall|i: int| 0 <= i < s.len() ==> stmt_supported(#[trigger] s[i])),
    decreases s.len(),
{
    if s.len() > 0 {
        lemma_stmts_supported_pointwise(s.subrange(1, s.len() as int));
        assert forall|i: int| 1 <= i < s.len() implies s[i] == s.subrange(1, s.len() as int)[i
            - 1] by {}
        if stmt_supported(s[0]) && (forall|i: int|
            0 <= i < s.len() ==> stmt_supported(#[trigger] s[i])) {
            assert(forall|i: int|
                0 <= i < s.subrange(1, s.len() as int).len() ==> stmt_supported(
                    #[trigger] s.subrange(1, s.len() as int)[i],
                ));
        }
    }
}

} // verus!
