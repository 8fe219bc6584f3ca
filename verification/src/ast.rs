use vstd::prelude::*;

use crate::token::{SpecToken, Token};

verus! {

/// An expression node of the abstract syntax tree. Expressions form a tree;
/// each node exclusively owns its children.
#[derive(Debug, PartialEq)]
pub enum Expr {
    BinaryExpr { op: Token, left: Box<Expr>, right: Box<Expr> },
    UnaryExpr { op: Token, right: Box<Expr> },
    Logical { op: Token, left: Box<Expr>, right: Box<Expr> },
    Grouping { expr: Box<Expr> },
    Literal { value: String },
    Assign { name: Token, value: Box<Expr> },
    Variable { name: Token },
    Call { callee: Box<Expr>, paren: Token, args: Vec<Box<Expr>> },
}

/// A statement node of the abstract syntax tree. A `Function` statement's
/// body is a statement sequence, making statements a recursive tree owned
/// top-down.
#[derive(Debug, PartialEq)]
pub enum Stmt {
    Block(Vec<Box<Stmt>>),
    Expr(Box<Expr>),
    Return { keyword: Token, value: Option<Box<Expr>> },
    Function { name: Token, params: Vec<Token>, body: Vec<Box<Stmt>> },
    If { cond: Box<Expr>, then_branch: Box<Stmt>, else_branch: Option<Box<Stmt>> },
    While { condition: Box<Expr>, body: Box<Stmt> },
    Var { name: Token, initializer: Box<Expr> },
}

/// The mathematical value of an [`Expr`].
pub enum SpecExpr {
    Binary { op: SpecToken, left: Box<SpecExpr>, right: Box<SpecExpr> },
    Unary { op: SpecToken, right: Box<SpecExpr> },
    Logical { op: SpecToken, left: Box<SpecExpr>, right: Box<SpecExpr> },
    Grouping { expr: Box<SpecExpr> },
    Literal { value: Seq<char> },
    Assign { name: SpecToken, value: Box<SpecExpr> },
    Variable { name: SpecToken },
    Call { callee: Box<SpecExpr>, paren: SpecToken, args: Seq<SpecExpr> },
}

/// The mathematical value of a [`Stmt`].
pub enum SpecStmt {
    Block(Seq<SpecStmt>),
    Expr(SpecExpr),
    Return { keyword: SpecToken, value: Option<SpecExpr> },
    Function { name: SpecToken, params: Seq<SpecToken>, body: Seq<SpecStmt> },
    If { cond: SpecExpr, then_branch: Box<SpecStmt>, else_branch: Option<Box<SpecStmt>> },
    While { condition: SpecExpr, body: Box<SpecStmt> },
    Var { name: SpecToken, initializer: SpecExpr },
}

/// The mathematical value of an expression node.
pub open spec fn expr_view(e: Expr) -> SpecExpr
    decreases e,
{
    match e {
        Expr::BinaryExpr { op, left, right } => SpecExpr::Binary {
            op: op@,
            left: Box::new(expr_view(*left)),
            right: Box::new(expr_view(*right)),
        },
        Expr::UnaryExpr { op, right } => SpecExpr::Unary {
            op: op@,
            right: Box::new(expr_view(*right)),
        },
        Expr::Logical { op, left, right } => SpecExpr::Logical {
            op: op@,
            left: Box::new(expr_view(*left)),
            right: Box::new(expr_view(*right)),
        },
        Expr::Grouping { expr } => SpecExpr::Grouping { expr: Box::new(expr_view(*expr)) },
        Expr::Literal { value } => SpecExpr::Literal { value: value@ },
        Expr::Assign { name, value } => SpecExpr::Assign {
            name: name@,
            value: Box::new(expr_view(*value)),
        },
        Expr::Variable { name } => SpecExpr::Variable { name: name@ },
        Expr::Call { callee, paren, args } => SpecExpr::Call {
            callee: Box::new(expr_view(*callee)),
            paren: paren@,
            args: exprs_view(args@),
        },
    }
}

/// The mathematical values of a sequence of expression nodes, in order.
pub open spec fn exprs_view(es: Seq<Box<Expr>>) -> Seq<SpecExpr>
    decreases es,
{
    if es.len() == 0 {
        Seq::empty()
    } else {
        exprs_view(es.drop_last()).push(expr_view(*es.last()))
    }
}

/// The mathematical value of a statement node.
pub open spec fn stmt_view(st: Stmt) -> SpecStmt
    decreases st,
{
    match st {
        Stmt::Block(stmts) => SpecStmt::Block(stmts_view(stmts@)),
        Stmt::Expr(e) => SpecStmt::Expr(expr_view(*e)),
        Stmt::Return { keyword, value } => SpecStmt::Return {
            keyword: keyword@,
            value: match value {
                Some(e) => Some(expr_view(*e)),
                None => None,
            },
        },
        Stmt::Function { name, params, body } => SpecStmt::Function {
            name: name@,
            params: params@.map_values(|t: Token| t@),
            body: stmts_view(body@),
        },
        Stmt::If { cond, then_branch, else_branch } => SpecStmt::If {
            cond: expr_view(*cond),
            then_branch: Box::new(stmt_view(*then_branch)),
            else_branch: match else_branch {
                Some(b) => Some(Box::new(stmt_view(*b))),
                None => None,
            },
        },
        Stmt::While { condition, body } => SpecStmt::While {
            condition: expr_view(*condition),
            body: Box::new(stmt_view(*body)),
        },
        Stmt::Var { name, initializer } => SpecStmt::Var {
            name: name@,
            initializer: expr_view(*initializer),
        },
    }
}

/// The mathematical values of a sequence of statement nodes, in order.
pub open spec fn stmts_view(sts: Seq<Box<Stmt>>) -> Seq<SpecStmt>
    decreases sts,
{
    if sts.len() == 0 {
        Seq::empty()
    } else {
        stmts_view(sts.drop_last()).push(stmt_view(*sts.last()))
    }
}


/// Appending one expression appends its value to the sequence view.
pub proof fn lemma_exprs_view_push(es: Seq<Box<Expr>>, e: Box<Expr>)
    ensures
        exprs_view(es.push(e)) == exprs_view(es).push(expr_view(*e)),
{
    assert(es.push(e).drop_last() =~= es);
    assert(es.push(e).last() == e);
}

/// A statement sequence and its view have the same length.
pub proof fn lemma_stmts_view_len(sts: Seq<Box<Stmt>>)
    ensures
        stmts_view(sts).len() == sts.len(),
    decreases sts.len(),
{
    if sts.len() > 0 {
        lemma_stmts_view_len(sts.drop_last());
    }
}

/// A statement sequence's view holds, at each index, the value of the
/// statement at that index.
pub proof fn lemma_stmts_view_index(sts: Seq<Box<Stmt>>, i: int)
    requires
        0 <= i < sts.len(),
    ensures
        stmts_view(sts).len() == sts.len(),
        stmts_view(sts)[i] == stmt_view(*sts[i]),
    decreases sts.len(),
{
    lemma_stmts_view_len(sts);
    lemma_stmts_view_len(sts.drop_last());
    if i + 1 < sts.len() {
        lemma_stmts_view_index(sts.drop_last(), i);
        assert(sts.drop_last()[i] == sts[i]);
    }
}

/// Appending one statement appends its value to the sequence view.
pub proof fn lemma_stmts_view_push(sts: Seq<Box<Stmt>>, st: Box<Stmt>)
    ensures
        stmts_view(sts.push(st)) == stmts_view(sts).push(stmt_view(*st)),
{
    assert(sts.push(st).drop_last() =~= sts);
    assert(sts.push(st).last() == st);
}

impl View for Expr {
    type V = SpecExpr;

    open spec fn view(&self) -> SpecExpr {
        expr_view(*self)
    }
}

impl View for Stmt {
    type V = SpecStmt;

    open spec fn view(&self) -> SpecStmt {
        stmt_view(*self)
    }
}

} // verus!
