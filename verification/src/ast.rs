//! The abstract syntax tree: expressions and statements, with their
//! mathematical views (`ExprView`, `StmtView`) and structural size
//! functions used for termination measures.

use vstd::prelude::*;
use crate::token::{Literal, TokenType, TokenKindView, ValueView};

verus! {

/// An expression.  Binary carries an arithmetic operator kind,
/// Comparison a comparison operator kind, Unary the minus kind.
#[derive(Debug, PartialEq)]
pub enum Expression {
    Literal(Literal),
    Identifier(String),
    Grouping { expression: Box<Expression> },
    Comparison { left: Box<Expression>, operator: TokenType, right: Box<Expression> },
    Unary { operator: TokenType, right: Box<Expression> },
    Binary { left: Box<Expression>, operator: TokenType, right: Box<Expression> },
    Call { callee: String, args: Vec<Expression> },
}

/// A statement.
#[derive(Debug, PartialEq)]
pub enum Statement {
    ExpressionStatement { expression: Expression },
    Declaration { is_const: bool, name: String, value: Option<Expression> },
    FunctionDeclaration { name: String, params: Vec<String>, body: Vec<Statement> },
    Return { expression: Expression },
}

/// A bare identifier.
#[derive(Debug, PartialEq)]
pub struct Identifier(pub String);

/// The mathematical view of an `Expression`.
pub enum ExprView {
    Literal(ValueView),
    Identifier(Seq<char>),
    Grouping { expression: Box<ExprView> },
    Comparison { left: Box<ExprView>, operator: TokenKindView, right: Box<ExprView> },
    Unary { operator: TokenKindView, right: Box<ExprView> },
    Binary { left: Box<ExprView>, operator: TokenKindView, right: Box<ExprView> },
    Call { callee: Seq<char>, args: Seq<ExprView> },
}

/// The mathematical view of a `Statement`.
pub enum StmtView {
    ExpressionStatement { expression: ExprView },
    Declaration { is_const: bool, name: Seq<char>, value: Option<ExprView> },
    FunctionDeclaration { name: Seq<char>, params: Seq<Seq<char>>, body: Seq<StmtView> },
    Return { expression: ExprView },
}

pub open spec fn expr_view(e: Expression) -> ExprView
    decreases e,
{
    match e {
        Expression::Literal(l) => ExprView::Literal(l@),
        Expression::Identifier(s) => ExprView::Identifier(s@),
        Expression::Grouping { expression } => ExprView::Grouping {
            expression: Box::new(expr_view(*expression)),
        },
        Expression::Comparison { left, operator, right } => ExprView::Comparison {
            left: Box::new(expr_view(*left)),
            operator: operator@,
            right: Box::new(expr_view(*right)),
        },
        Expression::Unary { operator, right } => ExprView::Unary {
            operator: operator@,
            right: Box::new(expr_view(*right)),
        },
        Expression::Binary { left, operator, right } => ExprView::Binary {
            left: Box::new(expr_view(*left)),
            operator: operator@,
            right: Box::new(expr_view(*right)),
        },
        Expression::Call { callee, args } => ExprView::Call {
            callee: callee@,
            args: exprs_view(args@),
        },
    }
}

pub open spec fn exprs_view(s: Seq<Expression>) -> Seq<ExprView>
    decreases s,
{
    if s.len() == 0 {
        Seq::empty()
    } else {
        seq![expr_view(s[0])] + exprs_view(s.drop_first())
    }
}

pub open spec fn stmt_view(s: Statement) -> StmtView
    decreases s,
{
    match s {
        Statement::ExpressionStatement { expression } => StmtView::ExpressionStatement {
            expression: expr_view(expression),
        },
        Statement::Declaration { is_const, name, value } => StmtView::Declaration {
            is_const,
            name: name@,
            value: match value {
                Some(e) => Some(expr_view(e)),
                None => None,
            },
        },
        Statement::FunctionDeclaration { name, params, body } => StmtView::FunctionDeclaration {
            name: name@,
            params: params@.map_values(|p: String| p@),
            body: stmts_view(body@),
        },
        Statement::Return { expression } => StmtView::Return { expression: expr_view(expression) },
    }
}

pub open spec fn stmts_view(s: Seq<Statement>) -> Seq<StmtView>
    decreases s,
{
    if s.len() == 0 {
        Seq::empty()
    } else {
        seq![stmt_view(s[0])] + stmts_view(s.drop_first())
    }
}

impl View for Expression {
    type V = ExprView;

    open spec fn view(&self) -> ExprView {
        expr_view(*self)
    }
}

impl View for Statement {
    type V = StmtView;

    open spec fn view(&self) -> StmtView {
        stmt_view(*self)
    }
}

/// Views distribute over indices of an expression sequence.
pub proof fn lemma_exprs_view_index(s: Seq<Expression>, i: int)
    requires
        0 <= i < s.len(),
    ensures
        exprs_view(s).len() == s.len(),
        exprs_view(s)[i] == expr_view(s[i]),
    decreases s.len(), i,
{
    lemma_exprs_view_len(s);
    if i > 0 {
        lemma_exprs_view_index(s.drop_first(), i - 1);
    }
}

pub proof fn lemma_exprs_view_len(s: Seq<Expression>)
    ensures
        exprs_view(s).len() == s.len(),
    decreases s.len(),
{
    if s.len() > 0 {
        lemma_exprs_view_len(s.drop_first());
    }
}

/// Views distribute over indices of a statement sequence.
pub proof fn lemma_stmts_view_index(s: Seq<Statement>, i: int)
    requires
        0 <= i < s.len(),
    ensures
        stmts_view(s).len() == s.len(),
        stmts_view(s)[i] == stmt_view(s[i]),
    decreases s.len(), i,
{
    lemma_stmts_view_len(s);
    if i > 0 {
        lemma_stmts_view_index(s.drop_first(), i - 1);
    }
}

pub proof fn lemma_stmts_view_len(s: Seq<Statement>)
    ensures
        stmts_view(s).len() == s.len(),
    decreases s.len(),
{
    if s.len() > 0 {
        lemma_stmts_view_len(s.drop_first());
    }
}

pub proof fn lemma_exprs_view_push(s: Seq<Expression>, e: Expression)
    ensures
        exprs_view(s.push(e)) == exprs_view(s).push(expr_view(e)),
    decreases s.len(),
{
    lemma_exprs_view_len(s);
    lemma_exprs_view_len(s.push(e));
    if s.len() == 0 {
        assert(s.push(e).drop_first() =~= Seq::<Expression>::empty());
        assert(exprs_view(s.push(e)) =~= exprs_view(s).push(expr_view(e)));
    } else {
        assert(s.push(e).drop_first() =~= s.drop_first().push(e));
        lemma_exprs_view_push(s.drop_first(), e);
        assert(exprs_view(s.push(e)) =~= exprs_view(s).push(expr_view(e)));
    }
}

pub proof fn lemma_stmts_view_push(s: Seq<Statement>, e: Statement)
    ensures
        stmts_view(s.push(e)) == stmts_view(s).push(stmt_view(e)),
    decreases s.len(),
{
    lemma_stmts_view_len(s);
    lemma_stmts_view_len(s.push(e));
    if s.len() == 0 {
        assert(s.push(e).drop_first() =~= Seq::<Statement>::empty());
        assert(stmts_view(s.push(e)) =~= stmts_view(s).push(stmt_view(e)));
    } else {
        assert(s.push(e).drop_first() =~= s.drop_first().push(e));
        lemma_stmts_view_push(s.drop_first(), e);
        assert(stmts_view(s.push(e)) =~= stmts_view(s).push(stmt_view(e)));
    }
}

/// The structural size of an expression, for termination measures.
pub open spec fn expr_size(e: ExprView) -> nat
    decreases e,
{
    match e {
        ExprView::Literal(_) => 1,
        ExprView::Identifier(_) => 1,
        ExprView::Grouping { expression } => 1 + expr_size(*expression),
        ExprView::Comparison { left, operator, right } => 1 + expr_size(*left) + expr_size(*right),
        ExprView::Unary { operator, right } => 1 + expr_size(*right),
        ExprView::Binary { left, operator, right } => 1 + expr_size(*left) + expr_size(*right),
        ExprView::Call { callee, args } => 1 + exprs_size(args),
    }
}

pub open spec fn exprs_size(s: Seq<ExprView>) -> nat
    decreases s,
{
    if s.len() == 0 {
        1
    } else {
        1 + expr_size(s[0]) + exprs_size(s.drop_first())
    }
}

/// The structural size of a statement.
pub open spec fn stmt_size(s: StmtView) -> nat
    decreases s,
{
    match s {
        StmtView::ExpressionStatement { expression } => 1 + expr_size(expression),
        StmtView::Declaration { is_const, name, value } => match value {
            Some(e) => 2 + expr_size(e),
            None => 2,
        },
        StmtView::FunctionDeclaration { name, params, body } => 1 + stmts_size(body),
        StmtView::Return { expression } => 1 + expr_size(expression),
    }
}

pub open spec fn stmts_size(s: Seq<StmtView>) -> nat
    decreases s,
{
    if s.len() == 0 {
        1
    } else {
        1 + stmt_size(s[0]) + stmts_size(s.drop_first())
    }
}

/// An element weighs less than its sequence.
pub proof fn lemma_exprs_size_index(s: Seq<ExprView>, i: int)
    requires
        0 <= i < s.len(),
    ensures
        expr_size(s[i]) < exprs_size(s),
    decreases s.len(),
{
    if i > 0 {
        lemma_exprs_size_index(s.drop_first(), i - 1);
    } else {
        lemma_exprs_size_pos(s.drop_first());
    }
}

pub proof fn lemma_exprs_size_pos(s: Seq<ExprView>)
    ensures
        exprs_size(s) >= 1,
    decreases s.len(),
{
    if s.len() > 0 {
        lemma_exprs_size_pos(s.drop_first());
    }
}

/// An element weighs less than its sequence.
pub proof fn lemma_stmts_size_index(s: Seq<StmtView>, i: int)
    requires
        0 <= i < s.len(),
    ensures
        stmt_size(s[i]) < stmts_size(s),
    decreases s.len(),
{
    if i > 0 {
        lemma_stmts_size_index(s.drop_first(), i - 1);
    } else {
        lemma_stmts_size_pos(s.drop_first());
    }
}

pub proof fn lemma_stmts_size_pos(s: Seq<StmtView>)
    ensures
        stmts_size(s) >= 1,
    decreases s.len(),
{
    if s.len() > 0 {
        lemma_stmts_size_pos(s.drop_first());
    }
}

/// The text carried by a string literal or identifier expression.
pub open spec fn spec_extract_string(e: ExprView) -> Option<Seq<char>> {
    match e {
        ExprView::Literal(l) => match l {
            ValueView::String(s) => Some(s),
            _ => None,
        },
        ExprView::Identifier(s) => Some(s),
        _ => None,
    }
}

impl Expression {
    /// The text carried by a string literal or identifier expression.
    pub fn extract_string(expr: &Self) -> (r: Option<String>)
        ensures
            match spec_extract_string(expr@) {
                Some(s) => r matches Some(x) && x@ == s,
                None => r is None,
            },
    {
        match expr {
            Expression::Literal(literal) => match literal {
                Literal::String(value) => Some(value.clone()),
                _ => None,
            },
            Expression::Identifier(value) => Some(value.clone()),
            _ => None,
        }
    }
}

} // verus!
