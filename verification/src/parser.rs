//! The parser: token stream to statements, by recursive descent with
//! one token of lookahead and precedence climbing.
//!
//! `spec_parse` is the mathematical model of the whole parse: a family
//! of spec functions, one per grammar production, over the token views
//! and a cursor.  The executable `Parser` is proved to return exactly
//! what the model says, first error included.  The expected input ends
//! in an `Eof` sentinel (which the tokenizer guarantees); the parser
//! never advances past it.

use vstd::prelude::*;
use crate::token::{Literal, Token, TokenType, TokenKindView, TokenView, ValueView};
use crate::token::spec_is_comparison;
use crate::ast::{Expression, Statement, ExprView, StmtView};
use crate::tokenizer::token_views;

verus! {

/// What kind of syntax error occurred.
#[derive(Debug, Clone, Copy, PartialEq, Eq)]
pub enum ParseErrorKind {
    /// The next token disagrees with what the grammar requires.
    UnexpectedToken,
    /// A missing `;` after a statement.
    ExpectedSemicolon,
    /// A `function` declaration inside a function body.
    NestedFunction,
    /// A leading, trailing or doubled comma in call arguments.
    BadArgumentList,
}

/// A syntax error: its kind and the 1-based source line of the
/// offending token.
#[derive(Debug, Clone, Copy, PartialEq, Eq)]
pub struct ParseError {
    pub line: usize,
    pub kind: ParseErrorKind,
}

/// The mathematical view of a `ParseError`.
pub struct ParseErrorView {
    pub line: nat,
    pub kind: ParseErrorKind,
}

impl View for ParseError {
    type V = ParseErrorView;

    open spec fn view(&self) -> ParseErrorView {
        ParseErrorView { line: self.line as nat, kind: self.kind }
    }
}

/// How many tokens remain at `pos` (never negative).
pub open spec fn spec_rem(toks: Seq<TokenView>, pos: int) -> int {
    if pos <= toks.len() {
        toks.len() - pos
    } else {
        0
    }
}

/// `p`, but at least `lo`.  The parse functions only ever move the
/// cursor forward; this clamp makes that manifest to the termination
/// checker, and the progress lemmas below show it never takes effect.
pub open spec fn at_least(p: int, lo: int) -> int {
    if p < lo {
        lo
    } else {
        p
    }
}

/// The token under the cursor; at or past the end, the last token
/// (the `Eof` sentinel of a well-formed stream).
pub open spec fn spec_peek(toks: Seq<TokenView>, pos: int) -> TokenView {
    if toks.len() == 0 {
        TokenView { kind: TokenKindView::Eof, line: 0 }
    } else if 0 <= pos < toks.len() {
        toks[pos]
    } else {
        toks[toks.len() - 1]
    }
}

/// The cursor moved one token forward, never past the end.
pub open spec fn spec_advance(toks: Seq<TokenView>, pos: int) -> int {
    if 0 <= pos < toks.len() {
        pos + 1
    } else {
        pos
    }
}

/// An error at the token under the cursor.
pub open spec fn perr(toks: Seq<TokenView>, pos: int, kind: ParseErrorKind) -> ParseErrorView {
    ParseErrorView { line: spec_peek(toks, pos).line, kind }
}

/// Requires exactly the token kind `k` under the cursor and steps over
/// it; otherwise the given error.
pub open spec fn spec_consume(
    toks: Seq<TokenView>,
    pos: int,
    k: TokenKindView,
    kind: ParseErrorKind,
) -> Result<int, ParseErrorView> {
    if 0 <= pos < toks.len() && toks[pos].kind == k {
        Ok(pos + 1)
    } else {
        Err(perr(toks, pos, kind))
    }
}

/// IDENTIFIER: a bare identifier token.
pub open spec fn spec_identifier(toks: Seq<TokenView>, pos: int) -> Result<
    (Seq<char>, int),
    ParseErrorView,
> {
    match spec_peek(toks, pos).kind {
        TokenKindView::Identifier(name) => Ok((name, spec_advance(toks, pos))),
        _ => Err(perr(toks, pos, ParseErrorKind::UnexpectedToken)),
    }
}

/// LITERAL: a literal token.
pub open spec fn spec_literal(toks: Seq<TokenView>, pos: int) -> Result<
    (ExprView, int),
    ParseErrorView,
> {
    match spec_peek(toks, pos).kind {
        TokenKindView::Literal(v) => Ok((ExprView::Literal(v), spec_advance(toks, pos))),
        _ => Err(perr(toks, pos, ParseErrorKind::UnexpectedToken)),
    }
}

/// UNARY: `-` FACTOR.
pub open spec fn spec_unary(toks: Seq<TokenView>, pos: int) -> Result<
    (ExprView, int),
    ParseErrorView,
>
    decreases spec_rem(toks, pos), 5int,
{
    if 0 <= pos < toks.len() && toks[pos].kind == TokenKindView::Minus {
        match spec_factor(toks, pos + 1) {
            Ok((f, p2)) => Ok(
                (
                    ExprView::Unary { operator: TokenKindView::Minus, right: Box::new(f) },
                    p2,
                ),
            ),
            Err(e) => Err(e),
        }
    } else {
        Err(perr(toks, pos, ParseErrorKind::UnexpectedToken))
    }
}

/// GROUPING: `(` EXPRESSION `)`.
pub open spec fn spec_grouping(toks: Seq<TokenView>, pos: int) -> Result<
    (ExprView, int),
    ParseErrorView,
>
    decreases spec_rem(toks, pos), 5int,
{
    match spec_consume(toks, pos, TokenKindView::LeftParen, ParseErrorKind::UnexpectedToken) {
        Err(e) => Err(e),
        Ok(p1) => match spec_expression(toks, p1) {
            Err(e) => Err(e),
            Ok((e, p2)) => match spec_consume(
                toks,
                p2,
                TokenKindView::RightParen,
                ParseErrorKind::UnexpectedToken,
            ) {
                Err(er) => Err(er),
                Ok(p3) => Ok((ExprView::Grouping { expression: Box::new(e) }, p3)),
            },
        },
    }
}

/// CALL: IDENTIFIER `(` ARGUMENTS? `)`.  Leading commas are a bad
/// argument list.
pub open spec fn spec_call(toks: Seq<TokenView>, pos: int) -> Result<
    (ExprView, int),
    ParseErrorView,
>
    decreases spec_rem(toks, pos), 4int,
{
    match spec_identifier(toks, pos) {
        Err(e) => Err(e),
        Ok((name, p1)) => match spec_consume(
            toks,
            p1,
            TokenKindView::LeftParen,
            ParseErrorKind::UnexpectedToken,
        ) {
            Err(e) => Err(e),
            Ok(p2) => {
                if spec_peek(toks, p2).kind == TokenKindView::RightParen {
                    Ok(
                        (
                            ExprView::Call { callee: name, args: Seq::empty() },
                            spec_advance(toks, p2),
                        ),
                    )
                } else if spec_peek(toks, p2).kind == TokenKindView::Comma {
                    Err(perr(toks, p2, ParseErrorKind::BadArgumentList))
                } else {
                    match spec_arguments(toks, at_least(p2, pos + 1)) {
                        Err(e) => Err(e),
                        Ok((args, p3)) => match spec_consume(
                            toks,
                            p3,
                            TokenKindView::RightParen,
                            ParseErrorKind::UnexpectedToken,
                        ) {
                            Err(e) => Err(e),
                            Ok(p4) => Ok((ExprView::Call { callee: name, args }, p4)),
                        },
                    }
                }
            },
        },
    }
}

/// ARGUMENTS: COMPARISON (`,` COMPARISON)*.  Trailing or doubled
/// commas are a bad argument list.
pub open spec fn spec_arguments(toks: Seq<TokenView>, pos: int) -> Result<
    (Seq<ExprView>, int),
    ParseErrorView,
>
    decreases spec_rem(toks, pos), 10int,
{
    match spec_comparison(toks, pos) {
        Err(e) => Err(e),
        Ok((e, p1)) => spec_arguments_more(toks, seq![e], at_least(p1, pos)),
    }
}

pub open spec fn spec_arguments_more(toks: Seq<TokenView>, args: Seq<ExprView>, pos: int) -> Result<
    (Seq<ExprView>, int),
    ParseErrorView,
>
    decreases spec_rem(toks, pos), 2int,
{
    if 0 <= pos < toks.len() && toks[pos].kind == TokenKindView::Comma {
        let after = spec_peek(toks, pos + 1).kind;
        if after == TokenKindView::Comma || after == TokenKindView::RightParen {
            Err(perr(toks, pos + 1, ParseErrorKind::BadArgumentList))
        } else {
            match spec_comparison(toks, pos + 1) {
                Err(e) => Err(e),
                Ok((e, p2)) => spec_arguments_more(toks, args.push(e), at_least(p2, pos + 1)),
            }
        }
    } else {
        Ok((args, pos))
    }
}

/// FACTOR: a literal, a grouping, a unary minus, an identifier, or a
/// call when the identifier is followed by `(`.
pub open spec fn spec_factor(toks: Seq<TokenView>, pos: int) -> Result<
    (ExprView, int),
    ParseErrorView,
>
    decreases spec_rem(toks, pos), 6int,
{
    match spec_peek(toks, pos).kind {
        TokenKindView::Literal(_) => spec_literal(toks, pos),
        TokenKindView::LeftParen => spec_grouping(toks, pos),
        TokenKindView::Minus => spec_unary(toks, pos),
        TokenKindView::Identifier(_) => match spec_identifier(toks, pos) {
            Err(e) => Err(e),
            Ok((name, p1)) => {
                if spec_peek(toks, p1).kind == TokenKindView::LeftParen {
                    spec_call(toks, pos)
                } else {
                    Ok((ExprView::Identifier(name), p1))
                }
            },
        },
        _ => Err(perr(toks, pos, ParseErrorKind::UnexpectedToken)),
    }
}

/// TERM: FACTOR ((`*` | `/`) FACTOR)*, left-associative.
pub open spec fn spec_term(toks: Seq<TokenView>, pos: int) -> Result<
    (ExprView, int),
    ParseErrorView,
>
    decreases spec_rem(toks, pos), 7int,
{
    match spec_factor(toks, pos) {
        Err(e) => Err(e),
        Ok((e, p1)) => spec_term_more(toks, e, at_least(p1, pos)),
    }
}

pub open spec fn spec_term_more(toks: Seq<TokenView>, left: ExprView, pos: int) -> Result<
    (ExprView, int),
    ParseErrorView,
>
    decreases spec_rem(toks, pos), 2int,
{
    if 0 <= pos < toks.len() && (toks[pos].kind == TokenKindView::Star || toks[pos].kind
        == TokenKindView::Slash) {
        match spec_factor(toks, pos + 1) {
            Err(e) => Err(e),
            Ok((r, p2)) => spec_term_more(
                toks,
                ExprView::Binary {
                    left: Box::new(left),
                    operator: toks[pos].kind,
                    right: Box::new(r),
                },
                at_least(p2, pos + 1),
            ),
        }
    } else {
        Ok((left, pos))
    }
}

/// EXPRESSION: TERM ((`+` | `-`) TERM)*, left-associative.
pub open spec fn spec_expression(toks: Seq<TokenView>, pos: int) -> Result<
    (ExprView, int),
    ParseErrorView,
>
    decreases spec_rem(toks, pos), 8int,
{
    match spec_term(toks, pos) {
        Err(e) => Err(e),
        Ok((e, p1)) => spec_expression_more(toks, e, at_least(p1, pos)),
    }
}

pub open spec fn spec_expression_more(toks: Seq<TokenView>, left: ExprView, pos: int) -> Result<
    (ExprView, int),
    ParseErrorView,
>
    decreases spec_rem(toks, pos), 2int,
{
    if 0 <= pos < toks.len() && (toks[pos].kind == TokenKindView::Plus || toks[pos].kind
        == TokenKindView::Minus) {
        match spec_term(toks, pos + 1) {
            Err(e) => Err(e),
            Ok((r, p2)) => spec_expression_more(
                toks,
                ExprView::Binary {
                    left: Box::new(left),
                    operator: toks[pos].kind,
                    right: Box::new(r),
                },
                at_least(p2, pos + 1),
            ),
        }
    } else {
        Ok((left, pos))
    }
}

/// COMPARISON: EXPRESSION (comparison-op EXPRESSION)*,
/// left-associative.
pub open spec fn spec_comparison(toks: Seq<TokenView>, pos: int) -> Result<
    (ExprView, int),
    ParseErrorView,
>
    decreases spec_rem(toks, pos), 9int,
{
    match spec_expression(toks, pos) {
        Err(e) => Err(e),
        Ok((e, p1)) => spec_comparison_more(toks, e, at_least(p1, pos)),
    }
}

pub open spec fn spec_comparison_more(toks: Seq<TokenView>, left: ExprView, pos: int) -> Result<
    (ExprView, int),
    ParseErrorView,
>
    decreases spec_rem(toks, pos), 2int,
{
    if 0 <= pos < toks.len() && spec_is_comparison(toks[pos].kind) {
        match spec_expression(toks, pos + 1) {
            Err(e) => Err(e),
            Ok((r, p2)) => spec_comparison_more(
                toks,
                ExprView::Comparison {
                    left: Box::new(left),
                    operator: toks[pos].kind,
                    right: Box::new(r),
                },
                at_least(p2, pos + 1),
            ),
        }
    } else {
        Ok((left, pos))
    }
}

/// DECLARATION: (`let` | `const`) IDENTIFIER (`=` COMPARISON)? `;`.
#[verifier::opaque]
pub open spec fn spec_declaration(toks: Seq<TokenView>, pos: int) -> Result<
    (StmtView, int),
    ParseErrorView,
>
    decreases spec_rem(toks, pos), 3int,
{
    if 0 <= pos < toks.len() && (toks[pos].kind == TokenKindView::KeywordLet || toks[pos].kind
        == TokenKindView::KeywordConst) {
        let is_const = toks[pos].kind == TokenKindView::KeywordConst;
        match spec_identifier(toks, pos + 1) {
            Err(e) => Err(e),
            Ok((name, p2)) => {
                let t2 = spec_peek(toks, p2);
                let p3 = spec_advance(toks, p2);
                if t2.kind == TokenKindView::Assign {
                    match spec_comparison(toks, at_least(p3, pos + 1)) {
                        Err(e) => Err(e),
                        Ok((v, p4)) => match spec_consume(
                            toks,
                            p4,
                            TokenKindView::Semicolon,
                            ParseErrorKind::ExpectedSemicolon,
                        ) {
                            Err(e) => Err(e),
                            Ok(p5) => Ok(
                                (
                                    StmtView::Declaration { is_const, name, value: Some(v) },
                                    p5,
                                ),
                            ),
                        },
                    }
                } else if t2.kind == TokenKindView::Semicolon {
                    Ok((StmtView::Declaration { is_const, name, value: None }, p3))
                } else {
                    Err(ParseErrorView { line: t2.line, kind: ParseErrorKind::UnexpectedToken })
                }
            },
        }
    } else {
        Err(perr(toks, pos, ParseErrorKind::UnexpectedToken))
    }
}

/// EXPRESSION_STATEMENT: COMPARISON `;`.
#[verifier::opaque]
pub open spec fn spec_expression_statement(toks: Seq<TokenView>, pos: int) -> Result<
    (StmtView, int),
    ParseErrorView,
>
    decreases spec_rem(toks, pos), 12int,
{
    match spec_comparison(toks, pos) {
        Err(e) => Err(e),
        Ok((e, p1)) => match spec_consume(
            toks,
            p1,
            TokenKindView::Semicolon,
            ParseErrorKind::ExpectedSemicolon,
        ) {
            Err(er) => Err(er),
            Ok(p2) => Ok((StmtView::ExpressionStatement { expression: e }, p2)),
        },
    }
}

/// RETURN_STATEMENT: `return` COMPARISON? `;`.  A bare `return;`
/// returns `undefined`.
#[verifier::opaque]
pub open spec fn spec_return_statement(toks: Seq<TokenView>, pos: int) -> Result<
    (StmtView, int),
    ParseErrorView,
>
    decreases spec_rem(toks, pos), 3int,
{
    if 0 <= pos < toks.len() && toks[pos].kind == TokenKindView::Return {
        if spec_peek(toks, pos + 1).kind == TokenKindView::Semicolon {
            Ok(
                (
                    StmtView::Return {
                        expression: ExprView::Literal(ValueView::Undefined),
                    },
                    spec_advance(toks, pos + 1),
                ),
            )
        } else {
            match spec_comparison(toks, pos + 1) {
                Err(e) => Err(e),
                Ok((e, p2)) => match spec_consume(
                    toks,
                    p2,
                    TokenKindView::Semicolon,
                    ParseErrorKind::ExpectedSemicolon,
                ) {
                    Err(er) => Err(er),
                    Ok(p3) => Ok((StmtView::Return { expression: e }, p3)),
                },
            }
        }
    } else {
        Err(perr(toks, pos, ParseErrorKind::UnexpectedToken))
    }
}

/// FUNCTION_PARAMS: IDENTIFIER (`,` IDENTIFIER)*.
pub open spec fn spec_function_params(toks: Seq<TokenView>, pos: int) -> Result<
    (Seq<Seq<char>>, int),
    ParseErrorView,
>
    decreases spec_rem(toks, pos), 13int,
{
    match spec_identifier(toks, pos) {
        Err(e) => Err(e),
        Ok((name, p1)) => spec_function_params_more(toks, seq![name], at_least(p1, pos)),
    }
}

pub open spec fn spec_function_params_more(
    toks: Seq<TokenView>,
    params: Seq<Seq<char>>,
    pos: int,
) -> Result<(Seq<Seq<char>>, int), ParseErrorView>
    decreases spec_rem(toks, pos), 2int,
{
    if 0 <= pos < toks.len() && toks[pos].kind == TokenKindView::Comma {
        match spec_identifier(toks, pos + 1) {
            Err(e) => Err(e),
            Ok((name, p2)) => spec_function_params_more(
                toks,
                params.push(name),
                at_least(p2, pos + 1),
            ),
        }
    } else {
        Ok((params, pos))
    }
}

/// FUNCTION_BODY_CONTENT: statements other than nested functions,
/// up to the closing `}`.
/// One statement of a function body: a nested function declaration is
/// rejected; otherwise a return, a declaration, or an expression
/// statement.
pub open spec fn spec_body_step(toks: Seq<TokenView>, pos: int) -> Result<
    (StmtView, int),
    ParseErrorView,
>
    decreases spec_rem(toks, pos), 13int,
{
    match spec_peek(toks, pos).kind {
        TokenKindView::Function => Err(perr(toks, pos, ParseErrorKind::NestedFunction)),
        TokenKindView::Return => spec_return_statement(toks, pos),
        TokenKindView::KeywordLet => spec_declaration(toks, pos),
        TokenKindView::KeywordConst => spec_declaration(toks, pos),
        _ => spec_expression_statement(toks, pos),
    }
}

pub open spec fn spec_function_body_content(
    toks: Seq<TokenView>,
    acc: Seq<StmtView>,
    pos: int,
) -> Result<(Seq<StmtView>, int), ParseErrorView>
    decreases spec_rem(toks, pos), 14int,
{
    if spec_peek(toks, pos).kind == TokenKindView::RightCurlyBrace {
        Ok((acc, pos))
    } else {
        match spec_body_step(toks, pos) {
            Err(e) => Err(e),
            Ok((s, p2)) => {
                if 0 <= pos < toks.len() {
                    spec_function_body_content(toks, acc.push(s), at_least(p2, pos + 1))
                } else {
                    // A parse step never succeeds at or past the end of
                    // the stream, so this branch is never the value.
                    Err(perr(toks, pos, ParseErrorKind::UnexpectedToken))
                }
            },
        }
    }
}

/// FUNCTION_BODY: `{` FUNCTION_BODY_CONTENT `}`.
pub open spec fn spec_function_body(toks: Seq<TokenView>, pos: int) -> Result<
    (Seq<StmtView>, int),
    ParseErrorView,
>
    decreases spec_rem(toks, pos), 15int,
{
    match spec_consume(toks, pos, TokenKindView::LeftCurlyBrace, ParseErrorKind::UnexpectedToken) {
        Err(e) => Err(e),
        Ok(p1) => match spec_function_body_content(toks, Seq::empty(), p1) {
            Err(e) => Err(e),
            Ok((stmts, p2)) => match spec_consume(
                toks,
                p2,
                TokenKindView::RightCurlyBrace,
                ParseErrorKind::UnexpectedToken,
            ) {
                Err(e) => Err(e),
                Ok(p3) => Ok((stmts, p3)),
            },
        },
    }
}

/// The synthetic `return undefined;`.
pub open spec fn synthetic_return() -> StmtView {
    StmtView::Return { expression: ExprView::Literal(ValueView::Undefined) }
}

/// FUNCTION_DECLARATION: `function` IDENTIFIER `(` FUNCTION_PARAMS?
/// `)` FUNCTION_BODY.  A body that is empty or does not end in a
/// return gets a synthetic `return undefined;` appended.
#[verifier::opaque]
pub open spec fn spec_function_declaration(toks: Seq<TokenView>, pos: int) -> Result<
    (StmtView, int),
    ParseErrorView,
>
    decreases spec_rem(toks, pos), 4int,
{
    if 0 <= pos < toks.len() && toks[pos].kind == TokenKindView::Function {
        match spec_identifier(toks, pos + 1) {
            Err(e) => Err(e),
            Ok((name, p2)) => match spec_consume(
                toks,
                p2,
                TokenKindView::LeftParen,
                ParseErrorKind::UnexpectedToken,
            ) {
                Err(e) => Err(e),
                Ok(p3) => {
                    let params_result = if spec_peek(toks, p3).kind != TokenKindView::RightParen {
                        spec_function_params(toks, at_least(p3, pos + 1))
                    } else {
                        Ok((Seq::empty(), p3))
                    };
                    match params_result {
                        Err(e) => Err(e),
                        Ok((params, p4)) => match spec_consume(
                            toks,
                            p4,
                            TokenKindView::RightParen,
                            ParseErrorKind::UnexpectedToken,
                        ) {
                            Err(e) => Err(e),
                            Ok(p5) => match spec_function_body(toks, at_least(p5, pos + 1)) {
                                Err(e) => Err(e),
                                Ok((body0, p6)) => {
                                    let body = if body0.len() == 0 || !(body0.last()
                                        is Return) {
                                        body0.push(synthetic_return())
                                    } else {
                                        body0
                                    };
                                    Ok(
                                        (
                                            StmtView::FunctionDeclaration { name, params, body },
                                            p6,
                                        ),
                                    )
                                },
                            },
                        },
                    }
                },
            },
        }
    } else {
        Err(perr(toks, pos, ParseErrorKind::UnexpectedToken))
    }
}

/// STATEMENT: a declaration, a function declaration, a return, or an
/// expression statement.
pub open spec fn spec_statement(toks: Seq<TokenView>, pos: int) -> Result<
    (StmtView, int),
    ParseErrorView,
>
    decreases spec_rem(toks, pos), 16int,
{
    match spec_peek(toks, pos).kind {
        TokenKindView::KeywordLet => spec_declaration(toks, pos),
        TokenKindView::KeywordConst => spec_declaration(toks, pos),
        TokenKindView::Function => spec_function_declaration(toks, pos),
        TokenKindView::Return => spec_return_statement(toks, pos),
        _ => spec_expression_statement(toks, pos),
    }
}

/// PROGRAM: STATEMENT* `Eof`.
pub open spec fn spec_program(toks: Seq<TokenView>, acc: Seq<StmtView>, pos: int) -> Result<
    (Seq<StmtView>, int),
    ParseErrorView,
>
    decreases spec_rem(toks, pos), 17int,
{
    if pos >= toks.len() {
        // Past the end without having seen the sentinel.
        Err(perr(toks, pos, ParseErrorKind::UnexpectedToken))
    } else if spec_peek(toks, pos).kind == TokenKindView::Eof {
        Ok((acc, pos))
    } else {
        match spec_statement(toks, pos) {
            Err(e) => Err(e),
            Ok((s, p2)) => spec_program(toks, acc.push(s), at_least(p2, pos + 1)),
        }
    }
}

/// The model of the whole parser on a token stream.
pub open spec fn spec_parse(toks: Seq<TokenView>) -> Result<Seq<StmtView>, ParseErrorView> {
    if toks.len() == 0 {
        Err(ParseErrorView { line: 0, kind: ParseErrorKind::UnexpectedToken })
    } else {
        match spec_program(toks, Seq::empty(), 0) {
            Err(e) => Err(e),
            Ok((stmts, _)) => Ok(stmts),
        }
    }
}

/// Whether two token kinds are the same, payloads included.
fn token_kind_eq(a: &TokenType, b: &TokenType) -> (r: bool)
    ensures
        r == (a@ == b@),
{
    match (a, b) {
        (TokenType::LeftParen, TokenType::LeftParen) => true,
        (TokenType::RightParen, TokenType::RightParen) => true,
        (TokenType::LeftCurlyBrace, TokenType::LeftCurlyBrace) => true,
        (TokenType::RightCurlyBrace, TokenType::RightCurlyBrace) => true,
        (TokenType::Plus, TokenType::Plus) => true,
        (TokenType::Minus, TokenType::Minus) => true,
        (TokenType::Star, TokenType::Star) => true,
        (TokenType::Slash, TokenType::Slash) => true,
        (TokenType::Assign, TokenType::Assign) => true,
        (TokenType::Comma, TokenType::Comma) => true,
        (TokenType::Equal, TokenType::Equal) => true,
        (TokenType::NotEqual, TokenType::NotEqual) => true,
        (TokenType::StrictEqual, TokenType::StrictEqual) => true,
        (TokenType::StrictNotEqual, TokenType::StrictNotEqual) => true,
        (TokenType::GreaterThan, TokenType::GreaterThan) => true,
        (TokenType::LessThan, TokenType::LessThan) => true,
        (TokenType::GreaterThanOrEqual, TokenType::GreaterThanOrEqual) => true,
        (TokenType::LessThanOrEqual, TokenType::LessThanOrEqual) => true,
        (TokenType::KeywordLet, TokenType::KeywordLet) => true,
        (TokenType::KeywordConst, TokenType::KeywordConst) => true,
        (TokenType::Function, TokenType::Function) => true,
        (TokenType::Return, TokenType::Return) => true,
        (TokenType::Semicolon, TokenType::Semicolon) => true,
        (TokenType::Eof, TokenType::Eof) => true,
        (TokenType::Identifier(x), TokenType::Identifier(y)) => *x == *y,
        (TokenType::Unsupported(x), TokenType::Unsupported(y)) => *x == *y,
        (TokenType::Literal(x), TokenType::Literal(y)) => literal_eq(x, y),
        _ => false,
    }
}

/// Whether two literals are the same value.
fn literal_eq(a: &Literal, b: &Literal) -> (r: bool)
    ensures
        r == (a@ == b@),
{
    match (a, b) {
        (Literal::Number(x), Literal::Number(y)) => *x == *y,
        (Literal::String(x), Literal::String(y)) => *x == *y,
        (Literal::Boolean(x), Literal::Boolean(y)) => *x == *y,
        (Literal::Null, Literal::Null) => true,
        (Literal::Undefined, Literal::Undefined) => true,
        _ => false,
    }
}

/// What a factor starts with.
enum FactorKind {
    Lit,
    LParen,
    Minus,
    Ident,
    Other,
}

/// What follows the name in a declaration.
enum AfterName {
    Assign,
    Semi,
    Other,
}

/// What the next body statement is.
enum BodyNext {
    Nested,
    Ret,
    Decl,
    Expr,
}

/// What the next top-level statement is.
enum StmtNext {
    Decl,
    Fun,
    Ret,
    Expr,
}

/// The parser: a token stream and a cursor into it.
pub struct Parser {
    pub tokens: Vec<Token>,
    pub position: usize,
}

impl Parser {
    /// The views of the parser's tokens.
    pub open spec fn toks(&self) -> Seq<TokenView> {
        token_views(self.tokens@)
    }

    /// A well-formed parser state: the stream is non-empty, ends in
    /// the `Eof` sentinel, and the cursor is within bounds.
    pub open spec fn wf(&self) -> bool {
        &&& self.tokens.len() >= 1
        &&& self.toks()[self.tokens@.len() - 1].kind == TokenKindView::Eof
        &&& self.position <= self.tokens.len()
    }

    pub fn new(tokens: Vec<Token>) -> (p: Parser)
        ensures
            p.tokens == tokens,
            p.position == 0,
    {
        Parser { tokens, position: 0 }
    }

    /// Whether the cursor has passed the last token.
    pub fn is_end(&self) -> (r: bool)
        ensures
            r == (self.position >= self.tokens.len()),
    {
        self.position >= self.tokens.len()
    }

    /// The token under the cursor; at the end, the final token.
    fn peek(&self) -> (t: &Token)
        requires
            self.tokens.len() >= 1,
        ensures
            t@ == spec_peek(self.toks(), self.position as int),
    {
        if self.is_end() {
            return &self.tokens[self.tokens.len() - 1];
        }
        &self.tokens[self.position]
    }

    /// Moves the cursor forward, never past the end.
    fn consume_token(&mut self)
        ensures
            final(self).tokens == old(self).tokens,
            final(self).position as int == spec_advance(
                old(self).toks(),
                old(self).position as int,
            ),
    {
        if !self.is_end() {
            self.position += 1;
        }
    }

    /// Requires exactly the given token kind under the cursor and
    /// steps over it; otherwise an error of the given kind.
    fn consume_token_type(&mut self, token_type: &TokenType, err: ParseErrorKind) -> (r: Result<
        (),
        ParseError,
    >)
        requires
            old(self).wf(),
        ensures
            final(self).wf(),
            final(self).tokens == old(self).tokens,
            old(self).position <= final(self).position,
            ({
                let m = spec_consume(
                    old(self).toks(),
                    old(self).position as int,
                    token_type@,
                    err,
                );
                match r {
                    Ok(()) => m matches Ok(p) && p == final(self).position as int,
                    Err(pe) => m matches Err(me) && me == pe@ && final(self).position == old(self).position,
                }
            }),
    {
        if self.is_end() || !token_kind_eq(&self.peek().kind, token_type) {
            return Err(ParseError { line: self.peek().line, kind: err });
        }
        self.position += 1;
        Ok(())
    }

    /// IDENTIFIER: a bare identifier token, yielding its name.
    fn identifier(&mut self) -> (r: Result<String, ParseError>)
        requires
            old(self).wf(),
        ensures
            final(self).wf(),
            final(self).tokens == old(self).tokens,
            old(self).position <= final(self).position,
            r is Ok ==> old(self).position < final(self).position,
            ({
                let m = spec_identifier(old(self).toks(), old(self).position as int);
                match r {
                    Ok(name) => m matches Ok(p) && p.0 == name@ && p.1 == final(self).position as int,
                    Err(pe) => m matches Err(me) && me == pe@,
                }
            }),
    {
        let name_opt = match &self.peek().kind {
            TokenType::Identifier(n) => Some(n.clone()),
            _ => None,
        };
        match name_opt {
            Some(name) => {
                proof {
                    assert(self.position < self.tokens.len());
                }
                self.consume_token();
                Ok(name)
            },
            None => Err(
                ParseError { line: self.peek().line, kind: ParseErrorKind::UnexpectedToken },
            ),
        }
    }

    /// LITERAL: a literal token.
    fn literal(&mut self) -> (r: Result<Expression, ParseError>)
        requires
            old(self).wf(),
        ensures
            final(self).wf(),
            final(self).tokens == old(self).tokens,
            old(self).position <= final(self).position,
            r is Ok ==> old(self).position < final(self).position,
            ({
                let m = spec_literal(old(self).toks(), old(self).position as int);
                match r {
                    Ok(e) => m matches Ok(p) && p.0 == e@ && p.1 == final(self).position as int,
                    Err(pe) => m matches Err(me) && me == pe@,
                }
            }),
    {
        let lit_opt = match &self.peek().kind {
            TokenType::Literal(l) => Some(literal_clone(l)),
            _ => None,
        };
        match lit_opt {
            Some(l) => {
                proof {
                    assert(self.position < self.tokens.len());
                }
                self.consume_token();
                Ok(Expression::Literal(l))
            },
            None => Err(
                ParseError { line: self.peek().line, kind: ParseErrorKind::UnexpectedToken },
            ),
        }
    }

    /// GROUPING: `(` EXPRESSION `)`.
    #[verifier::rlimit(100)]
    fn grouping(&mut self) -> (r: Result<Expression, ParseError>)
        requires
            old(self).wf(),
        ensures
            final(self).wf(),
            final(self).tokens == old(self).tokens,
            old(self).position <= final(self).position,
            r is Ok ==> old(self).position < final(self).position,
            ({
                let m = spec_grouping(old(self).toks(), old(self).position as int);
                match r {
                    Ok(e) => m matches Ok(p) && p.0 == e@ && p.1 == final(self).position as int,
                    Err(pe) => m matches Err(me) && me == pe@,
                }
            }),
        decreases spec_rem(self.toks(), self.position as int), 5int,
    {
        if let Err(e) = self.consume_token_type(
            &TokenType::LeftParen,
            ParseErrorKind::UnexpectedToken,
        ) {
            return Err(e);
        }
        let expr = match self.expression() {
            Ok(e) => e,
            Err(e) => { return Err(e); },
        };
        if let Err(e) = self.consume_token_type(
            &TokenType::RightParen,
            ParseErrorKind::UnexpectedToken,
        ) {
            return Err(e);
        }
        Ok(Expression::Grouping { expression: Box::new(expr) })
    }

    /// UNARY: `-` FACTOR.
    #[verifier::rlimit(100)]
    fn unary(&mut self) -> (r: Result<Expression, ParseError>)
        requires
            old(self).wf(),
            spec_peek(old(self).toks(), old(self).position as int).kind == TokenKindView::Minus,
        ensures
            final(self).wf(),
            final(self).tokens == old(self).tokens,
            old(self).position <= final(self).position,
            r is Ok ==> old(self).position < final(self).position,
            ({
                let m = spec_unary(old(self).toks(), old(self).position as int);
                match r {
                    Ok(e) => m matches Ok(p) && p.0 == e@ && p.1 == final(self).position as int,
                    Err(pe) => m matches Err(me) && me == pe@,
                }
            }),
        decreases spec_rem(self.toks(), self.position as int), 5int,
    {
        proof {
            assert(self.position < self.tokens.len());
        }
        self.consume_token();
        let f = match self.factor() {
            Ok(e) => e,
            Err(e) => { return Err(e); },
        };
        Ok(Expression::Unary { operator: TokenType::Minus, right: Box::new(f) })
    }

    /// CALL: IDENTIFIER `(` ARGUMENTS? `)`.
    #[verifier::rlimit(100)]
    fn call(&mut self) -> (r: Result<Expression, ParseError>)
        requires
            old(self).wf(),
        ensures
            final(self).wf(),
            final(self).tokens == old(self).tokens,
            old(self).position <= final(self).position,
            r is Ok ==> old(self).position < final(self).position,
            ({
                let m = spec_call(old(self).toks(), old(self).position as int);
                match r {
                    Ok(e) => m matches Ok(p) && p.0 == e@ && p.1 == final(self).position as int,
                    Err(pe) => m matches Err(me) && me == pe@,
                }
            }),
        decreases spec_rem(self.toks(), self.position as int), 4int,
    {
        let callee = match self.identifier() {
            Ok(n) => n,
            Err(e) => { return Err(e); },
        };
        if let Err(e) = self.consume_token_type(
            &TokenType::LeftParen,
            ParseErrorKind::UnexpectedToken,
        ) {
            return Err(e);
        }
        let next_is_rparen = match &self.peek().kind {
            TokenType::RightParen => true,
            _ => false,
        };
        if next_is_rparen {
            self.consume_token();
            let empty_args: Vec<Expression> = Vec::new();
            proof {
                assert(crate::ast::exprs_view(empty_args@) =~= Seq::<ExprView>::empty());
            }
            return Ok(Expression::Call { callee, args: empty_args });
        }
        let next_is_comma = match &self.peek().kind {
            TokenType::Comma => true,
            _ => false,
        };
        if next_is_comma {
            return Err(
                ParseError { line: self.peek().line, kind: ParseErrorKind::BadArgumentList },
            );
        }
        let args = match self.arguments() {
            Ok(a) => a,
            Err(e) => { return Err(e); },
        };
        if let Err(e) = self.consume_token_type(
            &TokenType::RightParen,
            ParseErrorKind::UnexpectedToken,
        ) {
            return Err(e);
        }
        Ok(Expression::Call { callee, args })
    }

    /// ARGUMENTS: COMPARISON (`,` COMPARISON)*.
    #[verifier::rlimit(100)]
    fn arguments(&mut self) -> (r: Result<Vec<Expression>, ParseError>)
        requires
            old(self).wf(),
        ensures
            final(self).wf(),
            final(self).tokens == old(self).tokens,
            old(self).position <= final(self).position,
            r is Ok ==> old(self).position < final(self).position,
            ({
                let m = spec_arguments(old(self).toks(), old(self).position as int);
                match r {
                    Ok(v) => m matches Ok(p) && p.0 == crate::ast::exprs_view(v@) && p.1 == final(self).position as int,
                    Err(pe) => m matches Err(me) && me == pe@,
                }
            }),
        decreases spec_rem(self.toks(), self.position as int), 10int,
    {
        let ghost pos0 = self.position as int;
        let first = match self.comparison() {
            Ok(e) => e,
            Err(e) => { return Err(e); },
        };
        let mut args: Vec<Expression> = Vec::new();
        let ghost first_view = first@;
        args.push(first);
        proof {
            assert(args@.drop_first() =~= Seq::<Expression>::empty());
            assert(crate::ast::exprs_view(args@.drop_first()) =~= Seq::<ExprView>::empty());
            assert(crate::ast::exprs_view(args@) =~= seq![first_view]);
        }
        loop
            invariant
                self.wf(),
                self.tokens == old(self).tokens,
                pos0 == old(self).position,
                pos0 < self.position,
                spec_arguments(old(self).toks(), pos0) == spec_arguments_more(
                    old(self).toks(),
                    crate::ast::exprs_view(args@),
                    self.position as int,
                ),
            ensures
                spec_arguments(old(self).toks(), pos0) == Ok::<(Seq<ExprView>, int), ParseErrorView>(
                    (crate::ast::exprs_view(args@), self.position as int),
                ),
            decreases spec_rem(self.toks(), self.position as int),
        {
            let next_is_comma = match &self.peek().kind {
                TokenType::Comma => true,
                _ => false,
            };
            if !next_is_comma {
                break;
            }
            proof {
                assert(self.position < self.tokens.len());
            }
            self.consume_token();
            let bad = match &self.peek().kind {
                TokenType::Comma => true,
                TokenType::RightParen => true,
                _ => false,
            };
            if bad {
                return Err(
                    ParseError { line: self.peek().line, kind: ParseErrorKind::BadArgumentList },
                );
            }
            let e = match self.comparison() {
                Ok(e) => e,
                Err(e) => { return Err(e); },
            };
            let ghost args_before = args@;
            let ghost before = crate::ast::exprs_view(args@);
            let ghost ev = e@;
            args.push(e);
            proof {
                assert(args@ =~= args_before.push(args@.last()));
                crate::ast::lemma_exprs_view_push(args_before, args@.last());
                assert(crate::ast::exprs_view(args@) =~= before.push(ev));
            }
        }
        Ok(args)
    }

    /// FACTOR: literal, grouping, unary minus, identifier, or call.
    #[verifier::rlimit(100)]
    fn factor(&mut self) -> (r: Result<Expression, ParseError>)
        requires
            old(self).wf(),
        ensures
            final(self).wf(),
            final(self).tokens == old(self).tokens,
            old(self).position <= final(self).position,
            r is Ok ==> old(self).position < final(self).position,
            ({
                let m = spec_factor(old(self).toks(), old(self).position as int);
                match r {
                    Ok(e) => m matches Ok(p) && p.0 == e@ && p.1 == final(self).position as int,
                    Err(pe) => m matches Err(me) && me == pe@,
                }
            }),
        decreases spec_rem(self.toks(), self.position as int), 6int,
    {
        let k = match &self.peek().kind {
            TokenType::Literal(_) => FactorKind::Lit,
            TokenType::LeftParen => FactorKind::LParen,
            TokenType::Minus => FactorKind::Minus,
            TokenType::Identifier(_) => FactorKind::Ident,
            _ => FactorKind::Other,
        };
        match k {
            FactorKind::Lit => self.literal(),
            FactorKind::LParen => self.grouping(),
            FactorKind::Minus => self.unary(),
            FactorKind::Ident => {
                let saved = self.position;
                let name = match self.identifier() {
                    Ok(n) => n,
                    Err(e) => { return Err(e); },
                };
                let next_is_lparen = match &self.peek().kind {
                    TokenType::LeftParen => true,
                    _ => false,
                };
                if next_is_lparen {
                    self.position = saved;
                    self.call()
                } else {
                    Ok(Expression::Identifier(name))
                }
            },
            FactorKind::Other => Err(
                ParseError { line: self.peek().line, kind: ParseErrorKind::UnexpectedToken },
            ),
        }
    }

    /// TERM: FACTOR ((`*` | `/`) FACTOR)*, left-associative.
    #[verifier::rlimit(100)]
    fn term(&mut self) -> (r: Result<Expression, ParseError>)
        requires
            old(self).wf(),
        ensures
            final(self).wf(),
            final(self).tokens == old(self).tokens,
            old(self).position <= final(self).position,
            r is Ok ==> old(self).position < final(self).position,
            ({
                let m = spec_term(old(self).toks(), old(self).position as int);
                match r {
                    Ok(e) => m matches Ok(p) && p.0 == e@ && p.1 == final(self).position as int,
                    Err(pe) => m matches Err(me) && me == pe@,
                }
            }),
        decreases spec_rem(self.toks(), self.position as int), 7int,
    {
        let ghost pos0 = self.position as int;
        let mut expr = match self.factor() {
            Ok(e) => e,
            Err(e) => { return Err(e); },
        };
        loop
            invariant
                self.wf(),
                self.tokens == old(self).tokens,
                pos0 == old(self).position,
                pos0 < self.position,
                spec_term(old(self).toks(), pos0) == spec_term_more(
                    old(self).toks(),
                    expr@,
                    self.position as int,
                ),
            ensures
                spec_term(old(self).toks(), pos0) == Ok::<(ExprView, int), ParseErrorView>(
                    (expr@, self.position as int),
                ),
            decreases spec_rem(self.toks(), self.position as int),
        {
            let op = match &self.peek().kind {
                TokenType::Star => Some(TokenType::Star),
                TokenType::Slash => Some(TokenType::Slash),
                _ => None,
            };
            let op = match op {
                Some(o) => o,
                None => { break; },
            };
            proof {
                assert(self.position < self.tokens.len());
            }
            self.consume_token();
            let right = match self.factor() {
                Ok(e) => e,
                Err(e) => { return Err(e); },
            };
            expr = Expression::Binary {
                left: Box::new(expr),
                operator: op,
                right: Box::new(right),
            };
        }
        Ok(expr)
    }

    /// EXPRESSION: TERM ((`+` | `-`) TERM)*, left-associative.
    #[verifier::rlimit(100)]
    fn expression(&mut self) -> (r: Result<Expression, ParseError>)
        requires
            old(self).wf(),
        ensures
            final(self).wf(),
            final(self).tokens == old(self).tokens,
            old(self).position <= final(self).position,
            r is Ok ==> old(self).position < final(self).position,
            ({
                let m = spec_expression(old(self).toks(), old(self).position as int);
                match r {
                    Ok(e) => m matches Ok(p) && p.0 == e@ && p.1 == final(self).position as int,
                    Err(pe) => m matches Err(me) && me == pe@,
                }
            }),
        decreases spec_rem(self.toks(), self.position as int), 8int,
    {
        let ghost pos0 = self.position as int;
        let mut expr = match self.term() {
            Ok(e) => e,
            Err(e) => { return Err(e); },
        };
        loop
            invariant
                self.wf(),
                self.tokens == old(self).tokens,
                pos0 == old(self).position,
                pos0 < self.position,
                spec_expression(old(self).toks(), pos0) == spec_expression_more(
                    old(self).toks(),
                    expr@,
                    self.position as int,
                ),
            ensures
                spec_expression(old(self).toks(), pos0) == Ok::<(ExprView, int), ParseErrorView>(
                    (expr@, self.position as int),
                ),
            decreases spec_rem(self.toks(), self.position as int),
        {
            let op = match &self.peek().kind {
                TokenType::Plus => Some(TokenType::Plus),
                TokenType::Minus => Some(TokenType::Minus),
                _ => None,
            };
            let op = match op {
                Some(o) => o,
                None => { break; },
            };
            proof {
                assert(self.position < self.tokens.len());
            }
            self.consume_token();
            let right = match self.term() {
                Ok(e) => e,
                Err(e) => { return Err(e); },
            };
            expr = Expression::Binary {
                left: Box::new(expr),
                operator: op,
                right: Box::new(right),
            };
        }
        Ok(expr)
    }

    /// COMPARISON: EXPRESSION (comparison-op EXPRESSION)*,
    /// left-associative.
    #[verifier::rlimit(100)]
    fn comparison(&mut self) -> (r: Result<Expression, ParseError>)
        requires
            old(self).wf(),
        ensures
            final(self).wf(),
            final(self).tokens == old(self).tokens,
            old(self).position <= final(self).position,
            r is Ok ==> old(self).position < final(self).position,
            ({
                let m = spec_comparison(old(self).toks(), old(self).position as int);
                match r {
                    Ok(e) => m matches Ok(p) && p.0 == e@ && p.1 == final(self).position as int,
                    Err(pe) => m matches Err(me) && me == pe@,
                }
            }),
        decreases spec_rem(self.toks(), self.position as int), 9int,
    {
        let ghost pos0 = self.position as int;
        let mut expr = match self.expression() {
            Ok(e) => e,
            Err(e) => { return Err(e); },
        };
        loop
            invariant
                self.wf(),
                self.tokens == old(self).tokens,
                pos0 == old(self).position,
                pos0 < self.position,
                spec_comparison(old(self).toks(), pos0) == spec_comparison_more(
                    old(self).toks(),
                    expr@,
                    self.position as int,
                ),
            ensures
                spec_comparison(old(self).toks(), pos0) == Ok::<(ExprView, int), ParseErrorView>(
                    (expr@, self.position as int),
                ),
            decreases spec_rem(self.toks(), self.position as int),
        {
            let op = match &self.peek().kind {
                TokenType::Equal => Some(TokenType::Equal),
                TokenType::NotEqual => Some(TokenType::NotEqual),
                TokenType::StrictEqual => Some(TokenType::StrictEqual),
                TokenType::StrictNotEqual => Some(TokenType::StrictNotEqual),
                TokenType::GreaterThan => Some(TokenType::GreaterThan),
                TokenType::LessThan => Some(TokenType::LessThan),
                TokenType::GreaterThanOrEqual => Some(TokenType::GreaterThanOrEqual),
                TokenType::LessThanOrEqual => Some(TokenType::LessThanOrEqual),
                _ => None,
            };
            let op = match op {
                Some(o) => o,
                None => { break; },
            };
            proof {
                assert(self.position < self.tokens.len());
            }
            self.consume_token();
            let right = match self.expression() {
                Ok(e) => e,
                Err(e) => { return Err(e); },
            };
            expr = Expression::Comparison {
                left: Box::new(expr),
                operator: op,
                right: Box::new(right),
            };
        }
        Ok(expr)
    }

    /// DECLARATION: (`let` | `const`) IDENTIFIER (`=` COMPARISON)? `;`.
    #[verifier::rlimit(100)]
    fn declaration(&mut self) -> (r: Result<Statement, ParseError>)
        requires
            old(self).wf(),
            spec_peek(old(self).toks(), old(self).position as int).kind
                == TokenKindView::KeywordLet || spec_peek(
                old(self).toks(),
                old(self).position as int,
            ).kind == TokenKindView::KeywordConst,
        ensures
            final(self).wf(),
            final(self).tokens == old(self).tokens,
            old(self).position <= final(self).position,
            r is Ok ==> old(self).position < final(self).position,
            ({
                let m = spec_declaration(old(self).toks(), old(self).position as int);
                match r {
                    Ok(s) => m matches Ok(p) && p.0 == s@ && p.1 == final(self).position as int,
                    Err(pe) => m matches Err(me) && me == pe@,
                }
            }),
        decreases spec_rem(self.toks(), self.position as int), 3int,
    {
        proof {
            reveal(spec_declaration);
        }
        let is_const = match &self.peek().kind {
            TokenType::KeywordConst => true,
            _ => false,
        };
        proof {
            assert(self.position < self.tokens.len());
        }
        self.consume_token();
        let name = match self.identifier() {
            Ok(n) => n,
            Err(e) => { return Err(e); },
        };
        let t2_line = self.peek().line;
        let after = match &self.peek().kind {
            TokenType::Assign => AfterName::Assign,
            TokenType::Semicolon => AfterName::Semi,
            _ => AfterName::Other,
        };
        self.consume_token();
        match after {
            AfterName::Assign => {
                let value = match self.comparison() {
                    Ok(v) => v,
                    Err(e) => { return Err(e); },
                };
                if let Err(e) = self.consume_token_type(
                    &TokenType::Semicolon,
                    ParseErrorKind::ExpectedSemicolon,
                ) {
                    return Err(e);
                }
                Ok(Statement::Declaration { is_const, name, value: Some(value) })
            },
            AfterName::Semi => Ok(Statement::Declaration { is_const, name, value: None }),
            AfterName::Other => Err(
                ParseError { line: t2_line, kind: ParseErrorKind::UnexpectedToken },
            ),
        }
    }

    /// EXPRESSION_STATEMENT: COMPARISON `;`.
    #[verifier::rlimit(100)]
    fn expression_statement(&mut self) -> (r: Result<Statement, ParseError>)
        requires
            old(self).wf(),
        ensures
            final(self).wf(),
            final(self).tokens == old(self).tokens,
            old(self).position <= final(self).position,
            r is Ok ==> old(self).position < final(self).position,
            ({
                let m = spec_expression_statement(old(self).toks(), old(self).position as int);
                match r {
                    Ok(s) => m matches Ok(p) && p.0 == s@ && p.1 == final(self).position as int,
                    Err(pe) => m matches Err(me) && me == pe@,
                }
            }),
        decreases spec_rem(self.toks(), self.position as int), 12int,
    {
        proof {
            reveal(spec_expression_statement);
        }
        let expr = match self.comparison() {
            Ok(e) => e,
            Err(e) => { return Err(e); },
        };
        if let Err(e) = self.consume_token_type(
            &TokenType::Semicolon,
            ParseErrorKind::ExpectedSemicolon,
        ) {
            return Err(e);
        }
        Ok(Statement::ExpressionStatement { expression: expr })
    }

    /// RETURN_STATEMENT: `return` COMPARISON? `;`.
    #[verifier::rlimit(100)]
    fn return_statement(&mut self) -> (r: Result<Statement, ParseError>)
        requires
            old(self).wf(),
            spec_peek(old(self).toks(), old(self).position as int).kind == TokenKindView::Return,
        ensures
            final(self).wf(),
            final(self).tokens == old(self).tokens,
            old(self).position <= final(self).position,
            r is Ok ==> old(self).position < final(self).position,
            ({
                let m = spec_return_statement(old(self).toks(), old(self).position as int);
                match r {
                    Ok(s) => m matches Ok(p) && p.0 == s@ && p.1 == final(self).position as int,
                    Err(pe) => m matches Err(me) && me == pe@,
                }
            }),
        decreases spec_rem(self.toks(), self.position as int), 3int,
    {
        proof {
            reveal(spec_return_statement);
            assert(self.position < self.tokens.len());
        }
        self.consume_token();
        let next_is_semi = match &self.peek().kind {
            TokenType::Semicolon => true,
            _ => false,
        };
        if next_is_semi {
            self.consume_token();
            return Ok(
                Statement::Return { expression: Expression::Literal(Literal::Undefined) },
            );
        }
        let expr = match self.comparison() {
            Ok(e) => e,
            Err(e) => { return Err(e); },
        };
        if let Err(e) = self.consume_token_type(
            &TokenType::Semicolon,
            ParseErrorKind::ExpectedSemicolon,
        ) {
            return Err(e);
        }
        Ok(Statement::Return { expression: expr })
    }

    /// FUNCTION_PARAMS: IDENTIFIER (`,` IDENTIFIER)*.
    #[verifier::rlimit(100)]
    fn function_params(&mut self) -> (r: Result<Vec<String>, ParseError>)
        requires
            old(self).wf(),
        ensures
            final(self).wf(),
            final(self).tokens == old(self).tokens,
            old(self).position <= final(self).position,
            r is Ok ==> old(self).position < final(self).position,
            ({
                let m = spec_function_params(old(self).toks(), old(self).position as int);
                match r {
                    Ok(v) => m matches Ok(p) && p.0 == v@.map_values(|s: String| s@) && p.1
                        == final(self).position as int,
                    Err(pe) => m matches Err(me) && me == pe@,
                }
            }),
        decreases spec_rem(self.toks(), self.position as int), 13int,
    {
        let ghost pos0 = self.position as int;
        let first = match self.identifier() {
            Ok(n) => n,
            Err(e) => { return Err(e); },
        };
        let mut params: Vec<String> = Vec::new();
        let ghost first_view = first@;
        params.push(first);
        proof {
            assert(params@.map_values(|s: String| s@) =~= seq![first_view]);
        }
        loop
            invariant
                self.wf(),
                self.tokens == old(self).tokens,
                pos0 == old(self).position,
                pos0 < self.position,
                spec_function_params(old(self).toks(), pos0) == spec_function_params_more(
                    old(self).toks(),
                    params@.map_values(|s: String| s@),
                    self.position as int,
                ),
            ensures
                spec_function_params(old(self).toks(), pos0) == Ok::<
                    (Seq<Seq<char>>, int),
                    ParseErrorView,
                >((params@.map_values(|s: String| s@), self.position as int)),
            decreases spec_rem(self.toks(), self.position as int),
        {
            let next_is_comma = match &self.peek().kind {
                TokenType::Comma => true,
                _ => false,
            };
            if !next_is_comma {
                break;
            }
            proof {
                assert(self.position < self.tokens.len());
            }
            self.consume_token();
            let name = match self.identifier() {
                Ok(n) => n,
                Err(e) => { return Err(e); },
            };
            let ghost before = params@.map_values(|s: String| s@);
            let ghost nv = name@;
            params.push(name);
            proof {
                assert(params@.map_values(|s: String| s@) =~= before.push(nv));
            }
        }
        Ok(params)
    }

    /// One body statement: a return, a declaration, or an expression
    /// statement; a nested function declaration is rejected.
    #[verifier::rlimit(100)]
    #[verifier::spinoff_prover]
    fn body_statement(&mut self) -> (r: Result<Statement, ParseError>)
        requires
            old(self).wf(),
        ensures
            final(self).wf(),
            final(self).tokens == old(self).tokens,
            old(self).position <= final(self).position,
            r is Ok ==> old(self).position < final(self).position,
            ({
                let m = spec_body_step(old(self).toks(), old(self).position as int);
                match r {
                    Ok(st) => m matches Ok(p) && p.0 == st@ && p.1 == final(self).position as int,
                    Err(pe) => m matches Err(me) && me == pe@,
                }
            }),
        decreases spec_rem(self.toks(), self.position as int), 13int,
    {
        let ghost toks0 = self.toks();
        let ghost pos0 = self.position as int;
        let next = match &self.peek().kind {
            TokenType::Function => BodyNext::Nested,
            TokenType::Return => BodyNext::Ret,
            TokenType::KeywordLet => BodyNext::Decl,
            TokenType::KeywordConst => BodyNext::Decl,
            _ => BodyNext::Expr,
        };
        match next {
            BodyNext::Nested => Err(
                ParseError { line: self.peek().line, kind: ParseErrorKind::NestedFunction },
            ),
            BodyNext::Ret => {
                proof {
                    assert(spec_body_step(toks0, pos0) == spec_return_statement(toks0, pos0));
                }
                let r = self.return_statement();
                proof {
                    assert(match r {
                        Ok(st) => spec_body_step(toks0, pos0) matches Ok(p) && p.0 == st@ && p.1
                            == self.position as int,
                        Err(pe) => spec_body_step(toks0, pos0) matches Err(me) && me == pe@,
                    });
                }
                r
            },
            BodyNext::Decl => {
                proof {
                    assert(spec_body_step(toks0, pos0) == spec_declaration(toks0, pos0));
                }
                let r = self.declaration();
                proof {
                    assert(match r {
                        Ok(st) => spec_body_step(toks0, pos0) matches Ok(p) && p.0 == st@ && p.1
                            == self.position as int,
                        Err(pe) => spec_body_step(toks0, pos0) matches Err(me) && me == pe@,
                    });
                }
                r
            },
            BodyNext::Expr => {
                proof {
                    assert(spec_body_step(toks0, pos0) == spec_expression_statement(
                        toks0,
                        pos0,
                    ));
                }
                let r = self.expression_statement();
                proof {
                    assert(match r {
                        Ok(st) => spec_body_step(toks0, pos0) matches Ok(p) && p.0 == st@ && p.1
                            == self.position as int,
                        Err(pe) => spec_body_step(toks0, pos0) matches Err(me) && me == pe@,
                    });
                }
                r
            },
        }
    }

    /// FUNCTION_BODY_CONTENT: body statements up to the closing `}`;
    /// nested function declarations are rejected.
    #[verifier::rlimit(100)]
    #[verifier::spinoff_prover]
    fn function_body_content(&mut self) -> (r: Result<Vec<Statement>, ParseError>)
        requires
            old(self).wf(),
        ensures
            final(self).wf(),
            final(self).tokens == old(self).tokens,
            old(self).position <= final(self).position,
            ({
                let m = spec_function_body_content(
                    old(self).toks(),
                    Seq::empty(),
                    old(self).position as int,
                );
                match r {
                    Ok(v) => m matches Ok(p) && p.0 == crate::ast::stmts_view(v@) && p.1 == final(self).position as int,
                    Err(pe) => m matches Err(me) && me == pe@,
                }
            }),
        decreases spec_rem(self.toks(), self.position as int), 14int,
    {
        let ghost toks0 = old(self).toks();
        let mut statements: Vec<Statement> = Vec::new();
        proof {
            assert(crate::ast::stmts_view(statements@) =~= Seq::<StmtView>::empty());
        }
        loop
            invariant
                self.wf(),
                self.tokens == old(self).tokens,
                toks0 == old(self).toks(),
                old(self).position <= self.position,
                spec_function_body_content(
                    toks0,
                    Seq::empty(),
                    old(self).position as int,
                ) == spec_function_body_content(
                    toks0,
                    crate::ast::stmts_view(statements@),
                    self.position as int,
                ),
            ensures
                spec_function_body_content(
                    old(self).toks(),
                    Seq::empty(),
                    old(self).position as int,
                ) == Ok::<(Seq<StmtView>, int), ParseErrorView>(
                    (crate::ast::stmts_view(statements@), self.position as int),
                ),
            decreases spec_rem(self.toks(), self.position as int),
        {
            let next_is_close = match &self.peek().kind {
                TokenType::RightCurlyBrace => true,
                _ => false,
            };
            if next_is_close {
                break;
            }
            let s = match self.body_statement() {
                Ok(s) => s,
                Err(e) => { return Err(e); },
            };
            let ghost stmts_before = statements@;
            let ghost before = crate::ast::stmts_view(statements@);
            let ghost sv = s@;
            statements.push(s);
            proof {
                assert(statements@ =~= stmts_before.push(statements@.last()));
                crate::ast::lemma_stmts_view_push(stmts_before, statements@.last());
                assert(crate::ast::stmts_view(statements@) =~= before.push(sv));
            }
        }
        Ok(statements)
    }

    /// FUNCTION_BODY: `{` FUNCTION_BODY_CONTENT `}`.
    #[verifier::rlimit(100)]
    fn function_body(&mut self) -> (r: Result<Vec<Statement>, ParseError>)
        requires
            old(self).wf(),
        ensures
            final(self).wf(),
            final(self).tokens == old(self).tokens,
            old(self).position <= final(self).position,
            r is Ok ==> old(self).position < final(self).position,
            ({
                let m = spec_function_body(old(self).toks(), old(self).position as int);
                match r {
                    Ok(v) => m matches Ok(p) && p.0 == crate::ast::stmts_view(v@) && p.1 == final(self).position as int,
                    Err(pe) => m matches Err(me) && me == pe@,
                }
            }),
        decreases spec_rem(self.toks(), self.position as int), 15int,
    {
        if let Err(e) = self.consume_token_type(
            &TokenType::LeftCurlyBrace,
            ParseErrorKind::UnexpectedToken,
        ) {
            return Err(e);
        }
        let statements = match self.function_body_content() {
            Ok(v) => v,
            Err(e) => { return Err(e); },
        };
        if let Err(e) = self.consume_token_type(
            &TokenType::RightCurlyBrace,
            ParseErrorKind::UnexpectedToken,
        ) {
            return Err(e);
        }
        Ok(statements)
    }

    /// FUNCTION_DECLARATION: `function` IDENTIFIER `(` params? `)`
    /// body.  A body that is empty or does not end in a return gets a
    /// synthetic `return undefined;` appended.
    #[verifier::rlimit(100)]
    fn function_declaration(&mut self) -> (r: Result<Statement, ParseError>)
        requires
            old(self).wf(),
            spec_peek(old(self).toks(), old(self).position as int).kind == TokenKindView::Function,
        ensures
            final(self).wf(),
            final(self).tokens == old(self).tokens,
            old(self).position <= final(self).position,
            r is Ok ==> old(self).position < final(self).position,
            ({
                let m = spec_function_declaration(old(self).toks(), old(self).position as int);
                match r {
                    Ok(s) => m matches Ok(p) && p.0 == s@ && p.1 == final(self).position as int,
                    Err(pe) => m matches Err(me) && me == pe@,
                }
            }),
        decreases spec_rem(self.toks(), self.position as int), 4int,
    {
        proof {
            reveal(spec_function_declaration);
            assert(self.position < self.tokens.len());
        }
        self.consume_token();
        let name = match self.identifier() {
            Ok(n) => n,
            Err(e) => { return Err(e); },
        };
        if let Err(e) = self.consume_token_type(
            &TokenType::LeftParen,
            ParseErrorKind::UnexpectedToken,
        ) {
            return Err(e);
        }
        let next_is_rparen = match &self.peek().kind {
            TokenType::RightParen => true,
            _ => false,
        };
        let params: Vec<String> = if !next_is_rparen {
            match self.function_params() {
                Ok(v) => v,
                Err(e) => { return Err(e); },
            }
        } else {
            Vec::new()
        };
        proof {
            assert(params@.map_values(|s: String| s@) =~= params@.map_values(|s: String| s@));
            if next_is_rparen {
                assert(params@.map_values(|s: String| s@) =~= Seq::<Seq<char>>::empty());
            }
        }
        if let Err(e) = self.consume_token_type(
            &TokenType::RightParen,
            ParseErrorKind::UnexpectedToken,
        ) {
            return Err(e);
        }
        let mut body = match self.function_body() {
            Ok(v) => v,
            Err(e) => { return Err(e); },
        };
        let needs_synthetic = if body.len() == 0 {
            true
        } else {
            match &body[body.len() - 1] {
                Statement::Return { .. } => false,
                _ => true,
            }
        };
        let ghost body_before = crate::ast::stmts_view(body@);
        proof {
            crate::ast::lemma_stmts_view_len(body@);
            if body@.len() > 0 {
                crate::ast::lemma_stmts_view_index(body@, body@.len() - 1);
            }
        }
        let ghost body_vec_before = body@;
        if needs_synthetic {
            body.push(Statement::Return { expression: Expression::Literal(Literal::Undefined) });
            proof {
                assert(body@ =~= body_vec_before.push(body@.last()));
                crate::ast::lemma_stmts_view_push(body_vec_before, body@.last());
                assert(crate::ast::stmts_view(body@) =~= body_before.push(synthetic_return()));
            }
        }
        Ok(Statement::FunctionDeclaration { name, params, body })
    }

    /// STATEMENT: declaration, function declaration, return, or
    /// expression statement.
    #[verifier::rlimit(100)]
    #[verifier::spinoff_prover]
    fn statement(&mut self) -> (r: Result<Statement, ParseError>)
        requires
            old(self).wf(),
        ensures
            final(self).wf(),
            final(self).tokens == old(self).tokens,
            old(self).position <= final(self).position,
            r is Ok ==> old(self).position < final(self).position,
            ({
                let m = spec_statement(old(self).toks(), old(self).position as int);
                match r {
                    Ok(s) => m matches Ok(p) && p.0 == s@ && p.1 == final(self).position as int,
                    Err(pe) => m matches Err(me) && me == pe@,
                }
            }),
        decreases spec_rem(self.toks(), self.position as int), 16int,
    {
        let ghost toks0 = self.toks();
        let ghost pos0 = self.position as int;
        let next = match &self.peek().kind {
            TokenType::KeywordLet => StmtNext::Decl,
            TokenType::KeywordConst => StmtNext::Decl,
            TokenType::Function => StmtNext::Fun,
            TokenType::Return => StmtNext::Ret,
            _ => StmtNext::Expr,
        };
        match next {
            StmtNext::Decl => {
                proof {
                    assert(spec_statement(toks0, pos0) == spec_declaration(toks0, pos0));
                }
                let r = self.declaration();
                proof {
                    assert(match r {
                        Ok(st) => spec_statement(toks0, pos0) matches Ok(p) && p.0 == st@ && p.1
                            == self.position as int,
                        Err(pe) => spec_statement(toks0, pos0) matches Err(me) && me == pe@,
                    });
                }
                r
            },
            StmtNext::Fun => {
                proof {
                    assert(spec_statement(toks0, pos0) == spec_function_declaration(toks0, pos0));
                }
                let r = self.function_declaration();
                proof {
                    assert(match r {
                        Ok(st) => spec_statement(toks0, pos0) matches Ok(p) && p.0 == st@ && p.1
                            == self.position as int,
                        Err(pe) => spec_statement(toks0, pos0) matches Err(me) && me == pe@,
                    });
                }
                r
            },
            StmtNext::Ret => {
                proof {
                    assert(spec_statement(toks0, pos0) == spec_return_statement(toks0, pos0));
                }
                let r = self.return_statement();
                proof {
                    assert(match r {
                        Ok(st) => spec_statement(toks0, pos0) matches Ok(p) && p.0 == st@ && p.1
                            == self.position as int,
                        Err(pe) => spec_statement(toks0, pos0) matches Err(me) && me == pe@,
                    });
                }
                r
            },
            StmtNext::Expr => {
                proof {
                    assert(spec_statement(toks0, pos0) == spec_expression_statement(toks0, pos0));
                }
                let r = self.expression_statement();
                proof {
                    assert(match r {
                        Ok(st) => spec_statement(toks0, pos0) matches Ok(p) && p.0 == st@ && p.1
                            == self.position as int,
                        Err(pe) => spec_statement(toks0, pos0) matches Err(me) && me == pe@,
                    });
                }
                r
            },
        }
    }

    /// PROGRAM: STATEMENT* `Eof`.
    #[verifier::rlimit(100)]
    fn program(&mut self) -> (r: Result<Vec<Statement>, ParseError>)
        requires
            old(self).wf(),
        ensures
            final(self).wf(),
            final(self).tokens == old(self).tokens,
            old(self).position <= final(self).position,
            ({
                let m = spec_program(old(self).toks(), Seq::empty(), old(self).position as int);
                match r {
                    Ok(v) => m matches Ok(p) && p.0 == crate::ast::stmts_view(v@),
                    Err(pe) => m matches Err(me) && me == pe@,
                }
            }),
    {
        let mut statements: Vec<Statement> = Vec::new();
        proof {
            assert(crate::ast::stmts_view(statements@) =~= Seq::<StmtView>::empty());
        }
        loop
            invariant
                self.wf(),
                self.tokens == old(self).tokens,
                old(self).position <= self.position,
                spec_program(old(self).toks(), Seq::empty(), old(self).position as int)
                    == spec_program(
                    old(self).toks(),
                    crate::ast::stmts_view(statements@),
                    self.position as int,
                ),
            ensures
                self.wf(),
                self.tokens == old(self).tokens,
                spec_program(old(self).toks(), Seq::empty(), old(self).position as int)
                    == spec_program(
                    old(self).toks(),
                    crate::ast::stmts_view(statements@),
                    self.position as int,
                ),
                self.position >= self.tokens.len() || spec_peek(
                    self.toks(),
                    self.position as int,
                ).kind == TokenKindView::Eof,
            decreases spec_rem(self.toks(), self.position as int),
        {
            if self.is_end() {
                break;
            }
            let next_is_eof = match &self.peek().kind {
                TokenType::Eof => true,
                _ => false,
            };
            if next_is_eof {
                break;
            }
            let s = match self.statement() {
                Ok(s) => s,
                Err(e) => { return Err(e); },
            };
            let ghost stmts_before = statements@;
            let ghost before = crate::ast::stmts_view(statements@);
            let ghost sv = s@;
            statements.push(s);
            proof {
                assert(statements@ =~= stmts_before.push(statements@.last()));
                crate::ast::lemma_stmts_view_push(stmts_before, statements@.last());
                assert(crate::ast::stmts_view(statements@) =~= before.push(sv));
            }
        }
        if self.is_end() {
            if let Err(e) = self.consume_token_type(&TokenType::Eof, ParseErrorKind::UnexpectedToken)
                {
                return Err(e);
            }
        }
        Ok(statements)
    }

    /// Parses the whole token stream into statements, or the first
    /// syntax error.  The stream must end in the `Eof` sentinel, as
    /// the tokenizer guarantees.
    pub fn parse(&mut self) -> (r: Result<Vec<Statement>, ParseError>)
        requires
            old(self).wf(),
        ensures
            final(self).wf(),
            final(self).tokens == old(self).tokens,
            ({
                let m = spec_program(old(self).toks(), Seq::empty(), old(self).position as int);
                match r {
                    Ok(v) => m matches Ok(p) && p.0 == crate::ast::stmts_view(v@),
                    Err(pe) => m matches Err(me) && me == pe@,
                }
            }),
            old(self).position == 0 ==> match r {
                Ok(v) => spec_parse(old(self).toks()) == Ok::<Seq<StmtView>, ParseErrorView>(
                    crate::ast::stmts_view(v@),
                ),
                Err(pe) => spec_parse(old(self).toks()) == Err::<Seq<StmtView>, ParseErrorView>(
                    pe@,
                ),
            },
    {
        self.program()
    }
}

/// A copy of a literal value.
fn literal_clone(l: &Literal) -> (r: Literal)
    ensures
        r@ == l@,
{
    match l {
        Literal::Number(b) => Literal::Number(*b),
        Literal::String(s) => Literal::String(s.clone()),
        Literal::Boolean(b) => Literal::Boolean(*b),
        Literal::Null => Literal::Null,
        Literal::Undefined => Literal::Undefined,
    }
}

/// The body shape the parser guarantees for function declarations:
/// non-empty, ending in a return statement.
pub open spec fn stmt_fn_shape(s: StmtView) -> bool {
    match s {
        StmtView::FunctionDeclaration { name, params, body } => body.len() > 0 && body.last()
            is Return,
        _ => true,
    }
}

/// Any function declaration the parser accepts has a non-empty body
/// whose last statement is a return (a synthetic `return undefined;`
/// is appended when the source omits one).
pub proof fn lemma_function_declaration_shape(toks: Seq<TokenView>, pos: int)
    ensures
        spec_function_declaration(toks, pos) matches Ok(p) ==> stmt_fn_shape(p.0),
{
    reveal(spec_function_declaration);
}

/// Any statement the parser accepts satisfies the function-body
/// shape.
pub proof fn lemma_statement_shape(toks: Seq<TokenView>, pos: int)
    ensures
        spec_statement(toks, pos) matches Ok(p) ==> stmt_fn_shape(p.0),
{
    reveal(spec_declaration);
    reveal(spec_return_statement);
    reveal(spec_expression_statement);
    lemma_function_declaration_shape(toks, pos);
}

proof fn lemma_program_shape(toks: Seq<TokenView>, acc: Seq<StmtView>, pos: int)
    requires
        spec_program(toks, acc, pos) is Ok,
        forall|i: int| 0 <= i < acc.len() ==> stmt_fn_shape(#[trigger] acc[i]),
    ensures
        ({
            let stmts = spec_program(toks, acc, pos)->Ok_0.0;
            forall|i: int| 0 <= i < stmts.len() ==> stmt_fn_shape(#[trigger] stmts[i])
        }),
    decreases spec_rem(toks, pos), 18int,
{
    if pos >= toks.len() {
    } else if spec_peek(toks, pos).kind == TokenKindView::Eof {
    } else {
        match spec_statement(toks, pos) {
            Err(e) => {},
            Ok((s, p2)) => {
                lemma_statement_shape(toks, pos);
                let acc2 = acc.push(s);
                assert(forall|i: int|
                    0 <= i < acc2.len() ==> stmt_fn_shape(#[trigger] acc2[i]));
                lemma_program_shape(toks, acc2, at_least(p2, pos + 1));
            },
        }
    }
}

/// Every `FunctionDeclaration` in a parsed program has a non-empty
/// body whose last statement is a `Return`.
pub proof fn lemma_parse_function_bodies(toks: Seq<TokenView>)
    requires
        spec_parse(toks) is Ok,
    ensures
        ({
            let stmts = spec_parse(toks)->Ok_0;
            forall|i: int| 0 <= i < stmts.len() ==> stmt_fn_shape(#[trigger] stmts[i])
        }),
{
    if toks.len() > 0 {
        lemma_program_shape(toks, Seq::empty(), 0);
    }
}

/// The depth-first token fringe of an expression: the token kinds a
/// printer would spell it back out with.
pub open spec fn expr_toks(e: ExprView) -> Seq<TokenKindView>
    decreases e,
{
    match e {
        ExprView::Literal(v) => seq![TokenKindView::Literal(v)],
        ExprView::Identifier(n) => seq![TokenKindView::Identifier(n)],
        ExprView::Grouping { expression } => seq![TokenKindView::LeftParen] + expr_toks(
            *expression,
        ) + seq![TokenKindView::RightParen],
        ExprView::Comparison { left, operator, right } => expr_toks(*left) + seq![operator]
            + expr_toks(*right),
        ExprView::Unary { operator, right } => seq![TokenKindView::Minus] + expr_toks(*right),
        ExprView::Binary { left, operator, right } => expr_toks(*left) + seq![operator]
            + expr_toks(*right),
        ExprView::Call { callee, args } => seq![
            TokenKindView::Identifier(callee),
            TokenKindView::LeftParen,
        ] + args_toks(args) + seq![TokenKindView::RightParen],
    }
}

/// The token fringe of a comma-separated argument list.
pub open spec fn args_toks(s: Seq<ExprView>) -> Seq<TokenKindView>
    decreases s,
{
    if s.len() == 0 {
        Seq::empty()
    } else if s.len() == 1 {
        expr_toks(s[0])
    } else {
        expr_toks(s[0]) + seq![TokenKindView::Comma] + args_toks(s.drop_first())
    }
}

/// The kinds of the tokens in `toks[lo .. hi]`.
pub open spec fn kinds_of(toks: Seq<TokenView>, lo: int, hi: int) -> Seq<TokenKindView> {
    toks.subrange(lo, hi).map_values(|t: TokenView| t.kind)
}

/// A token stream fit for the parser: non-empty and ending in `Eof`.
pub open spec fn wf_stream(toks: Seq<TokenView>) -> bool {
    toks.len() >= 1 && toks[toks.len() - 1].kind == TokenKindView::Eof
}

proof fn lemma_kinds_concat(toks: Seq<TokenView>, a: int, b: int, c: int)
    requires
        0 <= a <= b <= c <= toks.len(),
    ensures
        kinds_of(toks, a, c) == kinds_of(toks, a, b) + kinds_of(toks, b, c),
{
    assert(kinds_of(toks, a, c) =~= kinds_of(toks, a, b) + kinds_of(toks, b, c));
}

proof fn lemma_kinds_single(toks: Seq<TokenView>, i: int)
    requires
        0 <= i < toks.len(),
    ensures
        kinds_of(toks, i, i + 1) == seq![toks[i].kind],
{
    assert(kinds_of(toks, i, i + 1) =~= seq![toks[i].kind]);
}

proof fn lemma_args_toks_push(s: Seq<ExprView>, e: ExprView)
    requires
        s.len() >= 1,
    ensures
        args_toks(s.push(e)) == args_toks(s) + seq![TokenKindView::Comma] + expr_toks(e),
    decreases s.len(),
{
    if s.len() == 1 {
        assert(s.push(e).drop_first() =~= seq![e]);
        assert(args_toks(seq![e]) == expr_toks(e));
        assert(args_toks(s.push(e)) =~= args_toks(s) + seq![TokenKindView::Comma] + expr_toks(e));
    } else {
        assert(s.push(e).drop_first() =~= s.drop_first().push(e));
        lemma_args_toks_push(s.drop_first(), e);
        assert(args_toks(s.push(e)) =~= args_toks(s) + seq![TokenKindView::Comma] + expr_toks(e));
    }
}

/// LITERAL consumes exactly its own fringe.
proof fn lemma_literal_fringe(toks: Seq<TokenView>, pos: int)
    requires
        wf_stream(toks),
        0 <= pos,
    ensures
        spec_literal(toks, pos) matches Ok(p) ==> pos < p.1 <= toks.len() && expr_toks(p.0)
            == kinds_of(toks, pos, p.1),
{
    if spec_literal(toks, pos) is Ok {
        assert(pos < toks.len());
        lemma_kinds_single(toks, pos);
    }
}

/// IDENTIFIER consumes exactly its own fringe.
proof fn lemma_identifier_fringe(toks: Seq<TokenView>, pos: int)
    requires
        wf_stream(toks),
        0 <= pos,
    ensures
        spec_identifier(toks, pos) matches Ok(p) ==> pos < p.1 <= toks.len() && toks[pos].kind
            == TokenKindView::Identifier(p.0),
{
    if spec_identifier(toks, pos) is Ok {
        assert(pos < toks.len());
    }
}

/// UNARY consumes exactly its fringe.
proof fn lemma_unary_fringe(toks: Seq<TokenView>, pos: int)
    requires
        wf_stream(toks),
        0 <= pos,
    ensures
        spec_unary(toks, pos) matches Ok(p) ==> pos < p.1 <= toks.len() && expr_toks(p.0)
            == kinds_of(toks, pos, p.1),
    decreases spec_rem(toks, pos), 5int,
{
    if spec_unary(toks, pos) is Ok {
        lemma_factor_fringe(toks, pos + 1);
        let (f, p2) = spec_factor(toks, pos + 1)->Ok_0;
        lemma_kinds_single(toks, pos);
        lemma_kinds_concat(toks, pos, pos + 1, p2);
        assert(expr_toks(ExprView::Unary { operator: TokenKindView::Minus, right: Box::new(f) })
            =~= seq![TokenKindView::Minus] + expr_toks(f));
    }
}

/// GROUPING consumes exactly its fringe, parentheses included.
proof fn lemma_grouping_fringe(toks: Seq<TokenView>, pos: int)
    requires
        wf_stream(toks),
        0 <= pos,
    ensures
        spec_grouping(toks, pos) matches Ok(p) ==> pos < p.1 <= toks.len() && expr_toks(p.0)
            == kinds_of(toks, pos, p.1),
    decreases spec_rem(toks, pos), 5int,
{
    if spec_grouping(toks, pos) is Ok {
        lemma_expression_fringe(toks, pos + 1);
        let (e, p2) = spec_expression(toks, pos + 1)->Ok_0;
        lemma_kinds_single(toks, pos);
        lemma_kinds_single(toks, p2);
        lemma_kinds_concat(toks, pos, pos + 1, p2);
        lemma_kinds_concat(toks, pos, p2, p2 + 1);
        assert(expr_toks(ExprView::Grouping { expression: Box::new(e) }) =~= seq![
            TokenKindView::LeftParen,
        ] + expr_toks(e) + seq![TokenKindView::RightParen]);
        assert(expr_toks(ExprView::Grouping { expression: Box::new(e) }) =~= kinds_of(
            toks,
            pos,
            p2 + 1,
        ));
    }
}

/// CALL consumes exactly its fringe.
proof fn lemma_call_fringe(toks: Seq<TokenView>, pos: int)
    requires
        wf_stream(toks),
        0 <= pos,
    ensures
        spec_call(toks, pos) matches Ok(p) ==> pos < p.1 <= toks.len() && expr_toks(p.0)
            == kinds_of(toks, pos, p.1),
    decreases spec_rem(toks, pos), 4int,
{
    if spec_call(toks, pos) is Ok {
        lemma_identifier_fringe(toks, pos);
        let (name, p1) = spec_identifier(toks, pos)->Ok_0;
        if spec_peek(toks, p1 + 1).kind == TokenKindView::RightParen {
            let close = p1 + 1;
            assert(close < toks.len());
            assert(spec_call(toks, pos)->Ok_0.1 == close + 1);
            assert(args_toks(Seq::<ExprView>::empty()) == Seq::<TokenKindView>::empty());
            assert(expr_toks(spec_call(toks, pos)->Ok_0.0) =~= kinds_of(toks, pos, close + 1));
        } else {
            lemma_arguments_fringe(toks, pos + 2);
            let (args, p3) = spec_arguments(toks, pos + 2)->Ok_0;
            assert(toks[p3].kind == TokenKindView::RightParen);
            assert(expr_toks(ExprView::Call { callee: name, args }) =~= kinds_of(
                toks,
                pos,
                p3 + 1,
            ));
        }
    }
}

/// ARGUMENTS consume exactly their fringe.
proof fn lemma_arguments_fringe(toks: Seq<TokenView>, pos: int)
    requires
        wf_stream(toks),
        0 <= pos,
    ensures
        spec_arguments(toks, pos) matches Ok(p) ==> pos < p.1 <= toks.len() && p.0.len() >= 1
            && args_toks(p.0) == kinds_of(toks, pos, p.1),
    decreases spec_rem(toks, pos), 10int,
{
    if spec_arguments(toks, pos) is Ok {
        lemma_comparison_fringe(toks, pos);
        let (e, p1) = spec_comparison(toks, pos)->Ok_0;
        assert(args_toks(seq![e]) == expr_toks(e));
        lemma_arguments_more_fringe(toks, seq![e], p1);
    }
}

proof fn lemma_arguments_more_fringe(toks: Seq<TokenView>, args: Seq<ExprView>, pos: int)
    requires
        wf_stream(toks),
        0 <= pos <= toks.len(),
        args.len() >= 1,
    ensures
        spec_arguments_more(toks, args, pos) matches Ok(p) ==> pos <= p.1 <= toks.len()
            && p.0.len() >= args.len() && args_toks(p.0) == args_toks(args) + kinds_of(
            toks,
            pos,
            p.1,
        ),
    decreases spec_rem(toks, pos), 2int,
{
    if 0 <= pos < toks.len() && toks[pos].kind == TokenKindView::Comma {
        let after = spec_peek(toks, pos + 1).kind;
        if after == TokenKindView::Comma || after == TokenKindView::RightParen {
        } else {
            match spec_comparison(toks, pos + 1) {
                Err(e) => {},
                Ok((e, p2)) => {
                    lemma_comparison_fringe(toks, pos + 1);
                    lemma_args_toks_push(args, e);
                    lemma_arguments_more_fringe(toks, args.push(e), p2);
                    if spec_arguments_more(toks, args.push(e), p2) is Ok {
                        let p = spec_arguments_more(toks, args.push(e), p2)->Ok_0.1;
                        lemma_kinds_single(toks, pos);
                        lemma_kinds_concat(toks, pos, pos + 1, p2);
                        lemma_kinds_concat(toks, pos, p2, p);
                        assert(args_toks(spec_arguments_more(toks, args.push(e), p2)->Ok_0.0)
                            =~= args_toks(args) + kinds_of(toks, pos, p));
                    }
                },
            }
        }
    } else {
        assert(kinds_of(toks, pos, pos) =~= Seq::<TokenKindView>::empty());
        assert(args_toks(args) + Seq::<TokenKindView>::empty() =~= args_toks(args));
    }
}

/// FACTOR consumes exactly its fringe.
proof fn lemma_factor_fringe(toks: Seq<TokenView>, pos: int)
    requires
        wf_stream(toks),
        0 <= pos,
    ensures
        spec_factor(toks, pos) matches Ok(p) ==> pos < p.1 <= toks.len() && expr_toks(p.0)
            == kinds_of(toks, pos, p.1),
    decreases spec_rem(toks, pos), 6int,
{
    match spec_peek(toks, pos).kind {
        TokenKindView::Literal(_) => {
            lemma_literal_fringe(toks, pos);
        },
        TokenKindView::LeftParen => {
            lemma_grouping_fringe(toks, pos);
        },
        TokenKindView::Minus => {
            lemma_unary_fringe(toks, pos);
        },
        TokenKindView::Identifier(_) => {
            lemma_identifier_fringe(toks, pos);
            match spec_identifier(toks, pos) {
                Err(e) => {},
                Ok((name, p1)) => {
                    if spec_peek(toks, p1).kind == TokenKindView::LeftParen {
                        lemma_call_fringe(toks, pos);
                    } else {
                        lemma_kinds_single(toks, pos);
                        assert(expr_toks(ExprView::Identifier(name)) =~= kinds_of(
                            toks,
                            pos,
                            pos + 1,
                        ));
                    }
                },
            }
        },
        _ => {},
    }
}

/// TERM consumes exactly its fringe.
proof fn lemma_term_fringe(toks: Seq<TokenView>, pos: int)
    requires
        wf_stream(toks),
        0 <= pos,
    ensures
        spec_term(toks, pos) matches Ok(p) ==> pos < p.1 <= toks.len() && expr_toks(p.0)
            == kinds_of(toks, pos, p.1),
    decreases spec_rem(toks, pos), 7int,
{
    if spec_term(toks, pos) is Ok {
        lemma_factor_fringe(toks, pos);
        let (e, p1) = spec_factor(toks, pos)->Ok_0;
        lemma_term_more_fringe(toks, e, p1);
    }
}

proof fn lemma_term_more_fringe(toks: Seq<TokenView>, left: ExprView, pos: int)
    requires
        wf_stream(toks),
        0 <= pos <= toks.len(),
    ensures
        spec_term_more(toks, left, pos) matches Ok(p) ==> pos <= p.1 <= toks.len() && expr_toks(
            p.0,
        ) == expr_toks(left) + kinds_of(toks, pos, p.1),
    decreases spec_rem(toks, pos), 2int,
{
    if 0 <= pos < toks.len() && (toks[pos].kind == TokenKindView::Star || toks[pos].kind
        == TokenKindView::Slash) {
        match spec_factor(toks, pos + 1) {
            Err(e) => {},
            Ok((r, p2)) => {
                lemma_factor_fringe(toks, pos + 1);
                let left2 = ExprView::Binary {
                    left: Box::new(left),
                    operator: toks[pos].kind,
                    right: Box::new(r),
                };
                lemma_term_more_fringe(toks, left2, p2);
                if spec_term_more(toks, left2, p2) is Ok {
                    let p = spec_term_more(toks, left2, p2)->Ok_0.1;
                    lemma_kinds_single(toks, pos);
                    lemma_kinds_concat(toks, pos, pos + 1, p2);
                    lemma_kinds_concat(toks, pos, p2, p);
                    assert(expr_toks(spec_term_more(toks, left2, p2)->Ok_0.0) =~= expr_toks(left)
                        + kinds_of(toks, pos, p));
                }
            },
        }
    } else {
        assert(kinds_of(toks, pos, pos) =~= Seq::<TokenKindView>::empty());
        assert(expr_toks(left) + Seq::<TokenKindView>::empty() =~= expr_toks(left));
    }
}

/// EXPRESSION consumes exactly its fringe.
proof fn lemma_expression_fringe(toks: Seq<TokenView>, pos: int)
    requires
        wf_stream(toks),
        0 <= pos,
    ensures
        spec_expression(toks, pos) matches Ok(p) ==> pos < p.1 <= toks.len() && expr_toks(p.0)
            == kinds_of(toks, pos, p.1),
    decreases spec_rem(toks, pos), 8int,
{
    if spec_expression(toks, pos) is Ok {
        lemma_term_fringe(toks, pos);
        let (e, p1) = spec_term(toks, pos)->Ok_0;
        lemma_expression_more_fringe(toks, e, p1);
    }
}

proof fn lemma_expression_more_fringe(toks: Seq<TokenView>, left: ExprView, pos: int)
    requires
        wf_stream(toks),
        0 <= pos <= toks.len(),
    ensures
        spec_expression_more(toks, left, pos) matches Ok(p) ==> pos <= p.1 <= toks.len()
            && expr_toks(p.0) == expr_toks(left) + kinds_of(toks, pos, p.1),
    decreases spec_rem(toks, pos), 2int,
{
    if 0 <= pos < toks.len() && (toks[pos].kind == TokenKindView::Plus || toks[pos].kind
        == TokenKindView::Minus) {
        match spec_term(toks, pos + 1) {
            Err(e) => {},
            Ok((r, p2)) => {
                lemma_term_fringe(toks, pos + 1);
                let left2 = ExprView::Binary {
                    left: Box::new(left),
                    operator: toks[pos].kind,
                    right: Box::new(r),
                };
                lemma_expression_more_fringe(toks, left2, p2);
                if spec_expression_more(toks, left2, p2) is Ok {
                    let p = spec_expression_more(toks, left2, p2)->Ok_0.1;
                    lemma_kinds_single(toks, pos);
                    lemma_kinds_concat(toks, pos, pos + 1, p2);
                    lemma_kinds_concat(toks, pos, p2, p);
                    assert(expr_toks(spec_expression_more(toks, left2, p2)->Ok_0.0) =~= expr_toks(
                        left,
                    ) + kinds_of(toks, pos, p));
                }
            },
        }
    } else {
        assert(kinds_of(toks, pos, pos) =~= Seq::<TokenKindView>::empty());
        assert(expr_toks(left) + Seq::<TokenKindView>::empty() =~= expr_toks(left));
    }
}

/// The depth-first token fringe of any parsed expression is exactly
/// the run of tokens it was parsed from: the parser reads the tokens
/// back in the order the tokenizer emitted them.
pub proof fn lemma_comparison_fringe(toks: Seq<TokenView>, pos: int)
    requires
        wf_stream(toks),
        0 <= pos,
    ensures
        spec_comparison(toks, pos) matches Ok(p) ==> pos < p.1 <= toks.len() && expr_toks(p.0)
            == kinds_of(toks, pos, p.1),
    decreases spec_rem(toks, pos), 9int,
{
    if spec_comparison(toks, pos) is Ok {
        lemma_expression_fringe(toks, pos);
        let (e, p1) = spec_expression(toks, pos)->Ok_0;
        lemma_comparison_more_fringe(toks, e, p1);
    }
}

proof fn lemma_comparison_more_fringe(toks: Seq<TokenView>, left: ExprView, pos: int)
    requires
        wf_stream(toks),
        0 <= pos <= toks.len(),
    ensures
        spec_comparison_more(toks, left, pos) matches Ok(p) ==> pos <= p.1 <= toks.len()
            && expr_toks(p.0) == expr_toks(left) + kinds_of(toks, pos, p.1),
    decreases spec_rem(toks, pos), 2int,
{
    if 0 <= pos < toks.len() && spec_is_comparison(toks[pos].kind) {
        match spec_expression(toks, pos + 1) {
            Err(e) => {},
            Ok((r, p2)) => {
                lemma_expression_fringe(toks, pos + 1);
                let left2 = ExprView::Comparison {
                    left: Box::new(left),
                    operator: toks[pos].kind,
                    right: Box::new(r),
                };
                lemma_comparison_more_fringe(toks, left2, p2);
                if spec_comparison_more(toks, left2, p2) is Ok {
                    let p = spec_comparison_more(toks, left2, p2)->Ok_0.1;
                    lemma_kinds_single(toks, pos);
                    lemma_kinds_concat(toks, pos, pos + 1, p2);
                    lemma_kinds_concat(toks, pos, p2, p);
                    assert(expr_toks(spec_comparison_more(toks, left2, p2)->Ok_0.0) =~= expr_toks(
                        left,
                    ) + kinds_of(toks, pos, p));
                }
            },
        }
    } else {
        assert(kinds_of(toks, pos, pos) =~= Seq::<TokenKindView>::empty());
        assert(expr_toks(left) + Seq::<TokenKindView>::empty() =~= expr_toks(left));
    }
}

/// The token fringe of a comma-separated parameter list.
pub open spec fn params_toks(ps: Seq<Seq<char>>) -> Seq<TokenKindView>
    decreases ps,
{
    if ps.len() == 0 {
        Seq::empty()
    } else if ps.len() == 1 {
        seq![TokenKindView::Identifier(ps[0])]
    } else {
        seq![TokenKindView::Identifier(ps[0]), TokenKindView::Comma] + params_toks(
            ps.drop_first(),
        )
    }
}

/// Whether `ts` is a run of tokens that parses to the statement `s`.
/// A bare `return;` and `return undefined;` read back differently but
/// parse alike, and a function body may end in a synthetic return the
/// source never spelled; hence a relation, not a function.
pub open spec fn stmt_matches(s: StmtView, ts: Seq<TokenKindView>) -> bool
    decreases s, 2int,
{
    match s {
        StmtView::ExpressionStatement { expression } => ts == expr_toks(expression) + seq![
            TokenKindView::Semicolon,
        ],
        StmtView::Declaration { is_const, name, value } => {
            let kw = if is_const {
                TokenKindView::KeywordConst
            } else {
                TokenKindView::KeywordLet
            };
            match value {
                Some(v) => ts == seq![kw, TokenKindView::Identifier(name), TokenKindView::Assign]
                    + expr_toks(v) + seq![TokenKindView::Semicolon],
                None => ts == seq![
                    kw,
                    TokenKindView::Identifier(name),
                    TokenKindView::Semicolon,
                ],
            }
        },
        StmtView::Return { expression } => (expression == ExprView::Literal(ValueView::Undefined)
            && ts == seq![TokenKindView::Return, TokenKindView::Semicolon]) || ts == seq![
            TokenKindView::Return,
        ] + expr_toks(expression) + seq![TokenKindView::Semicolon],
        StmtView::FunctionDeclaration { name, params, body } => {
            // Either the body reads back as written, or its final
            // synthetic return was never in the source.
            fn_decl_matches(name, params, body, ts) || (body.len() > 0 && body.last()
                == synthetic_return() && fn_decl_matches(name, params, body.drop_last(), ts))
        },
    }
}

/// The head of a function declaration's token run, up to and
/// including the opening brace.
pub open spec fn fn_decl_head(name: Seq<char>, params: Seq<Seq<char>>) -> Seq<TokenKindView> {
    seq![
        TokenKindView::Function,
        TokenKindView::Identifier(name),
        TokenKindView::LeftParen,
    ] + params_toks(params) + seq![TokenKindView::RightParen, TokenKindView::LeftCurlyBrace]
}

/// Whether `ts` spells a function declaration whose body statements
/// match some inner run.
pub open spec fn fn_decl_matches(
    name: Seq<char>,
    params: Seq<Seq<char>>,
    body: Seq<StmtView>,
    ts: Seq<TokenKindView>,
) -> bool
    decreases body, 3int,
{
    exists|inner: Seq<TokenKindView>|
        #![all_triggers]
        stmts_match(body, inner) && ts == fn_decl_head(name, params) + inner + seq![
            TokenKindView::RightCurlyBrace,
        ]
}

/// Whether `ts` splits into runs that parse to the statements `ss`,
/// in order.
pub open spec fn stmts_match(ss: Seq<StmtView>, ts: Seq<TokenKindView>) -> bool
    decreases ss, 1int,
{
    if ss.len() == 0 {
        ts.len() == 0
    } else {
        exists|k: int|
            0 <= k <= ts.len() && stmt_matches(ss[0], ts.subrange(0, k)) && stmts_match(
                ss.drop_first(),
                ts.subrange(k, ts.len() as int),
            )
    }
}

/// Appending a statement extends the matched token run.
proof fn lemma_stmts_match_push(ss: Seq<StmtView>, ats: Seq<TokenKindView>, s: StmtView, ts: Seq<TokenKindView>)
    requires
        stmts_match(ss, ats),
        stmt_matches(s, ts),
    ensures
        stmts_match(ss.push(s), ats + ts),
    decreases ss.len(),
{
    if ss.len() == 0 {
        assert(ats.len() == 0);
        let k = ts.len() as int;
        assert((ats + ts).subrange(0, k) =~= ts);
        assert((ats + ts).subrange(k, (ats + ts).len() as int) =~= Seq::<TokenKindView>::empty());
        assert(ss.push(s)[0] == s);
        assert(ss.push(s).drop_first() =~= Seq::<StmtView>::empty());
        assert(stmt_matches(ss.push(s)[0], (ats + ts).subrange(0, k)));
        assert(stmts_match(
            ss.push(s).drop_first(),
            (ats + ts).subrange(k, (ats + ts).len() as int),
        ));
        assert(stmts_match(ss.push(s), ats + ts));
    } else {
        let k0 = choose|k: int|
            0 <= k <= ats.len() && stmt_matches(ss[0], ats.subrange(0, k)) && stmts_match(
                ss.drop_first(),
                ats.subrange(k, ats.len() as int),
            );
        lemma_stmts_match_push(ss.drop_first(), ats.subrange(k0, ats.len() as int), s, ts);
        assert(ss.push(s)[0] == ss[0]);
        assert(ss.push(s).drop_first() =~= ss.drop_first().push(s));
        assert((ats + ts).subrange(0, k0) =~= ats.subrange(0, k0));
        assert((ats + ts).subrange(k0, (ats + ts).len() as int) =~= ats.subrange(
            k0,
            ats.len() as int,
        ) + ts);
        assert(stmt_matches(ss.push(s)[0], (ats + ts).subrange(0, k0)));
        assert(stmts_match(
            ss.push(s).drop_first(),
            (ats + ts).subrange(k0, (ats + ts).len() as int),
        ));
        assert(stmts_match(ss.push(s), ats + ts));
    }
}

/// EXPRESSION_STATEMENT consumes exactly a statement run.
proof fn lemma_expression_statement_fringe(toks: Seq<TokenView>, pos: int)
    requires
        wf_stream(toks),
        0 <= pos,
    ensures
        spec_expression_statement(toks, pos) matches Ok(p) ==> pos < p.1 <= toks.len()
            && stmt_matches(p.0, kinds_of(toks, pos, p.1)),
{
    reveal(spec_expression_statement);
    if spec_expression_statement(toks, pos) is Ok {
        lemma_comparison_fringe(toks, pos);
        let (e, p1) = spec_comparison(toks, pos)->Ok_0;
        lemma_kinds_single(toks, p1);
        lemma_kinds_concat(toks, pos, p1, p1 + 1);
        assert(expr_toks(e) + seq![TokenKindView::Semicolon] =~= kinds_of(toks, pos, p1 + 1));
    }
}

/// DECLARATION consumes exactly a statement run.
proof fn lemma_declaration_fringe(toks: Seq<TokenView>, pos: int)
    requires
        wf_stream(toks),
        0 <= pos,
    ensures
        spec_declaration(toks, pos) matches Ok(p) ==> pos < p.1 <= toks.len() && stmt_matches(
            p.0,
            kinds_of(toks, pos, p.1),
        ),
{
    reveal(spec_declaration);
    if spec_declaration(toks, pos) is Ok {
        let kw = toks[pos].kind;
        lemma_identifier_fringe(toks, pos + 1);
        let (name, p2) = spec_identifier(toks, pos + 1)->Ok_0;
        let t2 = spec_peek(toks, p2);
        if t2.kind == TokenKindView::Assign {
            assert(p2 < toks.len());
            lemma_comparison_fringe(toks, p2 + 1);
            let (v, p4) = spec_comparison(toks, p2 + 1)->Ok_0;
            assert(toks[p4].kind == TokenKindView::Semicolon);
            assert(seq![kw, TokenKindView::Identifier(name), TokenKindView::Assign] + expr_toks(
                v,
            ) + seq![TokenKindView::Semicolon] =~= kinds_of(toks, pos, p4 + 1));
        } else {
            assert(p2 < toks.len());
            assert(seq![kw, TokenKindView::Identifier(name), TokenKindView::Semicolon]
                =~= kinds_of(toks, pos, p2 + 1));
        }
    }
}

/// RETURN_STATEMENT consumes exactly a statement run.
proof fn lemma_return_statement_fringe(toks: Seq<TokenView>, pos: int)
    requires
        wf_stream(toks),
        0 <= pos,
    ensures
        spec_return_statement(toks, pos) matches Ok(p) ==> pos < p.1 <= toks.len()
            && stmt_matches(p.0, kinds_of(toks, pos, p.1)),
{
    reveal(spec_return_statement);
    if spec_return_statement(toks, pos) is Ok {
        if spec_peek(toks, pos + 1).kind == TokenKindView::Semicolon {
            assert(pos + 1 < toks.len());
            assert(seq![TokenKindView::Return, TokenKindView::Semicolon] =~= kinds_of(
                toks,
                pos,
                pos + 2,
            ));
        } else {
            lemma_comparison_fringe(toks, pos + 1);
            let (e, p2) = spec_comparison(toks, pos + 1)->Ok_0;
            assert(toks[p2].kind == TokenKindView::Semicolon);
            assert(seq![TokenKindView::Return] + expr_toks(e) + seq![TokenKindView::Semicolon]
                =~= kinds_of(toks, pos, p2 + 1));
        }
    }
}

proof fn lemma_params_toks_push(ps: Seq<Seq<char>>, n: Seq<char>)
    requires
        ps.len() >= 1,
    ensures
        params_toks(ps.push(n)) == params_toks(ps) + seq![
            TokenKindView::Comma,
            TokenKindView::Identifier(n),
        ],
    decreases ps.len(),
{
    if ps.len() == 1 {
        assert(ps.push(n).drop_first() =~= seq![n]);
        assert(params_toks(seq![n]) == seq![TokenKindView::Identifier(n)]);
        assert(params_toks(ps.push(n)) =~= params_toks(ps) + seq![
            TokenKindView::Comma,
            TokenKindView::Identifier(n),
        ]);
    } else {
        assert(ps.push(n).drop_first() =~= ps.drop_first().push(n));
        lemma_params_toks_push(ps.drop_first(), n);
        assert(params_toks(ps.push(n)) =~= params_toks(ps) + seq![
            TokenKindView::Comma,
            TokenKindView::Identifier(n),
        ]);
    }
}

/// FUNCTION_PARAMS consume exactly their fringe.
proof fn lemma_function_params_fringe(toks: Seq<TokenView>, pos: int)
    requires
        wf_stream(toks),
        0 <= pos,
    ensures
        spec_function_params(toks, pos) matches Ok(p) ==> pos < p.1 <= toks.len() && p.0.len()
            >= 1 && params_toks(p.0) == kinds_of(toks, pos, p.1),
{
    if spec_function_params(toks, pos) is Ok {
        lemma_identifier_fringe(toks, pos);
        let (name, p1) = spec_identifier(toks, pos)->Ok_0;
        lemma_kinds_single(toks, pos);
        assert(params_toks(seq![name]) =~= kinds_of(toks, pos, pos + 1));
        lemma_function_params_more_fringe(toks, seq![name], p1);
    }
}

proof fn lemma_function_params_more_fringe(toks: Seq<TokenView>, ps: Seq<Seq<char>>, pos: int)
    requires
        wf_stream(toks),
        0 <= pos <= toks.len(),
        ps.len() >= 1,
    ensures
        spec_function_params_more(toks, ps, pos) matches Ok(p) ==> pos <= p.1 <= toks.len()
            && p.0.len() >= ps.len() && params_toks(p.0) == params_toks(ps) + kinds_of(
            toks,
            pos,
            p.1,
        ),
    decreases spec_rem(toks, pos),
{
    if 0 <= pos < toks.len() && toks[pos].kind == TokenKindView::Comma {
        match spec_identifier(toks, pos + 1) {
            Err(e) => {},
            Ok((name, p2)) => {
                lemma_identifier_fringe(toks, pos + 1);
                lemma_params_toks_push(ps, name);
                lemma_function_params_more_fringe(toks, ps.push(name), p2);
                if spec_function_params_more(toks, ps.push(name), p2) is Ok {
                    let p = spec_function_params_more(toks, ps.push(name), p2)->Ok_0.1;
                    lemma_kinds_single(toks, pos);
                    lemma_kinds_single(toks, pos + 1);
                    lemma_kinds_concat(toks, pos, pos + 2, p);
                    lemma_kinds_concat(toks, pos, pos + 1, pos + 2);
                    assert(params_toks(spec_function_params_more(toks, ps.push(name), p2)->Ok_0.0)
                        =~= params_toks(ps) + kinds_of(toks, pos, p));
                }
            },
        }
    } else {
        assert(kinds_of(toks, pos, pos) =~= Seq::<TokenKindView>::empty());
        assert(params_toks(ps) + Seq::<TokenKindView>::empty() =~= params_toks(ps));
    }
}

/// One body statement consumes exactly a statement run.
proof fn lemma_body_step_fringe(toks: Seq<TokenView>, pos: int)
    requires
        wf_stream(toks),
        0 <= pos,
    ensures
        spec_body_step(toks, pos) matches Ok(p) ==> pos < p.1 <= toks.len() && stmt_matches(
            p.0,
            kinds_of(toks, pos, p.1),
        ),
{
    match spec_peek(toks, pos).kind {
        TokenKindView::Function => {},
        TokenKindView::Return => {
            lemma_return_statement_fringe(toks, pos);
        },
        TokenKindView::KeywordLet => {
            lemma_declaration_fringe(toks, pos);
        },
        TokenKindView::KeywordConst => {
            lemma_declaration_fringe(toks, pos);
        },
        _ => {
            lemma_expression_statement_fringe(toks, pos);
        },
    }
}

/// FUNCTION_BODY_CONTENT consumes exactly the runs of its statements.
proof fn lemma_body_content_fringe(
    toks: Seq<TokenView>,
    acc: Seq<StmtView>,
    pos: int,
    ats: Seq<TokenKindView>,
)
    requires
        wf_stream(toks),
        0 <= pos <= toks.len(),
        stmts_match(acc, ats),
    ensures
        spec_function_body_content(toks, acc, pos) matches Ok(p) ==> pos <= p.1 < toks.len()
            && toks[p.1].kind == TokenKindView::RightCurlyBrace && stmts_match(
            p.0,
            ats + kinds_of(toks, pos, p.1),
        ),
    decreases spec_rem(toks, pos),
{
    if spec_peek(toks, pos).kind == TokenKindView::RightCurlyBrace {
        assert(pos < toks.len());
        assert(kinds_of(toks, pos, pos) =~= Seq::<TokenKindView>::empty());
        assert(ats + Seq::<TokenKindView>::empty() =~= ats);
    } else {
        match spec_body_step(toks, pos) {
            Err(e) => {},
            Ok((st, p2)) => {
                if 0 <= pos < toks.len() {
                    lemma_body_step_fringe(toks, pos);
                    lemma_stmts_match_push(acc, ats, st, kinds_of(toks, pos, p2));
                    lemma_body_content_fringe(
                        toks,
                        acc.push(st),
                        p2,
                        ats + kinds_of(toks, pos, p2),
                    );
                    if spec_function_body_content(toks, acc.push(st), p2) is Ok {
                        let p = spec_function_body_content(toks, acc.push(st), p2)->Ok_0.1;
                        lemma_kinds_concat(toks, pos, p2, p);
                        assert((ats + kinds_of(toks, pos, p2)) + kinds_of(toks, p2, p) =~= ats
                            + kinds_of(toks, pos, p));
                    }
                }
            },
        }
    }
}

/// FUNCTION_BODY consumes `{`, its statements' runs, and `}`.
proof fn lemma_function_body_fringe(toks: Seq<TokenView>, pos: int)
    requires
        wf_stream(toks),
        0 <= pos,
    ensures
        spec_function_body(toks, pos) matches Ok(p) ==> pos + 1 < p.1 <= toks.len()
            && toks[pos].kind == TokenKindView::LeftCurlyBrace && toks[p.1 - 1].kind
            == TokenKindView::RightCurlyBrace && stmts_match(
            p.0,
            kinds_of(toks, pos + 1, p.1 - 1),
        ),
{
    if spec_function_body(toks, pos) is Ok {
        assert(stmts_match(Seq::<StmtView>::empty(), Seq::<TokenKindView>::empty()));
        lemma_body_content_fringe(toks, Seq::empty(), pos + 1, Seq::empty());
        let (ss, p2) = spec_function_body_content(toks, Seq::empty(), pos + 1)->Ok_0;
        assert(Seq::<TokenKindView>::empty() + kinds_of(toks, pos + 1, p2) =~= kinds_of(
            toks,
            pos + 1,
            p2,
        ));
    }
}

/// FUNCTION_DECLARATION consumes exactly a statement run.
proof fn lemma_function_declaration_fringe(toks: Seq<TokenView>, pos: int)
    requires
        wf_stream(toks),
        0 <= pos,
    ensures
        spec_function_declaration(toks, pos) matches Ok(p) ==> pos < p.1 <= toks.len()
            && stmt_matches(p.0, kinds_of(toks, pos, p.1)),
{
    reveal(spec_function_declaration);
    if spec_function_declaration(toks, pos) is Ok {
        lemma_identifier_fringe(toks, pos + 1);
        let (name, p2) = spec_identifier(toks, pos + 1)->Ok_0;
        let p3 = p2 + 1;
        let (params, p4) = (if spec_peek(toks, p3).kind != TokenKindView::RightParen {
            spec_function_params(toks, at_least(p3, pos + 1))
        } else {
            Ok((Seq::empty(), p3))
        })->Ok_0;
        if spec_peek(toks, p3).kind != TokenKindView::RightParen {
            lemma_function_params_fringe(toks, p3);
        } else {
            assert(params_toks(Seq::<Seq<char>>::empty()) =~= Seq::<TokenKindView>::empty());
            assert(kinds_of(toks, p3, p3) =~= Seq::<TokenKindView>::empty());
        }
        let p5 = p4 + 1;
        lemma_function_body_fringe(toks, p5);
        let (body0, p6) = spec_function_body(toks, p5)->Ok_0;
        let inner = kinds_of(toks, p5 + 1, p6 - 1);
        let head = seq![
            TokenKindView::Function,
            TokenKindView::Identifier(name),
            TokenKindView::LeftParen,
        ] + params_toks(params) + seq![
            TokenKindView::RightParen,
            TokenKindView::LeftCurlyBrace,
        ];
        assert(params_toks(params) == kinds_of(toks, p3, p4));
        assert(head == fn_decl_head(name, params));
        assert(head + inner + seq![TokenKindView::RightCurlyBrace] =~= kinds_of(toks, pos, p6));
        let body = if body0.len() == 0 || !(body0.last() is Return) {
            body0.push(synthetic_return())
        } else {
            body0
        };
        assert(kinds_of(toks, pos, p6) == fn_decl_head(name, params) + inner + seq![
            TokenKindView::RightCurlyBrace,
        ]);
        if body0.len() == 0 || !(body0.last() is Return) {
            assert(body.drop_last() =~= body0);
            assert(stmts_match(body.drop_last(), inner));
            assert(fn_decl_matches(name, params, body.drop_last(), kinds_of(toks, pos, p6)));
            assert(stmt_matches(
                StmtView::FunctionDeclaration { name, params, body },
                kinds_of(toks, pos, p6),
            ));
        } else {
            assert(stmts_match(body, inner));
            assert(fn_decl_matches(name, params, body, kinds_of(toks, pos, p6)));
            assert(stmt_matches(
                StmtView::FunctionDeclaration { name, params, body },
                kinds_of(toks, pos, p6),
            ));
        }
    }
}

/// STATEMENT consumes exactly a statement run.
proof fn lemma_statement_fringe(toks: Seq<TokenView>, pos: int)
    requires
        wf_stream(toks),
        0 <= pos,
    ensures
        spec_statement(toks, pos) matches Ok(p) ==> pos < p.1 <= toks.len() && stmt_matches(
            p.0,
            kinds_of(toks, pos, p.1),
        ),
{
    match spec_peek(toks, pos).kind {
        TokenKindView::KeywordLet => {
            lemma_declaration_fringe(toks, pos);
        },
        TokenKindView::KeywordConst => {
            lemma_declaration_fringe(toks, pos);
        },
        TokenKindView::Function => {
            lemma_function_declaration_fringe(toks, pos);
        },
        TokenKindView::Return => {
            lemma_return_statement_fringe(toks, pos);
        },
        _ => {
            lemma_expression_statement_fringe(toks, pos);
        },
    }
}

proof fn lemma_program_fringe(
    toks: Seq<TokenView>,
    acc: Seq<StmtView>,
    pos: int,
    ats: Seq<TokenKindView>,
)
    requires
        wf_stream(toks),
        0 <= pos,
        stmts_match(acc, ats),
    ensures
        spec_program(toks, acc, pos) matches Ok(p) ==> pos <= p.1 < toks.len() && toks[p.1].kind
            == TokenKindView::Eof && stmts_match(p.0, ats + kinds_of(toks, pos, p.1)),
    decreases spec_rem(toks, pos),
{
    if pos >= toks.len() {
    } else if spec_peek(toks, pos).kind == TokenKindView::Eof {
        assert(kinds_of(toks, pos, pos) =~= Seq::<TokenKindView>::empty());
        assert(ats + Seq::<TokenKindView>::empty() =~= ats);
    } else {
        match spec_statement(toks, pos) {
            Err(e) => {},
            Ok((st, p2)) => {
                lemma_statement_fringe(toks, pos);
                lemma_stmts_match_push(acc, ats, st, kinds_of(toks, pos, p2));
                lemma_program_fringe(toks, acc.push(st), p2, ats + kinds_of(toks, pos, p2));
                if spec_program(toks, acc.push(st), p2) is Ok {
                    let p = spec_program(toks, acc.push(st), p2)->Ok_0.1;
                    lemma_kinds_concat(toks, pos, p2, p);
                    assert((ats + kinds_of(toks, pos, p2)) + kinds_of(toks, p2, p) =~= ats
                        + kinds_of(toks, pos, p));
                }
            },
        }
    }
}

/// The parser reads the tokens back in the order the tokenizer emitted
/// them: a parsed program's statements match, run by run and depth
/// first, exactly the token kinds up to the `Eof` sentinel the parse
/// stopped at.
pub proof fn lemma_parse_fringe(toks: Seq<TokenView>)
    requires
        wf_stream(toks),
        spec_parse(toks) is Ok,
    ensures
        exists|p: int|
            0 <= p < toks.len() && toks[p].kind == TokenKindView::Eof && stmts_match(
                spec_parse(toks)->Ok_0,
                kinds_of(toks, 0, p),
            ),
{
    assert(stmts_match(Seq::<StmtView>::empty(), Seq::<TokenKindView>::empty()));
    lemma_program_fringe(toks, Seq::empty(), 0, Seq::empty());
    let p = spec_program(toks, Seq::empty(), 0)->Ok_0.1;
    assert(Seq::<TokenKindView>::empty() + kinds_of(toks, 0, p) =~= kinds_of(toks, 0, p));
    assert(0 <= p < toks.len() && toks[p].kind == TokenKindView::Eof && stmts_match(
        spec_parse(toks)->Ok_0,
        kinds_of(toks, 0, p),
    ));
}

} // verus!
