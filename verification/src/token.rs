//! Tokens: literal values, token kinds, and the token itself.
//!
//! Each executable type has a mathematical view (`ValueView`,
//! `TokenKindView`, `TokenView`) over `Seq<char>` and plain values;
//! every contract in the library speaks of those views.

use vstd::prelude::*;

verus! {

/// A literal value as it appears in source text.  Numbers carry the
/// IEEE-754 binary64 bit pattern of their value.
#[derive(Debug, Clone, PartialEq)]
pub enum Literal {
    Number(u64),
    String(String),
    Boolean(bool),
    Null,
    Undefined,
}

/// The mathematical view of a `Literal` (and of a runtime value, which
/// mirrors it).
pub enum ValueView {
    Number(u64),
    String(Seq<char>),
    Boolean(bool),
    Null,
    Undefined,
}

impl View for Literal {
    type V = ValueView;

    open spec fn view(&self) -> ValueView {
        match self {
            Literal::Number(b) => ValueView::Number(*b),
            Literal::String(s) => ValueView::String(s@),
            Literal::Boolean(b) => ValueView::Boolean(*b),
            Literal::Null => ValueView::Null,
            Literal::Undefined => ValueView::Undefined,
        }
    }
}

/// The kind of a token.
#[derive(Debug, Clone, PartialEq)]
pub enum TokenType {
    LeftParen,
    RightParen,
    LeftCurlyBrace,
    RightCurlyBrace,
    Plus,
    Minus,
    Star,
    Slash,
    Assign,
    Comma,
    Equal,
    NotEqual,
    StrictEqual,
    StrictNotEqual,
    GreaterThan,
    LessThan,
    GreaterThanOrEqual,
    LessThanOrEqual,
    Literal(Literal),
    KeywordLet,
    KeywordConst,
    Function,
    Return,
    Identifier(String),
    Unsupported(char),
    Semicolon,
    Eof,
}

/// The mathematical view of a `TokenType`.
pub enum TokenKindView {
    LeftParen,
    RightParen,
    LeftCurlyBrace,
    RightCurlyBrace,
    Plus,
    Minus,
    Star,
    Slash,
    Assign,
    Comma,
    Equal,
    NotEqual,
    StrictEqual,
    StrictNotEqual,
    GreaterThan,
    LessThan,
    GreaterThanOrEqual,
    LessThanOrEqual,
    Literal(ValueView),
    KeywordLet,
    KeywordConst,
    Function,
    Return,
    Identifier(Seq<char>),
    Unsupported(char),
    Semicolon,
    Eof,
}

impl View for TokenType {
    type V = TokenKindView;

    open spec fn view(&self) -> TokenKindView {
        match self {
            TokenType::LeftParen => TokenKindView::LeftParen,
            TokenType::RightParen => TokenKindView::RightParen,
            TokenType::LeftCurlyBrace => TokenKindView::LeftCurlyBrace,
            TokenType::RightCurlyBrace => TokenKindView::RightCurlyBrace,
            TokenType::Plus => TokenKindView::Plus,
            TokenType::Minus => TokenKindView::Minus,
            TokenType::Star => TokenKindView::Star,
            TokenType::Slash => TokenKindView::Slash,
            TokenType::Assign => TokenKindView::Assign,
            TokenType::Comma => TokenKindView::Comma,
            TokenType::Equal => TokenKindView::Equal,
            TokenType::NotEqual => TokenKindView::NotEqual,
            TokenType::StrictEqual => TokenKindView::StrictEqual,
            TokenType::StrictNotEqual => TokenKindView::StrictNotEqual,
            TokenType::GreaterThan => TokenKindView::GreaterThan,
            TokenType::LessThan => TokenKindView::LessThan,
            TokenType::GreaterThanOrEqual => TokenKindView::GreaterThanOrEqual,
            TokenType::LessThanOrEqual => TokenKindView::LessThanOrEqual,
            TokenType::Literal(l) => TokenKindView::Literal(l@),
            TokenType::KeywordLet => TokenKindView::KeywordLet,
            TokenType::KeywordConst => TokenKindView::KeywordConst,
            TokenType::Function => TokenKindView::Function,
            TokenType::Return => TokenKindView::Return,
            TokenType::Identifier(s) => TokenKindView::Identifier(s@),
            TokenType::Unsupported(c) => TokenKindView::Unsupported(*c),
            TokenType::Semicolon => TokenKindView::Semicolon,
            TokenType::Eof => TokenKindView::Eof,
        }
    }
}

/// True of the eight comparison operator kinds.
pub open spec fn spec_is_comparison(k: TokenKindView) -> bool {
    match k {
        TokenKindView::Equal
        | TokenKindView::NotEqual
        | TokenKindView::StrictEqual
        | TokenKindView::StrictNotEqual
        | TokenKindView::GreaterThan
        | TokenKindView::LessThan
        | TokenKindView::GreaterThanOrEqual
        | TokenKindView::LessThanOrEqual => true,
        _ => false,
    }
}

impl TokenType {
    /// True exactly of the eight comparison operators.
    pub fn is_comparison_operator(&self) -> (r: bool)
        ensures
            r == spec_is_comparison(self@),
    {
        match self {
            TokenType::Equal
            | TokenType::NotEqual
            | TokenType::StrictEqual
            | TokenType::StrictNotEqual
            | TokenType::GreaterThan
            | TokenType::LessThan
            | TokenType::GreaterThanOrEqual
            | TokenType::LessThanOrEqual => true,
            _ => false,
        }
    }
}

/// The kind a single character maps to when it is not part of a longer
/// token: punctuation, or `Unsupported`.
pub open spec fn spec_char_kind(c: char) -> TokenKindView {
    if c == '(' {
        TokenKindView::LeftParen
    } else if c == ')' {
        TokenKindView::RightParen
    } else if c == '+' {
        TokenKindView::Plus
    } else if c == '-' {
        TokenKindView::Minus
    } else if c == '*' {
        TokenKindView::Star
    } else if c == '/' {
        TokenKindView::Slash
    } else if c == '=' {
        TokenKindView::Assign
    } else if c == ';' {
        TokenKindView::Semicolon
    } else if c == '>' {
        TokenKindView::GreaterThan
    } else if c == '<' {
        TokenKindView::LessThan
    } else if c == '{' {
        TokenKindView::LeftCurlyBrace
    } else if c == '}' {
        TokenKindView::RightCurlyBrace
    } else if c == ',' {
        TokenKindView::Comma
    } else {
        TokenKindView::Unsupported(c)
    }
}

/// Maps a single character to its token kind.
pub fn token_type_of_char(c: char) -> (t: TokenType)
    ensures
        t@ == spec_char_kind(c),
{
    if c == '(' {
        TokenType::LeftParen
    } else if c == ')' {
        TokenType::RightParen
    } else if c == '+' {
        TokenType::Plus
    } else if c == '-' {
        TokenType::Minus
    } else if c == '*' {
        TokenType::Star
    } else if c == '/' {
        TokenType::Slash
    } else if c == '=' {
        TokenType::Assign
    } else if c == ';' {
        TokenType::Semicolon
    } else if c == '>' {
        TokenType::GreaterThan
    } else if c == '<' {
        TokenType::LessThan
    } else if c == '{' {
        TokenType::LeftCurlyBrace
    } else if c == '}' {
        TokenType::RightCurlyBrace
    } else if c == ',' {
        TokenType::Comma
    } else {
        TokenType::Unsupported(c)
    }
}

/// The kind an identifier-shaped word maps to: a keyword, a keyword
/// literal, or an identifier.
pub open spec fn spec_word_kind(s: Seq<char>) -> TokenKindView {
    if s == "let"@ {
        TokenKindView::KeywordLet
    } else if s == "const"@ {
        TokenKindView::KeywordConst
    } else if s == "true"@ {
        TokenKindView::Literal(ValueView::Boolean(true))
    } else if s == "false"@ {
        TokenKindView::Literal(ValueView::Boolean(false))
    } else if s == "null"@ {
        TokenKindView::Literal(ValueView::Null)
    } else if s == "undefined"@ {
        TokenKindView::Literal(ValueView::Undefined)
    } else if s == "function"@ {
        TokenKindView::Function
    } else if s == "return"@ {
        TokenKindView::Return
    } else {
        TokenKindView::Identifier(s)
    }
}

/// Maps an identifier-shaped word to its token kind, consuming the word.
pub fn token_type_of_word(word: String) -> (t: TokenType)
    ensures
        t@ == spec_word_kind(word@),
{
    if word == "let".to_owned() {
        TokenType::KeywordLet
    } else if word == "const".to_owned() {
        TokenType::KeywordConst
    } else if word == "true".to_owned() {
        TokenType::Literal(Literal::Boolean(true))
    } else if word == "false".to_owned() {
        TokenType::Literal(Literal::Boolean(false))
    } else if word == "null".to_owned() {
        TokenType::Literal(Literal::Null)
    } else if word == "undefined".to_owned() {
        TokenType::Literal(Literal::Undefined)
    } else if word == "function".to_owned() {
        TokenType::Function
    } else if word == "return".to_owned() {
        TokenType::Return
    } else {
        TokenType::Identifier(word)
    }
}

/// A token: a kind and the 1-based source line it starts on.
#[derive(Debug, Clone, PartialEq)]
pub struct Token {
    pub kind: TokenType,
    pub line: usize,
}

/// The mathematical view of a `Token`.
pub struct TokenView {
    pub kind: TokenKindView,
    pub line: nat,
}

impl View for Token {
    type V = TokenView;

    open spec fn view(&self) -> TokenView {
        TokenView { kind: self.kind@, line: self.line as nat }
    }
}

impl Token {
    pub fn new(kind: TokenType, line: usize) -> (t: Token)
        ensures
            t@.kind == kind@,
            t@.line == line as nat,
    {
        Token { kind, line }
    }
}

} // verus!
