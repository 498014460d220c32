//! The tokenizer: source characters to a token stream that ends in a
//! single `Eof` sentinel.
//!
//! `spec_tokenize` is the mathematical model of the whole scan; the
//! executable `Tokenizer` is proved to return exactly what the model
//! says, error cases included.  The scan skips whitespace, line
//! comments and nested block comments, munches comparison operators
//! maximally, and reads number, string, identifier and keyword tokens.

use vstd::prelude::*;
use crate::token::{Literal, Token, TokenType, TokenKindView, TokenView, ValueView};
use crate::token::{spec_char_kind, spec_word_kind, token_type_of_char, token_type_of_word};
use crate::num::double_of_decimal;
use crate::num::num_from_decimal;
use vstd::string::StrSliceExecFns;
use vstd::std_specs::iter::IteratorSpec;

verus! {

broadcast use vstd::string::axiom_spec_iter, vstd::string::next_postcondition;

/// Why a scan failed.
#[derive(Debug, Clone, Copy, PartialEq, Eq)]
pub enum TokenizeError {
    /// End of input before the closing quote of a string.
    UnterminatedString,
    /// End of input before a (possibly nested) block comment closed.
    UnterminatedComment,
    /// Numeric text that is not a decimal number.
    BadNumber,
}

/// Whitespace that the scanner skips.
pub open spec fn spec_is_ws(c: char) -> bool {
    c == ' ' || c == '\t' || c == '\r' || c == '\n'
}

/// An ASCII decimal digit.
pub open spec fn spec_is_digit(c: char) -> bool {
    48 <= c as int && c as int <= 57
}

/// A character that may continue an identifier: ASCII letters, digits,
/// and underscore.
pub open spec fn spec_is_ident_char(c: char) -> bool {
    (97 <= c as int && c as int <= 122) || (65 <= c as int && c as int <= 90)
        || spec_is_digit(c) || c == '_'
}

/// A character that may begin an identifier.
pub open spec fn spec_is_ident_start(c: char) -> bool {
    (97 <= c as int && c as int <= 122) || (65 <= c as int && c as int <= 90) || c == '_'
}

/// A quote character that begins a string literal.
pub open spec fn spec_is_quote(c: char) -> bool {
    c == '"' || c == '\'' || c == '`'
}

/// The line counter after consuming `c`: newlines advance it, and it
/// saturates at `usize::MAX`.
pub open spec fn spec_next_line(line: nat, c: char) -> nat {
    if c == '\n' && line < usize::MAX {
        line + 1
    } else {
        line
    }
}

/// The line counter after consuming `src[from .. to]`.
pub open spec fn spec_line_after(line: nat, src: Seq<char>, from: int, to: int) -> nat
    decreases to - from,
{
    if from >= to {
        line
    } else {
        spec_line_after(spec_next_line(line, src[from]), src, from + 1, to)
    }
}

/// The index of the newline that ends a line comment starting before
/// `pos`, or the length of the source if there is none.
pub open spec fn spec_line_comment_end(src: Seq<char>, pos: int) -> int
    decreases src.len() - pos,
{
    if pos < 0 || pos >= src.len() {
        src.len() as int
    } else if src[pos] == '\n' {
        pos
    } else {
        spec_line_comment_end(src, pos + 1)
    }
}

/// The index just past the first run of digits starting at `pos`.
pub open spec fn spec_digits_end(src: Seq<char>, pos: int) -> int
    decreases src.len() - pos,
{
    if pos < 0 || pos >= src.len() {
        pos
    } else if spec_is_digit(src[pos]) {
        spec_digits_end(src, pos + 1)
    } else {
        pos
    }
}

/// The index just past the identifier run starting at `pos`.
pub open spec fn spec_ident_end(src: Seq<char>, pos: int) -> int
    decreases src.len() - pos,
{
    if pos < 0 || pos >= src.len() {
        pos
    } else if spec_is_ident_char(src[pos]) {
        spec_ident_end(src, pos + 1)
    } else {
        pos
    }
}

/// The index of the closing quote `q` at or after `pos`, if any.
pub open spec fn spec_string_close(src: Seq<char>, pos: int, q: char) -> Option<int>
    decreases src.len() - pos,
{
    if pos < 0 || pos >= src.len() {
        None
    } else if src[pos] == q {
        Some(pos)
    } else {
        spec_string_close(src, pos + 1, q)
    }
}

/// Scans a block comment body from `pos` at the given nesting `depth`:
/// the position and line just past the comment, or `None` if the input
/// ends first.
pub open spec fn spec_block_comment_end(src: Seq<char>, pos: int, depth: int, line: nat) -> Option<
    (int, nat),
>
    decreases src.len() - pos,
{
    if depth <= 0 {
        Some((pos, line))
    } else if pos < 0 || pos >= src.len() {
        None
    } else if src[pos] == '/' && pos + 1 < src.len() && src[pos + 1] == '*' {
        spec_block_comment_end(src, pos + 2, depth + 1, line)
    } else if src[pos] == '*' && pos + 1 < src.len() && src[pos + 1] == '/' {
        spec_block_comment_end(src, pos + 2, depth - 1, line)
    } else {
        spec_block_comment_end(src, pos + 1, depth, spec_next_line(line, src[pos]))
    }
}

/// Maximal munch of a comparison operator at `pos`: the kind and its
/// width in characters.  Requires a following character to fire, as a
/// lone final `<`, `>`, `=` or `!` is handled by single-character
/// dispatch instead.
pub open spec fn spec_op_match(src: Seq<char>, pos: int) -> Option<(TokenKindView, int)> {
    if pos < 0 || pos + 1 >= src.len() {
        None
    } else {
        let c = src[pos];
        let n = src[pos + 1];
        if c == '>' && n == '=' {
            Some((TokenKindView::GreaterThanOrEqual, 2))
        } else if c == '<' && n == '=' {
            Some((TokenKindView::LessThanOrEqual, 2))
        } else if c == '<' {
            Some((TokenKindView::LessThan, 1))
        } else if c == '>' {
            Some((TokenKindView::GreaterThan, 1))
        } else if c == '!' && n == '=' {
            if pos + 2 < src.len() && src[pos + 2] == '=' {
                Some((TokenKindView::StrictNotEqual, 3))
            } else {
                Some((TokenKindView::NotEqual, 2))
            }
        } else if c == '=' && n == '=' {
            if pos + 2 < src.len() && src[pos + 2] == '=' {
                Some((TokenKindView::StrictEqual, 3))
            } else {
                Some((TokenKindView::Equal, 2))
            }
        } else {
            None
        }
    }
}

pub proof fn lemma_line_comment_end_bounds(src: Seq<char>, pos: int)
    requires
        0 <= pos <= src.len(),
    ensures
        pos <= spec_line_comment_end(src, pos) <= src.len(),
    decreases src.len() - pos,
{
    if pos < src.len() && src[pos] != '\n' {
        lemma_line_comment_end_bounds(src, pos + 1);
    }
}

pub proof fn lemma_digits_end_bounds(src: Seq<char>, pos: int)
    requires
        0 <= pos <= src.len(),
    ensures
        pos <= spec_digits_end(src, pos) <= src.len(),
    decreases src.len() - pos,
{
    if pos < src.len() && spec_is_digit(src[pos]) {
        lemma_digits_end_bounds(src, pos + 1);
    }
}

pub proof fn lemma_ident_end_bounds(src: Seq<char>, pos: int)
    requires
        0 <= pos <= src.len(),
    ensures
        pos <= spec_ident_end(src, pos) <= src.len(),
    decreases src.len() - pos,
{
    if pos < src.len() && spec_is_ident_char(src[pos]) {
        lemma_ident_end_bounds(src, pos + 1);
    }
}

pub proof fn lemma_string_close_bounds(src: Seq<char>, pos: int, q: char)
    requires
        0 <= pos <= src.len(),
        spec_string_close(src, pos, q) is Some,
    ensures
        pos <= spec_string_close(src, pos, q)->Some_0 < src.len(),
    decreases src.len() - pos,
{
    if pos < src.len() && src[pos] != q {
        lemma_string_close_bounds(src, pos + 1, q);
    }
}

pub proof fn lemma_block_comment_end_bounds(src: Seq<char>, pos: int, depth: int, line: nat)
    requires
        0 <= pos <= src.len(),
        spec_block_comment_end(src, pos, depth, line) is Some,
    ensures
        pos <= spec_block_comment_end(src, pos, depth, line)->Some_0.0 <= src.len(),
    decreases src.len() - pos,
{
    if depth <= 0 {
    } else if pos >= src.len() {
    } else if src[pos] == '/' && pos + 1 < src.len() && src[pos + 1] == '*' {
        lemma_block_comment_end_bounds(src, pos + 2, depth + 1, line);
    } else if src[pos] == '*' && pos + 1 < src.len() && src[pos + 1] == '/' {
        lemma_block_comment_end_bounds(src, pos + 2, depth - 1, line);
    } else {
        lemma_block_comment_end_bounds(src, pos + 1, depth, spec_next_line(line, src[pos]));
    }
}

/// One whole scan from `pos`, with the tokens emitted so far in `acc`:
/// the full token stream (ending in `Eof`), or the first error.
pub open spec fn spec_scan(src: Seq<char>, pos: int, line: nat, acc: Seq<TokenView>) -> Result<
    Seq<TokenView>,
    TokenizeError,
>
    decreases src.len() - pos,
    via spec_scan_decreases
{
    if pos < 0 || pos >= src.len() {
        Ok(acc.push(TokenView { kind: TokenKindView::Eof, line }))
    } else {
        let c = src[pos];
        if spec_is_ws(c) {
            spec_scan(src, pos + 1, spec_next_line(line, c), acc)
        } else if c == '/' && pos + 1 < src.len() && src[pos + 1] == '/' {
            let e = spec_line_comment_end(src, pos);
            if e < src.len() {
                spec_scan(src, e + 1, spec_next_line(line, '\n'), acc)
            } else {
                spec_scan(src, e, line, acc)
            }
        } else if c == '/' && pos + 1 < src.len() && src[pos + 1] == '*' {
            match spec_block_comment_end(src, pos + 2, 1, line) {
                None => Err(TokenizeError::UnterminatedComment),
                Some((p2, l2)) => spec_scan(src, p2, l2, acc),
            }
        } else if spec_op_match(src, pos) is Some {
            let (kind, width) = spec_op_match(src, pos)->Some_0;
            spec_scan(src, pos + width, line, acc.push(TokenView { kind, line }))
        } else if spec_is_digit(c) || c == '.' {
            let d1 = spec_digits_end(src, pos + 1);
            let fin = if d1 < src.len() && src[d1] == '.' {
                spec_digits_end(src, d1 + 1)
            } else {
                d1
            };
            let text_end = if src[fin - 1] == '.' {
                fin - 1
            } else {
                fin
            };
            match double_of_decimal(src.subrange(pos, text_end)) {
                Some(bits) => spec_scan(
                    src,
                    fin,
                    line,
                    acc.push(
                        TokenView { kind: TokenKindView::Literal(ValueView::Number(bits)), line },
                    ),
                ),
                None => Err(TokenizeError::BadNumber),
            }
        } else if spec_is_ident_start(c) {
            let e = spec_ident_end(src, pos);
            spec_scan(
                src,
                e,
                line,
                acc.push(TokenView { kind: spec_word_kind(src.subrange(pos, e)), line }),
            )
        } else if spec_is_quote(c) {
            match spec_string_close(src, pos + 1, c) {
                None => Err(TokenizeError::UnterminatedString),
                Some(close) => spec_scan(
                    src,
                    close + 1,
                    spec_line_after(line, src, pos + 1, close),
                    acc.push(
                        TokenView {
                            kind: TokenKindView::Literal(
                                ValueView::String(src.subrange(pos + 1, close)),
                            ),
                            line,
                        },
                    ),
                ),
            }
        } else {
            spec_scan(src, pos + 1, line, acc.push(TokenView { kind: spec_char_kind(c), line }))
        }
    }
}

#[via_fn]
proof fn spec_scan_decreases(src: Seq<char>, pos: int, line: nat, acc: Seq<TokenView>) {
    if 0 <= pos < src.len() {
        let c = src[pos];
        if c == '/' && pos + 1 < src.len() && src[pos + 1] == '/' {
            lemma_line_comment_end_bounds(src, pos + 1);
            assert(spec_line_comment_end(src, pos) == spec_line_comment_end(src, pos + 1));
        } else if c == '/' && pos + 1 < src.len() && src[pos + 1] == '*' {
            if spec_block_comment_end(src, pos + 2, 1, line) is Some {
                lemma_block_comment_end_bounds(src, pos + 2, 1, line);
            }
        } else if spec_op_match(src, pos) is Some {
        } else if spec_is_digit(c) || c == '.' {
            lemma_digits_end_bounds(src, pos + 1);
            let d1 = spec_digits_end(src, pos + 1);
            if d1 < src.len() && src[d1] == '.' {
                lemma_digits_end_bounds(src, d1 + 1);
            }
        } else if spec_is_ident_start(c) {
            lemma_ident_end_bounds(src, pos + 1);
            assert(spec_ident_end(src, pos) == spec_ident_end(src, pos + 1));
        } else if spec_is_quote(c) {
            if spec_string_close(src, pos + 1, c) is Some {
                lemma_string_close_bounds(src, pos + 1, c);
            }
        }
    }
}

/// The model of the whole tokenizer on a source text.
pub open spec fn spec_tokenize(src: Seq<char>) -> Result<Seq<TokenView>, TokenizeError> {
    spec_scan(src, 0, 1, Seq::empty())
}

/// Every successful scan extends the accumulator by at least the
/// final `Eof`, changes nothing before it, and emits no `Eof` until
/// the very last token.
pub proof fn lemma_scan_shape(src: Seq<char>, pos: int, line: nat, acc: Seq<TokenView>)
    requires
        spec_scan(src, pos, line, acc) is Ok,
    ensures
        ({
            let ts = spec_scan(src, pos, line, acc)->Ok_0;
            &&& ts.len() > acc.len()
            &&& forall|i: int| 0 <= i < acc.len() ==> ts[i] == acc[i]
            &&& forall|i: int|
                acc.len() <= i < ts.len() - 1 ==> #[trigger] ts[i].kind != TokenKindView::Eof
            &&& ts[ts.len() - 1].kind == TokenKindView::Eof
        }),
    decreases src.len() - pos,
{
    if pos < 0 || pos >= src.len() {
    } else {
        let c = src[pos];
        if spec_is_ws(c) {
            lemma_scan_shape(src, pos + 1, spec_next_line(line, c), acc);
        } else if c == '/' && pos + 1 < src.len() && src[pos + 1] == '/' {
            lemma_line_comment_end_bounds(src, pos + 1);
            assert(spec_line_comment_end(src, pos) == spec_line_comment_end(src, pos + 1));
            let e = spec_line_comment_end(src, pos);
            if e < src.len() {
                lemma_scan_shape(src, e + 1, spec_next_line(line, '\n'), acc);
            } else {
                lemma_scan_shape(src, e, line, acc);
            }
        } else if c == '/' && pos + 1 < src.len() && src[pos + 1] == '*' {
            lemma_block_comment_end_bounds(src, pos + 2, 1, line);
            let (p2, l2) = spec_block_comment_end(src, pos + 2, 1, line)->Some_0;
            lemma_scan_shape(src, p2, l2, acc);
        } else if spec_op_match(src, pos) is Some {
            let (kind, width) = spec_op_match(src, pos)->Some_0;
            lemma_scan_shape(src, pos + width, line, acc.push(TokenView { kind, line }));
        } else if spec_is_digit(c) || c == '.' {
            lemma_digits_end_bounds(src, pos + 1);
            let d1 = spec_digits_end(src, pos + 1);
            if d1 < src.len() && src[d1] == '.' {
                lemma_digits_end_bounds(src, d1 + 1);
            }
            let fin = if d1 < src.len() && src[d1] == '.' {
                spec_digits_end(src, d1 + 1)
            } else {
                d1
            };
            let text_end = if src[fin - 1] == '.' {
                fin - 1
            } else {
                fin
            };
            let bits = double_of_decimal(src.subrange(pos, text_end))->Some_0;
            lemma_scan_shape(
                src,
                fin,
                line,
                acc.push(
                    TokenView { kind: TokenKindView::Literal(ValueView::Number(bits)), line },
                ),
            );
        } else if spec_is_ident_start(c) {
            lemma_ident_end_bounds(src, pos + 1);
            assert(spec_ident_end(src, pos) == spec_ident_end(src, pos + 1));
            let e = spec_ident_end(src, pos);
            lemma_scan_shape(
                src,
                e,
                line,
                acc.push(TokenView { kind: spec_word_kind(src.subrange(pos, e)), line }),
            );
        } else if spec_is_quote(c) {
            lemma_string_close_bounds(src, pos + 1, c);
            let close = spec_string_close(src, pos + 1, c)->Some_0;
            lemma_scan_shape(
                src,
                close + 1,
                spec_line_after(line, src, pos + 1, close),
                acc.push(
                    TokenView {
                        kind: TokenKindView::Literal(ValueView::String(src.subrange(pos + 1, close))),
                        line,
                    },
                ),
            );
        } else {
            lemma_scan_shape(
                src,
                pos + 1,
                line,
                acc.push(TokenView { kind: spec_char_kind(c), line }),
            );
        }
    }
}

/// For every source the scan accepts, the token stream ends in exactly
/// one `Eof`: the last token is `Eof` and no earlier token is.
pub proof fn lemma_tokenize_one_eof(src: Seq<char>)
    requires
        spec_tokenize(src) is Ok,
    ensures
        ({
            let ts = spec_tokenize(src)->Ok_0;
            &&& ts.len() >= 1
            &&& ts[ts.len() - 1].kind == TokenKindView::Eof
            &&& forall|i: int|
                0 <= i < ts.len() - 1 ==> #[trigger] ts[i].kind != TokenKindView::Eof
        }),
{
    lemma_scan_shape(src, 0, 1, Seq::empty());
}

/// The views of a sequence of tokens.
pub open spec fn token_views(ts: Seq<Token>) -> Seq<TokenView> {
    ts.map_values(|t: Token| t@)
}

pub proof fn lemma_line_after_snoc(line: nat, src: Seq<char>, from: int, to: int)
    requires
        from <= to,
    ensures
        spec_line_after(line, src, from, to + 1) == spec_next_line(
            spec_line_after(line, src, from, to),
            src[to],
        ),
    decreases to - from,
{
    if from < to {
        lemma_line_after_snoc(spec_next_line(line, src[from]), src, from + 1, to);
    } else {
        assert(spec_line_after(line, src, from, to + 1) == spec_line_after(
            spec_next_line(line, src[from]),
            src,
            from + 1,
            to + 1,
        ));
        assert(spec_line_after(spec_next_line(line, src[from]), src, from + 1, to + 1)
            == spec_next_line(line, src[from]));
    }
}

/// Collects the characters of a string slice.
pub(crate) fn chars_of(s: &str) -> (v: Vec<char>)
    ensures
        v@ == s@,
{
    let mut v: Vec<char> = Vec::new();
    let mut it = s.chars();
    let mut done = false;
    while !done
        invariant
            v@ + it.remaining() == s@,
            done ==> it.remaining().len() == 0,
        decreases s@.len() - v@.len(), (if done { 0int } else { 1int }),
    {
        match it.next() {
            Some(c) => { v.push(c); },
            None => { done = true; },
        }
    }
    proof {
        assert(v@ =~= s@);
    }
    v
}

/// A comment opener: a line comment or a (nestable) block comment.
#[derive(Debug, Clone, Copy, PartialEq, Eq)]
pub enum CommentType {
    Line,
    Block,
}

/// The tokenizer: a cursor over the source characters, with the
/// 1-based line of the cursor.
pub struct Tokenizer {
    /// The source text, kept for extracting literal and identifier text.
    pub text: String,
    /// The source as a sequence of characters.
    pub source: Vec<char>,
    /// The cursor.
    pub position: usize,
    /// The 1-based line the cursor is on (saturating).
    pub line: usize,
}

impl Tokenizer {
    /// The characters and the cursor agree: `source` spells `text` and
    /// the cursor is within bounds.
    pub open spec fn wf(&self) -> bool {
        self.source@ == self.text@ && self.position <= self.source.len()
    }

    pub fn new(source: String) -> (t: Tokenizer)
        ensures
            t.wf(),
            t.source@ == source@,
            t.position == 0,
            t.line == 1,
    {
        let chars = chars_of(source.as_str());
        Tokenizer { text: source, source: chars, position: 0, line: 1 }
    }

    /// Whether the character at `position` is whitespace.
    pub fn is_whitespace(&self, position: usize) -> (r: bool)
        requires
            position < self.source.len(),
        ensures
            r == spec_is_ws(self.source@[position as int]),
    {
        let c = self.source[position];
        c == '\n' || c == ' ' || c == '\t' || c == '\r'
    }

    /// Whether the cursor has passed the last character.
    pub fn is_end(&self) -> (r: bool)
        ensures
            r == (self.position >= self.source.len()),
    {
        self.position >= self.source.len()
    }

    /// Moves the cursor one character forward.
    pub fn increment_position(&mut self)
        requires
            old(self).position < old(self).source.len(),
        ensures
            final(self).position == old(self).position + 1,
            final(self).source == old(self).source,
            final(self).text == old(self).text,
            final(self).line == old(self).line,
    {
        self.position += 1;
    }

    /// Advances the line counter over `c` (saturating on newline).
    fn note_char_line(&mut self, c: char)
        ensures
            final(self).line as nat == spec_next_line(old(self).line as nat, c),
            final(self).source == old(self).source,
            final(self).text == old(self).text,
            final(self).position == old(self).position,
    {
        if c == '\n' && self.line < usize::MAX {
            self.line += 1;
        }
    }

    /// The character under the cursor.
    pub fn peek(&self) -> (c: char)
        requires
            self.position < self.source.len(),
        ensures
            c == self.source@[self.position as int],
    {
        self.source[self.position]
    }

    /// The character after the cursor, if any.
    pub fn peek_next(&self) -> (c: Option<char>)
        requires
            self.position < self.source.len(),
        ensures
            c == if self.position + 1 < self.source.len() {
                Some(self.source@[self.position + 1])
            } else {
                None::<char>
            },
    {
        if self.source.len() <= self.position + 1 {
            return None;
        }
        Some(self.source[self.position + 1])
    }

    /// Whether a comment starts at the cursor, and of which kind.
    pub fn is_comment(&self) -> (r: Option<CommentType>)
        requires
            self.position < self.source.len(),
        ensures
            ({
                let src = self.source@;
                let pos = self.position as int;
                if src[pos] == '/' && pos + 1 < src.len() && src[pos + 1] == '/' {
                    r == Some(CommentType::Line)
                } else if src[pos] == '/' && pos + 1 < src.len() && src[pos + 1] == '*' {
                    r == Some(CommentType::Block)
                } else {
                    r is None
                }
            }),
    {
        let c = self.peek();
        let c_next = match self.peek_next() {
            Some(c) => c,
            None => { return None; },
        };
        if c == '/' {
            if c_next == '/' {
                return Some(CommentType::Line);
            }
            if c_next == '*' {
                return Some(CommentType::Block);
            }
        }
        None
    }

    /// Skips a line comment: everything up to and including the next
    /// newline (or to the end of input).
    pub fn skip_line_comment(&mut self)
        requires
            old(self).wf(),
        ensures
            final(self).wf(),
            final(self).source == old(self).source,
            final(self).text == old(self).text,
            ({
                let src = old(self).source@;
                let e = spec_line_comment_end(src, old(self).position as int);
                if e < src.len() {
                    final(self).position == e + 1 && final(self).line as nat == spec_next_line(
                        old(self).line as nat,
                        '\n',
                    )
                } else {
                    final(self).position == e && final(self).line == old(self).line
                }
            }),
            old(self).position <= final(self).position,
            old(self).position < old(self).source.len() ==> old(self).position
                < final(self).position,
    {
        while self.position < self.source.len() && self.source[self.position] != '\n'
            invariant
                self.wf(),
                self.source == old(self).source,
                self.text == old(self).text,
                self.line == old(self).line,
                old(self).position <= self.position,
                spec_line_comment_end(self.source@, old(self).position as int)
                    == spec_line_comment_end(self.source@, self.position as int),
            decreases self.source.len() - self.position,
        {
            self.position += 1;
        }
        if self.position < self.source.len() {
            self.note_char_line('\n');
            self.position += 1;
        }
    }

    /// Skips a block comment, honouring nesting; fails when the input
    /// ends before the comment closes.
    pub fn skip_block_comment(&mut self) -> (r: Result<(), TokenizeError>)
        requires
            old(self).wf(),
            old(self).position + 1 < old(self).source.len(),
            old(self).source@[old(self).position as int] == '/',
            old(self).source@[old(self).position + 1] == '*',
        ensures
            final(self).wf(),
            final(self).source == old(self).source,
            final(self).text == old(self).text,
            ({
                let src = old(self).source@;
                match spec_block_comment_end(
                    src,
                    old(self).position + 2,
                    1,
                    old(self).line as nat,
                ) {
                    Some((p2, l2)) => r is Ok && final(self).position == p2 && final(self).line as nat == l2,
                    None => r == Err::<(), TokenizeError>(TokenizeError::UnterminatedComment),
                }
            }),
            old(self).position + 2 <= final(self).position,
    {
        self.position += 2;
        let mut depth: usize = 1;
        while depth > 0 && self.position < self.source.len()
            invariant
                self.wf(),
                self.source == old(self).source,
                self.text == old(self).text,
                depth <= self.position,
                old(self).position + 2 <= self.position,
                spec_block_comment_end(
                    self.source@,
                    old(self).position + 2,
                    1,
                    old(self).line as nat,
                ) == spec_block_comment_end(
                    self.source@,
                    self.position as int,
                    depth as int,
                    self.line as nat,
                ),
            decreases self.source.len() - self.position,
        {
            let c = self.peek();
            let n = self.peek_next();
            let star_next = match n {
                Some(x) => x == '*',
                None => false,
            };
            let slash_next = match n {
                Some(x) => x == '/',
                None => false,
            };
            if c == '/' && star_next {
                self.position += 2;
                depth += 1;
            } else if c == '*' && slash_next {
                self.position += 2;
                depth -= 1;
            } else {
                self.note_char_line(c);
                self.position += 1;
            }
        }
        if depth != 0 {
            return Err(TokenizeError::UnterminatedComment);
        }
        Ok(())
    }

    /// Reads an identifier or keyword starting at the cursor.
    fn consume_identifier(&mut self) -> (t: Token)
        requires
            old(self).wf(),
            old(self).position < old(self).source.len(),
            spec_is_ident_start(old(self).source@[old(self).position as int]),
        ensures
            final(self).wf(),
            final(self).source == old(self).source,
            final(self).text == old(self).text,
            final(self).line == old(self).line,
            ({
                let src = old(self).source@;
                let e = spec_ident_end(src, old(self).position as int);
                final(self).position == e && t@.kind == spec_word_kind(
                    src.subrange(old(self).position as int, e),
                ) && t@.line == old(self).line as nat
            }),
            old(self).position < final(self).position,
    {
        let start = self.position;
        while self.position < self.source.len() && is_ident_char(self.source[self.position])
            invariant
                self.wf(),
                self.source == old(self).source,
                self.text == old(self).text,
                self.line == old(self).line,
                start <= self.position,
                spec_ident_end(self.source@, start as int) == spec_ident_end(
                    self.source@,
                    self.position as int,
                ),
            decreases self.source.len() - self.position,
        {
            self.position += 1;
        }
        let word = self.text.as_str().substring_char(start, self.position).to_owned();
        Token::new(token_type_of_word(word), self.line)
    }

    /// Reads a string literal starting at the quote under the cursor;
    /// fails when the input ends before the matching closing quote.
    fn consume_string(&mut self) -> (r: Result<Token, TokenizeError>)
        requires
            old(self).wf(),
            old(self).position < old(self).source.len(),
            spec_is_quote(old(self).source@[old(self).position as int]),
        ensures
            final(self).wf(),
            final(self).source == old(self).source,
            final(self).text == old(self).text,
            ({
                let src = old(self).source@;
                let pos = old(self).position as int;
                let q = src[pos];
                match spec_string_close(src, pos + 1, q) {
                    None => r == Err::<Token, TokenizeError>(TokenizeError::UnterminatedString),
                    Some(close) => r matches Ok(t) && t@.kind == TokenKindView::Literal(
                        ValueView::String(src.subrange(pos + 1, close)),
                    ) && t@.line == old(self).line as nat && final(self).position == close + 1
                        && final(self).line as nat == spec_line_after(
                        old(self).line as nat,
                        src,
                        pos + 1,
                        close,
                    ),
                }
            }),
            old(self).position < final(self).position,
    {
        let quote = self.peek();
        let start = self.position;
        let start_line = self.line;
        self.position += 1;
        while self.position < self.source.len() && self.source[self.position] != quote
            invariant
                self.wf(),
                self.source == old(self).source,
                self.text == old(self).text,
                start + 1 <= self.position,
                quote == self.source@[start as int],
                start < self.source.len(),
                start_line == old(self).line,
                spec_string_close(self.source@, start + 1, quote) == spec_string_close(
                    self.source@,
                    self.position as int,
                    quote,
                ),
                self.line as nat == spec_line_after(
                    old(self).line as nat,
                    self.source@,
                    start + 1,
                    self.position as int,
                ),
            decreases self.source.len() - self.position,
        {
            let c = self.peek();
            proof {
                lemma_line_after_snoc(
                    old(self).line as nat,
                    self.source@,
                    start + 1,
                    self.position as int,
                );
            }
            self.note_char_line(c);
            self.position += 1;
        }
        if self.position >= self.source.len() {
            return Err(TokenizeError::UnterminatedString);
        }
        let close = self.position;
        let content = self.text.as_str().substring_char(start + 1, close).to_owned();
        self.position += 1;
        Ok(Token::new(TokenType::Literal(Literal::String(content)), start_line))
    }

    /// Reads a number literal starting at the digit or dot under the
    /// cursor; a trailing dot is dropped from the literal text; text
    /// that is not a decimal number fails.
    fn consume_number(&mut self) -> (r: Result<Token, TokenizeError>)
        requires
            old(self).wf(),
            old(self).position < old(self).source.len(),
            spec_is_digit(old(self).source@[old(self).position as int]) || old(
                self,
            ).source@[old(self).position as int] == '.',
        ensures
            final(self).wf(),
            final(self).source == old(self).source,
            final(self).text == old(self).text,
            final(self).line == old(self).line,
            ({
                let src = old(self).source@;
                let pos = old(self).position as int;
                let d1 = spec_digits_end(src, pos + 1);
                let fin = if d1 < src.len() && src[d1] == '.' {
                    spec_digits_end(src, d1 + 1)
                } else {
                    d1
                };
                let text_end = if src[fin - 1] == '.' {
                    fin - 1
                } else {
                    fin
                };
                final(self).position == fin && match double_of_decimal(src.subrange(pos, text_end)) {
                    Some(bits) => r matches Ok(t) && t@.kind == TokenKindView::Literal(
                        ValueView::Number(bits),
                    ) && t@.line == old(self).line as nat,
                    None => r == Err::<Token, TokenizeError>(TokenizeError::BadNumber),
                }
            }),
            old(self).position < final(self).position,
    {
        let start = self.position;
        self.position += 1;
        while self.position < self.source.len() && is_digit_char(self.source[self.position])
            invariant
                self.wf(),
                self.source == old(self).source,
                self.text == old(self).text,
                self.line == old(self).line,
                start + 1 <= self.position,
                spec_digits_end(self.source@, start + 1) == spec_digits_end(
                    self.source@,
                    self.position as int,
                ),
            decreases self.source.len() - self.position,
        {
            self.position += 1;
        }
        let d1 = self.position;
        if d1 < self.source.len() && self.source[d1] == '.' {
            self.position += 1;
            while self.position < self.source.len() && is_digit_char(self.source[self.position])
                invariant
                    self.wf(),
                    self.source == old(self).source,
                    self.text == old(self).text,
                    self.line == old(self).line,
                    d1 + 1 <= self.position,
                    spec_digits_end(self.source@, d1 + 1) == spec_digits_end(
                        self.source@,
                        self.position as int,
                    ),
                decreases self.source.len() - self.position,
            {
                self.position += 1;
            }
        }
        let fin = self.position;
        let text_end = if self.source[fin - 1] == '.' {
            fin - 1
        } else {
            fin
        };
        let num_text = self.text.as_str().substring_char(start, text_end);
        match num_from_decimal(num_text) {
            Some(bits) => Ok(Token::new(TokenType::Literal(Literal::Number(bits)), self.line)),
            None => Err(TokenizeError::BadNumber),
        }
    }

    /// Reads a comparison operator at the cursor with maximal munch,
    /// or leaves the cursor alone.
    fn consume_if_comparison_operator(&mut self) -> (r: Option<Token>)
        requires
            old(self).wf(),
            old(self).position < old(self).source.len(),
        ensures
            final(self).wf(),
            final(self).source == old(self).source,
            final(self).text == old(self).text,
            final(self).line == old(self).line,
            ({
                let src = old(self).source@;
                let pos = old(self).position as int;
                match spec_op_match(src, pos) {
                    None => r is None && final(self).position == old(self).position,
                    Some((kind, width)) => r matches Some(t) && t@.kind == kind && t@.line == old(
                        self,
                    ).line as nat && final(self).position == pos + width,
                }
            }),
            old(self).position <= final(self).position,
    {
        let c = self.peek();
        let n = match self.peek_next() {
            Some(x) => x,
            None => { return None; },
        };
        if c == '>' && n == '=' {
            self.position += 2;
            Some(Token::new(TokenType::GreaterThanOrEqual, self.line))
        } else if c == '<' && n == '=' {
            self.position += 2;
            Some(Token::new(TokenType::LessThanOrEqual, self.line))
        } else if c == '<' {
            self.position += 1;
            Some(Token::new(TokenType::LessThan, self.line))
        } else if c == '>' {
            self.position += 1;
            Some(Token::new(TokenType::GreaterThan, self.line))
        } else if c == '!' && n == '=' {
            if self.position + 2 < self.source.len() && self.source[self.position + 2] == '=' {
                self.position += 3;
                Some(Token::new(TokenType::StrictNotEqual, self.line))
            } else {
                self.position += 2;
                Some(Token::new(TokenType::NotEqual, self.line))
            }
        } else if c == '=' && n == '=' {
            if self.position + 2 < self.source.len() && self.source[self.position + 2] == '=' {
                self.position += 3;
                Some(Token::new(TokenType::StrictEqual, self.line))
            } else {
                self.position += 2;
                Some(Token::new(TokenType::Equal, self.line))
            }
        } else {
            None
        }
    }

    /// Scans the whole source into tokens, ending with a single `Eof`;
    /// returns exactly what the model `spec_scan` says from the
    /// cursor's starting state.
    pub fn tokenize(&mut self) -> (r: Result<Vec<Token>, TokenizeError>)
        requires
            old(self).wf(),
        ensures
            final(self).wf(),
            final(self).source == old(self).source,
            final(self).text == old(self).text,
            ({
                let m = spec_scan(
                    old(self).source@,
                    old(self).position as int,
                    old(self).line as nat,
                    Seq::empty(),
                );
                match r {
                    Ok(ts) => m == Ok::<Seq<TokenView>, TokenizeError>(token_views(ts@)),
                    Err(e) => m == Err::<Seq<TokenView>, TokenizeError>(e),
                }
            }),
    {
        let mut tokens: Vec<Token> = Vec::new();
        proof {
            assert(token_views(tokens@) =~= Seq::<TokenView>::empty());
        }
        while !self.is_end()
            invariant
                self.wf(),
                self.source == old(self).source,
                self.text == old(self).text,
                spec_scan(
                    old(self).source@,
                    old(self).position as int,
                    old(self).line as nat,
                    Seq::empty(),
                ) == spec_scan(
                    self.source@,
                    self.position as int,
                    self.line as nat,
                    token_views(tokens@),
                ),
            decreases self.source.len() - self.position,
        {
            let ghost prev_views = token_views(tokens@);
            let c = self.peek();
            if self.is_whitespace(self.position) {
                self.note_char_line(c);
                self.position += 1;
            } else if let Some(comment_type) = self.is_comment() {
                match comment_type {
                    CommentType::Line => {
                        self.skip_line_comment();
                    },
                    CommentType::Block => {
                        if let Err(e) = self.skip_block_comment() {
                            return Err(e);
                        }
                    },
                }
            } else if let Some(token) = self.consume_if_comparison_operator() {
                tokens.push(token);
                proof {
                    assert(token_views(tokens@) =~= prev_views.push(token@));
                }
            } else if is_digit_char(self.source[self.position]) || c == '.' {
                match self.consume_number() {
                    Ok(token) => {
                        tokens.push(token);
                        proof {
                            assert(token_views(tokens@) =~= prev_views.push(token@));
                        }
                    },
                    Err(e) => { return Err(e); },
                }
            } else if is_ident_start_char(c) {
                let token = self.consume_identifier();
                tokens.push(token);
                proof {
                    assert(token_views(tokens@) =~= prev_views.push(token@));
                }
            } else if c == '"' || c == '\'' || c == '`' {
                match self.consume_string() {
                    Ok(token) => {
                        tokens.push(token);
                        proof {
                            assert(token_views(tokens@) =~= prev_views.push(token@));
                        }
                    },
                    Err(e) => { return Err(e); },
                }
            } else {
                let token = Token::new(token_type_of_char(c), self.line);
                tokens.push(token);
                self.position += 1;
                proof {
                    assert(token_views(tokens@) =~= prev_views.push(token@));
                }
            }
        }
        let ghost body_views = token_views(tokens@);
        let eof = Token::new(TokenType::Eof, self.line);
        proof {
            assert(spec_scan(self.source@, self.position as int, self.line as nat, body_views)
                == Ok::<Seq<TokenView>, TokenizeError>(
                body_views.push(TokenView { kind: TokenKindView::Eof, line: self.line as nat }),
            ));
        }
        tokens.push(eof);
        proof {
            assert(token_views(tokens@) =~= body_views.push(eof@));
        }
        Ok(tokens)
    }
}

/// Whether `c` is an ASCII decimal digit.
fn is_digit_char(c: char) -> (r: bool)
    ensures
        r == spec_is_digit(c),
{
    let u = c as u32;
    proof {
        assert(u == c as int);
    }
    48 <= u && u <= 57
}

/// Whether `c` may continue an identifier.
fn is_ident_char(c: char) -> (r: bool)
    ensures
        r == spec_is_ident_char(c),
{
    let u = c as u32;
    proof {
        assert(u == c as int);
    }
    (97 <= u && u <= 122) || (65 <= u && u <= 90) || (48 <= u && u <= 57) || c == '_'
}

/// Whether `c` may begin an identifier.
fn is_ident_start_char(c: char) -> (r: bool)
    ensures
        r == spec_is_ident_start(c),
{
    let u = c as u32;
    proof {
        assert(u == c as int);
    }
    (97 <= u && u <= 122) || (65 <= u && u <= 90) || c == '_'
}

} // verus!
