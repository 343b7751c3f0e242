//! Tokens, byte spans, and token records: the data the tokenizer produces.

use vstd::prelude::*;

verus! {

/// A half-open byte range `[start, end)` into the original source text.
#[derive(Clone, Copy, PartialEq, Eq, Structural, Debug)]
pub struct Span {
    pub start: usize,
    pub end: usize,
}

/// The explanation attached to a lexical error that carries one.
#[derive(Clone, Copy, PartialEq, Eq, Structural, Debug)]
pub enum LexMsg {
    /// An opening double quote with no matching closing quote before
    /// the end of the source.
    UnclosedString,
}

impl LexMsg {
    /// The human-readable text of the message.
    pub fn text(&self) -> (r: &'static str)
        ensures
            self is UnclosedString ==> r@ == "unterminated string literal"@,
    {
        match self {
            LexMsg::UnclosedString => "unterminated string literal",
        }
    }
}

/// Lexical category of a token of the pattern language.
#[derive(Clone, Copy, PartialEq, Eq, Structural, Debug)]
pub enum Token {
    OpenParen,
    CloseParen,
    OpenBracket,
    CloseBracket,
    Pipe,
    Star,
    Plus,
    QuestionMark,
    /// A single literal character: an ASCII letter or digit.
    Char,
    /// A double-quoted string literal, quotes included in the span.
    StringLiteral,
    /// Sentinel for a malformed token with no further detail.
    Error,
    /// Sentinel for a malformed token with an explanation.
    ErrorMsg(LexMsg),
}

impl Token {
    /// True of the two lexical-error sentinels and of nothing else.
    pub open spec fn is_lex_error(self) -> bool {
        self is Error || self is ErrorMsg
    }
}

/// A token together with where it lies in the source.
#[derive(Clone, Copy, PartialEq, Eq, Structural, Debug)]
pub struct TokenRecord {
    pub token: Token,
    pub span: Span,
}

} // verus!
