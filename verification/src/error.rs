//! The structured, span-located diagnostics that tokenization can produce.

use crate::token::{LexMsg, Span, Token, TokenRecord};
use vstd::prelude::*;

verus! {

/// The two lexical failure kinds: a malformed token with no detail, and a
/// malformed token with a scanner-supplied explanation.
#[derive(Clone, Copy, PartialEq, Eq, Structural, Debug)]
pub enum ParseErrorKind {
    LexError,
    LexErrorWithMessage(LexMsg),
}

/// A lexical error located at a byte range of the source.
#[derive(Clone, Copy, PartialEq, Eq, Structural, Debug)]
pub struct ParseError {
    pub kind: ParseErrorKind,
    pub span: Span,
}

impl ParseErrorKind {
    /// Attach a byte range to an error kind.
    pub fn at(self, span: Span) -> (r: ParseError)
        ensures
            r == (ParseError { kind: self, span }),
    {
        ParseError { kind: self, span }
    }
}

/// The diagnostic that a lexical-error sentinel record gives rise to: its
/// kind follows the sentinel's variant, its location is the record's span.
pub open spec fn error_for(rec: TokenRecord) -> ParseError {
    ParseError {
        kind: match rec.token {
            Token::ErrorMsg(m) => ParseErrorKind::LexErrorWithMessage(m),
            _ => ParseErrorKind::LexError,
        },
        span: rec.span,
    }
}

} // verus!
