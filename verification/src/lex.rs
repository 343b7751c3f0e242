//! The lexical scanner: byte classification, the mathematical definition of
//! the token sequence of a source, and the executable scanner proved against
//! that definition.

use crate::token::{LexMsg, Span, Token, TokenRecord};
use vstd::prelude::*;

verus! {

broadcast use vstd::slice::axiom_spec_len;

/// The double-quote byte that opens and closes a string literal.
pub const QUOTE: u8 = 34;

/// Bytes skipped between tokens: space, tab, line feed, carriage return.
pub open spec fn is_trivia_byte(b: u8) -> bool {
    b == 32 || b == 9 || b == 10 || b == 13
}

/// The single-byte punctuation tokens of the language.
pub open spec fn punct_token(b: u8) -> Option<Token> {
    if b == 40 {
        Some(Token::OpenParen)
    } else if b == 41 {
        Some(Token::CloseParen)
    } else if b == 91 {
        Some(Token::OpenBracket)
    } else if b == 93 {
        Some(Token::CloseBracket)
    } else if b == 124 {
        Some(Token::Pipe)
    } else if b == 42 {
        Some(Token::Star)
    } else if b == 43 {
        Some(Token::Plus)
    } else if b == 63 {
        Some(Token::QuestionMark)
    } else {
        None
    }
}

/// ASCII letters and digits, each lexed as one literal-character token.
pub open spec fn is_word_byte(b: u8) -> bool {
    (97 <= b && b <= 122) || (65 <= b && b <= 90) || (48 <= b && b <= 57)
}

/// A byte at which some token (trivia aside) may legally start.
pub open spec fn is_valid_start(b: u8) -> bool {
    b == QUOTE || punct_token(b) is Some || is_word_byte(b)
}

/// Index of the first double quote at or after position `i`, if any.
pub open spec fn find_quote(src: Seq<u8>, i: int) -> Option<int>
    decreases src.len() - i,
{
    if i < 0 || i >= src.len() {
        None
    } else if src[i] == QUOTE {
        Some(i)
    } else {
        find_quote(src, i + 1)
    }
}

/// Where the token starting at non-trivia position `i` ends: one byte for
/// everything except a string literal, which runs to just past its closing
/// quote, or to the end of the source when unterminated.
pub open spec fn token_end(src: Seq<u8>, i: int) -> int {
    if src[i] == QUOTE {
        match find_quote(src, i + 1) {
            Some(j) => j + 1,
            None => src.len() as int,
        }
    } else {
        i + 1
    }
}

/// The token starting at non-trivia position `i`.
pub open spec fn token_at(src: Seq<u8>, i: int) -> Token {
    let b = src[i];
    if b == QUOTE {
        match find_quote(src, i + 1) {
            Some(j) => Token::StringLiteral,
            None => Token::ErrorMsg(LexMsg::UnclosedString),
        }
    } else {
        match punct_token(b) {
            Some(t) => t,
            None => if is_word_byte(b) {
                Token::Char
            } else {
                Token::Error
            },
        }
    }
}

/// Everything `find_quote` promises: the index it returns is the first
/// quote at or after the start position.
pub proof fn lemma_find_quote(src: Seq<u8>, i: int)
    requires
        0 <= i,
    ensures
        match find_quote(src, i) {
            Some(j) => i <= j < src.len() && src[j] == QUOTE && forall|m: int|
                i <= m < j ==> src[m] != QUOTE,
            None => forall|m: int| i <= m < src.len() ==> src[m] != QUOTE,
        },
    decreases src.len() - i,
{
    if 0 <= i < src.len() && src[i] != QUOTE {
        lemma_find_quote(src, i + 1);
    }
}

/// The token starting at a non-trivia position is at least one byte long
/// and ends within the source.
pub proof fn lemma_token_end(src: Seq<u8>, i: int)
    requires
        0 <= i < src.len(),
    ensures
        i < token_end(src, i) <= src.len(),
{
    if src[i] == QUOTE {
        lemma_find_quote(src, i + 1);
    }
}

/// The token records of `src` from position `i` on, in source order.
pub open spec fn scan_from(src: Seq<u8>, i: int) -> Seq<TokenRecord>
    decreases src.len() - i,
        when 0 <= i <= src.len() <= usize::MAX
        via scan_from_decreases
{
    if i >= src.len() {
        Seq::empty()
    } else if is_trivia_byte(src[i]) {
        scan_from(src, i + 1)
    } else {
        let end = token_end(src, i);
        seq![
            TokenRecord { token: token_at(src, i), span: Span { start: i as usize, end: end as usize } },
        ] + scan_from(src, end)
    }
}

#[via_fn]
proof fn scan_from_decreases(src: Seq<u8>, i: int) {
    if i < src.len() && !is_trivia_byte(src[i]) {
        lemma_token_end(src, i);
    }
}

/// The full token sequence of a source: what the scanner writes into the
/// buffer, error sentinels included.
pub open spec fn scanned(src: Seq<u8>) -> Seq<TokenRecord> {
    scan_from(src, 0)
}

/// Whether some record of the sequence is a lexical-error sentinel.
pub open spec fn has_lex_error(recs: Seq<TokenRecord>) -> bool {
    exists|k: int| 0 <= k < recs.len() && (#[trigger] recs[k]).token.is_lex_error()
}

/// Position `k` holds the first lexical-error sentinel of the sequence.
pub open spec fn is_first_lex_error_at(recs: Seq<TokenRecord>, k: int) -> bool {
    &&& 0 <= k < recs.len()
    &&& recs[k].token.is_lex_error()
    &&& forall|m: int| 0 <= m < k ==> !(#[trigger] recs[m]).token.is_lex_error()
}

/// Spans produced by the scan are non-empty, lie within the source, and
/// start no earlier than the scan position.
pub proof fn lemma_scan_span_bounds(src: Seq<u8>, i: int)
    requires
        0 <= i <= src.len() <= usize::MAX,
    ensures
        forall|k: int| 0 <= k < scan_from(src, i).len() ==> {
            let span = (#[trigger] scan_from(src, i)[k]).span;
            i <= span.start && span.start < span.end && span.end <= src.len()
        },
    decreases src.len() - i,
{
    if i >= src.len() {
    } else if is_trivia_byte(src[i]) {
        lemma_scan_span_bounds(src, i + 1);
        assert(scan_from(src, i) == scan_from(src, i + 1));
    } else {
        lemma_token_end(src, i);
        let end = token_end(src, i);
        lemma_scan_span_bounds(src, end);
        let rec = TokenRecord {
            token: token_at(src, i),
            span: Span { start: i as usize, end: end as usize },
        };
        let recs = scan_from(src, i);
        let rest = scan_from(src, end);
        assert(recs == seq![rec] + rest);
        assert forall|k: int| 0 <= k < recs.len() implies {
            let span = (#[trigger] recs[k]).span;
            i <= span.start && span.start < span.end && span.end <= src.len()
        } by {
            if k > 0 {
                assert(recs[k] == rest[k - 1]);
            }
        }
    }
}

/// Spans produced by the scan are ascending and do not overlap.
#[verifier::spinoff_prover]
#[verifier::rlimit(100)]
pub proof fn lemma_scan_spans_ascending(src: Seq<u8>, i: int)
    requires
        0 <= i <= src.len() <= usize::MAX,
    ensures
        forall|k: int| 0 <= k && k + 1 < scan_from(src, i).len()
            ==> (#[trigger] scan_from(src, i)[k]).span.end <= scan_from(src, i)[k + 1].span.start,
    decreases src.len() - i,
{
    if i >= src.len() {
    } else if is_trivia_byte(src[i]) {
        lemma_scan_spans_ascending(src, i + 1);
        assert(scan_from(src, i) == scan_from(src, i + 1));
    } else {
        lemma_token_end(src, i);
        let end = token_end(src, i);
        lemma_scan_spans_ascending(src, end);
        lemma_scan_span_bounds(src, end);
        let rec = TokenRecord {
            token: token_at(src, i),
            span: Span { start: i as usize, end: end as usize },
        };
        let recs = scan_from(src, i);
        let rest = scan_from(src, end);
        assert(recs == seq![rec] + rest);
        assert forall|k: int| 0 <= k && k + 1 < recs.len()
            implies (#[trigger] recs[k]).span.end <= recs[k + 1].span.start by {
            assert(recs[k + 1] == rest[k]);
            if k > 0 {
                assert(recs[k] == rest[k - 1]);
            }
        }
    }
}

/// Every non-trivia position from the scan position on lies inside some
/// scanned token's span: the spans jointly cover the lexable content, and
/// gaps hold only trivia.
pub proof fn lemma_scan_coverage(src: Seq<u8>, i: int)
    requires
        0 <= i <= src.len() <= usize::MAX,
    ensures
        forall|p: int| i <= p < src.len() && !is_trivia_byte(#[trigger] src[p]) ==> exists|k: int|
            0 <= k < scan_from(src, i).len() && (#[trigger] scan_from(src, i)[k]).span.start <= p
                < scan_from(src, i)[k].span.end,
    decreases src.len() - i,
{
    if i >= src.len() {
    } else if is_trivia_byte(src[i]) {
        lemma_scan_coverage(src, i + 1);
        assert(scan_from(src, i) == scan_from(src, i + 1));
    } else {
        lemma_token_end(src, i);
        let end = token_end(src, i);
        lemma_scan_coverage(src, end);
        let rec = TokenRecord {
            token: token_at(src, i),
            span: Span { start: i as usize, end: end as usize },
        };
        let recs = scan_from(src, i);
        let rest = scan_from(src, end);
        assert(recs == seq![rec] + rest);
        assert forall|p: int| i <= p < src.len() && !is_trivia_byte(#[trigger] src[p])
            implies exists|k: int|
                0 <= k < recs.len() && (#[trigger] recs[k]).span.start <= p < recs[k].span.end by {
            if p < end {
                assert(recs[0].span.start <= p < recs[0].span.end);
            } else {
                let k = choose|k: int|
                    0 <= k < rest.len() && (#[trigger] rest[k]).span.start <= p
                        < rest[k].span.end;
                assert(recs[k + 1] == rest[k]);
                assert(recs[k + 1].span.start <= p < recs[k + 1].span.end);
            }
        }
    }
}

/// The shape of the error sentinels the scan can produce: a plain error is a
/// single byte at which no token may start; an error with a message is an
/// unterminated string literal running from its opening quote to the end of
/// the source.
pub proof fn lemma_scan_error_shapes(src: Seq<u8>, i: int)
    requires
        0 <= i <= src.len() <= usize::MAX,
    ensures
        forall|k: int| 0 <= k < scan_from(src, i).len() ==> {
            let rec = #[trigger] scan_from(src, i)[k];
            &&& (rec.token == Token::Error ==> rec.span.start < src.len() && !is_valid_start(
                src[rec.span.start as int],
            ) && !is_trivia_byte(src[rec.span.start as int]) && rec.span.end == rec.span.start
                + 1)
            &&& (rec.token is ErrorMsg ==> rec.span.start < src.len() && src[rec.span.start as int]
                == QUOTE && find_quote(src, rec.span.start + 1) is None && rec.span.end
                == src.len())
        },
    decreases src.len() - i,
{
    if i >= src.len() {
    } else if is_trivia_byte(src[i]) {
        lemma_scan_error_shapes(src, i + 1);
        assert(scan_from(src, i) == scan_from(src, i + 1));
    } else {
        lemma_token_end(src, i);
        let end = token_end(src, i);
        lemma_scan_error_shapes(src, end);
        let rec = TokenRecord {
            token: token_at(src, i),
            span: Span { start: i as usize, end: end as usize },
        };
        let recs = scan_from(src, i);
        let rest = scan_from(src, end);
        assert(recs == seq![rec] + rest);
        assert forall|k: int| 0 <= k < recs.len() implies {
            let r = #[trigger] recs[k];
            &&& (r.token == Token::Error ==> r.span.start < src.len() && !is_valid_start(
                src[r.span.start as int],
            ) && !is_trivia_byte(src[r.span.start as int]) && r.span.end == r.span.start + 1)
            &&& (r.token is ErrorMsg ==> r.span.start < src.len() && src[r.span.start as int]
                == QUOTE && find_quote(src, r.span.start + 1) is None && r.span.end == src.len())
        } by {
            if k > 0 {
                assert(recs[k] == rest[k - 1]);
            }
        }
    }
}

/// The token sequence of any source reconstructs its lexable content: the
/// spans are non-empty, in ascending source order, never overlap, lie within
/// the source, and every byte outside them is trivia. In particular, when no
/// record is a lexical-error sentinel (so that tokenization succeeds), the
/// cursor's concatenated element spans give back exactly the lexable part of
/// the source, in order.
pub proof fn lemma_tokens_reconstruct_source(src: Seq<u8>)
    requires
        src.len() <= usize::MAX,
    ensures
        forall|k: int| 0 <= k < scanned(src).len() ==> {
            let span = (#[trigger] scanned(src)[k]).span;
            span.start < span.end && span.end <= src.len()
        },
        forall|k: int| 0 <= k && k + 1 < scanned(src).len()
            ==> (#[trigger] scanned(src)[k]).span.end <= scanned(src)[k + 1].span.start,
        forall|p: int| 0 <= p < src.len() && !is_trivia_byte(#[trigger] src[p]) ==> exists|k: int|
            0 <= k < scanned(src).len() && (#[trigger] scanned(src)[k]).span.start <= p
                < scanned(src)[k].span.end,
{
    lemma_scan_span_bounds(src, 0);
    lemma_scan_spans_ascending(src, 0);
    lemma_scan_coverage(src, 0);
}

/// A failed tokenization is located at the first offending byte: the first
/// lexical-error record's span starts at a byte at which no token may start
/// (for the plain error) or at the opening quote of an unterminated string
/// literal (for the error with a message), never merely at end of input.
pub proof fn lemma_first_error_located(src: Seq<u8>, k: int)
    requires
        src.len() <= usize::MAX,
        is_first_lex_error_at(scanned(src), k),
    ensures
        scanned(src)[k].span.start < src.len(),
        scanned(src)[k].token == Token::Error ==> !is_valid_start(
            src[scanned(src)[k].span.start as int],
        ) && scanned(src)[k].span.end == scanned(src)[k].span.start + 1,
        scanned(src)[k].token is ErrorMsg ==> src[scanned(src)[k].span.start as int] == QUOTE
            && find_quote(src, scanned(src)[k].span.start + 1) is None && scanned(src)[k].span.end
            == src.len(),
{
    lemma_scan_error_shapes(src, 0);
}

/// Executable test for trivia bytes.
fn trivia_byte(b: u8) -> (r: bool)
    ensures
        r == is_trivia_byte(b),
{
    b == 32 || b == 9 || b == 10 || b == 13
}

/// Classify a byte that is neither trivia nor a quote.
fn single_byte_token(b: u8) -> (t: Token)
    ensures
        t == (match punct_token(b) {
            Some(p) => p,
            None => if is_word_byte(b) {
                Token::Char
            } else {
                Token::Error
            },
        }),
{
    if b == 40 {
        Token::OpenParen
    } else if b == 41 {
        Token::CloseParen
    } else if b == 91 {
        Token::OpenBracket
    } else if b == 93 {
        Token::CloseBracket
    } else if b == 124 {
        Token::Pipe
    } else if b == 42 {
        Token::Star
    } else if b == 43 {
        Token::Plus
    } else if b == 63 {
        Token::QuestionMark
    } else if (97 <= b && b <= 122) || (65 <= b && b <= 90) || (48 <= b && b <= 57) {
        Token::Char
    } else {
        Token::Error
    }
}

/// Executable search for the first double quote at or after `start`.
fn find_quote_from(source: &[u8], start: usize) -> (r: Option<usize>)
    requires
        start <= source@.len(),
    ensures
        match r {
            Some(j) => find_quote(source@, start as int) == Some(j as int),
            None => find_quote(source@, start as int) is None,
        },
{
    let mut j = start;
    while j < source.len()
        invariant
            start <= j <= source@.len(),
            forall|m: int| start <= m < j ==> source@[m] != QUOTE,
        decreases source@.len() - j,
    {
        if *vstd::slice::slice_index_get(source, j) == QUOTE {
            proof {
                lemma_find_quote(source@, start as int);
            }
            return Some(j);
        }
        j += 1;
    }
    proof {
        lemma_find_quote(source@, start as int);
    }
    None
}

/// Run the scanner over the whole source, appending every token record, in
/// order, to the empty buffer.
pub fn scan_source(source: &[u8], buf: &mut Vec<TokenRecord>)
    requires
        old(buf)@.len() == 0,
    ensures
        final(buf)@ == scanned(source@),
{
    let mut i: usize = 0;
    proof {
        assert(scanned(source@) =~= buf@ + scan_from(source@, 0));
    }
    while i < source.len()
        invariant
            i <= source@.len(),
            scanned(source@) == buf@ + scan_from(source@, i as int),
        decreases source@.len() - i,
    {
        let b = *vstd::slice::slice_index_get(source, i);
        if trivia_byte(b) {
            proof {
                assert(scan_from(source@, i as int) == scan_from(source@, i + 1));
            }
            i += 1;
        } else if b == QUOTE {
            match find_quote_from(source, i + 1) {
                Some(j) => {
                    proof {
                        lemma_find_quote(source@, i + 1);
                    }
                    let rec = TokenRecord {
                        token: Token::StringLiteral,
                        span: Span { start: i, end: j + 1 },
                    };
                    buf.push(rec);
                    proof {
                        assert(scan_from(source@, i as int)
                            == seq![rec] + scan_from(source@, j + 1));
                        assert(scanned(source@) =~= buf@ + scan_from(source@, j + 1));
                    }
                    i = j + 1;
                },
                None => {
                    let rec = TokenRecord {
                        token: Token::ErrorMsg(LexMsg::UnclosedString),
                        span: Span { start: i, end: source.len() },
                    };
                    buf.push(rec);
                    proof {
                        assert(scan_from(source@, i as int)
                            == seq![rec] + scan_from(source@, source@.len() as int));
                        assert(scanned(source@) =~= buf@ + scan_from(source@, source@.len() as int));
                    }
                    i = source.len();
                },
            }
        } else {
            let t = single_byte_token(b);
            let rec = TokenRecord { token: t, span: Span { start: i, end: i + 1 } };
            buf.push(rec);
            proof {
                assert(scan_from(source@, i as int) == seq![rec] + scan_from(source@, i + 1));
                assert(scanned(source@) =~= buf@ + scan_from(source@, i + 1));
            }
            i += 1;
        }
    }
    proof {
        assert(scanned(source@) =~= buf@);
    }
}

/// Index of the first lexical-error sentinel in a token buffer, if any.
pub fn find_first_error(recs: &[TokenRecord]) -> (r: Option<usize>)
    ensures
        match r {
            Some(k) => is_first_lex_error_at(recs@, k as int),
            None => !has_lex_error(recs@),
        },
{
    let mut k: usize = 0;
    while k < recs.len()
        invariant
            k <= recs@.len(),
            forall|m: int| 0 <= m < k ==> !(#[trigger] recs@[m]).token.is_lex_error(),
        decreases recs@.len() - k,
    {
        let rec = *vstd::slice::slice_index_get(recs, k);
        if matches!(rec.token, Token::Error | Token::ErrorMsg(_)) {
            return Some(k);
        }
        k += 1;
    }
    None
}

} // verus!
