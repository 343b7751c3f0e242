use token_cursor::error::{ParseError, ParseErrorKind};
use token_cursor::input::Input;
use token_cursor::token::{LexMsg, Span, Token, TokenRecord};

fn records(source: &[u8]) -> Vec<TokenRecord> {
    let mut buf: Vec<TokenRecord> = Vec::new();
    let r = Input::tokenize(source, &mut buf);
    assert!(r.is_ok());
    buf
}

fn failure(source: &[u8]) -> ParseError {
    let mut buf: Vec<TokenRecord> = Vec::new();
    match Input::tokenize(source, &mut buf) {
        Ok(_) => panic!("tokenization unexpectedly succeeded"),
        Err(e) => e,
    }
}

#[test]
fn empty_source_gives_empty_cursor() {
    let mut buf: Vec<TokenRecord> = Vec::new();
    let cursor = Input::tokenize(b"", &mut buf).unwrap();
    assert!(cursor.is_empty());
    assert_eq!(cursor.input_len(), 0);
    assert_eq!(cursor.index(), Span { start: 0, end: 0 });
}

#[test]
fn trivia_only_source_gives_empty_cursor() {
    let mut buf: Vec<TokenRecord> = Vec::new();
    let cursor = Input::tokenize(b" \t\n", &mut buf).unwrap();
    assert!(cursor.is_empty());
    // current-span on an empty cursor is the empty range at the source's end
    assert_eq!(cursor.index(), Span { start: 3, end: 3 });
}

#[test]
fn classifies_every_token_kind() {
    let recs = records(b"\"ab\" (x|9)*+?[]");
    let expected = vec![
        TokenRecord { token: Token::StringLiteral, span: Span { start: 0, end: 4 } },
        TokenRecord { token: Token::OpenParen, span: Span { start: 5, end: 6 } },
        TokenRecord { token: Token::Char, span: Span { start: 6, end: 7 } },
        TokenRecord { token: Token::Pipe, span: Span { start: 7, end: 8 } },
        TokenRecord { token: Token::Char, span: Span { start: 8, end: 9 } },
        TokenRecord { token: Token::CloseParen, span: Span { start: 9, end: 10 } },
        TokenRecord { token: Token::Star, span: Span { start: 10, end: 11 } },
        TokenRecord { token: Token::Plus, span: Span { start: 11, end: 12 } },
        TokenRecord { token: Token::QuestionMark, span: Span { start: 12, end: 13 } },
        TokenRecord { token: Token::OpenBracket, span: Span { start: 13, end: 14 } },
        TokenRecord { token: Token::CloseBracket, span: Span { start: 14, end: 15 } },
    ];
    assert_eq!(recs, expected);
}

#[test]
fn spans_cover_lexable_content_in_order() {
    let recs = records(b" a \"b c\" | ");
    let spans: Vec<(usize, usize)> = recs.iter().map(|r| (r.span.start, r.span.end)).collect();
    assert_eq!(spans, vec![(1, 2), (3, 8), (9, 10)]);
    // ascending, non-overlapping, non-empty
    for w in spans.windows(2) {
        assert!(w[0].1 <= w[1].0);
    }
    for (s, e) in &spans {
        assert!(s < e);
    }
}

#[test]
fn invalid_character_reports_plain_error() {
    let e = failure(b"a$b");
    assert_eq!(e.kind, ParseErrorKind::LexError);
    assert_eq!(e.span, Span { start: 1, end: 2 });
}

#[test]
fn unterminated_string_reports_error_with_message() {
    // the range starts at the unterminated opening quote, not at end of input
    let e = failure(b"a \"bc");
    assert_eq!(e.kind, ParseErrorKind::LexErrorWithMessage(LexMsg::UnclosedString));
    assert_eq!(e.span, Span { start: 2, end: 5 });
    assert_ne!(e.span.start, 5);
}

#[test]
fn first_error_in_source_order_wins() {
    let e = failure(b"$ \"x");
    assert_eq!(e.kind, ParseErrorKind::LexError);
    assert_eq!(e.span, Span { start: 0, end: 1 });
}

#[test]
fn error_buffer_still_holds_full_scan() {
    let mut buf: Vec<TokenRecord> = Vec::new();
    let r = Input::tokenize(b"a$", &mut buf);
    assert!(r.is_err());
    assert_eq!(buf.len(), 2);
    assert_eq!(buf[0].token, Token::Char);
    assert_eq!(buf[1].token, Token::Error);
}

#[test]
fn string_literal_may_hold_trivia_and_punctuation() {
    let recs = records(b"\"( |\t)\"");
    assert_eq!(recs.len(), 1);
    assert_eq!(recs[0].token, Token::StringLiteral);
    assert_eq!(recs[0].span, Span { start: 0, end: 7 });
}

#[test]
fn message_text_is_human_readable() {
    assert_eq!(LexMsg::UnclosedString.text(), "unterminated string literal");
}

#[test]
fn error_kind_attaches_span() {
    let e = ParseErrorKind::LexError.at(Span { start: 4, end: 7 });
    assert_eq!(e.kind, ParseErrorKind::LexError);
    assert_eq!(e.span, Span { start: 4, end: 7 });
}
