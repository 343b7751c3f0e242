use token_cursor::input::Input;
use token_cursor::outcome::Outcome;
use token_cursor::token::{Span, Token, TokenRecord};

fn drain<'i>(mut cursor: Input<'i, '_>) -> Vec<(Token, &'i [u8])> {
    let mut out = Vec::new();
    while let Some(item) = cursor.next() {
        out.push(item);
    }
    out
}

#[test]
fn two_single_character_tokens() {
    let mut buf: Vec<TokenRecord> = Vec::new();
    let cursor = Input::tokenize(b"ab", &mut buf).unwrap();
    assert_eq!(cursor.input_len(), 2);

    let first = cursor.peek().unwrap();
    assert_eq!(first.0, Token::Char);
    assert_eq!(first.1, b"a");

    let (left, right) = cursor.take_split(1);
    assert_eq!(left.input_len(), 1);
    assert!(left.eq(&cursor.take(1)));
    assert_eq!(right.input_len(), 1);
    let second = right.peek().unwrap();
    assert_eq!(second.0, Token::Char);
    assert_eq!(second.1, b"b");
}

#[test]
fn take_split_concatenation_reproduces_elements() {
    let mut buf: Vec<TokenRecord> = Vec::new();
    let cursor = Input::tokenize(b"(a|b)*", &mut buf).unwrap();
    let whole = drain(cursor.iter_elements());
    for k in 0..=cursor.input_len() {
        let (left, right) = cursor.take_split(k);
        let mut glued = drain(left);
        glued.extend(drain(right));
        assert_eq!(glued, whole);
    }
}

#[test]
fn take_of_full_length_is_content_equal() {
    let mut buf: Vec<TokenRecord> = Vec::new();
    let cursor = Input::tokenize(b"a\"bc\"?", &mut buf).unwrap();
    let taken = cursor.take(cursor.input_len());
    assert!(taken.eq(&cursor));
    assert!(cursor.eq(&taken));
}

#[test]
fn cloned_cursor_iterates_independently() {
    let mut buf: Vec<TokenRecord> = Vec::new();
    let cursor = Input::tokenize(b"a|b", &mut buf).unwrap();
    let clone = cursor.clone();
    let from_clone = drain(clone);
    let from_original = drain(cursor);
    assert_eq!(from_clone, from_original);
    // draining the clone left the original untouched
    assert_eq!(cursor.peek().unwrap().1, b"a");
    assert_eq!(cursor.input_len(), 3);
}

#[test]
fn next_yields_elements_in_order_then_nothing() {
    let mut buf: Vec<TokenRecord> = Vec::new();
    let mut cursor = Input::tokenize(b"\"hi\"*", &mut buf).unwrap();
    assert_eq!(cursor.next(), Some((Token::StringLiteral, &b"\"hi\""[..])));
    assert_eq!(cursor.next(), Some((Token::Star, &b"*"[..])));
    assert_eq!(cursor.next(), None);
    assert!(cursor.is_empty());
    assert_eq!(cursor.next(), None);
}

#[test]
fn index_returns_first_record_span() {
    let mut buf: Vec<TokenRecord> = Vec::new();
    let cursor = Input::tokenize(b"  ab", &mut buf).unwrap();
    assert_eq!(cursor.index(), Span { start: 2, end: 3 });
    let (_, rest) = cursor.take_split(1);
    assert_eq!(rest.index(), Span { start: 3, end: 4 });
    let (_, empty) = cursor.take_split(2);
    assert_eq!(empty.index(), Span { start: 4, end: 4 });
}

#[test]
fn position_finds_first_match_from_front() {
    let mut buf: Vec<TokenRecord> = Vec::new();
    let cursor = Input::tokenize(b"ab|c|", &mut buf).unwrap();
    assert_eq!(cursor.position(|item| matches!(item.0, Token::Pipe)), Some(2));
    assert_eq!(cursor.position(|item| item.1 == &b"c"[..]), Some(3));
    assert_eq!(cursor.position(|item| matches!(item.0, Token::Star)), None);
}

#[test]
fn slice_index_reports_exact_deficit() {
    let mut buf: Vec<TokenRecord> = Vec::new();
    let cursor = Input::tokenize(b"ab", &mut buf).unwrap();
    assert_eq!(cursor.slice_index(0), Ok(0));
    assert_eq!(cursor.slice_index(2), Ok(2));
    assert_eq!(cursor.slice_index(3), Err(1));
    assert_eq!(cursor.slice_index(7), Err(5));
}

#[test]
fn content_equality_ignores_byte_offsets_and_buffers() {
    let mut buf_a: Vec<TokenRecord> = Vec::new();
    let long = Input::tokenize(b"x a", &mut buf_a).unwrap();
    let (_, tail) = long.take_split(1);

    let mut buf_b: Vec<TokenRecord> = Vec::new();
    let short = Input::tokenize(b"a", &mut buf_b).unwrap();

    assert!(tail.eq(&short));
    assert!(short.eq(&tail));
    assert!(!long.eq(&short));
}

#[test]
fn content_equality_compares_matched_text() {
    let mut buf_a: Vec<TokenRecord> = Vec::new();
    let a = Input::tokenize(b"a", &mut buf_a).unwrap();
    let mut buf_b: Vec<TokenRecord> = Vec::new();
    let b = Input::tokenize(b"b", &mut buf_b).unwrap();
    // same token kinds, different matched text
    assert!(!a.eq(&b));
}

#[test]
fn iter_elements_leaves_receiver_untouched() {
    let mut buf: Vec<TokenRecord> = Vec::new();
    let cursor = Input::tokenize(b"ab", &mut buf).unwrap();
    let mut view = cursor.iter_elements();
    view.next();
    view.next();
    assert!(view.is_empty());
    assert_eq!(cursor.input_len(), 2);
}

#[test]
fn outcome_carries_engine_report() {
    let good = Outcome::Success;
    let bad = Outcome::Error(String::from("unbalanced group"));
    assert_eq!(good, Outcome::Success);
    assert_ne!(good, bad);
    assert_eq!(bad.clone(), bad);
}
