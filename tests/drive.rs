use std::collections::VecDeque;

use nom_async::engine::{NomFuture, NomStream, Step, StreamEnd};
use nom_async::parser::{Outcome, StreamParser};
use nom_async::tokens::{token, Token, Tokenizer};

fn source(chunks: &[&str]) -> VecDeque<Result<Vec<u8>, String>> {
    chunks.iter().map(|c| Ok(c.as_bytes().to_vec())).collect()
}

fn sym(s: &str) -> Token {
    Token::Sym(s.as_bytes().to_vec())
}

fn collect<P: StreamParser>(
    engine: &mut NomStream<P, String>,
    src: &mut VecDeque<Result<Vec<u8>, String>>,
) -> Vec<P::Output> {
    let mut out = Vec::new();
    while let Some(v) = engine.pull(src) {
        out.push(v);
    }
    out
}

fn run(chunks: &[&str]) -> (Vec<Token>, Option<StreamEnd<String>>) {
    let mut engine = NomStream::new(Tokenizer);
    let mut src = source(chunks);
    let out = collect(&mut engine, &mut src);
    (out, engine.into_ending())
}

#[test]
fn split_symbol_across_chunks() {
    let (out, end) = run(&["(", "ab", "c)"]);
    assert_eq!(out, vec![Token::Lpar, sym("abc"), Token::Rpar]);
    assert_eq!(end, Some(StreamEnd::Exhausted));
}

#[test]
fn rechunked_input_gives_same_tokens() {
    let (a, end_a) = run(&["(", "ab", "c)"]);
    let (b, end_b) = run(&["(abc", ")"]);
    let (c, end_c) = run(&["(abc)"]);
    let (d, end_d) = run(&["(", "a", "b", "c", ")"]);
    assert_eq!(a, b);
    assert_eq!(a, c);
    assert_eq!(a, d);
    assert_eq!(end_a, end_b);
    assert_eq!(end_a, end_c);
    assert_eq!(end_a, end_d);
}

#[test]
fn concatenation_matches_one_shot_parse() {
    let chunks = ["  (de", "f x1 ", "", "\t)\n(", "y)"];
    let (split, end_split) = run(&chunks);
    let whole: String = chunks.concat();
    let (once, end_once) = run(&[whole.as_str()]);
    assert_eq!(split, once);
    assert_eq!(end_split, end_once);
    assert_eq!(
        split,
        vec![Token::Lpar, sym("def"), sym("x1"), Token::Rpar, Token::Lpar, sym("y"), Token::Rpar]
    );
}

#[test]
fn digit_leading_symbol_is_reported() {
    let (out, end) = run(&["(", "1bad"]);
    assert_eq!(out, vec![Token::Lpar]);
    assert_eq!(end, Some(StreamEnd::Rejected));
}

#[test]
fn empty_source_ends_gracefully() {
    let (out, end) = run(&[]);
    assert!(out.is_empty());
    assert_eq!(end, Some(StreamEnd::Exhausted));
}

#[test]
fn empty_chunks_end_gracefully() {
    let (out, end) = run(&["", "", ""]);
    assert!(out.is_empty());
    assert_eq!(end, Some(StreamEnd::Exhausted));
}

#[test]
fn fully_consumed_buffer_ends_gracefully() {
    let (out, end) = run(&["(a ", ") "]);
    assert_eq!(out, vec![Token::Lpar, sym("a"), Token::Rpar]);
    assert_eq!(end, Some(StreamEnd::Exhausted));
}

#[test]
fn unfinished_symbol_at_end_is_dropped() {
    let (out, end) = run(&["( ab"]);
    assert_eq!(out, vec![Token::Lpar]);
    assert_eq!(end, Some(StreamEnd::Exhausted));
}

#[test]
fn pull_after_end_touches_nothing() {
    let mut engine: NomStream<Tokenizer, String> = NomStream::new(Tokenizer);
    let mut src = source(&["(", "1bad", ")", "x "]);
    assert_eq!(engine.pull(&mut src), Some(Token::Lpar));
    assert_eq!(engine.pull(&mut src), None);
    assert_eq!(src.len(), 2);
    assert_eq!(engine.pull(&mut src), None);
    assert_eq!(engine.pull(&mut src), None);
    assert_eq!(src.len(), 2);
    assert!(engine.is_ended());
    assert_eq!(engine.end_reason(), Some(&StreamEnd::Rejected));
}

#[test]
fn source_error_is_surfaced() {
    let mut engine: NomStream<Tokenizer, String> = NomStream::new(Tokenizer);
    let mut src: VecDeque<Result<Vec<u8>, String>> = VecDeque::new();
    src.push_back(Ok(b"(ab".to_vec()));
    src.push_back(Err("broken pipe".to_string()));
    src.push_back(Ok(b" )".to_vec()));
    assert_eq!(engine.pull(&mut src), Some(Token::Lpar));
    assert_eq!(engine.pull(&mut src), None);
    assert_eq!(src.len(), 1);
    assert_eq!(
        engine.into_ending(),
        Some(StreamEnd::SourceFailed("broken pipe".to_string()))
    );
}

#[test]
fn seeded_buffer_is_parsed_first() {
    let mut engine: NomStream<Tokenizer, String> =
        NomStream::new_with_buffer(Tokenizer, b"(ab".to_vec());
    let mut src = source(&["c d)"]);
    let out = collect(&mut engine, &mut src);
    assert_eq!(out, vec![Token::Lpar, sym("abc"), sym("d"), Token::Rpar]);
}

#[test]
fn stepping_by_hand() {
    let mut engine: NomStream<Tokenizer, String> = NomStream::new(Tokenizer);
    assert_eq!(engine.poll_step(), Step::NeedInput);
    engine.feed(Some(Ok(b" (x".to_vec())));
    assert_eq!(engine.poll_step(), Step::Ready(Token::Lpar));
    assert_eq!(engine.poll_step(), Step::NeedInput);
    engine.feed(Some(Ok(b"y)".to_vec())));
    assert_eq!(engine.poll_step(), Step::Ready(sym("xy")));
    assert_eq!(engine.poll_step(), Step::Ready(Token::Rpar));
    assert_eq!(engine.poll_step(), Step::NeedInput);
    engine.feed(None);
    assert_eq!(engine.poll_step(), Step::Finished);
    engine.feed(Some(Ok(b"(".to_vec())));
    assert_eq!(engine.poll_step(), Step::Finished);
    assert_eq!(engine.into_ending(), Some(StreamEnd::Exhausted));
}

#[test]
fn future_resolves_first_value() {
    let fut: NomFuture<Tokenizer, String> = NomFuture::new(Tokenizer);
    let mut src = source(&["  a", "bc", " (", ")"]);
    assert_eq!(fut.resolve(&mut src), Ok(sym("abc")));
    assert_eq!(src.len(), 1);
}

#[test]
fn future_with_seeded_buffer() {
    let fut: NomFuture<Tokenizer, String> = NomFuture::new_with_buffer(Tokenizer, b")".to_vec());
    let mut src = source(&[]);
    assert_eq!(fut.resolve(&mut src), Ok(Token::Rpar));
}

#[test]
fn future_reports_unfinished_value() {
    let fut: NomFuture<Tokenizer, String> = NomFuture::new(Tokenizer);
    let mut src = source(&["ab", "c"]);
    assert_eq!(fut.resolve(&mut src), Err(StreamEnd::Exhausted));
}

#[test]
fn future_reports_soft_error() {
    let fut: NomFuture<Tokenizer, String> = NomFuture::new(Tokenizer);
    let mut src = source(&[" ", "1bad"]);
    assert_eq!(fut.resolve(&mut src), Err(StreamEnd::Rejected));
}

#[test]
fn future_reports_source_error() {
    let fut: NomFuture<Tokenizer, String> = NomFuture::new(Tokenizer);
    let mut src: VecDeque<Result<Vec<u8>, String>> = VecDeque::new();
    src.push_back(Ok(b"ab".to_vec()));
    src.push_back(Err("reset".to_string()));
    assert_eq!(fut.resolve(&mut src), Err(StreamEnd::SourceFailed("reset".to_string())));
}

#[test]
fn future_stepping_by_hand() {
    let mut fut: NomFuture<Tokenizer, String> = NomFuture::new(Tokenizer);
    assert_eq!(fut.poll_step(), Step::NeedInput);
    fut.feed(Some(Err("gone".to_string())));
    assert_eq!(fut.poll_step(), Step::Finished);
    assert_eq!(fut.into_failure(), Some(StreamEnd::SourceFailed("gone".to_string())));
}

#[test]
fn token_values() {
    assert_eq!(token(b"  (x"), Outcome::Success { consumed: 3, value: Token::Lpar });
    assert_eq!(token(b")"), Outcome::Success { consumed: 1, value: Token::Rpar });
    assert_eq!(token(b"\tab1c) "), Outcome::Success { consumed: 5, value: sym("ab1c") });
    assert_eq!(token(b"ab1c"), Outcome::Incomplete { needed: 1 });
    assert_eq!(token(b" \n\r"), Outcome::Incomplete { needed: 1 });
    assert_eq!(token(b""), Outcome::Incomplete { needed: 1 });
    assert_eq!(token(b"1bad"), Outcome::SoftError);
    assert_eq!(token(b" ,"), Outcome::SoftError);
}

#[test]
fn token_answers_are_stable_under_more_input() {
    for input in [&b"  (x"[..], b"ab c", b"9", b")"] {
        let first = token(input);
        let mut longer = input.to_vec();
        longer.extend_from_slice(b"zz(");
        assert_eq!(token(&longer), first);
    }
}
