use large_json_reader::highlight::{consume_string, consume_while};
use large_json_reader::text::chars_of;
use large_json_reader::{highlight_json_line, JsonToken, TokenKind};

fn token(text: &str, kind: TokenKind) -> JsonToken {
    JsonToken {
        text: text.to_owned(),
        kind,
    }
}

#[test]
fn highlights_json_primitives() {
    let tokens = highlight_json_line(r#"{"name": "Ada", "age": 42, "ok": true, "none": null}"#);

    assert!(tokens
        .iter()
        .any(|token| token.text == r#""name""# && token.kind == TokenKind::String));
    assert!(tokens
        .iter()
        .any(|token| token.text == "42" && token.kind == TokenKind::Number));
    assert!(tokens
        .iter()
        .any(|token| token.text == "true" && token.kind == TokenKind::Boolean));
    assert!(tokens
        .iter()
        .any(|token| token.text == "null" && token.kind == TokenKind::Null));
}

#[test]
fn splits_a_line_into_tokens() {
    assert_eq!(
        highlight_json_line("{\"a\\\"b\": [-1.5e+3,\t false]} x1"),
        vec![
            token("{", TokenKind::Bracket),
            token("\"a\\\"b\"", TokenKind::String),
            token(":", TokenKind::Colon),
            token(" ", TokenKind::Whitespace),
            token("[", TokenKind::Bracket),
            token("-1.5e+3", TokenKind::Number),
            token(",", TokenKind::Comma),
            token("\t ", TokenKind::Whitespace),
            token("false", TokenKind::Boolean),
            token("]", TokenKind::Bracket),
            token("}", TokenKind::Bracket),
            token(" ", TokenKind::Whitespace),
            token("x", TokenKind::Other),
            token("1", TokenKind::Number),
        ]
    );
}

#[test]
fn takes_what_is_no_json() {
    assert_eq!(highlight_json_line(""), Vec::new());
    assert_eq!(
        highlight_json_line("\"open \\"),
        vec![token("\"open \\", TokenKind::String)]
    );
    assert_eq!(
        highlight_json_line("é€"),
        vec![token("é", TokenKind::Other), token("€", TokenKind::Other)]
    );
    assert_eq!(
        highlight_json_line("nulls True"),
        vec![
            token("nulls", TokenKind::Other),
            token(" ", TokenKind::Whitespace),
            token("True", TokenKind::Other),
        ]
    );
    assert_eq!(
        highlight_json_line("\u{a0}\u{3000}+"),
        vec![
            token("\u{a0}\u{3000}", TokenKind::Whitespace),
            token("+", TokenKind::Other),
        ]
    );
}

#[test]
fn the_tokens_make_up_the_line() {
    for line in ["", "  [1,2, \"x\\\\\" ] é", "{\"unfinished", "--e", "a1b2 \u{2028}tru\te"] {
        let texts: String = highlight_json_line(line)
            .into_iter()
            .map(|token| token.text)
            .collect();
        assert_eq!(texts, line);
    }
}

#[test]
fn a_stretch_of_tokens_splits_alike() {
    let tokens = highlight_json_line("{\"a\\\"b\": [-1.5e+3, true],x1 \"open");
    for from in 0..=tokens.len() {
        for to in from..=tokens.len() {
            let text: String = tokens[from..to].iter().map(|token| token.text.as_str()).collect();
            assert_eq!(highlight_json_line(&text), tokens[from..to]);
        }
    }
}

#[test]
fn finds_the_end_of_a_run() {
    let chars = chars_of("aab");
    assert_eq!(consume_while(&chars, 0, |c| c == 'a'), 2);
    assert_eq!(consume_while(&chars, 2, |c| c == 'a'), 2);
    assert_eq!(consume_while(&chars, 0, |_| true), 3);
}

#[test]
fn finds_the_end_of_a_string() {
    assert_eq!(consume_string(&chars_of("ab\"c"), 0), 3);
    assert_eq!(consume_string(&chars_of("\"ab\\\"c\"d"), 1), 7);
    assert_eq!(consume_string(&chars_of("ab"), 0), 2);
    assert_eq!(consume_string(&chars_of("ab"), 2), 2);
}
