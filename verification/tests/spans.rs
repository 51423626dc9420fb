use large_json_reader::spans::{
    fallback_spans, find_from, gutter_width, numbered_line, piece_spans, split_search_spans,
    SyntaxPiece,
};
use large_json_reader::style::{
    color_style, key_style, plain_style, search_style, style_for, syntect_style, SpanColor,
    SpanStyle, StyledSpan, SyntaxStyle,
};
use large_json_reader::text::chars_of;
use large_json_reader::{NumberedLine, NumberedWindow, TokenKind, VisualLine};

fn span(text: &str, style: SpanStyle) -> StyledSpan {
    StyledSpan {
        text: text.to_owned(),
        style,
    }
}

fn joined(spans: &[StyledSpan]) -> String {
    spans.iter().map(|span| span.text.as_str()).collect()
}

fn window_of(numbers: &[(u64, u64)]) -> NumberedWindow {
    NumberedWindow {
        start_offset: 0,
        file_len: 0,
        lines: numbers
            .iter()
            .map(|(line_number, next_line_number)| NumberedLine {
                line: VisualLine {
                    start_offset: 0,
                    next_offset: 0,
                    text: String::new(),
                },
                line_number: *line_number,
                next_line_number: *next_line_number,
            })
            .collect(),
    }
}

#[test]
fn what_is_found_stands_out() {
    let red = color_style(SpanColor::Red);
    assert_eq!(
        split_search_spans("abcabd".to_owned(), red, "ab"),
        vec![
            span("ab", search_style()),
            span("c", red),
            span("ab", search_style()),
            span("d", red),
        ]
    );
    assert_eq!(
        split_search_spans("xaaa".to_owned(), red, "aa"),
        vec![span("x", red), span("aa", search_style()), span("a", red)]
    );
    assert_eq!(
        split_search_spans("é€é".to_owned(), red, "€"),
        vec![span("é", red), span("€", search_style()), span("é", red)]
    );
}

#[test]
fn nothing_stands_out_without_a_match() {
    let red = color_style(SpanColor::Red);
    assert_eq!(split_search_spans("abc".to_owned(), red, ""), vec![span("abc", red)]);
    assert_eq!(split_search_spans(String::new(), red, ""), vec![span("", red)]);
    assert_eq!(split_search_spans("abc".to_owned(), red, "abcd"), vec![span("abc", red)]);
    assert_eq!(split_search_spans(String::new(), red, "a"), Vec::new());
    assert_eq!(
        split_search_spans("abc".to_owned(), red, "abc"),
        vec![span("abc", search_style())]
    );
}

#[test]
fn finds_the_first_occurrence() {
    let text = chars_of("abcabc");
    assert_eq!(find_from(&text, &chars_of("bc"), 0), Some(1));
    assert_eq!(find_from(&text, &chars_of("bc"), 2), Some(4));
    assert_eq!(find_from(&text, &chars_of("bc"), 5), None);
    assert_eq!(find_from(&text, &chars_of(""), 6), Some(6));
}

#[test]
fn tokens_have_their_looks() {
    assert_eq!(
        fallback_spans("{\"a\": 1}", "a"),
        vec![
            span("{", color_style(SpanColor::DarkGray)),
            span("\"", color_style(SpanColor::Green)),
            span("a", search_style()),
            span("\"", color_style(SpanColor::Green)),
            span(":", color_style(SpanColor::DarkGray)),
            span(" ", plain_style()),
            span("1", color_style(SpanColor::Cyan)),
            span("}", color_style(SpanColor::DarkGray)),
        ]
    );
}

#[test]
fn the_spans_make_up_the_line() {
    for query in ["", "a", "tru", "\"", "absent"] {
        let line = "[true, \"aba\", x]";
        assert_eq!(joined(&fallback_spans(line, query)), line);
        assert_eq!(
            joined(&split_search_spans(line.to_owned(), plain_style(), query)),
            line
        );
    }
}

#[test]
fn pieces_have_the_looks_of_the_theme() {
    let style = SyntaxStyle {
        red: 1,
        green: 2,
        blue: 3,
        bold: true,
        italic: false,
        underline: true,
    };
    let look = SpanStyle {
        foreground: Some(SpanColor::Rgb(1, 2, 3)),
        background: None,
        bold: true,
        italic: false,
        underlined: true,
    };
    assert_eq!(syntect_style(style), look);
    let pieces = vec![
        SyntaxPiece {
            text: "ab".to_owned(),
            style,
        },
        SyntaxPiece {
            text: "ba".to_owned(),
            style,
        },
    ];
    assert_eq!(
        piece_spans(&pieces, "b"),
        vec![
            span("a", look),
            span("b", search_style()),
            span("b", search_style()),
            span("a", look),
        ]
    );
}

#[test]
fn every_kind_of_token_has_a_look() {
    assert_eq!(style_for(TokenKind::String).foreground, Some(SpanColor::Green));
    assert_eq!(style_for(TokenKind::Number).foreground, Some(SpanColor::Cyan));
    assert_eq!(style_for(TokenKind::Boolean).foreground, Some(SpanColor::Magenta));
    assert_eq!(style_for(TokenKind::Null).foreground, Some(SpanColor::Magenta));
    assert_eq!(style_for(TokenKind::Bracket).foreground, Some(SpanColor::DarkGray));
    assert_eq!(style_for(TokenKind::Colon).foreground, Some(SpanColor::DarkGray));
    assert_eq!(style_for(TokenKind::Comma).foreground, Some(SpanColor::DarkGray));
    assert_eq!(style_for(TokenKind::Other).foreground, Some(SpanColor::Red));
    assert_eq!(style_for(TokenKind::Whitespace), plain_style());
    assert!(!style_for(TokenKind::String).bold);
}

#[test]
fn keys_and_matches_are_yellow_and_bold() {
    assert_eq!(key_style().foreground, Some(SpanColor::Yellow));
    assert_eq!(key_style().background, None);
    assert!(key_style().bold);
    assert_eq!(search_style().foreground, Some(SpanColor::Black));
    assert_eq!(search_style().background, Some(SpanColor::Yellow));
    assert!(search_style().bold && !search_style().italic && !search_style().underlined);
}

#[test]
fn numbers_stand_in_the_gutter() {
    let gray = color_style(SpanColor::DarkGray);
    let rest = span("x", plain_style());
    assert_eq!(
        numbered_line(42, 5, vec![rest.clone()]),
        vec![span("  42 ", gray), rest.clone()]
    );
    assert_eq!(numbered_line(42, 3, Vec::new()), vec![span("42 ", gray)]);
    assert_eq!(numbered_line(12345, 3, Vec::new()), vec![span("12345 ", gray)]);
    assert_eq!(numbered_line(7, 1, Vec::new()), vec![span("7 ", gray)]);
}

#[test]
fn the_gutter_is_as_wide_as_the_greatest_number() {
    assert_eq!(gutter_width(&window_of(&[])), 3);
    assert_eq!(gutter_width(&window_of(&[(8, 9)])), 3);
    assert_eq!(gutter_width(&window_of(&[(8, 9), (9, 10)])), 4);
    assert_eq!(gutter_width(&window_of(&[(100, 100)])), 5);
    assert_eq!(gutter_width(&window_of(&[(u64::MAX, 3)])), 22);
}
