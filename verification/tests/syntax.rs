use large_json_reader::spans::{fallback_spans, numbered_line, SyntaxPiece};
use large_json_reader::style::{search_style, SpanColor, StyledSpan, SyntaxStyle};
use large_json_reader::syntax::{line_spans, pick_theme, LONGEST_LINE};
use large_json_reader::{NumberedLine, NumberedWindow, SyntaxHighlighter, VisualLine};
use syntect::highlighting::{Theme, ThemeSet};

fn window_of(texts: &[&str]) -> NumberedWindow {
    NumberedWindow {
        start_offset: 0,
        file_len: 0,
        lines: texts
            .iter()
            .enumerate()
            .map(|(index, text)| NumberedLine {
                line: VisualLine {
                    start_offset: 0,
                    next_offset: 0,
                    text: (*text).to_owned(),
                },
                line_number: index as u64 + 1,
                next_line_number: index as u64 + 2,
            })
            .collect(),
    }
}

fn joined(spans: &[StyledSpan]) -> String {
    spans.iter().map(|span| span.text.as_str()).collect()
}

#[test]
fn a_known_extension_gives_the_looks_of_the_theme() {
    let highlighter = SyntaxHighlighter::new();
    let line = "{\"name\": 42, \"ok\": true}";
    let shown = highlighter.highlight_window(Some("json"), &window_of(&[line]), "", 4);
    assert_eq!(shown.len(), 1);
    assert_eq!(shown[0][0].text, "  1 ");
    assert_eq!(joined(&shown[0][1..]), line);
    assert!(shown[0].len() > 4);
    assert!(shown[0][1..]
        .iter()
        .all(|span| matches!(span.style.foreground, Some(SpanColor::Rgb(_, _, _)))));
    let looks: Vec<_> = shown[0][1..].iter().map(|span| span.style).collect();
    assert!(looks.iter().any(|look| *look != looks[0]));
}

#[test]
fn an_unknown_extension_gives_the_looks_of_the_tokens() {
    let highlighter = SyntaxHighlighter::new();
    let window = window_of(&["{\"a\": 1}", "null"]);
    for extension in [None, Some("no such extension")] {
        let shown = highlighter.highlight_window(extension, &window, "a", 3);
        assert_eq!(shown.len(), 2);
        assert_eq!(shown[0], numbered_line(1, 3, fallback_spans("{\"a\": 1}", "a")));
        assert_eq!(shown[1], numbered_line(2, 3, fallback_spans("null", "a")));
    }
}

#[test]
fn a_match_stands_out_in_the_looks_of_the_theme() {
    let highlighter = SyntaxHighlighter::new();
    let shown = highlighter.highlight_window(Some("json"), &window_of(&["[123]"]), "2", 3);
    assert!(shown[0]
        .iter()
        .any(|span| span.text == "2" && span.style == search_style()));
    assert_eq!(joined(&shown[0][1..]), "[123]");
}

#[test]
fn lines_in_front_count() {
    let highlighter = SyntaxHighlighter::new();
    let inside = highlighter.highlight_window(Some("rs"), &window_of(&["/* open\n", "let x"]), "", 3);
    let outside = highlighter.highlight_window(Some("rs"), &window_of(&["open\n", "let x"]), "", 3);
    assert_ne!(inside[1], outside[1]);
}

#[test]
fn the_longest_lines_can_be_highlighted() {
    let highlighter = SyntaxHighlighter::new();
    for letter in ["A", "\u{1d400}"] {
        let marker = letter.repeat(LONGEST_LINE - 3);
        let first = format!("<<-{marker}");
        let window = window_of(&[first.as_str(), "x", marker.as_str(), "y"]);
        let shown = highlighter.highlight_window(Some("rb"), &window, "", 3);
        assert_eq!(shown.len(), 4);
        assert_eq!(joined(&shown[0][1..]), first);
        assert_eq!(joined(&shown[2][1..]), marker);
        assert_ne!(shown[1][1].style, shown[3][1].style);
    }
}

#[test]
fn the_theme_is_picked_by_its_name_or_is_the_first() {
    let themes = ThemeSet::load_defaults();
    let named = themes.themes.get("base16-ocean.dark").cloned();
    assert!(named.is_some());
    assert_eq!(pick_theme(&themes), named);

    let mut others = ThemeSet::new();
    assert_eq!(pick_theme(&others), None);
    let first = Theme {
        name: Some("first".to_owned()),
        ..Theme::default()
    };
    let second = Theme {
        name: Some("second".to_owned()),
        ..Theme::default()
    };
    others.themes.insert("b".to_owned(), second);
    others.themes.insert("a".to_owned(), first.clone());
    assert_eq!(pick_theme(&others), Some(first));
}

#[test]
fn spans_come_from_the_pieces_or_from_the_tokens() {
    let style = SyntaxStyle {
        red: 9,
        green: 8,
        blue: 7,
        bold: false,
        italic: true,
        underline: false,
    };
    let pieces = Some(vec![SyntaxPiece {
        text: "xy".to_owned(),
        style,
    }]);
    let spans = line_spans(&pieces, "xyz", "");
    assert_eq!(joined(&spans), "xy");
    assert_eq!(spans[0].style.foreground, Some(SpanColor::Rgb(9, 8, 7)));
    assert!(spans[0].style.italic && !spans[0].style.bold);
    assert_eq!(line_spans(&None, "[1]", "1"), fallback_spans("[1]", "1"));
}
