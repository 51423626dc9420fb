use large_json_reader::{LargeFile, NumberedWindow, VisualLine, Window, WindowReader};

fn filled(bytes: &[u8], start: u64, width: usize, height: usize, chunk: usize) -> WindowReader {
    let file = LargeFile::of_length(bytes.len() as u64);
    let mut reader = file.read_window(start, width, height);
    while reader.needs_more() {
        let at = reader.position() as usize;
        let end = (at + chunk).min(bytes.len());
        reader.feed(&bytes[at..end]);
    }
    reader
}

fn window(bytes: &[u8], start: u64, width: usize, height: usize) -> Window {
    filled(bytes, start, width, height, 8192).finish()
}

fn numbered(bytes: &[u8], start: u64, width: usize, height: usize, first: u64) -> NumberedWindow {
    filled(bytes, start, width, height, 8192).finish_from_line(first)
}

fn line(start_offset: u64, next_offset: u64, text: &str) -> VisualLine {
    VisualLine {
        start_offset,
        next_offset,
        text: text.to_owned(),
    }
}

fn shown(window: &Window) -> Vec<(u64, u64, &str)> {
    window
        .lines
        .iter()
        .map(|line| (line.start_offset, line.next_offset, line.text.as_str()))
        .collect()
}

#[test]
fn reads_bounded_visual_window_from_long_line() {
    let contents = br#"{"numbers":[0,1,2,3,4,5,6,7,8,9]}
{"done":true}
"#;
    let reader = LargeFile::of_length(contents.len() as u64);

    let window = window(contents, 0, 10, 3);

    assert_eq!(window.start_offset, 0);
    assert_eq!(window.file_len, reader.len());
    assert_eq!(window.lines.len(), 3);
    assert_eq!(window.lines[0].start_offset, 0);
    assert_eq!(window.lines[0].next_offset, 10);
    assert_eq!(window.lines[0].text, "{\"numbers\"");
    assert_eq!(window.lines[1].start_offset, 10);
    assert_eq!(window.lines[1].next_offset, 20);
    assert_eq!(window.lines[1].text, ":[0,1,2,3,");
    assert_eq!(window.lines[2].start_offset, 20);
}

#[test]
fn the_size_of_the_pieces_does_not_matter() {
    let contents = b"abcdefghij\r\n\r\nklm\n\nnopqrstuvwxyz\xff\n";
    for width in 0..12 {
        for height in 0..9 {
            for start in 0..=(contents.len() as u64) {
                let whole = window(contents, start, width, height);
                for chunk in 1..6 {
                    assert_eq!(filled(contents, start, width, height, chunk).finish(), whole);
                }
            }
        }
    }
}

#[test]
fn a_newline_behind_a_full_line_is_no_line() {
    assert_eq!(
        shown(&window(b"abcde\nfgh\n\nij", 0, 5, 10)),
        vec![(0, 5, "abcde"), (6, 10, "fgh"), (10, 11, ""), (11, 13, "ij")]
    );
}

#[test]
fn a_second_newline_behind_a_full_line_is_an_empty_line() {
    assert_eq!(
        shown(&window(b"abc\n\nd", 0, 3, 10)),
        vec![(0, 3, "abc"), (4, 5, ""), (5, 6, "d")]
    );
}

#[test]
fn a_carriage_return_in_front_of_a_newline_is_not_shown() {
    assert_eq!(
        shown(&window(b"ab\r\ncd\re\n", 0, 10, 10)),
        vec![(0, 4, "ab"), (4, 9, "cd\re")]
    );
    assert_eq!(shown(&window(b"ab\r\nc", 0, 3, 10)), vec![(0, 3, "ab\r"), (4, 5, "c")]);
}

#[test]
fn a_carriage_return_at_the_end_is_shown() {
    assert_eq!(shown(&window(b"ab\r", 0, 10, 10)), vec![(0, 3, "ab\r")]);
}

#[test]
fn a_screen_without_a_width_shows_single_bytes() {
    assert_eq!(
        shown(&window(b"ab\nc", 0, 0, 10)),
        vec![(0, 1, "a"), (1, 2, "b"), (3, 4, "c")]
    );
}

#[test]
fn a_screen_without_a_height_shows_nothing() {
    let window = window(b"abc", 1, 5, 0);
    assert_eq!(
        window,
        Window {
            start_offset: 1,
            file_len: 3,
            lines: Vec::new()
        }
    );
}

#[test]
fn a_start_behind_the_end_is_the_end() {
    let window = window(b"abc", 9, 5, 4);
    assert_eq!(window.start_offset, 3);
    assert_eq!(window.file_len, 3);
    assert!(window.lines.is_empty());
}

#[test]
fn bytes_that_are_no_text_are_replaced() {
    assert_eq!(
        window(b"a\xffb", 0, 10, 1).lines,
        vec![line(0, 3, "a\u{fffd}b")]
    );
    assert_eq!(
        window("ä€".as_bytes(), 0, 10, 1).lines,
        vec![line(0, 5, "ä€")]
    );
}

#[test]
fn lines_fit_the_screen() {
    let contents = b"a\xff\xe2\x82b\xf0\x9f\x98\n\xc3\xa9\xe2\x82\xac\xff\xff\r\nx";
    for width in 1..12 {
        for line in window(contents, 0, width, 100).lines {
            assert!(line.text.chars().count() <= width);
            assert!(!line.text.contains('\n'));
        }
    }
}

#[test]
fn a_window_needs_no_more_than_its_lines() {
    let file = LargeFile::of_length(1_000_000);
    let mut reader = file.read_window(0, 4, 2);
    assert!(reader.needs_more());
    assert_eq!(reader.position(), 0);
    reader.feed(b"abcdef");
    assert!(reader.needs_more());
    assert_eq!(reader.position(), 6);
    reader.feed(b"ghij");
    assert!(!reader.needs_more());
    let window = reader.finish();
    assert_eq!(window.lines, vec![line(0, 4, "abcd"), line(4, 8, "efgh")]);
}

#[test]
fn lines_follow_each_other_up_to_the_end() {
    let contents = b"abcdefg\nhi\n\njklmnopqrst\nu";
    let window = window(contents, 0, 4, 100);
    assert_eq!(window.lines.first().map(|line| line.start_offset), Some(0));
    assert_eq!(
        window.lines.last().map(|line| line.next_offset),
        Some(contents.len() as u64)
    );
    for pair in window.lines.windows(2) {
        let gap = pair[1].start_offset - pair[0].next_offset;
        assert!(gap == 0 || gap == 1 && contents[pair[0].next_offset as usize] == b'\n');
    }
}

#[test]
fn a_window_from_a_line_shows_the_lines_from_there() {
    let contents = b"abcdefg\nhi\n\njklmnopqrst\nu";
    let all = window(contents, 0, 4, 100).lines;
    for (index, line) in all.iter().enumerate() {
        assert_eq!(window(contents, line.start_offset, 4, 100).lines, all[index..]);
    }
}

#[test]
fn numbers_the_lines_of_the_file() {
    let window = numbered(b"abcdef\ngh\n\nij", 0, 4, 10, 7);
    let numbers: Vec<(u64, u64)> = window
        .lines
        .iter()
        .map(|line| (line.line_number, line.next_line_number))
        .collect();
    assert_eq!(numbers, vec![(7, 7), (7, 8), (8, 9), (9, 10), (10, 10)]);
    assert_eq!(window.start_offset, 0);
    assert_eq!(window.file_len, 13);
}

#[test]
fn numbers_a_full_line_in_front_of_a_newline() {
    let window = numbered(b"abcd\nef", 0, 4, 10, 1);
    let numbers: Vec<(u64, u64)> = window
        .lines
        .iter()
        .map(|line| (line.line_number, line.next_line_number))
        .collect();
    assert_eq!(numbers, vec![(1, 1), (2, 2)]);
}

#[test]
fn knows_its_length() {
    assert_eq!(LargeFile::of_length(7).len(), 7);
    assert!(!LargeFile::of_length(7).is_empty());
    assert!(LargeFile::of_length(0).is_empty());
}
