use large_json_reader::numbers::count_newlines;
use large_json_reader::{LineCounter, LineSeeker};

fn seek(bytes: &[u8], number: u64, chunk: usize) -> (u64, usize) {
    let mut seeker = LineSeeker::new(number);
    let mut at = 0;
    while seeker.needs_more() && at < bytes.len() {
        let end = (at + chunk).min(bytes.len());
        seeker.feed(&bytes[at..end]);
        at = end;
    }
    (seeker.found(), at)
}

#[test]
fn counts_the_newlines() {
    assert_eq!(count_newlines(b""), 0);
    assert_eq!(count_newlines(b"abc"), 0);
    assert_eq!(count_newlines(b"\na\r\n\n"), 3);
    assert_eq!(count_newlines(b"a\nb") + count_newlines(b"\nc"), count_newlines(b"a\nb\nc"));
}

#[test]
fn tells_the_line_of_an_offset() {
    let contents = b"one\ntwo\n\nfour";
    for (offset, number) in [(0, 1), (3, 1), (4, 2), (8, 3), (9, 4), (13, 4)] {
        for chunk in 1..14 {
            let mut counter = LineCounter::new();
            for piece in contents[..offset].chunks(chunk) {
                counter.feed(piece);
            }
            assert_eq!(counter.number(), number);
        }
    }
}

#[test]
fn finds_the_beginning_of_a_line() {
    let contents = b"one\ntwo\n\nfour";
    for chunk in 1..14 {
        assert_eq!(seek(contents, 0, chunk).0, 0);
        assert_eq!(seek(contents, 1, chunk).0, 0);
        assert_eq!(seek(contents, 2, chunk).0, 4);
        assert_eq!(seek(contents, 3, chunk).0, 8);
        assert_eq!(seek(contents, 4, chunk).0, 9);
    }
}

#[test]
fn a_line_that_is_not_there_is_the_last_one() {
    assert_eq!(seek(b"one\ntwo\n\nfour", 99, 3).0, 9);
    assert_eq!(seek(b"one\ntwo\n", 3, 3).0, 4);
    assert_eq!(seek(b"", 5, 3).0, 0);
}

#[test]
fn looks_no_further_than_the_line() {
    assert_eq!(seek(b"one\ntwo\n\nfour", 1, 2).1, 0);
    assert_eq!(seek(b"one\ntwo\n\nfour", 2, 2).1, 6);
}

#[test]
fn the_newlines_in_front_of_a_line_tell_its_number() {
    let contents = b"a\nbc\n\n\ndef\ng\n";
    for number in 1..7 {
        let start = seek(contents, number, 4).0 as usize;
        assert_eq!(count_newlines(&contents[..start]) + 1, number);
    }
}
