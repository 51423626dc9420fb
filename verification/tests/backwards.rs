use large_json_reader::back::BACK_SCAN_LIMIT;
use large_json_reader::{BackwardWalk, LargeFile};

fn previous(bytes: &[u8], offset: u64, width: usize) -> u64 {
    let file = LargeFile::of_length(bytes.len() as u64);
    let (first, count) = file.back_scan(offset);
    let scan = &bytes[first as usize..first as usize + count];
    file.previous_visual_offset(offset, width, scan)
}

fn walk(bytes: &[u8], mut walk: BackwardWalk) -> u64 {
    while let Some((first, count)) = walk.needed() {
        walk.step(&bytes[first as usize..first as usize + count]);
    }
    walk.reached()
}

fn near_end(bytes: &[u8], width: usize, height: usize) -> u64 {
    let file = LargeFile::of_length(bytes.len() as u64);
    walk(bytes, file.near_end_offset(width, height))
}

fn back_from(bytes: &[u8], offset: u64, width: usize, rows: usize) -> u64 {
    let file = LargeFile::of_length(bytes.len() as u64);
    walk(bytes, BackwardWalk::new(file, offset, width, rows))
}

fn starts(bytes: &[u8], width: usize) -> Vec<u64> {
    let mut reader = LargeFile::of_length(bytes.len() as u64).read_window(0, width, 1000);
    reader.feed(bytes);
    reader.feed(&[]);
    let window = reader.finish();
    window.lines.iter().map(|line| line.start_offset).collect()
}

#[test]
fn previous_visual_offset_handles_wrapped_lines() {
    let contents = b"abcdefghijklmnopqrst\nxyz\n";

    assert_eq!(previous(contents, 15, 5), 10);
    assert_eq!(previous(contents, 10, 5), 5);
    assert_eq!(previous(contents, 5, 5), 0);
    assert_eq!(previous(contents, 21, 5), 15);
}

#[test]
fn near_end_offset_returns_start_for_last_screen() {
    assert_eq!(near_end(b"abcdefghijklmnopqrst", 5, 2), 10);
}

#[test]
fn nothing_stands_in_front_of_the_start() {
    assert_eq!(previous(b"abc", 0, 5), 0);
    assert_eq!(previous(b"", 0, 5), 0);
    assert_eq!(previous(b"", 7, 5), 0);
    assert_eq!(LargeFile::of_length(3).back_scan(0), (0, 0));
}

#[test]
fn an_offset_behind_the_end_counts_as_the_end() {
    assert_eq!(previous(b"ab\ncd", 99, 5), 3);
    assert_eq!(LargeFile::of_length(5).back_scan(99), (0, 5));
}

#[test]
fn a_screen_without_a_width_goes_back_by_bytes() {
    assert_eq!(previous(b"abcd", 3, 0), 2);
}

#[test]
fn going_back_undoes_going_forward() {
    let contents = b"abcdefg\nhi\n\njklmnopqrst\r\nu\nvwxyz\n";
    for width in 1..9 {
        let starts = starts(contents, width);
        for pair in starts.windows(2) {
            assert_eq!(previous(contents, pair[1], width), pair[0]);
        }
    }
}

#[test]
fn going_back_finds_the_line_in_front() {
    let contents = b"abcdefg\nhi\n\njklmnopqrst\r\nu\nvwxyz\n";
    for width in 1..9 {
        let starts = starts(contents, width);
        for offset in 1..=contents.len() as u64 {
            let before = starts.iter().rev().find(|start| **start < offset);
            assert_eq!(Some(&previous(contents, offset, width)), before);
        }
    }
}

#[test]
fn only_the_last_bytes_in_front_are_looked_at() {
    let limit = BACK_SCAN_LIMIT as usize;
    assert_eq!(limit, 1024 * 1024);
    let file = LargeFile::of_length(3_000_000);
    assert_eq!(file.back_scan(2_000_000), (951_424, 1_048_576));
    assert_eq!(file.back_scan(BACK_SCAN_LIMIT), (0, limit));

    let mut contents = vec![b'a'; limit + 10];
    assert_eq!(previous(&contents, limit as u64 + 10, 7), limit as u64 + 3);
    contents[limit + 4] = b'\n';
    assert_eq!(previous(&contents, limit as u64 + 10, 7), limit as u64 + 5);
    assert_eq!(previous(&contents, limit as u64 + 10, 3), limit as u64 + 8);
    assert_eq!(previous(&contents, limit as u64 + 5, 7), limit as u64 - 2);
}

#[test]
fn walks_back_line_by_line() {
    let contents = b"abcdefghij\nk\nlmn";
    assert_eq!(starts(contents, 4), vec![0, 4, 8, 11, 13]);
    assert_eq!(back_from(contents, 13, 4, 1), 11);
    assert_eq!(back_from(contents, 13, 4, 2), 8);
    assert_eq!(back_from(contents, 13, 4, 3), 4);
    assert_eq!(back_from(contents, 13, 4, 4), 0);
    assert_eq!(back_from(contents, 13, 4, 400), 0);
    assert_eq!(back_from(contents, 13, 4, 0), 13);
}

#[test]
fn the_end_shows_the_last_lines() {
    let contents = b"abcdefghij\nk\nlmn";
    let starts = starts(contents, 4);
    for height in 1..5 {
        assert_eq!(near_end(contents, 4, height), starts[5 - height]);
    }
    assert_eq!(near_end(contents, 4, 9), 0);
    assert_eq!(near_end(contents, 4, 0), 16);
    assert_eq!(near_end(b"", 4, 3), 0);
}
