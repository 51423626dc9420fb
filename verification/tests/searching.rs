use large_json_reader::{SearchMatch, Searcher};

fn found(bytes: &[u8], query: &str, from: u64, chunk: usize) -> Vec<u64> {
    let mut searcher = Searcher::new(query, from);
    let mut matches: Vec<SearchMatch> = Vec::new();
    for piece in bytes[from as usize..].chunks(chunk) {
        matches.append(&mut searcher.feed(piece));
        assert_eq!(searcher.matches(), matches.len() as u64);
    }
    matches.iter().map(|found| found.offset).collect()
}

#[test]
fn finds_a_text_wherever_the_pieces_end() {
    let contents = br#"{"name": "Ada", "other name": "name"}"#;
    for chunk in 1..40 {
        assert_eq!(found(contents, "name", 0, chunk), vec![2, 23, 31]);
        assert_eq!(found(contents, "name", 3, chunk), vec![23, 31]);
        assert_eq!(found(contents, "absent", 0, chunk), Vec::<u64>::new());
        assert_eq!(found(contents, "", 0, chunk), Vec::<u64>::new());
    }
}

#[test]
fn matches_do_not_overlap() {
    for chunk in 1..9 {
        assert_eq!(found(b"aaaaa", "aa", 0, chunk), vec![0, 2]);
        assert_eq!(found(b"xaaaa", "aa", 0, chunk), vec![1, 3]);
        assert_eq!(found(b"aabaab", "ab", 0, chunk), vec![1, 4]);
    }
}

#[test]
fn a_query_is_looked_for_in_utf8() {
    let contents = "aé€bé".as_bytes();
    assert_eq!(found(contents, "é", 0, 2), vec![1, 7]);
    assert_eq!(found(contents, "€b", 0, 2), vec![3]);
}

#[test]
fn every_occurrence_is_met() {
    let contents = b"abababbaabababab";
    let query = b"aba";
    let places = found(contents, "aba", 0, 5);
    for at in 0..=contents.len() - query.len() {
        if &contents[at..at + query.len()] == query {
            assert!(places
                .iter()
                .any(|place| *place <= at as u64 && (at as u64) < place + 3));
        }
    }
    for place in &places {
        assert_eq!(&contents[*place as usize..*place as usize + 3], query);
    }
}
