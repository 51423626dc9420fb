use large_json_reader::screen::{counts_as_press, view_height, view_width, KeyKind};
use large_json_reader::style::{key_style, plain_style};
use large_json_reader::{
    App, FormatUpdate, InputMode, Key, KeyPress, LargeFile, NumberedWindow, Request, SearchMatch,
    SearchUpdate,
};

fn window(bytes: &[u8], start: u64, width: usize, height: usize, first: u64) -> NumberedWindow {
    let mut reader = LargeFile::of_length(bytes.len() as u64).read_window(start, width, height);
    if reader.needs_more() {
        reader.feed(&bytes[start as usize..]);
    }
    if reader.needs_more() {
        reader.feed(&[]);
    }
    reader.finish_from_line(first)
}

fn empty_window() -> NumberedWindow {
    NumberedWindow {
        start_offset: 0,
        file_len: 0,
        lines: Vec::new(),
    }
}

fn plain(key: Key) -> KeyPress {
    KeyPress {
        key,
        control: false,
        alt: false,
    }
}

fn press(app: &mut App, key: Key) -> Request {
    app.handle_key(&empty_window(), plain(key), 10)
}

fn type_in(app: &mut App, text: &str) {
    for c in text.chars() {
        assert_eq!(press(app, Key::Char(c)), Request::Nothing);
    }
}

fn found(offset: u64) -> SearchUpdate {
    SearchUpdate::Found(SearchMatch { offset })
}

fn with_matches(offsets: &[u64]) -> App {
    let mut app = App::new(1);
    type_in(&mut app, "/key");
    press(&mut app, Key::Enter);
    app.search_started();
    let updates: Vec<SearchUpdate> = offsets.iter().map(|offset| found(*offset)).collect();
    app.poll_search(&updates, false, Some(5));
    app
}

#[test]
fn begins_at_the_start() {
    let app = App::new(3);
    assert_eq!((app.path, app.active_path), (3, 3));
    assert_eq!((app.offset, app.line_number), (0, 1));
    assert_eq!(app.mode, InputMode::Normal);
    assert_eq!(app.message, "ready");
    assert!(!app.searching && !app.formatting && !app.format_requested);
    assert_eq!(app.formatted_path, None);
    assert_eq!(app.current_match, None);
}

#[test]
fn moves_down() {
    let contents = b"abcdef\nghi\njkl\nm";
    let mut app = App::new(1);
    let shown = window(contents, 0, 4, 4, 1);
    assert_eq!(app.handle_key(&shown, plain(Key::Char('j')), 4), Request::Nothing);
    assert_eq!((app.offset, app.line_number), (4, 1));
    app.handle_key(&shown, plain(Key::Down), 4);
    assert_eq!((app.offset, app.line_number), (4, 1));
    app.handle_key(&shown, plain(Key::PageDown), 4);
    assert_eq!((app.offset, app.line_number), (15, 4));
    app.go_top();
    app.handle_key(&shown, plain(Key::Char(' ')), 4);
    assert_eq!((app.offset, app.line_number), (15, 4));
    app.go_top();
    let half = KeyPress {
        key: Key::Char('d'),
        control: true,
        alt: false,
    };
    app.handle_key(&shown, half, 4);
    assert_eq!((app.offset, app.line_number), (7, 2));
    app.handle_key(&shown, plain(Key::Char('d')), 4);
    assert_eq!((app.offset, app.line_number), (7, 2));
}

#[test]
fn moves_down_behind_the_only_line() {
    let mut app = App::new(1);
    let one = window(b"abc\n", 0, 9, 5, 1);
    app.move_down(&one);
    assert_eq!((app.offset, app.line_number), (4, 2));
    app.go_top();
    app.half_down(&one);
    assert_eq!((app.offset, app.line_number), (4, 2));
    app.move_down(&empty_window());
    app.page_down(&empty_window());
    app.half_down(&empty_window());
    assert_eq!((app.offset, app.line_number), (4, 2));
}

#[test]
fn never_moves_behind_the_end() {
    let mut app = App::new(1);
    let mut grown = window(b"abc\ndef\n", 0, 9, 5, 1);
    grown.file_len = 5;
    app.page_down(&grown);
    assert_eq!((app.offset, app.line_number), (5, 3));
}

#[test]
fn moves_up() {
    let mut app = App::new(1);
    assert_eq!(press(&mut app, Key::Char('k')), Request::WalkBack { rows: 1 });
    assert_eq!(press(&mut app, Key::Up), Request::WalkBack { rows: 1 });
    assert_eq!(press(&mut app, Key::PageUp), Request::WalkBack { rows: 10 });
    let half = KeyPress {
        key: Key::Char('u'),
        control: true,
        alt: false,
    };
    assert_eq!(app.handle_key(&empty_window(), half, 9), Request::WalkBack { rows: 4 });
    assert_eq!(app.handle_key(&empty_window(), half, 1), Request::WalkBack { rows: 1 });
    assert_eq!(press(&mut app, Key::Char('u')), Request::Nothing);
    app.reach(40);
    app.arrive(7);
    assert_eq!((app.offset, app.line_number), (40, 7));
}

#[test]
fn moves_to_both_ends() {
    let mut app = App::new(1);
    app.reach(40);
    app.arrive(7);
    assert_eq!(press(&mut app, Key::Char('g')), Request::Nothing);
    assert_eq!((app.offset, app.line_number), (0, 1));
    assert_eq!(press(&mut app, Key::Char('G')), Request::GoToEnd);
}

#[test]
fn a_number_in_front_leads_to_a_line() {
    let mut app = App::new(1);
    type_in(&mut app, "120");
    assert_eq!((app.pending_count.as_str(), app.message.as_str()), ("120", "120"));
    assert_eq!(press(&mut app, Key::Char('G')), Request::GoToLine { number: 120 });
    assert_eq!(app.pending_count, "120");
    app.reach(99);
    app.arrive_at_line(118);
    assert_eq!(app.pending_count, "");
    assert_eq!((app.offset, app.line_number), (99, 118));
    assert_eq!(app.message, "line 118");
    type_in(&mut app, "0");
    assert_eq!(press(&mut app, Key::Char('G')), Request::GoToLine { number: 1 });
    app.arrive_at_line(1);
    type_in(&mut app, "99999999999999999999");
    assert_eq!(press(&mut app, Key::Char('G')), Request::Nothing);
    type_in(&mut app, "12");
    press(&mut app, Key::Other);
    assert_eq!(app.pending_count, "");
    let modified = KeyPress {
        key: Key::Char('5'),
        control: false,
        alt: true,
    };
    app.handle_key(&empty_window(), modified, 10);
    assert_eq!(app.pending_count, "");
}

#[test]
fn quits() {
    let mut app = App::new(1);
    assert_eq!(press(&mut app, Key::Char('q')), Request::Quit);
    assert_eq!(press(&mut app, Key::Esc), Request::Quit);
    type_in(&mut app, ": q ");
    assert_eq!(press(&mut app, Key::Enter), Request::Quit);
}

#[test]
fn carries_out_commands() {
    let mut app = App::new(1);
    type_in(&mut app, "7:");
    assert_eq!(app.mode, InputMode::Command);
    assert_eq!((app.message.as_str(), app.pending_count.as_str()), ("enter command", ""));
    type_in(&mut app, "+42");
    assert_eq!(app.command_input, "+42");
    assert_eq!(press(&mut app, Key::Enter), Request::GoToLine { number: 42 });
    assert_eq!(app.mode, InputMode::Normal);

    type_in(&mut app, ":");
    assert_eq!(app.command_input, "");
    assert_eq!(press(&mut app, Key::Enter), Request::Nothing);
    assert_eq!(app.message, "empty command ignored");

    type_in(&mut app, ":wq ");
    assert_eq!(press(&mut app, Key::Enter), Request::Nothing);
    assert_eq!(app.message, "unknown command: wq");

    type_in(&mut app, ":x");
    assert_eq!(press(&mut app, Key::Esc), Request::Nothing);
    assert_eq!((app.mode, app.message.as_str()), (InputMode::Normal, "command cancelled"));
}

#[test]
fn backspace_undoes_typing() {
    let mut app = App::new(1);
    type_in(&mut app, "/aé");
    press(&mut app, Key::Backspace);
    assert_eq!(app.search_input, "a");
    press(&mut app, Key::Backspace);
    press(&mut app, Key::Backspace);
    assert_eq!(app.search_input, "");
    press(&mut app, Key::Esc);
    type_in(&mut app, ":12");
    press(&mut app, Key::Backspace);
    assert_eq!(app.command_input, "1");
    let modified = KeyPress {
        key: Key::Char('x'),
        control: true,
        alt: false,
    };
    assert_eq!(app.handle_key(&empty_window(), modified, 10), Request::Nothing);
    press(&mut app, Key::Up);
    assert_eq!(app.command_input, "1");
}

#[test]
fn typing_leaves_the_view() {
    let mut app = App::new(1);
    app.reach(40);
    app.arrive(7);
    type_in(&mut app, "/jkgGnNfq");
    assert_eq!(app.search_input, "jkgGnNfq");
    assert_eq!((app.offset, app.line_number), (40, 7));
    assert_eq!(app.mode, InputMode::Search);
}

#[test]
fn begins_a_search() {
    let mut app = App::new(1);
    app.reach(40);
    app.arrive(7);
    type_in(&mut app, "/");
    assert_eq!((app.mode, app.message.as_str()), (InputMode::Search, "enter search query"));
    assert_eq!(press(&mut app, Key::Enter), Request::Nothing);
    assert_eq!(app.message, "empty search ignored");
    assert!(!app.searching);

    type_in(&mut app, "/key");
    assert_eq!(press(&mut app, Key::Enter), Request::StartSearch { path: 1, from: 40 });
    assert_eq!(app.mode, InputMode::Normal);
    assert_eq!(app.search_query, "key");
    app.search_started();
    assert_eq!(app.message, "searching /key in background");
    assert!(app.searching);

    type_in(&mut app, "/x");
    press(&mut app, Key::Esc);
    assert_eq!(app.message, "search cancelled");
    assert_eq!(app.search_query, "key");
}

#[test]
fn the_first_match_is_shown() {
    let mut app = App::new(1);
    type_in(&mut app, "/key");
    press(&mut app, Key::Enter);
    app.search_started();
    let updates = vec![
        SearchUpdate::Progress { bytes_scanned: 2048 },
        found(70),
        found(90),
    ];
    assert_eq!(app.wanted_line(&updates), Some(70));
    app.poll_search(&updates, false, Some(5));
    assert_eq!((app.offset, app.line_number), (70, 5));
    assert_eq!(app.current_match, Some(0));
    assert_eq!(app.search_matches.len(), 2);
    assert_eq!(app.message, "match 1/2 for /key");
    assert!(app.searching);

    let later = vec![found(120)];
    assert_eq!(app.wanted_line(&later), None);
    app.reach(3);
    app.arrive(1);
    app.poll_search(&later, false, None);
    assert_eq!((app.offset, app.line_number), (3, 1));
    assert_eq!(app.message, "match 1/3 for /key");
}

#[test]
fn an_unknown_line_keeps_the_old_number() {
    let mut app = App::new(1);
    app.reach(1);
    app.arrive(9);
    app.poll_search(&vec![found(70)], false, None);
    assert_eq!((app.offset, app.line_number), (70, 9));
    app.located(None);
    assert_eq!(app.line_number, 9);
    app.located(Some(4));
    assert_eq!((app.offset, app.line_number), (70, 4));
}

#[test]
fn tells_how_the_search_goes() {
    let mut app = with_matches(&[]);
    app.poll_search(&vec![SearchUpdate::Progress { bytes_scanned: 1536 }], false, None);
    assert_eq!(app.message, "searching /key; scanned 1.5 KiB");
    assert!(app.searching);
    app.poll_search(&vec![SearchUpdate::Finished { matches: 0 }], false, None);
    assert_eq!(app.message, "no match for /key");
    assert!(!app.searching);

    let mut app = with_matches(&[1, 2]);
    app.poll_search(&vec![SearchUpdate::Finished { matches: 2 }], false, None);
    assert_eq!(app.message, "search done: 2 matches for /key");
    assert!(!app.searching);

    let mut app = with_matches(&[]);
    app.poll_search(&vec![SearchUpdate::Failed("gone".to_owned())], false, None);
    assert_eq!(app.message, "search failed: gone");
    assert!(!app.searching);

    let mut app = with_matches(&[]);
    app.poll_search(&Vec::new(), true, None);
    assert!(!app.searching);
}

#[test]
fn goes_round_the_matches() {
    let mut app = with_matches(&[10, 20, 30]);
    assert_eq!(press(&mut app, Key::Char('n')), Request::LocateOffset);
    assert_eq!((app.offset, app.current_match), (20, Some(1)));
    assert_eq!(app.message, "match 2/3 for /key");
    press(&mut app, Key::Char('N'));
    assert_eq!((app.offset, app.current_match), (10, Some(0)));
    press(&mut app, Key::Char('N'));
    assert_eq!((app.offset, app.current_match), (30, Some(2)));
    assert_eq!(app.message, "match 3/3 for /key");
    for _ in 0..3 {
        press(&mut app, Key::Char('n'));
    }
    assert_eq!((app.offset, app.current_match), (30, Some(2)));
}

#[test]
fn tells_that_there_is_no_match() {
    let mut app = App::new(1);
    assert_eq!(press(&mut app, Key::Char('n')), Request::Nothing);
    assert_eq!(app.message, "no active search");
    let mut app = with_matches(&[]);
    press(&mut app, Key::Char('N'));
    assert_eq!(app.message, "search running; no match yet");
    app.poll_search(&Vec::new(), true, None);
    press(&mut app, Key::Char('n'));
    assert_eq!(app.message, "no match for /key");
}

fn finished(path: u64, bytes_read: u64) -> FormatUpdate {
    FormatUpdate::Finished { path, bytes_read }
}

#[test]
fn shows_the_formatted_view_and_the_raw_one() {
    let mut app = with_matches(&[10]);
    assert_eq!(app.view_label(), "raw");
    assert_eq!(press(&mut app, Key::Char('f')), Request::StartFormat { path: 1 });
    app.format_started();
    assert_eq!(app.view_label(), "formatting");
    assert_eq!(app.message, "formatting in background; raw view active");
    assert!(app.formatting && app.format_requested);
    assert!(app.poll_format(&vec![FormatUpdate::Progress { bytes_read: 10 }], false, 0));
    assert_eq!(app.message, "formatting in background; read 10 B; raw view active");

    let done = vec![finished(2, 3072)];
    assert_eq!(app.wanted_files(&done), vec![2]);
    assert!(app.poll_format(&done, false, 1));
    assert_eq!(app.view_label(), "formatted");
    assert_eq!(app.message, "formatted view ready; read 3.0 KiB");
    assert_eq!((app.active_path, app.formatted_path), (2, Some(2)));
    assert_eq!((app.offset, app.line_number), (0, 1));
    assert!(app.search_matches.is_empty() && app.search_query.is_empty());
    assert_eq!(app.current_match, None);
    assert!(!app.formatting && !app.searching);

    assert_eq!(press(&mut app, Key::Char('f')), Request::OpenFile { path: 1 });
    app.show_opened(1);
    assert_eq!((app.view_label(), app.message.as_str()), ("raw", "raw view"));
    assert_eq!(app.active_path, 1);
    assert_eq!(press(&mut app, Key::Char('f')), Request::OpenFile { path: 2 });
    app.show_opened(2);
    assert_eq!((app.view_label(), app.message.as_str()), ("formatted", "formatted view"));
}

#[test]
fn formatting_goes_on_when_the_raw_view_is_asked_for() {
    let mut app = App::new(1);
    press(&mut app, Key::Char('f'));
    app.format_started();
    assert_eq!(press(&mut app, Key::Char('f')), Request::OpenFile { path: 1 });
    app.show_opened(1);
    assert!(app.formatting && !app.format_requested);
    assert_eq!(press(&mut app, Key::Char('f')), Request::Nothing);
    assert_eq!(app.message, "formatting in background; raw view active");
    press(&mut app, Key::Char('f'));
    app.show_opened(1);
    let done = vec![finished(2, 1)];
    assert_eq!(app.wanted_files(&done), Vec::<u64>::new());
    assert!(app.poll_format(&done, false, 0));
    assert_eq!(app.message, "formatted view ready; press f to open");
    assert_eq!((app.active_path, app.formatted_path), (1, Some(2)));
}

#[test]
fn tells_that_formatting_failed() {
    let mut app = App::new(1);
    press(&mut app, Key::Char('f'));
    app.format_started();
    let updates = vec![FormatUpdate::Failed("full".to_owned()), finished(2, 1)];
    assert_eq!(app.wanted_files(&updates), Vec::<u64>::new());
    assert!(app.poll_format(&updates[..1].to_vec(), false, 0));
    assert_eq!(app.message, "format failed: full");
    assert!(!app.format_requested && !app.formatting);
    press(&mut app, Key::Char('f'));
    app.format_started();
    assert!(app.poll_format(&Vec::new(), true, 0));
    assert!(app.format_requested && !app.formatting);
}

#[test]
fn a_file_that_cannot_be_opened_changes_nothing() {
    let mut app = with_matches(&[10]);
    press(&mut app, Key::Char('f'));
    app.format_started();
    let progress = FormatUpdate::Progress { bytes_read: 2048 };
    let updates = vec![progress, finished(2, 3072), FormatUpdate::Failed("later".to_owned())];
    assert_eq!(app.wanted_files(&updates), vec![2]);
    assert!(!app.poll_format(&updates, true, 0));
    assert_eq!(app.message, "formatting in background; read 2.0 KiB; raw view active");
    assert_eq!((app.active_path, app.formatted_path), (1, Some(2)));
    assert_eq!((app.offset, app.line_number), (10, 5));
    assert_eq!(app.search_query, "key");
    assert!(app.formatting && app.format_requested && app.searching);

    type_in(&mut app, "7");
    assert_eq!(press(&mut app, Key::Char('f')), Request::OpenFile { path: 1 });
    assert!(!app.format_requested);
    assert_eq!((app.message.as_str(), app.pending_count.as_str()), ("7", "7"));
    assert_eq!((app.offset, app.line_number), (10, 5));
    assert_eq!(app.search_matches.len(), 1);
}

#[test]
fn a_step_that_fails_leaves_the_view() {
    let mut app = with_matches(&[10]);
    type_in(&mut app, "/other");
    let asked = press(&mut app, Key::Enter);
    assert_eq!(asked, Request::StartSearch { path: 1, from: 10 });
    assert_eq!(app.search_query, "other");
    assert_eq!(app.message, "enter search query");
    assert!(app.searching && app.search_matches.is_empty());

    let mut app = App::new(1);
    type_in(&mut app, "3");
    assert_eq!(press(&mut app, Key::Char('f')), Request::StartFormat { path: 1 });
    assert!(app.format_requested && !app.formatting);
    assert_eq!((app.message.as_str(), app.pending_count.as_str()), ("3", "3"));
    app.format_started();
    assert!(app.formatting && app.pending_count.is_empty());

    type_in(&mut app, "3");
    assert_eq!(press(&mut app, Key::PageUp), Request::WalkBack { rows: 10 });
    app.reach(8);
    assert_eq!((app.offset, app.line_number), (8, 1));
    assert_eq!(app.pending_count, "3");
    app.arrive(2);
    assert_eq!((app.offset, app.line_number), (8, 2));
    assert_eq!(app.pending_count, "");
}

#[test]
fn places_are_kept_in_their_order() {
    let mut app = with_matches(&[10, 20]);
    app.poll_search(&vec![found(30), SearchUpdate::Progress { bytes_scanned: 1 }, found(40)], false, None);
    let offsets: Vec<u64> = app.search_matches.iter().map(|found| found.offset).collect();
    assert_eq!(offsets, vec![10, 20, 30, 40]);
    assert!(app.searching);
}

#[test]
fn tells_where_it_is_in_the_title() {
    let mut app = App::new(1);
    app.reach(512);
    app.arrive(17);
    assert_eq!(
        app.title("/tmp/a.json", 2048, "25.0"),
        " /tmp/a.json [raw]  line 17 byte 512 / 2048 bytes (25.0%) "
    );
}

#[test]
fn the_status_line_tells_the_message_and_the_keys() {
    let app = App::new(1);
    let spans = app.status_line();
    let text: String = spans.iter().map(|span| span.text.as_str()).collect();
    assert_eq!(
        text,
        "ready   q quit  / search  n/N next/prev  f format  :line countG jump  j/k PgUp/PgDn g/G move"
    );
    for (index, span) in spans.iter().enumerate() {
        let key = index >= 2 && index % 2 == 0;
        assert_eq!(span.style, if key { key_style() } else { plain_style() });
    }
}

#[test]
fn the_status_line_tells_what_is_typed() {
    let mut app = App::new(1);
    type_in(&mut app, "/ab");
    let texts: Vec<String> = app.status_line().into_iter().map(|span| span.text).collect();
    assert_eq!(texts, vec![" / ", "ab", "  Enter search  Esc cancel"]);
    press(&mut app, Key::Esc);
    type_in(&mut app, ":12");
    let spans = app.status_line();
    assert_eq!(spans[0].style, key_style());
    let texts: Vec<String> = spans.into_iter().map(|span| span.text).collect();
    assert_eq!(texts, vec![" : ", "12", "  Enter run  Esc cancel"]);
}

#[test]
fn the_view_fits_the_terminal() {
    assert_eq!(view_height(24), 21);
    assert_eq!(view_height(4), 1);
    assert_eq!(view_height(3), 1);
    assert_eq!(view_height(0), 1);
    assert_eq!(view_width(80, 5), 73);
    assert_eq!(view_width(8, 5), 1);
    assert_eq!(view_width(7, 5), 1);
    assert_eq!(view_width(0, 3), 1);
    let mut app = App::new(1);
    assert_eq!(app.gutter_width_hint(21), 4);
    assert_eq!(app.gutter_width_hint(8), 3);
    app.reach(0);
    app.arrive(990);
    assert_eq!(app.gutter_width_hint(10), 6);
}

#[test]
fn a_key_that_is_let_go_does_not_count() {
    assert!(counts_as_press(KeyKind::Press));
    assert!(counts_as_press(KeyKind::Repeat));
    assert!(!counts_as_press(KeyKind::Release));
}

#[test]
fn moving_down_keeps_the_line_number() {
    let contents = b"abcdefghi\nj\n\nklmnop\nq";
    let mut app = App::new(1);
    for _ in 0..12 {
        let shown = window(contents, app.offset, 4, 3, app.line_number);
        app.move_down(&shown);
        let before = contents[..app.offset as usize].iter().filter(|b| **b == b'\n').count();
        assert_eq!(app.line_number, before as u64 + 1);
    }
    assert_eq!(app.offset, contents.len() as u64);
}
