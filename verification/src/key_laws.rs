use vstd::arithmetic::div_mod::{
    lemma_mod_add_multiples_vanish, lemma_mod_self_0, lemma_small_mod,
};
use vstd::prelude::*;

use crate::app::{
    ends_format, first_found, match_message, no_match_message, App, AppState, FormatUpdate,
    InputMode, Key, KeyPress, Request, SearchMatch, SearchUpdate,
};
use crate::keys::half;
use crate::screen::{left_over, title_of};
use crate::size::human_size;
use crate::text::{decimal, parsed_u64, trim_back, trim_front};
use crate::text_laws::{
    law_digits_are_as_many_as_needed, law_digits_have_their_places, law_numbers_are_read_as_written,
    zeros,
};
use crate::window::NumberedWindow;

verus! {

/// A key that is pressed with no other key held.
pub open spec fn plain_press(key: Key) -> KeyPress {
    KeyPress { key, control: false, alt: false }
}

/// A character that is typed while the control key is held.
pub open spec fn control_press(ch: char) -> KeyPress {
    KeyPress { key: Key::Char(ch), control: true, alt: false }
}

/// Whatever is typed into a query or a command stands behind what was typed before, and nothing else
/// changes.
pub proof fn law_typing_appends(state: AppState, window: NumberedWindow, ch: char, height: usize)
    ensures
        state.mode == InputMode::Search ==> state.key_taken(
            window,
            plain_press(Key::Char(ch)),
            height,
        ) == (AppState { search_input: state.search_input.push(ch), ..state }, Request::Nothing),
        state.mode == InputMode::Command ==> state.key_taken(
            window,
            plain_press(Key::Char(ch)),
            height,
        ) == (AppState { command_input: state.command_input.push(ch), ..state }, Request::Nothing),
{
}

/// Digits that are typed in front of a key are collected one behind the other, and shown; nothing else
/// changes.
pub proof fn law_digits_are_collected(
    state: AppState,
    window: NumberedWindow,
    digit: char,
    height: usize,
)
    requires
        state.mode == InputMode::Normal,
        '0' <= digit <= '9',
    ensures
        state.key_taken(window, plain_press(Key::Char(digit)), height) == (
            AppState {
                pending_count: state.pending_count.push(digit),
                message: state.pending_count.push(digit),
                ..state
            },
            Request::Nothing,
        ),
{
}

/// A number in front of `G` leads to the line with that number; the line zero is the first one.
pub proof fn law_number_leads_to_its_line(
    state: AppState,
    window: NumberedWindow,
    count: nat,
    number: u64,
    height: usize,
)
    requires
        state.mode == InputMode::Normal,
        state.pending_count == zeros(count) + decimal(number as nat),
    ensures
        state.key_taken(window, plain_press(Key::Char('G')), height).1 == (Request::GoToLine {
            number: if number == 0 {
                1
            } else {
                number
            },
        }),
{
    law_numbers_are_read_as_written(state.pending_count, number);
    assert(state.pending_count == zeros(count) + decimal(number as nat));
    assert(parsed_u64(state.pending_count) == Some(number));
}

/// A number as a command leads to the line with that number, with any whitespace around it.
pub proof fn law_number_is_a_command(
    state: AppState,
    window: NumberedWindow,
    count: nat,
    number: u64,
    height: usize,
)
    requires
        state.mode == InputMode::Command,
        trim_back(trim_front(state.command_input)) == zeros(count) + decimal(number as nat),
    ensures
        state.key_taken(window, plain_press(Key::Enter), height) == (
            AppState { mode: InputMode::Normal, ..state },
            Request::GoToLine {
                number: if number == 0 {
                    1
                } else {
                    number
                },
            },
        ),
{
    let command = trim_back(trim_front(state.command_input));
    law_numbers_are_read_as_written(command, number);
    assert(parsed_u64(command) == Some(number));
    reveal_strlit("q");
    law_digits_are_as_many_as_needed(number as nat);
    law_digits_have_their_places(number as nat, 0);
    if command == "q"@ {
        assert(command.last() == 'q');
        assert(command.last() == decimal(number as nat).last());
    }
}

/// The command `q`, with any whitespace around it, quits; a command that is neither that nor a number is
/// told back, and nothing is done.
pub proof fn law_other_commands_are_told_back(
    state: AppState,
    window: NumberedWindow,
    height: usize,
)
    requires
        state.mode == InputMode::Command,
    ensures
        ({
            let command = trim_back(trim_front(state.command_input));
            let (after, request) = state.key_taken(window, plain_press(Key::Enter), height);
            &&& after.mode == InputMode::Normal
            &&& request == Request::Quit <==> command == seq!['q']
            &&& (forall|n: u64| parsed_u64(command) != Some(n)) && command != seq!['q']
                && command.len() > 0 ==> {
                &&& request == Request::Nothing
                &&& after.message.len() >= command.len()
                &&& after.message.skip(after.message.len() - command.len()) == command
                &&& after.offset == state.offset
            }
        }),
{
    let command = trim_back(trim_front(state.command_input));
    reveal_strlit("q");
    assert("q"@ =~= seq!['q']);
    let (after, request) = state.key_taken(window, plain_press(Key::Enter), height);
    if (forall|n: u64| parsed_u64(command) != Some(n)) && command != seq!['q'] && command.len() > 0 {
        assert(parsed_u64(command) is None) by {
            if let Some(n) = parsed_u64(command) {
                assert(parsed_u64(command) != Some(n));
            }
        }
        assert(after.message.skip(after.message.len() - command.len()) == command);
    }
}

/// How far the keys go: one line up, a screen up, half a screen up but at least one line; and one line
/// down is to the second line of the screen, a screen down to what the last line says is next, half a
/// screen down to the line in the middle.
pub proof fn law_keys_go_their_way(state: AppState, window: NumberedWindow, height: usize)
    requires
        state.mode == InputMode::Normal,
        state.pending_count.len() == 0,
    ensures
        state.key_taken(window, plain_press(Key::Up), height) == (
            state,
            Request::WalkBack { rows: 1 },
        ),
        state.key_taken(window, plain_press(Key::Char('k')), height) == (
            state,
            Request::WalkBack { rows: 1 },
        ),
        state.key_taken(window, plain_press(Key::PageUp), height) == (
            state,
            Request::WalkBack { rows: height },
        ),
        ({
            let (after, request) = state.key_taken(window, control_press('u'), height);
            &&& after == state
            &&& request matches Request::WalkBack { rows } && (if height < 2 {
                rows == 1
            } else {
                2 * rows <= height < 2 * rows + 2
            })
        }),
        state.key_taken(window, plain_press(Key::Char('G')), height) == (state, Request::GoToEnd),
        state.key_taken(window, plain_press(Key::Char('g')), height) == (
            AppState { offset: 0, line_number: 1, ..state },
            Request::Nothing,
        ),
        window.lines@.len() > 1 ==> state.key_taken(window, plain_press(Key::Down), height) == (
            AppState {
                offset: window.lines@[1].line.start_offset,
                line_number: window.lines@[1].line_number,
                ..state
            },
            Request::Nothing,
        ),
        state.key_taken(window, plain_press(Key::Char('j')), height) == state.key_taken(
            window,
            plain_press(Key::Down),
            height,
        ),
        window.lines@.len() > 0 && window.lines@.last().line.next_offset <= window.file_len
            ==> state.key_taken(window, plain_press(Key::PageDown), height) == (
            AppState {
                offset: window.lines@.last().line.next_offset,
                line_number: window.lines@.last().next_line_number,
                ..state
            },
            Request::Nothing,
        ),
        state.key_taken(window, plain_press(Key::Char(' ')), height) == state.key_taken(
            window,
            plain_press(Key::PageDown),
            height,
        ),
        window.lines@.len() > 1 ==> exists|middle: int|
            {
                &&& 1 <= middle < window.lines@.len()
                &&& 2 * middle <= window.lines@.len() < 2 * middle + 2
                &&& state.key_taken(window, control_press('d'), height) == (
                    AppState {
                        offset: (#[trigger] window.lines@[middle]).line.start_offset,
                        line_number: window.lines@[middle].line_number,
                        ..state
                    },
                    Request::Nothing,
                )
            },
{
    if window.lines@.len() > 1 {
        let middle = (window.lines@.len() / 2) as int;
        let line = window.lines@[middle];
        assert(half(window.lines@.len()) == middle);
        assert(state.key_taken(window, control_press('d'), height) == (
            AppState {
                offset: line.line.start_offset,
                line_number: line.line_number,
                ..state
            },
            Request::Nothing,
        ));
    }
}

/// Going to the next place counts up, and round at the end; going to the one before counts down.
pub proof fn law_places_count_round(state: AppState)
    requires
        state.well_formed(),
        0 < state.search_matches.len() <= usize::MAX,
    ensures
        ({
            let count = state.search_matches.len() as int;
            let current = state.current_match->0 as int;
            &&& state.jumped(true).0.current_match->0 == (current + 1) % count
            &&& state.jumped(false).0.current_match->0 == (current + count - 1) % count
        }),
{
    let count = state.search_matches.len() as int;
    let current = state.current_match->0 as int;
    if current + 1 < count {
        lemma_small_mod((current + 1) as nat, count as nat);
    } else {
        lemma_mod_self_0(count);
    }
    if current > 0 {
        lemma_mod_add_multiples_vanish(current - 1, count);
        lemma_small_mod((current - 1) as nat, count as nat);
    } else {
        lemma_small_mod((count - 1) as nat, count as nat);
    }
}

/// The message about a place names its number, how many there are and the whole query; the message that
/// nothing was found names the whole query.
pub proof fn law_messages_name_the_query(number: nat, count: nat, query: Seq<char>)
    ensures
        match_message(number, count, query) == seq!['m', 'a', 't', 'c', 'h', ' '] + decimal(number)
            + seq!['/'] + decimal(count) + seq![' ', 'f', 'o', 'r', ' ', '/'] + query,
        no_match_message(query).len() >= query.len(),
        no_match_message(query).skip(no_match_message(query).len() - query.len()) == query,
{
    reveal_strlit("match ");
    reveal_strlit("/");
    reveal_strlit(" for /");
    assert("match "@ =~= seq!['m', 'a', 't', 'c', 'h', ' ']);
    assert("/"@ =~= seq!['/']);
    assert(" for /"@ =~= seq![' ', 'f', 'o', 'r', ' ', '/']);
    assert(no_match_message(query).skip(no_match_message(query).len() - query.len()) == query);
}

/// The place that is asked for first is that of the first update that tells one.
pub proof fn law_first_found_is_the_first(updates: Seq<SearchUpdate>)
    ensures
        match first_found(updates) {
            Some(offset) => exists|i: int|
                {
                    &&& 0 <= i < updates.len()
                    &&& #[trigger] updates[i] == SearchUpdate::Found(SearchMatch { offset })
                    &&& forall|k: int| 0 <= k < i ==> !(#[trigger] updates[k] is Found)
                },
            None => forall|k: int| 0 <= k < updates.len() ==> !(#[trigger] updates[k] is Found),
        },
    decreases updates.len(),
{
    if updates.len() > 0 {
        let rest = updates.drop_first();
        if updates[0] is Found {
            assert(updates[0] == SearchUpdate::Found(
                SearchMatch { offset: first_found(updates)->0 },
            ));
        } else {
            law_first_found_is_the_first(rest);
            match first_found(rest) {
                Some(offset) => {
                    let i = choose|i: int|
                        {
                            &&& 0 <= i < rest.len()
                            &&& #[trigger] rest[i] == SearchUpdate::Found(SearchMatch { offset })
                            &&& forall|k: int| 0 <= k < i ==> !(#[trigger] rest[k] is Found)
                        };
                    assert(updates[i + 1] == rest[i]);
                    assert forall|k: int| 0 <= k < i + 1 implies !(#[trigger] updates[k] is Found) by {
                        if k > 0 {
                            assert(updates[k] == rest[k - 1]);
                        }
                    }
                },
                None => {
                    assert forall|k: int| 0 <= k < updates.len() implies !(
                    #[trigger] updates[k] is Found) by {
                        if k > 0 {
                            assert(updates[k] == rest[k - 1]);
                        }
                    }
                },
            }
        }
    }
}

/// A file that is shown anew is shown from its start on, and nothing that was typed or found for another
/// one is kept; the rest of the state is.
pub proof fn law_switching_forgets(state: AppState, path: u64, message: Seq<char>)
    ensures
        ({
            let after = state.switched_to(path, message);
            &&& after.active_path == path
            &&& after.message == message
            &&& after.offset == 0
            &&& after.line_number == 1
            &&& !after.searching
            &&& after.search_matches.len() == 0
            &&& after.current_match is None
            &&& after.search_query.len() == 0
            &&& after.search_input.len() == 0
            &&& after.command_input.len() == 0
            &&& after.pending_count.len() == 0
            &&& after.path == state.path
            &&& after.mode == state.mode
            &&& after.format_requested == state.format_requested
            &&& after.formatting == state.formatting
            &&& after.formatted_path == state.formatted_path
        }),
{
}

/// A search that is begun looks for what was typed, from the place that is shown in the file that is
/// shown, and forgets what another one has found.
pub proof fn law_search_looks_for_what_was_typed(
    state: AppState,
    window: NumberedWindow,
    height: usize,
)
    requires
        state.mode == InputMode::Search,
        state.search_input.len() > 0,
    ensures
        ({
            let (after, request) = state.key_taken(window, plain_press(Key::Enter), height);
            &&& request == (Request::StartSearch { path: state.active_path, from: state.offset })
            &&& after.search_query == state.search_input
            &&& after.search_matches.len() == 0
            &&& after.current_match is None
            &&& after.mode == InputMode::Normal
        }),
{
}

/// The state that the laws speak of is what the fields hold.
pub proof fn law_state_is_what_the_fields_hold(app: App)
    ensures
        app@.path == app.path,
        app@.active_path == app.active_path,
        app@.offset == app.offset,
        app@.line_number == app.line_number,
        app@.mode == app.mode,
        app@.search_input == app.search_input@,
        app@.command_input == app.command_input@,
        app@.pending_count == app.pending_count@,
        app@.search_query == app.search_query@,
        app@.searching == app.searching,
        app@.search_matches == app.search_matches@,
        app@.current_match == app.current_match,
        app@.format_requested == app.format_requested,
        app@.formatting == app.formatting,
        app@.formatted_path == app.formatted_path,
        app@.message == app.message@,
{
}

/// What is left over is the difference, unless that is less than the least.
pub proof fn law_left_over(from: int, what: int, least: int)
    ensures
        left_over(from, what, least) >= least,
        left_over(from, what, least) >= from - what,
        left_over(from, what, least) == least || left_over(from, what, least) == from - what,
{
}

/// The title names the path, the view, the line, the offset, the length and the percentage, in this
/// order.
pub proof fn law_title_names_its_parts(
    path: Seq<char>,
    label: Seq<char>,
    line_number: nat,
    offset: nat,
    file_len: nat,
    percent: Seq<char>,
)
    ensures
        title_of(path, label, line_number, offset, file_len, percent) == seq![' '] + path + seq![
            ' ',
            '[',
        ] + label + seq![']', ' ', ' ', 'l', 'i', 'n', 'e', ' '] + decimal(line_number) + seq![
            ' ',
            'b',
            'y',
            't',
            'e',
            ' ',
        ] + decimal(offset) + seq![' ', '/', ' '] + decimal(file_len) + seq![
            ' ',
            'b',
            'y',
            't',
            'e',
            's',
            ' ',
            '(',
        ] + percent + seq!['%', ')', ' '],
{
    reveal_strlit(" ");
    reveal_strlit(" [");
    reveal_strlit("]  line ");
    reveal_strlit(" byte ");
    reveal_strlit(" / ");
    reveal_strlit(" bytes (");
    reveal_strlit("%) ");
    assert(" "@ =~= seq![' ']);
    assert(" ["@ =~= seq![' ', '[']);
    assert("]  line "@ =~= seq![']', ' ', ' ', 'l', 'i', 'n', 'e', ' ']);
    assert(" byte "@ =~= seq![' ', 'b', 'y', 't', 'e', ' ']);
    assert(" / "@ =~= seq![' ', '/', ' ']);
    assert(" bytes ("@ =~= seq![' ', 'b', 'y', 't', 'e', 's', ' ', '(']);
    assert("%) "@ =~= seq!['%', ')', ' ']);
}

/// A character that is typed while control or alt is held does not become part of a query or a command.
pub proof fn law_held_keys_type_nothing(
    state: AppState,
    window: NumberedWindow,
    press: KeyPress,
    height: usize,
)
    requires
        state.mode != InputMode::Normal,
        press.control || press.alt,
        press.key is Char,
    ensures
        state.key_taken(window, press, height) == (state, Request::Nothing),
{
}

/// While the file is shown, `q` and Esc quit, and a key without a meaning only uses up the number that was
/// typed in front of it.
pub proof fn law_other_keys_do_nothing(
    state: AppState,
    window: NumberedWindow,
    press: KeyPress,
    height: usize,
)
    requires
        state.mode == InputMode::Normal,
    ensures
        press.key == Key::Esc || press.key == Key::Char('q') ==> state.key_taken(
            window,
            press,
            height,
        ) == (state, Request::Quit),
        ({
            ||| press.key == Key::Enter || press.key == Key::Backspace || press.key == Key::Other
            ||| press.key matches Key::Char(ch) && (press.control || press.alt || !('0' <= ch
                <= '9')) && ch != 'q' && ch != 'j' && ch != 'k' && ch != ' ' && ch != 'g' && ch
                != 'G' && ch != '/' && ch != ':' && ch != 'n' && ch != 'N' && ch != 'f' && (
            press.control ==> ch != 'd' && ch != 'u')
        }) ==> state.key_taken(window, press, height) == (
            AppState { pending_count: Seq::empty(), ..state },
            Request::Nothing,
        ),
{
}

/// Asking for a query or for a command begins it anew, and changes nothing of what is shown.
pub proof fn law_asking_begins_anew(state: AppState, window: NumberedWindow, height: usize)
    requires
        state.mode == InputMode::Normal,
    ensures
        state.key_taken(window, plain_press(Key::Char('/')), height) == (
            AppState {
                mode: InputMode::Search,
                search_input: Seq::empty(),
                pending_count: Seq::empty(),
                message: "enter search query"@,
                ..state
            },
            Request::Nothing,
        ),
        state.key_taken(window, plain_press(Key::Char(':')), height) == (
            AppState {
                mode: InputMode::Command,
                command_input: Seq::empty(),
                pending_count: Seq::empty(),
                message: "enter command"@,
                ..state
            },
            Request::Nothing,
        ),
{
}

/// Breaking off a query or a command goes back to the file and changes nothing else but the message.
pub proof fn law_breaking_off_goes_back(state: AppState, window: NumberedWindow, height: usize)
    ensures
        state.mode == InputMode::Search ==> state.key_taken(window, plain_press(Key::Esc), height)
            == (
            AppState { mode: InputMode::Normal, message: "search cancelled"@, ..state },
            Request::Nothing,
        ),
        state.mode == InputMode::Command ==> state.key_taken(window, plain_press(Key::Esc), height)
            == (
            AppState { mode: InputMode::Normal, message: "command cancelled"@, ..state },
            Request::Nothing,
        ),
{
}

/// Going to another place that was found changes the place, the offset and the message, and nothing else;
/// without any place only the message says why.
pub proof fn law_jumping_changes_the_place_only(state: AppState, forward: bool)
    requires
        state.well_formed(),
        state.search_matches.len() <= usize::MAX,
    ensures
        ({
            let (after, request) = state.jumped(forward);
            if state.search_matches.len() == 0 {
                &&& request == Request::Nothing
                &&& after == (AppState {
                    message: if state.searching {
                        "search running; no match yet"@
                    } else if state.search_query.len() == 0 {
                        "no active search"@
                    } else {
                        "no match for /"@ + state.search_query
                    },
                    ..state
                })
            } else {
                &&& request == Request::LocateOffset
                &&& after == (AppState {
                    current_match: after.current_match,
                    offset: state.search_matches[after.current_match->0 as int].offset,
                    message: "match "@ + decimal((after.current_match->0 + 1) as nat) + "/"@
                        + decimal(state.search_matches.len()) + " for /"@ + state.search_query,
                    ..state
                })
            }
        }),
{
}

/// What the search tells changes the places, what is shown of them and the message; what was typed, the
/// files and the rest stay.
pub proof fn law_search_leaves_the_rest(
    state: AppState,
    updates: Seq<SearchUpdate>,
    line: Option<u64>,
)
    ensures
        ({
            let after = state.after_search_updates(updates, line);
            after == (AppState {
                offset: after.offset,
                line_number: after.line_number,
                search_matches: after.search_matches,
                current_match: after.current_match,
                message: after.message,
                ..state
            })
        }),
    decreases updates.len(),
{
    if updates.len() > 0 {
        law_search_leaves_the_rest(state, updates.drop_last(), line);
    }
}

/// What the messages of the search say: the whole query, how much was scanned, how many places there are,
/// or why it has failed.
pub proof fn law_search_says_how_it_goes(
    state: AppState,
    found: SearchMatch,
    number: u64,
    reason: String,
    line: Option<u64>,
)
    requires
        state.well_formed(),
    ensures
        state.after_search_update(SearchUpdate::Found(found), line).message == "match "@ + decimal(
            match state.current_match {
                Some(index) => (index + 1) as nat,
                None => 1,
            },
        ) + "/"@ + decimal(state.search_matches.len() + 1) + " for /"@ + state.search_query,
        state.after_search_update(SearchUpdate::Progress { bytes_scanned: number }, line).message
            == "searching /"@ + state.search_query + "; scanned "@ + human_size(number as nat),
        state.after_search_update(SearchUpdate::Finished { matches: number }, line).message == (
        if number == 0 {
            "no match for /"@ + state.search_query
        } else {
            "search done: "@ + decimal(number as nat) + " matches for /"@ + state.search_query
        }),
        state.after_search_update(SearchUpdate::Failed(reason), line).message == "search failed: "@
            + reason@,
        state.search_running() == (AppState {
            searching: true,
            message: "searching /"@ + state.search_query + " in background"@,
            ..state
        }),
{
}

/// What the formatting tells: how much was read; that the formatted file is there, which is shown from its
/// start on if it was asked for; or why it has failed, and then it is asked for no more.
pub proof fn law_format_says_how_it_goes(
    state: AppState,
    path: u64,
    number: u64,
    reason: String,
)
    ensures
        state.after_format_update(FormatUpdate::Progress { bytes_read: number }) == (AppState {
            message: "formatting in background; read "@ + human_size(number as nat)
                + "; raw view active"@,
            ..state
        }),
        !state.format_requested ==> state.after_format_update(
            FormatUpdate::Finished { path, bytes_read: number },
        ) == (AppState {
            formatted_path: Some(path),
            message: "formatted view ready; press f to open"@,
            ..state
        }),
        state.format_requested ==> state.after_format_update(
            FormatUpdate::Finished { path, bytes_read: number },
        ) == (AppState { formatted_path: Some(path), ..state }).switched_to(
            path,
            "formatted view ready; read "@ + human_size(number as nat),
        ),
        state.after_format_update(FormatUpdate::Failed(reason)) == (AppState {
            format_requested: false,
            message: "format failed: "@ + reason@,
            ..state
        }),
{
}

/// The formatting is over exactly when it says that it has finished or failed, or can say nothing more,
/// unless a file that it asks for could not be opened.
pub proof fn law_formatting_ends(
    state: AppState,
    updates: Seq<FormatUpdate>,
    disconnected: bool,
    opened: nat,
)
    ensures
        ({
            let (after, all) = state.format_polled(updates, disconnected, opened);
            &&& !all ==> after.formatting == state.formatting
            &&& all ==> after.formatting == (state.formatting && !disconnected && forall|i: int|
                0 <= i < updates.len() ==> #[trigger] updates[i] is Progress)
        }),
{
    lemma_formatting_stays(state, updates, opened);
    assert forall|i: int| 0 <= i < updates.len() implies ends_format(#[trigger] updates[i]) == !(
    updates[i] is Progress) by {}
    if forall|i: int| 0 <= i < updates.len() ==> #[trigger] updates[i] is Progress {
        assert(forall|i: int| 0 <= i < updates.len() ==> !ends_format(#[trigger] updates[i]));
    }
}

proof fn lemma_formatting_stays(state: AppState, updates: Seq<FormatUpdate>, opened: nat)
    ensures
        state.after_format_updates(updates, opened).0.formatting == state.formatting,
    decreases updates.len(),
{
    if updates.len() > 0 {
        let after = state.after_format_update(updates[0]);
        lemma_formatting_stays(after, updates.drop_first(), opened);
        if opened > 0 {
            lemma_formatting_stays(after, updates.drop_first(), (opened - 1) as nat);
        }
    }
}

/// Arriving somewhere sets the offset, then the number of the line, and uses up the number that was typed
/// in front; nothing else changes.
pub proof fn law_arriving_sets_the_place(state: AppState, offset: u64, line_number: u64)
    ensures
        state.reached(offset).arrived(line_number) == (AppState {
            offset,
            line_number,
            pending_count: Seq::empty(),
            ..state
        }),
{
}

/// Starting to format says so, and showing a file that was asked for says which view it is.
pub proof fn law_views_are_announced(state: AppState, path: u64)
    ensures
        state.format_begun() == (AppState {
            formatting: true,
            message: "formatting in background; raw view active"@,
            pending_count: Seq::empty(),
            ..state
        }),
        state.opened_shown(path) == state.switched_to(
            path,
            if state.format_requested {
                "formatted view"@
            } else {
                "raw view"@
            },
        ),
        state.label() == (if !state.format_requested {
            "raw"@
        } else if state.formatted_path == Some(state.active_path) {
            "formatted"@
        } else {
            "formatting"@
        }),
{
}

/// The status line begins with the whole message, or shows the whole of what is typed.
pub proof fn law_status_shows_the_message(state: AppState)
    ensures
        state.mode == InputMode::Normal ==> state.status()[0].text == state.message
            && state.status().len() == 14,
        state.mode == InputMode::Search ==> state.status()[1].text == state.search_input
            && state.status().len() == 3,
        state.mode == InputMode::Command ==> state.status()[1].text == state.command_input
            && state.status().len() == 3,
{
}

} // verus!
