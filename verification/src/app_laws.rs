use vstd::prelude::*;

use crate::app::{ends_search, first_found};
use crate::app::{
    AppState, FormatUpdate, InputMode, Key, KeyPress, Request, SearchMatch, SearchUpdate,
};
use crate::back::lemma_first_line;
use crate::keys::may_fail;
use crate::line_laws::{law_window_is_bounded, lemma_line_number, lemma_starts_grow};
use crate::lines::NEWLINE;
use crate::lines::{lemma_line_end, line_end, next_start, visual_lines};
use crate::numbers::{law_line_numbers_grow, law_newlines_add_up, line_number_at, newlines};
use crate::spans::{gutter_width_of, lemma_decimal_grows};
use crate::text::decimal;
use crate::window::NumberedWindow;
use crate::window::{lemma_no_newlines, numbered_line_is, numbered_lines_are, window_lines};

verus! {

/// Going to the next place that was found and then to the one before comes back to the same place, and
/// so does the other way round.
pub proof fn law_next_undoes_previous(state: AppState, forward: bool)
    requires
        state.well_formed(),
        state.search_matches.len() > 0,
        state.search_matches.len() <= usize::MAX,
    ensures
        ({
            let back = state.jumped(forward).0.jumped(!forward).0;
            back.current_match == state.current_match && back.search_matches
                == state.search_matches
        }),
{
}

/// The state after going so many places forward.
pub open spec fn jumped_times(state: AppState, times: nat) -> AppState
    decreases times,
{
    if times == 0 {
        state
    } else {
        jumped_times(state, (times - 1) as nat).jumped(true).0
    }
}

proof fn lemma_jumped_times(state: AppState, times: nat)
    requires
        state.well_formed(),
        0 < state.search_matches.len() <= usize::MAX,
        times <= state.search_matches.len(),
    ensures
        jumped_times(state, times).search_matches == state.search_matches,
        jumped_times(state, times).current_match == Some(
            (if state.current_match->0 + times < state.search_matches.len() {
                state.current_match->0 + times
            } else {
                state.current_match->0 + times - state.search_matches.len()
            }) as usize,
        ),
    decreases times,
{
    if times > 0 {
        lemma_jumped_times(state, (times - 1) as nat);
    }
}

/// Going forward as many times as there are places comes back to the same place.
pub proof fn law_places_go_round(state: AppState)
    requires
        state.well_formed(),
        0 < state.search_matches.len() <= usize::MAX,
    ensures
        jumped_times(state, state.search_matches.len()).current_match == state.current_match,
{
    lemma_jumped_times(state, state.search_matches.len());
}

/// The place that is current is the one that is shown when one has gone to it.
pub proof fn law_jump_shows_the_current_place(state: AppState, forward: bool)
    requires
        state.well_formed(),
        0 < state.search_matches.len() <= usize::MAX,
    ensures
        ({
            let after = state.jumped(forward).0;
            &&& after.current_match is Some
            &&& after.current_match->0 < state.search_matches.len()
            &&& after.offset == state.search_matches[after.current_match->0 as int].offset
        }),
{
}

/// A character that was typed by mistake can be taken back: the state is as before.
pub proof fn law_backspace_undoes_typing(
    state: AppState,
    window: NumberedWindow,
    ch: char,
    height: usize,
)
    requires
        state.mode != InputMode::Normal,
    ensures
        ({
            let typed = KeyPress { key: Key::Char(ch), control: false, alt: false };
            let back = KeyPress { key: Key::Backspace, control: false, alt: false };
            let once = state.key_taken(window, typed, height);
            &&& once.1 == Request::Nothing
            &&& once.0.key_taken(window, back, height) == (state, Request::Nothing)
        }),
{
    assert(state.search_input.push(ch).drop_last() == state.search_input);
    assert(state.command_input.push(ch).drop_last() == state.command_input);
}

/// While a query or a command is typed, no key but Enter changes what is shown of the file or leaves the
/// program.
pub proof fn law_typing_leaves_the_view(
    state: AppState,
    window: NumberedWindow,
    press: KeyPress,
    height: usize,
)
    requires
        state.mode != InputMode::Normal,
        press.key != Key::Enter,
    ensures
        ({
            let (after, request) = state.key_taken(window, press, height);
            &&& request == Request::Nothing
            &&& after.offset == state.offset
            &&& after.line_number == state.line_number
            &&& after.active_path == state.active_path
            &&& after.search_query == state.search_query
            &&& after.search_matches == state.search_matches
            &&& after.current_match == state.current_match
        }),
{
}

/// Asking for the formatted view and for the raw one again shows, once the files are opened, the raw file
/// from its start, and the view is called what it is.
pub proof fn law_format_toggles(state: AppState)
    requires
        !state.format_requested,
        state.formatted_path is Some,
    ensures
        ({
            let (asked, request) = state.format_toggled();
            let formatted = asked.opened_shown(state.formatted_path->0);
            let (asked_again, second) = formatted.format_toggled();
            let raw = asked_again.opened_shown(state.path);
            &&& request == (Request::OpenFile { path: state.formatted_path->0 })
            &&& formatted.label() == "formatted"@
            &&& second == (Request::OpenFile { path: state.path })
            &&& raw.label() == "raw"@
            &&& raw.active_path == state.path
            &&& raw.formatted_path == state.formatted_path
            &&& raw.offset == 0
            &&& raw.line_number == 1
        }),
{
}

/// As long as what a key asks for has not been done, and if it fails, what is shown stays as it was: the
/// file, the place in it, the message, the number typed in front and the work in the background.
pub proof fn law_failure_leaves_the_view(
    state: AppState,
    window: NumberedWindow,
    press: KeyPress,
    height: usize,
)
    requires
        state.well_formed(),
        may_fail(state.key_taken(window, press, height).1),
    ensures
        ({
            let after = state.key_taken(window, press, height).0;
            &&& after.active_path == state.active_path
            &&& after.offset == state.offset
            &&& after.line_number == state.line_number
            &&& after.message == state.message
            &&& after.pending_count == state.pending_count
            &&& after.searching == state.searching
            &&& after.formatting == state.formatting
            &&& after.formatted_path == state.formatted_path
        }),
{
}

/// If a formatted file that is to be shown cannot be opened, it is known where it is, and nothing else
/// of the update counts.
pub proof fn law_failed_switch_keeps_the_view(
    state: AppState,
    path: u64,
    bytes_read: u64,
    later: Seq<FormatUpdate>,
    disconnected: bool,
)
    requires
        state.format_requested,
    ensures
        ({
            let updates = seq![FormatUpdate::Finished { path, bytes_read }] + later;
            state.format_polled(updates, disconnected, 0) == (
                AppState { formatted_path: Some(path), ..state },
                false,
            )
        }),
{
}

/// What a search in the background finds later does not move the view: once a place is shown, only keys
/// move it.
pub proof fn law_later_places_do_not_move(
    state: AppState,
    updates: Seq<SearchUpdate>,
    disconnected: bool,
    line: Option<u64>,
)
    requires
        state.well_formed(),
        state.current_match is Some,
    ensures
        ({
            let after = state.search_polled(updates, disconnected, line);
            &&& after.offset == state.offset
            &&& after.line_number == state.line_number
            &&& after.current_match == state.current_match
        }),
{
    lemma_shown_place_stays(state, updates, line);
}

proof fn lemma_shown_place_stays(
    state: AppState,
    updates: Seq<SearchUpdate>,
    line: Option<u64>,
)
    requires
        state.current_match is Some,
    ensures
        ({
            let after = state.after_search_updates(updates, line);
            &&& after.offset == state.offset
            &&& after.line_number == state.line_number
            &&& after.current_match == state.current_match
        }),
    decreases updates.len(),
{
    if updates.len() > 0 {
        lemma_shown_place_stays(state, updates.drop_last(), line);
    }
}

proof fn lemma_first_found_extends(updates: Seq<SearchUpdate>)
    requires
        updates.len() > 0,
    ensures
        first_found(updates) == (match first_found(updates.drop_last()) {
            Some(offset) => Some(offset),
            None => match updates.last() {
                SearchUpdate::Found(found) => Some(found.offset),
                _ => None,
            },
        }),
    decreases updates.len(),
{
    if updates.len() > 1 {
        lemma_first_found_extends(updates.drop_first());
        assert(updates.drop_first().drop_last() == updates.drop_last().drop_first());
        assert(updates.drop_first().last() == updates.last());
    } else {
        assert(updates.drop_last() == Seq::<SearchUpdate>::empty());
        assert(updates.drop_first() == Seq::<SearchUpdate>::empty());
    }
}

/// The first place that a search finds is shown, and nothing moves before there is one.
pub proof fn law_first_place_is_shown(
    state: AppState,
    updates: Seq<SearchUpdate>,
    disconnected: bool,
    line: Option<u64>,
)
    requires
        state.well_formed(),
        state.current_match is None,
    ensures
        ({
            let after = state.search_polled(updates, disconnected, line);
            match first_found(updates) {
                Some(offset) => {
                    &&& after.offset == offset
                    &&& after.line_number == (match line {
                        Some(number) => number,
                        None => state.line_number,
                    })
                    &&& after.current_match == Some(0usize)
                },
                None => {
                    &&& after.offset == state.offset
                    &&& after.line_number == state.line_number
                    &&& after.current_match is None
                },
            }
        }),
{
    lemma_first_place(state, updates, line);
}

proof fn lemma_first_place(state: AppState, updates: Seq<SearchUpdate>, line: Option<u64>)
    requires
        state.well_formed(),
        state.current_match is None,
    ensures
        ({
            let after = state.after_search_updates(updates, line);
            match first_found(updates) {
                Some(offset) => {
                    &&& after.offset == offset
                    &&& after.line_number == (match line {
                        Some(number) => number,
                        None => state.line_number,
                    })
                    &&& after.current_match == Some(0usize)
                },
                None => {
                    &&& after.offset == state.offset
                    &&& after.line_number == state.line_number
                    &&& after.current_match is None
                    &&& after.search_matches.len() == 0
                },
            }
        }),
    decreases updates.len(),
{
    if updates.len() > 0 {
        lemma_first_place(state, updates.drop_last(), line);
        lemma_first_found_extends(updates);
    }
}

/// The places that a row of updates of the search tells, in their order.
pub open spec fn told_places(updates: Seq<SearchUpdate>) -> Seq<SearchMatch>
    decreases updates.len(),
{
    if updates.len() == 0 {
        Seq::empty()
    } else {
        match updates.last() {
            SearchUpdate::Found(found) => told_places(updates.drop_last()).push(found),
            _ => told_places(updates.drop_last()),
        }
    }
}

proof fn lemma_told_places(state: AppState, updates: Seq<SearchUpdate>, line: Option<u64>)
    ensures
        state.after_search_updates(updates, line).search_matches == state.search_matches
            + told_places(updates),
        state.after_search_updates(updates, line).searching == state.searching,
    decreases updates.len(),
{
    if updates.len() > 0 {
        lemma_told_places(state, updates.drop_last(), line);
    }
}

/// The places that a search finds come behind those that were known, in the order in which they are
/// told, and none is lost. The search is over exactly when it says that it has finished or failed, or
/// can say nothing more.
pub proof fn law_places_are_kept(
    state: AppState,
    updates: Seq<SearchUpdate>,
    disconnected: bool,
    line: Option<u64>,
)
    ensures
        ({
            let after = state.search_polled(updates, disconnected, line);
            &&& after.search_matches == state.search_matches + told_places(updates)
            &&& after.searching == (state.searching && !disconnected && forall|i: int|
                0 <= i < updates.len() ==> !ends_search(#[trigger] updates[i]))
        }),
{
    lemma_told_places(state, updates, line);
}

/// Whether a window shows the file from `state.offset` on, as it was read: `content` are the bytes that
/// were read, and the line numbers go on from that of the state.
pub open spec fn window_shows(
    window: NumberedWindow,
    file: Seq<u8>,
    content: Seq<u8>,
    width: nat,
    height: nat,
    state: AppState,
) -> bool {
    &&& window.file_len == file.len()
    &&& state.offset + content.len() <= file.len()
    &&& content == file.subrange(state.offset as int, state.offset + content.len())
    &&& numbered_lines_are(
        window.lines@,
        window_lines(content, width, height, state.offset as int),
        content,
        state.offset as int,
        state.line_number as int,
    )
}

/// The line numbers of a window are those of the lines in the file.
pub proof fn law_window_numbers(
    window: NumberedWindow,
    file: Seq<u8>,
    content: Seq<u8>,
    width: nat,
    height: nat,
    state: AppState,
)
    requires
        width > 0,
        window_shows(window, file, content, width, height, state),
        state.line_number == line_number_at(file, state.offset as int),
    ensures
        forall|i: int|
            0 <= i < window.lines@.len() ==> {
                let line = #[trigger] window.lines@[i];
                &&& line.line_number == line_number_at(file, line.line.start_offset as int)
                &&& line.next_line_number == line_number_at(file, line.line.next_offset as int)
                &&& line.line.start_offset <= line.line.next_offset <= file.len()
            },
{
    let base = state.offset as int;
    let models = window_lines(content, width, height, base);
    law_window_is_bounded(content, width, height, base);
    assert forall|i: int| 0 <= i < window.lines@.len() implies {
        let line = #[trigger] window.lines@[i];
        &&& line.line_number == line_number_at(file, line.line.start_offset as int)
        &&& line.next_line_number == line_number_at(file, line.line.next_offset as int)
        &&& line.line.start_offset <= line.line.next_offset <= file.len()
    } by {
        let model = models[i];
        assert(numbered_line_is(
            window.lines@[i],
            model,
            content,
            base,
            state.line_number as int,
        ));
        law_newlines_add_up(file.take(base), content.take(model.start - base));
        assert(file.take(base) + content.take(model.start - base) == file.take(model.start));
        law_newlines_add_up(file.take(base), content.take(model.next - base));
        assert(file.take(base) + content.take(model.next - base) == file.take(model.next));
    }
}

/// Moving down keeps the line number right: if it is the number of the line in which the offset stands,
/// it is so afterwards. The offset stays in the file, and it grows unless nothing is left to be shown.
pub proof fn law_moving_keeps_the_line_number(
    window: NumberedWindow,
    file: Seq<u8>,
    content: Seq<u8>,
    width: nat,
    height: nat,
    state: AppState,
)
    requires
        width > 0,
        window_shows(window, file, content, width, height, state),
        state.line_number == line_number_at(file, state.offset as int),
    ensures
        ({
            let after = state.moved_down(window);
            &&& after.line_number == line_number_at(file, after.offset as int)
            &&& state.offset <= after.offset <= file.len()
            &&& window.lines@.len() > 0 ==> state.offset < after.offset
        }),
        ({
            let after = state.paged_down(window);
            &&& after.line_number == line_number_at(file, after.offset as int)
            &&& state.offset <= after.offset <= file.len()
            &&& window.lines@.len() > 0 ==> state.offset < after.offset
        }),
        ({
            let after = state.moved_half_down(window);
            &&& after.line_number == line_number_at(file, after.offset as int)
            &&& state.offset <= after.offset <= file.len()
            &&& window.lines@.len() > 0 ==> state.offset < after.offset
        }),
{
    law_window_numbers(window, file, content, width, height, state);
    law_window_is_bounded(content, width, height, state.offset as int);
    let models = window_lines(content, width, height, state.offset as int);
    assert forall|i: int| 0 <= i < window.lines@.len() implies {
        let line = (#[trigger] window.lines@[i]).line;
        &&& state.offset <= line.start_offset < line.next_offset
        &&& i > 0 ==> state.offset < line.start_offset
    } by {
        assert(numbered_line_is(
            window.lines@[i],
            models[i],
            content,
            state.offset as int,
            state.line_number as int,
        ));
        if i > 0 {
            lemma_starts_grow(content, width, state.offset as int, 0, i);
        }
    }
}

/// At the start of the file the line number is right too.
pub proof fn law_top_has_the_first_number(state: AppState, file: Seq<u8>)
    ensures
        state.at(0, 1).line_number == line_number_at(file, state.at(0, 1).offset as int),
{
    assert(file.take(0) == Seq::<u8>::empty());
}

/// In front of the line of the screen with the number `i` there are at most `i` newlines.
proof fn lemma_newlines_in_front(content: Seq<u8>, width: nat, base: int, i: int)
    requires
        width > 0,
        0 <= i < visual_lines(content, width, base, 0).len(),
    ensures
        ({
            let line = visual_lines(content, width, base, 0)[i];
            &&& newlines(content.take(line.start - base)) <= i
            &&& newlines(content.take(line.next - base)) <= i + 1
        }),
    decreases i,
{
    let lines = visual_lines(content, width, base, 0);
    lemma_line_number(content, width, base, 0, i);
    let start = lines[i].start - base;
    if i > 0 {
        lemma_newlines_in_front(content, width, base, i - 1);
        lemma_line_number(content, width, base, 0, i - 1);
        lemma_newlines_of_line(content, width, lines[i - 1].start - base);
    } else {
        assert(content.take(0) == Seq::<u8>::empty());
        lemma_first_line(content, width, base, 0);
    }
    lemma_newlines_of_line(content, width, start);
    lemma_line_end(content, width, start, start);
    let end = lines[i].next - base;
    let next = next_start(content, width, start);
    law_line_numbers_grow(content, end, next);
}

/// Between the beginnings of two lines of the screen there is at most one newline.
proof fn lemma_newlines_of_line(content: Seq<u8>, width: nat, start: int)
    requires
        width > 0,
        0 <= start < content.len(),
    ensures
        newlines(content.take(next_start(content, width, start))) <= newlines(content.take(start))
            + 1,
{
    lemma_line_end(content, width, start, start);
    let end = line_end(content, width, start, start);
    let body = content.subrange(start, end);
    assert forall|i: int| 0 <= i < body.len() implies #[trigger] body[i] != NEWLINE by {
        assert(body[i] == content[start + i]);
    }
    lemma_no_newlines(body);
    law_newlines_add_up(content.take(start), body);
    assert(content.take(start) + body == content.take(end));
    if next_start(content, width, start) == end + 1 {
        assert(content.take(end + 1).drop_last() == content.take(end));
    }
}

/// The gutter that is planned for a screen of `height` lines is wide enough for every window on it.
pub proof fn law_planned_gutter_suffices(
    window: NumberedWindow,
    content: Seq<u8>,
    width: nat,
    height: nat,
    first: nat,
)
    requires
        width > 0,
        height > 0,
        first > 0,
        numbered_lines_are(
            window.lines@,
            window_lines(content, width, height, window.start_offset as int),
            content,
            window.start_offset as int,
            first as int,
        ),
    ensures
        gutter_width_of(window) <= decimal(first + height).len() + 2,
{
    let base = window.start_offset as int;
    let models = window_lines(content, width, height, base);
    let lines = window.lines@;
    if lines.len() == 0 {
        lemma_decimal_grows(1, first + height);
    } else {
        let last = lines.len() - 1;
        assert(numbered_line_is(lines[last], models[last], content, base, first as int));
        lemma_newlines_in_front(content, width, base, last);
        lemma_decimal_grows(lines[last].line_number as nat, first + height);
        lemma_decimal_grows(lines[last].next_line_number as nat, first + height);
    }
}

} // verus!
