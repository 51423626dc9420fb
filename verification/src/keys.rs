use vstd::prelude::*;
use vstd::string::StringExecFns;

use crate::app::{build_match_message, put_together, App, InputMode, Key, KeyPress, Request};
use crate::app::{match_message, no_match_message, AppState};
use crate::text::{is_digit_char, decimal, parsed_u64, trim_back, trim_front};
use crate::text::{parse_u64, push_decimal, same_text, trim};
use crate::window::NumberedWindow;

verus! {

/// How many lines half a screen is, at least one.
pub open spec fn half(count: nat) -> nat {
    if count / 2 == 0 {
        1
    } else {
        count / 2
    }
}

/// The number of a line; the first line stands for the line zero too.
pub open spec fn at_least_one(number: u64) -> u64 {
    if number == 0 {
        1
    } else {
        number
    }
}

/// Whether a key is held that makes a character a command.
pub open spec fn is_modified(press: KeyPress) -> bool {
    press.control || press.alt
}

/// Whether what is to be done to the file can fail. The program is left then.
pub open spec fn may_fail(request: Request) -> bool {
    match request {
        Request::Nothing | Request::Quit | Request::LocateOffset => false,
        _ => true,
    }
}

impl AppState {
    /// The state one line further down.
    pub open spec fn moved_down(self, window: NumberedWindow) -> AppState {
        let lines = window.lines@;
        if lines.len() > 1 {
            self.at(lines[1].line.start_offset, lines[1].line_number)
        } else {
            self.paged_down(window)
        }
    }

    /// The state behind the last line of the screen.
    pub open spec fn paged_down(self, window: NumberedWindow) -> AppState {
        let lines = window.lines@;
        if lines.len() == 0 {
            self
        } else if lines.last().line.next_offset <= window.file_len {
            self.at(lines.last().line.next_offset, lines.last().next_line_number)
        } else {
            self.at(window.file_len, lines.last().next_line_number)
        }
    }

    /// The state half a screen further down.
    pub open spec fn moved_half_down(self, window: NumberedWindow) -> AppState {
        let lines = window.lines@;
        let target = half(lines.len()) as int;
        if target < lines.len() {
            self.at(lines[target].line.start_offset, lines[target].line_number)
        } else {
            self.paged_down(window)
        }
    }

    /// The state in which a query for a search is typed.
    pub open spec fn asking_query(self) -> AppState {
        AppState {
            mode: InputMode::Search,
            search_input: Seq::empty(),
            pending_count: Seq::empty(),
            message: "enter search query"@,
            ..self
        }
    }

    /// The state in which a command is typed.
    pub open spec fn asking_command(self) -> AppState {
        AppState {
            mode: InputMode::Command,
            command_input: Seq::empty(),
            pending_count: Seq::empty(),
            message: "enter command"@,
            ..self
        }
    }

    /// The place that comes behind the current one out of those that were found, or in front of it; at
    /// the end the first one again, and the other way round.
    pub open spec fn next_index(self, forward: bool) -> int {
        let count = self.search_matches.len() as int;
        let current = match self.current_match {
            Some(index) => index as int,
            None => 0,
        };
        if forward {
            if current + 1 == count {
                0
            } else {
                current + 1
            }
        } else {
            if current == 0 {
                count - 1
            } else {
                current - 1
            }
        }
    }

    /// The state at the next place that was found, or at the one before.
    pub open spec fn jumped(self, forward: bool) -> (AppState, Request) {
        if self.search_matches.len() == 0 {
            (
                self.telling(
                    if self.searching {
                        "search running; no match yet"@
                    } else if self.search_query.len() == 0 {
                        "no active search"@
                    } else {
                        no_match_message(self.search_query)
                    },
                ),
                Request::Nothing,
            )
        } else {
            let next = self.next_index(forward);
            (
                AppState {
                    current_match: Some(next as usize),
                    offset: self.search_matches[next].offset,
                    message: match_message(
                        (next + 1) as nat,
                        self.search_matches.len(),
                        self.search_query,
                    ),
                    ..self
                },
                Request::LocateOffset,
            )
        }
    }

    /// The state when the formatted view is asked for, or the raw one again. What is shown changes when
    /// the file has been opened, and not at all if that fails.
    pub open spec fn format_toggled(self) -> (AppState, Request) {
        if self.format_requested {
            (
                AppState { format_requested: false, ..self },
                Request::OpenFile { path: self.path },
            )
        } else {
            let asked = AppState { format_requested: true, ..self };
            match self.formatted_path {
                Some(path) => (asked, Request::OpenFile { path }),
                None => if self.formatting {
                    (
                        asked.telling("formatting in background; raw view active"@),
                        Request::Nothing,
                    )
                } else {
                    (asked, Request::StartFormat { path: self.path })
                },
            }
        }
    }

    /// The state when a file that was asked for has been opened.
    pub open spec fn opened_shown(self, path: u64) -> AppState {
        self.switched_to(
            path,
            if self.format_requested {
                "formatted view"@
            } else {
                "raw view"@
            },
        )
    }

    /// The state when the formatting has started.
    pub open spec fn format_begun(self) -> AppState {
        AppState {
            formatting: true,
            message: "formatting in background; raw view active"@,
            pending_count: Seq::empty(),
            ..self
        }
    }

    /// The state when a query has been typed. If the search cannot be started, one that is running goes
    /// on, and the message stays.
    pub open spec fn search_begun(self) -> (AppState, Request) {
        let normal = AppState { mode: InputMode::Normal, ..self };
        if self.search_input.len() == 0 {
            (normal.telling("empty search ignored"@), Request::Nothing)
        } else {
            (
                AppState {
                    search_query: self.search_input,
                    search_matches: Seq::empty(),
                    current_match: None,
                    ..normal
                },
                Request::StartSearch { path: self.active_path, from: self.offset },
            )
        }
    }

    /// The state when the search has started.
    pub open spec fn search_running(self) -> AppState {
        AppState {
            searching: true,
            message: "searching /"@ + self.search_query + " in background"@,
            ..self
        }
    }

    /// The state at another offset, whose line is not known yet.
    pub open spec fn reached(self, offset: u64) -> AppState {
        AppState { offset, ..self }
    }

    /// The state when the line of the offset is known that a key has led to.
    pub open spec fn arrived(self, line_number: u64) -> AppState {
        AppState { line_number, pending_count: Seq::empty(), ..self }
    }

    /// The state when a command has been typed.
    pub open spec fn command_finished(self) -> (AppState, Request) {
        let normal = AppState { mode: InputMode::Normal, ..self };
        let command = trim_back(trim_front(self.command_input));
        if command == "q"@ {
            (normal, Request::Quit)
        } else {
            match parsed_u64(command) {
                Some(number) => (normal, Request::GoToLine { number: at_least_one(number) }),
                None => (
                    normal.telling(
                        if command.len() == 0 {
                            "empty command ignored"@
                        } else {
                            "unknown command: "@ + command
                        },
                    ),
                    Request::Nothing,
                ),
            }
        }
    }

    /// The state after a key while a query is typed.
    pub open spec fn search_key_taken(self, press: KeyPress) -> (AppState, Request) {
        match press.key {
            Key::Esc => (
                AppState { mode: InputMode::Normal, ..self }.telling("search cancelled"@),
                Request::Nothing,
            ),
            Key::Enter => self.search_begun(),
            Key::Backspace => (
                AppState {
                    search_input: if self.search_input.len() == 0 {
                        self.search_input
                    } else {
                        self.search_input.drop_last()
                    },
                    ..self
                },
                Request::Nothing,
            ),
            Key::Char(ch) => (
                if is_modified(press) {
                    self
                } else {
                    AppState { search_input: self.search_input.push(ch), ..self }
                },
                Request::Nothing,
            ),
            _ => (self, Request::Nothing),
        }
    }

    /// The state after a key while a command is typed.
    pub open spec fn command_key_taken(self, press: KeyPress) -> (AppState, Request) {
        match press.key {
            Key::Esc => (
                AppState { mode: InputMode::Normal, ..self }.telling("command cancelled"@),
                Request::Nothing,
            ),
            Key::Enter => self.command_finished(),
            Key::Backspace => (
                AppState {
                    command_input: if self.command_input.len() == 0 {
                        self.command_input
                    } else {
                        self.command_input.drop_last()
                    },
                    ..self
                },
                Request::Nothing,
            ),
            Key::Char(ch) => (
                if is_modified(press) {
                    self
                } else {
                    AppState { command_input: self.command_input.push(ch), ..self }
                },
                Request::Nothing,
            ),
            _ => (self, Request::Nothing),
        }
    }

    /// What a key does to the state of a screen of `height` lines that shows `window`, but for the
    /// number that was typed in front of it.
    pub open spec fn view_key_taken(
        self,
        window: NumberedWindow,
        press: KeyPress,
        height: usize,
    ) -> (AppState, Request) {
        match press.key {
            Key::Down => (self.moved_down(window), Request::Nothing),
            Key::Up => (self, Request::WalkBack { rows: 1 }),
            Key::PageDown => (self.paged_down(window), Request::Nothing),
            Key::PageUp => (self, Request::WalkBack { rows: height }),
            Key::Char(ch) => if ch == 'j' {
                (self.moved_down(window), Request::Nothing)
            } else if ch == 'k' {
                (self, Request::WalkBack { rows: 1 })
            } else if ch == ' ' {
                (self.paged_down(window), Request::Nothing)
            } else if ch == 'd' && press.control {
                (self.moved_half_down(window), Request::Nothing)
            } else if ch == 'u' && press.control {
                (self, Request::WalkBack { rows: half(height as nat) as usize })
            } else if ch == 'g' {
                (self.at(0, 1), Request::Nothing)
            } else if ch == 'G' {
                (
                    self,
                    if self.pending_count.len() == 0 {
                        Request::GoToEnd
                    } else {
                        match parsed_u64(self.pending_count) {
                            Some(number) => Request::GoToLine { number: at_least_one(number) },
                            None => Request::Nothing,
                        }
                    },
                )
            } else if ch == '/' {
                (self.asking_query(), Request::Nothing)
            } else if ch == ':' {
                (self.asking_command(), Request::Nothing)
            } else if ch == 'n' {
                self.jumped(true)
            } else if ch == 'N' {
                self.jumped(false)
            } else if ch == 'f' {
                self.format_toggled()
            } else {
                (self, Request::Nothing)
            },
            _ => (self, Request::Nothing),
        }
    }

    /// The state without the number that was typed in front of a key.
    pub open spec fn count_used(self) -> AppState {
        AppState { pending_count: Seq::empty(), ..self }
    }

    /// The state after a key, and what is to be done to the file. The number that was typed in front is
    /// used up, but where something is to be done that can fail, only when it has been done.
    pub open spec fn key_taken(
        self,
        window: NumberedWindow,
        press: KeyPress,
        height: usize,
    ) -> (AppState, Request) {
        match self.mode {
            InputMode::Search => self.search_key_taken(press),
            InputMode::Command => self.command_key_taken(press),
            InputMode::Normal => match press.key {
                Key::Esc => (self, Request::Quit),
                Key::Char(ch) => if is_digit_char(ch) && !is_modified(press) {
                    let count = self.pending_count.push(ch);
                    (
                        AppState { pending_count: count, message: count, ..self },
                        Request::Nothing,
                    )
                } else if ch == 'q' {
                    (self, Request::Quit)
                } else {
                    let (after, request) = self.view_key_taken(window, press, height);
                    (if may_fail(request) { after } else { after.count_used() }, request)
                },
                _ => {
                    let (after, request) = self.view_key_taken(window, press, height);
                    (if may_fail(request) { after } else { after.count_used() }, request)
                },
            },
        }
    }
}

impl App {
    /// Moves one line down.
    pub fn move_down(&mut self, window: &NumberedWindow)
        requires
            old(self)@.well_formed(),
        ensures
            final(self)@.well_formed(),
            final(self)@ == old(self)@.moved_down(*window),
    {
        if window.lines.len() > 1 {
            self.offset = window.lines[1].line.start_offset;
            self.line_number = window.lines[1].line_number;
        } else {
            self.page_down(window);
        }
    }

    /// Moves behind the last line of the screen.
    pub fn page_down(&mut self, window: &NumberedWindow)
        requires
            old(self)@.well_formed(),
        ensures
            final(self)@.well_formed(),
            final(self)@ == old(self)@.paged_down(*window),
    {
        if window.lines.len() > 0 {
            let last = &window.lines[window.lines.len() - 1];
            self.offset = if last.line.next_offset <= window.file_len {
                last.line.next_offset
            } else {
                window.file_len
            };
            self.line_number = last.next_line_number;
        }
    }

    /// Moves down by half a screen.
    pub fn half_down(&mut self, window: &NumberedWindow)
        requires
            old(self)@.well_formed(),
        ensures
            final(self)@.well_formed(),
            final(self)@ == old(self)@.moved_half_down(*window),
    {
        let middle: usize = window.lines.len() / 2;
        let target: usize = if middle == 0 { 1 } else { middle };
        if target < window.lines.len() {
            self.offset = window.lines[target].line.start_offset;
            self.line_number = window.lines[target].line_number;
        } else {
            self.page_down(window);
        }
    }

    /// Moves up by one line: what is to be done to the file.
    pub fn move_up(&self) -> (request: Request)
        ensures
            request == (Request::WalkBack { rows: 1 }),
    {
        Request::WalkBack { rows: 1 }
    }

    /// Moves up by a screen: what is to be done to the file.
    pub fn page_up(&self, height: usize) -> (request: Request)
        ensures
            request == (Request::WalkBack { rows: height }),
    {
        Request::WalkBack { rows: height }
    }

    /// Moves up by half a screen: what is to be done to the file.
    pub fn half_up(&self, height: usize) -> (request: Request)
        ensures
            request == (Request::WalkBack { rows: half(height as nat) as usize }),
    {
        let middle: usize = height / 2;
        self.page_up(if middle == 0 { 1 } else { middle })
    }

    /// Moves to the start of the file.
    pub fn go_top(&mut self)
        requires
            old(self)@.well_formed(),
        ensures
            final(self)@.well_formed(),
            final(self)@ == old(self)@.at(0, 1),
    {
        self.offset = 0;
        self.line_number = 1;
    }

    /// Moves to the end of the file: what is to be done to the file.
    pub fn go_end(&self) -> (request: Request)
        ensures
            request == Request::GoToEnd,
    {
        Request::GoToEnd
    }

    /// Moves to the line with the number: what is to be done to the file.
    pub fn jump_to_line(&self, number: u64) -> (request: Request)
        ensures
            request == (Request::GoToLine { number: at_least_one(number) }),
    {
        Request::GoToLine { number: if number == 0 { 1 } else { number } }
    }

    /// Moves to an offset of the file. The number of its line is still to be told.
    pub fn reach(&mut self, offset: u64)
        requires
            old(self)@.well_formed(),
        ensures
            final(self)@.well_formed(),
            final(self)@ == old(self)@.reached(offset),
    {
        self.offset = offset;
    }

    /// Tells the number of the line that a key has led to.
    pub fn arrive(&mut self, line_number: u64)
        requires
            old(self)@.well_formed(),
        ensures
            final(self)@.well_formed(),
            final(self)@ == old(self)@.arrived(line_number),
    {
        self.line_number = line_number;
        self.pending_count = String::new();
    }

    /// Tells the number of the line that was asked for by its number.
    pub fn arrive_at_line(&mut self, line_number: u64)
        requires
            old(self)@.well_formed(),
        ensures
            final(self)@.well_formed(),
            final(self)@ == old(self)@.arrived(line_number).telling(
                "line "@ + decimal(line_number as nat),
            ),
    {
        self.arrive(line_number);
        let mut message = "line ".to_owned();
        push_decimal(&mut message, line_number);
        self.message = message;
    }

    /// Tells the number of the line at the offset, if it could be found; else the old one stays.
    pub fn located(&mut self, line: Option<u64>)
        requires
            old(self)@.well_formed(),
        ensures
            final(self)@.well_formed(),
            final(self)@ == old(self)@.at(
                old(self)@.offset,
                match line {
                    Some(number) => number,
                    None => old(self)@.line_number,
                },
            ),
    {
        match line {
            Some(number) => {
                self.line_number = number;
            },
            None => {},
        }
    }

    /// Asks for the query of a search.
    pub fn enter_search(&mut self)
        requires
            old(self)@.well_formed(),
        ensures
            final(self)@.well_formed(),
            final(self)@ == old(self)@.asking_query(),
    {
        self.mode = InputMode::Search;
        self.search_input = String::new();
        self.pending_count = String::new();
        self.message = "enter search query".to_owned();
    }

    /// Asks for a command.
    pub fn enter_command(&mut self)
        requires
            old(self)@.well_formed(),
        ensures
            final(self)@.well_formed(),
            final(self)@ == old(self)@.asking_command(),
    {
        self.mode = InputMode::Command;
        self.command_input = String::new();
        self.pending_count = String::new();
        self.message = "enter command".to_owned();
    }

    /// Carries out the command that was typed.
    pub fn finish_command(&mut self) -> (request: Request)
        requires
            old(self)@.well_formed(),
        ensures
            final(self)@.well_formed(),
            (final(self)@, request) == old(self)@.command_finished(),
    {
        let command = trim(self.command_input.as_str());
        self.mode = InputMode::Normal;
        if same_text(command.as_str(), "q") {
            return Request::Quit;
        }
        match parse_u64(command.as_str()) {
            Some(number) => self.jump_to_line(number),
            None => {
                self.message = if command.as_str().is_empty() {
                    "empty command ignored".to_owned()
                } else {
                    put_together("unknown command: ", command.as_str())
                };
                Request::Nothing
            },
        }
    }

    /// Takes the query that was typed, for which a search is to be started.
    pub fn begin_search(&mut self) -> (request: Request)
        requires
            old(self)@.well_formed(),
        ensures
            final(self)@.well_formed(),
            (final(self)@, request) == old(self)@.search_begun(),
    {
        self.mode = InputMode::Normal;
        if self.search_input.as_str().is_empty() {
            self.message = "empty search ignored".to_owned();
            return Request::Nothing;
        }
        self.search_query = self.search_input.clone();
        self.search_matches.clear();
        self.current_match = None;
        Request::StartSearch { path: self.active_path, from: self.offset }
    }

    /// Tells that the search has started.
    pub fn search_started(&mut self)
        requires
            old(self)@.well_formed(),
        ensures
            final(self)@.well_formed(),
            final(self)@ == old(self)@.search_running(),
    {
        self.searching = true;
        let mut message = put_together("searching /", self.search_query.as_str());
        message.append(" in background");
        self.message = message;
    }

    /// Moves to the next place that was found.
    pub fn next_match(&mut self) -> (request: Request)
        requires
            old(self)@.well_formed(),
        ensures
            final(self)@.well_formed(),
            (final(self)@, request) == old(self)@.jumped(true),
    {
        self.jump_match(1)
    }

    /// Moves to the place found before.
    pub fn previous_match(&mut self) -> (request: Request)
        requires
            old(self)@.well_formed(),
        ensures
            final(self)@.well_formed(),
            (final(self)@, request) == old(self)@.jumped(false),
    {
        self.jump_match(-1)
    }

    /// Moves to the next place that was found, or, if `direction` is negative, to the one before.
    pub fn jump_match(&mut self, direction: isize) -> (request: Request)
        requires
            old(self)@.well_formed(),
        ensures
            final(self)@.well_formed(),
            (final(self)@, request) == old(self)@.jumped(direction >= 0),
    {
        let count: usize = self.search_matches.len();
        if count == 0 {
            self.message = if self.searching {
                "search running; no match yet".to_owned()
            } else if self.search_query.as_str().is_empty() {
                "no active search".to_owned()
            } else {
                put_together("no match for /", self.search_query.as_str())
            };
            return Request::Nothing;
        }
        let current: usize = match self.current_match {
            Some(index) => index,
            None => 0,
        };
        let next: usize = if direction < 0 {
            if current == 0 {
                count - 1
            } else {
                current - 1
            }
        } else {
            if current + 1 == count {
                0
            } else {
                current + 1
            }
        };
        self.current_match = Some(next);
        self.offset = self.search_matches[next].offset;
        self.message = build_match_message(
            next as u64 + 1,
            count as u64,
            self.search_query.as_str(),
        );
        Request::LocateOffset
    }

    /// Asks for the formatted view, or for the raw one again.
    pub fn toggle_format(&mut self) -> (request: Request)
        requires
            old(self)@.well_formed(),
        ensures
            final(self)@.well_formed(),
            (final(self)@, request) == old(self)@.format_toggled(),
    {
        if self.format_requested {
            self.format_requested = false;
            return Request::OpenFile { path: self.path };
        }
        self.format_requested = true;
        match self.formatted_path {
            Some(path) => Request::OpenFile { path },
            None => {
                if self.formatting {
                    self.message = "formatting in background; raw view active".to_owned();
                    Request::Nothing
                } else {
                    Request::StartFormat { path: self.path }
                }
            },
        }
    }

    /// Shows a file that was asked for and has been opened.
    pub fn show_opened(&mut self, path: u64)
        requires
            old(self)@.well_formed(),
        ensures
            final(self)@.well_formed(),
            final(self)@ == old(self)@.opened_shown(path),
    {
        let message = if self.format_requested {
            "formatted view".to_owned()
        } else {
            "raw view".to_owned()
        };
        self.switch_to_path(path, message);
    }

    /// Tells that the formatting has started.
    pub fn format_started(&mut self)
        requires
            old(self)@.well_formed(),
        ensures
            final(self)@.well_formed(),
            final(self)@ == old(self)@.format_begun(),
    {
        self.formatting = true;
        self.message = "formatting in background; raw view active".to_owned();
        self.pending_count = String::new();
    }

    /// Takes a key while a query is typed.
    pub fn handle_search_key(&mut self, press: KeyPress) -> (request: Request)
        requires
            old(self)@.well_formed(),
        ensures
            final(self)@.well_formed(),
            (final(self)@, request) == old(self)@.search_key_taken(press),
    {
        match press.key {
            Key::Esc => {
                self.mode = InputMode::Normal;
                self.message = "search cancelled".to_owned();
            },
            Key::Enter => {
                return self.begin_search();
            },
            Key::Backspace => {
                self.search_input.pop();
            },
            Key::Char(ch) => {
                if !press.control && !press.alt {
                    self.search_input.push(ch);
                }
            },
            _ => {},
        }
        Request::Nothing
    }

    /// Takes a key while a command is typed.
    pub fn handle_command_key(&mut self, press: KeyPress) -> (request: Request)
        requires
            old(self)@.well_formed(),
        ensures
            final(self)@.well_formed(),
            (final(self)@, request) == old(self)@.command_key_taken(press),
    {
        match press.key {
            Key::Esc => {
                self.mode = InputMode::Normal;
                self.message = "command cancelled".to_owned();
            },
            Key::Enter => {
                return self.finish_command();
            },
            Key::Backspace => {
                self.command_input.pop();
            },
            Key::Char(ch) => {
                if !press.control && !press.alt {
                    self.command_input.push(ch);
                }
            },
            _ => {},
        }
        Request::Nothing
    }

    /// Takes a key. The screen has `height` lines and shows `window`.
    pub fn handle_key(&mut self, window: &NumberedWindow, press: KeyPress, height: usize) -> (request:
        Request)
        requires
            old(self)@.well_formed(),
        ensures
            final(self)@.well_formed(),
            (final(self)@, request) == old(self)@.key_taken(*window, press, height),
    {
        match self.mode {
            InputMode::Search => {
                return self.handle_search_key(press);
            },
            InputMode::Command => {
                return self.handle_command_key(press);
            },
            InputMode::Normal => {},
        }
        let mut request = Request::Nothing;
        match press.key {
            Key::Esc => {
                return Request::Quit;
            },
            Key::Down => self.move_down(window),
            Key::Up => {
                request = self.move_up();
            },
            Key::PageDown => self.page_down(window),
            Key::PageUp => {
                request = self.page_up(height);
            },
            Key::Char(ch) => {
                if '0' <= ch && ch <= '9' && !press.control && !press.alt {
                    self.pending_count.push(ch);
                    self.message = self.pending_count.clone();
                    return Request::Nothing;
                }
                match ch {
                    'q' => {
                        return Request::Quit;
                    },
                    'j' => self.move_down(window),
                    'k' => {
                        request = self.move_up();
                    },
                    ' ' => self.page_down(window),
                    'd' => {
                        if press.control {
                            self.half_down(window);
                        }
                    },
                    'u' => {
                        if press.control {
                            request = self.half_up(height);
                        }
                    },
                    'g' => self.go_top(),
                    'G' => {
                        if self.pending_count.as_str().is_empty() {
                            request = self.go_end();
                        } else {
                            match parse_u64(self.pending_count.as_str()) {
                                Some(number) => {
                                    request = self.jump_to_line(number);
                                },
                                None => {},
                            }
                        }
                    },
                    '/' => self.enter_search(),
                    ':' => self.enter_command(),
                    'n' => {
                        request = self.next_match();
                    },
                    'N' => {
                        request = self.previous_match();
                    },
                    'f' => {
                        request = self.toggle_format();
                    },
                    _ => {},
                }
            },
            _ => {},
        }
        match request {
            Request::Nothing | Request::Quit | Request::LocateOffset => {
                self.pending_count = String::new();
            },
            _ => {},
        }
        request
    }
}

} // verus!
