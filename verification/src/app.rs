use vstd::prelude::*;
use vstd::string::StringExecFns;

use crate::size::{human_bytes, human_size};
use crate::text::{decimal, push_decimal};

verus! {

/// What the keys are for at the moment.
#[derive(Debug, Clone, Copy, PartialEq, Eq, Structural)]
pub enum InputMode {
    Normal,
    Search,
    Command,
}

/// A place in the file at which a search has found something.
#[derive(Debug, Clone, Copy, PartialEq, Eq, Structural)]
pub struct SearchMatch {
    pub offset: u64,
}

/// What a search in the background has to tell.
#[derive(Debug, Clone, PartialEq, Eq)]
pub enum SearchUpdate {
    Found(SearchMatch),
    Progress { bytes_scanned: u64 },
    Finished { matches: u64 },
    Failed(String),
}

/// What the formatting in the background has to tell. A path is told by its number.
#[derive(Debug, Clone, PartialEq, Eq)]
pub enum FormatUpdate {
    Progress { bytes_read: u64 },
    Finished { path: u64, bytes_read: u64 },
    Failed(String),
}

/// A key.
#[derive(Debug, Clone, Copy, PartialEq, Eq, Structural)]
pub enum Key {
    Char(char),
    Esc,
    Enter,
    Backspace,
    Up,
    Down,
    PageUp,
    PageDown,
    Other,
}

/// A key that was pressed, with the keys that were held.
#[derive(Debug, Clone, Copy, PartialEq, Eq, Structural)]
pub struct KeyPress {
    pub key: Key,
    pub control: bool,
    pub alt: bool,
}

/// What is to be done to the file before the next key can be taken. When it has been done, the state is
/// told by the method that is named; when it fails, the state stays as it is.
#[derive(Debug, Clone, Copy, PartialEq, Eq, Structural)]
pub enum Request {
    /// Nothing.
    Nothing,
    /// Leave the program.
    Quit,
    /// Go back by so many lines of the screen from the offset: `reach` the offset behind each step, then
    /// look for the number of its line, and `arrive`.
    WalkBack { rows: usize },
    /// Look for the offset near the end, `reach` it, look for the number of its line, and `arrive`.
    GoToEnd,
    /// Look for the line with the number, `reach` its offset, look for the number of the line there, and
    /// `arrive_at_line`.
    GoToLine { number: u64 },
    /// Look for the number of the line at the offset, and tell by `located` whether it was found.
    LocateOffset,
    /// Start to search the file for the query, from the offset on: `search_started`.
    StartSearch { path: u64, from: u64 },
    /// Start to format the file in the background: `format_started`.
    StartFormat { path: u64 },
    /// Open the file: `show_opened`.
    OpenFile { path: u64 },
}

/// The state of the program. Paths are told by their numbers; equal paths have equal numbers.
#[derive(Debug)]
pub struct App {
    pub path: u64,
    pub active_path: u64,
    pub offset: u64,
    pub line_number: u64,
    pub mode: InputMode,
    pub search_input: String,
    pub command_input: String,
    pub pending_count: String,
    pub search_query: String,
    pub searching: bool,
    pub search_matches: Vec<SearchMatch>,
    pub current_match: Option<usize>,
    pub format_requested: bool,
    pub formatting: bool,
    pub formatted_path: Option<u64>,
    pub message: String,
}

/// The state of the program as a mathematical value.
#[verifier::ext_equal]
pub struct AppState {
    pub path: u64,
    pub active_path: u64,
    pub offset: u64,
    pub line_number: u64,
    pub mode: InputMode,
    pub search_input: Seq<char>,
    pub command_input: Seq<char>,
    pub pending_count: Seq<char>,
    pub search_query: Seq<char>,
    pub searching: bool,
    pub search_matches: Seq<SearchMatch>,
    pub current_match: Option<usize>,
    pub format_requested: bool,
    pub formatting: bool,
    pub formatted_path: Option<u64>,
    pub message: Seq<char>,
}

impl View for App {
    type V = AppState;

    open spec fn view(&self) -> AppState {
        AppState {
            path: self.path,
            active_path: self.active_path,
            offset: self.offset,
            line_number: self.line_number,
            mode: self.mode,
            search_input: self.search_input@,
            command_input: self.command_input@,
            pending_count: self.pending_count@,
            search_query: self.search_query@,
            searching: self.searching,
            search_matches: self.search_matches@,
            current_match: self.current_match,
            format_requested: self.format_requested,
            formatting: self.formatting,
            formatted_path: self.formatted_path,
            message: self.message@,
        }
    }
}

/// The message about the place that is shown out of those that were found.
pub open spec fn match_message(number: nat, count: nat, query: Seq<char>) -> Seq<char> {
    "match "@ + decimal(number) + "/"@ + decimal(count) + " for /"@ + query
}

/// The message that nothing was found.
pub open spec fn no_match_message(query: Seq<char>) -> Seq<char> {
    "no match for /"@ + query
}

/// Whether nothing more is to come from a search.
pub open spec fn ends_search(update: SearchUpdate) -> bool {
    update is Finished || update is Failed
}

/// Whether nothing more is to come from the formatting.
pub open spec fn ends_format(update: FormatUpdate) -> bool {
    update is Finished || update is Failed
}

/// The place that the first of the updates has found that tells one.
pub open spec fn first_found(updates: Seq<SearchUpdate>) -> Option<u64>
    decreases updates.len(),
{
    if updates.len() == 0 {
        None
    } else {
        match updates[0] {
            SearchUpdate::Found(found) => Some(found.offset),
            _ => first_found(updates.drop_first()),
        }
    }
}

impl AppState {
    /// What holds of every state: one of the places that were found is the current one, if there are
    /// any, and no number is pending while a query or a command is typed.
    pub open spec fn well_formed(self) -> bool {
        &&& match self.current_match {
            Some(index) => index < self.search_matches.len(),
            None => self.search_matches.len() == 0,
        }
        &&& self.mode != InputMode::Normal ==> self.pending_count.len() == 0
    }

    /// The state with another message.
    pub open spec fn telling(self, message: Seq<char>) -> AppState {
        AppState { message, ..self }
    }

    /// The state at another place of the file.
    pub open spec fn at(self, offset: u64, line_number: u64) -> AppState {
        AppState { offset, line_number, ..self }
    }

    /// The state when a file has been opened.
    pub open spec fn switched_to(self, path: u64, message: Seq<char>) -> AppState {
        AppState {
            active_path: path,
            offset: 0,
            line_number: 1,
            searching: false,
            search_matches: Seq::empty(),
            current_match: None,
            search_query: Seq::empty(),
            search_input: Seq::empty(),
            command_input: Seq::empty(),
            pending_count: Seq::empty(),
            message,
            ..self
        }
    }

    /// The state after an update of the search. `line` is the number of the line of the first place, if
    /// it is known.
    pub open spec fn after_search_update(self, update: SearchUpdate, line: Option<u64>) -> AppState {
        match update {
            SearchUpdate::Found(found) => {
                let matches = self.search_matches.push(found);
                let shown = match self.current_match {
                    Some(_) => self,
                    None => AppState {
                        current_match: Some(0),
                        offset: matches[0].offset,
                        line_number: match line {
                            Some(number) => number,
                            None => self.line_number,
                        },
                        ..self
                    },
                };
                AppState {
                    search_matches: matches,
                    message: match_message(
                        (shown.current_match->0 + 1) as nat,
                        matches.len(),
                        self.search_query,
                    ),
                    ..shown
                }
            },
            SearchUpdate::Progress { bytes_scanned } => self.telling(
                "searching /"@ + self.search_query + "; scanned "@ + human_size(
                    bytes_scanned as nat,
                ),
            ),
            SearchUpdate::Finished { matches } => self.telling(
                if matches == 0 {
                    no_match_message(self.search_query)
                } else {
                    "search done: "@ + decimal(matches as nat) + " matches for /"@
                        + self.search_query
                },
            ),
            SearchUpdate::Failed(message) => self.telling("search failed: "@ + message@),
        }
    }

    /// The state after a row of updates of the search.
    pub open spec fn after_search_updates(
        self,
        updates: Seq<SearchUpdate>,
        line: Option<u64>,
    ) -> AppState
        decreases updates.len(),
    {
        if updates.len() == 0 {
            self
        } else {
            self.after_search_updates(updates.drop_last(), line).after_search_update(
                updates.last(),
                line,
            )
        }
    }

    /// The state when the search has been asked for what it has to tell.
    pub open spec fn search_polled(
        self,
        updates: Seq<SearchUpdate>,
        disconnected: bool,
        line: Option<u64>,
    ) -> AppState {
        let after = self.after_search_updates(updates, line);
        if disconnected || exists|i: int|
            0 <= i < updates.len() && ends_search(#[trigger] updates[i]) {
            AppState { searching: false, ..after }
        } else {
            after
        }
    }

    /// The state after an update of the formatting.
    pub open spec fn after_format_update(self, update: FormatUpdate) -> AppState {
        match update {
            FormatUpdate::Progress { bytes_read } => self.telling(
                "formatting in background; read "@ + human_size(bytes_read as nat)
                    + "; raw view active"@,
            ),
            FormatUpdate::Finished { path, bytes_read } => {
                let ready = AppState { formatted_path: Some(path), ..self };
                if self.format_requested {
                    ready.switched_to(
                        path,
                        "formatted view ready; read "@ + human_size(bytes_read as nat),
                    )
                } else {
                    ready.telling("formatted view ready; press f to open"@)
                }
            },
            FormatUpdate::Failed(message) => AppState { format_requested: false, ..self }.telling(
                "format failed: "@ + message@,
            ),
        }
    }

    /// The file that an update of the formatting asks to be opened: the formatted one, if it is to be
    /// shown.
    pub open spec fn file_to_open(self, update: FormatUpdate) -> Option<u64> {
        match update {
            FormatUpdate::Finished { path, .. } if self.format_requested => Some(path),
            _ => None,
        }
    }

    /// The state after a row of updates of the formatting, of whose files so many could be opened, and
    /// whether these were all. Where one could not, it is known where the formatted file is, and nothing
    /// else of that update or a later one counts.
    pub open spec fn after_format_updates(self, updates: Seq<FormatUpdate>, opened: nat) -> (
        AppState,
        bool,
    )
        decreases updates.len(),
    {
        if updates.len() == 0 {
            (self, true)
        } else {
            let after = self.after_format_update(updates[0]);
            match self.file_to_open(updates[0]) {
                Some(path) => if opened == 0 {
                    (AppState { formatted_path: Some(path), ..self }, false)
                } else {
                    after.after_format_updates(updates.drop_first(), (opened - 1) as nat)
                },
                None => after.after_format_updates(updates.drop_first(), opened),
            }
        }
    }

    /// The files that a row of updates of the formatting asks to be opened, in turn.
    pub open spec fn files_to_open(self, updates: Seq<FormatUpdate>) -> Seq<u64>
        decreases updates.len(),
    {
        if updates.len() == 0 {
            Seq::empty()
        } else {
            let later = self.after_format_update(updates[0]).files_to_open(updates.drop_first());
            match self.file_to_open(updates[0]) {
                Some(path) => seq![path] + later,
                None => later,
            }
        }
    }

    /// The state when the formatting has been asked for what it has to tell, and whether all the files
    /// could be opened of which `opened` were. Where one could not, the formatting counts as still
    /// running.
    pub open spec fn format_polled(
        self,
        updates: Seq<FormatUpdate>,
        disconnected: bool,
        opened: nat,
    ) -> (AppState, bool) {
        let (after, all) = self.after_format_updates(updates, opened);
        if all && (disconnected || exists|i: int|
            0 <= i < updates.len() && ends_format(#[trigger] updates[i])) {
            (AppState { formatting: false, ..after }, all)
        } else {
            (after, all)
        }
    }
}

/// Builds the message about the place that is shown.
pub(crate) fn build_match_message(number: u64, count: u64, query: &str) -> (message: String)
    ensures
        message@ == match_message(number as nat, count as nat, query@),
{
    let mut message = String::new();
    message.append("match ");
    push_decimal(&mut message, number);
    message.append("/");
    push_decimal(&mut message, count);
    message.append(" for /");
    message.append(query);
    assert(message@ == match_message(number as nat, count as nat, query@));
    message
}

/// Puts two texts together.
pub(crate) fn put_together(front: &str, back: &str) -> (text: String)
    ensures
        text@ == front@ + back@,
{
    let mut text = String::new();
    text.append(front);
    text.append(back);
    assert(text@ == front@ + back@);
    text
}

impl App {
    /// The program at the start of a file.
    pub fn new(path: u64) -> (app: Self)
        ensures
            app@.well_formed(),
            app@ == (AppState {
                path,
                active_path: path,
                offset: 0,
                line_number: 1,
                mode: InputMode::Normal,
                search_input: Seq::empty(),
                command_input: Seq::empty(),
                pending_count: Seq::empty(),
                search_query: Seq::empty(),
                searching: false,
                search_matches: Seq::empty(),
                current_match: None,
                format_requested: false,
                formatting: false,
                formatted_path: None,
                message: "ready"@,
            }),
    {
        App {
            path,
            active_path: path,
            offset: 0,
            line_number: 1,
            mode: InputMode::Normal,
            search_input: String::new(),
            command_input: String::new(),
            pending_count: String::new(),
            search_query: String::new(),
            searching: false,
            search_matches: Vec::new(),
            current_match: None,
            format_requested: false,
            formatting: false,
            formatted_path: None,
            message: "ready".to_owned(),
        }
    }

    /// The offset whose line number is needed to take in the updates of the search, if one is: the first
    /// place found becomes the one that is shown.
    pub fn wanted_line(&self, updates: &Vec<SearchUpdate>) -> (offset: Option<u64>)
        ensures
            offset == (if self.current_match is None {
                first_found(updates@)
            } else {
                None
            }),
    {
        if self.current_match.is_some() {
            return None;
        }
        let mut i: usize = 0;
        assert(updates@.skip(0) == updates@);
        while i < updates.len()
            invariant
                i <= updates@.len(),
                self.current_match is None,
                first_found(updates@) == first_found(updates@.skip(i as int)),
            decreases updates@.len() - i,
        {
            assert(updates@.skip(i as int).drop_first() == updates@.skip(i + 1));
            match &updates[i] {
                SearchUpdate::Found(found) => {
                    return Some(found.offset);
                },
                _ => {},
            }
            i += 1;
        }
        None
    }

    /// Takes in an update of the search.
    fn take_search_update(&mut self, update: &SearchUpdate, line: Option<u64>)
        requires
            old(self)@.well_formed(),
        ensures
            final(self)@.well_formed(),
            final(self)@ == old(self)@.after_search_update(*update, line),
    {
        match update {
            SearchUpdate::Found(found) => {
                self.search_matches.push(*found);
                let count: usize = self.search_matches.len();
                let index: usize = match self.current_match {
                    Some(index) => index,
                    None => {
                        self.current_match = Some(0);
                        self.offset = self.search_matches[0].offset;
                        match line {
                            Some(number) => {
                                self.line_number = number;
                            },
                            None => {},
                        }
                        0
                    },
                };
                assert(index < count);
                self.message = build_match_message(
                    index as u64 + 1,
                    count as u64,
                    self.search_query.as_str(),
                );
            },
            SearchUpdate::Progress { bytes_scanned } => {
                let mut message = put_together("searching /", self.search_query.as_str());
                message.append("; scanned ");
                message.append(human_bytes(*bytes_scanned).as_str());
                self.message = message;
            },
            SearchUpdate::Finished { matches } => {
                self.message = if *matches == 0 {
                    put_together("no match for /", self.search_query.as_str())
                } else {
                    let mut message = String::new();
                    message.append("search done: ");
                    push_decimal(&mut message, *matches);
                    message.append(" matches for /");
                    message.append(self.search_query.as_str());
                    assert(message@ == "search done: "@ + decimal(*matches as nat)
                        + " matches for /"@ + self.search_query@);
                    message
                };
            },
            SearchUpdate::Failed(message) => {
                self.message = put_together("search failed: ", message.as_str());
            },
        }
    }

    /// Takes in what the search in the background has to tell. `disconnected` says that it has nothing
    /// more to tell. `line` is the number of the line that `wanted_line` asks for, if it could be found.
    pub fn poll_search(
        &mut self,
        updates: &Vec<SearchUpdate>,
        disconnected: bool,
        line: Option<u64>,
    )
        requires
            old(self)@.well_formed(),
        ensures
            final(self)@.well_formed(),
            final(self)@ == old(self)@.search_polled(updates@, disconnected, line),
    {
        let mut finished = disconnected;
        let mut i: usize = 0;
        assert(updates@.take(0) == Seq::<SearchUpdate>::empty());
        while i < updates.len()
            invariant
                i <= updates@.len(),
                self@.well_formed(),
                self@ == old(self)@.after_search_updates(updates@.take(i as int), line),
                finished == (disconnected || exists|k: int|
                    0 <= k < i && ends_search(#[trigger] updates@[k])),
            decreases updates@.len() - i,
        {
            assert(updates@.take(i + 1).drop_last() == updates@.take(i as int));
            self.take_search_update(&updates[i], line);
            match &updates[i] {
                SearchUpdate::Finished { .. } | SearchUpdate::Failed(_) => {
                    assert(ends_search(updates@[i as int]));
                    finished = true;
                },
                _ => {},
            }
            i += 1;
        }
        assert(updates@.take(i as int) == updates@);
        if finished {
            self.searching = false;
        }
    }

    /// Shows a file from its start on.
    pub fn switch_to_path(&mut self, path: u64, message: String)
        ensures
            final(self)@.well_formed(),
            final(self)@ == old(self)@.switched_to(path, message@),
    {
        self.active_path = path;
        self.offset = 0;
        self.line_number = 1;
        self.searching = false;
        self.search_matches.clear();
        self.current_match = None;
        self.search_query = String::new();
        self.search_input = String::new();
        self.command_input = String::new();
        self.pending_count = String::new();
        self.message = message;
    }

    /// The files that are to be opened to take in the updates of the formatting, in turn.
    pub fn wanted_files(&self, updates: &Vec<FormatUpdate>) -> (files: Vec<u64>)
        ensures
            files@ == self@.files_to_open(updates@),
    {
        let mut requested = self.format_requested;
        let mut files: Vec<u64> = Vec::new();
        let ghost mut state = self@;
        let mut i: usize = 0;
        assert(updates@.skip(0) == updates@);
        while i < updates.len()
            invariant
                i <= updates@.len(),
                requested == state.format_requested,
                self@.files_to_open(updates@) == files@ + state.files_to_open(
                    updates@.skip(i as int),
                ),
            decreases updates@.len() - i,
        {
            assert(updates@.skip(i as int).drop_first() == updates@.skip(i + 1));
            match &updates[i] {
                FormatUpdate::Progress { .. } => {},
                FormatUpdate::Finished { path, .. } => {
                    if requested {
                        files.push(*path);
                    }
                },
                FormatUpdate::Failed(_) => {
                    requested = false;
                },
            }
            proof {
                state = state.after_format_update(updates@[i as int]);
            }
            i += 1;
        }
        files
    }

    /// Takes in what the formatting in the background has to tell. `disconnected` says that it has
    /// nothing more to tell. `opened` is how many of the files that `wanted_files` asks for could be
    /// opened, in turn, up to the first that could not. Returns whether these were all; if not, the
    /// updates from that file on are not taken in.
    pub fn poll_format(
        &mut self,
        updates: &Vec<FormatUpdate>,
        disconnected: bool,
        opened: usize,
    ) -> (all: bool)
        requires
            old(self)@.well_formed(),
        ensures
            final(self)@.well_formed(),
            (final(self)@, all) == old(self)@.format_polled(updates@, disconnected, opened as nat),
            all == (old(self)@.files_to_open(updates@).len() <= opened),
    {
        let mut finished = disconnected;
        let mut left: usize = opened;
        let mut i: usize = 0;
        assert(updates@.skip(0) == updates@);
        while i < updates.len()
            invariant
                i <= updates@.len(),
                self@.well_formed(),
                left <= opened,
                old(self)@.after_format_updates(updates@, opened as nat)
                    == self@.after_format_updates(updates@.skip(i as int), left as nat),
                old(self)@.files_to_open(updates@).len() == opened - left + self@.files_to_open(
                    updates@.skip(i as int),
                ).len(),
                finished == (disconnected || exists|k: int|
                    0 <= k < i && ends_format(#[trigger] updates@[k])),
            decreases updates@.len() - i,
        {
            assert(updates@.skip(i as int).drop_first() == updates@.skip(i + 1));
            assert(updates@.skip(i as int)[0] == updates@[i as int]);
            match &updates[i] {
                FormatUpdate::Progress { bytes_read } => {
                    let mut message = put_together(
                        "formatting in background; read ",
                        human_bytes(*bytes_read).as_str(),
                    );
                    message.append("; raw view active");
                    self.message = message;
                },
                FormatUpdate::Finished { path, bytes_read } => {
                    assert(ends_format(updates@[i as int]));
                    finished = true;
                    self.formatted_path = Some(*path);
                    if self.format_requested {
                        if left == 0 {
                            return false;
                        }
                        left -= 1;
                        let message = put_together(
                            "formatted view ready; read ",
                            human_bytes(*bytes_read).as_str(),
                        );
                        self.switch_to_path(*path, message);
                    } else {
                        self.message = "formatted view ready; press f to open".to_owned();
                    }
                },
                FormatUpdate::Failed(message) => {
                    assert(ends_format(updates@[i as int]));
                    finished = true;
                    self.format_requested = false;
                    self.message = put_together("format failed: ", message.as_str());
                },
            }
            i += 1;
        }
        if finished {
            self.formatting = false;
        }
        true
    }
}

} // verus!
