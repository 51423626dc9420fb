use vstd::prelude::*;
use vstd::string::StringExecFns;

use crate::app::AppState;
use crate::app::{App, InputMode};
use crate::style::{key_look, plain, span_views, SpanView};
use crate::style::{key_style, plain_style, StyledSpan};
use crate::text::decimal;
use crate::text::{digits, push_decimal};

verus! {

/// How a key event came about.
#[derive(Debug, Clone, Copy, PartialEq, Eq, Structural)]
pub enum KeyKind {
    Press,
    Repeat,
    Release,
}

/// Whether a key event counts: a key that is let go does not.
pub fn counts_as_press(kind: KeyKind) -> (yes: bool)
    ensures
        yes == (kind != KeyKind::Release),
{
    match kind {
        KeyKind::Press | KeyKind::Repeat => true,
        KeyKind::Release => false,
    }
}

/// `from` less `what`, but not less than `least`.
pub open spec fn left_over(from: int, what: int, least: int) -> int {
    if from - what < least {
        least
    } else {
        from - what
    }
}

/// How many lines of a terminal show the file: all but the border and the status line, at least one.
pub fn view_height(term_height: u16) -> (height: usize)
    ensures
        height == left_over(term_height as int, 3, 1),
        height == (if term_height <= 4 { 1 } else { term_height - 3 }),
{
    if term_height <= 4 {
        1
    } else {
        term_height as usize - 3
    }
}

/// How many columns of a terminal show the text: all but the border and the gutter, at least one.
pub fn view_width(term_width: u16, gutter_width: usize) -> (width: usize)
    ensures
        width == left_over(term_width as int, 2 + gutter_width, 1),
        width <= u16::MAX,
        width == (if term_width <= 3 + gutter_width { 1 } else { term_width - 2 - gutter_width }),
{
    let wide: usize = term_width as usize;
    if wide <= 3 || wide - 3 <= gutter_width {
        1
    } else {
        wide - 2 - gutter_width
    }
}

/// A span in the look of plain text.
pub open spec fn raw_span(text: Seq<char>) -> SpanView {
    SpanView { text, style: plain() }
}

/// A span in the look of a key.
pub open spec fn key_span(text: Seq<char>) -> SpanView {
    SpanView { text, style: key_look() }
}

/// The title of the screen.
pub open spec fn title_of(
    path: Seq<char>,
    label: Seq<char>,
    line_number: nat,
    offset: nat,
    file_len: nat,
    percent: Seq<char>,
) -> Seq<char> {
    " "@ + path + " ["@ + label + "]  line "@ + decimal(line_number) + " byte "@ + decimal(offset)
        + " / "@ + decimal(file_len) + " bytes ("@ + percent + "%) "@
}

impl AppState {
    /// Which view of the file is shown.
    pub open spec fn label(self) -> Seq<char> {
        if !self.format_requested {
            "raw"@
        } else if self.formatted_path == Some(self.active_path) {
            "formatted"@
        } else {
            "formatting"@
        }
    }

    /// The status line.
    pub open spec fn status(self) -> Seq<SpanView> {
        match self.mode {
            InputMode::Search => seq![
                key_span(" / "@),
                raw_span(self.search_input),
                raw_span("  Enter search  Esc cancel"@),
            ],
            InputMode::Command => seq![
                key_span(" : "@),
                raw_span(self.command_input),
                raw_span("  Enter run  Esc cancel"@),
            ],
            InputMode::Normal => seq![
                raw_span(self.message),
                raw_span("  "@),
                key_span(" q "@),
                raw_span("quit "@),
                key_span(" / "@),
                raw_span("search "@),
                key_span(" n/N "@),
                raw_span("next/prev "@),
                key_span(" f "@),
                raw_span("format "@),
                key_span(" :line countG "@),
                raw_span("jump "@),
                key_span(" j/k PgUp/PgDn g/G "@),
                raw_span("move"@),
            ],
        }
    }
}

/// A span in the look of plain text.
fn raw(text: &str) -> (span: StyledSpan)
    ensures
        span@ == raw_span(text@),
{
    StyledSpan { text: text.to_owned(), style: plain_style() }
}

/// A span in the look of a key.
fn key(text: &str) -> (span: StyledSpan)
    ensures
        span@ == key_span(text@),
{
    StyledSpan { text: text.to_owned(), style: key_style() }
}

impl App {
    /// Which view of the file is shown.
    pub fn view_label(&self) -> (label: &'static str)
        ensures
            label@ == self@.label(),
    {
        if !self.format_requested {
            return "raw";
        }
        match self.formatted_path {
            Some(path) => if path == self.active_path {
                "formatted"
            } else {
                "formatting"
            },
            None => "formatting",
        }
    }

    /// How wide the gutter is going to be on a screen of `view_height` lines, at most: no line has a
    /// greater number than the first one and so many more.
    pub fn gutter_width_hint(&self, view_height: usize) -> (width: usize)
        requires
            self.line_number + view_height <= u64::MAX,
        ensures
            width == decimal((self.line_number + view_height) as nat).len() + 2,
            3 <= width <= 22,
    {
        digits(self.line_number + view_height as u64) + 2
    }

    /// The title of the screen. `path` is how the path of the file is told, `percent` how far the offset
    /// is into it.
    pub fn title(&self, path: &str, file_len: u64, percent: &str) -> (title: String)
        ensures
            title@ == title_of(
                path@,
                self@.label(),
                self.line_number as nat,
                self.offset as nat,
                file_len as nat,
                percent@,
            ),
    {
        let mut title = " ".to_owned();
        title.append(path);
        title.append(" [");
        title.append(self.view_label());
        title.append("]  line ");
        push_decimal(&mut title, self.line_number);
        title.append(" byte ");
        push_decimal(&mut title, self.offset);
        title.append(" / ");
        push_decimal(&mut title, file_len);
        title.append(" bytes (");
        title.append(percent);
        title.append("%) ");
        title
    }

    /// The status line: what is typed, or the message and the keys.
    pub fn status_line(&self) -> (spans: Vec<StyledSpan>)
        ensures
            span_views(spans@) == self@.status(),
    {
        let mut spans: Vec<StyledSpan> = Vec::new();
        match self.mode {
            InputMode::Search => {
                spans.push(key(" / "));
                spans.push(raw(self.search_input.as_str()));
                spans.push(raw("  Enter search  Esc cancel"));
            },
            InputMode::Command => {
                spans.push(key(" : "));
                spans.push(raw(self.command_input.as_str()));
                spans.push(raw("  Enter run  Esc cancel"));
            },
            InputMode::Normal => {
                spans.push(raw(self.message.as_str()));
                spans.push(raw("  "));
                spans.push(key(" q "));
                spans.push(raw("quit "));
                spans.push(key(" / "));
                spans.push(raw("search "));
                spans.push(key(" n/N "));
                spans.push(raw("next/prev "));
                spans.push(key(" f "));
                spans.push(raw("format "));
                spans.push(key(" :line countG "));
                spans.push(raw("jump "));
                spans.push(key(" j/k PgUp/PgDn g/G "));
                spans.push(raw("move"));
            },
        }
        assert(span_views(spans@) == self@.status());
        spans
    }
}

} // verus!
