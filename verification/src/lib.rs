//! A reader for JSON files that are too large to be held in memory.
//!
//! `lines`, `window`, `back`, `file` and `numbers` say what a screen shows of a file and how to get
//! from one screen to another, `search` where a text stands in it and `format` how it is laid out
//! anew. `highlight`, `style`, `spans` and `syntax` say how the text is coloured, and `app`, `keys` and
//! `screen` what the program does with a key and with what comes back from the work in the background.
//! The modules whose names end in `_laws` hold what follows for all files, texts and states.
pub mod app;
pub mod app_laws;
pub mod back;
pub mod file;
pub mod format;
pub mod format_laws;
pub mod highlight;
pub mod highlight_laws;
pub mod key_laws;
pub mod keys;
pub mod line_laws;
pub mod lines;
pub mod numbers;
pub mod screen;
pub mod search;
pub mod size;
pub mod span_laws;
pub mod spans;
pub mod style;
pub mod syntax;
pub mod text;
pub mod text_laws;
pub mod window;

pub use app::{
    App, FormatUpdate, InputMode, Key, KeyPress, Request, SearchMatch, SearchUpdate,
};
pub use file::{BackwardWalk, LargeFile};
pub use format::Formatter;
pub use highlight::{highlight_json_line, JsonToken, TokenKind};
pub use lines::VisualLine;
pub use numbers::{LineCounter, LineSeeker};
pub use search::Searcher;
pub use syntax::SyntaxHighlighter;
pub use window::{NumberedLine, NumberedWindow, Window, WindowReader};
