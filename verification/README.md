# large_json_reader

A terminal reader for JSON files that are too large to be held in memory.

- `src/` is the library. It says what a screen shows of a file, how one moves through it, where a
  text stands in it, how it is formatted and coloured, and what each key does. It is verified with
  Verus; what is believed without proof is listed below. The files `src/line_laws.rs` and
  `src/app_laws.rs`, and the functions whose names begin with `law_` elsewhere, state what follows for
  all files and states.
- `app/` is the program: it reads the file, draws on the terminal and runs searching and formatting
  in threads. It asks the library what to read and hands back what it has read.
- `tests/` runs the library on small files held in memory.

The library never opens a file. A reader (`WindowReader`, `BackwardWalk`, `LineSeeker`,
`LineCounter`, `Searcher`, `Formatter`) says what it needs next or takes what comes, in pieces of any
size. A key that needs something done to the file returns a `Request`; the state takes it in once it
has been done, and stays as it is if it fails.

Believed without proof are the contracts of calls into other libraries:

- of the standard library: `String::push` and `String::pop` (`src/text.rs`) and
  `String::from_utf8_lossy` (`decode_lossy` in `src/lines.rs`);
- of syntect, all in `src/syntax.rs`: `SyntaxSet::load_defaults_newlines`, `ThemeSet::load_defaults`,
  and the wrappers `theme_by_name`, `first_theme`, `find_syntax`, `begin_text` and `split_line`. Its
  types are opaque to the proofs.

Keys: `j`/`k` and the arrows move by a line, page up, page down and space by a screen, ctrl-d and
ctrl-u by half a screen, `g` and `G` go to the ends, `12G` and `:12` to a line, `/` searches, `n` and
`N` go to the next match and the one before, `f` shows the formatted view, `q` quits.
