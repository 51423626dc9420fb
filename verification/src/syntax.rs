use syntect::easy::HighlightLines;
use syntect::highlighting::{FontStyle, Theme, ThemeSet};
use syntect::parsing::{SyntaxReference, SyntaxSet};
use vstd::prelude::*;

use crate::highlight::line_tokens;
use crate::line_laws::law_window_is_bounded;
use crate::span_laws::law_nothing_stands_out_without_a_query;
use crate::spans::{fallback_spans, numbered_line, piece_spans, SyntaxPiece};
use crate::spans::{gutter, marked_all, piece_views, themed, token_pieces, PieceView};
use crate::spans::{
    law_fallback_keeps_the_line, law_marking_keeps_the_pieces, lemma_joined_adds_up,
    lemma_joined_single,
};
use crate::style::{joined_spans, plain, span_views, SpanView};
use crate::style::{StyledSpan, SyntaxStyle};
use crate::window::{numbered_line_is, numbered_lines_are, window_lines};
use crate::window::{NumberedLine, NumberedWindow};

verus! {

/// `syntect::parsing::SyntaxSet`: the syntaxes that are known.
#[verifier::external_type_specification]
#[verifier::external_body]
pub struct ExSyntaxSet(syntect::parsing::SyntaxSet);

/// `syntect::parsing::SyntaxReference`: one syntax.
#[verifier::external_type_specification]
#[verifier::external_body]
pub struct ExSyntaxReference(syntect::parsing::SyntaxReference);

/// `syntect::highlighting::Theme`: the looks of a text.
#[verifier::external_type_specification]
#[verifier::external_body]
pub struct ExTheme(syntect::highlighting::Theme);

/// `syntect::highlighting::ThemeSet`: the themes that are known.
#[verifier::external_type_specification]
#[verifier::external_body]
pub struct ExThemeSet(syntect::highlighting::ThemeSet);

/// `syntect::easy::HighlightLines`: the state between one line of a text and the next.
#[verifier::external_type_specification]
#[verifier::external_body]
pub struct ExHighlightLines<'a>(syntect::easy::HighlightLines<'a>);

/// The theme that bears a name.
pub uninterp spec fn theme_called(
    themes: syntect::highlighting::ThemeSet,
    name: Seq<char>,
) -> Option<syntect::highlighting::Theme>;

/// The theme whose name comes first.
pub uninterp spec fn theme_in_front(themes: syntect::highlighting::ThemeSet) -> Option<
    syntect::highlighting::Theme,
>;

/// The syntax for the files with an extension.
pub uninterp spec fn syntax_for(
    set: syntect::parsing::SyntaxSet,
    extension: Seq<char>,
) -> Option<syntect::parsing::SyntaxReference>;

/// The state in front of the first line of a text.
pub uninterp spec fn text_begun(
    syntax: syntect::parsing::SyntaxReference,
    theme: syntect::highlighting::Theme,
) -> syntect::easy::HighlightLines<'static>;

/// The pieces of the next line of a text, if it could be split, and the state behind it.
pub uninterp spec fn line_split(
    set: syntect::parsing::SyntaxSet,
    state: syntect::easy::HighlightLines<'static>,
    line: Seq<char>,
) -> (Option<Seq<PieceView>>, syntect::easy::HighlightLines<'static>);

/// The syntax that comes with syntect for the files with an extension.
pub uninterp spec fn shipped_syntax(extension: Seq<char>) -> Option<
    syntect::parsing::SyntaxReference,
>;

/// The theme that comes with syntect under a name.
pub uninterp spec fn shipped_theme(name: Seq<char>) -> Option<syntect::highlighting::Theme>;

/// `SyntaxSet::load_defaults_newlines` loads the syntaxes that come with syntect. They are part of the
/// crate: it is the same syntax for an extension every time. For which extensions there is one is left
/// unsaid.
pub assume_specification[ syntect::parsing::SyntaxSet::load_defaults_newlines ]() -> (set:
    syntect::parsing::SyntaxSet)
    ensures
        forall|extension: Seq<char>| #[trigger]
            syntax_for(set, extension) == shipped_syntax(extension),
;

/// `ThemeSet::load_defaults` loads the themes that come with syntect. They are part of the crate: it is
/// the same theme under a name every time. The one that is documented under the name used here is among
/// them.
pub assume_specification[ syntect::highlighting::ThemeSet::load_defaults ]() -> (themes:
    syntect::highlighting::ThemeSet)
    ensures
        forall|name: Seq<char>| #[trigger] theme_called(themes, name) == shipped_theme(name),
        theme_called(themes, "base16-ocean.dark"@) is Some,
;

/// `BTreeMap::get` on the themes of a `ThemeSet`: a copy of the theme that bears the name.
#[verifier::external_body]
fn theme_by_name(themes: &ThemeSet, name: &str) -> (theme: Option<Theme>)
    ensures
        theme == theme_called(*themes, name@),
{
    themes.themes.get(name).cloned()
}

/// `BTreeMap::values` on the themes of a `ThemeSet`: a copy of the first theme.
#[verifier::external_body]
fn first_theme(themes: &ThemeSet) -> (theme: Option<Theme>)
    ensures
        theme == theme_in_front(*themes),
{
    themes.themes.values().next().cloned()
}

/// `SyntaxSet::find_syntax_by_extension` finds the syntax for an extension. What it finds depends on the
/// set and the extension alone.
#[verifier::external_body]
fn find_syntax<'a>(set: &'a SyntaxSet, extension: &str) -> (syntax: Option<&'a SyntaxReference>)
    ensures
        match syntax {
            Some(found) => syntax_for(*set, extension@) == Some(*found),
            None => syntax_for(*set, extension@) is None,
        },
{
    set.find_syntax_by_extension(extension)
}

/// Whether a syntax is one of those that come with syntect.
pub open spec fn is_shipped(syntax: syntect::parsing::SyntaxReference) -> bool {
    exists|extension: Seq<char>| #[trigger] shipped_syntax(extension) == Some(syntax)
}

/// Whether a set finds the syntaxes that come with syntect.
pub open spec fn finds_shipped(set: syntect::parsing::SyntaxSet) -> bool {
    forall|extension: Seq<char>| #[trigger]
        syntax_for(set, extension) == shipped_syntax(extension)
}

/// `HighlightLines::new` begins a text. The state depends on the syntax and the theme alone.
#[verifier::external_body]
fn begin_text<'a>(syntax: &SyntaxReference, theme: &'a Theme) -> (state: HighlightLines<'a>)
    requires
        is_shipped(*syntax),
    ensures
        state == text_begun(*syntax, *theme),
{
    HighlightLines::new(syntax, theme)
}

/// The state behind some lines of a text.
pub open spec fn state_behind(
    set: syntect::parsing::SyntaxSet,
    begun: syntect::easy::HighlightLines<'static>,
    lines: Seq<Seq<char>>,
) -> syntect::easy::HighlightLines<'static>
    decreases lines.len(),
{
    if lines.len() == 0 {
        begun
    } else {
        line_split(set, state_behind(set, begun, lines.drop_last()), lines.last()).1
    }
}

/// How many characters a line may have that is split into pieces: as many as the widest terminal shows.
pub const LONGEST_LINE: usize = 0xffff;

/// Whether a line is not too long to be split.
pub open spec fn short_enough(line: Seq<char>) -> bool {
    line.len() <= LONGEST_LINE
}

/// Whether none of the lines is too long to be split.
pub open spec fn all_short(lines: Seq<Seq<char>>) -> bool {
    forall|k: int| 0 <= k < lines.len() ==> short_enough(#[trigger] lines[k])
}

/// Whether a state came about by reading lines of a text, none of them too long, whose syntax is one of
/// the set.
pub open spec fn is_reached(
    set: syntect::parsing::SyntaxSet,
    state: syntect::easy::HighlightLines<'static>,
) -> bool {
    exists|
        extension: Seq<char>,
        syntax: syntect::parsing::SyntaxReference,
        theme: syntect::highlighting::Theme,
        lines: Seq<Seq<char>>,
    |
        #![trigger syntax_for(set, extension), state_behind(set, text_begun(syntax, theme), lines)]
        syntax_for(set, extension) == Some(syntax) && all_short(lines) && state == state_behind(
            set,
            text_begun(syntax, theme),
            lines,
        )
}

/// All the texts of a row of pieces, one behind the other.
pub open spec fn joined_pieces(pieces: Seq<PieceView>) -> Seq<char>
    decreases pieces.len(),
{
    if pieces.len() == 0 {
        Seq::empty()
    } else {
        joined_pieces(pieces.drop_last()) + pieces.last().text
    }
}

/// `HighlightLines::highlight_line` splits the next line of a text into pieces, or fails. What comes of
/// it, and the state behind it, depend on the set, the state and the line alone. No piece is empty, and
/// the pieces follow each other in the line from its beginning. That they reach its end is left unsaid:
/// they stop where a scope cannot be restored.
///
/// Some syntaxes put what a line before has matched into a pattern, and syntect panics where such a
/// pattern grows too large for the regex engine. The bound on the lines keeps it small enough: the
/// patterns that come with syntect hold at most one such text each. It is left to syntect that what it
/// captures lies within the match.
#[verifier::external_body]
fn split_line(state: &mut HighlightLines<'_>, line: &str, set: &SyntaxSet) -> (pieces: Option<
    Vec<SyntaxPiece>,
>)
    requires
        finds_shipped(*set),
        is_reached(*set, *old(state)),
        short_enough(line@),
    ensures
        *final(state) == line_split(*set, *old(state), line@).1,
        match pieces {
            Some(found) => {
                &&& line_split(*set, *old(state), line@).0 == Some(piece_views(found@))
                &&& joined_pieces(piece_views(found@)).is_prefix_of(line@)
                &&& forall|i: int| 0 <= i < found@.len() ==> (#[trigger] found@[i]).text@.len() > 0
            },
            None => line_split(*set, *old(state), line@).0 is None,
        },
{
    let ranges = state.highlight_line(line, set).ok()?;
    let piece = |(look, text): (syntect::highlighting::Style, &str)| {
        let (color, font) = (look.foreground, look.font_style);
        let bold = font.contains(FontStyle::BOLD);
        let italic = font.contains(FontStyle::ITALIC);
        let underline = font.contains(FontStyle::UNDERLINE);
        let (red, green, blue) = (color.r, color.g, color.b);
        let style = SyntaxStyle { red, green, blue, bold, italic, underline };
        SyntaxPiece { text: text.to_owned(), style }
    };
    Some(ranges.into_iter().map(piece).collect())
}

/// The spans of a line: the pieces in the looks of the theme, or, where the line was not split, its
/// tokens; with what a search has found standing out.
pub open spec fn spans_of(
    split: Option<Seq<PieceView>>,
    line: Seq<char>,
    query: Seq<char>,
) -> Seq<SpanView> {
    match split {
        Some(pieces) => marked_all(themed(pieces), query),
        None => marked_all(token_pieces(line_tokens(line)), query),
    }
}

/// The pieces of a line, if there are any.
pub open spec fn split_view(pieces: Option<Vec<SyntaxPiece>>) -> Option<Seq<PieceView>> {
    match pieces {
        Some(pieces) => Some(piece_views(pieces@)),
        None => None,
    }
}

/// The spans of a line that a theme has split into pieces, or of one that it has not.
pub fn line_spans(pieces: &Option<Vec<SyntaxPiece>>, line: &str, query: &str) -> (spans: Vec<
    StyledSpan,
>)
    ensures
        span_views(spans@) == spans_of(split_view(*pieces), line@, query@),
{
    match pieces {
        Some(pieces) => piece_spans(pieces, query),
        None => fallback_spans(line, query),
    }
}

proof fn lemma_themed_joins(pieces: Seq<PieceView>)
    ensures
        joined_spans(themed(pieces)) == joined_pieces(pieces),
    decreases pieces.len(),
{
    if pieces.len() > 0 {
        let looks = themed(pieces);
        lemma_themed_joins(pieces.drop_last());
        lemma_joined_adds_up(looks.drop_last(), seq![looks.last()]);
        lemma_joined_single(looks.last());
        assert(looks.drop_last() + seq![looks.last()] == looks);
        assert(looks.drop_last() == themed(pieces.drop_last()));
    }
}

/// The spans of a line show as much of it as the pieces do, and all of it where there are none.
pub proof fn law_spans_show_the_line(
    split: Option<Seq<PieceView>>,
    line: Seq<char>,
    query: Seq<char>,
)
    ensures
        joined_spans(spans_of(split, line, query)) == (match split {
            Some(pieces) => joined_pieces(pieces),
            None => line,
        }),
{
    match split {
        Some(pieces) => {
            law_marking_keeps_the_pieces(themed(pieces), query);
            lemma_themed_joins(pieces);
        },
        None => {
            law_fallback_keeps_the_line(line, query);
        },
    }
}

/// The theme that is used: the one with the name that is asked for, or the first one.
pub open spec fn picked_theme(themes: syntect::highlighting::ThemeSet) -> Option<
    syntect::highlighting::Theme,
> {
    if theme_called(themes, "base16-ocean.dark"@) is Some {
        theme_called(themes, "base16-ocean.dark"@)
    } else {
        theme_in_front(themes)
    }
}

/// Picks the theme that is used.
pub fn pick_theme(themes: &ThemeSet) -> (theme: Option<Theme>)
    ensures
        theme == picked_theme(*themes),
{
    let named = theme_by_name(themes, "base16-ocean.dark");
    if named.is_some() {
        named
    } else {
        first_theme(themes)
    }
}

/// The texts of the lines of a window.
pub open spec fn line_texts(lines: Seq<NumberedLine>) -> Seq<Seq<char>> {
    lines.map_values(|line: NumberedLine| line.line.text@)
}

/// The lines of every window of a screen that is not wider than the widest terminal are short enough to
/// be highlighted.
pub proof fn law_windows_can_be_highlighted(
    window: NumberedWindow,
    content: Seq<u8>,
    width: nat,
    height: nat,
    first: int,
)
    requires
        0 < width <= LONGEST_LINE,
        numbered_lines_are(
            window.lines@,
            window_lines(content, width, height, window.start_offset as int),
            content,
            window.start_offset as int,
            first,
        ),
    ensures
        all_short(line_texts(window.lines@)),
{
    let base = window.start_offset as int;
    let models = window_lines(content, width, height, base);
    law_window_is_bounded(content, width, height, base);
    assert forall|k: int| 0 <= k < window.lines@.len() implies short_enough(
        #[trigger] line_texts(window.lines@)[k],
    ) by {
        assert(numbered_line_is(window.lines@[k], models[k], content, base, first));
    }
}

/// The state behind some lines and then some more is the one that the later ones lead to from where the
/// earlier ones have led; a single line leads to where splitting it leads, and no line nowhere.
pub proof fn law_lines_in_front_count(
    set: syntect::parsing::SyntaxSet,
    begun: syntect::easy::HighlightLines<'static>,
    first: Seq<Seq<char>>,
    second: Seq<Seq<char>>,
    line: Seq<char>,
)
    ensures
        state_behind(set, begun, Seq::empty()) == begun,
        state_behind(set, begun, seq![line]) == line_split(set, begun, line).1,
        state_behind(set, begun, first + second) == state_behind(
            set,
            state_behind(set, begun, first),
            second,
        ),
    decreases second.len(),
{
    reveal_with_fuel(state_behind, 2);
    assert(seq![line].drop_last() == Seq::<Seq<char>>::empty());
    if second.len() == 0 {
        assert(first + second == first);
    } else {
        law_lines_in_front_count(set, begun, first, second.drop_last(), line);
        assert((first + second).drop_last() == first + second.drop_last());
        assert((first + second).last() == second.last());
    }
}

/// The pieces of a line come from the syntax of the extension and from the theme, behind all the lines in
/// front of it; without a syntax there are none. The theme is the one with the name, if there is one.
pub proof fn law_pieces_come_from_the_syntax(
    highlighter: SyntaxHighlighter,
    extension: &str,
    lines: Seq<Seq<char>>,
    i: int,
    themes: syntect::highlighting::ThemeSet,
)
    ensures
        highlighter.pieces_of(None, lines, i) is None,
        syntax_for(highlighter.syntaxes(), extension@) is None ==> highlighter.pieces_of(
            Some(extension),
            lines,
            i,
        ) is None,
        syntax_for(highlighter.syntaxes(), extension@) matches Some(syntax)
            ==> highlighter.pieces_of(Some(extension), lines, i) == line_split(
            highlighter.syntaxes(),
            state_behind(
                highlighter.syntaxes(),
                text_begun(syntax, highlighter.theme()),
                lines.take(i),
            ),
            lines[i],
        ).0,
        theme_called(themes, "base16-ocean.dark"@) is Some ==> picked_theme(themes)
            == theme_called(themes, "base16-ocean.dark"@),
        theme_called(themes, "base16-ocean.dark"@) is None ==> picked_theme(themes)
            == theme_in_front(themes),
{
}

/// Without a query, a line is shown in the pieces that the theme has split it into, or in its tokens, as
/// they are.
pub proof fn law_spans_keep_their_looks(split: Option<Seq<PieceView>>, line: Seq<char>)
    ensures
        spans_of(split, line, Seq::empty()) == (match split {
            Some(pieces) => themed(pieces),
            None => token_pieces(line_tokens(line)),
        }),
{
    match split {
        Some(pieces) => {
            law_nothing_stands_out_without_a_query(line, plain(), themed(pieces));
        },
        None => {
            law_nothing_stands_out_without_a_query(line, plain(), token_pieces(line_tokens(line)));
        },
    }
}

/// Highlights what the screen shows, in the looks of a theme.
pub struct SyntaxHighlighter {
    syntax_set: SyntaxSet,
    theme: Theme,
}

impl SyntaxHighlighter {
    /// What holds of every highlighter: its syntaxes are those that come with syntect.
    #[verifier::type_invariant]
    spec fn knows_shipped(self) -> bool {
        finds_shipped(self.syntax_set)
    }

    /// The syntaxes that are known.
    pub closed spec fn syntaxes(&self) -> syntect::parsing::SyntaxSet {
        self.syntax_set
    }

    /// The theme.
    pub closed spec fn theme(&self) -> syntect::highlighting::Theme {
        self.theme
    }

    /// The pieces of the line with the number `i` of a text whose file has the given extension. There
    /// are none if no syntax is known for it or if the line cannot be split. The lines in front of it
    /// count too.
    pub open spec fn pieces_of(
        &self,
        extension: Option<&str>,
        lines: Seq<Seq<char>>,
        i: int,
    ) -> Option<Seq<PieceView>> {
        match extension {
            Some(extension) => match syntax_for(self.syntaxes(), extension@) {
                Some(syntax) => {
                    let begun = text_begun(syntax, self.theme());
                    line_split(
                        self.syntaxes(),
                        state_behind(self.syntaxes(), begun, lines.take(i)),
                        lines[i],
                    ).0
                },
                None => None,
            },
            None => None,
        }
    }

    /// A highlighter with the syntaxes and the theme that come with syntect.
    pub fn new() -> (highlighter: Self)
        ensures
            shipped_theme("base16-ocean.dark"@) == Some(highlighter.theme()),
            forall|extension: Seq<char>| #[trigger]
                syntax_for(highlighter.syntaxes(), extension) == shipped_syntax(extension),
    {
        let themes = ThemeSet::load_defaults();
        let theme = pick_theme(&themes).unwrap();
        SyntaxHighlighter { syntax_set: SyntaxSet::load_defaults_newlines(), theme }
    }

    /// The lines of a window as they are shown: each with its number in front, in the looks of the
    /// theme, with what a search has found standing out. `extension` is that of the file, if it has
    /// one. No line may have more than `LONGEST_LINE` characters.
    pub fn highlight_window(
        &self,
        extension: Option<&str>,
        window: &NumberedWindow,
        query: &str,
        gutter_width: usize,
    ) -> (shown: Vec<Vec<StyledSpan>>)
        requires
            gutter_width > 0,
            all_short(line_texts(window.lines@)),
        ensures
            shown@.len() == window.lines@.len(),
            forall|i: int|
                0 <= i < shown@.len() ==> {
                    let line = window.lines@[i];
                    span_views((#[trigger] shown@[i])@) == seq![
                        gutter(line.line_number as nat, gutter_width as nat),
                    ] + spans_of(
                        self.pieces_of(extension, line_texts(window.lines@), i),
                        line.line.text@,
                        query@,
                    )
                },
            forall|i: int|
                0 <= i < shown@.len() ==> joined_spans(
                    span_views((#[trigger] shown@[i])@).drop_first(),
                ).is_prefix_of(window.lines@[i].line.text@),
    {
        proof {
            use_type_invariant(self);
        }
        let mut shown: Vec<Vec<StyledSpan>> = Vec::new();
        let ghost texts = line_texts(window.lines@);
        let ghost set = self.syntax_set;
        let syntax = match extension {
            Some(extension) => find_syntax(&self.syntax_set, extension),
            None => None,
        };
        match syntax {
            Some(syntax) => {
                assert(syntax_for(self.syntax_set, extension->0@) == Some(*syntax));
                let mut state = begin_text(syntax, &self.theme);
                let ghost begun = text_begun(*syntax, self.theme);
                let mut i: usize = 0;
                assert(texts.take(0) == Seq::<Seq<char>>::empty());
                while i < window.lines.len()
                    invariant
                        i <= window.lines@.len(),
                        i == shown@.len(),
                        gutter_width > 0,
                        texts == line_texts(window.lines@),
                        all_short(texts),
                        set == self.syntax_set,
                        finds_shipped(set),
                        extension is Some,
                        syntax_for(set, extension->0@) == Some(*syntax),
                        begun == text_begun(*syntax, self.theme),
                        state == state_behind(set, begun, texts.take(i as int)),
                        forall|k: int|
                            0 <= k < i ==> {
                                let line = window.lines@[k];
                                span_views((#[trigger] shown@[k])@) == seq![
                                    gutter(line.line_number as nat, gutter_width as nat),
                                ] + spans_of(
                                    self.pieces_of(extension, texts, k),
                                    line.line.text@,
                                    query@,
                                )
                            },
                        forall|k: int|
                            0 <= k < i ==> joined_spans(
                                span_views((#[trigger] shown@[k])@).drop_first(),
                            ).is_prefix_of(window.lines@[k].line.text@),
                    decreases window.lines@.len() - i,
                {
                    let line = &window.lines[i];
                    assert(all_short(texts.take(i as int)));
                    assert(is_reached(set, state)) by {
                        assert(syntax_for(set, extension->0@) == Some(*syntax));
                    }
                    let text = line.line.text.as_str();
                    assert(texts[i as int] == text@);
                    assert(texts.take(i + 1).drop_last() == texts.take(i as int));
                    let pieces = split_line(&mut state, text, &self.syntax_set);
                    let spans = line_spans(&pieces, text, query);
                    proof {
                        let split = split_view(pieces);
                        assert(split == self.pieces_of(extension, texts, i as int));
                        law_spans_show_the_line(split, text@, query@);
                    }
                    let ghost looks = span_views(spans@);
                    let numbered = numbered_line(line.line_number, gutter_width, spans);
                    assert(span_views(numbered@).drop_first() == looks);
                    shown.push(numbered);
                    i += 1;
                }
            },
            None => {
                let mut i: usize = 0;
                while i < window.lines.len()
                    invariant
                        i <= window.lines@.len(),
                        i == shown@.len(),
                        gutter_width > 0,
                        forall|k: int| (#[trigger] self.pieces_of(extension, texts, k)) is None,
                        forall|k: int|
                            0 <= k < i ==> {
                                let line = window.lines@[k];
                                span_views((#[trigger] shown@[k])@) == seq![
                                    gutter(line.line_number as nat, gutter_width as nat),
                                ] + spans_of(None, line.line.text@, query@)
                            },
                        forall|k: int|
                            0 <= k < i ==> joined_spans(
                                span_views((#[trigger] shown@[k])@).drop_first(),
                            ).is_prefix_of(window.lines@[k].line.text@),
                    decreases window.lines@.len() - i,
                {
                    let line = &window.lines[i];
                    let text = line.line.text.as_str();
                    let spans = line_spans(&None, text, query);
                    proof {
                        law_spans_show_the_line(None, text@, query@);
                    }
                    let ghost looks = span_views(spans@);
                    let numbered = numbered_line(line.line_number, gutter_width, spans);
                    assert(span_views(numbered@).drop_first() == looks);
                    shown.push(numbered);
                    i += 1;
                }
            },
        }
        shown
    }
}

} // verus!
