use vstd::prelude::*;

use crate::highlight::highlight_json_line;
use crate::highlight::{joined, law_tokens_keep_the_line, line_tokens, token_views, TokenView};
use crate::line_laws::{law_window_is_bounded, lemma_starts_grow};
use crate::numbers::law_line_numbers_grow;
use crate::style::{
    color_style, search_style, style_for, syntect_style, SpanColor, SpanStyle, StyledSpan,
    SyntaxStyle,
};
use crate::style::{
    in_color, joined_spans, search_look, span_views, theme_look, token_look, SpanView,
};
use crate::text::decimal;
use crate::text::{chars_of, digits, push_decimal, spells, string_of};
use crate::window::NumberedWindow;
use crate::window::{numbered_line_is, numbered_lines_are, window_lines};

verus! {

/// Whether `query` stands in `text` at `at`.
pub open spec fn occurs_at(text: Seq<char>, query: Seq<char>, at: int) -> bool {
    0 <= at && at + query.len() <= text.len() && text.subrange(at, at + query.len()) == query
}

/// The first place from `at` on at which `query` stands in `text`.
pub open spec fn first_occurrence(text: Seq<char>, query: Seq<char>, at: int) -> Option<int>
    decreases text.len() + 1 - at,
{
    if at + query.len() > text.len() {
        None
    } else if occurs_at(text, query, at) {
        Some(at)
    } else {
        first_occurrence(text, query, at + 1)
    }
}

/// The spans of a text in which what a search has found stands out, from left to right.
pub open spec fn marked(text: Seq<char>, style: SpanStyle, query: Seq<char>) -> Seq<SpanView>
    decreases text.len(),
{
    if query.len() == 0 {
        seq![SpanView { text, style }]
    } else {
        match first_occurrence(text, query, 0) {
            Some(at) => {
                proof {
                    lemma_first_occurrence(text, query, 0);
                }
                let front = if at > 0 {
                    seq![SpanView { text: text.take(at), style }]
                } else {
                    Seq::empty()
                };
                front + seq![SpanView { text: query, style: search_look() }] + marked(
                    text.skip(at + query.len()),
                    style,
                    query,
                )
            },
            None => if text.len() > 0 {
                seq![SpanView { text, style }]
            } else {
                Seq::empty()
            },
        }
    }
}

/// The spans of a row of pieces, each with what a search has found standing out.
pub open spec fn marked_all(pieces: Seq<SpanView>, query: Seq<char>) -> Seq<SpanView>
    decreases pieces.len(),
{
    if pieces.len() == 0 {
        Seq::empty()
    } else {
        marked_all(pieces.drop_last(), query) + marked(
            pieces.last().text,
            pieces.last().style,
            query,
        )
    }
}

/// The first occurrence lies where it was looked for, and there is none in front of it.
pub proof fn lemma_first_occurrence(text: Seq<char>, query: Seq<char>, at: int)
    requires
        0 <= at,
    ensures
        first_occurrence(text, query, at) matches Some(found) ==> at <= found && occurs_at(
            text,
            query,
            found,
        ),
        forall|i: int|
            at <= i && (first_occurrence(text, query, at) matches Some(found) ==> i < found)
                ==> !#[trigger] occurs_at(text, query, i),
    decreases text.len() + 1 - at,
{
    if at + query.len() <= text.len() && !occurs_at(text, query, at) {
        lemma_first_occurrence(text, query, at + 1);
    }
}

/// Where a query is first found does not depend on what stands in front of it.
proof fn lemma_shifted_occurrence(text: Seq<char>, query: Seq<char>, by: int, at: int)
    requires
        0 <= by <= text.len(),
        0 <= at,
    ensures
        first_occurrence(text, query, by + at) == (match first_occurrence(
            text.skip(by),
            query,
            at,
        ) {
            Some(found) => Some(found + by),
            None => None,
        }),
    decreases text.len() + 1 - by - at,
{
    if at + query.len() <= text.skip(by).len() {
        assert(text.skip(by).subrange(at, at + query.len()) == text.subrange(
            by + at,
            by + at + query.len(),
        ));
        lemma_shifted_occurrence(text, query, by, at + 1);
    }
}

/// Finds the first place from `from` on at which `query` stands in `text`.
pub fn find_from(text: &Vec<char>, query: &Vec<char>, from: usize) -> (found: Option<usize>)
    requires
        from <= text@.len(),
    ensures
        match found {
            Some(at) => first_occurrence(text@, query@, from as int) == Some(at as int) && from
                <= at && at + query.len() <= text.len(),
            None => first_occurrence(text@, query@, from as int) is None,
        },
{
    if query.len() > text.len() {
        return None;
    }
    let mut at: usize = from;
    while at <= text.len() - query.len()
        invariant
            from <= at <= text@.len() - query@.len() + 1 || at == from,
            query@.len() <= text@.len(),
            first_occurrence(text@, query@, at as int) == first_occurrence(
                text@,
                query@,
                from as int,
            ),
        decreases text@.len() + 1 - at,
    {
        if spells(text, at, at + query.len(), query) {
            return Some(at);
        }
        assert(query@.len() == 0 ==> text@.subrange(at as int, at as int) == query@);
        at += 1;
    }
    None
}

/// Splits a text into spans in which every occurrence of `query` stands out, the others keeping
/// `style`. Occurrences that overlap one that stands in front of them are passed over.
pub fn split_search_spans(text: String, style: SpanStyle, query: &str) -> (spans: Vec<StyledSpan>)
    ensures
        span_views(spans@) == marked(text@, style, query@),
{
    let mut spans: Vec<StyledSpan> = Vec::new();
    let wanted = chars_of(query);
    if wanted.len() == 0 {
        spans.push(StyledSpan { text, style });
        assert(span_views(spans@) == seq![SpanView { text: text@, style }]);
        return spans;
    }
    let chars = chars_of(text.as_str());
    let mut start: usize = 0;
    assert(text@.skip(0) == text@);
    assert(span_views(spans@) == Seq::<SpanView>::empty());
    loop
        invariant
            chars@ == text@,
            wanted@ == query@,
            query@.len() > 0,
            start <= chars@.len(),
            marked(text@, style, query@) == span_views(spans@) + marked(
                text@.skip(start as int),
                style,
                query@,
            ),
        ensures
            start <= chars@.len(),
            first_occurrence(text@.skip(start as int), query@, 0) is None,
        decreases chars@.len() - start,
    {
        let ghost rest = text@.skip(start as int);
        let ghost before = span_views(spans@);
        proof {
            lemma_shifted_occurrence(text@, query@, start as int, 0);
        }
        match find_from(&chars, &wanted, start) {
            None => {
                break;
            },
            Some(index) => {
                let end = index + wanted.len();
                proof {
                    lemma_first_occurrence(text@, query@, start as int);
                    assert(rest.take(index - start) == text@.subrange(
                        start as int,
                        index as int,
                    ));
                    assert(rest.skip(end - start) == text@.skip(end as int));
                }
                if index > start {
                    spans.push(StyledSpan { text: string_of(&chars, start, index), style });
                    assert(span_views(spans@) == before.push(
                        SpanView { text: rest.take(index - start), style },
                    ));
                }
                let ghost between = span_views(spans@);
                spans.push(
                    StyledSpan { text: string_of(&chars, index, end), style: search_style() },
                );
                assert(span_views(spans@) == between.push(
                    SpanView { text: query@, style: search_look() },
                ));
                assert(marked(rest, style, query@) == span_views(spans@).skip(before.len() as int)
                    + marked(text@.skip(end as int), style, query@));
                assert(span_views(spans@) == before + span_views(spans@).skip(
                    before.len() as int,
                ));
                start = end;
            },
        }
    }
    let ghost before = span_views(spans@);
    let ghost rest = text@.skip(start as int);
    if start < chars.len() {
        spans.push(StyledSpan { text: string_of(&chars, start, chars.len()), style });
        assert(rest == text@.subrange(start as int, chars@.len() as int));
        assert(span_views(spans@) == before.push(SpanView { text: rest, style }));
    }
    assert(span_views(spans@) == before + marked(rest, style, query@));
    spans
}

/// The pieces of a line of JSON, in the look of their tokens.
pub open spec fn token_pieces(tokens: Seq<TokenView>) -> Seq<SpanView> {
    tokens.map_values(|token: TokenView| SpanView { text: token.text, style: token_look(token.kind) })
}

/// The spans of a line of JSON: its tokens in their looks, with what a search has found standing out.
pub fn fallback_spans(text: &str, query: &str) -> (spans: Vec<StyledSpan>)
    ensures
        span_views(spans@) == marked_all(token_pieces(line_tokens(text@)), query@),
{
    let tokens = highlight_json_line(text);
    let ghost pieces = token_pieces(line_tokens(text@));
    let mut spans: Vec<StyledSpan> = Vec::new();
    assert(span_views(spans@) == Seq::<SpanView>::empty());
    assert(pieces.take(0) == Seq::<SpanView>::empty());
    let mut i: usize = 0;
    while i < tokens.len()
        invariant
            i <= tokens@.len(),
            token_views(tokens@) == line_tokens(text@),
            pieces == token_pieces(line_tokens(text@)),
            pieces.len() == tokens@.len(),
            span_views(spans@) == marked_all(pieces.take(i as int), query@),
        decreases tokens@.len() - i,
    {
        assert(token_views(tokens@)[i as int] == tokens@[i as int]@);
        assert(pieces.take(i + 1).drop_last() == pieces.take(i as int));
        let ghost before = span_views(spans@);
        let mut more = split_search_spans(tokens[i].text.clone(), style_for(tokens[i].kind), query);
        let ghost added = more@;
        spans.append(&mut more);
        assert(span_views(spans@) == before + span_views(added));
        i += 1;
    }
    assert(pieces.take(i as int) == pieces);
    spans
}

/// A piece of text in the look that a theme asks for.
#[derive(Debug, Clone, PartialEq, Eq)]
pub struct SyntaxPiece {
    pub text: String,
    pub style: SyntaxStyle,
}

/// A piece as a mathematical value.
pub struct PieceView {
    pub text: Seq<char>,
    pub style: SyntaxStyle,
}

impl View for SyntaxPiece {
    type V = PieceView;

    open spec fn view(&self) -> PieceView {
        PieceView { text: self.text@, style: self.style }
    }
}

/// The mathematical values of a row of pieces.
pub open spec fn piece_views(pieces: Seq<SyntaxPiece>) -> Seq<PieceView> {
    pieces.map_values(|piece: SyntaxPiece| piece@)
}

/// The pieces in the looks of the terminal.
pub open spec fn themed(pieces: Seq<PieceView>) -> Seq<SpanView> {
    pieces.map_values(|piece: PieceView| SpanView { text: piece.text, style: theme_look(piece.style) })
}

/// The spans of a line that a theme has split into pieces, with what a search has found standing out.
pub fn piece_spans(pieces: &Vec<SyntaxPiece>, query: &str) -> (spans: Vec<StyledSpan>)
    ensures
        span_views(spans@) == marked_all(themed(piece_views(pieces@)), query@),
{
    let ghost looks = themed(piece_views(pieces@));
    let mut spans: Vec<StyledSpan> = Vec::new();
    assert(span_views(spans@) == Seq::<SpanView>::empty());
    assert(looks.take(0) == Seq::<SpanView>::empty());
    let mut i: usize = 0;
    while i < pieces.len()
        invariant
            i <= pieces@.len(),
            looks == themed(piece_views(pieces@)),
            looks.len() == pieces@.len(),
            span_views(spans@) == marked_all(looks.take(i as int), query@),
        decreases pieces@.len() - i,
    {
        assert(looks.take(i + 1).drop_last() == looks.take(i as int));
        let ghost before = span_views(spans@);
        let mut more = split_search_spans(
            pieces[i].text.clone(),
            syntect_style(pieces[i].style),
            query,
        );
        let ghost added = more@;
        spans.append(&mut more);
        assert(span_views(spans@) == before + span_views(added));
        i += 1;
    }
    assert(looks.take(i as int) == looks);
    spans
}

/// `text` moved to the right by blanks, so that it is `width` characters wide; as it is where it is
/// not narrower.
pub open spec fn right_aligned(text: Seq<char>, width: nat) -> Seq<char> {
    if text.len() >= width {
        text
    } else {
        Seq::new((width - text.len()) as nat, |i: int| ' ') + text
    }
}

/// What stands in front of a line: its number and a blank.
pub open spec fn gutter(number: nat, width: nat) -> SpanView {
    SpanView {
        text: right_aligned(decimal(number), (width - 1) as nat).push(' '),
        style: in_color(SpanColor::DarkGray),
    }
}

/// Puts the number of a line in front of its spans, in a gutter of the given width.
pub fn numbered_line(line_number: u64, gutter_width: usize, spans: Vec<StyledSpan>) -> (line: Vec<
    StyledSpan,
>)
    requires
        gutter_width > 0,
    ensures
        span_views(line@) == seq![gutter(line_number as nat, gutter_width as nat)] + span_views(
            spans@,
        ),
{
    let mut text = String::new();
    let count = digits(line_number);
    let mut blanks: usize = 0;
    let ghost wide = decimal(line_number as nat);
    while count + blanks < gutter_width - 1
        invariant
            count == wide.len(),
            1 <= count <= 20,
            gutter_width > 0,
            blanks == 0 || count + blanks <= gutter_width - 1,
            text@ == Seq::new(blanks as nat, |i: int| ' '),
        decreases gutter_width - blanks,
    {
        text.push(' ');
        blanks += 1;
        assert(text@ == Seq::new(blanks as nat, |i: int| ' '));
    }
    push_decimal(&mut text, line_number);
    assert(text@ == right_aligned(wide, (gutter_width - 1) as nat));
    text.push(' ');
    let mut line: Vec<StyledSpan> = Vec::new();
    line.push(StyledSpan { text, style: color_style(SpanColor::DarkGray) });
    let ghost tail = spans@;
    let mut rest = spans;
    line.append(&mut rest);
    assert(span_views(line@) == seq![gutter(line_number as nat, gutter_width as nat)] + span_views(
        tail,
    ));
    line
}

/// The width of the gutter that a window needs: the greatest line number, a blank and one more.
pub open spec fn gutter_width_of(window: NumberedWindow) -> nat {
    let greatest = if window.lines@.len() == 0 {
        1
    } else if window.lines@.last().line_number >= window.lines@.last().next_line_number {
        window.lines@.last().line_number
    } else {
        window.lines@.last().next_line_number
    };
    decimal(greatest as nat).len() + 2
}

/// The width of the gutter that a window needs.
pub fn gutter_width(window: &NumberedWindow) -> (width: usize)
    ensures
        width == gutter_width_of(*window),
        3 <= width <= 22,
{
    let greatest: u64 = if window.lines.len() == 0 {
        1
    } else {
        let last = &window.lines[window.lines.len() - 1];
        if last.line_number >= last.next_line_number {
            last.line_number
        } else {
            last.next_line_number
        }
    };
    digits(greatest) + 2
}

/// The text of two rows of spans is that of the first and that of the second.
pub proof fn lemma_joined_adds_up(first: Seq<SpanView>, second: Seq<SpanView>)
    ensures
        joined_spans(first + second) == joined_spans(first) + joined_spans(second),
    decreases first.len(),
{
    if first.len() == 0 {
        assert(first + second == second);
        assert(joined_spans(first) + joined_spans(second) == joined_spans(second));
    } else {
        lemma_joined_adds_up(first.drop_first(), second);
        assert((first + second).drop_first() == first.drop_first() + second);
        assert(first[0].text + (joined_spans(first.drop_first()) + joined_spans(second)) == (
        first[0].text + joined_spans(first.drop_first())) + joined_spans(second));
    }
}

/// The text of a single span is its own.
pub proof fn lemma_joined_single(span: SpanView)
    ensures
        joined_spans(seq![span]) == span.text,
{
    reveal_with_fuel(joined_spans, 2);
    assert(seq![span].drop_first() == Seq::<SpanView>::empty());
    assert(span.text + Seq::<char>::empty() == span.text);
}

/// The spans of a text put together again are the text: marking what was found loses nothing.
pub proof fn law_marking_keeps_the_text(text: Seq<char>, style: SpanStyle, query: Seq<char>)
    ensures
        joined_spans(marked(text, style, query)) == text,
    decreases text.len(),
{
    lemma_joined_single(SpanView { text, style });
    if query.len() > 0 {
        if let Some(at) = first_occurrence(text, query, 0) {
            lemma_first_occurrence(text, query, 0);
            let rest = text.skip(at + query.len());
            let found = SpanView { text: query, style: search_look() };
            let before = SpanView { text: text.take(at), style };
            let front = if at > 0 {
                seq![before]
            } else {
                Seq::empty()
            };
            law_marking_keeps_the_text(rest, style, query);
            lemma_joined_single(before);
            lemma_joined_single(found);
            lemma_joined_adds_up(front, seq![found]);
            lemma_joined_adds_up(front + seq![found], marked(rest, style, query));
            assert(joined_spans(front) == text.take(at));
            assert(text.take(at) + query + rest == text);
        }
    }
}

/// Every span either is what was looked for and stands out, or keeps its look and does not hold what
/// was looked for.
pub proof fn law_only_the_query_stands_out(text: Seq<char>, style: SpanStyle, query: Seq<char>)
    requires
        query.len() > 0,
    ensures
        forall|i: int|
            0 <= i < marked(text, style, query).len() ==> {
                let span = #[trigger] marked(text, style, query)[i];
                ||| span.text == query && span.style == search_look()
                ||| span.style == style && span.text.len() > 0 && forall|at: int|
                    !#[trigger] occurs_at(span.text, query, at)
            },
    decreases text.len(),
{
    lemma_first_occurrence(text, query, 0);
    if let Some(found) = first_occurrence(text, query, 0) {
        let rest = marked(text.skip(found + query.len()), style, query);
        law_only_the_query_stands_out(text.skip(found + query.len()), style, query);
        let ahead: int = if found > 0 {
            2
        } else {
            1
        };
        assert forall|i: int| 0 <= i < marked(text, style, query).len() implies {
            let span = #[trigger] marked(text, style, query)[i];
            ||| span.text == query && span.style == search_look()
            ||| span.style == style && span.text.len() > 0 && forall|at: int|
                !#[trigger] occurs_at(span.text, query, at)
        } by {
            let span = marked(text, style, query)[i];
            if i >= ahead {
                assert(span == rest[i - ahead]);
            } else if i == 0 && found > 0 {
                assert forall|at: int| !#[trigger] occurs_at(span.text, query, at) by {
                    if occurs_at(span.text, query, at) {
                        assert(text.subrange(at, at + query.len()) == span.text.subrange(
                            at,
                            at + query.len(),
                        ));
                        assert(occurs_at(text, query, at));
                    }
                }
            }
        }
    }
}

/// Marking a row of pieces keeps all their text.
pub proof fn law_marking_keeps_the_pieces(pieces: Seq<SpanView>, query: Seq<char>)
    ensures
        joined_spans(marked_all(pieces, query)) == joined_spans(pieces),
    decreases pieces.len(),
{
    if pieces.len() > 0 {
        let last = pieces.last();
        law_marking_keeps_the_pieces(pieces.drop_last(), query);
        law_marking_keeps_the_text(last.text, last.style, query);
        lemma_joined_adds_up(
            marked_all(pieces.drop_last(), query),
            marked(last.text, last.style, query),
        );
        lemma_joined_adds_up(pieces.drop_last(), seq![last]);
        lemma_joined_single(last);
        assert(pieces.drop_last() + seq![last] == pieces);
    }
}

proof fn lemma_token_pieces_join(tokens: Seq<TokenView>)
    ensures
        joined_spans(token_pieces(tokens)) == joined(tokens),
    decreases tokens.len(),
{
    if tokens.len() > 0 {
        lemma_token_pieces_join(tokens.drop_first());
        assert(token_pieces(tokens).drop_first() == token_pieces(tokens.drop_first()));
    }
}

/// The spans of a line of JSON show the whole line and nothing else.
pub proof fn law_fallback_keeps_the_line(line: Seq<char>, query: Seq<char>)
    ensures
        joined_spans(marked_all(token_pieces(line_tokens(line)), query)) == line,
{
    law_marking_keeps_the_pieces(token_pieces(line_tokens(line)), query);
    lemma_token_pieces_join(line_tokens(line));
    law_tokens_keep_the_line(line);
}

/// A greater number is not written shorter.
pub proof fn lemma_decimal_grows(smaller: nat, greater: nat)
    requires
        smaller <= greater,
    ensures
        decimal(smaller).len() <= decimal(greater).len(),
    decreases greater,
{
    if greater >= 10 {
        if smaller >= 10 {
            lemma_decimal_grows(smaller / 10, greater / 10);
        } else {
            lemma_decimal_grows(0, greater / 10);
        }
    }
}

/// In the gutter that a window needs, every line number of the window has its place: what stands in
/// front of the lines is equally wide for all of them.
pub proof fn law_numbers_fit_the_gutter(
    window: NumberedWindow,
    content: Seq<u8>,
    width: nat,
    height: nat,
    first: int,
)
    requires
        width > 0,
        0 <= first,
        numbered_lines_are(
            window.lines@,
            window_lines(content, width, height, window.start_offset as int),
            content,
            window.start_offset as int,
            first,
        ),
    ensures
        forall|i: int|
            0 <= i < window.lines@.len() ==> gutter(
                (#[trigger] window.lines@[i]).line_number as nat,
                gutter_width_of(window),
            ).text.len() == gutter_width_of(window),
{
    let base = window.start_offset as int;
    let models = window_lines(content, width, height, base);
    law_window_is_bounded(content, width, height, base);
    assert forall|i: int| 0 <= i < window.lines@.len() implies gutter(
        (#[trigger] window.lines@[i]).line_number as nat,
        gutter_width_of(window),
    ).text.len() == gutter_width_of(window) by {
        let last = window.lines@.len() - 1;
        let lines = window.lines@;
        let start = models[i].start - base;
        let end = models[last].start - base;
        if i < last {
            lemma_starts_grow(content, width, base, i, last);
        }
        assert(numbered_line_is(lines[i], models[i], content, base, first));
        assert(numbered_line_is(lines[last], models[last], content, base, first));
        law_line_numbers_grow(content, start, end);
        assert(lines[i].line_number <= lines[last].line_number);
        let greatest = if lines[last].line_number >= lines[last].next_line_number {
            lines[last].line_number
        } else {
            lines[last].next_line_number
        };
        lemma_decimal_grows(lines[i].line_number as nat, greatest as nat);
    }
}

} // verus!
