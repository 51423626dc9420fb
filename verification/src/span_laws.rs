use vstd::prelude::*;

use crate::highlight::{TokenKind, TokenView};
use crate::spans::{
    first_occurrence, gutter, gutter_width_of, law_marking_keeps_the_text, lemma_decimal_grows,
    lemma_first_occurrence, marked, marked_all, occurs_at, piece_views, right_aligned, themed,
    token_pieces, PieceView, SyntaxPiece,
};
use crate::style::{
    in_color, joined_spans, key_look, plain, search_look, span_views, token_look, SpanColor,
    SpanStyle, SpanView, StyledSpan,
};
use crate::text::decimal;
use crate::window::NumberedWindow;

verus! {

/// The look of what a search has found: bold and black on yellow.
pub open spec fn found_look() -> SpanStyle {
    SpanStyle {
        foreground: Some(SpanColor::Black),
        background: Some(SpanColor::Yellow),
        bold: true,
        italic: false,
        underlined: false,
    }
}

/// Whether the query stands in a text at `at`, character by character.
#[verifier::opaque]
pub open spec fn spelled_at(text: Seq<char>, query: Seq<char>, at: int) -> bool {
    &&& 0 <= at
    &&& at + query.len() <= text.len()
    &&& forall|k: int| 0 <= k < query.len() ==> text[at + k] == #[trigger] query[k]
}

proof fn lemma_spelled(text: Seq<char>, query: Seq<char>, at: int)
    ensures
        spelled_at(text, query, at) == occurs_at(text, query, at),
{
    reveal(spelled_at);
    if occurs_at(text, query, at) {
        assert forall|k: int| 0 <= k < query.len() implies text[at + k] == #[trigger] query[k] by {
            assert(text.subrange(at, at + query.len())[k] == text[at + k]);
        }
    }
    if spelled_at(text, query, at) {
        assert(text.subrange(at, at + query.len()) =~= query);
    }
}

/// Whether the span with the number `i` is as it should be: it is the query and stands out, or it keeps
/// its look, and then the query stands nowhere in it, the next span, if there is one, is the query, and
/// there is no earlier place for it.
pub open spec fn is_marked_right(
    spans: Seq<SpanView>,
    i: int,
    style: SpanStyle,
    query: Seq<char>,
) -> bool {
    let span = spans[i];
    ||| span.text == query && span.style == found_look()
    ||| {
        &&& span.style == style
        &&& span.text.len() > 0
        &&& forall|at: int| !#[trigger] spelled_at(span.text, query, at)
        &&& i + 1 < spans.len() ==> spans[i + 1].text == query
        &&& i + 1 < spans.len() ==> forall|at: int|
            0 <= at < span.text.len() ==> !#[trigger] spelled_at(span.text + query, query, at)
    }
}

/// In front of the first occurrence, and reaching into it, there is no other.
proof fn lemma_nothing_in_front(text: Seq<char>, query: Seq<char>, found: int)
    requires
        query.len() > 0,
        first_occurrence(text, query, 0) == Some(found),
    ensures
        forall|at: int| !#[trigger] spelled_at(text.take(found), query, at),
        forall|at: int|
            0 <= at < found ==> !#[trigger] spelled_at(text.take(found) + query, query, at),
{
    lemma_first_occurrence(text, query, 0);
    assert(text.take(found) + query =~= text.take(found + query.len())) by {
        assert(text.take(found) + text.subrange(found, found + query.len()) =~= text.take(
            found + query.len(),
        ));
    }
    assert forall|at: int| !#[trigger] spelled_at(text.take(found), query, at) by {
        lemma_spelled(text.take(found), query, at);
        lemma_in_front(text, found, query, at);
    }
    assert forall|at: int| 0 <= at < found implies !#[trigger] spelled_at(
        text.take(found) + query,
        query,
        at,
    ) by {
        lemma_spelled(text.take(found + query.len()), query, at);
        lemma_in_front(text, found + query.len(), query, at);
    }
}

proof fn lemma_in_front(text: Seq<char>, cut: int, query: Seq<char>, at: int)
    requires
        0 <= cut <= text.len(),
    ensures
        occurs_at(text.take(cut), query, at) ==> occurs_at(text, query, at),
        occurs_at(text.take(cut), query, at) ==> at + query.len() <= cut,
{
    if occurs_at(text.take(cut), query, at) {
        assert(text.take(cut).subrange(at, at + query.len()) == text.subrange(
            at,
            at + query.len(),
        ));
    }
}

/// Where there is no first occurrence, there is none.
proof fn lemma_nowhere(text: Seq<char>, query: Seq<char>)
    requires
        first_occurrence(text, query, 0) is None,
    ensures
        forall|at: int| !#[trigger] spelled_at(text, query, at),
{
    lemma_first_occurrence(text, query, 0);
    assert forall|at: int| !#[trigger] spelled_at(text, query, at) by {
        lemma_spelled(text, query, at);
    }
}

/// What a search looks for stands out wherever it stands, from the left on, and nothing else does: the
/// spans are, in turn, what is found and what lies between, cut as early as possible.
pub proof fn law_matches_stand_out(text: Seq<char>, style: SpanStyle, query: Seq<char>)
    requires
        query.len() > 0,
    ensures
        forall|i: int|
            0 <= i < marked(text, style, query).len() ==> #[trigger] is_marked_right(
                marked(text, style, query),
                i,
                style,
                query,
            ),
    decreases text.len(),
{
    let spans = marked(text, style, query);
    lemma_first_occurrence(text, query, 0);
    if let Some(found) = first_occurrence(text, query, 0) {
        let after = text.skip(found + query.len());
        let rest = marked(after, style, query);
        law_matches_stand_out(after, style, query);
        let ahead: int = if found > 0 {
            2
        } else {
            1
        };
        assert forall|i: int| 0 <= i < spans.len() implies #[trigger] is_marked_right(
            spans,
            i,
            style,
            query,
        ) by {
            if i >= ahead {
                assert(spans[i] == rest[i - ahead]);
                assert(is_marked_right(rest, i - ahead, style, query));
                if i + 1 < spans.len() {
                    assert(spans[i + 1] == rest[i + 1 - ahead]);
                }
            } else if i == 0 && found > 0 {
                assert(spans[0].text == text.take(found));
                assert(spans[1].text == query);
                lemma_nothing_in_front(text, query, found);
            }
        }
    } else {
        assert forall|i: int| 0 <= i < spans.len() implies #[trigger] is_marked_right(
            spans,
            i,
            style,
            query,
        ) by {
            lemma_nowhere(text, query);
        }
    }
}

/// The texts of the spans, one behind the other, are the text that was marked.
pub proof fn law_spans_are_the_text(text: Seq<char>, style: SpanStyle, query: Seq<char>)
    ensures
        marked(text, style, query).map_values(|span: SpanView| span.text).flatten() == text,
{
    law_marking_keeps_the_text(text, style, query);
    lemma_joined_is_flat(marked(text, style, query));
}

proof fn lemma_joined_is_flat(spans: Seq<SpanView>)
    ensures
        spans.map_values(|span: SpanView| span.text).flatten() == joined_spans(spans),
    decreases spans.len(),
{
    if spans.len() > 0 {
        lemma_joined_is_flat(spans.drop_first());
        assert(spans.map_values(|span: SpanView| span.text).drop_first()
            == spans.drop_first().map_values(|span: SpanView| span.text));
    }
}

/// Without a query nothing stands out.
pub proof fn law_nothing_stands_out_without_a_query(
    text: Seq<char>,
    style: SpanStyle,
    pieces: Seq<SpanView>,
)
    ensures
        marked(text, style, Seq::empty()) == seq![SpanView { text, style }],
        marked_all(pieces, Seq::empty()) == pieces,
    decreases pieces.len(),
{
    if pieces.len() > 0 {
        let last = pieces.last();
        law_nothing_stands_out_without_a_query(last.text, last.style, pieces.drop_last());
        assert(marked(last.text, last.style, Seq::empty()) == seq![last]);
        assert(pieces.drop_last() + seq![last] == pieces);
    } else {
        assert(marked_all(pieces, Seq::empty()) == pieces);
    }
}

/// A row of pieces is marked piece by piece, each in its own look.
pub proof fn law_pieces_are_marked_one_by_one(
    first: Seq<SpanView>,
    second: Seq<SpanView>,
    piece: SpanView,
    query: Seq<char>,
)
    ensures
        marked_all(seq![piece], query) == marked(piece.text, piece.style, query),
        marked_all(first + second, query) == marked_all(first, query) + marked_all(second, query),
    decreases second.len(),
{
    reveal_with_fuel(marked_all, 2);
    assert(seq![piece].drop_last() == Seq::<SpanView>::empty());
    assert(Seq::<SpanView>::empty() + marked(piece.text, piece.style, query) == marked(
        piece.text,
        piece.style,
        query,
    ));
    if second.len() == 0 {
        assert(first + second == first);
        assert(marked_all(first, query) + marked_all(second, query) == marked_all(first, query));
    } else {
        law_pieces_are_marked_one_by_one(first, second.drop_last(), piece, query);
        assert((first + second).drop_last() == first + second.drop_last());
        assert((first + second).last() == second.last());
        let last = marked(second.last().text, second.last().style, query);
        assert(marked_all(first, query) + marked_all(second.drop_last(), query) + last
            == marked_all(first, query) + (marked_all(second.drop_last(), query) + last));
    }
}

/// Tokens, and the pieces of a theme, keep their texts, each in its own look.
pub proof fn law_pieces_keep_their_texts(tokens: Seq<TokenView>, pieces: Seq<PieceView>)
    ensures
        token_pieces(tokens).len() == tokens.len(),
        forall|i: int|
            0 <= i < tokens.len() ==> token_pieces(tokens)[i] == (SpanView {
                text: (#[trigger] tokens[i]).text,
                style: token_look(tokens[i].kind),
            }),
        themed(pieces).len() == pieces.len(),
        forall|i: int|
            0 <= i < pieces.len() ==> {
                let shown = themed(pieces)[i];
                let style = (#[trigger] pieces[i]).style;
                &&& shown.text == pieces[i].text
                &&& shown.style.foreground == Some(
                    SpanColor::Rgb(style.red, style.green, style.blue),
                )
                &&& shown.style.background is None
                &&& shown.style.bold == style.bold
                &&& shown.style.italic == style.italic
                &&& shown.style.underlined == style.underline
            },
{
}

/// The spans and pieces that are handed out have the texts and the looks that are told of them.
pub proof fn law_spans_are_handed_out(spans: Seq<StyledSpan>, pieces: Seq<SyntaxPiece>)
    ensures
        span_views(spans).len() == spans.len(),
        forall|i: int|
            0 <= i < spans.len() ==> span_views(spans)[i].text == (#[trigger] spans[i]).text@
                && span_views(spans)[i].style == spans[i].style,
        piece_views(pieces).len() == pieces.len(),
        forall|i: int|
            0 <= i < pieces.len() ==> piece_views(pieces)[i].text == (#[trigger] pieces[i]).text@
                && piece_views(pieces)[i].style == pieces[i].style,
{
}

/// The gutter holds blanks, then the number in decimal notation, then one blank, and is as wide as it is
/// asked to be unless the number is wider.
pub proof fn law_gutter_ends_with_the_number(number: nat, width: nat)
    requires
        width > 0,
    ensures
        ({
            let text = gutter(number, width).text;
            let digits = decimal(number).len() as int;
            &&& text.len() == (if digits + 1 < width {
                width as int
            } else {
                digits + 1
            })
            &&& text.last() == ' '
            &&& text.subrange(text.len() - 1 - digits, text.len() - 1) == decimal(number)
            &&& forall|k: int| 0 <= k < text.len() - 1 - digits ==> #[trigger] text[k] == ' '
        }),
{
    let text = gutter(number, width).text;
    let aligned = right_aligned(decimal(number), (width - 1) as nat);
    assert(text == aligned.push(' '));
    assert(text.subrange(text.len() - 1 - decimal(number).len(), text.len() - 1) == decimal(number));
}

/// The looks: tokens have a color at most, the keys are bold and yellow, what was found is bold and black on
/// yellow, and plain text has no look at all.
pub proof fn law_looks(kind: TokenKind, color: SpanColor)
    ensures
        plain().foreground is None,
        plain().background is None,
        !plain().bold && !plain().italic && !plain().underlined,
        in_color(color).foreground == Some(color),
        in_color(color).background is None,
        !in_color(color).bold && !in_color(color).italic && !in_color(color).underlined,
        key_look().foreground == Some(SpanColor::Yellow),
        key_look().background is None,
        key_look().bold && !key_look().italic && !key_look().underlined,
        search_look() == found_look(),
        ({
            let look = token_look(kind);
            &&& look.background is None
            &&& !look.bold && !look.italic && !look.underlined
            &&& look.foreground == (match kind {
                TokenKind::String => Some(SpanColor::Green),
                TokenKind::Number => Some(SpanColor::Cyan),
                TokenKind::Boolean => Some(SpanColor::Magenta),
                TokenKind::Null => Some(SpanColor::Magenta),
                TokenKind::Bracket => Some(SpanColor::DarkGray),
                TokenKind::Colon => Some(SpanColor::DarkGray),
                TokenKind::Comma => Some(SpanColor::DarkGray),
                TokenKind::Other => Some(SpanColor::Red),
                TokenKind::Whitespace => None,
            })
        }),
{
}

/// The gutter of a window has room for the greatest of its last two line numbers, a blank behind it and
/// one in front.
pub proof fn law_gutter_is_as_wide_as_needed(window: NumberedWindow)
    ensures
        window.lines@.len() == 0 ==> gutter_width_of(window) == 3,
        window.lines@.len() > 0 ==> {
            let last = window.lines@[window.lines@.len() - 1];
            &&& gutter_width_of(window) == decimal(last.line_number as nat).len() + 2
                || gutter_width_of(window) == decimal(last.next_line_number as nat).len() + 2
            &&& gutter_width_of(window) >= decimal(last.line_number as nat).len() + 2
            &&& gutter_width_of(window) >= decimal(last.next_line_number as nat).len() + 2
        },
{
    if window.lines@.len() > 0 {
        let last = window.lines@[window.lines@.len() - 1];
        if last.line_number >= last.next_line_number {
            lemma_decimal_grows(last.next_line_number as nat, last.line_number as nat);
        } else {
            lemma_decimal_grows(last.line_number as nat, last.next_line_number as nat);
        }
    }
}

} // verus!
