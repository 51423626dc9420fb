use vstd::prelude::*;

use crate::text::{chars_of, is_whitespace, spells, string_of};
use crate::text::{is_digit_char, is_letter_char, is_whitespace_char};

verus! {

/// What a token of a line of JSON is.
#[derive(Debug, Clone, Copy, PartialEq, Eq, Structural)]
pub enum TokenKind {
    Whitespace,
    String,
    Number,
    Boolean,
    Null,
    Bracket,
    Colon,
    Comma,
    Other,
}

/// A piece of a line of JSON.
#[derive(Debug, Clone, PartialEq, Eq)]
pub struct JsonToken {
    pub text: String,
    pub kind: TokenKind,
}

/// A token as a mathematical value.
pub struct TokenView {
    pub text: Seq<char>,
    pub kind: TokenKind,
}

impl View for JsonToken {
    type V = TokenView;

    open spec fn view(&self) -> TokenView {
        TokenView { text: self.text@, kind: self.kind }
    }
}

/// The mathematical values of a row of tokens.
pub open spec fn token_views(tokens: Seq<JsonToken>) -> Seq<TokenView> {
    tokens.map_values(|token: JsonToken| token@)
}

/// How many characters at the front of `s` satisfy `class`, without a gap.
pub open spec fn run_length(s: Seq<char>, class: spec_fn(char) -> bool) -> nat
    decreases s.len(),
{
    if s.len() > 0 && class(s[0]) {
        1 + run_length(s.drop_first(), class)
    } else {
        0
    }
}

/// The characters that go on with a number once it has begun.
pub open spec fn continues_number(c: char) -> bool {
    is_digit_char(c) || c == '.' || c == 'e' || c == 'E' || c == '+' || c == '-'
}

/// How much of `s`, which stands behind an opening quote, still belongs to the string: all up to
/// and with the first quote that no backslash escapes, or everything where there is no such quote.
pub open spec fn string_rest(s: Seq<char>) -> nat
    decreases s.len(),
{
    if s.len() == 0 {
        0
    } else if s[0] == '"' {
        1
    } else if s[0] == '\\' && s.len() > 1 {
        2 + string_rest(s.skip(2))
    } else {
        1 + string_rest(s.drop_first())
    }
}

/// The length of the token that `s` begins with.
pub open spec fn token_length(s: Seq<char>) -> nat {
    let first = s[0];
    let rest = s.drop_first();
    if is_whitespace_char(first) {
        1 + run_length(rest, |c: char| is_whitespace_char(c))
    } else if first == '"' {
        1 + string_rest(rest)
    } else if first == '-' || is_digit_char(first) {
        1 + run_length(rest, |c: char| continues_number(c))
    } else if is_letter_char(first) {
        1 + run_length(rest, |c: char| is_letter_char(c))
    } else {
        1
    }
}

/// The kind of a token, which its text decides.
pub open spec fn token_kind(text: Seq<char>) -> TokenKind {
    let first = text[0];
    if is_whitespace_char(first) {
        TokenKind::Whitespace
    } else if first == '"' {
        TokenKind::String
    } else if first == '-' || is_digit_char(first) {
        TokenKind::Number
    } else if text == "true"@ || text == "false"@ {
        TokenKind::Boolean
    } else if text == "null"@ {
        TokenKind::Null
    } else if first == '{' || first == '}' || first == '[' || first == ']' {
        TokenKind::Bracket
    } else if first == ':' {
        TokenKind::Colon
    } else if first == ',' {
        TokenKind::Comma
    } else {
        TokenKind::Other
    }
}

proof fn lemma_run_length(s: Seq<char>, class: spec_fn(char) -> bool)
    ensures
        run_length(s, class) <= s.len(),
    decreases s.len(),
{
    if s.len() > 0 {
        lemma_run_length(s.drop_first(), class);
    }
}

proof fn lemma_string_rest(s: Seq<char>)
    ensures
        string_rest(s) <= s.len(),
    decreases s.len(),
{
    if s.len() > 0 {
        lemma_string_rest(s.drop_first());
        if s.len() > 1 {
            lemma_string_rest(s.skip(2));
        }
    }
}

/// A token takes at least one character, and none from beyond the line.
pub proof fn lemma_token_length(s: Seq<char>)
    requires
        s.len() > 0,
    ensures
        0 < token_length(s) <= s.len(),
{
    let rest = s.drop_first();
    lemma_run_length(rest, |c: char| is_whitespace_char(c));
    lemma_run_length(rest, |c: char| continues_number(c));
    lemma_run_length(rest, |c: char| is_letter_char(c));
    lemma_string_rest(rest);
}

/// The tokens of a line, from left to right.
pub open spec fn line_tokens(line: Seq<char>) -> Seq<TokenView>
    decreases line.len(),
{
    if line.len() == 0 {
        Seq::empty()
    } else {
        proof {
            lemma_token_length(line);
        }
        let length = token_length(line) as int;
        let text = line.take(length);
        seq![TokenView { text, kind: token_kind(text) }] + line_tokens(line.skip(length))
    }
}

/// Goes on from `from` as long as the characters satisfy `predicate`, and returns where it stops.
pub fn consume_while(chars: &Vec<char>, from: usize, predicate: impl Fn(char) -> bool) -> (end: usize)
    requires
        from <= chars@.len(),
        forall|c: char| predicate.requires((c,)),
    ensures
        from <= end <= chars@.len(),
        forall|k: int| from <= k < end ==> predicate.ensures((#[trigger] chars@[k],), true),
        end < chars@.len() ==> predicate.ensures((chars@[end as int],), false),
{
    let mut end: usize = from;
    while end < chars.len()
        invariant
            from <= end <= chars@.len(),
            forall|c: char| predicate.requires((c,)),
            forall|k: int| from <= k < end ==> predicate.ensures((#[trigger] chars@[k],), true),
        decreases chars@.len() - end,
    {
        if !predicate(chars[end]) {
            return end;
        }
        end += 1;
    }
    end
}

/// Goes on from `from`, which stands behind an opening quote, to the end of the string.
pub fn consume_string(chars: &Vec<char>, from: usize) -> (end: usize)
    requires
        from <= chars@.len(),
    ensures
        end == from + string_rest(chars@.skip(from as int)),
        end <= chars@.len(),
{
    let mut end: usize = from;
    let mut escaped = false;
    let ghost whole = string_rest(chars@.skip(from as int));
    proof {
        lemma_string_rest(chars@.skip(from as int));
    }
    while end < chars.len()
        invariant
            from <= end <= chars@.len(),
            whole == string_rest(chars@.skip(from as int)),
            whole <= chars@.len() - from,
            !escaped ==> whole == end - from + string_rest(chars@.skip(end as int)),
            escaped && end < chars@.len() ==> whole == end - from + 1 + string_rest(
                chars@.skip(end + 1),
            ),
            escaped && end == chars@.len() ==> whole == end - from,
        decreases chars@.len() - end,
    {
        let ch = chars[end];
        let ghost here = chars@.skip(end as int);
        assert(here.drop_first() == chars@.skip(end + 1));
        assert(here.len() > 1 ==> here.skip(2) == chars@.skip(end + 2));
        assert(here.len() == 1 ==> chars@.skip(end + 1).len() == 0);
        end += 1;
        if escaped {
            escaped = false;
        } else if ch == '\\' {
            escaped = true;
        } else if ch == '"' {
            return end;
        }
    }
    end
}

/// A stretch whose characters satisfy `class`, with one that does not behind it, is the run.
proof fn lemma_run_is(s: Seq<char>, from: int, end: int, class: spec_fn(char) -> bool)
    requires
        0 <= from <= end <= s.len(),
        forall|k: int| from <= k < end ==> class(#[trigger] s[k]),
        end < s.len() ==> !class(s[end]),
    ensures
        run_length(s.skip(from), class) == end - from,
    decreases end - from,
{
    if from < end {
        lemma_run_is(s, from + 1, end, class);
        assert(s.skip(from).drop_first() == s.skip(from + 1));
    }
}

/// The kind of the word, made of letters, that stands in `chars` from `from` up to `to`.
fn word_kind(chars: &Vec<char>, from: usize, to: usize) -> (kind: TokenKind)
    requires
        from < to <= chars@.len(),
        is_letter_char(chars@[from as int]),
    ensures
        kind == token_kind(chars@.subrange(from as int, to as int)),
{
    if spells(chars, from, to, &chars_of("true")) || spells(chars, from, to, &chars_of("false")) {
        TokenKind::Boolean
    } else if spells(chars, from, to, &chars_of("null")) {
        TokenKind::Null
    } else {
        TokenKind::Other
    }
}

/// Splits a line of JSON into tokens for highlighting. Nothing of the line is lost, and a line that
/// is not JSON is split all the same.
#[must_use]
pub fn highlight_json_line(line: &str) -> (tokens: Vec<JsonToken>)
    ensures
        token_views(tokens@) == line_tokens(line@),
{
    let chars = chars_of(line);
    let mut tokens: Vec<JsonToken> = Vec::new();
    let mut start: usize = 0;
    assert(line@.skip(0) == line@);
    assert(token_views(tokens@) == Seq::<TokenView>::empty());

    while start < chars.len()
        invariant
            chars@ == line@,
            start <= chars@.len(),
            line_tokens(line@) == token_views(tokens@) + line_tokens(line@.skip(start as int)),
        decreases chars@.len() - start,
    {
        let ch = chars[start];
        let ghost rest = line@.skip(start as int);
        let ghost behind = rest.drop_first();
        assert(behind == line@.skip(start + 1));

        let (end, kind) = if is_whitespace(ch) {
            let whitespace = |c: char| -> (yes: bool)
                ensures
                    yes == is_whitespace_char(c),
            {
                is_whitespace(c)
            };
            let end = consume_while(&chars, start + 1, whitespace);
            proof {
                lemma_run_is(line@, start + 1, end as int, |c: char| is_whitespace_char(c));
            }
            (end, TokenKind::Whitespace)
        } else if ch == '"' {
            (consume_string(&chars, start + 1), TokenKind::String)
        } else if ch == '-' || ('0' <= ch && ch <= '9') {
            let number = |c: char| -> (yes: bool)
                ensures
                    yes == continues_number(c),
            {
                ('0' <= c && c <= '9') || matches!(c, '.' | 'e' | 'E' | '+' | '-')
            };
            let end = consume_while(&chars, start + 1, number);
            proof {
                lemma_run_is(line@, start + 1, end as int, |c: char| continues_number(c));
            }
            (end, TokenKind::Number)
        } else if ('a' <= ch && ch <= 'z') || ('A' <= ch && ch <= 'Z') {
            let letter = |c: char| -> (yes: bool)
                ensures
                    yes == is_letter_char(c),
            {
                ('a' <= c && c <= 'z') || ('A' <= c && c <= 'Z')
            };
            let end = consume_while(&chars, start + 1, letter);
            proof {
                lemma_run_is(line@, start + 1, end as int, |c: char| is_letter_char(c));
            }
            (end, word_kind(&chars, start, end))
        } else if ch == '{' || ch == '}' || ch == '[' || ch == ']' {
            (start + 1, TokenKind::Bracket)
        } else if ch == ':' {
            (start + 1, TokenKind::Colon)
        } else if ch == ',' {
            (start + 1, TokenKind::Comma)
        } else {
            (start + 1, TokenKind::Other)
        };

        let ghost before = tokens@;
        let ghost text = rest.take(end - start);
        tokens.push(JsonToken { text: string_of(&chars, start, end), kind });
        proof {
            assert(end - start == token_length(rest));
            assert(text == line@.subrange(start as int, end as int));
            assert(text[0] == ch);
            if !is_letter_char(ch) {
                lemma_no_word(text);
            }
            assert(kind == token_kind(text));
            assert(rest.skip(end - start) == line@.skip(end as int));
            assert(token_views(tokens@) == token_views(before).push(TokenView { text, kind }));
        }
        start = end;
    }
    tokens
}

/// The words that have a kind of their own begin with a letter.
proof fn lemma_no_word(text: Seq<char>)
    requires
        text.len() > 0,
        !is_letter_char(text[0]),
    ensures
        text != "true"@,
        text != "false"@,
        text != "null"@,
{
    reveal_strlit("true");
    reveal_strlit("false");
    reveal_strlit("null");
}

/// All the texts of a row of tokens, one behind the other.
pub open spec fn joined(tokens: Seq<TokenView>) -> Seq<char>
    decreases tokens.len(),
{
    if tokens.len() == 0 {
        Seq::empty()
    } else {
        tokens[0].text + joined(tokens.drop_first())
    }
}

/// The tokens of a line put together again are the line.
pub proof fn law_tokens_keep_the_line(line: Seq<char>)
    ensures
        joined(line_tokens(line)) == line,
    decreases line.len(),
{
    if line.len() > 0 {
        lemma_token_length(line);
        let length = token_length(line) as int;
        law_tokens_keep_the_line(line.skip(length));
        assert(line_tokens(line).drop_first() == line_tokens(line.skip(length)));
        assert(line.take(length) + line.skip(length) == line);
    }
}

/// A run is as long in front of a place behind it as in the whole.
proof fn lemma_run_in_front(s: Seq<char>, class: spec_fn(char) -> bool, cut: int)
    requires
        run_length(s, class) <= cut <= s.len(),
    ensures
        run_length(s.take(cut), class) == run_length(s, class),
    decreases s.len(),
{
    if s.len() > 0 && class(s[0]) {
        lemma_run_in_front(s.drop_first(), class, cut - 1);
        assert(s.take(cut).drop_first() == s.drop_first().take(cut - 1));
    }
}

/// A string ends at the same place in front of a place behind it as in the whole.
proof fn lemma_string_in_front(s: Seq<char>, cut: int)
    requires
        string_rest(s) <= cut <= s.len(),
    ensures
        string_rest(s.take(cut)) == string_rest(s),
    decreases s.len(),
{
    if s.len() > 0 && s[0] != '"' {
        if s[0] == '\\' && s.len() > 1 {
            lemma_string_in_front(s.skip(2), cut - 2);
            assert(s.take(cut).skip(2) == s.skip(2).take(cut - 2));
        } else {
            lemma_string_in_front(s.drop_first(), cut - 1);
            assert(s.take(cut).drop_first() == s.drop_first().take(cut - 1));
        }
    }
}

/// What follows a token does not make it shorter or longer if it is left out.
proof fn lemma_token_in_front(s: Seq<char>, cut: int)
    requires
        s.len() > 0,
        token_length(s) <= cut <= s.len(),
    ensures
        token_length(s.take(cut)) == token_length(s),
{
    lemma_token_length(s);
    let first = s[0];
    let rest = s.drop_first();
    assert(s.take(cut).drop_first() == rest.take(cut - 1));
    if is_whitespace_char(first) {
        lemma_run_in_front(rest, |c: char| is_whitespace_char(c), cut - 1);
    } else if first == '"' {
        lemma_string_in_front(rest, cut - 1);
    } else if first == '-' || is_digit_char(first) {
        lemma_run_in_front(rest, |c: char| continues_number(c), cut - 1);
    } else if is_letter_char(first) {
        lemma_run_in_front(rest, |c: char| is_letter_char(c), cut - 1);
    }
}

/// The tokens at the front of a line are those of the text that they make up, which the line begins
/// with.
proof fn lemma_tokens_in_front(line: Seq<char>, count: int)
    requires
        0 <= count <= line_tokens(line).len(),
    ensures
        ({
            let text = joined(line_tokens(line).take(count));
            &&& text.len() <= line.len()
            &&& text == line.take(text.len() as int)
            &&& line_tokens(text) == line_tokens(line).take(count)
        }),
    decreases line.len(),
{
    let tokens = line_tokens(line);
    if count == 0 {
        assert(tokens.take(0) == Seq::<TokenView>::empty());
    } else {
        lemma_token_length(line);
        let length = token_length(line) as int;
        let rest = line.skip(length);
        lemma_tokens_in_front(rest, count - 1);
        let behind = joined(line_tokens(rest).take(count - 1));
        let text = joined(tokens.take(count));
        assert(tokens.take(count).drop_first() == line_tokens(rest).take(count - 1));
        assert(text == line.take(length) + behind);
        assert(text == line.take(text.len() as int));
        lemma_token_in_front(line, text.len() as int);
        assert(text.take(length) == line.take(length));
        assert(text.skip(length) == behind);
        assert(line_tokens(text) == tokens.take(count));
    }
}

/// A stretch of the tokens of a line, put together and split again, gives the same tokens.
pub proof fn law_tokens_split_alike(line: Seq<char>, from: int, to: int)
    requires
        0 <= from <= to <= line_tokens(line).len(),
    ensures
        line_tokens(joined(line_tokens(line).subrange(from, to))) == line_tokens(line).subrange(
            from,
            to,
        ),
    decreases line.len(),
{
    let tokens = line_tokens(line);
    if from == 0 {
        lemma_tokens_in_front(line, to);
        assert(tokens.subrange(0, to) == tokens.take(to));
    } else {
        lemma_token_length(line);
        let rest = line.skip(token_length(line) as int);
        law_tokens_split_alike(rest, from - 1, to - 1);
        assert(tokens.subrange(from, to) == line_tokens(rest).subrange(from - 1, to - 1));
    }
}

/// No token is empty, and each has the kind that its own text decides.
pub proof fn law_tokens_are_classified(line: Seq<char>)
    ensures
        forall|i: int|
            0 <= i < line_tokens(line).len() ==> (#[trigger] line_tokens(line)[i]).text.len() > 0
                && line_tokens(line)[i].kind == token_kind(line_tokens(line)[i].text),
    decreases line.len(),
{
    if line.len() > 0 {
        lemma_token_length(line);
        let length = token_length(line) as int;
        let rest = line_tokens(line.skip(length));
        law_tokens_are_classified(line.skip(length));
        assert forall|i: int| 0 <= i < line_tokens(line).len() implies (#[trigger] line_tokens(
            line,
        )[i]).text.len() > 0 && line_tokens(line)[i].kind == token_kind(
            line_tokens(line)[i].text,
        ) by {
            if i > 0 {
                assert(line_tokens(line)[i] == rest[i - 1]);
            }
        }
    }
}

} // verus!
