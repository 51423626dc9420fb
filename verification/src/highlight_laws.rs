use vstd::prelude::*;

use crate::highlight::{
    continues_number, lemma_token_length, line_tokens, run_length, string_rest, token_kind,
    token_length, token_views, JsonToken, TokenKind, TokenView,
};
use crate::text::{is_digit_char, is_letter_char, is_whitespace_char};

verus! {

/// Whether `count` backslashes, and no more, stand right in front of the place `i`.
pub open spec fn backslashes_in_front(s: Seq<char>, i: int, count: nat) -> bool {
    &&& count <= i
    &&& forall|k: int| i - count <= k < i ==> #[trigger] s[k] == '\\'
    &&& i == count || s[i - count - 1] != '\\'
}

/// Whether a quote stands at `i` that no backslash escapes: the number of those right in front is even.
pub open spec fn is_bare_quote(s: Seq<char>, i: int) -> bool {
    s[i] == '"' && exists|count: nat| #[trigger] backslashes_in_front(s, i, count) && count % 2 == 0
}

/// How many backslashes stand right in front of the place `i`.
spec fn backslash_run(s: Seq<char>, i: int) -> nat
    decreases i,
{
    if i > 0 && s[i - 1] == '\\' {
        1 + backslash_run(s, i - 1)
    } else {
        0
    }
}

proof fn lemma_backslash_run(s: Seq<char>, i: int)
    requires
        0 <= i <= s.len(),
    ensures
        backslashes_in_front(s, i, backslash_run(s, i)),
    decreases i,
{
    if i > 0 && s[i - 1] == '\\' {
        lemma_backslash_run(s, i - 1);
    }
}

proof fn lemma_one_run(s: Seq<char>, i: int, count: nat)
    requires
        0 <= i <= s.len(),
        backslashes_in_front(s, i, count),
    ensures
        count == backslash_run(s, i),
{
    let run = backslash_run(s, i);
    lemma_backslash_run(s, i);
    if count < run {
        assert(s[i - count - 1] == '\\');
    }
    if run < count {
        assert(s[i - run - 1] == '\\');
    }
}

proof fn lemma_bare_quote(s: Seq<char>, i: int)
    requires
        0 <= i < s.len(),
    ensures
        is_bare_quote(s, i) == (s[i] == '"' && backslash_run(s, i) % 2 == 0),
{
    lemma_backslash_run(s, i);
    if is_bare_quote(s, i) {
        let count = choose|count: nat| #[trigger]
            backslashes_in_front(s, i, count) && count % 2 == 0;
        lemma_one_run(s, i, count);
    }
}

/// The backslashes in front of a place behind an escaped character are even or odd as without it.
proof fn lemma_run_behind_pair(s: Seq<char>, i: int)
    requires
        2 <= i <= s.len(),
        s[0] == '\\',
    ensures
        backslash_run(s, i) % 2 == backslash_run(s.skip(2), i - 2) % 2,
    decreases i,
{
    let rest = s.skip(2);
    if i == 2 {
        reveal_with_fuel(backslash_run, 3);
    } else {
        lemma_run_behind_pair(s, i - 1);
        assert(rest[i - 3] == s[i - 1]);
    }
}

proof fn lemma_run_behind_other(s: Seq<char>, i: int)
    requires
        1 <= i <= s.len(),
        s[0] != '\\',
    ensures
        backslash_run(s, i) == backslash_run(s.drop_first(), i - 1),
    decreases i,
{
    let rest = s.drop_first();
    if i > 1 {
        lemma_run_behind_other(s, i - 1);
        assert(rest[i - 2] == s[i - 1]);
    }
}

/// What belongs to a string behind its opening quote ends with the first bare quote.
proof fn lemma_string_ends(s: Seq<char>)
    ensures
        string_rest(s) <= s.len(),
        s.len() > 0 ==> string_rest(s) > 0,
        forall|k: int|
            0 <= k < string_rest(s) - 1 ==> !(s[k] == '"' && #[trigger] backslash_run(s, k) % 2
                == 0),
        string_rest(s) < s.len() ==> s[string_rest(s) - 1] == '"' && backslash_run(
            s,
            string_rest(s) - 1,
        ) % 2 == 0,
    decreases s.len(),
{
    if s.len() > 0 && s[0] != '"' {
        if s[0] == '\\' && s.len() > 1 {
            let rest = s.skip(2);
            lemma_string_ends(rest);
            assert forall|k: int| 0 <= k < string_rest(s) - 1 implies !(s[k] == '"'
                && #[trigger] backslash_run(s, k) % 2 == 0) by {
                reveal_with_fuel(backslash_run, 3);
                if k >= 2 {
                    lemma_run_behind_pair(s, k);
                    assert(rest[k - 2] == s[k]);
                    assert(!(rest[k - 2] == '"' && backslash_run(rest, k - 2) % 2 == 0));
                }
            }
            if string_rest(s) < s.len() {
                let last = string_rest(s) - 1;
                lemma_run_behind_pair(s, last);
                assert(rest[last - 2] == s[last]);
            }
        } else {
            let rest = s.drop_first();
            lemma_string_ends(rest);
            if s[0] != '\\' {
                assert forall|k: int| 0 <= k < string_rest(s) - 1 implies !(s[k] == '"'
                    && #[trigger] backslash_run(s, k) % 2 == 0) by {
                    if k >= 1 {
                        lemma_run_behind_other(s, k);
                        assert(rest[k - 1] == s[k]);
                        assert(!(rest[k - 1] == '"' && backslash_run(rest, k - 1) % 2 == 0));
                    }
                }
                if string_rest(s) < s.len() {
                    let last = string_rest(s) - 1;
                    lemma_run_behind_other(s, last);
                    assert(rest[last - 1] == s[last]);
                }
            }
        }
    }
}

/// Backslashes in front of a place are the same with more text behind it.
proof fn lemma_run_in_front(s: Seq<char>, cut: int, i: int)
    requires
        0 <= i <= cut <= s.len(),
    ensures
        backslash_run(s.take(cut), i) == backslash_run(s, i),
    decreases i,
{
    if i > 0 {
        lemma_run_in_front(s, cut, i - 1);
    }
}

/// Whether a text that begins with a quote is a whole string, as far as it goes: only its end, if that,
/// is a bare quote; and if something follows it, its end is one.
pub open spec fn is_string_token(text: Seq<char>, followed: bool) -> bool {
    &&& text[0] == '"'
    &&& forall|k: int| 0 < k < text.len() - 1 ==> !#[trigger] is_bare_quote(text, k)
    &&& followed ==> text.len() > 1 && is_bare_quote(text, text.len() - 1)
}

/// Whether a character goes on with a number.
pub open spec fn is_number_char(c: char) -> bool {
    '0' <= c <= '9' || c == '.' || c == 'e' || c == 'E' || c == '+' || c == '-'
}

/// Whether a character is one of the letters `a` to `z` and `A` to `Z`.
pub open spec fn is_word_char(c: char) -> bool {
    'a' <= c <= 'z' || 'A' <= c <= 'Z'
}

/// Whether a token is what its first character makes it: a run of whitespace, a string, a number, a word
/// or a single character. `next` is the character behind it, if there is one; it does not go on with the
/// token.
pub open spec fn is_token(text: Seq<char>, kind: TokenKind, next: Option<char>) -> bool {
    let first = text[0];
    &&& text.len() > 0
    &&& if is_whitespace_char(first) {
        &&& kind == TokenKind::Whitespace
        &&& forall|k: int| 0 <= k < text.len() ==> is_whitespace_char(#[trigger] text[k])
        &&& next matches Some(c) ==> !is_whitespace_char(c)
    } else if first == '"' {
        &&& kind == TokenKind::String
        &&& is_string_token(text, next is Some)
    } else if first == '-' || '0' <= first <= '9' {
        &&& kind == TokenKind::Number
        &&& forall|k: int| 1 <= k < text.len() ==> is_number_char(#[trigger] text[k])
        &&& next matches Some(c) ==> !is_number_char(c)
    } else if is_word_char(first) {
        &&& forall|k: int| 0 <= k < text.len() ==> is_word_char(#[trigger] text[k])
        &&& next matches Some(c) ==> !is_word_char(c)
        &&& kind == (if text == seq!['t', 'r', 'u', 'e'] || text == seq!['f', 'a', 'l', 's', 'e'] {
            TokenKind::Boolean
        } else if text == seq!['n', 'u', 'l', 'l'] {
            TokenKind::Null
        } else {
            TokenKind::Other
        })
    } else {
        &&& text.len() == 1
        &&& kind == (if first == '{' || first == '}' || first == '[' || first == ']' {
            TokenKind::Bracket
        } else if first == ':' {
            TokenKind::Colon
        } else if first == ',' {
            TokenKind::Comma
        } else {
            TokenKind::Other
        })
    }
}

proof fn lemma_run(s: Seq<char>, class: spec_fn(char) -> bool)
    ensures
        run_length(s, class) <= s.len(),
        forall|k: int| 0 <= k < run_length(s, class) ==> class(#[trigger] s[k]),
        run_length(s, class) < s.len() ==> !class(s[run_length(s, class) as int]),
    decreases s.len(),
{
    if s.len() > 0 && class(s[0]) {
        let rest = s.drop_first();
        lemma_run(rest, class);
        assert forall|k: int| 0 <= k < run_length(s, class) implies class(#[trigger] s[k]) by {
            if k > 0 {
                assert(rest[k - 1] == s[k]);
            }
        }
    }
}

/// The character behind the first token of a line.
spec fn behind_first(line: Seq<char>) -> Option<char> {
    if token_length(line) < line.len() {
        Some(line[token_length(line) as int])
    } else {
        None
    }
}

proof fn lemma_first_is_token(line: Seq<char>)
    requires
        line.len() > 0,
    ensures
        ({
            let text = line.take(token_length(line) as int);
            is_token(text, token_kind(text), behind_first(line))
        }),
{
    lemma_token_length(line);
    let length = token_length(line) as int;
    let text = line.take(length);
    let first = line[0];
    let rest = line.drop_first();
    reveal_strlit("true");
    reveal_strlit("false");
    reveal_strlit("null");
    assert(text[0] == first);
    if is_whitespace_char(first) {
        lemma_run(rest, |c: char| is_whitespace_char(c));
        assert forall|k: int| 0 <= k < text.len() implies is_whitespace_char(#[trigger] text[k]) by {
            if k > 0 {
                assert(text[k] == rest[k - 1]);
            }
        }
        if length < line.len() {
            assert(line[length] == rest[length - 1]);
        }
    } else if first == '"' {
        lemma_string_ends(rest);
        lemma_quoted(line, length);
    } else if first == '-' || is_digit_char(first) {
        lemma_run(rest, |c: char| continues_number(c));
        assert forall|k: int| 1 <= k < text.len() implies is_number_char(#[trigger] text[k]) by {
            assert(text[k] == rest[k - 1]);
        }
        if length < line.len() {
            assert(line[length] == rest[length - 1]);
        }
    } else if is_letter_char(first) {
        lemma_run(rest, |c: char| is_letter_char(c));
        assert forall|k: int| 0 <= k < text.len() implies is_word_char(#[trigger] text[k]) by {
            if k > 0 {
                assert(text[k] == rest[k - 1]);
            }
        }
        if length < line.len() {
            assert(line[length] == rest[length - 1]);
        }
        assert("true"@ =~= seq!['t', 'r', 'u', 'e']);
        assert("false"@ =~= seq!['f', 'a', 'l', 's', 'e']);
        assert("null"@ =~= seq!['n', 'u', 'l', 'l']);
    } else {
        assert("true"@[0] == 't' && "false"@[0] == 'f' && "null"@[0] == 'n');
    }
}

/// The string that a line begins with ends with the first bare quote.
proof fn lemma_quoted(line: Seq<char>, length: int)
    requires
        line.len() > 0,
        line[0] == '"',
        length == 1 + string_rest(line.drop_first()),
        length <= line.len(),
    ensures
        is_string_token(line.take(length), length < line.len()),
{
    let rest = line.drop_first();
    let text = line.take(length);
    lemma_string_ends(rest);
    assert forall|k: int| 0 < k < text.len() implies is_bare_quote(text, k) == (rest[k - 1] == '"'
        && #[trigger] backslash_run(rest, k - 1) % 2 == 0) by {
        lemma_bare_quote(text, k);
        lemma_run_in_front(line, length, k);
        lemma_run_behind_other(line, k);
        assert(text[k] == rest[k - 1]);
    }
    assert forall|k: int| 0 < k < text.len() - 1 implies !#[trigger] is_bare_quote(text, k) by {
        assert(!(rest[k - 1] == '"' && backslash_run(rest, k - 1) % 2 == 0));
    }
    if length < line.len() {
        assert(rest.len() > 0);
        let last = text.len() - 1;
        assert(is_bare_quote(text, last) == (rest[last - 1] == '"' && backslash_run(rest, last - 1)
            % 2 == 0));
    }
}

/// The first character of the token behind the one with the number `i`, if there is one.
pub open spec fn behind_token(tokens: Seq<TokenView>, i: int) -> Option<char> {
    if i + 1 < tokens.len() {
        Some(tokens[i + 1].text[0])
    } else {
        None
    }
}

/// Each token of a line is what its first character makes it, and goes as far as it can: a string up to
/// the first quote that is not escaped, the others as long as the characters are of their kind.
pub proof fn law_tokens_are_whole(line: Seq<char>)
    ensures
        ({
            let tokens = line_tokens(line);
            forall|i: int|
                0 <= i < tokens.len() ==> is_token(
                    (#[trigger] tokens[i]).text,
                    tokens[i].kind,
                    behind_token(tokens, i),
                )
        }),
    decreases line.len(),
{
    if line.len() > 0 {
        lemma_token_length(line);
        let length = token_length(line) as int;
        let tokens = line_tokens(line);
        let rest = line_tokens(line.skip(length));
        law_tokens_are_whole(line.skip(length));
        lemma_first_is_token(line);
        if length < line.len() {
            lemma_token_length(line.skip(length));
            assert(rest[0].text[0] == line[length]);
            assert(tokens[1] == rest[0]);
        } else {
            assert(rest.len() == 0);
        }
        assert forall|i: int| 0 <= i < tokens.len() implies is_token(
            (#[trigger] tokens[i]).text,
            tokens[i].kind,
            behind_token(tokens, i),
        ) by {
            if i == 0 {
                assert(behind_token(tokens, 0) == behind_first(line));
            } else {
                assert(tokens[i] == rest[i - 1]);
                if i + 1 < tokens.len() {
                    assert(tokens[i + 1] == rest[i]);
                }
                assert(behind_token(tokens, i) == behind_token(rest, i - 1));
            }
        }
    }
}

/// The texts of the tokens, one behind the other, are the line.
pub proof fn law_texts_are_the_line(line: Seq<char>)
    ensures
        line_tokens(line).map_values(|token: TokenView| token.text).flatten() == line,
    decreases line.len(),
{
    let tokens = line_tokens(line);
    let texts = tokens.map_values(|token: TokenView| token.text);
    if line.len() > 0 {
        lemma_token_length(line);
        let length = token_length(line) as int;
        law_texts_are_the_line(line.skip(length));
        let rest = line_tokens(line.skip(length));
        assert(texts.drop_first() == rest.map_values(|token: TokenView| token.text));
        assert(texts.first() == line.take(length));
        assert(line.take(length) + line.skip(length) == line);
    }
}

/// The tokens that are handed out have the texts and the kinds of those of the line.
pub proof fn law_tokens_are_handed_out(tokens: Seq<JsonToken>, line: Seq<char>)
    requires
        token_views(tokens) == line_tokens(line),
    ensures
        tokens.len() == line_tokens(line).len(),
        forall|i: int|
            0 <= i < tokens.len() ==> (#[trigger] tokens[i]).text@ == line_tokens(line)[i].text
                && tokens[i].kind == line_tokens(line)[i].kind,
{
    assert forall|i: int| 0 <= i < tokens.len() implies (#[trigger] tokens[i]).text@ == line_tokens(
        line,
    )[i].text && tokens[i].kind == line_tokens(line)[i].kind by {
        assert(token_views(tokens)[i] == tokens[i]@);
    }
}

} // verus!
