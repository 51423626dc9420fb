use vstd::prelude::*;

use crate::format::{
    break_after, break_before, formatted, formatted_byte, is_blank, lemma_opened, nesting,
    place_behind,
};

verus! {

/// Whether all bytes are spaces, tabs, newlines or carriage returns.
pub open spec fn only_blanks(bytes: Seq<u8>) -> bool {
    forall|i: int|
        0 <= i < bytes.len() ==> #[trigger] bytes[i] == 32 || bytes[i] == 9 || bytes[i] == 10
            || bytes[i] == 13
}

/// The bytes that are neither spaces, tabs, newlines nor carriage returns.
pub open spec fn without_blanks(bytes: Seq<u8>) -> Seq<u8> {
    bytes.filter(|byte: u8| byte != 32 && byte != 9 && byte != 10 && byte != 13)
}

proof fn lemma_only_blanks(bytes: Seq<u8>)
    requires
        only_blanks(bytes),
    ensures
        without_blanks(bytes) == Seq::<u8>::empty(),
    decreases bytes.len(),
{
    reveal(Seq::filter);
    if bytes.len() > 0 {
        lemma_only_blanks(bytes.drop_last());
    }
}

proof fn lemma_single_byte(byte: u8)
    ensures
        without_blanks(seq![byte]) == (if byte != 32 && byte != 9 && byte != 10 && byte != 13 {
            seq![byte]
        } else {
            Seq::empty()
        }),
{
    reveal_with_fuel(Seq::filter, 2);
    assert(seq![byte].drop_last() == Seq::<u8>::empty());
}

proof fn lemma_without_blanks_adds_up(first: Seq<u8>, second: Seq<u8>)
    ensures
        without_blanks(first + second) == without_blanks(first) + without_blanks(second),
{
    Seq::filter_distributes_over_add(
        first,
        second,
        |byte: u8| byte != 32 && byte != 9 && byte != 10 && byte != 13,
    );
}

proof fn lemma_breaks_are_blanks(text: Seq<u8>, byte: u8)
    ensures
        only_blanks(break_before(text, byte)),
        only_blanks(break_after(text, byte)),
{
}

/// Formatting keeps all the bytes that are neither spaces, tabs, newlines nor carriage returns, in the
/// same order, and adds none.
pub proof fn law_formatting_keeps_the_bytes(text: Seq<u8>)
    ensures
        formatted(text).filter(|byte: u8| byte != 32 && byte != 9 && byte != 10 && byte != 13)
            == text.filter(|byte: u8| byte != 32 && byte != 9 && byte != 10 && byte != 13),
{
    lemma_keeps_the_bytes(text);
    assert(formatted(text).filter(|byte: u8| byte != 32 && byte != 9 && byte != 10 && byte != 13)
        == without_blanks(formatted(text)));
    assert(text.filter(|byte: u8| byte != 32 && byte != 9 && byte != 10 && byte != 13)
        == without_blanks(text));
}

proof fn lemma_keeps_the_bytes(text: Seq<u8>)
    ensures
        without_blanks(formatted(text)) == without_blanks(text),
    decreases text.len(),
{
    if text.len() > 0 {
        let front = text.drop_last();
        let byte = text.last();
        lemma_keeps_the_bytes(front);
        assert(front + seq![byte] == text);
        lemma_without_blanks_adds_up(front, seq![byte]);
        let added = formatted_byte(front, byte);
        lemma_without_blanks_adds_up(formatted(front), added);
        lemma_single_byte(byte);
        lemma_only_blanks(Seq::empty());
        if !(!place_behind(front).in_string && is_blank(byte)) {
            let before = break_before(front, byte);
            let after = break_after(front, byte);
            lemma_breaks_are_blanks(front, byte);
            lemma_only_blanks(before);
            lemma_only_blanks(after);
            assert(added == before + seq![byte] + after);
            lemma_without_blanks_adds_up(before, seq![byte]);
            lemma_without_blanks_adds_up(before + seq![byte], after);
        }
    }
}

/// Whether `count` backslashes, and no more, stand right in front of the place `i`.
pub open spec fn backslash_bytes_in_front(bytes: Seq<u8>, i: int, count: nat) -> bool {
    &&& count <= i
    &&& forall|k: int| i - count <= k < i ==> #[trigger] bytes[k] == 92
    &&& i == count || bytes[i - count - 1] != 92
}

/// Whether a quote stands at `i` that no backslash escapes: the number of those right in front is even.
pub open spec fn is_bare_quote_byte(bytes: Seq<u8>, i: int) -> bool {
    bytes[i] == 34 && exists|count: nat| #[trigger]
        backslash_bytes_in_front(bytes, i, count) && count % 2 == 0
}

spec fn backslash_run(bytes: Seq<u8>, i: int) -> nat
    decreases i,
{
    if i > 0 && bytes[i - 1] == 92 {
        1 + backslash_run(bytes, i - 1)
    } else {
        0
    }
}

proof fn lemma_backslash_run(bytes: Seq<u8>, i: int)
    requires
        0 <= i <= bytes.len(),
    ensures
        backslash_bytes_in_front(bytes, i, backslash_run(bytes, i)),
    decreases i,
{
    if i > 0 && bytes[i - 1] == 92 {
        lemma_backslash_run(bytes, i - 1);
    }
}

proof fn lemma_bare_quote(bytes: Seq<u8>, i: int)
    requires
        0 <= i < bytes.len(),
    ensures
        is_bare_quote_byte(bytes, i) == (bytes[i] == 34 && backslash_run(bytes, i) % 2 == 0),
{
    let run = backslash_run(bytes, i);
    lemma_backslash_run(bytes, i);
    if is_bare_quote_byte(bytes, i) {
        let count = choose|count: nat| #[trigger]
            backslash_bytes_in_front(bytes, i, count) && count % 2 == 0;
        if count < run {
            assert(bytes[i - count - 1] == 92);
        }
        if run < count {
            assert(bytes[i - run - 1] == 92);
        }
    }
}

proof fn lemma_run_in_front(bytes: Seq<u8>, cut: int, i: int)
    requires
        0 <= i <= cut <= bytes.len(),
    ensures
        backslash_run(bytes.take(cut), i) == backslash_run(bytes, i),
    decreases i,
{
    if i > 0 {
        lemma_run_in_front(bytes, cut, i - 1);
    }
}

/// A text begins outside of a string, and as long as no quote comes it stays there.
pub proof fn law_no_string_without_a_quote(front: Seq<u8>, more: Seq<u8>)
    requires
        front.len() == 0 || !place_behind(front).in_string,
        forall|k: int| 0 <= k < more.len() ==> #[trigger] more[k] != 34,
    ensures
        !place_behind(front + more).in_string,
    decreases more.len(),
{
    if more.len() == 0 {
        assert(front + more == front);
    } else {
        let less = more.drop_last();
        assert forall|k: int| 0 <= k < less.len() implies #[trigger] less[k] != 34 by {
            assert(less[k] == more[k]);
        }
        law_no_string_without_a_quote(front, less);
        assert((front + more).drop_last() == front + less);
        assert((front + more).last() == more.last());
    }
}

/// What stands in a string is kept byte for byte: behind the quote that opens it comes the same in the
/// formatted text as in the text, up to and with the first quote that no backslash escapes, and there the
/// string ends. `rest` is what follows the opening quote, up to that quote at most.
pub proof fn law_strings_are_kept(front: Seq<u8>, rest: Seq<u8>)
    requires
        front.len() == 0 || !place_behind(front).in_string,
        forall|k: int|
            0 < k < rest.len() ==> !#[trigger] is_bare_quote_byte(seq![34u8] + rest, k),
    ensures
        formatted(front + seq![34u8] + rest) == formatted(front + seq![34u8]) + rest,
        place_behind(front + seq![34u8] + rest).in_string == !(rest.len() > 0
            && is_bare_quote_byte(seq![34u8] + rest, rest.len() as int)),
    decreases rest.len(),
{
    let quoted = seq![34u8] + rest;
    lemma_in_string(front, rest);
    if rest.len() > 0 {
        lemma_bare_quote(quoted, rest.len() as int);
    }
}

proof fn lemma_in_string(front: Seq<u8>, rest: Seq<u8>)
    requires
        front.len() == 0 || !place_behind(front).in_string,
        forall|k: int|
            0 < k < rest.len() ==> !#[trigger] is_bare_quote_byte(seq![34u8] + rest, k),
    ensures
        formatted(front + seq![34u8] + rest) == formatted(front + seq![34u8]) + rest,
        ({
            let quoted = seq![34u8] + rest;
            let place = place_behind(front + quoted);
            let ended = rest.len() > 0 && rest.last() == 34 && backslash_run(
                quoted,
                rest.len() as int,
            ) % 2 == 0;
            &&& front + quoted == front + seq![34u8] + rest
            &&& place.in_string == !ended
            &&& !ended ==> place.escaped == (backslash_run(quoted, quoted.len() as int) % 2 == 1)
        }),
    decreases rest.len(),
{
    let quoted = seq![34u8] + rest;
    let whole = front + quoted;
    assert(whole == front + seq![34u8] + rest);
    if rest.len() == 0 {
        assert(front + seq![34u8] + rest == front + seq![34u8]);
        assert(whole.drop_last() == front);
        assert(whole.last() == 34);
        assert(formatted(front + seq![34u8]) + rest == formatted(front + seq![34u8]));
        reveal_with_fuel(backslash_run, 2);
    } else {
        let less = rest.drop_last();
        let shorter = seq![34u8] + less;
        assert(shorter == quoted.take(quoted.len() - 1));
        assert forall|k: int| 0 < k < less.len() implies !#[trigger] is_bare_quote_byte(
            shorter,
            k,
        ) by {
            assert(!is_bare_quote_byte(quoted, k));
            lemma_bare_quote(quoted, k);
            lemma_bare_quote(shorter, k);
            lemma_run_in_front(quoted, quoted.len() - 1, k);
        }
        lemma_in_string(front, less);
        if less.len() > 0 {
            assert(!is_bare_quote_byte(quoted, less.len() as int));
            lemma_bare_quote(quoted, less.len() as int);
            lemma_run_in_front(quoted, quoted.len() - 1, less.len() as int);
            assert(quoted[less.len() as int] == less.last());
        }
        lemma_run_in_front(quoted, quoted.len() - 1, shorter.len() as int);
        assert(whole.drop_last() == front + shorter);
        assert(whole.last() == rest.last());
        assert(quoted[quoted.len() - 1] == rest.last());
        assert(place_behind(front + shorter).in_string);
        assert(formatted(whole) == formatted(front + shorter).push(rest.last()));
        assert(formatted(front + seq![34u8]) + rest == (formatted(front + seq![34u8])
            + less).push(rest.last()));
    }
}

/// How deep the brackets are nested: one deeper behind an opening one, one less behind a closing one, and
/// brackets in strings do not count.
pub proof fn law_brackets_nest(text: Seq<u8>, byte: u8)
    ensures
        nesting(Seq::empty()).0 == 0,
        nesting(text.push(byte)).0 == (if place_behind(text).in_string {
            nesting(text).0
        } else if byte == 123 || byte == 91 {
            nesting(text).0 + 1
        } else if (byte == 125 || byte == 93) && nesting(text).0 > 0 {
            (nesting(text).0 - 1) as nat
        } else {
            nesting(text).0
        }),
{
    assert(text.push(byte).drop_last() == text);
}

/// A new line that is indented by two spaces for each bracket that is open.
pub open spec fn indented_line(depth: nat) -> Seq<u8> {
    seq![10u8] + Seq::new(2 * depth, |i: int| 32u8)
}

/// What stands between two bytes of a formatted text that only blanks part in the text, if those: nothing
/// between an opening and a closing bracket; a new line behind another opening one and in front of another
/// closing one; and a new line where blanks part two values. `depth` is how many brackets are open behind
/// the first of the bytes.
pub open spec fn gap_between(first: u8, second: u8, blanks: bool, depth: nat) -> Seq<u8> {
    if second == 125 || second == 93 {
        if first == 123 || first == 91 {
            Seq::empty()
        } else {
            indented_line(if depth > 0 { (depth - 1) as nat } else { 0 })
        }
    } else if first == 123 || first == 91 {
        indented_line(depth)
    } else if blanks && first != 44 && first != 58 && second != 44 && second != 58 {
        indented_line(depth)
    } else {
        Seq::empty()
    }
}

/// What stands behind a byte of a formatted text: a new line behind a comma, a space behind a colon.
pub open spec fn gap_behind(byte: u8, depth: nat) -> Seq<u8> {
    if byte == 44 {
        indented_line(depth)
    } else if byte == 58 {
        seq![32u8]
    } else {
        Seq::empty()
    }
}

/// Blanks outside of strings add nothing to a formatted text.
pub proof fn law_blanks_add_nothing(text: Seq<u8>, blanks: Seq<u8>)
    requires
        text.len() == 0 || !place_behind(text).in_string,
        only_blanks(blanks),
    ensures
        formatted(text + blanks) == formatted(text),
        !place_behind(text + blanks).in_string,
        nesting(text + blanks) == nesting(text),
        place_behind(text + blanks).behind_value == place_behind(text).behind_value,
        blanks.len() > 0 ==> place_behind(text + blanks).behind_blanks,
    decreases blanks.len(),
{
    if blanks.len() == 0 {
        assert(text + blanks == text);
    } else {
        let less = blanks.drop_last();
        assert(only_blanks(less)) by {
            assert forall|i: int| 0 <= i < less.len() implies #[trigger] less[i] == 32 || less[i]
                == 9 || less[i] == 10 || less[i] == 13 by {
                assert(less[i] == blanks[i]);
            }
        }
        law_blanks_add_nothing(text, less);
        assert((text + blanks).drop_last() == text + less);
        assert((text + blanks).last() == blanks.last());
        assert(formatted(text + blanks) == formatted(text + less) + Seq::<u8>::empty());
    }
}

/// In a string a value has begun, and no blanks have come since.
proof fn lemma_string_is_value(text: Seq<u8>)
    ensures
        place_behind(text).in_string ==> place_behind(text).behind_value && !place_behind(
            text,
        ).behind_blanks,
    decreases text.len(),
{
    if text.len() > 0 {
        lemma_string_is_value(text.drop_last());
    }
}

/// How a formatted text is laid out: the byte that follows another one outside of strings, with or without
/// blanks between them, comes behind the gap that these two ask for, and the gap that it asks for itself
/// comes behind it.
pub proof fn law_layout(front: Seq<u8>, first: u8, blanks: Seq<u8>, second: u8)
    requires
        !place_behind(front.push(first)).in_string,
        !(first == 32 || first == 9 || first == 10 || first == 13),
        only_blanks(blanks),
        !(second == 32 || second == 9 || second == 10 || second == 13),
    ensures
        ({
            let text = front.push(first);
            let depth = nesting(text).0;
            formatted((text + blanks).push(second)) == formatted(text) + gap_between(
                first,
                second,
                blanks.len() > 0,
                depth,
            ) + seq![second] + gap_behind(second, depth)
        }),
{
    let text = front.push(first);
    let depth = nesting(text).0;
    let reached = text + blanks;
    law_blanks_add_nothing(text, blanks);
    lemma_opened(front);
    lemma_string_is_value(front);
    assert(text.drop_last() == front);
    assert(reached.push(second).drop_last() == reached);
    if blanks.len() == 0 {
        assert(reached == text);
    }
    assert(break_before(reached, second) == gap_between(first, second, blanks.len() > 0, depth));
    assert(break_after(reached, second) == gap_behind(second, depth));
    assert(formatted(reached) + (break_before(reached, second).push(second) + break_after(
        reached,
        second,
    )) == formatted(text) + gap_between(first, second, blanks.len() > 0, depth) + seq![second]
        + gap_behind(second, depth));
}

/// How a formatted text begins: with the first byte that is not a blank.
pub proof fn law_layout_of_the_start(blanks: Seq<u8>, first: u8)
    requires
        only_blanks(blanks),
        !(first == 32 || first == 9 || first == 10 || first == 13),
    ensures
        formatted(blanks.push(first)) == (if first == 125 || first == 93 {
            indented_line(0)
        } else {
            Seq::empty()
        }) + seq![first] + gap_behind(first, 0),
{
    let nothing = Seq::<u8>::empty();
    law_blanks_add_nothing(nothing, blanks);
    assert(nothing + blanks == blanks);
    assert(blanks.push(first).drop_last() == blanks);
    assert(formatted(nothing) == nothing);
    assert(break_before(blanks, first) == (if first == 125 || first == 93 {
        indented_line(0)
    } else {
        Seq::empty()
    }));
    assert(break_after(blanks, first) == gap_behind(first, 0));
    assert(formatted(blanks.push(first)) == break_before(blanks, first) + seq![first]
        + break_after(blanks, first));
}

} // verus!
