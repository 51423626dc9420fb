use vstd::prelude::*;
use vstd::utf8::{decode_utf8, valid_utf8};

use crate::back::BACK_SCAN_LIMIT;
use crate::back::{known_start, lemma_first_line, newline_from, scan_start};
use crate::file::{columns, previous_in, scanned, walked_back};
use crate::lines::NEWLINE;
use crate::lines::{
    lemma_line_end, lemma_next_start, line_at, line_end, line_is, lines_are, lossy_text, next_start,
    text_on_one_line, visual_lines, LineModel, VisualLine,
};
use crate::numbers::law_newlines_are_tens;
use crate::window::{
    complete_lines, numbered_line_is, numbered_lines_are, window_lines, NumberedLine,
};

verus! {

/// The end of a line does not depend on what stands in front of the line.
proof fn lemma_shifted_end(content: Seq<u8>, width: nat, by: int, from: int, at: int)
    requires
        0 <= by <= content.len(),
        0 <= from <= at,
    ensures
        line_end(content.skip(by), width, from, at) + by == line_end(
            content,
            width,
            from + by,
            at + by,
        ),
    decreases content.len() - by - at,
{
    let rest = content.skip(by);
    if !(at >= rest.len() || at - from >= width || rest[at] == NEWLINE) {
        lemma_shifted_end(content, width, by, from, at + 1);
    }
}

/// The lines from some place on do not depend on what stands in front of it.
proof fn lemma_shifted_lines(content: Seq<u8>, width: nat, base: int, by: int, from: int)
    requires
        0 <= by <= content.len(),
        0 <= from,
        width > 0,
    ensures
        visual_lines(content.skip(by), width, base + by, from) == visual_lines(
            content,
            width,
            base,
            from + by,
        ),
    decreases content.len() - by - from,
{
    let rest = content.skip(by);
    if from < rest.len() {
        lemma_shifted_end(content, width, by, from, from);
        lemma_line_end(rest, width, from, from);
        lemma_next_start(rest, width, from);
        let end = line_end(rest, width, from, from);
        assert(rest.subrange(from, end) == content.subrange(from + by, end + by));
        lemma_shifted_lines(content, width, base, by, next_start(rest, width, from));
    }
}

/// What the line with the number `i` is, and which lines follow it.
pub proof fn lemma_line_number(content: Seq<u8>, width: nat, base: int, from: int, i: int)
    requires
        0 <= from,
        width > 0,
        0 <= i < visual_lines(content, width, base, from).len(),
    ensures
        ({
            let lines = visual_lines(content, width, base, from);
            let start = lines[i].start - base;
            &&& from <= start < content.len()
            &&& lines[i] == line_at(content, width, base, start)
            &&& lines.skip(i) == visual_lines(content, width, base, start)
            &&& lines.skip(i + 1) == visual_lines(
                content,
                width,
                base,
                next_start(content, width, start),
            )
            &&& (i + 1 < lines.len() <==> next_start(content, width, start) < content.len())
            &&& (i + 1 < lines.len() ==> lines[i + 1].start - base == next_start(
                content,
                width,
                start,
            ))
        }),
    decreases i,
{
    let lines = visual_lines(content, width, base, from);
    let next = next_start(content, width, from);
    lemma_next_start(content, width, from);
    let rest = visual_lines(content, width, base, next);
    assert(lines.skip(0) == lines);
    assert(lines.skip(1) == rest);
    if i == 0 {
        if next < content.len() {
            assert(rest.len() > 0 && lines[1] == rest[0]);
        }
    } else {
        lemma_line_number(content, width, base, next, i - 1);
        assert(lines[i] == rest[i - 1]);
        assert(lines.skip(i) == rest.skip(i - 1));
        assert(lines.skip(i + 1) == rest.skip(i));
        if i + 1 < lines.len() {
            assert(lines[i + 1] == rest[i]);
        }
    }
}

/// A window has no more lines than the screen, and no line shows more bytes than the screen is wide.
/// Each line shows a stretch of the content that is not empty.
pub proof fn law_window_is_bounded(content: Seq<u8>, width: nat, height: nat, base: int)
    requires
        width > 0,
    ensures
        window_lines(content, width, height, base).len() <= height,
        forall|i: int|
            0 <= i < window_lines(content, width, height, base).len() ==> {
                let line = #[trigger] window_lines(content, width, height, base)[i];
                &&& line.bytes.len() <= width
                &&& base <= line.start < line.next <= base + content.len()
            },
{
    let lines = visual_lines(content, width, base, 0);
    assert forall|i: int| 0 <= i < window_lines(content, width, height, base).len() implies {
        let line = #[trigger] window_lines(content, width, height, base)[i];
        &&& line.bytes.len() <= width
        &&& base <= line.start < line.next <= base + content.len()
    } by {
        lemma_line_number(content, width, base, 0, i);
        let start = lines[i].start - base;
        lemma_line_end(content, width, start, start);
    }
}

/// Whether the bytes from `from` up to `end` are the stretch that a line of the screen shows: there is no
/// newline in them, and they stop at a newline, at the full width or at the end of the content.
pub open spec fn stretch_ends(content: Seq<u8>, width: nat, from: int, end: int) -> bool {
    &&& 0 <= from <= end <= content.len()
    &&& end - from <= width
    &&& forall|k: int| from <= k < end ==> #[trigger] content[k] != 10
    &&& end == content.len() || end - from == width || content[end] == 10
}

/// Where the stretch behind the one that stops at `end` begins: behind the newline, if one stands there.
pub open spec fn stretch_behind(content: Seq<u8>, end: int) -> int {
    if end < content.len() && content[end] == 10 {
        end + 1
    } else {
        end
    }
}

/// Whether `bytes` are what is shown of the stretch from `from` up to `end`: all of it, but for a single
/// carriage return in front of the newline that ends a line shorter than the screen is wide.
pub open spec fn stretch_shown(
    content: Seq<u8>,
    width: nat,
    from: int,
    end: int,
    bytes: Seq<u8>,
) -> bool {
    if end < content.len() && end - from < width && from < end && content[end - 1] == 13 {
        bytes.push(13) == content.subrange(from, end)
    } else {
        bytes == content.subrange(from, end)
    }
}

/// Whether a line of the screen that begins at `start` in the file and says that the next is at `next`
/// shows, by `bytes`, the stretch of the content that stops at `end`. The next is behind the newline if
/// one ends a line shorter than the screen is wide.
pub open spec fn stretch_is_line(
    content: Seq<u8>,
    width: nat,
    base: int,
    start: int,
    next: int,
    bytes: Seq<u8>,
    end: int,
) -> bool {
    &&& stretch_ends(content, width, start - base, end)
    &&& stretch_shown(content, width, start - base, end, bytes)
    &&& next == base + (if end < content.len() && end - (start - base) < width {
        end + 1
    } else {
        end
    })
}

/// Where the line with the number `i` stops.
proof fn lemma_line_is_stretch(content: Seq<u8>, width: nat, base: int, i: int) -> (end: int)
    requires
        width > 0,
        0 <= i < visual_lines(content, width, base, 0).len(),
    ensures
        ({
            let lines = visual_lines(content, width, base, 0);
            let line = lines[i];
            &&& stretch_is_line(content, width, base, line.start, line.next, line.bytes, end)
            &&& if i + 1 < lines.len() {
                lines[i + 1].start == base + stretch_behind(content, end)
            } else {
                stretch_behind(content, end) == content.len()
            }
        }),
{
    let lines = visual_lines(content, width, base, 0);
    lemma_line_number(content, width, base, 0, i);
    let from = lines[i].start - base;
    lemma_line_end(content, width, from, from);
    lemma_next_start(content, width, from);
    let end = line_end(content, width, from, from);
    let stretch = content.subrange(from, end);
    if stretch.len() > 0 {
        assert(stretch.last() == content[end - 1]);
        assert(stretch.drop_last().push(stretch.last()) == stretch);
    }
    assert(stretch_ends(content, width, from, end));
    end
}

/// Whether the line with the number `i` shows a stretch of the content, and the next line begins behind
/// that stretch; the stretch of the last line reaches the end of the content.
pub open spec fn line_is_in_place(
    lines: Seq<LineModel>,
    i: int,
    content: Seq<u8>,
    width: nat,
    base: int,
) -> bool {
    let line = lines[i];
    exists|end: int|
        {
            &&& #[trigger] stretch_is_line(
                content,
                width,
                base,
                line.start,
                line.next,
                line.bytes,
                end,
            )
            &&& i + 1 < lines.len() ==> lines[i + 1].start == base + stretch_behind(content, end)
            &&& i + 1 == lines.len() ==> stretch_behind(content, end) == content.len()
        }
}

/// The lines of a content lie in it one behind the other, from its start to its end. Each shows a stretch
/// of it, byte by byte, but for a carriage return in front of the newline.
pub proof fn law_lines_make_up_the_content(content: Seq<u8>, width: nat, base: int)
    requires
        width > 0,
    ensures
        ({
            let lines = visual_lines(content, width, base, 0);
            &&& lines.len() == 0 <==> content.len() == 0
            &&& lines.len() > 0 ==> lines[0].start == base
            &&& forall|i: int|
                0 <= i < lines.len() ==> #[trigger] line_is_in_place(
                    lines,
                    i,
                    content,
                    width,
                    base,
                )
        }),
{
    let lines = visual_lines(content, width, base, 0);
    if content.len() > 0 {
        lemma_first_line(content, width, base, 0);
    }
    assert forall|i: int| 0 <= i < lines.len() implies #[trigger] line_is_in_place(
        lines,
        i,
        content,
        width,
        base,
    ) by {
        let end = lemma_line_is_stretch(content, width, base, i);
        let line = lines[i];
        assert(stretch_is_line(content, width, base, line.start, line.next, line.bytes, end));
    }
}

/// Whether a line of a window shows a stretch of the content that stops at `end`: its offsets are where
/// the stretch stands in the file, and its text is what `bytes`, the bytes of the stretch, write.
pub open spec fn text_shows(
    line: VisualLine,
    content: Seq<u8>,
    width: nat,
    base: int,
    end: int,
    bytes: Seq<u8>,
) -> bool {
    &&& stretch_is_line(
        content,
        width,
        base,
        line.start_offset as int,
        line.next_offset as int,
        bytes,
        end,
    )
    &&& line.text@ == lossy_text(bytes)
    &&& valid_utf8(bytes) ==> line.text@ == decode_utf8(bytes)
}

/// Whether the line with the number `i` of a window shows a stretch of the content, and the next line
/// begins behind that stretch; that of the last line reaches the end of the content, unless the screen is
/// full.
pub open spec fn text_is_in_place(
    lines: Seq<VisualLine>,
    i: int,
    content: Seq<u8>,
    width: nat,
    height: nat,
    base: int,
) -> bool {
    exists|end: int, bytes: Seq<u8>|
        {
            &&& #[trigger] text_shows(lines[i], content, width, base, end, bytes)
            &&& i + 1 < lines.len() ==> lines[i + 1].start_offset == base + stretch_behind(
                content,
                end,
            )
            &&& i + 1 == lines.len() ==> lines.len() == height || stretch_behind(content, end)
                == content.len()
        }
}

/// A window shows its content from the start on, stretch by stretch, until the screen is full or the
/// content ends.
pub proof fn law_window_shows_the_content(
    lines: Seq<VisualLine>,
    content: Seq<u8>,
    width: nat,
    height: nat,
    base: int,
)
    requires
        width > 0,
        lines_are(lines, window_lines(content, width, height, base)),
    ensures
        lines.len() <= height,
        lines.len() == 0 <==> content.len() == 0 || height == 0,
        lines.len() > 0 ==> lines[0].start_offset == base,
        forall|i: int|
            0 <= i < lines.len() ==> #[trigger] text_is_in_place(
                lines,
                i,
                content,
                width,
                height,
                base,
            ),
{
    let models = visual_lines(content, width, base, 0);
    if content.len() > 0 {
        lemma_first_line(content, width, base, 0);
    }
    if lines.len() > 0 {
        assert(line_is(lines[0], models[0]));
    }
    assert forall|i: int| 0 <= i < lines.len() implies #[trigger] text_is_in_place(
        lines,
        i,
        content,
        width,
        height,
        base,
    ) by {
        let end = lemma_line_is_stretch(content, width, base, i);
        assert(line_is(lines[i], models[i]));
        if i + 1 < lines.len() {
            assert(line_is(lines[i + 1], models[i + 1]));
        }
        assert(text_shows(lines[i], content, width, base, end, models[i].bytes));
    }
}

/// The lines of a numbered window are those of a window, and each bears the number of the line of the
/// file that it begins in, and that what follows it begins in: so many newlines have come since the start
/// of the window.
pub proof fn law_numbers_count_the_newlines(
    lines: Seq<NumberedLine>,
    content: Seq<u8>,
    width: nat,
    height: nat,
    base: int,
    first: int,
)
    requires
        width > 0,
        numbered_lines_are(
            lines,
            window_lines(content, width, height, base),
            content,
            base,
            first,
        ),
    ensures
        lines_are(
            lines.map_values(|line: NumberedLine| line.line),
            window_lines(content, width, height, base),
        ),
        forall|i: int|
            0 <= i < lines.len() ==> {
                let line = #[trigger] lines[i];
                let start = line.line.start_offset - base;
                let next = line.line.next_offset - base;
                &&& 0 <= start <= next <= content.len()
                &&& line.line_number == first + content.take(start).filter(
                    |byte: u8| byte == 10,
                ).len()
                &&& line.next_line_number == first + content.take(next).filter(
                    |byte: u8| byte == 10,
                ).len()
            },
{
    let models = window_lines(content, width, height, base);
    law_window_is_bounded(content, width, height, base);
    let inner = lines.map_values(|line: NumberedLine| line.line);
    assert forall|i: int| 0 <= i < inner.len() implies line_is(#[trigger] inner[i], models[i]) by {
        assert(numbered_line_is(lines[i], models[i], content, base, first));
    }
    assert forall|i: int| 0 <= i < lines.len() implies {
        let line = #[trigger] lines[i];
        let start = line.line.start_offset - base;
        let next = line.line.next_offset - base;
        &&& 0 <= start <= next <= content.len()
        &&& line.line_number == first + content.take(start).filter(|byte: u8| byte == 10).len()
        &&& line.next_line_number == first + content.take(next).filter(
            |byte: u8| byte == 10,
        ).len()
    } by {
        assert(numbered_line_is(lines[i], models[i], content, base, first));
        law_newlines_are_tens(content.take(models[i].start - base));
        law_newlines_are_tens(content.take(models[i].next - base));
    }
}

/// A line of the screen stops at one place.
proof fn lemma_one_end(content: Seq<u8>, width: nat, from: int, end: int, other: int)
    requires
        stretch_ends(content, width, from, end),
        stretch_ends(content, width, from, other),
    ensures
        end == other,
{
    if end < other {
        assert(content[end] != 10);
    }
    if other < end {
        assert(content[other] != 10);
    }
}

/// As long as the screen is not full of complete lines, what follows can change what it shows: no byte is
/// asked for that could not.
pub proof fn law_reads_no_more_than_needed(content: Seq<u8>, width: nat, height: nat, base: int)
    requires
        width > 0,
        complete_lines(content, width, base) < height,
    ensures
        exists|more: Seq<u8>| #[trigger]
            window_lines(content + more, width, height, base) != window_lines(
                content,
                width,
                height,
                base,
            ),
{
    let more = seq![65u8];
    let longer = content + more;
    let lines = visual_lines(content, width, base, 0);
    let after = visual_lines(longer, width, base, 0);
    if content.len() > 0 {
        lemma_first_line(content, width, base, 0);
    }
    lemma_first_line(longer, width, base, 0);
    let shown = window_lines(content, width, height, base);
    let shown_after = window_lines(longer, width, height, base);
    assert(lines.len() <= height);
    if shown == shown_after && content.len() > 0 {
        let last = lines.len() - 1;
        assert(lines[last] == shown[last] && after[last] == shown_after[last]);
        lemma_line_number(content, width, base, 0, last);
        lemma_line_number(longer, width, base, 0, last);
        let from = lines[last].start - base;
        lemma_line_end(content, width, from, from);
        lemma_line_end(longer, width, from, from);
        let end = line_end(content, width, from, from);
        let end_after = line_end(longer, width, from, from);
        assert(stretch_ends(content, width, from, end));
        assert(stretch_ends(longer, width, from, end_after));
        if end < content.len() || end - from == width {
            assert(stretch_ends(longer, width, from, end)) by {
                assert forall|k: int| from <= k < end implies #[trigger] longer[k] != 10 by {
                    assert(longer[k] == content[k]);
                }
            }
            lemma_one_end(longer, width, from, end, end_after);
        } else {
            assert(content.last() == content[end - 1]);
            assert(longer[end] == 65);
            assert(end_after == end + 1) by {
                if end_after <= end {
                    assert(content[end_after] != 10 || end_after == end);
                }
            }
            assert(lines[last].bytes == content.subrange(from, end));
            assert(after[last].bytes == longer.subrange(from, end_after));
        }
        assert(false);
    }
    assert(window_lines(content + more, width, height, base) != shown);
}

/// Every line of a window fits on the screen: its text has no more characters than the screen is wide,
/// and no newline.
pub proof fn law_lines_fit_the_screen(
    lines: Seq<VisualLine>,
    content: Seq<u8>,
    width: nat,
    height: nat,
    base: int,
)
    requires
        width > 0,
        lines_are(lines, window_lines(content, width, height, base)),
    ensures
        lines.len() <= height,
        forall|i: int|
            0 <= i < lines.len() ==> (#[trigger] lines[i]).text@.len() <= width
                && text_on_one_line(lines[i].text@),
{
    law_window_is_bounded(content, width, height, base);
    let models = window_lines(content, width, height, base);
    assert forall|i: int| 0 <= i < lines.len() implies (#[trigger] lines[i]).text@.len() <= width
        && text_on_one_line(lines[i].text@) by {
        lemma_line_number(content, width, base, 0, i);
        let start = models[i].start - base;
        lemma_line_end(content, width, start, start);
        let end = line_end(content, width, start, start);
        let stretch = content.subrange(start, end);
        assert forall|k: int| 0 <= k < models[i].bytes.len() implies #[trigger] models[i].bytes[k]
            != NEWLINE by {
            assert(models[i].bytes[k] == stretch[k]);
            assert(stretch[k] == content[start + k]);
        }
        assert(line_is(lines[i], models[i]));
    }
}

/// A window starts where it was asked to start, and its lines follow each other without a gap, but
/// for a newline right behind a line of the full width, which is no line of its own. They go on to the
/// end of the content.
pub proof fn law_lines_follow_each_other(content: Seq<u8>, width: nat, base: int)
    requires
        width > 0,
    ensures
        content.len() > 0 ==> visual_lines(content, width, base, 0).len() > 0 && visual_lines(
            content,
            width,
            base,
            0,
        )[0].start == base,
        forall|i: int|
            0 <= i < visual_lines(content, width, base, 0).len() - 1 ==> {
                let line = #[trigger] visual_lines(content, width, base, 0)[i];
                let next = visual_lines(content, width, base, 0)[i + 1];
                ||| next.start == line.next
                ||| next.start == line.next + 1 && content[line.next - base] == NEWLINE
                    && line.bytes.len() == width
            },
        content.len() > 0 ==> {
            let last = visual_lines(content, width, base, 0).last();
            ||| last.next == base + content.len()
            ||| last.next + 1 == base + content.len() && content.last() == NEWLINE
                && last.bytes.len() == width
        },
{
    let lines = visual_lines(content, width, base, 0);
    if content.len() > 0 {
        lemma_first_line(content, width, base, 0);
        lemma_line_number(content, width, base, 0, lines.len() - 1);
        let start = lines.last().start - base;
        lemma_line_end(content, width, start, start);
    }
    assert forall|i: int| 0 <= i < lines.len() - 1 implies {
        let line = #[trigger] lines[i];
        let next = lines[i + 1];
        ||| next.start == line.next
        ||| next.start == line.next + 1 && content[line.next - base] == NEWLINE
            && line.bytes.len() == width
    } by {
        lemma_line_number(content, width, base, 0, i);
        let start = lines[i].start - base;
        lemma_line_end(content, width, start, start);
    }
}

/// A window that starts at the line with the number `i` shows the lines from that one on: moving to a
/// line moves the window and changes nothing in it.
pub proof fn law_window_from_a_line(content: Seq<u8>, width: nat, base: int, i: int)
    requires
        width > 0,
        0 <= i < visual_lines(content, width, base, 0).len(),
    ensures
        ({
            let lines = visual_lines(content, width, base, 0);
            visual_lines(content.skip(lines[i].start - base), width, lines[i].start, 0)
                == lines.skip(i)
        }),
{
    lemma_line_number(content, width, base, 0, i);
    let start = visual_lines(content, width, base, 0)[i].start - base;
    lemma_shifted_lines(content, width, base, start, 0);
}

/// A window that starts where the line with the number `i` says that the next one is shows the lines
/// behind that line. Left out is a line of the full width with a newline right behind it: the window
/// then begins with that newline.
pub proof fn law_window_behind_a_line(content: Seq<u8>, width: nat, base: int, i: int)
    requires
        width > 0,
        0 <= i < visual_lines(content, width, base, 0).len(),
        ({
            let line = visual_lines(content, width, base, 0)[i];
            !(line.bytes.len() == width && line.next < base + content.len()
                && content[line.next - base] == NEWLINE)
        }),
    ensures
        ({
            let lines = visual_lines(content, width, base, 0);
            visual_lines(content.skip(lines[i].next - base), width, lines[i].next, 0)
                == lines.skip(i + 1)
        }),
{
    lemma_line_number(content, width, base, 0, i);
    let line = visual_lines(content, width, base, 0)[i];
    let start = line.start - base;
    lemma_line_end(content, width, start, start);
    assert(next_start(content, width, start) == line.next - base);
    lemma_shifted_lines(content, width, base, line.next - base, 0);
}

/// The end of a line in a content that is cut off at `cut`.
proof fn lemma_cut_end(content: Seq<u8>, width: nat, cut: int, from: int, at: int)
    requires
        0 <= from <= at <= cut <= content.len(),
    ensures
        line_end(content.take(cut), width, from, at) == (if line_end(content, width, from, at)
            <= cut {
            line_end(content, width, from, at)
        } else {
            cut
        }),
    decreases cut - at,
{
    let part = content.take(cut);
    if at == cut {
        if !(at >= content.len() || at - from >= width || content[at] == NEWLINE) {
            lemma_end_is_not_in_front(content, width, from, at + 1);
        }
    } else if !(at - from >= width || content[at] == NEWLINE) {
        lemma_cut_end(content, width, cut, from, at + 1);
    }
}

proof fn lemma_end_is_not_in_front(content: Seq<u8>, width: nat, from: int, at: int)
    ensures
        line_end(content, width, from, at) >= at,
    decreases content.len() - at,
{
    if !(at >= content.len() || at - from >= width || content[at] == NEWLINE) {
        lemma_end_is_not_in_front(content, width, from, at + 1);
    }
}

/// In a content that is cut off at `cut`, the last line is the last one that begins in front of it.
proof fn lemma_last_line_in_front(
    content: Seq<u8>,
    width: nat,
    base: int,
    from: int,
    cut: int,
    i: int,
)
    requires
        width > 0,
        0 <= from,
        0 <= i < visual_lines(content, width, base, from).len(),
        visual_lines(content, width, base, from)[i].start - base < cut <= content.len(),
        i + 1 < visual_lines(content, width, base, from).len() ==> cut <= visual_lines(
            content,
            width,
            base,
            from,
        )[i + 1].start - base,
    ensures
        visual_lines(content.take(cut), width, base, from).last().start == visual_lines(
            content,
            width,
            base,
            from,
        )[i].start,
    decreases i,
{
    let lines = visual_lines(content, width, base, from);
    let part = content.take(cut);
    let next = next_start(content, width, from);
    lemma_line_number(content, width, base, from, i);
    lemma_next_start(content, width, from);
    lemma_line_end(content, width, from, from);
    lemma_cut_end(content, width, cut, from, from);
    lemma_first_line(part, width, base, from);
    if i == 0 {
        assert(next_start(part, width, from) >= cut);
    } else {
        let rest = visual_lines(content, width, base, next);
        assert(lines.skip(1) == rest);
        assert(lines[i] == rest[i - 1]);
        if i + 1 < lines.len() {
            assert(lines[i + 1] == rest[i]);
        }
        lemma_line_number(content, width, base, next, i - 1);
        assert(next < cut);
        assert(next_start(part, width, from) == next);
        lemma_last_line_in_front(content, width, base, next, cut, i - 1);
    }
}

/// Behind a newline a line begins.
proof fn lemma_line_behind_newline(
    content: Seq<u8>,
    width: nat,
    base: int,
    from: int,
    at: int,
) -> (i: int)
    requires
        width > 0,
        0 <= from < at < content.len(),
        content[at - 1] == NEWLINE,
    ensures
        0 <= i < visual_lines(content, width, base, from).len(),
        visual_lines(content, width, base, from)[i].start == base + at,
    decreases at - from,
{
    let next = next_start(content, width, from);
    lemma_next_start(content, width, from);
    lemma_line_end(content, width, from, from);
    let lines = visual_lines(content, width, base, from);
    let rest = visual_lines(content, width, base, next);
    assert(next <= at);
    if next == at {
        assert(lines[1] == rest[0]);
        1
    } else {
        let i = lemma_line_behind_newline(content, width, base, next, at);
        assert(lines[i + 1] == rest[i]);
        i + 1
    }
}

/// The starts of the lines grow.
pub proof fn lemma_starts_grow(content: Seq<u8>, width: nat, base: int, i: int, j: int)
    requires
        width > 0,
        0 <= i < j < visual_lines(content, width, base, 0).len(),
    ensures
        visual_lines(content, width, base, 0)[i].start < visual_lines(
            content,
            width,
            base,
            0,
        )[j].start,
    decreases j - i,
{
    lemma_line_number(content, width, base, 0, i);
    lemma_next_start(
        content,
        width,
        visual_lines(content, width, base, 0)[i].start - base,
    );
    if i + 1 < j {
        lemma_starts_grow(content, width, base, i + 1, j);
    }
}

proof fn lemma_newline_from(bytes: Seq<u8>, at: int)
    requires
        0 <= at <= bytes.len(),
    ensures
        at <= newline_from(bytes, at) <= bytes.len(),
        newline_from(bytes, at) < bytes.len() ==> bytes[newline_from(bytes, at)] == NEWLINE,
        forall|k: int| at <= k < newline_from(bytes, at) ==> #[trigger] bytes[k] != NEWLINE,
    decreases bytes.len() - at,
{
    if at < bytes.len() && bytes[at] != NEWLINE {
        lemma_newline_from(bytes, at + 1);
    }
}

/// All the lines of a file.
pub open spec fn lines_of(file: Seq<u8>, width: int) -> Seq<LineModel> {
    visual_lines(file, columns(width), 0, 0)
}

/// Where the line with the number `i` of a file begins; the end of the file behind the last one.
pub open spec fn start_of(file: Seq<u8>, width: int, i: int) -> int {
    if i < lines_of(file, width).len() {
        lines_of(file, width)[i].start
    } else {
        file.len() as int
    }
}

/// Whether the bytes that are looked at in front of `offset` show the beginning of a line.
pub open spec fn sees_a_start(file: Seq<u8>, offset: int) -> bool {
    let scan = scanned(file, offset);
    known_start(scan, offset) < scan.len()
}

/// One full width in front of `offset`, or the start of the file where that is nearer.
pub open spec fn full_width_back(offset: int, width: int) -> int {
    if offset > columns(width) {
        offset - columns(width)
    } else {
        0
    }
}

/// Whether the line in front of the one with the number `i` can be told: it is seen where a line
/// begins, or that line begins one full width in front.
pub open spec fn tells_previous(file: Seq<u8>, width: int, i: int) -> bool {
    let offset = start_of(file, width, i);
    sees_a_start(file, offset) || start_of(file, width, i - 1) == full_width_back(offset, width)
}

/// Going back from any offset comes to the beginning of the last line that begins in front of it, the
/// one with the number `i`. Left out are the offsets in front of which the beginning of a line lies too
/// far off, unless that line begins one full width in front.
pub proof fn law_back_finds_the_line_in_front(file: Seq<u8>, width: int, offset: int, i: int)
    requires
        0 <= i < lines_of(file, width).len(),
        start_of(file, width, i) < offset <= start_of(file, width, i + 1),
        sees_a_start(file, offset) || start_of(file, width, i) == full_width_back(offset, width),
    ensures
        previous_in(file, offset, width) == start_of(file, width, i),
{
    let columns = columns(width);
    let lines = lines_of(file, width);
    lemma_line_number(file, columns, 0, 0, i);
    if i + 1 < lines.len() {
        lemma_line_number(file, columns, 0, 0, i + 1);
    }
    assert(0 < offset <= file.len());
    let first = scan_start(offset);
    let scan = scanned(file, offset);
    let known = known_start(scan, offset);
    let part = file.take(offset);
    assert(scan == part.skip(first));
    lemma_newline_from(scan, 0);
    if known < scan.len() {
        lemma_shifted_lines(part, columns, 0, first, known);
        let at = first + known;
        if at == 0 {
            lemma_last_line_in_front(file, columns, 0, 0, offset, i);
        } else {
            assert(scan[known - 1] == file[at - 1]);
            let j = lemma_line_behind_newline(file, columns, 0, 0, at);
            lemma_line_number(file, columns, 0, 0, j);
            if j > i {
                if j > i + 1 {
                    lemma_starts_grow(file, columns, 0, i + 1, j);
                }
                assert(false);
            }
            let rest = visual_lines(file, columns, 0, at);
            assert(rest == lines.skip(j));
            assert(rest[i - j] == lines[i]);
            if i + 1 < lines.len() {
                assert(rest[i + 1 - j] == lines[i + 1]);
            }
            lemma_last_line_in_front(file, columns, 0, at, offset, i - j);
        }
    }
}

/// Going back from an offset comes to the beginning of the last line that begins in front of it, the one
/// with the number `i`, wherever one of the 1048576 bytes in front of the offset, other than the last, is
/// a newline, and wherever there are no more bytes than that.
pub proof fn law_back_with_a_newline_in_sight(file: Seq<u8>, width: nat, offset: int, i: int)
    requires
        ({
            let lines = visual_lines(file, if width == 0 { 1 } else { width }, 0, 0);
            &&& 0 <= i < lines.len()
            &&& lines[i].start < offset <= file.len()
            &&& i + 1 < lines.len() ==> offset <= lines[i + 1].start
        }),
        offset <= 1048576 || exists|n: int|
            offset - 1048576 <= n < offset - 1 && #[trigger] file[n] == 10,
    ensures
        previous_in(file, offset, width as int) == visual_lines(
            file,
            if width == 0 {
                1
            } else {
                width
            },
            0,
            0,
        )[i].start,
{
    let scan = scanned(file, offset);
    let first = scan_start(offset);
    lemma_newline_from(scan, 0);
    if offset > 1048576 {
        let n = choose|n: int| offset - 1048576 <= n < offset - 1 && #[trigger] file[n] == 10;
        assert(scan[n - first] == 10);
        assert(newline_from(scan, 0) <= n - first);
    }
    lemma_line_number(file, columns(width as int), 0, 0, i);
    assert(sees_a_start(file, offset));
    law_back_finds_the_line_in_front(file, width as int, offset, i);
}

/// Going back from an offset comes to one full width in front of it, or to the start of the file, where
/// none of the 1048576 bytes in front of it, other than the last, is a newline, and there are more bytes
/// than that.
pub proof fn law_back_without_a_newline_in_sight(file: Seq<u8>, width: nat, offset: int)
    requires
        1048576 < offset <= file.len(),
        forall|n: int| offset - 1048576 <= n < offset - 1 ==> #[trigger] file[n] != 10,
    ensures
        previous_in(file, offset, width as int) == (if width == 0 {
            offset - 1
        } else if offset > width {
            offset - width
        } else {
            0
        }),
{
    let scan = scanned(file, offset);
    lemma_newline_from(scan, 0);
    let newline = newline_from(scan, 0);
    if newline < scan.len() - 1 {
        assert(scan[newline] == file[offset - 1048576 + newline]);
    }
}

/// The bytes that are looked at to find the line in front of an offset are the 1048576 in front of it, or
/// all there are; an offset behind the end counts as the end.
pub proof fn law_bytes_in_sight(file: Seq<u8>, width: int, offset: int)
    requires
        0 <= offset,
    ensures
        offset <= 1048576 && offset <= file.len() ==> scanned(file, offset) == file.take(offset),
        1048576 < offset <= file.len() ==> scanned(file, offset) == file.subrange(
            offset - 1048576,
            offset,
        ),
        offset > file.len() ==> scanned(file, offset) == scanned(file, file.len() as int)
            && previous_in(file, offset, width) == previous_in(file, file.len() as int, width),
{
}

/// The place at which a newline is found is the first from `at` on; only where there is none, it is the
/// end of the bytes.
pub proof fn law_newline_is_the_first(bytes: Seq<u8>, at: int)
    requires
        0 <= at <= bytes.len(),
    ensures
        ({
            let found = newline_from(bytes, at);
            &&& at <= found <= bytes.len()
            &&& found < bytes.len() ==> bytes[found] == 10
            &&& forall|k: int| at <= k < found ==> #[trigger] bytes[k] != 10
        }),
{
    lemma_newline_from(bytes, at);
}

/// Going back from the beginning of a line, or from the end of the file, comes to the beginning of
/// the line in front of it: going back undoes going forward. Left out are the places in front of
/// which the beginning of a line lies too far off, unless the line begins one full width in front.
pub proof fn law_back_undoes_forward(file: Seq<u8>, width: int, i: int)
    requires
        0 < i <= lines_of(file, width).len(),
        tells_previous(file, width, i),
    ensures
        previous_in(file, start_of(file, width, i), width) == start_of(file, width, i - 1),
{
    lemma_line_number(file, columns(width), 0, 0, i - 1);
    lemma_next_start(file, columns(width), start_of(file, width, i - 1));
    law_back_finds_the_line_in_front(file, width, start_of(file, width, i), i - 1);
}

/// Going back leads to the front, and from the start of the file nowhere: a walk back comes to its
/// end.
pub proof fn law_back_leads_to_the_front(file: Seq<u8>, offset: int, width: int)
    requires
        0 <= offset <= file.len(),
    ensures
        offset == 0 ==> previous_in(file, offset, width) == 0,
        offset > 0 ==> 0 <= previous_in(file, offset, width) < offset,
{
    let scan = scanned(file, offset);
    let known = known_start(scan, offset);
    if scan.len() > 0 && known < scan.len() {
        lemma_newline_from(scan, 0);
        lemma_first_line(scan, columns(width), offset - scan.len(), known);
    }
}

/// A walk back over `rows` lines from the beginning of a line, or from the end of the file, comes to
/// the beginning of the line that is so many in front of it, or to the start of the file. Left out
/// are walks over places from which the line in front cannot be told.
pub proof fn law_walk_back(file: Seq<u8>, width: int, i: int, rows: nat)
    requires
        0 <= i <= lines_of(file, width).len(),
        forall|m: int| 0 < m && i - rows < m <= i ==> #[trigger] tells_previous(file, width, m),
    ensures
        walked_back(file, start_of(file, width, i), width, rows) == start_of(
            file,
            width,
            if i > rows {
                i - rows
            } else {
                0
            },
        ),
    decreases rows,
{
    let columns = columns(width);
    let lines = lines_of(file, width);
    if lines.len() > 0 {
        lemma_first_line(file, columns, 0, 0);
    } else {
        assert(file.len() == 0);
    }
    if rows > 0 {
        if i == 0 {
            law_back_leads_to_the_front(file, 0, width);
        } else {
            law_back_undoes_forward(file, width, i);
            if i == 1 {
                assert(start_of(file, width, 0) == 0);
            } else {
                lemma_starts_grow(file, columns, 0, 0, i - 1);
                law_walk_back(file, width, i - 1, (rows - 1) as nat);
            }
        }
    }
}

/// A walk over some lines and then some more is a walk over all of them, a walk over one line goes back
/// once, and a walk over none stays.
pub proof fn law_walks_add_up(file: Seq<u8>, offset: int, width: int, rows: nat, more: nat)
    requires
        0 <= offset <= file.len(),
    ensures
        walked_back(file, offset, width, 0) == offset,
        walked_back(file, offset, width, 1) == previous_in(file, offset, width),
        walked_back(file, offset, width, rows + more) == walked_back(
            file,
            walked_back(file, offset, width, rows),
            width,
            more,
        ),
        0 <= walked_back(file, offset, width, rows) <= offset,
    decreases rows,
{
    reveal_with_fuel(walked_back, 2);
    law_back_leads_to_the_front(file, offset, width);
    let previous = previous_in(file, offset, width);
    if rows > 0 {
        if previous == 0 {
            law_back_leads_to_the_front(file, 0, width);
            assert(walked_back(file, offset, width, rows + more) == 0);
            assert(walked_back(file, 0, width, more) == 0);
        } else {
            law_walks_add_up(file, previous, width, (rows - 1) as nat, more);
            assert((rows + more - 1) as nat == (rows - 1) as nat + more);
        }
    }
}

/// In a file that is looked at as a whole, the line in front can be told everywhere.
pub proof fn law_small_file_tells(file: Seq<u8>, width: int, i: int)
    requires
        file.len() <= BACK_SCAN_LIMIT,
        0 < i <= lines_of(file, width).len(),
    ensures
        tells_previous(file, width, i),
{
    let columns = columns(width);
    let lines = lines_of(file, width);
    lemma_line_number(file, columns, 0, 0, i - 1);
    lemma_next_start(file, columns, lines[i - 1].start);
    if i < lines.len() {
        lemma_line_number(file, columns, 0, 0, i);
    }
    assert(sees_a_start(file, start_of(file, width, i)));
}

/// The offset near the end is where the last `height` lines of the file begin, and a window that starts
/// there shows them and nothing else. Left out are files in whose last lines there are places from
/// which the line in front cannot be told.
pub proof fn law_near_end(file: Seq<u8>, width: int, height: nat)
    requires
        forall|m: int|
            0 < m && lines_of(file, width).len() - height < m <= lines_of(file, width).len()
                ==> #[trigger] tells_previous(file, width, m),
    ensures
        ({
            let lines = lines_of(file, width);
            let shown = if lines.len() > height { height as int } else { lines.len() as int };
            let offset = walked_back(file, file.len() as int, width, height);
            &&& 0 <= offset <= file.len()
            &&& offset == start_of(file, width, lines.len() - shown)
            &&& window_lines(file.skip(offset), columns(width), height, offset) == lines.skip(
                lines.len() - shown,
            )
        }),
{
    let columns = columns(width);
    let lines = lines_of(file, width);
    let count = lines.len() as int;
    let shown = if lines.len() > height { height as int } else { lines.len() as int };
    law_walk_back(file, width, count, height);
    let offset = walked_back(file, file.len() as int, width, height);
    if shown > 0 {
        lemma_line_number(file, columns, 0, 0, count - shown);
        law_window_from_a_line(file, columns, 0, count - shown);
        assert(lines.skip(count - shown).len() == shown);
    } else {
        assert(visual_lines(file.skip(offset), columns, offset, 0) == Seq::<LineModel>::empty());
        assert(lines.skip(count) == Seq::<LineModel>::empty());
        assert(start_of(file, width, count) == file.len());
    }
}

} // verus!
