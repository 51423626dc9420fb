use vstd::prelude::*;

use crate::lines::{visual_line, VisualLine, CARRIAGE_RETURN, NEWLINE};
use crate::lines::{
    line_at, line_end, line_is, lines_are, next_start, visual_lines, without_carriage_return,
    LineModel,
};
use crate::numbers::{lemma_newlines_bound, newlines};

verus! {

/// What the screen shows of a file.
#[derive(Debug, Clone, PartialEq, Eq)]
pub struct Window {
    pub start_offset: u64,
    pub file_len: u64,
    pub lines: Vec<VisualLine>,
}

/// A line of the screen with the number of the line of the file in which it begins, and of the one in
/// which what follows it begins.
#[derive(Debug, Clone, PartialEq, Eq)]
pub struct NumberedLine {
    pub line: VisualLine,
    pub line_number: u64,
    pub next_line_number: u64,
}

/// What the screen shows of a file, with line numbers.
#[derive(Debug, Clone, PartialEq, Eq)]
pub struct NumberedWindow {
    pub start_offset: u64,
    pub file_len: u64,
    pub lines: Vec<NumberedLine>,
}

/// Whether a line shows what the model says and bears the number that it has if the content, which
/// stands in the file at `base`, begins in the line with the number `first`.
pub open spec fn numbered_line_is(
    line: NumberedLine,
    model: LineModel,
    content: Seq<u8>,
    base: int,
    first: int,
) -> bool {
    &&& line_is(line.line, model)
    &&& line.line_number == first + newlines(content.take(model.start - base))
    &&& line.next_line_number == first + newlines(content.take(model.next - base))
}

/// Whether the lines show, one by one, what the models say, and bear the right numbers.
pub open spec fn numbered_lines_are(
    lines: Seq<NumberedLine>,
    models: Seq<LineModel>,
    content: Seq<u8>,
    base: int,
    first: int,
) -> bool {
    &&& lines.len() == models.len()
    &&& forall|i: int|
        0 <= i < lines.len() ==> numbered_line_is(
            #[trigger] lines[i],
            models[i],
            content,
            base,
            first,
        )
}

/// The lines that a screen of `height` lines shows of the content, which stands in the file at
/// `base`.
pub open spec fn window_lines(content: Seq<u8>, width: nat, height: nat, base: int) -> Seq<
    LineModel,
> {
    let lines = visual_lines(content, width, base, 0);
    if lines.len() <= height {
        lines
    } else {
        lines.take(height as int)
    }
}

/// How many lines of the content are complete: all but the last one if it is cut off by the end of the
/// content, so that what follows could make it longer.
pub open spec fn complete_lines(content: Seq<u8>, width: nat, base: int) -> int {
    let lines = visual_lines(content, width, base, 0);
    if content.len() > 0 && content.last() != NEWLINE && lines.last().bytes.len() < width {
        lines.len() - 1
    } else {
        lines.len() as int
    }
}

/// Reads a window out of the pieces of a file, from `start` on, as they come in.
pub struct WindowReader {
    start: u64,
    file_len: u64,
    width: usize,
    height: usize,
    lines: Vec<VisualLine>,
    bytes: Vec<u8>,
    offset: u64,
    line_start: u64,
    skip_newline: bool,
    newlines: u64,
    counts: Vec<(u64, u64)>,
    ended: bool,
    received: Ghost<Seq<u8>>,
    done: Ghost<Seq<LineModel>>,
}

/// Where the lines go on that are still to come: at `from`, or behind the newline there, if that
/// newline ends a line of the full width.
spec fn resumes_at(content: Seq<u8>, from: int, skip_newline: bool) -> int {
    if skip_newline && from < content.len() && content[from] == NEWLINE {
        from + 1
    } else {
        from
    }
}

/// Whether `done` are the lines of any content that begins with `seen`, but for those from `from` on.
spec fn settled(
    seen: Seq<u8>,
    done: Seq<LineModel>,
    width: nat,
    base: int,
    from: int,
    skip_newline: bool,
) -> bool {
    forall|more: Seq<u8>| #[trigger]
        visual_lines(seen + more, width, base, 0) == done + visual_lines(
            seen + more,
            width,
            base,
            resumes_at(seen + more, from, skip_newline),
        )
}

/// Whether the pair tells how many newlines stand in front of a line and in front of what follows it.
spec fn count_is(count: (u64, u64), model: LineModel, seen: Seq<u8>, base: int) -> bool {
    &&& base <= model.start <= model.next <= base + seen.len()
    &&& count.0 == newlines(seen.take(model.start - base))
    &&& count.1 == newlines(seen.take(model.next - base))
}

/// Whether the pairs tell, line by line, how many newlines stand in front.
spec fn counts_are(
    counts: Seq<(u64, u64)>,
    models: Seq<LineModel>,
    seen: Seq<u8>,
    base: int,
) -> bool {
    &&& counts.len() == models.len()
    &&& forall|i: int|
        0 <= i < counts.len() ==> count_is(#[trigger] counts[i], models[i], seen, base)
}

/// The counts stay right when more bytes come in.
proof fn lemma_counts_stay(
    counts: Seq<(u64, u64)>,
    models: Seq<LineModel>,
    seen: Seq<u8>,
    more: Seq<u8>,
    base: int,
)
    requires
        counts_are(counts, models, seen, base),
    ensures
        counts_are(counts, models, seen + more, base),
{
    assert forall|i: int| 0 <= i < counts.len() implies count_is(
        #[trigger] counts[i],
        models[i],
        seen + more,
        base,
    ) by {
        assert(count_is(counts[i], models[i], seen, base));
        let start = models[i].start - base;
        let next = models[i].next - base;
        assert((seen + more).take(start) == seen.take(start));
        assert((seen + more).take(next) == seen.take(next));
    }
}

/// Without a newline there are none to count.
pub proof fn lemma_no_newlines(bytes: Seq<u8>)
    requires
        forall|i: int| 0 <= i < bytes.len() ==> #[trigger] bytes[i] != NEWLINE,
    ensures
        newlines(bytes) == 0,
    decreases bytes.len(),
{
    if bytes.len() > 0 {
        let rest = bytes.drop_last();
        assert forall|i: int| 0 <= i < rest.len() implies #[trigger] rest[i] != NEWLINE by {
            assert(rest[i] == bytes[i]);
        }
        lemma_no_newlines(rest);
    }
}

impl WindowReader {
    /// All the bytes that were handed over.
    pub closed spec fn received(&self) -> Seq<u8> {
        self.received@
    }

    /// Whether the file has come to its end.
    pub closed spec fn ended(&self) -> bool {
        self.ended
    }

    /// Where the window starts.
    pub closed spec fn start(&self) -> u64 {
        self.start
    }

    /// The length of the file.
    pub closed spec fn file_len(&self) -> u64 {
        self.file_len
    }

    /// The width of the screen, at least one.
    pub closed spec fn width(&self) -> nat {
        self.width as nat
    }

    /// The height of the screen.
    pub closed spec fn height(&self) -> nat {
        self.height as nat
    }

    /// Whether the window is not settled yet.
    pub closed spec fn unsettled(&self) -> bool {
        !self.ended && self.lines@.len() < self.height
    }

    /// What holds of every reader.
    pub closed spec fn well_formed(&self) -> bool {
        let seen = self.received@.take(self.offset - self.start);
        let from = self.line_start - self.start;
        &&& self.width > 0
        &&& self.lines@.len() <= self.height
        &&& self.start <= self.line_start <= self.offset
        &&& self.offset - self.start <= self.received@.len()
        &&& lines_are(self.lines@, self.done@)
        &&& counts_are(self.counts@, self.done@, seen, self.start as int)
        &&& self.ended ==> self.done@ == visual_lines(
            self.received@,
            self.width as nat,
            self.start as int,
            0,
        )
        &&& !self.ended ==> {
            &&& self.lines@.len() < self.height ==> seen == self.received@
            &&& self.bytes@ == seen.skip(from)
            &&& self.bytes@.len() < self.width
            &&& forall|i: int| 0 <= i < self.bytes@.len() ==> #[trigger] self.bytes@[i] != NEWLINE
            &&& self.skip_newline ==> self.bytes@.len() == 0 && self.done@.len() > 0
                && self.done@.last().bytes.len() == self.width
            &&& self.bytes@.len() == 0 && seen.len() > 0 && !self.skip_newline ==> seen.last()
                == NEWLINE
            &&& self.newlines == newlines(seen)
            &&& self.newlines == newlines(seen.take(from))
            &&& self.newlines <= seen.len()
            &&& settled(
                seen,
                self.done@,
                self.width as nat,
                self.start as int,
                from,
                self.skip_newline,
            )
        }
    }
}

/// A stretch without a newline ends where it has the full width, where the content ends or where a
/// newline stands.
proof fn lemma_line_ends_at(content: Seq<u8>, width: nat, from: int, at: int, end: int)
    requires
        0 <= from <= at <= end <= content.len(),
        end - from <= width,
        forall|i: int| from <= i < end ==> #[trigger] content[i] != NEWLINE,
        end - from == width || end == content.len() || content[end] == NEWLINE,
    ensures
        line_end(content, width, from, at) == end,
    decreases end - at,
{
    if at < end {
        lemma_line_ends_at(content, width, from, at + 1, end);
    }
}

/// A newline behind a line of the full width ends that line.
proof fn lemma_newline_skipped(seen: Seq<u8>, done: Seq<LineModel>, width: nat, base: int)
    requires
        settled(seen, done, width, base, seen.len() as int, true),
    ensures
        settled(seen.push(NEWLINE), done, width, base, seen.len() as int + 1, false),
{
    assert forall|more: Seq<u8>| #[trigger]
        visual_lines(seen.push(NEWLINE) + more, width, base, 0) == done + visual_lines(
            seen.push(NEWLINE) + more,
            width,
            base,
            resumes_at(seen.push(NEWLINE) + more, seen.len() as int + 1, false),
        ) by {
        let rest = seq![NEWLINE] + more;
        assert(seen + rest == seen.push(NEWLINE) + more);
    }
}

/// A newline ends the line that began at `from`.
proof fn lemma_newline_ends(
    seen: Seq<u8>,
    done: Seq<LineModel>,
    width: nat,
    base: int,
    from: int,
)
    requires
        0 <= from <= seen.len(),
        seen.len() - from < width,
        forall|i: int| from <= i < seen.len() ==> #[trigger] seen[i] != NEWLINE,
        settled(seen, done, width, base, from, false),
    ensures
        settled(
            seen.push(NEWLINE),
            done.push(
                LineModel {
                    start: base + from,
                    next: base + seen.len() + 1,
                    bytes: without_carriage_return(seen.skip(from)),
                },
            ),
            width,
            base,
            seen.len() as int + 1,
            false,
        ),
{
    let seen2 = seen.push(NEWLINE);
    let line = LineModel {
        start: base + from,
        next: base + seen.len() + 1,
        bytes: without_carriage_return(seen.skip(from)),
    };
    assert forall|more: Seq<u8>| #[trigger]
        visual_lines(seen2 + more, width, base, 0) == done.push(line) + visual_lines(
            seen2 + more,
            width,
            base,
            resumes_at(seen2 + more, seen.len() as int + 1, false),
        ) by {
        let rest = seq![NEWLINE] + more;
        let content = seen + rest;
        assert(content == seen2 + more);
        assert forall|i: int| from <= i < seen.len() implies #[trigger] content[i] != NEWLINE by {
            assert(content[i] == seen[i]);
        }
        lemma_line_ends_at(content, width, from, from, seen.len() as int);
        assert(content.subrange(from, seen.len() as int) == seen.skip(from));
        assert(line_at(content, width, base, from) == line);
        let tail = visual_lines(content, width, base, seen.len() as int + 1);
        assert(done + (seq![line] + tail) == done.push(line) + tail);
    }
}

/// A byte that is no newline goes on with the line that began at `from`.
proof fn lemma_byte_goes_on(
    seen: Seq<u8>,
    byte: u8,
    done: Seq<LineModel>,
    width: nat,
    base: int,
    from: int,
    skip_newline: bool,
)
    requires
        0 <= from <= seen.len(),
        byte != NEWLINE,
        skip_newline ==> from == seen.len(),
        settled(seen, done, width, base, from, skip_newline),
    ensures
        settled(seen.push(byte), done, width, base, from, false),
{
    let seen2 = seen.push(byte);
    assert forall|more: Seq<u8>| #[trigger]
        visual_lines(seen2 + more, width, base, 0) == done + visual_lines(
            seen2 + more,
            width,
            base,
            resumes_at(seen2 + more, from, false),
        ) by {
        let rest = seq![byte] + more;
        assert(seen + rest == seen2 + more);
    }
}

/// A stretch of the full width is a line.
proof fn lemma_line_is_full(
    seen: Seq<u8>,
    done: Seq<LineModel>,
    width: nat,
    base: int,
    from: int,
)
    requires
        0 <= from < seen.len(),
        seen.len() - from == width,
        forall|i: int| from <= i < seen.len() ==> #[trigger] seen[i] != NEWLINE,
        settled(seen, done, width, base, from, false),
    ensures
        settled(
            seen,
            done.push(
                LineModel {
                    start: base + from,
                    next: base + seen.len(),
                    bytes: seen.skip(from),
                },
            ),
            width,
            base,
            seen.len() as int,
            true,
        ),
{
    let line = LineModel { start: base + from, next: base + seen.len(), bytes: seen.skip(from) };
    assert forall|more: Seq<u8>| #[trigger]
        visual_lines(seen + more, width, base, 0) == done.push(line) + visual_lines(
            seen + more,
            width,
            base,
            resumes_at(seen + more, seen.len() as int, true),
        ) by {
        let content = seen + more;
        assert forall|i: int| from <= i < seen.len() implies #[trigger] content[i] != NEWLINE by {
            assert(content[i] == seen[i]);
        }
        lemma_line_ends_at(content, width, from, from, seen.len() as int);
        assert(content.subrange(from, seen.len() as int) == seen.skip(from));
        assert(line_at(content, width, base, from) == line);
        let tail = visual_lines(
            content,
            width,
            base,
            resumes_at(content, seen.len() as int, true),
        );
        assert(done + (seq![line] + tail) == done.push(line) + tail);
    }
}

impl WindowReader {
    /// Begins to read the window of `height` lines that starts at `start`, or at the end of the file
    /// where `start` lies behind it. A screen without a width counts as one byte wide.
    pub fn new(file_len: u64, start: u64, width: usize, height: usize) -> (reader: Self)
        ensures
            reader.well_formed(),
            reader.file_len() == file_len,
            reader.start() == (if start <= file_len { start } else { file_len }),
            reader.width() == (if width == 0 { 1 } else { width as nat }),
            reader.height() == height,
            reader.received() == Seq::<u8>::empty(),
            !reader.ended(),
            reader.unsettled() == (height > 0),
    {
        let start: u64 = if start <= file_len { start } else { file_len };
        let width: usize = if width == 0 { 1 } else { width };
        let reader = WindowReader {
            start,
            file_len,
            width,
            height,
            lines: Vec::new(),
            bytes: Vec::new(),
            offset: start,
            line_start: start,
            skip_newline: false,
            newlines: 0,
            counts: Vec::new(),
            ended: false,
            received: Ghost(Seq::empty()),
            done: Ghost(Seq::empty()),
        };
        proof {
            let seen = Seq::<u8>::empty();
            assert(reader.received@.take(0) == seen);
            assert(reader.bytes@ == seen.skip(0));
            assert(seen.take(0) == seen);
            assert forall|more: Seq<u8>| #[trigger]
                visual_lines(seen + more, width as nat, start as int, 0) == Seq::<
                    LineModel,
                >::empty() + visual_lines(
                    seen + more,
                    width as nat,
                    start as int,
                    resumes_at(seen + more, 0, false),
                ) by {}
        }
        reader
    }

    /// Whether more of the file is needed.
    pub fn needs_more(&self) -> (yes: bool)
        ensures
            yes == self.unsettled(),
    {
        !self.ended && self.lines.len() < self.height
    }

    /// Where the bytes stand in the file that are needed next.
    pub fn position(&self) -> (offset: u64)
        requires
            self.well_formed(),
            self.unsettled(),
        ensures
            offset == self.start() + self.received().len(),
    {
        self.offset
    }

    /// Takes in the next byte.
    fn take_byte(&mut self, byte: u8)
        requires
            old(self).well_formed(),
            old(self).unsettled(),
            old(self).offset < u64::MAX,
        ensures
            final(self).well_formed(),
            !final(self).ended,
            final(self).start == old(self).start,
            final(self).file_len == old(self).file_len,
            final(self).width == old(self).width,
            final(self).height == old(self).height,
            final(self).offset == old(self).offset + 1,
            final(self).received@ == old(self).received@.push(byte),
    {
        let ghost seen = self.received@;
        let ghost from = self.line_start - self.start;
        let ghost base = self.start as int;
        let ghost width = self.width as nat;
        let ghost done = self.done@;
        let ghost seen2 = seen.push(byte);
        assert(seen.take(self.offset - self.start) == seen);
        assert(seen2.take(self.offset + 1 - self.start) == seen2);
        assert(seen2.drop_last() == seen);
        assert(seen2.take(from) == seen.take(from));
        assert(seen2.take(seen2.len() as int) == seen2);
        proof {
            assert(seen2 == seen + seq![byte]);
            lemma_counts_stay(self.counts@, done, seen, seq![byte], base);
        }
        assert forall|i: int| from <= i < seen.len() implies #[trigger] seen[i] != NEWLINE by {
            assert(seen[i] == self.bytes@[i - from]);
        }

        self.offset += 1;
        self.received = Ghost(seen2);
        if byte == NEWLINE {
            if self.bytes.len() == 0 && self.skip_newline {
                proof {
                    lemma_newline_skipped(seen, done, width, base);
                }
            } else {
                proof {
                    lemma_newline_ends(seen, done, width, base, from);
                }
                if self.bytes.len() > 0 && self.bytes[self.bytes.len() - 1] == CARRIAGE_RETURN {
                    self.bytes.pop();
                }
                let line = visual_line(self.line_start, self.offset, self.bytes.as_slice());
                self.lines.push(line);
                self.counts.push((self.newlines, self.newlines + 1));
                self.done = Ghost(
                    done.push(
                        LineModel {
                            start: base + from,
                            next: base + seen.len() + 1,
                            bytes: without_carriage_return(seen.skip(from)),
                        },
                    ),
                );
            }
            self.newlines += 1;
            self.skip_newline = false;
            self.bytes.clear();
            self.line_start = self.offset;
            assert(self.bytes@ == seen2.skip(self.line_start - self.start));
        } else {
            proof {
                lemma_byte_goes_on(seen, byte, done, width, base, from, self.skip_newline);
            }
            self.skip_newline = false;
            self.bytes.push(byte);
            assert(self.bytes@ == seen2.skip(from));
            if self.bytes.len() >= self.width {
                proof {
                    lemma_line_is_full(seen2, done, width, base, from);
                }
                let line = visual_line(self.line_start, self.offset, self.bytes.as_slice());
                self.lines.push(line);
                self.counts.push((self.newlines, self.newlines));
                self.done = Ghost(
                    done.push(
                        LineModel {
                            start: base + from,
                            next: base + seen2.len(),
                            bytes: seen2.skip(from),
                        },
                    ),
                );
                self.bytes.clear();
                self.line_start = self.offset;
                self.skip_newline = true;
                assert(self.bytes@ == seen2.skip(self.line_start - self.start));
            }
        }
    }

    /// Takes in the next piece of the file. An empty piece says that the file has come to its end.
    /// What comes behind the last line of the screen is left aside.
    pub fn feed(&mut self, piece: &[u8])
        requires
            old(self).well_formed(),
            old(self).unsettled(),
            old(self).start() + old(self).received().len() + piece@.len() <= u64::MAX,
        ensures
            final(self).well_formed(),
            final(self).start() == old(self).start(),
            final(self).file_len() == old(self).file_len(),
            final(self).width() == old(self).width(),
            final(self).height() == old(self).height(),
            final(self).received() == old(self).received() + piece@,
            final(self).ended() == (piece@.len() == 0),
            final(self).unsettled() == (piece@.len() > 0 && complete_lines(
                final(self).received(),
                final(self).width(),
                final(self).start() as int,
            ) < final(self).height()),
    {
        let ghost before = self.received@;
        assert(before.take(self.offset - self.start) == before);
        if piece.len() == 0 {
            let ghost done = self.done@;
            let ghost from = self.line_start - self.start;
            let ghost width = self.width as nat;
            let ghost base = self.start as int;
            proof {
                assert(before + Seq::<u8>::empty() == before);
                assert forall|i: int| from <= i < before.len() implies #[trigger] before[i]
                    != NEWLINE by {
                    assert(before[i] == self.bytes@[i - from]);
                }
                assert(visual_lines(before + Seq::<u8>::empty(), width, base, 0) == done
                    + visual_lines(before, width, base, from));
            }
            if self.bytes.len() > 0 {
                let ghost line = line_at(before, width, base, from);
                proof {
                    lemma_line_ends_at(before, width, from, from, before.len() as int);
                    assert(before.subrange(from, before.len() as int) == self.bytes@);
                    let rest = visual_lines(before, width, base, before.len() as int);
                    assert(next_start(before, width, from) == before.len());
                    assert(rest == Seq::<LineModel>::empty());
                    assert(visual_lines(before, width, base, from) == seq![line] + rest);
                    assert(seq![line] + rest == seq![line]);
                    assert(done + seq![line] == done.push(line));
                }
                let last = visual_line(self.line_start, self.offset, self.bytes.as_slice());
                assert(before.take(before.len() as int) == before);
                self.lines.push(last);
                self.counts.push((self.newlines, self.newlines));
                self.done = Ghost(done.push(line));
            } else {
                assert(visual_lines(before, width, base, from) == Seq::<LineModel>::empty());
                assert(done + Seq::<LineModel>::empty() == done);
            }
            self.ended = true;
            assert(before + piece@ == before);
            return;
        }
        let mut i: usize = 0;
        assert(before + piece@.take(0) == before);
        while i < piece.len() && self.lines.len() < self.height
            invariant
                i <= piece@.len(),
                0 < piece@.len(),
                self.well_formed(),
                !self.ended,
                i == 0 ==> self.lines@.len() < self.height,
                self.start == old(self).start,
                self.file_len == old(self).file_len,
                self.width == old(self).width,
                self.height == old(self).height,
                self.received@ == before + piece@.take(i as int),
                before == old(self).received@,
                self.offset == self.start + before.len() + i,
                self.start + before.len() + piece@.len() <= u64::MAX,
            decreases piece@.len() - i,
        {
            self.take_byte(piece[i]);
            i += 1;
            assert(piece@.take(i as int) == piece@.take(i - 1).push(piece@[i - 1]));
            assert(self.received@ == before + piece@.take(i as int));
        }
        let ghost all = before + piece@;
        proof {
            let count = self.offset - self.start;
            let got = before + piece@.take(i as int);
            assert(got.len() == count);
            assert(got.take(count) =~= got);
            assert(all.take(count) =~= got);
            if self.lines@.len() < self.height {
                assert(piece@.take(i as int) == piece@);
            }
        }
        self.received = Ghost(all);
        proof {
            self.lemma_complete();
        }
    }

    /// The lines that are done are the complete ones, or as many of them as fit on the screen.
    proof fn lemma_complete(&self)
        requires
            self.well_formed(),
            !self.ended,
        ensures
            complete_lines(self.received@, self.width as nat, self.start as int)
                >= self.done@.len(),
            self.lines@.len() < self.height ==> complete_lines(
                self.received@,
                self.width as nat,
                self.start as int,
            ) == self.done@.len(),
    {
        let received = self.received@;
        let width = self.width as nat;
        let base = self.start as int;
        let count = self.offset - self.start;
        let from = self.line_start - self.start;
        let seen = received.take(count);
        let rest = received.skip(count);
        let done = self.done@;
        assert(seen + rest == received);
        let at = resumes_at(received, from, self.skip_newline);
        let behind = visual_lines(received, width, base, at);
        assert(visual_lines(seen + rest, width, base, 0) == done + behind);
        if self.lines@.len() < self.height {
            assert(seen == received);
            if self.bytes@.len() > 0 {
                assert forall|i: int| from <= i < received.len() implies #[trigger] received[i]
                    != NEWLINE by {
                    assert(received[i] == self.bytes@[i - from]);
                }
                lemma_line_ends_at(received, width, from, from, received.len() as int);
                assert(received.last() == self.bytes@.last());
                let tail = visual_lines(received, width, base, received.len() as int);
                assert(next_start(received, width, from) == received.len());
                assert(behind == seq![line_at(received, width, base, from)] + tail);
                assert(behind.last() == line_at(received, width, base, from));
                assert((done + behind).last() == behind.last());
            } else {
                assert(behind.len() == 0);
                assert(done + behind == done);
            }
        } else if behind.len() == 0 {
            assert(done + behind == done);
            if received.last() != NEWLINE && received.len() > 0 {
                assert(at >= received.len());
                assert(received == seen);
                assert(self.bytes@.len() == 0);
            }
        }
    }

    /// Once the window is settled, its lines are all that the content has or all that fit on the
    /// screen, whatever follows.
    proof fn lemma_settled(self)
        requires
            self.well_formed(),
            !self.unsettled(),
        ensures
            window_lines(self.received@, self.width as nat, self.height as nat, self.start as int)
                == self.done@,
            !self.ended ==> forall|more: Seq<u8>| #[trigger]
                window_lines(
                    self.received@ + more,
                    self.width as nat,
                    self.height as nat,
                    self.start as int,
                ) == self.done@,
    {
        let received = self.received@;
        let width = self.width as nat;
        let height = self.height as nat;
        let base = self.start as int;
        let done = self.done@;
        if self.ended {
            assert(window_lines(received, width, height, base) == done);
        } else {
            let count = self.offset - self.start;
            let seen = received.take(count);
            assert forall|more: Seq<u8>| #[trigger]
                window_lines(received + more, width, height, base) == done by {
                let rest = received.skip(count) + more;
                assert(seen + rest == received + more);
                let lines = visual_lines(seen + rest, width, base, 0);
                assert(lines.len() >= height);
                assert(lines.take(height as int) == done);
            }
            assert(received + Seq::<u8>::empty() == received);
            assert(window_lines(received + Seq::<u8>::empty(), width, height, base) == done);
        }
    }

    /// The window, once it is settled.
    pub fn finish(self) -> (window: Window)
        requires
            self.well_formed(),
            !self.unsettled(),
        ensures
            window.start_offset == self.start(),
            window.file_len == self.file_len(),
            lines_are(
                window.lines@,
                window_lines(self.received(), self.width(), self.height(), self.start() as int),
            ),
            !self.ended() ==> forall|more: Seq<u8>| #[trigger]
                window_lines(
                    self.received() + more,
                    self.width(),
                    self.height(),
                    self.start() as int,
                ) == window_lines(
                    self.received(),
                    self.width(),
                    self.height(),
                    self.start() as int,
                ),
    {
        proof {
            self.lemma_settled();
        }
        Window { start_offset: self.start, file_len: self.file_len, lines: self.lines }
    }

    /// The window, once it is settled, with line numbers. `first` is the number of the line in which
    /// the window starts.
    pub fn finish_from_line(self, first: u64) -> (window: NumberedWindow)
        requires
            self.well_formed(),
            !self.unsettled(),
            first + self.received().len() <= u64::MAX,
        ensures
            window.start_offset == self.start(),
            window.file_len == self.file_len(),
            numbered_lines_are(
                window.lines@,
                window_lines(self.received(), self.width(), self.height(), self.start() as int),
                self.received(),
                self.start() as int,
                first as int,
            ),
            !self.ended() ==> forall|more: Seq<u8>| #[trigger]
                window_lines(
                    self.received() + more,
                    self.width(),
                    self.height(),
                    self.start() as int,
                ) == window_lines(
                    self.received(),
                    self.width(),
                    self.height(),
                    self.start() as int,
                ),
    {
        let ghost received = self.received@;
        let ghost base = self.start as int;
        let ghost counts = self.counts@;
        let ghost done = self.done@;
        proof {
            let count = self.offset - self.start;
            lemma_counts_stay(counts, done, received.take(count), received.skip(count), base);
            assert(received.take(count) + received.skip(count) == received);
            assert forall|i: int| 0 <= i < counts.len() implies (#[trigger] counts[i]).0
                <= received.len() && counts[i].1 <= received.len() by {
                lemma_newlines_bound(received.take(done[i].start - base));
                lemma_newlines_bound(received.take(done[i].next - base));
            }
        }
        let ghost models = window_lines(received, self.width(), self.height(), base);
        proof {
            self.lemma_settled();
        }
        let count_pairs = self.counts;
        let shown_lines = self.lines;
        let mut lines: Vec<NumberedLine> = Vec::new();
        let ghost shown = shown_lines@;
        let mut i: usize = 0;
        for line in it: shown_lines
            invariant
                i == it.index(),
                it.seq() == shown,
                i == lines@.len(),
                shown.len() <= usize::MAX,
                count_pairs@ == counts,
                lines_are(shown, models),
                models == done,
                counts_are(counts, done, received, base),
                first + received.len() <= u64::MAX,
                forall|k: int|
                    0 <= k < counts.len() ==> (#[trigger] counts[k]).0 <= received.len()
                        && counts[k].1 <= received.len(),
                forall|k: int|
                    0 <= k < i ==> numbered_line_is(
                        #[trigger] lines@[k],
                        models[k],
                        received,
                        base,
                        first as int,
                    ),
        {
            let (before, behind) = count_pairs[i];
            lines.push(
                NumberedLine {
                    line,
                    line_number: first + before,
                    next_line_number: first + behind,
                },
            );
            i += 1;
        }
        NumberedWindow { start_offset: self.start, file_len: self.file_len, lines }
    }
}

} // verus!
