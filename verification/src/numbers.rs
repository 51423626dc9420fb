use vstd::prelude::*;

use crate::lines::NEWLINE;

verus! {

/// How many newlines `bytes` holds.
pub open spec fn newlines(bytes: Seq<u8>) -> nat
    decreases bytes.len(),
{
    if bytes.len() == 0 {
        0
    } else {
        newlines(bytes.drop_last()) + (if bytes.last() == NEWLINE {
            1nat
        } else {
            0nat
        })
    }
}

/// The number of the line of a file that `offset` stands in; the first line has the number one.
pub open spec fn line_number_at(file: Seq<u8>, offset: int) -> nat {
    1 + newlines(file.take(offset))
}

/// Counts the newlines in a piece of a file.
pub fn count_newlines(piece: &[u8]) -> (count: u64)
    requires
        piece@.len() <= u64::MAX,
    ensures
        count == newlines(piece@),
        count <= piece@.len(),
{
    let mut count: u64 = 0;
    let mut i: usize = 0;
    while i < piece.len()
        invariant
            i <= piece@.len() <= u64::MAX,
            count == newlines(piece@.take(i as int)),
            count <= i,
        decreases piece@.len() - i,
    {
        assert(piece@.take(i + 1).drop_last() == piece@.take(i as int));
        if piece[i] == NEWLINE {
            count += 1;
        }
        i += 1;
    }
    assert(piece@.take(i as int) == piece@);
    count
}

/// The newlines of two pieces are those of the first and those of the second.
pub proof fn law_newlines_add_up(first: Seq<u8>, second: Seq<u8>)
    ensures
        newlines(first + second) == newlines(first) + newlines(second),
    decreases second.len(),
{
    if second.len() == 0 {
        assert(first + second == first);
    } else {
        law_newlines_add_up(first, second.drop_last());
        assert((first + second).drop_last() == first + second.drop_last());
    }
}

/// There are no more newlines than bytes.
pub proof fn lemma_newlines_bound(bytes: Seq<u8>)
    ensures
        newlines(bytes) <= bytes.len(),
    decreases bytes.len(),
{
    if bytes.len() > 0 {
        lemma_newlines_bound(bytes.drop_last());
    }
}

/// The newlines that are counted are the bytes with the value ten, all of them and no others.
pub proof fn law_newlines_are_tens(bytes: Seq<u8>)
    ensures
        newlines(bytes) == bytes.filter(|byte: u8| byte == 10).len(),
    decreases bytes.len(),
{
    reveal(Seq::filter);
    if bytes.len() > 0 {
        law_newlines_are_tens(bytes.drop_last());
    }
}

/// The number of the line of an offset is one more than there are bytes with the value ten in front of
/// it.
pub proof fn law_line_number_counts(file: Seq<u8>, offset: int)
    requires
        0 <= offset <= file.len(),
    ensures
        line_number_at(file, offset) == 1 + file.take(offset).filter(|byte: u8| byte == 10).len(),
{
    law_newlines_are_tens(file.take(offset));
}

/// Where the line with a number is said to begin, it begins: at the start of the file for the first one,
/// else right behind a newline, with one less newline in front than the number says. Only where the file
/// has not so many lines, it is the last one that begins in it.
pub proof fn law_line_begins_behind_its_newlines(file: Seq<u8>, number: nat, start: int)
    requires
        number > 0,
        is_line_start(file, number, start),
    ensures
        start == 0 || 0 < start < file.len() && file[start - 1] == 10,
        file.take(start).filter(|byte: u8| byte == 10).len() <= number - 1,
        file.take(start).filter(|byte: u8| byte == 10).len() < number - 1 ==> forall|k: int|
            start <= k < file.len() - 1 ==> #[trigger] file[k] != 10,
{
    law_newlines_are_tens(file.take(start));
    if line_number_at(file, start) < number {
        assert forall|k: int| start <= k < file.len() - 1 implies #[trigger] file[k] != 10 by {
            if file[k] == 10 {
                lemma_next_newline(file, start, k);
            }
        }
    }
}

/// Behind an offset with a newline behind it begins a line with the next number.
proof fn lemma_next_newline(file: Seq<u8>, start: int, k: int)
    requires
        0 <= start <= k < file.len() - 1,
        file[k] == NEWLINE,
    ensures
        exists|other: int|
            start < other && #[trigger] begins_line(file, other) && line_number_at(file, other)
                == line_number_at(file, start) + 1,
    decreases k - start,
{
    if exists|j: int| start <= j < k && #[trigger] file[j] == NEWLINE {
        let j = choose|j: int| start <= j < k && #[trigger] file[j] == NEWLINE;
        lemma_next_newline(file, start, j);
    } else {
        let between = file.subrange(start, k);
        lemma_none_between(between);
        law_newlines_add_up(file.take(start), between);
        assert(file.take(start) + between == file.take(k));
        assert(file.take(k + 1).drop_last() == file.take(k));
        assert(begins_line(file, k + 1));
    }
}

proof fn lemma_none_between(bytes: Seq<u8>)
    requires
        forall|i: int| 0 <= i < bytes.len() ==> #[trigger] bytes[i] != NEWLINE,
    ensures
        newlines(bytes) == 0,
    decreases bytes.len(),
{
    if bytes.len() > 0 {
        lemma_none_between(bytes.drop_last());
    }
}

/// A later offset stands in no earlier line.
pub proof fn law_line_numbers_grow(file: Seq<u8>, offset: int, later: int)
    requires
        0 <= offset <= later <= file.len(),
    ensures
        line_number_at(file, offset) <= line_number_at(file, later),
{
    law_newlines_add_up(file.take(offset), file.subrange(offset, later));
    assert(file.take(offset) + file.subrange(offset, later) == file.take(later));
}

/// Finds the number of the line in which an offset stands, out of the pieces of the file up to it.
pub struct LineCounter {
    number: u64,
    received: Ghost<Seq<u8>>,
}

impl LineCounter {
    /// All the bytes that were handed over.
    pub closed spec fn received(&self) -> Seq<u8> {
        self.received@
    }

    /// What holds of every counter.
    pub closed spec fn well_formed(&self) -> bool {
        self.number == 1 + newlines(self.received@)
    }

    /// Begins at the start of a file.
    pub fn new() -> (counter: Self)
        ensures
            counter.well_formed(),
            counter.received() == Seq::<u8>::empty(),
    {
        LineCounter { number: 1, received: Ghost(Seq::empty()) }
    }

    /// Takes in the next piece of the file.
    pub fn feed(&mut self, piece: &[u8])
        requires
            old(self).well_formed(),
            old(self).received().len() + piece@.len() < u64::MAX,
        ensures
            final(self).well_formed(),
            final(self).received() == old(self).received() + piece@,
    {
        proof {
            law_newlines_add_up(self.received@, piece@);
            lemma_newlines_bound(self.received@);
        }
        self.number += count_newlines(piece);
        self.received = Ghost(self.received@ + piece@);
    }

    /// The number of the line that the end of what was handed over stands in, whatever follows.
    pub fn number(&self) -> (number: u64)
        requires
            self.well_formed(),
        ensures
            number == line_number_at(self.received(), self.received().len() as int),
            forall|more: Seq<u8>|
                number == #[trigger] line_number_at(
                    self.received() + more,
                    self.received().len() as int,
                ),
    {
        proof {
            let received = self.received@;
            assert(received.take(received.len() as int) == received);
            assert forall|more: Seq<u8>|
                self.number == #[trigger] line_number_at(
                    received + more,
                    received.len() as int,
                ) by {
                assert((received + more).take(received.len() as int) == received);
            }
        }
        self.number
    }
}

/// Whether a line begins at `offset`: at the start of the file, or behind a newline that is not its
/// last byte.
pub open spec fn begins_line(file: Seq<u8>, offset: int) -> bool {
    offset == 0 || 0 < offset < file.len() && file[offset - 1] == NEWLINE
}

/// Whether `start` is where the line with the number `number` begins, or where the last line begins if
/// there are not so many: the last place at which a line begins that has no greater number.
pub open spec fn is_line_start(file: Seq<u8>, number: nat, start: int) -> bool {
    &&& begins_line(file, start)
    &&& line_number_at(file, start) <= number
    &&& forall|other: int|
        start < other && #[trigger] begins_line(file, other) ==> line_number_at(file, other)
            > number
}

/// Whether a file has a line with the number.
pub open spec fn has_line(file: Seq<u8>, number: nat) -> bool {
    exists|start: int| #[trigger] begins_line(file, start) && line_number_at(file, start) == number
}

/// Looks for the beginning of a line in the pieces of a file as they come in.
pub struct LineSeeker {
    number: u64,
    current: u64,
    start: u64,
    offset: u64,
    behind_newline: bool,
    received: Ghost<Seq<u8>>,
}

/// A line that begins in `file` begins at the same place if more follows, and has the same number.
proof fn lemma_line_stays(file: Seq<u8>, more: Seq<u8>, offset: int)
    requires
        0 <= offset <= file.len(),
    ensures
        line_number_at(file + more, offset) == line_number_at(file, offset),
        begins_line(file, offset) ==> begins_line(file + more, offset),
        begins_line(file + more, offset) && offset < file.len() ==> begins_line(file, offset),
{
    assert((file + more).take(offset) == file.take(offset));
}

impl LineSeeker {
    /// All the bytes that were handed over.
    pub closed spec fn received(&self) -> Seq<u8> {
        self.received@
    }

    /// The number of the line that is looked for, at least one.
    pub closed spec fn number(&self) -> u64 {
        self.number
    }

    /// Whether the line has not been found yet.
    pub closed spec fn searching(&self) -> bool {
        self.current < self.number
    }

    /// What holds of every seeker.
    pub closed spec fn well_formed(&self) -> bool {
        let file = self.received@;
        &&& 1 <= self.current <= self.number
        &&& self.start <= self.offset
        &&& begins_line(file, self.start as int)
        &&& self.current == line_number_at(file, self.start as int)
        &&& self.offset <= file.len()
        &&& self.current < self.number ==> {
            &&& self.offset == file.len()
            &&& self.behind_newline == (file.len() > 0 && file.last() == NEWLINE)
            &&& forall|other: int| self.start < other ==> !#[trigger] begins_line(file, other)
            &&& line_number_at(file, file.len() as int) == self.current + (if self.behind_newline {
                1nat
            } else {
                0nat
            })
        }
    }

    /// Begins to look for the line with the given number; the first line has the number one, and so
    /// has the line number zero.
    pub fn new(number: u64) -> (seeker: Self)
        ensures
            seeker.well_formed(),
            seeker.number() == (if number == 0 { 1 } else { number }),
            seeker.received() == Seq::<u8>::empty(),
            seeker.searching() == (number > 1),
    {
        assert(Seq::<u8>::empty().take(0) == Seq::<u8>::empty());
        LineSeeker {
            number: if number == 0 { 1 } else { number },
            current: 1,
            start: 0,
            offset: 0,
            behind_newline: false,
            received: Ghost(Seq::empty()),
        }
    }

    /// Whether more of the file is needed.
    pub fn needs_more(&self) -> (yes: bool)
        ensures
            yes == self.searching(),
    {
        self.current < self.number
    }

    /// Takes in the next byte.
    fn take_byte(&mut self, byte: u8)
        requires
            old(self).well_formed(),
            old(self).searching(),
            old(self).offset < u64::MAX,
        ensures
            final(self).well_formed(),
            final(self).number == old(self).number,
            final(self).offset == old(self).offset + 1,
            final(self).received@ == old(self).received@.push(byte),
    {
        let ghost before = self.received@;
        let ghost after = before.push(byte);
        proof {
            assert(after == before + seq![byte]);
            assert(before.take(before.len() as int) == before);
            assert(after.take(after.len() as int) == after);
            assert(after.take(after.len() as int).drop_last() == before);
            assert forall|offset: int| 0 <= offset <= before.len() implies line_number_at(
                after,
                offset,
            ) == #[trigger] line_number_at(before, offset) by {
                lemma_line_stays(before, seq![byte], offset);
            }
            assert forall|other: int| self.start < other && #[trigger] begins_line(
                after,
                other,
            ) implies other == before.len() && self.behind_newline by {
                if other < before.len() {
                    assert(begins_line(before, other));
                }
            }
        }
        if self.behind_newline {
            self.start = self.offset;
            self.current += 1;
        }
        self.behind_newline = byte == NEWLINE;
        self.offset += 1;
        self.received = Ghost(after);
    }

    /// Takes in the next piece of the file. What comes behind the line that is looked for is left
    /// aside.
    pub fn feed(&mut self, piece: &[u8])
        requires
            old(self).well_formed(),
            old(self).searching(),
            old(self).received().len() + piece@.len() <= u64::MAX,
        ensures
            final(self).well_formed(),
            final(self).number() == old(self).number(),
            final(self).received() == old(self).received() + piece@,
            final(self).searching() == !has_line(
                final(self).received(),
                final(self).number() as nat,
            ),
    {
        let ghost before = self.received@;
        let mut i: usize = 0;
        assert(before + piece@.take(0) == before);
        while i < piece.len() && self.current < self.number
            invariant
                i <= piece@.len(),
                self.well_formed(),
                self.number == old(self).number,
                self.received@ == before + piece@.take(i as int),
                self.offset == before.len() + i,
                before.len() + piece@.len() <= u64::MAX,
            decreases piece@.len() - i,
        {
            self.take_byte(piece[i]);
            i += 1;
            assert(piece@.take(i as int) == piece@.take(i - 1).push(piece@[i - 1]));
            assert(self.received@ == before + piece@.take(i as int));
        }
        let ghost got = before + piece@.take(i as int);
        let ghost all = before + piece@;
        proof {
            assert(piece@.take(i as int) + piece@.skip(i as int) == piece@);
            assert(all == got + piece@.skip(i as int));
            lemma_line_stays(got, piece@.skip(i as int), self.start as int);
            if self.current < self.number {
                assert(all == got);
            }
        }
        self.received = Ghost(all);
        proof {
            if self.current < self.number {
                assert forall|other: int| #[trigger] begins_line(all, other) implies line_number_at(
                    all,
                    other,
                ) < self.number by {
                    law_line_numbers_grow(all, other, self.start as int);
                }
            }
        }
    }

    /// Where the line begins. If the whole file was handed over and the line was not found, there is
    /// no such line, and it is where the last one begins.
    pub fn found(&self) -> (start: u64)
        requires
            self.well_formed(),
        ensures
            is_line_start(self.received(), self.number() as nat, start as int),
            !self.searching() ==> forall|more: Seq<u8>| #[trigger]
                is_line_start(self.received() + more, self.number() as nat, start as int),
            !self.searching() ==> line_number_at(self.received(), start as int) == self.number(),
    {
        proof {
            let file = self.received@;
            let start = self.start as int;
            if self.current == self.number {
                assert forall|more: Seq<u8>| #[trigger]
                    is_line_start(file + more, self.number as nat, start) by {
                    let whole = file + more;
                    lemma_line_stays(file, more, start);
                    assert forall|other: int| start < other && #[trigger] begins_line(
                        whole,
                        other,
                    ) implies line_number_at(whole, other) > self.number by {
                        law_line_numbers_grow(whole, start, other - 1);
                        assert(whole.take(other).drop_last() == whole.take(other - 1));
                    }
                }
                assert(file + Seq::<u8>::empty() == file);
                assert(is_line_start(file + Seq::<u8>::empty(), self.number as nat, start));
            }
        }
        self.start
    }
}

} // verus!
