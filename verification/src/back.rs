use vstd::prelude::*;

use crate::lines::NEWLINE;
use crate::lines::{lemma_next_start, line_end, next_start, visual_lines};

verus! {

/// How many bytes in front of an offset are looked at to find the line in front of it.
pub const BACK_SCAN_LIMIT: u64 = 1024 * 1024;

/// Where the bytes begin that are looked at to find the line in front of `offset`.
pub open spec fn scan_start(offset: int) -> int {
    if offset <= BACK_SCAN_LIMIT {
        0
    } else {
        offset - BACK_SCAN_LIMIT
    }
}

/// Where the first newline stands in `bytes` from `at` on, or their length where there is none.
pub open spec fn newline_from(bytes: Seq<u8>, at: int) -> int
    decreases bytes.len() - at,
{
    if at >= bytes.len() || bytes[at] == NEWLINE {
        at
    } else {
        newline_from(bytes, at + 1)
    }
}

/// The first place in the bytes in front of `offset` at which a line is known to begin: the start of
/// the file, or behind the first newline.
pub open spec fn known_start(scan: Seq<u8>, offset: int) -> int {
    if scan.len() == offset {
        0
    } else {
        newline_from(scan, 0) + 1
    }
}

/// Where the line of the screen in front of `offset` begins, as far as `scan`, the bytes in front of
/// it, shows. Where it shows no beginning of a line, the line is taken to be of the full width.
pub open spec fn previous_offset(scan: Seq<u8>, offset: int, width: nat) -> int {
    let known = known_start(scan, offset);
    if scan.len() == 0 {
        0
    } else if known < scan.len() {
        visual_lines(scan, width, offset - scan.len(), known).last().start
    } else if offset > width {
        offset - width
    } else {
        0
    }
}

/// The lines from `from` on begin at or behind `from`, in front of the end, the first at `from`.
pub proof fn lemma_first_line(content: Seq<u8>, width: nat, base: int, from: int)
    requires
        0 <= from < content.len(),
        width > 0,
    ensures
        visual_lines(content, width, base, from).len() > 0,
        visual_lines(content, width, base, from)[0].start == base + from,
        base + from <= visual_lines(content, width, base, from).last().start < base
            + content.len(),
        next_start(content, width, from) >= content.len() ==> visual_lines(
            content,
            width,
            base,
            from,
        ).last().start == base + from,
        next_start(content, width, from) < content.len() ==> visual_lines(
            content,
            width,
            base,
            from,
        ).last() == visual_lines(
            content,
            width,
            base,
            next_start(content, width, from),
        ).last(),
    decreases content.len() - from,
{
    lemma_next_start(content, width, from);
    let next = next_start(content, width, from);
    if next < content.len() {
        lemma_first_line(content, width, base, next);
    } else {
        assert(visual_lines(content, width, base, next).len() == 0);
    }
}

/// Where the line behind the one at `from` begins.
fn line_behind(content: &[u8], width: usize, from: usize) -> (next: usize)
    requires
        from < content@.len(),
        width > 0,
    ensures
        next == next_start(content@, width as nat, from as int),
{
    let mut end: usize = from;
    while end < content.len() && end - from < width && content[end] != NEWLINE
        invariant
            from <= end <= content@.len(),
            end - from <= width,
            line_end(content@, width as nat, from as int, end as int) == line_end(
                content@,
                width as nat,
                from as int,
                from as int,
            ),
        decreases content@.len() - end,
    {
        end += 1;
    }
    if end < content.len() && content[end] == NEWLINE {
        end + 1
    } else {
        end
    }
}

/// Where the first newline stands, or the length where there is none.
fn find_newline(bytes: &[u8]) -> (at: usize)
    ensures
        at == newline_from(bytes@, 0),
        at <= bytes@.len(),
{
    let mut at: usize = 0;
    while at < bytes.len() && bytes[at] != NEWLINE
        invariant
            at <= bytes@.len(),
            newline_from(bytes@, at as int) == newline_from(bytes@, 0),
        decreases bytes@.len() - at,
    {
        at += 1;
    }
    at
}

/// Finds where the line of the screen in front of `offset` begins, in `scan`, the bytes in front of
/// it.
pub fn previous_start(scan: &[u8], offset: u64, width: usize) -> (start: u64)
    requires
        scan@.len() <= offset,
        width > 0,
    ensures
        start == previous_offset(scan@, offset as int, width as nat),
        scan@.len() > 0 ==> start < offset,
{
    if scan.len() == 0 {
        return 0;
    }
    let first: u64 = offset - scan.len() as u64;
    let known: usize = if first == 0 {
        0
    } else {
        let newline = find_newline(scan);
        if newline >= scan.len() - 1 {
            return if offset > width as u64 { offset - width as u64 } else { 0 };
        }
        newline + 1
    };
    let ghost base = first as int;
    let mut from: usize = known;
    proof {
        lemma_first_line(scan@, width as nat, base, known as int);
    }
    loop
        invariant
            known <= from < scan@.len(),
            width > 0,
            base == first,
            visual_lines(scan@, width as nat, base, known as int).last() == visual_lines(
                scan@,
                width as nat,
                base,
                from as int,
            ).last(),
        ensures
            from < scan@.len(),
            visual_lines(scan@, width as nat, base, known as int).last().start == base + from,
        decreases scan@.len() - from,
    {
        proof {
            lemma_first_line(scan@, width as nat, base, from as int);
            lemma_next_start(scan@, width as nat, from as int);
        }
        let next = line_behind(scan, width, from);
        if next >= scan.len() {
            break;
        }
        from = next;
    }
    first + from as u64
}

} // verus!
