use vstd::prelude::*;

use crate::back::{previous_start, BACK_SCAN_LIMIT};
use crate::back::{previous_offset, scan_start};
use crate::window::WindowReader;

verus! {

/// How much of a file is read in one go.
pub const READ_CHUNK_SIZE: usize = 8 * 1024;

/// A file that is too large to hold. Only its length is kept; the bytes are asked for as they are
/// needed.
#[derive(Debug, Clone, Copy, PartialEq, Eq, Structural)]
pub struct LargeFile {
    pub len: u64,
}

/// The offset, or the end of the file where it lies behind it.
pub open spec fn clamped(offset: int, len: int) -> int {
    if offset <= len {
        offset
    } else {
        len
    }
}

/// The width of the screen; one without a width counts as one byte wide.
pub open spec fn columns(width: int) -> nat {
    if width <= 0 {
        1
    } else {
        width as nat
    }
}

/// The bytes of a file that are looked at to find the line in front of `offset`.
pub open spec fn scanned(file: Seq<u8>, offset: int) -> Seq<u8> {
    let end = clamped(offset, file.len() as int);
    file.subrange(scan_start(end), end)
}

/// Where the line of the screen in front of `offset` begins in a file.
pub open spec fn previous_in(file: Seq<u8>, offset: int, width: int) -> int {
    previous_offset(
        scanned(file, offset),
        clamped(offset, file.len() as int),
        columns(width),
    )
}

/// Where one comes to in a file by going back from `offset` line by line, `rows` times or up to the
/// start.
pub open spec fn walked_back(file: Seq<u8>, offset: int, width: int, rows: nat) -> int
    decreases rows,
{
    if rows == 0 {
        offset
    } else {
        let previous = previous_in(file, offset, width);
        if previous == 0 {
            0
        } else {
            walked_back(file, previous, width, (rows - 1) as nat)
        }
    }
}

impl LargeFile {
    /// A file of the given length.
    pub fn of_length(len: u64) -> (file: Self)
        ensures
            file.len == len,
    {
        LargeFile { len }
    }

    /// The length of the file in bytes.
    #[must_use]
    pub fn len(&self) -> (len: u64)
        ensures
            len == self.len,
    {
        self.len
    }

    /// Whether the file holds nothing.
    #[must_use]
    pub fn is_empty(&self) -> (empty: bool)
        ensures
            empty == (self.len == 0),
    {
        self.len == 0
    }

    /// Begins to read the window of `height` lines that starts at `start`. The reader says what it
    /// needs of the file, beginning at its position.
    pub fn read_window(&self, start: u64, width: usize, height: usize) -> (reader: WindowReader)
        ensures
            reader.well_formed(),
            reader.file_len() == self.len,
            reader.start() == clamped(start as int, self.len as int),
            reader.width() == columns(width as int),
            reader.start() == (if start <= self.len { start } else { self.len }),
            reader.width() == (if width == 0 { 1 } else { width as nat }),
            reader.height() == height,
            reader.received() == Seq::<u8>::empty(),
            !reader.ended(),
            reader.unsettled() == (height > 0),
    {
        WindowReader::new(self.len, start, width, height)
    }

    /// Which bytes are needed to find the line in front of `offset`: where they begin and how many
    /// they are.
    pub fn back_scan(&self, offset: u64) -> (range: (u64, usize))
        ensures
            range.0 == scan_start(clamped(offset as int, self.len as int)),
            range.0 + range.1 == clamped(offset as int, self.len as int),
            range.1 <= BACK_SCAN_LIMIT,
            range.0 + range.1 == (if offset <= self.len { offset } else { self.len }),
            range.1 == (if range.0 + range.1 <= 1048576 { range.0 + range.1 } else { 1048576 }),
    {
        let end: u64 = if offset <= self.len { offset } else { self.len };
        let first: u64 = if end <= BACK_SCAN_LIMIT { 0 } else { end - BACK_SCAN_LIMIT };
        (first, (end - first) as usize)
    }

    /// Where the line of the screen in front of `offset` begins. `scan` are the bytes that
    /// `back_scan` names.
    pub fn previous_visual_offset(&self, offset: u64, width: usize, scan: &[u8]) -> (start: u64)
        requires
            ({
                let end = clamped(offset as int, self.len as int);
                scan@.len() == end - scan_start(end)
            }),
        ensures
            start == previous_offset(
                scan@,
                clamped(offset as int, self.len as int),
                columns(width as int),
            ),
            forall|file: Seq<u8>|
                file.len() == self.len && scan@ == #[trigger] scanned(file, offset as int)
                    ==> start == previous_in(file, offset as int, width as int),
    {
        let width: usize = if width == 0 { 1 } else { width };
        let end: u64 = if offset <= self.len { offset } else { self.len };
        previous_start(scan, end, width)
    }

    /// Begins to look for the offset at which the last `height` lines of the file start.
    pub fn near_end_offset(&self, width: usize, height: usize) -> (walk: BackwardWalk)
        ensures
            walk.file() == *self,
            walk.offset() == self.len,
            walk.width() == width,
            walk.rows() == height,
    {
        BackwardWalk::new(*self, self.len, width, height)
    }
}

/// A walk back through a file, line by line.
pub struct BackwardWalk {
    file: LargeFile,
    offset: u64,
    width: usize,
    rows: usize,
}

impl BackwardWalk {
    /// The file.
    pub closed spec fn file(&self) -> LargeFile {
        self.file
    }

    /// How far the walk has got.
    pub closed spec fn offset(&self) -> u64 {
        self.offset
    }

    /// The width of the screen.
    pub closed spec fn width(&self) -> usize {
        self.width
    }

    /// How many lines there are still to go.
    pub closed spec fn rows(&self) -> usize {
        self.rows
    }

    /// Where the walk ends if the file holds `content`.
    pub open spec fn destination(&self, content: Seq<u8>) -> int {
        walked_back(content, self.offset() as int, self.width() as int, self.rows() as nat)
    }

    /// Begins a walk of `rows` lines from `offset`.
    pub fn new(file: LargeFile, offset: u64, width: usize, rows: usize) -> (walk: Self)
        ensures
            walk.file() == file,
            walk.offset() == offset,
            walk.width() == width,
            walk.rows() == rows,
    {
        BackwardWalk { file, offset, width, rows }
    }

    /// Which bytes the next step needs: where they begin and how many they are. `None` at the end of
    /// the walk.
    pub fn needed(&self) -> (range: Option<(u64, usize)>)
        ensures
            match range {
                Some((first, count)) => {
                    let end = clamped(self.offset() as int, self.file().len as int);
                    self.rows() > 0 && first == scan_start(end) && first + count == end
                },
                None => self.rows() == 0,
            },
    {
        if self.rows == 0 {
            None
        } else {
            Some(self.file.back_scan(self.offset))
        }
    }

    /// Goes back by one line. `scan` are the bytes that `needed` names. The walk is over when it
    /// comes to the start of the file.
    pub fn step(&mut self, scan: &[u8])
        requires
            old(self).rows() > 0,
            ({
                let end = clamped(old(self).offset() as int, old(self).file().len as int);
                scan@.len() == end - scan_start(end)
            }),
        ensures
            final(self).file() == old(self).file(),
            final(self).width() == old(self).width(),
            final(self).offset() == previous_offset(
                scan@,
                clamped(old(self).offset() as int, old(self).file().len as int),
                columns(old(self).width() as int),
            ),
            final(self).rows() == (if final(self).offset() == 0 {
                0
            } else {
                old(self).rows() - 1
            }),
            forall|content: Seq<u8>|
                content.len() == old(self).file().len && scan@ == #[trigger] scanned(
                    content,
                    old(self).offset() as int,
                ) ==> final(self).destination(content) == old(self).destination(content),
    {
        self.offset = self.file.previous_visual_offset(self.offset, self.width, scan);
        self.rows = if self.offset == 0 { 0 } else { self.rows - 1 };
    }

    /// How far the walk has got; at its end, where it has come to.
    pub fn reached(&self) -> (offset: u64)
        ensures
            offset == self.offset(),
            self.rows() == 0 ==> forall|content: Seq<u8>| #[trigger]
                self.destination(content) == offset,
    {
        self.offset
    }
}

} // verus!
