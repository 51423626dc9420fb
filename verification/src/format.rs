use vstd::prelude::*;

use crate::lines::NEWLINE;

verus! {

pub const BLANK: u8 = 32;

pub const QUOTE: u8 = 34;

pub const COMMA: u8 = 44;

pub const COLON: u8 = 58;

pub const BACKSLASH: u8 = 92;

/// Space, tab, newline and carriage return.
pub open spec fn is_blank(byte: u8) -> bool {
    byte == 32 || byte == 9 || byte == 10 || byte == 13
}

/// `{` and `[`.
pub open spec fn is_opening(byte: u8) -> bool {
    byte == 123 || byte == 91
}

/// `}` and `]`.
pub open spec fn is_closing(byte: u8) -> bool {
    byte == 125 || byte == 93
}

/// What is known of a text of JSON at a place: whether it stands in a string and behind a backslash in
/// it, whether it stands behind blanks, and whether a value, or a part of one, has come last.
#[verifier::ext_equal]
pub struct Place {
    pub in_string: bool,
    pub escaped: bool,
    pub behind_blanks: bool,
    pub behind_value: bool,
}

/// The start of a text.
pub open spec fn text_start() -> Place {
    Place { in_string: false, escaped: false, behind_blanks: false, behind_value: false }
}

impl Place {
    /// The place behind one more byte.
    pub open spec fn behind(self, byte: u8) -> Place {
        if self.in_string {
            Place {
                in_string: self.escaped || byte != QUOTE,
                escaped: !self.escaped && byte == BACKSLASH,
                ..self
            }
        } else if is_blank(byte) {
            Place { behind_blanks: true, ..self }
        } else {
            Place {
                in_string: byte == QUOTE,
                escaped: false,
                behind_blanks: false,
                behind_value: !is_opening(byte) && byte != COMMA && byte != COLON,
            }
        }
    }

    /// Whether only blanks part the byte from the value in front of it.
    pub open spec fn parted_from(self, byte: u8) -> bool {
        &&& !self.in_string
        &&& self.behind_blanks
        &&& self.behind_value
        &&& !is_blank(byte)
        &&& !is_closing(byte)
        &&& byte != COMMA
        &&& byte != COLON
    }
}

/// The place at the end of a text.
pub open spec fn place_behind(text: Seq<u8>) -> Place
    decreases text.len(),
{
    if text.len() == 0 {
        text_start()
    } else {
        place_behind(text.drop_last()).behind(text.last())
    }
}

/// A text without the blanks that mean nothing: outside of the strings there is one only where nothing
/// else parts two values.
pub open spec fn compacted(text: Seq<u8>) -> Seq<u8>
    decreases text.len(),
{
    if text.len() == 0 {
        Seq::empty()
    } else {
        let front = compacted(text.drop_last());
        let place = place_behind(text.drop_last());
        let byte = text.last();
        if !place.in_string && is_blank(byte) {
            front
        } else if place.parted_from(byte) {
            front + seq![BLANK, byte]
        } else {
            front.push(byte)
        }
    }
}

/// How deep the containers are nested at the end of a text, and whether one has just been opened.
pub open spec fn nesting(text: Seq<u8>) -> (nat, bool)
    decreases text.len(),
{
    if text.len() == 0 {
        (0, false)
    } else {
        let (depth, opened) = nesting(text.drop_last());
        let byte = text.last();
        if place_behind(text.drop_last()).in_string || is_blank(byte) {
            (depth, opened)
        } else if is_opening(byte) {
            (depth + 1, true)
        } else if is_closing(byte) {
            (less_one(depth), false)
        } else {
            (depth, false)
        }
    }
}

/// One less, but not less than nothing.
pub open spec fn less_one(depth: nat) -> nat {
    if depth == 0 {
        0
    } else {
        (depth - 1) as nat
    }
}

/// A new line, indented by two blanks for each container that is open.
pub open spec fn line_break(depth: nat) -> Seq<u8> {
    seq![NEWLINE] + Seq::new(2 * depth, |i: int| BLANK)
}

/// What stands in front of a byte of a formatted text: a new line in front of the first value in a
/// container, of a bracket that closes one that is not empty, and between values that blanks part.
pub open spec fn break_before(text: Seq<u8>, byte: u8) -> Seq<u8> {
    let (depth, opened) = nesting(text);
    let place = place_behind(text);
    if place.in_string || is_blank(byte) {
        Seq::empty()
    } else if is_closing(byte) {
        if opened {
            Seq::empty()
        } else {
            line_break(less_one(depth))
        }
    } else if opened || place.parted_from(byte) {
        line_break(depth)
    } else {
        Seq::empty()
    }
}

/// What stands behind a byte of a formatted text: a new line behind a comma, a blank behind a colon.
pub open spec fn break_after(text: Seq<u8>, byte: u8) -> Seq<u8> {
    if place_behind(text).in_string {
        Seq::empty()
    } else if byte == COMMA {
        line_break(nesting(text).0)
    } else if byte == COLON {
        seq![BLANK]
    } else {
        Seq::empty()
    }
}

/// What a byte behind a text adds to the formatted text. Blanks outside of strings are left out.
pub open spec fn formatted_byte(text: Seq<u8>, byte: u8) -> Seq<u8> {
    if !place_behind(text).in_string && is_blank(byte) {
        Seq::empty()
    } else {
        break_before(text, byte).push(byte) + break_after(text, byte)
    }
}

/// A text of JSON with each value on a line of its own, indented by the containers that it stands in.
pub open spec fn formatted(text: Seq<u8>) -> Seq<u8>
    decreases text.len(),
{
    if text.len() == 0 {
        Seq::empty()
    } else {
        formatted(text.drop_last()) + formatted_byte(text.drop_last(), text.last())
    }
}

/// Blanks at the end of a text, outside of a string, mean nothing.
proof fn lemma_blanks(text: Seq<u8>, blanks: Seq<u8>)
    requires
        !place_behind(text).in_string,
        forall|i: int| 0 <= i < blanks.len() ==> is_blank(#[trigger] blanks[i]),
    ensures
        compacted(text + blanks) == compacted(text),
        place_behind(text + blanks) == (if blanks.len() == 0 {
            place_behind(text)
        } else {
            Place { behind_blanks: true, ..place_behind(text) }
        }),
    decreases blanks.len(),
{
    if blanks.len() == 0 {
        assert(text + blanks == text);
    } else {
        lemma_blanks(text, blanks.drop_last());
        assert((text + blanks).drop_last() == text + blanks.drop_last());
        assert((text + blanks).last() == blanks.last());
    }
}

/// A new line and its indentation are blanks.
proof fn lemma_line_break(depth: nat)
    ensures
        forall|i: int| 0 <= i < line_break(depth).len() ==> is_blank(#[trigger] line_break(depth)[i]),
{
}

/// The end of a formatted text is the same place as that of the text, but for the blanks.
proof fn lemma_formatted_place(text: Seq<u8>)
    ensures
        compacted(formatted(text)) == compacted(text),
        place_behind(formatted(text)).in_string == place_behind(text).in_string,
        place_behind(formatted(text)).escaped == place_behind(text).escaped,
        place_behind(formatted(text)).behind_value == place_behind(text).behind_value,
        place_behind(formatted(text)).behind_blanks ==> !place_behind(text).in_string
            && !place_behind(text).behind_value,
    decreases text.len(),
{
    if text.len() > 0 {
        let front = text.drop_last();
        let byte = text.last();
        lemma_formatted_place(front);
        let done = formatted(front);
        let place = place_behind(front);
        let before = break_before(front, byte);
        let after = break_after(front, byte);
        let (depth, opened) = nesting(front);
        lemma_line_break(depth);
        lemma_line_break(less_one(depth));
        if place.in_string {
            assert(formatted(text) == done.push(byte));
            assert(done.push(byte).drop_last() == done);
        } else if is_blank(byte) {
            assert(formatted(text) == done);
        } else {
            lemma_blanks(done, before);
            let broken = done + before;
            let written = broken.push(byte);
            assert(written.drop_last() == broken);
            assert(formatted(text) == written + after);
            lemma_opened(front);
            assert(place_behind(broken).parted_from(byte) == place.parted_from(byte));
            if after.len() > 0 {
                lemma_blanks(written, after);
            } else {
                assert(written + after == written);
            }
        }
    }
}

/// Right behind an opening bracket no value has come last.
pub proof fn lemma_opened(text: Seq<u8>)
    ensures
        nesting(text).1 ==> !place_behind(text).behind_value && !place_behind(text).in_string,
        nesting(text).0 <= text.len(),
    decreases text.len(),
{
    if text.len() > 0 {
        lemma_opened(text.drop_last());
    }
}

/// Formatting changes nothing but the blanks that mean nothing.
pub proof fn law_formatting_keeps_the_values(text: Seq<u8>)
    ensures
        compacted(formatted(text)) == compacted(text),
{
    lemma_formatted_place(text);
}

/// Formats the pieces of a text of JSON as they come in.
pub struct Formatter {
    in_string: bool,
    escaped: bool,
    behind_blanks: bool,
    behind_value: bool,
    opened: bool,
    depth: u64,
    received: Ghost<Seq<u8>>,
}

impl Formatter {
    /// All the bytes that were handed over.
    pub closed spec fn received(&self) -> Seq<u8> {
        self.received@
    }

    /// What holds of every formatter.
    pub closed spec fn well_formed(&self) -> bool {
        &&& place_behind(self.received@) == (Place {
            in_string: self.in_string,
            escaped: self.escaped,
            behind_blanks: self.behind_blanks,
            behind_value: self.behind_value,
        })
        &&& nesting(self.received@) == (self.depth as nat, self.opened)
    }

    /// Begins a text.
    pub fn new() -> (formatter: Self)
        ensures
            formatter.well_formed(),
            formatter.received() == Seq::<u8>::empty(),
    {
        Formatter {
            in_string: false,
            escaped: false,
            behind_blanks: false,
            behind_value: false,
            opened: false,
            depth: 0,
            received: Ghost(Seq::empty()),
        }
    }

    /// Writes a new line.
    fn push_line_break(out: &mut Vec<u8>, depth: u64)
        ensures
            final(out)@ == old(out)@ + line_break(depth as nat),
    {
        out.push(NEWLINE);
        let ghost start = out@;
        let mut level: u64 = 0;
        assert(start + Seq::new(0, |i: int| BLANK) == start);
        while level < depth
            invariant
                level <= depth,
                out@ == start + Seq::new(2 * level as nat, |i: int| BLANK),
            decreases depth - level,
        {
            out.push(BLANK);
            out.push(BLANK);
            level += 1;
            assert(out@ == start + Seq::new(2 * level as nat, |i: int| BLANK));
        }
        assert(out@ == old(out)@ + line_break(depth as nat));
    }

    /// Takes in the next byte, and writes what it adds to the formatted text.
    fn take_byte(&mut self, byte: u8, out: &mut Vec<u8>)
        requires
            old(self).well_formed(),
            old(self).received@.len() < u64::MAX,
        ensures
            final(self).well_formed(),
            final(self).received@ == old(self).received@.push(byte),
            final(out)@ == old(out)@ + formatted_byte(old(self).received@, byte),
    {
        let ghost before = self.received@;
        let ghost written = out@;
        proof {
            lemma_opened(before);
            assert(before.push(byte).drop_last() == before);
        }
        self.received = Ghost(before.push(byte));
        if self.in_string {
            out.push(byte);
            self.in_string = self.escaped || byte != QUOTE;
            self.escaped = !self.escaped && byte == BACKSLASH;
            assert(out@ == written + formatted_byte(before, byte));
            return;
        }
        if byte == 32 || byte == 9 || byte == 10 || byte == 13 {
            self.behind_blanks = true;
            assert(out@ == written + formatted_byte(before, byte));
            return;
        }
        let opening = byte == 123 || byte == 91;
        let closing = byte == 125 || byte == 93;
        let separator = byte == COMMA || byte == COLON;
        if closing {
            if self.depth > 0 {
                self.depth -= 1;
            }
            if !self.opened {
                Self::push_line_break(out, self.depth);
            }
        } else if self.opened || (self.behind_blanks && self.behind_value && !separator) {
            Self::push_line_break(out, self.depth);
        }
        assert(out@ == written + break_before(before, byte));
        out.push(byte);
        if byte == COMMA {
            Self::push_line_break(out, self.depth);
        } else if byte == COLON {
            out.push(BLANK);
        }
        assert(out@ == written + formatted_byte(before, byte));
        if opening {
            self.depth += 1;
        }
        self.opened = opening;
        self.in_string = byte == QUOTE;
        self.escaped = false;
        self.behind_blanks = false;
        self.behind_value = !opening && !separator;
    }

    /// Takes in the next piece of the text, and returns what it adds to the formatted text.
    pub fn feed(&mut self, piece: &[u8]) -> (out: Vec<u8>)
        requires
            old(self).well_formed(),
            old(self).received().len() + piece@.len() <= u64::MAX,
        ensures
            final(self).well_formed(),
            final(self).received() == old(self).received() + piece@,
            formatted(final(self).received()) == formatted(old(self).received()) + out@,
    {
        let ghost before = self.received@;
        let mut out: Vec<u8> = Vec::new();
        let mut i: usize = 0;
        assert(before + piece@.take(0) == before);
        while i < piece.len()
            invariant
                i <= piece@.len(),
                self.well_formed(),
                before.len() + piece@.len() <= u64::MAX,
                self.received@ == before + piece@.take(i as int),
                formatted(self.received@) == formatted(before) + out@,
            decreases piece@.len() - i,
        {
            let ghost got = self.received@;
            self.take_byte(piece[i], &mut out);
            i += 1;
            assert(piece@.take(i as int) == piece@.take(i - 1).push(piece@[i - 1]));
            assert(self.received@ == before + piece@.take(i as int));
            assert(self.received@.drop_last() == got);
            assert(formatted(self.received@) == formatted(before) + out@);
        }
        assert(piece@.take(i as int) == piece@);
        out
    }
}

} // verus!
