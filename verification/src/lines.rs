use vstd::prelude::*;
use vstd::utf8::{decode_utf8, valid_utf8};

verus! {

pub const NEWLINE: u8 = 10;

pub const CARRIAGE_RETURN: u8 = 13;

/// A line of the screen: a stretch of the file and the text that shows it.
#[derive(Debug, Clone, PartialEq, Eq)]
pub struct VisualLine {
    pub start_offset: u64,
    pub next_offset: u64,
    pub text: String,
}

/// The text that the standard library makes of bytes that need not be UTF-8.
pub uninterp spec fn lossy_text(bytes: Seq<u8>) -> Seq<char>;

/// Whether bytes hold no newline.
pub open spec fn on_one_line(bytes: Seq<u8>) -> bool {
    forall|i: int| 0 <= i < bytes.len() ==> #[trigger] bytes[i] != NEWLINE
}

/// Whether a text holds no newline.
pub open spec fn text_on_one_line(text: Seq<char>) -> bool {
    forall|i: int| 0 <= i < text.len() ==> #[trigger] text[i] != '\n'
}

/// Calls `String::from_utf8_lossy`. What it returns depends on the bytes alone, and where they are
/// UTF-8 it is the text that they encode. A replacement character stands for each sequence that is not
/// UTF-8, so that there are no more characters than bytes, and a newline only where one of the bytes
/// is one. How bytes that are not UTF-8 are cut into sequences is left unsaid.
#[verifier::external_body]
fn decode_lossy(bytes: &[u8]) -> (text: String)
    ensures
        text@ == lossy_text(bytes@),
        valid_utf8(bytes@) ==> text@ == decode_utf8(bytes@),
        text@.len() <= bytes@.len(),
        on_one_line(bytes@) ==> text_on_one_line(text@),
{
    String::from_utf8_lossy(bytes).into_owned()
}

/// Where a line of the screen stands in the file, and the bytes that it shows.
pub struct LineModel {
    pub start: int,
    pub next: int,
    pub bytes: Seq<u8>,
}

/// Whether a line shows what the model says.
pub open spec fn line_is(line: VisualLine, model: LineModel) -> bool {
    &&& line.start_offset == model.start
    &&& line.next_offset == model.next
    &&& line.text@ == lossy_text(model.bytes)
    &&& valid_utf8(model.bytes) ==> line.text@ == decode_utf8(model.bytes)
    &&& line.text@.len() <= model.bytes.len()
    &&& on_one_line(model.bytes) ==> text_on_one_line(line.text@)
}

/// Whether the lines show, one by one, what the models say.
pub open spec fn lines_are(lines: Seq<VisualLine>, models: Seq<LineModel>) -> bool {
    &&& lines.len() == models.len()
    &&& forall|i: int| 0 <= i < lines.len() ==> line_is(#[trigger] lines[i], models[i])
}

/// Makes a line of the screen out of the bytes that it shows.
pub fn visual_line(start_offset: u64, next_offset: u64, bytes: &[u8]) -> (line: VisualLine)
    ensures
        line_is(
            line,
            (LineModel { start: start_offset as int, next: next_offset as int, bytes: bytes@ }),
        ),
{
    VisualLine { start_offset, next_offset, text: decode_lossy(bytes) }
}

/// Where the line of the screen that begins at `from` ends: at the next newline, at the end of the
/// content, or `width` bytes on, whichever comes first. It is sought from `at` on.
pub open spec fn line_end(content: Seq<u8>, width: nat, from: int, at: int) -> int
    decreases content.len() - at,
{
    if at >= content.len() || at - from >= width || content[at] == NEWLINE {
        at
    } else {
        line_end(content, width, from, at + 1)
    }
}

/// A line that a carriage return and a newline end shows neither.
pub open spec fn without_carriage_return(bytes: Seq<u8>) -> Seq<u8> {
    if bytes.len() > 0 && bytes.last() == CARRIAGE_RETURN {
        bytes.drop_last()
    } else {
        bytes
    }
}

/// The line of the screen that begins at `from`. The content stands in the file at `base`. A line of
/// the full width ends in front of what follows; a shorter one takes its newline along.
pub open spec fn line_at(content: Seq<u8>, width: nat, base: int, from: int) -> LineModel {
    let end = line_end(content, width, from, from);
    let bytes = content.subrange(from, end);
    if end - from >= width || end >= content.len() {
        LineModel { start: base + from, next: base + end, bytes }
    } else {
        LineModel {
            start: base + from,
            next: base + end + 1,
            bytes: without_carriage_return(bytes),
        }
    }
}

/// Where the line behind the one at `from` begins. A newline right behind a line of the full width
/// ends that line, and is no line of its own.
pub open spec fn next_start(content: Seq<u8>, width: nat, from: int) -> int {
    let end = line_end(content, width, from, from);
    if end < content.len() && content[end] == NEWLINE {
        end + 1
    } else {
        end
    }
}

/// A line does not end in front of its beginning nor behind the content, and is no longer than the
/// screen is wide.
pub proof fn lemma_line_end(content: Seq<u8>, width: nat, from: int, at: int)
    requires
        0 <= from <= at <= content.len(),
        at - from <= width,
    ensures
        at <= line_end(content, width, from, at) <= content.len(),
        line_end(content, width, from, at) - from <= width,
        forall|i: int|
            at <= i < line_end(content, width, from, at) ==> #[trigger] content[i] != NEWLINE,
        ({
            let end = line_end(content, width, from, at);
            end == content.len() || end - from == width || content[end] == NEWLINE
        }),
    decreases content.len() - at,
{
    if !(at >= content.len() || at - from >= width || content[at] == NEWLINE) {
        lemma_line_end(content, width, from, at + 1);
    }
}

/// The next line begins behind the one before it.
pub proof fn lemma_next_start(content: Seq<u8>, width: nat, from: int)
    requires
        0 <= from < content.len(),
        width > 0,
    ensures
        from < next_start(content, width, from) <= content.len(),
{
    lemma_line_end(content, width, from, from);
}

/// The lines of the screen that show the content from `from` on, up to its end.
pub open spec fn visual_lines(content: Seq<u8>, width: nat, base: int, from: int) -> Seq<LineModel>
    decreases content.len() - from,
{
    if from < 0 || from >= content.len() || width == 0 {
        Seq::empty()
    } else {
        proof {
            lemma_next_start(content, width, from);
        }
        seq![line_at(content, width, base, from)] + visual_lines(
            content,
            width,
            base,
            next_start(content, width, from),
        )
    }
}

} // verus!
