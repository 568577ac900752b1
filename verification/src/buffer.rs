//! An editable text held in memory, addressed by lines and by character
//! offsets.

use vstd::prelude::*;

use crate::lines::{line_count, line_start};
use crate::rope::{
    rope_char, rope_chars, rope_from_str, rope_insert, rope_len_chars, rope_len_lines, rope_line_to_char,
    rope_remove, rope_to_string,
};

verus! {

/// Why a coordinate could not be used.
#[derive(Clone, Copy, Debug, PartialEq, Eq, Structural)]
pub enum BufferError {
    /// The line lies beyond the line just past the last one, or the offsets
    /// derived from a coordinate do not delimit a range of the text.
    OutOfRange,
}

/// The text that results from replacing the characters of `text` in
/// `[start, end)` by `replacement`.
pub open spec fn spliced(text: Seq<char>, start: int, end: int, replacement: Seq<char>) -> Seq<
    char,
> {
    text.subrange(0, start) + replacement + text.subrange(end, text.len() as int)
}

/// The contents of one file while it is being edited.
pub struct TextBuffer {
    rope: ropey::Rope,
}

impl View for TextBuffer {
    type V = Seq<char>;

    closed spec fn view(&self) -> Seq<char> {
        rope_chars(self.rope)
    }
}

impl TextBuffer {
    /// A buffer that holds `text`.
    pub fn from_text(text: &str) -> (buffer: TextBuffer)
        ensures
            buffer@ == text@,
    {
        TextBuffer { rope: rope_from_str(text) }
    }

    /// The text that the buffer holds now.
    pub fn to_text(&self) -> (text: String)
        ensures
            text@ == self@,
    {
        rope_to_string(&self.rope)
    }

    /// The number of characters held.
    pub fn len_chars(&self) -> (len: usize)
        ensures
            len == self@.len(),
    {
        rope_len_chars(&self.rope)
    }

    /// The character at `offset`.
    pub fn char_at(&self, offset: usize) -> (c: char)
        requires
            offset < self@.len(),
        ensures
            c == self@[offset as int],
    {
        rope_char(&self.rope, offset)
    }

    /// The number of lines held, the empty line after a final break included.
    pub fn len_lines(&self) -> (lines: usize)
        ensures
            lines == line_count(self@),
    {
        rope_len_lines(&self.rope)
    }

    /// The offset of the first character of `line`, counting lines from zero.
    /// The line just past the last one is accepted and gives the length of
    /// the text; any later line is out of range.
    pub fn line_to_offset(&self, line: usize) -> (result: Result<usize, BufferError>)
        ensures
            line <= line_count(self@) ==> result is Ok && result->Ok_0 == line_start(
                self@,
                line as nat,
            ),
            line > line_count(self@) ==> result == Err::<usize, BufferError>(
                BufferError::OutOfRange,
            ),
    {
        if line <= rope_len_lines(&self.rope) {
            Ok(rope_line_to_char(&self.rope, line))
        } else {
            Err(BufferError::OutOfRange)
        }
    }

    /// Replaces the characters in `[start, end)` by `replacement`. An empty
    /// replacement deletes the range; an empty range inserts at `start`.
    pub fn splice(&mut self, start: usize, end: usize, replacement: &str)
        requires
            start <= end <= old(self)@.len(),
        ensures
            final(self)@ == spliced(old(self)@, start as int, end as int, replacement@),
    {
        rope_remove(&mut self.rope, start, end);
        rope_insert(&mut self.rope, start, replacement);
        assert(self@ =~= spliced(old(self)@, start as int, end as int, replacement@));
    }
}

} // verus!
