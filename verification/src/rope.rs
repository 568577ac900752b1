//! The rope that backs a text buffer, and what is taken on trust about it.
//!
//! Everything in this file describes `ropey::Rope`; none of it is proved here.

use vstd::prelude::*;

use crate::lines::{line_count, line_start};

verus! {

#[verifier::external_type_specification]
#[verifier::external_body]
pub struct ExRope(ropey::Rope);

/// The characters that a rope holds, first to last.
pub uninterp spec fn rope_chars(rope: ropey::Rope) -> Seq<char>;

/// `Rope::from_str`: the new rope holds exactly the characters of `text`.
#[verifier::external_body]
pub(crate) fn rope_from_str(text: &str) -> (rope: ropey::Rope)
    ensures
        rope_chars(rope) == text@,
{
    ropey::Rope::from_str(text)
}

/// `Rope::len_chars`: the number of characters held.
#[verifier::external_body]
pub(crate) fn rope_len_chars(rope: &ropey::Rope) -> (len: usize)
    ensures
        len == rope_chars(*rope).len(),
{
    rope.len_chars()
}

/// `Rope::len_lines`: one more than the number of line breaks held, with the
/// line breaks that the crate recognises when built with its default features.
#[verifier::external_body]
pub(crate) fn rope_len_lines(rope: &ropey::Rope) -> (lines: usize)
    ensures
        lines == line_count(rope_chars(*rope)),
{
    rope.len_lines()
}

/// `Rope::line_to_char`: the character offset at which a line starts. The
/// line just past the last one is admitted and gives the length of the text;
/// any later line makes the call panic and is left out.
#[verifier::external_body]
pub(crate) fn rope_line_to_char(rope: &ropey::Rope, line: usize) -> (offset: usize)
    requires
        line <= line_count(rope_chars(*rope)),
    ensures
        offset == line_start(rope_chars(*rope), line as nat),
{
    rope.line_to_char(line)
}

/// `Rope::char`: the character at `offset`. An offset at or past the end
/// makes the call panic and is left out.
#[verifier::external_body]
pub(crate) fn rope_char(rope: &ropey::Rope, offset: usize) -> (c: char)
    requires
        offset < rope_chars(*rope).len(),
    ensures
        c == rope_chars(*rope)[offset as int],
{
    rope.char(offset)
}

/// `Rope::remove`: the characters of the half-open range leave the rope and
/// the rest keep their order. A range that is inverted or reaches past the
/// end makes the call panic and is left out.
#[verifier::external_body]
pub(crate) fn rope_remove(rope: &mut ropey::Rope, start: usize, end: usize)
    requires
        start <= end <= rope_chars(*old(rope)).len(),
    ensures
        rope_chars(*final(rope)) == rope_chars(*old(rope)).subrange(0, start as int)
            + rope_chars(*old(rope)).subrange(end as int, rope_chars(*old(rope)).len() as int),
{
    rope.remove(start..end)
}

/// `Rope::insert`: the characters of `text` enter the rope at `offset`, in
/// front of the character that stood there. An offset past the end makes the
/// call panic and is left out.
#[verifier::external_body]
pub(crate) fn rope_insert(rope: &mut ropey::Rope, offset: usize, text: &str)
    requires
        offset <= rope_chars(*old(rope)).len(),
    ensures
        rope_chars(*final(rope)) == rope_chars(*old(rope)).subrange(0, offset as int) + text@
            + rope_chars(*old(rope)).subrange(offset as int, rope_chars(*old(rope)).len() as int),
{
    rope.insert(offset, text)
}

/// `String::from(&Rope)`: the string made of the rope's characters.
#[verifier::external_body]
pub(crate) fn rope_to_string(rope: &ropey::Rope) -> (text: String)
    ensures
        text@ == rope_chars(*rope),
{
    String::from(rope)
}

} // verus!
