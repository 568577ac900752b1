//! Cutting a text into the pieces between separators, and what is taken on
//! trust about it.

use vstd::prelude::*;

verus! {

/// The pieces of `text` between occurrences of `separator`, in order. A text
/// without the separator is its own single piece; the empty text gives one
/// empty piece; a separator at either end borders an empty piece.
pub open spec fn split_at(text: Seq<char>, separator: char) -> Seq<Seq<char>>
    decreases text.len(),
{
    if text.len() == 0 {
        seq![Seq::<char>::empty()]
    } else {
        let before = split_at(text.drop_last(), separator);
        if text.last() == separator {
            before.push(Seq::<char>::empty())
        } else {
            before.update(before.len() - 1, before.last().push(text.last()))
        }
    }
}

/// `str::split` with a `char` as the pattern, each piece copied into a string
/// of its own: the pieces are those of `split_at`.
#[verifier::external_body]
pub(crate) fn split_text(text: &str, separator: char) -> (pieces: Vec<String>)
    ensures
        pieces.deep_view() == split_at(text@, separator),
{
    text.split(separator).map(|piece| piece.to_owned()).collect()
}

} // verus!
