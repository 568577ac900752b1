//! Located edits, and what applying one to a text means.

use vstd::prelude::*;

use crate::buffer::{spliced, BufferError, TextBuffer};
use crate::lines::{lemma_line_start, line_count, line_start};
use crate::location::{Location, LocationView};

verus! {

/// What an edit does at its location.
#[derive(Clone, Debug, PartialEq, Eq)]
pub enum EditKind {
    /// Puts `replacement_text` in place of the characters from the edit's
    /// location up to `end_location`.
    Replace { end_location: Location, replacement_text: String },
    /// Deletes the characters from the edit's location up to `end_location`.
    Remove { end_location: Location },
    /// Puts `text` in front of the first character of the location's line.
    InsertBefore { text: String },
}

/// One change to one file, addressed by coordinates of the unedited file.
/// Of an end location only the line and the column are read.
#[derive(Clone, Debug, PartialEq, Eq)]
pub struct LocatedEdit {
    pub location: Location,
    pub kind: EditKind,
}

/// What an [`EditKind`] stands for in contracts.
pub enum EditKindView {
    Replace { end_location: LocationView, replacement_text: Seq<char> },
    Remove { end_location: LocationView },
    InsertBefore { text: Seq<char> },
}

/// What a [`LocatedEdit`] stands for in contracts.
pub struct LocatedEditView {
    pub location: LocationView,
    pub kind: EditKindView,
}

impl View for EditKind {
    type V = EditKindView;

    open spec fn view(&self) -> EditKindView {
        match self {
            EditKind::Replace { end_location, replacement_text } => EditKindView::Replace {
                end_location: end_location@,
                replacement_text: replacement_text@,
            },
            EditKind::Remove { end_location } => EditKindView::Remove {
                end_location: end_location@,
            },
            EditKind::InsertBefore { text } => EditKindView::InsertBefore { text: text@ },
        }
    }
}

impl View for LocatedEdit {
    type V = LocatedEditView;

    open spec fn view(&self) -> LocatedEditView {
        LocatedEditView { location: self.location@, kind: self.kind@ }
    }
}

impl EditKind {
    /// An edit kind with its own copies of the texts.
    pub fn duplicate(&self) -> (copy: EditKind)
        ensures
            copy@ == self@,
    {
        match self {
            EditKind::Replace { end_location, replacement_text } => EditKind::Replace {
                end_location: end_location.duplicate(),
                replacement_text: replacement_text.clone(),
            },
            EditKind::Remove { end_location } => EditKind::Remove {
                end_location: end_location.duplicate(),
            },
            EditKind::InsertBefore { text } => EditKind::InsertBefore { text: text.clone() },
        }
    }
}

impl LocatedEdit {
    /// An edit with its own copies of the path and the texts.
    pub fn duplicate(&self) -> (copy: LocatedEdit)
        ensures
            copy@ == self@,
    {
        LocatedEdit { location: self.location.duplicate(), kind: self.kind.duplicate() }
    }
}

/// The views of a list of edits, in order.
pub open spec fn edit_views(edits: Seq<LocatedEdit>) -> Seq<LocatedEditView> {
    edits.map_values(|edit: LocatedEdit| edit@)
}

/// The offset that a line and a column denote in `text`.
pub open spec fn offset_at(text: Seq<char>, line: nat, column: nat) -> int {
    line_start(text, line) + column
}

impl LocatedEditView {
    /// The line on which the edited range ends.
    pub open spec fn end_line(self) -> nat {
        match self.kind {
            EditKindView::Replace { end_location, .. } => end_location.line,
            EditKindView::Remove { end_location } => end_location.line,
            EditKindView::InsertBefore { .. } => self.location.line,
        }
    }

    /// The offset in `text` at which the edited range starts.
    pub open spec fn start_in(self, text: Seq<char>) -> int {
        match self.kind {
            EditKindView::InsertBefore { .. } => line_start(text, self.location.line),
            _ => offset_at(text, self.location.line, self.location.column),
        }
    }

    /// The offset in `text` at which the edited range ends.
    pub open spec fn end_in(self, text: Seq<char>) -> int {
        match self.kind {
            EditKindView::Replace { end_location, .. } => offset_at(
                text,
                end_location.line,
                end_location.column,
            ),
            EditKindView::Remove { end_location } => offset_at(
                text,
                end_location.line,
                end_location.column,
            ),
            EditKindView::InsertBefore { .. } => line_start(text, self.location.line),
        }
    }

    /// The characters that the edit puts into the text.
    pub open spec fn inserted(self) -> Seq<char> {
        match self.kind {
            EditKindView::Replace { replacement_text, .. } => replacement_text,
            EditKindView::Remove { .. } => Seq::empty(),
            EditKindView::InsertBefore { text } => text,
        }
    }

    /// Whether the edit's coordinates denote a range of `text`: its lines are
    /// lines of the text, or the line just past the last, and its offsets
    /// delimit a range that lies within the text.
    pub open spec fn fits(self, text: Seq<char>) -> bool {
        &&& self.location.line <= line_count(text)
        &&& self.end_line() <= line_count(text)
        &&& self.start_in(text) <= self.end_in(text) <= text.len()
    }

    /// The text after the edit, for an edit that fits.
    pub open spec fn applied_to(self, text: Seq<char>) -> Seq<char> {
        spliced(text, self.start_in(text), self.end_in(text), self.inserted())
    }
}

/// Whether a start and an end coordinate denote a range of `text`.
pub open spec fn range_fits(
    text: Seq<char>,
    start_line: nat,
    start_column: nat,
    end_line: nat,
    end_column: nat,
) -> bool {
    &&& start_line <= line_count(text)
    &&& end_line <= line_count(text)
    &&& offset_at(text, start_line, start_column) <= offset_at(text, end_line, end_column)
        <= text.len()
}

/// Whether each edit fits the text that the edits before it leave behind.
pub open spec fn all_fit(text: Seq<char>, edits: Seq<LocatedEditView>) -> bool
    decreases edits.len(),
{
    edits.len() == 0 || (edits[0].fits(text) && all_fit(
        edits[0].applied_to(text),
        edits.drop_first(),
    ))
}

/// The text after applying the edits one after the other, each against the
/// text as the one before left it, up to the first that does not fit.
pub open spec fn applied_in_turn(text: Seq<char>, edits: Seq<LocatedEditView>) -> Seq<char>
    decreases edits.len(),
{
    if edits.len() == 0 || !edits[0].fits(text) {
        text
    } else {
        applied_in_turn(edits[0].applied_to(text), edits.drop_first())
    }
}

impl TextBuffer {
    /// The offset that `line` and `column` denote, if the line is one of the
    /// buffer's lines, or the line just past the last, and the sum is
    /// representable.
    fn offset_of(&self, line: usize, column: usize) -> (offset: Option<usize>)
        ensures
            offset is Some <==> line <= line_count(self@) && offset_at(
                self@,
                line as nat,
                column as nat,
            ) <= usize::MAX,
            offset is Some ==> offset->Some_0 == offset_at(self@, line as nat, column as nat),
    {
        proof {
            lemma_line_start(self@, line as nat);
        }
        match self.line_to_offset(line) {
            Ok(start) => start.checked_add(column),
            Err(_) => None,
        }
    }

    /// The range of the text that the edit's coordinates denote, as a start
    /// and an end offset, if the edit fits the text.
    pub fn resolve(&self, edit: &LocatedEdit) -> (range: Option<(usize, usize)>)
        ensures
            range is Some <==> edit@.fits(self@),
            range is Some ==> range->Some_0.0 == edit@.start_in(self@) && range->Some_0.1
                == edit@.end_in(self@),
    {
        let len = self.len_chars();
        proof {
            lemma_line_start(self@, edit.location.line as nat);
            lemma_line_start(self@, edit@.end_line());
        }
        let (start, end) = match &edit.kind {
            EditKind::Replace { end_location, .. } => (
                self.offset_of(edit.location.line, edit.location.column),
                self.offset_of(end_location.line, end_location.column),
            ),
            EditKind::Remove { end_location } => (
                self.offset_of(edit.location.line, edit.location.column),
                self.offset_of(end_location.line, end_location.column),
            ),
            EditKind::InsertBefore { .. } => (
                self.offset_of(edit.location.line, 0),
                self.offset_of(edit.location.line, 0),
            ),
        };
        match (start, end) {
            (Some(start), Some(end)) => if start <= end && end <= len {
                Some((start, end))
            } else {
                None
            },
            _ => None,
        }
    }

    /// Replaces the characters from `(start_line, start_column)` up to
    /// `(end_line, end_column)` by `replacement`, if the coordinates denote a
    /// range of the text; otherwise leaves the text as it is.
    pub fn replace_range(
        &mut self,
        start_line: usize,
        start_column: usize,
        end_line: usize,
        end_column: usize,
        replacement: &str,
    ) -> (result: Result<(), BufferError>)
        ensures
            result is Ok <==> range_fits(
                old(self)@,
                start_line as nat,
                start_column as nat,
                end_line as nat,
                end_column as nat,
            ),
            result is Ok ==> final(self)@ == spliced(
                old(self)@,
                offset_at(old(self)@, start_line as nat, start_column as nat),
                offset_at(old(self)@, end_line as nat, end_column as nat),
                replacement@,
            ),
            result is Err ==> result == Err::<(), BufferError>(BufferError::OutOfRange)
                && final(self)@ == old(self)@,
    {
        proof {
            lemma_line_start(self@, start_line as nat);
            lemma_line_start(self@, end_line as nat);
        }
        let len = self.len_chars();
        let start = match self.offset_of(start_line, start_column) {
            Some(start) => start,
            None => { return Err(BufferError::OutOfRange); },
        };
        let end = match self.offset_of(end_line, end_column) {
            Some(end) => end,
            None => { return Err(BufferError::OutOfRange); },
        };
        if start <= end && end <= len {
            self.splice(start, end, replacement);
            Ok(())
        } else {
            Err(BufferError::OutOfRange)
        }
    }

    /// Deletes the characters from `(start_line, start_column)` up to
    /// `(end_line, end_column)`, if the coordinates denote a range of the
    /// text; otherwise leaves the text as it is.
    pub fn remove_range(
        &mut self,
        start_line: usize,
        start_column: usize,
        end_line: usize,
        end_column: usize,
    ) -> (result: Result<(), BufferError>)
        ensures
            result is Ok <==> range_fits(
                old(self)@,
                start_line as nat,
                start_column as nat,
                end_line as nat,
                end_column as nat,
            ),
            result is Ok ==> final(self)@ == spliced(
                old(self)@,
                offset_at(old(self)@, start_line as nat, start_column as nat),
                offset_at(old(self)@, end_line as nat, end_column as nat),
                Seq::empty(),
            ),
            result is Err ==> result == Err::<(), BufferError>(BufferError::OutOfRange)
                && final(self)@ == old(self)@,
    {
        let result = self.replace_range(start_line, start_column, end_line, end_column, "");
        proof {
            reveal_strlit("");
            assert(""@ =~= Seq::<char>::empty());
        }
        result
    }

    /// Puts `addition` in front of the first character of `start_line`, if
    /// that is one of the buffer's lines or the line just past the last;
    /// otherwise leaves the text as it is.
    pub fn insert_before_line(&mut self, start_line: usize, addition: &str) -> (result: Result<
        (),
        BufferError,
    >)
        ensures
            result is Ok <==> start_line <= line_count(old(self)@),
            result is Ok ==> final(self)@ == spliced(
                old(self)@,
                line_start(old(self)@, start_line as nat),
                line_start(old(self)@, start_line as nat),
                addition@,
            ),
            result is Err ==> result == Err::<(), BufferError>(BufferError::OutOfRange)
                && final(self)@ == old(self)@,
    {
        proof {
            lemma_line_start(self@, start_line as nat);
        }
        match self.line_to_offset(start_line) {
            Ok(start) => {
                self.splice(start, start, addition);
                Ok(())
            },
            Err(error) => Err(error),
        }
    }

    /// Applies one edit, if it fits the text; otherwise leaves the text as it
    /// is. The edit's file path is not read: the buffer is taken to hold the
    /// file that the edit names.
    pub fn apply_edit(&mut self, edit: &LocatedEdit) -> (result: Result<(), BufferError>)
        ensures
            result is Ok <==> edit@.fits(old(self)@),
            result is Ok ==> final(self)@ == edit@.applied_to(old(self)@),
            result is Err ==> result == Err::<(), BufferError>(BufferError::OutOfRange)
                && final(self)@ == old(self)@,
    {
        match &edit.kind {
            EditKind::Replace { end_location, replacement_text } => self.replace_range(
                edit.location.line,
                edit.location.column,
                end_location.line,
                end_location.column,
                replacement_text.as_str(),
            ),
            EditKind::Remove { end_location } => self.remove_range(
                edit.location.line,
                edit.location.column,
                end_location.line,
                end_location.column,
            ),
            EditKind::InsertBefore { text } => {
                proof {
                    lemma_line_start(self@, edit.location.line as nat);
                }
                self.insert_before_line(edit.location.line, text.as_str())
            },
        }
    }

    /// The buffer that results from writing the text out and reading it in
    /// again: it holds the same text.
    pub fn reloaded(&self) -> (buffer: TextBuffer)
        ensures
            buffer@ == self@,
    {
        let text = self.to_text();
        TextBuffer::from_text(text.as_str())
    }

    /// Applies the edits as `apply_edits` does, but reloads the buffer from
    /// its own text before each edit, as a run does that opens the file anew
    /// for every edit. The outcome is that of `apply_edits`.
    pub fn apply_edits_reloading(&mut self, edits: &[LocatedEdit]) -> (result: Result<
        (),
        BufferError,
    >)
        ensures
            result is Ok <==> all_fit(old(self)@, edit_views(edits@)),
            final(self)@ == applied_in_turn(old(self)@, edit_views(edits@)),
            result is Err ==> result == Err::<(), BufferError>(BufferError::OutOfRange),
    {
        let ghost views = edit_views(edits@);
        let mut index: usize = 0;
        assert(views.skip(0) =~= views);
        while index < edits.len()
            invariant
                index <= edits.len(),
                views == edit_views(edits@),
                all_fit(old(self)@, views) == all_fit(self@, views.skip(index as int)),
                applied_in_turn(old(self)@, views) == applied_in_turn(
                    self@,
                    views.skip(index as int),
                ),
            decreases edits.len() - index,
        {
            let ghost rest = views.skip(index as int);
            assert(rest[0] == edits@[index as int]@);
            assert(rest.drop_first() =~= views.skip(index as int + 1));
            let mut fresh = self.reloaded();
            let outcome = fresh.apply_edit(&edits[index]);
            *self = fresh;
            match outcome {
                Ok(()) => {},
                Err(error) => {
                    return Err(error);
                },
            }
            index = index + 1;
        }
        assert(views.skip(index as int).len() == 0);
        Ok(())
    }

    /// Applies the edits in the order given, each against the text as the one
    /// before left it, and stops at the first that does not fit.
    pub fn apply_edits(&mut self, edits: &[LocatedEdit]) -> (result: Result<(), BufferError>)
        ensures
            result is Ok <==> all_fit(old(self)@, edit_views(edits@)),
            final(self)@ == applied_in_turn(old(self)@, edit_views(edits@)),
            result is Err ==> result == Err::<(), BufferError>(BufferError::OutOfRange),
    {
        let ghost views = edit_views(edits@);
        let mut index: usize = 0;
        assert(views.skip(0) =~= views);
        while index < edits.len()
            invariant
                index <= edits.len(),
                views == edit_views(edits@),
                all_fit(old(self)@, views) == all_fit(self@, views.skip(index as int)),
                applied_in_turn(old(self)@, views) == applied_in_turn(
                    self@,
                    views.skip(index as int),
                ),
            decreases edits.len() - index,
        {
            let ghost rest = views.skip(index as int);
            assert(rest[0] == edits@[index as int]@);
            assert(rest.drop_first() =~= views.skip(index as int + 1));
            match self.apply_edit(&edits[index]) {
                Ok(()) => {},
                Err(error) => {
                    return Err(error);
                },
            }
            index = index + 1;
        }
        assert(views.skip(index as int).len() == 0);
        Ok(())
    }
}

} // verus!
