//! The order in which the edits of one file are applied, and why it keeps the
//! coordinates of the edits that are still pending valid.
//!
//! All edits of a batch carry coordinates of the unedited text. An edit only
//! disturbs the text from its own start on, so the batch is applied from the
//! end of the file towards its beginning: what is still pending then lies in
//! the part of the text that has not changed.

use vstd::prelude::*;

use crate::buffer::{spliced, TextBuffer};
use crate::edit::{
    all_fit, applied_in_turn, edit_views, EditKind, EditKindView, LocatedEdit, LocatedEditView,
};
use crate::lines::{
    lemma_line_start, lemma_line_start_ordered, lemma_stable_line_start, line_count,
    line_is_stable, line_start, same_before,
};

verus! {

/// Whether a pending edit lies wholly before offset `cut` of `text`, on lines
/// whose starts no change at or after `cut` can move.
pub open spec fn stays_before(text: Seq<char>, pending: LocatedEditView, cut: int) -> bool {
    &&& pending.start_in(text) <= pending.end_in(text) <= cut
    &&& line_is_stable(text, pending.location.line, cut)
    &&& line_is_stable(text, pending.end_line(), cut)
}

/// Whether the edits, in the order given, go down the text: the first fits
/// the text, and each later one lies wholly before the start of the one
/// before it.
pub open spec fn applies_downwards(text: Seq<char>, edits: Seq<LocatedEditView>) -> bool {
    &&& edits.len() > 0 ==> edits[0].fits(text)
    &&& forall|i: int|
        0 < i < edits.len() ==> stays_before(text, #[trigger] edits[i], edits[i - 1].start_in(text))
}

/// The text after splicing `current` once for each edit, in the order given,
/// at the offsets that the edit's coordinates denote in `text`, the unedited
/// text, whatever `current` has become.
pub open spec fn applied_as_planned(
    text: Seq<char>,
    current: Seq<char>,
    edits: Seq<LocatedEditView>,
) -> Seq<char>
    decreases edits.len(),
{
    if edits.len() == 0 {
        current
    } else {
        applied_as_planned(
            text,
            spliced(current, edits[0].start_in(text), edits[0].end_in(text), edits[0].inserted()),
            edits.drop_first(),
        )
    }
}

/// An edit that stays before `cut` denotes the same range in every text that
/// holds the same characters before `cut`, and fits it.
pub proof fn lemma_pending_edit_unmoved(
    text: Seq<char>,
    current: Seq<char>,
    cut: int,
    pending: LocatedEditView,
)
    requires
        same_before(text, current, cut),
        stays_before(text, pending, cut),
    ensures
        pending.start_in(current) == pending.start_in(text),
        pending.end_in(current) == pending.end_in(text),
        pending.fits(current),
{
    lemma_stable_line_start(text, current, cut, pending.location.line);
    lemma_stable_line_start(text, current, cut, pending.end_line());
}

/// The part of the order invariant that concerns the edits after the first:
/// once the text has changed from `cut` on only, edits that go down from
/// `cut` apply in turn as planned.
proof fn lemma_rest_in_turn(
    text: Seq<char>,
    current: Seq<char>,
    cut: int,
    edits: Seq<LocatedEditView>,
)
    requires
        same_before(text, current, cut),
        edits.len() > 0 ==> stays_before(text, edits[0], cut),
        forall|i: int|
            0 < i < edits.len() ==> stays_before(
                text,
                #[trigger] edits[i],
                edits[i - 1].start_in(text),
            ),
    ensures
        all_fit(current, edits),
        applied_in_turn(current, edits) == applied_as_planned(text, current, edits),
    decreases edits.len(),
{
    if edits.len() > 0 {
        let first = edits[0];
        let rest = edits.drop_first();
        lemma_pending_edit_unmoved(text, current, cut, first);
        lemma_line_start(text, first.location.line);
        let start = first.start_in(text);
        let next = first.applied_to(current);
        assert(same_before(text, next, start));
        assert forall|i: int| 0 < i < rest.len() implies stays_before(
            text,
            #[trigger] rest[i],
            rest[i - 1].start_in(text),
        ) by {
            assert(rest[i] == edits[i + 1]);
            assert(rest[i - 1] == edits[i]);
        }
        if rest.len() > 0 {
            assert(rest[0] == edits[1]);
        }
        lemma_rest_in_turn(text, next, start, rest);
    }
}

/// The order invariant. Edits that go down the text can be applied one after
/// the other, each against the text as the one before left it: every one of
/// them fits, and the result is the text spliced at the offsets that the
/// coordinates denote in the unedited text. No edit moves the range of an
/// edit that is still pending.
pub proof fn lemma_order_invariant(text: Seq<char>, edits: Seq<LocatedEditView>)
    requires
        applies_downwards(text, edits),
    ensures
        all_fit(text, edits),
        applied_in_turn(text, edits) == applied_as_planned(text, text, edits),
{
    if edits.len() > 0 {
        let first = edits[0];
        let rest = edits.drop_first();
        lemma_line_start(text, first.location.line);
        let start = first.start_in(text);
        let next = first.applied_to(text);
        assert(same_before(text, next, start));
        assert forall|i: int| 0 < i < rest.len() implies stays_before(
            text,
            #[trigger] rest[i],
            rest[i - 1].start_in(text),
        ) by {
            assert(rest[i] == edits[i + 1]);
            assert(rest[i - 1] == edits[i]);
        }
        if rest.len() > 0 {
            assert(rest[0] == edits[1]);
        }
        lemma_rest_in_turn(text, next, start, rest);
    }
}

/// A line and a column.
pub struct Position {
    pub line: nat,
    pub column: nat,
}

impl Position {
    /// Whether this position comes strictly before `other` in a text: on an
    /// earlier line, or on the same line at a smaller column.
    pub open spec fn is_before(self, other: Position) -> bool {
        self.line < other.line || (self.line == other.line && self.column < other.column)
    }

    /// Whether the position names a line of `text` and a column that does not
    /// reach past that line, its line break included.
    pub open spec fn within(self, text: Seq<char>) -> bool {
        &&& self.line < line_count(text)
        &&& line_start(text, self.line) + self.column <= line_start(text, self.line + 1)
    }

    /// The offset that the position denotes in `text`.
    pub open spec fn offset_in(self, text: Seq<char>) -> int {
        line_start(text, self.line) + self.column
    }
}

impl LocatedEditView {
    /// The position at which the edited range starts. An insertion in front
    /// of a line starts at the line's first column.
    pub open spec fn start_position(self) -> Position {
        match self.kind {
            EditKindView::InsertBefore { .. } => Position { line: self.location.line, column: 0 },
            _ => Position { line: self.location.line, column: self.location.column },
        }
    }

    /// The position at which the edited range ends.
    pub open spec fn end_position(self) -> Position {
        match self.kind {
            EditKindView::Replace { end_location, .. } => Position {
                line: end_location.line,
                column: end_location.column,
            },
            EditKindView::Remove { end_location } => Position {
                line: end_location.line,
                column: end_location.column,
            },
            EditKindView::InsertBefore { .. } => Position { line: self.location.line, column: 0 },
        }
    }
}

/// Whether the edits stand in strictly descending order of line and column:
/// every range lies within the lines of `text` and does not end before it
/// starts, and each edit after the first ends strictly before the start of
/// the one before it.
pub open spec fn descends_by_position(text: Seq<char>, edits: Seq<LocatedEditView>) -> bool {
    &&& forall|i: int|
        0 <= i < edits.len() ==> {
            &&& (#[trigger] edits[i]).start_position().within(text)
            &&& edits[i].end_position().within(text)
            &&& !edits[i].end_position().is_before(edits[i].start_position())
        }
    &&& forall|i: int|
        0 < i < edits.len() ==> (#[trigger] edits[i]).end_position().is_before(
            edits[i - 1].start_position(),
        )
}

/// Positions within their lines denote offsets in the order of the positions.
pub proof fn lemma_offsets_ordered(text: Seq<char>, earlier: Position, later: Position)
    requires
        earlier.within(text),
        later.within(text),
        !later.is_before(earlier),
    ensures
        0 <= earlier.offset_in(text) <= later.offset_in(text) <= text.len(),
{
    lemma_line_start(text, earlier.line);
    lemma_line_start(text, later.line);
    lemma_line_start(text, later.line + 1);
    if earlier.line < later.line {
        lemma_line_start_ordered(text, earlier.line + 1, later.line);
    }
}

/// Edits in strictly descending order of line and column go down the text,
/// so the order invariant holds of them.
pub proof fn lemma_descending_positions_apply_downwards(
    text: Seq<char>,
    edits: Seq<LocatedEditView>,
)
    requires
        descends_by_position(text, edits),
    ensures
        applies_downwards(text, edits),
        all_fit(text, edits),
        applied_in_turn(text, edits) == applied_as_planned(text, text, edits),
{
    assert forall|i: int| 0 <= i < edits.len() implies (#[trigger] edits[i]).fits(text) by {
        lemma_offsets_ordered(text, edits[i].start_position(), edits[i].end_position());
    }
    assert forall|i: int| 0 < i < edits.len() implies stays_before(
        text,
        #[trigger] edits[i],
        edits[i - 1].start_in(text),
    ) by {
        let pending = edits[i];
        let start = pending.start_position();
        let end = pending.end_position();
        let cut = edits[i - 1].start_position();
        assert(edits[i - 1].start_in(text) == cut.offset_in(text));
        lemma_offsets_ordered(text, start, end);
        lemma_offsets_ordered(text, end, cut);
        lemma_offsets_ordered(text, cut, cut);
        lemma_line_start_ordered(text, start.line, end.line);
        lemma_line_start_ordered(text, end.line, cut.line);
        lemma_line_start_ordered(text, start.line, cut.line);
    }
    lemma_order_invariant(text, edits);
}

/// Why a batch was not applied.
#[derive(Clone, Copy, Debug, PartialEq, Eq, Structural)]
pub enum BatchError {
    /// The edits do not go down the text in the order given: the first does
    /// not fit, or a later one does not lie wholly before the one before it.
    NotDescending,
}

impl TextBuffer {
    /// Whether `line` is a line of the text whose start no change at or after
    /// `cut` can move.
    fn line_is_stable(&self, line: usize, cut: usize) -> (stable: bool)
        ensures
            stable == line_is_stable(self@, line as nat, cut as int),
    {
        if line >= self.len_lines() || cut > self.len_chars() {
            return false;
        }
        proof {
            lemma_line_start(self@, line as nat);
        }
        match self.line_to_offset(line) {
            Ok(start) => start < cut || (start == cut && (line == 0 || self.char_at(cut - 1)
                != '\u{0D}')),
            Err(_) => false,
        }
    }

    /// Whether the edit lies wholly before offset `cut`, on lines whose
    /// starts no change at or after `cut` can move.
    fn stays_before(&self, pending: &LocatedEdit, cut: usize) -> (stays: bool)
        ensures
            stays == stays_before(self@, pending@, cut as int),
    {
        let end_line = match &pending.kind {
            EditKind::Replace { end_location, .. } => end_location.line,
            EditKind::Remove { end_location } => end_location.line,
            EditKind::InsertBefore { .. } => pending.location.line,
        };
        if !self.line_is_stable(pending.location.line, cut) || !self.line_is_stable(end_line, cut) {
            return false;
        }
        match self.resolve(pending) {
            Some((_, end)) => end <= cut,
            None => false,
        }
    }

    /// Whether the edits, in the order given, go down the text, so that the
    /// order invariant holds of them.
    pub fn goes_down(&self, edits: &[LocatedEdit]) -> (down: bool)
        ensures
            down == applies_downwards(self@, edit_views(edits@)),
    {
        let ghost views = edit_views(edits@);
        if edits.len() == 0 {
            return true;
        }
        let mut cut = match self.resolve(&edits[0]) {
            Some((start, _)) => start,
            None => {
                assert(views[0] == edits@[0]@);
                return false;
            },
        };
        assert(views[0] == edits@[0]@);
        let mut index: usize = 1;
        while index < edits.len()
            invariant
                1 <= index <= edits.len(),
                views == edit_views(edits@),
                views[0].fits(self@),
                cut == views[index - 1].start_in(self@),
                forall|i: int|
                    0 < i < index ==> stays_before(
                        self@,
                        #[trigger] views[i],
                        views[i - 1].start_in(self@),
                    ),
            decreases edits.len() - index,
        {
            assert(views[index as int] == edits@[index as int]@);
            if !self.stays_before(&edits[index], cut) {
                return false;
            }
            proof {
                lemma_line_start(self@, views[index as int].location.line);
            }
            cut = match self.resolve(&edits[index]) {
                Some((start, _)) => start,
                None => { return false; },
            };
            index = index + 1;
        }
        true
    }

    /// Applies a batch that goes down the text, and no other: a batch that
    /// does not is refused and the text stays as it is. Every edit of a batch
    /// that is applied lands on the range that its coordinates denote in the
    /// text as it was before the batch.
    pub fn apply_batch(&mut self, edits: &[LocatedEdit]) -> (result: Result<(), BatchError>)
        ensures
            result is Ok <==> applies_downwards(old(self)@, edit_views(edits@)),
            result is Ok ==> final(self)@ == applied_as_planned(
                old(self)@,
                old(self)@,
                edit_views(edits@),
            ),
            result is Err ==> final(self)@ == old(self)@,
    {
        if !self.goes_down(edits) {
            return Err(BatchError::NotDescending);
        }
        proof {
            lemma_order_invariant(self@, edit_views(edits@));
        }
        let applied = self.apply_edits(edits);
        Ok(())
    }
}

} // verus!
