//! Bringing a batch of edits into the order in which it is applied: from the
//! last location to the first.

use vstd::prelude::*;
use vstd::seq_lib::{to_multiset_build, to_multiset_remove};

use crate::edit::{edit_views, LocatedEdit, LocatedEditView};
use crate::precedence::{lemma_not_precedes_transitive, lemma_precedes_asymmetric};

verus! {

/// Whether no edit stands before one whose location comes later: the
/// locations go from the last to the first, and edits of one location stand
/// together.
pub open spec fn descending(edits: Seq<LocatedEditView>) -> bool {
    forall|i: int, j: int|
        0 <= i < j < edits.len() ==> !(#[trigger] edits[i]).location.precedes(
            (#[trigger] edits[j]).location,
        )
}

/// Putting an edit into a list adds it to what the list holds, and nothing
/// else.
proof fn lemma_insert_to_multiset(edits: Seq<LocatedEditView>, place: int, edit: LocatedEditView)
    requires
        0 <= place <= edits.len(),
    ensures
        edits.insert(place, edit).to_multiset() == edits.to_multiset().insert(edit),
{
    let longer = edits.insert(place, edit);
    assert(longer.remove(place) =~= edits);
    to_multiset_remove(longer, place);
    assert(longer[place] == edit);
    longer.to_multiset_ensures();
    assert(longer.contains(edit));
    assert(longer.to_multiset() =~= edits.to_multiset().insert(edit));
}

/// The edits in the order in which they are applied: from the last location
/// to the first. The result holds the same edits, each as often as before.
/// Edits of one location keep the order they came in, so a batch that is in
/// order already comes back as it was.
pub fn sort_descending(edits: &[LocatedEdit]) -> (sorted: Vec<LocatedEdit>)
    ensures
        edit_views(sorted@).to_multiset() == edit_views(edits@).to_multiset(),
        descending(edit_views(sorted@)),
        descending(edit_views(edits@)) ==> edit_views(sorted@) == edit_views(edits@),
{
    let ghost all = edit_views(edits@);
    let mut sorted: Vec<LocatedEdit> = Vec::new();
    let mut taken: usize = 0;
    assert(all.take(0) =~= edit_views(sorted@));
    while taken < edits.len()
        invariant
            taken <= edits.len(),
            all == edit_views(edits@),
            sorted@.len() == taken,
            edit_views(sorted@).to_multiset() == all.take(taken as int).to_multiset(),
            descending(edit_views(sorted@)),
            descending(all) ==> edit_views(sorted@) == all.take(taken as int),
        decreases edits.len() - taken,
    {
        let edit = edits[taken].duplicate();
        let ghost before = edit_views(sorted@);
        let mut place: usize = sorted.len();
        while place > 0 && sorted[place - 1].location.precedes(&edit.location)
            invariant
                place <= sorted@.len(),
                before == edit_views(sorted@),
                forall|j: int|
                    place <= j < before.len() ==> (#[trigger] before[j]).location.precedes(
                        edit@.location,
                    ),
            decreases place,
        {
            place = place - 1;
        }
        proof {
            let after = before.insert(place as int, edit@);
            assert forall|i: int, j: int| 0 <= i < j < after.len() implies !(
            #[trigger] after[i]).location.precedes((#[trigger] after[j]).location) by {
                if j < place {
                    assert(after[i] == before[i] && after[j] == before[j]);
                } else if j == place {
                    assert(after[i] == before[i]);
                    assert(!before[place - 1].location.precedes(edit@.location));
                    if i < place - 1 {
                        lemma_not_precedes_transitive(
                            before[i].location,
                            before[place - 1].location,
                            edit@.location,
                        );
                    }
                } else if i < place {
                    assert(after[i] == before[i] && after[j] == before[j - 1]);
                } else if i == place {
                    assert(after[j] == before[j - 1]);
                    lemma_precedes_asymmetric(before[j - 1].location, edit@.location);
                } else {
                    assert(after[i] == before[i - 1] && after[j] == before[j - 1]);
                }
            }
            lemma_insert_to_multiset(before, place as int, edit@);
            let next = all.take(taken as int + 1);
            assert(next =~= all.take(taken as int).push(edit@));
            to_multiset_build(all.take(taken as int), edit@);
            if descending(all) {
                if place < taken {
                    assert(before[place as int] == all[place as int]);
                    assert(!all[place as int].location.precedes(all[taken as int].location));
                }
                assert(after =~= next);
            }
        }
        sorted.insert(place, edit);
        assert(edit_views(sorted@) =~= before.insert(place as int, edit@));
        taken = taken + 1;
    }
    assert(all.take(taken as int) =~= all);
    sorted
}

} // verus!
