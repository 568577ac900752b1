//! Turning records into the edits that realise a transformation. Nothing
//! here touches a text: records in, edits out.

use vstd::prelude::*;
use vstd::string::{StrSliceExecFns, StringExecFns};

use crate::edit::{
    edit_views, offset_at, EditKind, EditKindView, LocatedEdit, LocatedEditView,
};
use crate::index::definition_views;
use crate::lines::{break_ends_at, lemma_line_start, lemma_line_start_same_before, line_count, same_before};
use crate::location::{
    CallView, DefinitionView, Location, LocationView, MethodCallLocation,
    MethodDefinitionLocationAndName,
};
use crate::parse::{call_views, location_views, RAW_SUFFIX};

verus! {

/// The line that marks a definition, put in front of the definition's line.
pub const WRAPPER_ATTRIBUTE_LINE: &'static str = "#[generate_node_factory_method_wrapper]\n";

/// The number of characters of a wrapping accessor from the reported column
/// on: its name and the pair of brackets after it. One more character, the
/// dot in front of the name, stands before the reported column.
pub const WRAP_ACCESSOR_LENGTH: usize = 6;

/// The place `length` characters to the right of `location`, on its line.
pub open spec fn moved_right(location: LocationView, length: nat) -> LocationView {
    LocationView {
        file_path: location.file_path,
        line: location.line,
        column: location.column + length,
    }
}

/// The edit that gives the name at `location` the ending of a renamed
/// function: it covers exactly the characters of `name`.
pub open spec fn suffixing_edit(location: LocationView, name: Seq<char>) -> LocatedEditView {
    LocatedEditView {
        location,
        kind: EditKindView::Replace {
            end_location: moved_right(location, name.len()),
            replacement_text: name + RAW_SUFFIX@,
        },
    }
}

/// The edit that takes the ending of a renamed function from the name at
/// `location` again: it covers the characters of `name` and of the ending.
pub open spec fn unsuffixing_edit(location: LocationView, name: Seq<char>) -> LocatedEditView {
    LocatedEditView {
        location,
        kind: EditKindView::Replace {
            end_location: moved_right(location, name.len() + RAW_SUFFIX@.len()),
            replacement_text: name,
        },
    }
}

/// The edit that puts the marker line in front of the line of `location`.
pub open spec fn annotating_edit(location: LocationView) -> LocatedEditView {
    LocatedEditView {
        location: LocationView { file_path: location.file_path, line: location.line, column: 0 },
        kind: EditKindView::InsertBefore { text: WRAPPER_ATTRIBUTE_LINE@ },
    }
}

/// The edit that deletes the wrapping accessor reported at `location`, the
/// dot in front of it included.
pub open spec fn unwrapping_edit(location: LocationView) -> LocatedEditView
    recommends
        location.column >= 1,
{
    LocatedEditView {
        location: LocationView {
            file_path: location.file_path,
            line: location.line,
            column: (location.column - 1) as nat,
        },
        kind: EditKindView::Remove {
            end_location: moved_right(location, WRAP_ACCESSOR_LENGTH as nat),
        },
    }
}

/// The edits for a list of definitions: for each in turn, the renaming of
/// its name and then the marker in front of its line.
pub open spec fn definition_edits(definitions: Seq<DefinitionView>) -> Seq<LocatedEditView>
    decreases definitions.len(),
{
    if definitions.len() == 0 {
        Seq::empty()
    } else {
        definition_edits(definitions.drop_last()).push(
            suffixing_edit(definitions.last().location, definitions.last().method_name),
        ).push(annotating_edit(definitions.last().location))
    }
}

/// Renaming and renaming back restores the text. Where the characters of
/// `name` stand at `location`, on a line of `text`, giving them the ending of
/// a renamed function and then taking it from them again, with the same
/// location, leaves exactly `text`.
pub proof fn lemma_rename_round_trip(text: Seq<char>, location: LocationView, name: Seq<char>)
    requires
        location.line < line_count(text),
        offset_at(text, location.line, location.column) + name.len() <= text.len(),
        text.subrange(
            offset_at(text, location.line, location.column),
            offset_at(text, location.line, location.column) + name.len(),
        ) == name,
    ensures
        suffixing_edit(location, name).fits(text),
        unsuffixing_edit(location, name).fits(suffixing_edit(location, name).applied_to(text)),
        unsuffixing_edit(location, name).applied_to(
            suffixing_edit(location, name).applied_to(text),
        ) == text,
{
    let there = suffixing_edit(location, name);
    let back = unsuffixing_edit(location, name);
    let start = offset_at(text, location.line, location.column);
    let renamed = there.applied_to(text);
    lemma_line_start(text, location.line);
    reveal_strlit("_raw");
    assert(same_before(text, renamed, start));
    if location.column == 0 && location.line > 0 {
        assert(break_ends_at(text, start));
        assert(renamed[start - 1] == text[start - 1]);
        if name.len() > 0 {
            assert(renamed[start] == name[0]);
            assert(text[start] == text.subrange(start, start + name.len())[0]);
        } else {
            assert(renamed[start] == RAW_SUFFIX@[0]);
        }
        assert(break_ends_at(renamed, start));
    }
    lemma_line_start_same_before(text, renamed, start, location.line);
    assert(back.start_in(renamed) == start);
    assert(back.applied_to(renamed) =~= text) by {
        assert forall|i: int| start <= i < start + name.len() implies text[i] == name[i
            - start] by {
            assert(text[i] == text.subrange(start, start + name.len())[i - start]);
        }
    }
}

/// The place `length` characters to the right of `location`, on its line.
fn right_of(location: &Location, length: usize) -> (moved: Location)
    requires
        location.column + length <= usize::MAX,
    ensures
        moved@ == moved_right(location@, length as nat),
{
    Location {
        file_path: location.file_path.clone(),
        line: location.line,
        column: location.column + length,
    }
}

/// Plans the renaming of a definition and the marker in front of its line.
/// The renaming comes first: it lies further down the file than the marker.
pub fn rename_target_method_definition_and_add_macro_attribute(
    target_method_definition: &MethodDefinitionLocationAndName,
) -> (edits: Vec<LocatedEdit>)
    requires
        target_method_definition@.location.column + target_method_definition@.method_name.len()
            <= usize::MAX,
    ensures
        edit_views(edits@) == seq![
            suffixing_edit(
                target_method_definition@.location,
                target_method_definition@.method_name,
            ),
            annotating_edit(target_method_definition@.location),
        ],
{
    let name = target_method_definition.method_name.as_str();
    let renaming = LocatedEdit {
        location: target_method_definition.location.duplicate(),
        kind: EditKind::Replace {
            end_location: right_of(&target_method_definition.location, name.unicode_len()),
            replacement_text: String::from_str(name).concat(RAW_SUFFIX),
        },
    };
    let annotating = LocatedEdit {
        location: Location {
            file_path: target_method_definition.location.file_path.clone(),
            line: target_method_definition.location.line,
            column: 0,
        },
        kind: EditKind::InsertBefore { text: String::from_str(WRAPPER_ATTRIBUTE_LINE) },
    };
    let mut edits = Vec::new();
    edits.push(renaming);
    edits.push(annotating);
    assert(edit_views(edits@) =~= seq![
        suffixing_edit(target_method_definition@.location, target_method_definition@.method_name),
        annotating_edit(target_method_definition@.location),
    ]);
    edits
}

/// Plans the renaming and the marker for each definition, in the order of
/// the definitions.
pub fn rename_target_method_definitions_and_add_macro_attribute(
    target_method_definitions: &[MethodDefinitionLocationAndName],
) -> (edits: Vec<LocatedEdit>)
    requires
        forall|i: int|
            0 <= i < target_method_definitions@.len() ==> (
            #[trigger] target_method_definitions@[i])@.location.column
                + target_method_definitions@[i]@.method_name.len() <= usize::MAX,
    ensures
        edit_views(edits@) == definition_edits(definition_views(target_method_definitions@)),
{
    let ghost all = definition_views(target_method_definitions@);
    let mut edits: Vec<LocatedEdit> = Vec::new();
    let mut index: usize = 0;
    assert(edit_views(edits@) =~= Seq::<LocatedEditView>::empty());
    assert(all.take(0) =~= Seq::<DefinitionView>::empty());
    while index < target_method_definitions.len()
        invariant
            index <= target_method_definitions.len(),
            all == definition_views(target_method_definitions@),
            forall|i: int|
                0 <= i < target_method_definitions@.len() ==> (
                #[trigger] target_method_definitions@[i])@.location.column
                    + target_method_definitions@[i]@.method_name.len() <= usize::MAX,
            edit_views(edits@) == definition_edits(all.take(index as int)),
        decreases target_method_definitions.len() - index,
    {
        let ghost before = edit_views(edits@);
        let ghost next = all.take(index as int + 1);
        proof {
            assert(next.drop_last() =~= all.take(index as int));
            assert(next.last() == target_method_definitions@[index as int]@);
        }
        let mut pair = rename_target_method_definition_and_add_macro_attribute(
            &target_method_definitions[index],
        );
        let ghost added = edit_views(pair@);
        let ghost first = suffixing_edit(
            target_method_definitions@[index as int]@.location,
            target_method_definitions@[index as int]@.method_name,
        );
        let ghost second = annotating_edit(target_method_definitions@[index as int]@.location);
        assert(added =~= seq![first, second]);
        assert(added.len() == 2 && added[0] == first && added[1] == second);
        edits.append(&mut pair);
        assert(edit_views(edits@) =~= before.push(first).push(second));
        index = index + 1;
    }
    assert(all.take(index as int) =~= all);
    edits
}

/// Plans the renaming of the callee's name at a call site.
pub fn rename_target_method_invocation(target_method_invocation: &MethodCallLocation) -> (edit:
    LocatedEdit)
    requires
        target_method_invocation@.location.column
            + target_method_invocation@.method_definition.method_name.len() <= usize::MAX,
    ensures
        edit@ == suffixing_edit(
            target_method_invocation@.location,
            target_method_invocation@.method_definition.method_name,
        ),
{
    let name = target_method_invocation.method_definition.method_name.as_str();
    LocatedEdit {
        location: target_method_invocation.location.duplicate(),
        kind: EditKind::Replace {
            end_location: right_of(&target_method_invocation.location, name.unicode_len()),
            replacement_text: String::from_str(name).concat(RAW_SUFFIX),
        },
    }
}

/// Plans the renaming of the callee's name at each call site, in the order
/// of the call sites.
pub fn rename_target_method_invocations(target_method_invocations: &[MethodCallLocation]) -> (edits:
    Vec<LocatedEdit>)
    requires
        forall|i: int|
            0 <= i < target_method_invocations@.len() ==> (
            #[trigger] target_method_invocations@[i])@.location.column
                + target_method_invocations@[i]@.method_definition.method_name.len()
                <= usize::MAX,
    ensures
        edit_views(edits@) == call_views(target_method_invocations@).map_values(
            |call: CallView| suffixing_edit(call.location, call.method_definition.method_name),
        ),
{
    let mut edits: Vec<LocatedEdit> = Vec::new();
    let mut index: usize = 0;
    while index < target_method_invocations.len()
        invariant
            index <= target_method_invocations.len(),
            forall|i: int|
                0 <= i < target_method_invocations@.len() ==> (
                #[trigger] target_method_invocations@[i])@.location.column
                    + target_method_invocations@[i]@.method_definition.method_name.len()
                    <= usize::MAX,
            edits@.len() == index,
            forall|i: int|
                0 <= i < index ==> (#[trigger] edits@[i])@ == suffixing_edit(
                    target_method_invocations@[i]@.location,
                    target_method_invocations@[i]@.method_definition.method_name,
                ),
        decreases target_method_invocations.len() - index,
    {
        edits.push(rename_target_method_invocation(&target_method_invocations[index]));
        index = index + 1;
    }
    assert(edit_views(edits@) =~= call_views(target_method_invocations@).map_values(
        |call: CallView| suffixing_edit(call.location, call.method_definition.method_name),
    ));
    edits
}

/// Plans taking the ending of a renamed function from the callee's name at a
/// call site whose wrapping accessor is being deleted.
pub fn rename_target_method_invocation_with_wrap(
    target_method_invocation_with_wrap: &MethodCallLocation,
) -> (edit: LocatedEdit)
    requires
        target_method_invocation_with_wrap@.location.column
            + target_method_invocation_with_wrap@.method_definition.method_name.len()
            + RAW_SUFFIX@.len() <= usize::MAX,
    ensures
        edit@ == unsuffixing_edit(
            target_method_invocation_with_wrap@.location,
            target_method_invocation_with_wrap@.method_definition.method_name,
        ),
{
    let name = target_method_invocation_with_wrap.method_definition.method_name.as_str();
    let length = name.unicode_len() + RAW_SUFFIX.unicode_len();
    LocatedEdit {
        location: target_method_invocation_with_wrap.location.duplicate(),
        kind: EditKind::Replace {
            end_location: right_of(&target_method_invocation_with_wrap.location, length),
            replacement_text: String::from_str(name),
        },
    }
}

/// Plans taking the ending of a renamed function from the callee's name at
/// each call site, in the order of the call sites.
pub fn rename_target_method_invocations_with_wrap(
    target_method_invocations_with_wrap: &[MethodCallLocation],
) -> (edits: Vec<LocatedEdit>)
    requires
        forall|i: int|
            0 <= i < target_method_invocations_with_wrap@.len() ==> (
            #[trigger] target_method_invocations_with_wrap@[i])@.location.column
                + target_method_invocations_with_wrap@[i]@.method_definition.method_name.len()
                + RAW_SUFFIX@.len() <= usize::MAX,
    ensures
        edit_views(edits@) == call_views(target_method_invocations_with_wrap@).map_values(
            |call: CallView| unsuffixing_edit(call.location, call.method_definition.method_name),
        ),
{
    let mut edits: Vec<LocatedEdit> = Vec::new();
    let mut index: usize = 0;
    while index < target_method_invocations_with_wrap.len()
        invariant
            index <= target_method_invocations_with_wrap.len(),
            forall|i: int|
                0 <= i < target_method_invocations_with_wrap@.len() ==> (
                #[trigger] target_method_invocations_with_wrap@[i])@.location.column
                    + target_method_invocations_with_wrap@[i]@.method_definition.method_name.len()
                    + RAW_SUFFIX@.len() <= usize::MAX,
            edits@.len() == index,
            forall|i: int|
                0 <= i < index ==> (#[trigger] edits@[i])@ == unsuffixing_edit(
                    target_method_invocations_with_wrap@[i]@.location,
                    target_method_invocations_with_wrap@[i]@.method_definition.method_name,
                ),
        decreases target_method_invocations_with_wrap.len() - index,
    {
        edits.push(
            rename_target_method_invocation_with_wrap(&target_method_invocations_with_wrap[index]),
        );
        index = index + 1;
    }
    assert(edit_views(edits@) =~= call_views(target_method_invocations_with_wrap@).map_values(
        |call: CallView| unsuffixing_edit(call.location, call.method_definition.method_name),
    ));
    edits
}

/// Plans the deletion of a wrapping accessor.
pub fn remove_wrap_invocation(wrap_invocation: &Location) -> (edit: LocatedEdit)
    requires
        wrap_invocation.column >= 1,
        wrap_invocation.column + WRAP_ACCESSOR_LENGTH <= usize::MAX,
    ensures
        edit@ == unwrapping_edit(wrap_invocation@),
{
    LocatedEdit {
        location: Location {
            file_path: wrap_invocation.file_path.clone(),
            line: wrap_invocation.line,
            column: wrap_invocation.column - 1,
        },
        kind: EditKind::Remove { end_location: right_of(wrap_invocation, WRAP_ACCESSOR_LENGTH) },
    }
}

/// Plans the deletion of each wrapping accessor, in the order given.
pub fn remove_wrap_invocations(wrap_invocations: &[Location]) -> (edits: Vec<LocatedEdit>)
    requires
        forall|i: int|
            0 <= i < wrap_invocations@.len() ==> (#[trigger] wrap_invocations@[i]).column >= 1
                && wrap_invocations@[i].column + WRAP_ACCESSOR_LENGTH <= usize::MAX,
    ensures
        edit_views(edits@) == location_views(wrap_invocations@).map_values(
            |location: LocationView| unwrapping_edit(location),
        ),
{
    let mut edits: Vec<LocatedEdit> = Vec::new();
    let mut index: usize = 0;
    while index < wrap_invocations.len()
        invariant
            index <= wrap_invocations.len(),
            forall|i: int|
                0 <= i < wrap_invocations@.len() ==> (#[trigger] wrap_invocations@[i]).column
                    >= 1 && wrap_invocations@[i].column + WRAP_ACCESSOR_LENGTH <= usize::MAX,
            edits@.len() == index,
            forall|i: int|
                0 <= i < index ==> (#[trigger] edits@[i])@ == unwrapping_edit(
                    wrap_invocations@[i]@,
                ),
        decreases wrap_invocations.len() - index,
    {
        edits.push(remove_wrap_invocation(&wrap_invocations[index]));
        index = index + 1;
    }
    assert(edit_views(edits@) =~= location_views(wrap_invocations@).map_values(
        |location: LocationView| unwrapping_edit(location),
    ));
    edits
}

} // verus!
