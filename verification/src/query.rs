//! The queries that ask a structural search for call sites.

use vstd::prelude::*;
use vstd::string::StringExecFns;

use crate::index::NameIndex;
use crate::location::DefinitionView;
use crate::parse::RAW_SUFFIX;

verus! {

/// A query for calls by method name, up to the pattern that the name must
/// match.
pub const INVOCATION_QUERY_HEAD: &'static str =
    "(call_expression\n             function: (field_expression\n               field: (field_identifier) @method_name (#match? @method_name \"";

/// A query for calls by method name, from the pattern on.
pub const INVOCATION_QUERY_TAIL: &'static str = "\")\n             )\n           )";

/// A query for calls of a wrapping accessor, up to the query for the value
/// that the accessor is called on.
pub const WRAP_QUERY_HEAD: &'static str =
    "(call_expression\n             function: (field_expression\n               value: ";

/// A query for calls of a wrapping accessor, from the accessor's name on.
pub const WRAP_QUERY_TAIL: &'static str =
    "\n               field: (field_identifier) @wrap (#eq? @wrap \"wrap\")\n             )\n        )";

/// What opens the pattern for one name.
pub const ALTERNATIVE_HEAD: &'static str = "(?:^";

/// What closes the pattern for one name.
pub const ALTERNATIVE_TAIL: &'static str = "$)";

/// What stands between the patterns of two names.
pub const ALTERNATIVE_SEPARATOR: &'static str = "|";

/// The ending that each name carries in a query.
pub open spec fn query_ending(append_raw: bool) -> Seq<char> {
    if append_raw {
        RAW_SUFFIX@
    } else {
        Seq::empty()
    }
}

/// The pattern that matches exactly `name` followed by `ending`.
pub open spec fn alternative(name: Seq<char>, ending: Seq<char>) -> Seq<char> {
    ALTERNATIVE_HEAD@ + name + ending + ALTERNATIVE_TAIL@
}

/// The pattern that matches any of the names of `entries`, each followed by
/// `ending`: one alternative for each entry, in order, with a separator
/// between two.
pub open spec fn alternatives(entries: Seq<DefinitionView>, ending: Seq<char>) -> Seq<char>
    decreases entries.len(),
{
    if entries.len() == 0 {
        Seq::empty()
    } else if entries.len() == 1 {
        alternative(entries[0].method_name, ending)
    } else {
        alternatives(entries.drop_last(), ending) + ALTERNATIVE_SEPARATOR@ + alternative(
            entries.last().method_name,
            ending,
        )
    }
}

/// The query for the calls of any method that `entries` names.
pub open spec fn invocation_query(entries: Seq<DefinitionView>, append_raw: bool) -> Seq<char> {
    INVOCATION_QUERY_HEAD@ + alternatives(entries, query_ending(append_raw))
        + INVOCATION_QUERY_TAIL@
}

/// The query for the wrapping accessors called on the result of any renamed
/// method that `entries` names.
pub open spec fn wrap_query(entries: Seq<DefinitionView>) -> Seq<char> {
    WRAP_QUERY_HEAD@ + invocation_query(entries, true) + WRAP_QUERY_TAIL@
}

/// The query for the calls of any method that the index holds, by its name
/// or, with `append_raw`, by its name with the ending of a renamed function.
/// The names stand in the order in which the index holds them.
pub fn get_target_method_invocation_query(
    target_method_definitions_by_name: &NameIndex,
    append_raw: bool,
) -> (query: String)
    ensures
        query@ == invocation_query(target_method_definitions_by_name@, append_raw),
{
    let ending = if append_raw {
        RAW_SUFFIX
    } else {
        ""
    };
    proof {
        reveal_strlit("");
        assert(ending@ =~= query_ending(append_raw));
    }
    let ghost entries = target_method_definitions_by_name@;
    let count = target_method_definitions_by_name.len();
    let mut pattern = String::new();
    let mut index: usize = 0;
    assert(entries.take(0) =~= Seq::<DefinitionView>::empty());
    while index < count
        invariant
            index <= count,
            count == entries.len(),
            entries == target_method_definitions_by_name@,
            ending@ == query_ending(append_raw),
            pattern@ == alternatives(entries.take(index as int), ending@),
        decreases count - index,
    {
        let ghost next = entries.take(index as int + 1);
        proof {
            assert(next.drop_last() =~= entries.take(index as int));
            assert(next.last() == entries[index as int]);
            assert(next[0] == entries[0]);
        }
        if index > 0 {
            pattern.append(ALTERNATIVE_SEPARATOR);
        }
        pattern.append(ALTERNATIVE_HEAD);
        pattern.append(target_method_definitions_by_name.name(index));
        pattern.append(ending);
        pattern.append(ALTERNATIVE_TAIL);
        assert(pattern@ =~= alternatives(next, ending@));
        index = index + 1;
    }
    assert(entries.take(index as int) =~= entries);
    let query = String::from_str(INVOCATION_QUERY_HEAD).concat(pattern.as_str()).concat(
        INVOCATION_QUERY_TAIL,
    );
    query
}

/// The query for the wrapping accessors called on the result of any renamed
/// method that the index holds.
pub fn get_wrap_query(target_method_definitions_by_name: &NameIndex) -> (query: String)
    ensures
        query@ == wrap_query(target_method_definitions_by_name@),
{
    let inner = get_target_method_invocation_query(target_method_definitions_by_name, true);
    String::from_str(WRAP_QUERY_HEAD).concat(inner.as_str()).concat(WRAP_QUERY_TAIL)
}

} // verus!
