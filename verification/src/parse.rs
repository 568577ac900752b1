//! Reading the lines that a structural search prints, one match per line, as
//! `path:line:column:context` with one-based line and column.

use vstd::prelude::*;

use vstd::string::StrSliceExecFns;

use crate::index::{definition_views, find_entry, lemma_found_entry_has_name, NameIndex};
use crate::location::{
    CallView, DefinitionView, Location, LocationView, MethodCallLocation,
    MethodDefinitionLocationAndName,
};
use crate::number::{all_digits, decimal_value, parse_decimal};
use crate::pattern::{capture_groups, captured_groups};
use crate::split::{split_at, split_text};

verus! {

/// The shape of a line that reports a definition: the coordinates, then a
/// context in which the keyword `fn` is followed by the declared name.
pub const DEFINITION_PATTERN: &'static str = "^([^:]+):(\\d+):(\\d+):.* fn ([a-z_]+)";

/// The shape of a line that reports a call: the coordinates, then the text of
/// the source line.
pub const INVOCATION_PATTERN: &'static str = "^([^:]+):(\\d+):(\\d+):(.+)";

/// The shape of a line that reports a wrapping accessor: the coordinates.
pub const WRAP_PATTERN: &'static str = "^([^:]+):(\\d+):(\\d+):";

/// The shape of a name at the start of a text.
pub const NAME_PATTERN: &'static str = "^[a-z_]+";

/// The ending that a renamed function carries.
pub const RAW_SUFFIX: &'static str = "_raw";

/// The character that ends each line of a report.
pub const LINE_SEPARATOR: char = '\n';

/// Why a line could not be read.
#[derive(Clone, Debug, PartialEq, Eq)]
pub enum ParseError {
    /// The line, which does not have the shape expected of it.
    MalformedMatch(String),
    /// The name that a call site uses and no definition carries.
    UnknownSymbol(String),
}

/// What a [`ParseError`] stands for in contracts.
pub enum ParseErrorView {
    MalformedMatch(Seq<char>),
    UnknownSymbol(Seq<char>),
}

impl View for ParseError {
    type V = ParseErrorView;

    open spec fn view(&self) -> ParseErrorView {
        match self {
            ParseError::MalformedMatch(line) => ParseErrorView::MalformedMatch(line@),
            ParseError::UnknownSymbol(name) => ParseErrorView::UnknownSymbol(name@),
        }
    }
}

/// The zero-based number that a one-based decimal number denotes, if the text
/// is such a number and it can be held.
pub open spec fn one_based(digits: Seq<char>) -> Option<nat> {
    if all_digits(digits) && 1 <= decimal_value(digits) <= usize::MAX {
        Some((decimal_value(digits) - 1) as nat)
    } else {
        None
    }
}

/// The text of group `index`, if the match has such a group and it took part.
pub open spec fn group_text(groups: Seq<Option<Seq<char>>>, index: int) -> Option<Seq<char>> {
    if 0 <= index < groups.len() {
        groups[index]
    } else {
        None
    }
}

/// The location that the first three groups of a match denote.
pub open spec fn location_of_groups(groups: Option<Seq<Option<Seq<char>>>>) -> Option<
    LocationView,
> {
    match groups {
        Some(groups) => match (
            group_text(groups, 1),
            group_text(groups, 2),
            group_text(groups, 3),
        ) {
            (Some(file_path), Some(line), Some(column)) => match (
                one_based(line),
                one_based(column),
            ) {
                (Some(line), Some(column)) => Some(LocationView { file_path, line, column }),
                _ => None,
            },
            _ => None,
        },
        None => None,
    }
}

/// The definition that a match denotes: its location, and its fourth group
/// as the name.
pub open spec fn definition_of_groups(groups: Option<Seq<Option<Seq<char>>>>) -> Option<
    DefinitionView,
> {
    match (location_of_groups(groups), groups) {
        (Some(location), Some(groups)) => match group_text(groups, 4) {
            Some(method_name) => Some(DefinitionView { location, method_name }),
            None => None,
        },
        _ => None,
    }
}

/// What reading `line` as the report of a definition gives.
pub open spec fn definition_of_line(line: Seq<char>) -> Result<DefinitionView, ParseErrorView> {
    match definition_of_groups(captured_groups(DEFINITION_PATTERN@, line)) {
        Some(definition) => Ok(definition),
        None => Err(ParseErrorView::MalformedMatch(line)),
    }
}

/// What reading `line` as the report of a wrapping accessor gives.
pub open spec fn wrap_of_line(line: Seq<char>) -> Result<LocationView, ParseErrorView> {
    match location_of_groups(captured_groups(WRAP_PATTERN@, line)) {
        Some(location) => Ok(location),
        None => Err(ParseErrorView::MalformedMatch(line)),
    }
}

/// Reads a one-based decimal number and gives the zero-based number.
pub fn parse_one_based(digits: &str) -> (number: Option<usize>)
    ensures
        number is Some <==> one_based(digits@) is Some,
        number is Some ==> number->Some_0 == one_based(digits@)->Some_0,
{
    match parse_decimal(digits) {
        Some(value) => if value >= 1 {
            Some(value - 1)
        } else {
            None
        },
        None => None,
    }
}

/// The text of group `index` of a match.
fn group<'a>(groups: &'a Vec<Option<String>>, index: usize) -> (text: Option<&'a String>)
    ensures
        text is Some <==> group_text(groups.deep_view(), index as int) is Some,
        text is Some ==> text->Some_0@ == group_text(groups.deep_view(), index as int)->Some_0,
{
    if index < groups.len() {
        assert(groups.deep_view()[index as int] == groups@[index as int].deep_view());
        match &groups[index] {
            Some(text) => Some(text),
            None => None,
        }
    } else {
        None
    }
}

/// The location that the first three groups of a match denote: the path,
/// and the line and the column brought from one-based to zero-based. Gives
/// `None` where there was no match, where a group is missing, and where a
/// number is zero, is not decimal or cannot be held.
pub fn location_from_groups(groups: &Option<Vec<Option<String>>>) -> (location: Option<Location>)
    ensures
        location is Some <==> location_of_groups(groups.deep_view()) is Some,
        location is Some ==> location->Some_0@ == location_of_groups(groups.deep_view())->Some_0,
{
    let groups = match groups {
        Some(groups) => groups,
        None => { return None; },
    };
    let file_path = match group(groups, 1) {
        Some(file_path) => file_path,
        None => { return None; },
    };
    let line = match group(groups, 2) {
        Some(line) => line,
        None => { return None; },
    };
    let column = match group(groups, 3) {
        Some(column) => column,
        None => { return None; },
    };
    let line = match parse_one_based(line.as_str()) {
        Some(line) => line,
        None => { return None; },
    };
    let column = match parse_one_based(column.as_str()) {
        Some(column) => column,
        None => { return None; },
    };
    Some(Location { file_path: file_path.clone(), line, column })
}

/// The definition that a match denotes: its location, and its fourth group
/// as the name.
pub fn definition_from_groups(groups: &Option<Vec<Option<String>>>) -> (definition: Option<
    MethodDefinitionLocationAndName,
>)
    ensures
        definition is Some <==> definition_of_groups(groups.deep_view()) is Some,
        definition is Some ==> definition->Some_0@ == definition_of_groups(
            groups.deep_view(),
        )->Some_0,
{
    let location = match location_from_groups(groups) {
        Some(location) => location,
        None => { return None; },
    };
    match groups {
        Some(groups) => match group(groups, 4) {
            Some(method_name) => Some(
                MethodDefinitionLocationAndName { location, method_name: method_name.clone() },
            ),
            None => None,
        },
        None => None,
    }
}

/// Reads one line that reports a definition.
pub fn parse_target_method_definition(match_text: &str) -> (result: Result<
    MethodDefinitionLocationAndName,
    ParseError,
>)
    ensures
        result is Ok <==> definition_of_line(match_text@) is Ok,
        result is Ok ==> result->Ok_0@ == definition_of_line(match_text@)->Ok_0,
        result is Err ==> result->Err_0@ == definition_of_line(match_text@)->Err_0,
{
    let groups = capture_groups(DEFINITION_PATTERN, match_text);
    match definition_from_groups(&groups) {
        Some(definition) => Ok(definition),
        None => Err(ParseError::MalformedMatch(match_text.to_owned())),
    }
}

/// Reads one line that reports a wrapping accessor.
pub fn parse_wrap_invocation(match_text: &str) -> (result: Result<Location, ParseError>)
    ensures
        result is Ok <==> wrap_of_line(match_text@) is Ok,
        result is Ok ==> result->Ok_0@ == wrap_of_line(match_text@)->Ok_0,
        result is Err ==> result->Err_0@ == wrap_of_line(match_text@)->Err_0,
{
    let groups = capture_groups(WRAP_PATTERN, match_text);
    match location_from_groups(&groups) {
        Some(location) => Ok(location),
        None => Err(ParseError::MalformedMatch(match_text.to_owned())),
    }
}

/// The location and the source text that a match of a call denotes.
pub open spec fn site_of_groups(groups: Option<Seq<Option<Seq<char>>>>) -> Option<
    (LocationView, Seq<char>),
> {
    match (location_of_groups(groups), groups) {
        (Some(location), Some(groups)) => match group_text(groups, 4) {
            Some(line_text) => Some((location, line_text)),
            None => None,
        },
        _ => None,
    }
}

/// The name that starts at `column` of `line_text`, counting characters.
pub open spec fn name_at_column(line_text: Seq<char>, column: nat) -> Option<Seq<char>> {
    if column <= line_text.len() {
        match captured_groups(NAME_PATTERN@, line_text.skip(column as int)) {
            Some(groups) => group_text(groups, 0),
            None => None,
        }
    } else {
        None
    }
}

/// Whether `text` ends in `ending`.
pub open spec fn ends_with(text: Seq<char>, ending: Seq<char>) -> bool {
    text.len() >= ending.len() && text.skip(text.len() - ending.len()) == ending
}

/// The name to look up for a name found at a call site: the name itself, or,
/// where the site is expected to carry the ending of a renamed function, the
/// name without that ending.
pub open spec fn name_to_resolve(found: Seq<char>, strip: bool) -> Option<Seq<char>> {
    if !strip {
        Some(found)
    } else if ends_with(found, RAW_SUFFIX@) {
        Some(found.take(found.len() - RAW_SUFFIX@.len()))
    } else {
        None
    }
}

/// The call that a name found at `location` denotes. `line` is the report
/// that the name came from.
pub open spec fn call_of_name(
    location: LocationView,
    found: Seq<char>,
    index: Seq<DefinitionView>,
    strip: bool,
    line: Seq<char>,
) -> Result<CallView, ParseErrorView> {
    match name_to_resolve(found, strip) {
        Some(name) => match find_entry(index, name) {
            Some(method_definition) => Ok(CallView { location, method_definition }),
            None => Err(ParseErrorView::UnknownSymbol(name)),
        },
        None => Err(ParseErrorView::MalformedMatch(line)),
    }
}

/// What reading `line` as the report of a call gives.
pub open spec fn call_of_line(line: Seq<char>, index: Seq<DefinitionView>, strip: bool) -> Result<
    CallView,
    ParseErrorView,
> {
    match site_of_groups(captured_groups(INVOCATION_PATTERN@, line)) {
        Some((location, line_text)) => match name_at_column(line_text, location.column) {
            Some(found) => call_of_name(location, found, index, strip, line),
            None => Err(ParseErrorView::MalformedMatch(line)),
        },
        None => Err(ParseErrorView::MalformedMatch(line)),
    }
}

/// The location and the source text that a match of a call denotes.
pub fn site_from_groups(groups: &Option<Vec<Option<String>>>) -> (site: Option<
    (Location, String),
>)
    ensures
        site is Some <==> site_of_groups(groups.deep_view()) is Some,
        site is Some ==> (site->Some_0.0@, site->Some_0.1@) == site_of_groups(
            groups.deep_view(),
        )->Some_0,
{
    let location = match location_from_groups(groups) {
        Some(location) => location,
        None => { return None; },
    };
    match groups {
        Some(groups) => match group(groups, 4) {
            Some(line_text) => Some((location, line_text.clone())),
            None => None,
        },
        None => None,
    }
}

/// The name that starts at `column` of `line_text`, counting characters.
pub fn name_at(line_text: &str, column: usize) -> (name: Option<String>)
    ensures
        name is Some <==> name_at_column(line_text@, column as nat) is Some,
        name is Some ==> name->Some_0@ == name_at_column(line_text@, column as nat)->Some_0,
{
    let len = line_text.unicode_len();
    if column > len {
        return None;
    }
    let rest = line_text.substring_char(column, len);
    assert(rest@ =~= line_text@.skip(column as int));
    match capture_groups(NAME_PATTERN, rest) {
        Some(groups) => match group(&groups, 0) {
            Some(name) => Some(name.clone()),
            None => None,
        },
        None => None,
    }
}

/// The name to look up for a name found at a call site.
pub fn resolvable_name(found: &str, strip: bool) -> (name: Option<String>)
    ensures
        name is Some <==> name_to_resolve(found@, strip) is Some,
        name is Some ==> name->Some_0@ == name_to_resolve(found@, strip)->Some_0,
{
    if !strip {
        return Some(found.to_owned());
    }
    let len = found.unicode_len();
    let ending_len = RAW_SUFFIX.unicode_len();
    if len < ending_len {
        return None;
    }
    let ending = found.substring_char(len - ending_len, len);
    assert(ending@ =~= found@.skip(found@.len() - RAW_SUFFIX@.len()));
    if ending.to_owned() == RAW_SUFFIX.to_owned() {
        let name = found.substring_char(0, len - ending_len);
        assert(name@ =~= found@.take(found@.len() - RAW_SUFFIX@.len()));
        Some(name.to_owned())
    } else {
        None
    }
}

/// The call that a name found at `location` denotes: the definition that the
/// name resolves to, or the error that says why there is none.
pub fn call_from_name(
    location: Location,
    found: &str,
    index: &NameIndex,
    strip: bool,
    match_text: &str,
) -> (result: Result<MethodCallLocation, ParseError>)
    ensures
        result is Ok <==> call_of_name(location@, found@, index@, strip, match_text@) is Ok,
        result is Ok ==> result->Ok_0@ == call_of_name(
            location@,
            found@,
            index@,
            strip,
            match_text@,
        )->Ok_0,
        result is Err ==> result->Err_0@ == call_of_name(
            location@,
            found@,
            index@,
            strip,
            match_text@,
        )->Err_0,
{
    let name = match resolvable_name(found, strip) {
        Some(name) => name,
        None => { return Err(ParseError::MalformedMatch(match_text.to_owned())); },
    };
    match index.get(name.as_str()) {
        Some(definition) => Ok(
            MethodCallLocation { location, method_definition: definition.duplicate() },
        ),
        None => Err(ParseError::UnknownSymbol(name)),
    }
}

/// Reads one line that reports a call, and resolves the callee's name.
pub fn parse_target_method_invocation(
    match_text: &str,
    target_method_definitions_by_name: &NameIndex,
    should_strip_raw_suffix: bool,
) -> (result: Result<MethodCallLocation, ParseError>)
    ensures
        result is Ok <==> call_of_line(
            match_text@,
            target_method_definitions_by_name@,
            should_strip_raw_suffix,
        ) is Ok,
        result is Ok ==> result->Ok_0@ == call_of_line(
            match_text@,
            target_method_definitions_by_name@,
            should_strip_raw_suffix,
        )->Ok_0,
        result is Err ==> result->Err_0@ == call_of_line(
            match_text@,
            target_method_definitions_by_name@,
            should_strip_raw_suffix,
        )->Err_0,
{
    let groups = capture_groups(INVOCATION_PATTERN, match_text);
    let (location, line_text) = match site_from_groups(&groups) {
        Some(site) => site,
        None => { return Err(ParseError::MalformedMatch(match_text.to_owned())); },
    };
    match name_at(line_text.as_str(), location.column) {
        Some(found) => call_from_name(
            location,
            found.as_str(),
            target_method_definitions_by_name,
            should_strip_raw_suffix,
            match_text,
        ),
        None => Err(ParseError::MalformedMatch(match_text.to_owned())),
    }
}

/// What reading each line that is not empty gives, in order; the error of the
/// first line that cannot be read, if there is one.
pub open spec fn read_lines<T>(
    lines: Seq<Seq<char>>,
    read: spec_fn(Seq<char>) -> Result<T, ParseErrorView>,
) -> Result<Seq<T>, ParseErrorView>
    decreases lines.len(),
{
    if lines.len() == 0 {
        Ok(Seq::empty())
    } else {
        match read_lines(lines.drop_last(), read) {
            Ok(items) => if lines.last().len() == 0 {
                Ok(items)
            } else {
                match read(lines.last()) {
                    Ok(item) => Ok(items.push(item)),
                    Err(error) => Err(error),
                }
            },
            Err(error) => Err(error),
        }
    }
}

/// What reading a report of definitions gives.
pub open spec fn definitions_of_report(report: Seq<char>) -> Result<
    Seq<DefinitionView>,
    ParseErrorView,
> {
    read_lines(split_at(report, LINE_SEPARATOR), |line: Seq<char>| definition_of_line(line))
}

/// What reading a report of calls gives.
pub open spec fn calls_of_report(
    report: Seq<char>,
    index: Seq<DefinitionView>,
    strip: bool,
) -> Result<Seq<CallView>, ParseErrorView> {
    read_lines(
        split_at(report, LINE_SEPARATOR),
        |line: Seq<char>| call_of_line(line, index, strip),
    )
}

/// What reading a report of wrapping accessors gives.
pub open spec fn wraps_of_report(report: Seq<char>) -> Result<Seq<LocationView>, ParseErrorView> {
    read_lines(split_at(report, LINE_SEPARATOR), |line: Seq<char>| wrap_of_line(line))
}

/// The views of a list of calls, in order.
pub open spec fn call_views(calls: Seq<MethodCallLocation>) -> Seq<CallView> {
    calls.map_values(|call: MethodCallLocation| call@)
}

/// The views of a list of locations, in order.
pub open spec fn location_views(locations: Seq<Location>) -> Seq<LocationView> {
    locations.map_values(|location: Location| location@)
}

/// Reads a report of definitions, one to a line; empty lines are passed over.
pub fn parse_target_method_definitions(matches_text: &str) -> (result: Result<
    Vec<MethodDefinitionLocationAndName>,
    ParseError,
>)
    ensures
        result is Ok <==> definitions_of_report(matches_text@) is Ok,
        result is Ok ==> definition_views(result->Ok_0@) == definitions_of_report(
            matches_text@,
        )->Ok_0,
        result is Err ==> result->Err_0@ == definitions_of_report(matches_text@)->Err_0,
{
    let lines = split_text(matches_text, LINE_SEPARATOR);
    let ghost all = lines.deep_view();
    let ghost read = |line: Seq<char>| definition_of_line(line);
    let mut definitions: Vec<MethodDefinitionLocationAndName> = Vec::new();
    let mut index: usize = 0;
    assert(definition_views(definitions@) =~= Seq::<DefinitionView>::empty());
    assert(all.take(0) =~= Seq::<Seq<char>>::empty());
    while index < lines.len()
        invariant
            index <= lines.len(),
            all == lines.deep_view(),
            all == split_at(matches_text@, LINE_SEPARATOR),
            read == |line: Seq<char>| definition_of_line(line),
            read_lines(all.take(index as int), read) == Ok::<Seq<DefinitionView>, ParseErrorView>(
                definition_views(definitions@),
            ),
        decreases lines.len() - index,
    {
        let ghost before = definition_views(definitions@);
        let ghost next = all.take(index as int + 1);
        proof {
            assert(next.drop_last() =~= all.take(index as int));
            assert(next.last() == lines@[index as int]@);
        }
        let line = lines[index].as_str();
        if line.unicode_len() != 0 {
            match parse_target_method_definition(line) {
                Ok(definition) => {
                    definitions.push(definition);
                    assert(definition_views(definitions@) =~= before.push(definition@));
                },
                Err(error) => {
                    proof {
                        lemma_read_lines_error(all, read, index as int + 1);
                    }
                    return Err(error);
                },
            }
        }
        index = index + 1;
    }
    assert(all.take(index as int) =~= all);
    Ok(definitions)
}

/// Reads a report of calls, one to a line, and resolves each callee's name;
/// empty lines are passed over.
pub fn parse_target_method_invocations(
    matches_text: &str,
    target_method_definitions_by_name: &NameIndex,
    should_strip_raw_suffix: bool,
) -> (result: Result<Vec<MethodCallLocation>, ParseError>)
    ensures
        result is Ok <==> calls_of_report(
            matches_text@,
            target_method_definitions_by_name@,
            should_strip_raw_suffix,
        ) is Ok,
        result is Ok ==> call_views(result->Ok_0@) == calls_of_report(
            matches_text@,
            target_method_definitions_by_name@,
            should_strip_raw_suffix,
        )->Ok_0,
        result is Err ==> result->Err_0@ == calls_of_report(
            matches_text@,
            target_method_definitions_by_name@,
            should_strip_raw_suffix,
        )->Err_0,
{
    let lines = split_text(matches_text, LINE_SEPARATOR);
    let ghost all = lines.deep_view();
    let ghost read = |line: Seq<char>|
        call_of_line(line, target_method_definitions_by_name@, should_strip_raw_suffix);
    let mut calls: Vec<MethodCallLocation> = Vec::new();
    let mut index: usize = 0;
    assert(call_views(calls@) =~= Seq::<CallView>::empty());
    assert(all.take(0) =~= Seq::<Seq<char>>::empty());
    while index < lines.len()
        invariant
            index <= lines.len(),
            all == lines.deep_view(),
            all == split_at(matches_text@, LINE_SEPARATOR),
            read == |line: Seq<char>|
                call_of_line(line, target_method_definitions_by_name@, should_strip_raw_suffix),
            read_lines(all.take(index as int), read) == Ok::<Seq<CallView>, ParseErrorView>(
                call_views(calls@),
            ),
        decreases lines.len() - index,
    {
        let ghost before = call_views(calls@);
        let ghost next = all.take(index as int + 1);
        proof {
            assert(next.drop_last() =~= all.take(index as int));
            assert(next.last() == lines@[index as int]@);
        }
        let line = lines[index].as_str();
        if line.unicode_len() != 0 {
            match parse_target_method_invocation(
                line,
                target_method_definitions_by_name,
                should_strip_raw_suffix,
            ) {
                Ok(call) => {
                    calls.push(call);
                    assert(call_views(calls@) =~= before.push(call@));
                },
                Err(error) => {
                    proof {
                        lemma_read_lines_error(all, read, index as int + 1);
                    }
                    return Err(error);
                },
            }
        }
        index = index + 1;
    }
    assert(all.take(index as int) =~= all);
    Ok(calls)
}

/// Reads a report of wrapping accessors, one to a line; empty lines are
/// passed over.
pub fn parse_wrap_invocations(matches_text: &str) -> (result: Result<Vec<Location>, ParseError>)
    ensures
        result is Ok <==> wraps_of_report(matches_text@) is Ok,
        result is Ok ==> location_views(result->Ok_0@) == wraps_of_report(matches_text@)->Ok_0,
        result is Err ==> result->Err_0@ == wraps_of_report(matches_text@)->Err_0,
{
    let lines = split_text(matches_text, LINE_SEPARATOR);
    let ghost all = lines.deep_view();
    let ghost read = |line: Seq<char>| wrap_of_line(line);
    let mut locations: Vec<Location> = Vec::new();
    let mut index: usize = 0;
    assert(location_views(locations@) =~= Seq::<LocationView>::empty());
    assert(all.take(0) =~= Seq::<Seq<char>>::empty());
    while index < lines.len()
        invariant
            index <= lines.len(),
            all == lines.deep_view(),
            all == split_at(matches_text@, LINE_SEPARATOR),
            read == |line: Seq<char>| wrap_of_line(line),
            read_lines(all.take(index as int), read) == Ok::<Seq<LocationView>, ParseErrorView>(
                location_views(locations@),
            ),
        decreases lines.len() - index,
    {
        let ghost before = location_views(locations@);
        let ghost next = all.take(index as int + 1);
        proof {
            assert(next.drop_last() =~= all.take(index as int));
            assert(next.last() == lines@[index as int]@);
        }
        let line = lines[index].as_str();
        if line.unicode_len() != 0 {
            match parse_wrap_invocation(line) {
                Ok(location) => {
                    locations.push(location);
                    assert(location_views(locations@) =~= before.push(location@));
                },
                Err(error) => {
                    proof {
                        lemma_read_lines_error(all, read, index as int + 1);
                    }
                    return Err(error);
                },
            }
        }
        index = index + 1;
    }
    assert(all.take(index as int) =~= all);
    Ok(locations)
}

/// A call by a name that no definition carries is refused. Reading a line
/// gives the error for an unknown symbol exactly where the line has the shape
/// of a call site, a name stands at its column, and the name to look up is
/// not held by the index; the error then carries that name.
pub proof fn lemma_unknown_symbol_rejected(
    line: Seq<char>,
    index: Seq<DefinitionView>,
    strip: bool,
)
    ensures
        call_of_line(line, index, strip) is Err && call_of_line(line, index, strip)->Err_0
            is UnknownSymbol <==> {
            &&& site_of_groups(captured_groups(INVOCATION_PATTERN@, line)) matches Some(site)
            &&& name_at_column(site.1, site.0.column) matches Some(found)
            &&& name_to_resolve(found, strip) matches Some(name)
            &&& find_entry(index, name) is None
        },
        call_of_line(line, index, strip) matches Err(ParseErrorView::UnknownSymbol(name))
            ==> find_entry(index, name) is None,
        call_of_line(line, index, strip) matches Ok(call) ==> find_entry(
            index,
            call.method_definition.method_name,
        ) is Some,
{
    match site_of_groups(captured_groups(INVOCATION_PATTERN@, line)) {
        Some(site) => match name_at_column(site.1, site.0.column) {
            Some(found) => match name_to_resolve(found, strip) {
                Some(name) => {
                    lemma_found_entry_has_name(index, name);
                },
                None => {},
            },
            None => {},
        },
        None => {},
    }
}

/// Once a line cannot be read, reading more lines gives the same error.
pub proof fn lemma_read_lines_error<T>(
    lines: Seq<Seq<char>>,
    read: spec_fn(Seq<char>) -> Result<T, ParseErrorView>,
    upto: int,
)
    requires
        0 <= upto <= lines.len(),
        read_lines(lines.take(upto), read) is Err,
    ensures
        read_lines(lines, read) == read_lines(lines.take(upto), read),
    decreases lines.len() - upto,
{
    if upto == lines.len() {
        assert(lines.take(upto) =~= lines);
    } else {
        assert(lines.take(upto + 1).drop_last() =~= lines.take(upto));
        lemma_read_lines_error(lines, read, upto + 1);
    }
}

} // verus!
