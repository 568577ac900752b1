//! Coordinates of a place in a file, and the records that carry them.

use vstd::prelude::*;

verus! {

/// A place in a file: a path, a zero-based line and a zero-based column that
/// counts characters from the start of the line.
#[derive(Clone, Debug, PartialEq, Eq, PartialOrd, Ord)]
pub struct Location {
    pub file_path: String,
    pub line: usize,
    pub column: usize,
}

/// What a [`Location`] stands for in contracts.
pub struct LocationView {
    pub file_path: Seq<char>,
    pub line: nat,
    pub column: nat,
}

impl View for Location {
    type V = LocationView;

    open spec fn view(&self) -> LocationView {
        LocationView {
            file_path: self.file_path@,
            line: self.line as nat,
            column: self.column as nat,
        }
    }
}

impl Location {
    /// A location with its own copy of the path.
    pub fn duplicate(&self) -> (copy: Location)
        ensures
            copy@ == self@,
    {
        Location { file_path: self.file_path.clone(), line: self.line, column: self.column }
    }
}

/// A definition site: where a function's name stands, and the name.
#[derive(Clone, Debug, PartialEq, Eq, PartialOrd, Ord)]
pub struct MethodDefinitionLocationAndName {
    pub location: Location,
    pub method_name: String,
}

/// What a [`MethodDefinitionLocationAndName`] stands for in contracts.
pub struct DefinitionView {
    pub location: LocationView,
    pub method_name: Seq<char>,
}

impl View for MethodDefinitionLocationAndName {
    type V = DefinitionView;

    open spec fn view(&self) -> DefinitionView {
        DefinitionView { location: self.location@, method_name: self.method_name@ }
    }
}

impl MethodDefinitionLocationAndName {
    /// A record with its own copies of the path and the name.
    pub fn duplicate(&self) -> (copy: MethodDefinitionLocationAndName)
        ensures
            copy@ == self@,
    {
        MethodDefinitionLocationAndName {
            location: self.location.duplicate(),
            method_name: self.method_name.clone(),
        }
    }
}

/// A call site: where the callee's name stands, and the definition that the
/// name resolved to.
#[derive(Debug, PartialEq, Eq, PartialOrd, Ord)]
pub struct MethodCallLocation {
    pub location: Location,
    pub method_definition: MethodDefinitionLocationAndName,
}

/// What a [`MethodCallLocation`] stands for in contracts.
pub struct CallView {
    pub location: LocationView,
    pub method_definition: DefinitionView,
}

impl View for MethodCallLocation {
    type V = CallView;

    open spec fn view(&self) -> CallView {
        CallView { location: self.location@, method_definition: self.method_definition@ }
    }
}

} // verus!
