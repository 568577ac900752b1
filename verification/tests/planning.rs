use located_edits::buffer::TextBuffer;
use located_edits::edit::{EditKind, LocatedEdit};
use located_edits::index::NameIndex;
use located_edits::location::{Location, MethodCallLocation, MethodDefinitionLocationAndName};
use located_edits::plan::{
    remove_wrap_invocation, remove_wrap_invocations,
    rename_target_method_definition_and_add_macro_attribute,
    rename_target_method_definitions_and_add_macro_attribute, rename_target_method_invocation,
    rename_target_method_invocation_with_wrap, rename_target_method_invocations,
    rename_target_method_invocations_with_wrap,
};
use located_edits::query::{get_target_method_invocation_query, get_wrap_query};
use located_edits::sorting::sort_descending;

fn location(file_path: &str, line: usize, column: usize) -> Location {
    Location { file_path: file_path.to_string(), line, column }
}

fn definition(file_path: &str, line: usize, column: usize, name: &str) -> MethodDefinitionLocationAndName {
    MethodDefinitionLocationAndName {
        location: location(file_path, line, column),
        method_name: name.to_string(),
    }
}

fn call(file_path: &str, line: usize, column: usize, name: &str) -> MethodCallLocation {
    MethodCallLocation {
        location: location(file_path, line, column),
        method_definition: definition("src/factory.rs", 0, 11, name),
    }
}

fn replace(file_path: &str, line: usize, column: usize, end_column: usize, text: &str) -> LocatedEdit {
    LocatedEdit {
        location: location(file_path, line, column),
        kind: EditKind::Replace {
            end_location: location(file_path, line, end_column),
            replacement_text: text.to_string(),
        },
    }
}

#[test]
fn a_definition_is_renamed_and_marked() {
    let edits = rename_target_method_definition_and_add_macro_attribute(&definition("f.rs", 1, 11, "create_node"));
    assert_eq!(
        edits,
        vec![
            replace("f.rs", 1, 11, 22, "create_node_raw"),
            LocatedEdit {
                location: location("f.rs", 1, 0),
                kind: EditKind::InsertBefore {
                    text: "#[generate_node_factory_method_wrapper]\n".to_string(),
                },
            },
        ]
    );
    let mut buffer = TextBuffer::from_text("impl F {\n    pub fn create_node(&self) -> Node {}\n}\n");
    assert_eq!(buffer.apply_edits(&edits), Ok(()));
    assert_eq!(
        buffer.to_text(),
        "impl F {\n#[generate_node_factory_method_wrapper]\n    pub fn create_node_raw(&self) -> Node {}\n}\n"
    );
}

#[test]
fn definitions_are_planned_in_their_order() {
    let definitions = vec![definition("f.rs", 3, 7, "create_b"), definition("f.rs", 1, 7, "create_a")];
    let edits = rename_target_method_definitions_and_add_macro_attribute(&definitions);
    assert_eq!(edits.len(), 4);
    assert_eq!(edits[0], replace("f.rs", 3, 7, 15, "create_b_raw"));
    assert_eq!(edits[1].location, location("f.rs", 3, 0));
    assert_eq!(edits[2], replace("f.rs", 1, 7, 15, "create_a_raw"));
    assert_eq!(edits[3].location, location("f.rs", 1, 0));
    let mut buffer = TextBuffer::from_text("// a\npub fn create_a() -> A {}\n// b\npub fn create_b() -> B {}\n");
    assert_eq!(buffer.apply_edits(&edits), Ok(()));
    assert_eq!(
        buffer.to_text(),
        "// a\n#[generate_node_factory_method_wrapper]\npub fn create_a_raw() -> A {}\n// b\n#[generate_node_factory_method_wrapper]\npub fn create_b_raw() -> B {}\n"
    );
    assert_eq!(rename_target_method_definitions_and_add_macro_attribute(&[]), vec![]);
}

#[test]
fn a_call_is_renamed() {
    assert_eq!(
        rename_target_method_invocation(&call("b.rs", 2, 9, "create_node")),
        replace("b.rs", 2, 9, 20, "create_node_raw")
    );
    assert_eq!(
        rename_target_method_invocations(&[call("b.rs", 2, 9, "create_node"), call("b.rs", 0, 1, "x")]),
        vec![replace("b.rs", 2, 9, 20, "create_node_raw"), replace("b.rs", 0, 1, 2, "x_raw")]
    );
}

#[test]
fn a_wrapped_call_loses_its_suffix() {
    assert_eq!(
        rename_target_method_invocation_with_wrap(&call("b.rs", 2, 9, "create_node")),
        replace("b.rs", 2, 9, 24, "create_node")
    );
    assert_eq!(
        rename_target_method_invocations_with_wrap(&[call("b.rs", 2, 9, "create_node")]),
        vec![replace("b.rs", 2, 9, 24, "create_node")]
    );
}

#[test]
fn renaming_and_renaming_back_restores_the_text() {
    let text = "fn f() {\n    self.create_node(x);\n}\n";
    let site = call("b.rs", 1, 9, "create_node");
    let mut buffer = TextBuffer::from_text(text);
    assert_eq!(buffer.apply_edit(&rename_target_method_invocation(&site)), Ok(()));
    assert_eq!(buffer.to_text(), "fn f() {\n    self.create_node_raw(x);\n}\n");
    assert_eq!(buffer.apply_edit(&rename_target_method_invocation_with_wrap(&site)), Ok(()));
    assert_eq!(buffer.to_text(), text);
}

#[test]
fn a_wrapping_accessor_is_deleted_with_its_dot() {
    let edit = remove_wrap_invocation(&location("b.rs", 0, 20));
    assert_eq!(
        edit,
        LocatedEdit {
            location: location("b.rs", 0, 19),
            kind: EditKind::Remove { end_location: location("b.rs", 0, 26) },
        }
    );
    let mut buffer = TextBuffer::from_text("x.create_node_raw().wrap();\n");
    assert_eq!(buffer.apply_edit(&edit), Ok(()));
    assert_eq!(buffer.to_text(), "x.create_node_raw();\n");
    assert_eq!(remove_wrap_invocations(&[location("b.rs", 0, 20)]), vec![edit]);
}

#[test]
fn unwrapping_a_batch_in_descending_order() {
    let text = "a.one_raw().wrap().two_raw().wrap();\nthree_raw().wrap()\n";
    let wraps = vec![location("b.rs", 0, 12), location("b.rs", 0, 29), location("b.rs", 1, 12)];
    let calls = vec![call("b.rs", 0, 2, "one"), call("b.rs", 0, 19, "two"), call("b.rs", 1, 0, "three")];
    let mut edits = remove_wrap_invocations(&wraps);
    edits.extend(rename_target_method_invocations_with_wrap(&calls));
    let sorted = sort_descending(&edits);
    let mut buffer = TextBuffer::from_text(text);
    assert_eq!(buffer.apply_edits(&sorted), Ok(()));
    assert_eq!(buffer.to_text(), "a.one().two();\nthree()\n");
    let mut reloading = TextBuffer::from_text(text);
    assert_eq!(reloading.apply_edits_reloading(&sorted), Ok(()));
    assert_eq!(reloading.to_text(), "a.one().two();\nthree()\n");
}

#[test]
fn sorting_goes_from_the_last_location_to_the_first() {
    let edits = vec![
        replace("b.rs", 1, 4, 5, "b14"),
        replace("a.rs", 9, 0, 1, "a90"),
        replace("b.rs", 1, 10, 11, "b110"),
        replace("b.rs", 0, 20, 21, "b020"),
        replace("ab.rs", 0, 0, 1, "ab00"),
        replace("b.rs", 12, 0, 1, "b120"),
    ];
    let sorted = sort_descending(&edits);
    let order: Vec<(String, usize, usize)> = sorted
        .iter()
        .map(|edit| (edit.location.file_path.clone(), edit.location.line, edit.location.column))
        .collect();
    let mut expected: Vec<(String, usize, usize)> = edits
        .iter()
        .map(|edit| (edit.location.file_path.clone(), edit.location.line, edit.location.column))
        .collect();
    expected.sort();
    expected.reverse();
    assert_eq!(order, expected);
    assert_eq!(order[0], ("b.rs".to_string(), 12, 0));
    assert_eq!(order[5], ("a.rs".to_string(), 9, 0));
    assert_eq!(sort_descending(&sorted), sorted);
    assert_eq!(sort_descending(&[]), vec![]);
}

#[test]
fn sorting_agrees_with_the_order_of_locations() {
    let mut locations = vec![
        location("src/a.rs", 3, 1),
        location("src/a.rs", 3, 0),
        location("src/\u{e9}.rs", 0, 0),
        location("src/z.rs", 0, 0),
        location("src/a", 7, 7),
        location("src", 0, 0),
        location("", 5, 5),
    ];
    for first in &locations {
        for second in &locations {
            assert_eq!(first.precedes(second), first < second, "{first:?} {second:?}");
        }
    }
    locations.sort();
    for pair in locations.windows(2) {
        assert!(pair[0].precedes(&pair[1]));
        assert!(!pair[1].precedes(&pair[0]));
    }
}

#[test]
fn edits_of_one_location_keep_their_order() {
    let first = replace("a.rs", 1, 0, 3, "first");
    let second = LocatedEdit {
        location: location("a.rs", 1, 0),
        kind: EditKind::InsertBefore { text: "second\n".to_string() },
    };
    let later = replace("a.rs", 2, 0, 1, "later");
    let sorted = sort_descending(&[first.clone(), second.clone(), later.clone()]);
    assert_eq!(sorted, vec![later, first, second]);
}

#[test]
fn the_index_holds_each_name_once() {
    let mut index = NameIndex::new();
    assert_eq!(index.len(), 0);
    assert_eq!(index.get("create_a"), None);
    index.insert(definition("a.rs", 1, 1, "create_a"));
    index.insert(definition("b.rs", 2, 2, "create_b"));
    index.insert(definition("c.rs", 3, 3, "create_a"));
    assert_eq!(index.len(), 2);
    assert_eq!(index.get("create_a"), Some(&definition("c.rs", 3, 3, "create_a")));
    assert_eq!(index.get("create_b"), Some(&definition("b.rs", 2, 2, "create_b")));
    assert_eq!(index.get("create_c"), None);
    assert_eq!(index.name(0), "create_a");
    assert_eq!(index.name(1), "create_b");
    let built = NameIndex::from_definitions(&[
        definition("a.rs", 1, 1, "create_a"),
        definition("b.rs", 2, 2, "create_b"),
        definition("c.rs", 3, 3, "create_a"),
    ]);
    assert_eq!(built.len(), 2);
    assert_eq!(built.get("create_a"), Some(&definition("c.rs", 3, 3, "create_a")));
}

#[test]
fn the_query_lists_the_names_of_the_index() {
    let index = NameIndex::from_definitions(&[
        definition("a.rs", 1, 1, "create_a"),
        definition("b.rs", 2, 2, "create_b"),
    ]);
    assert_eq!(
        get_target_method_invocation_query(&index, false),
        "(call_expression\n             function: (field_expression\n               field: (field_identifier) @method_name (#match? @method_name \"(?:^create_a$)|(?:^create_b$)\")\n             )\n           )"
    );
    assert_eq!(
        get_target_method_invocation_query(&index, true),
        "(call_expression\n             function: (field_expression\n               field: (field_identifier) @method_name (#match? @method_name \"(?:^create_a_raw$)|(?:^create_b_raw$)\")\n             )\n           )"
    );
    assert_eq!(
        get_target_method_invocation_query(&NameIndex::new(), false),
        "(call_expression\n             function: (field_expression\n               field: (field_identifier) @method_name (#match? @method_name \"\")\n             )\n           )"
    );
}

#[test]
fn the_wrap_query_holds_the_query_for_renamed_calls() {
    let index = NameIndex::from_definitions(&[definition("a.rs", 1, 1, "create_a")]);
    assert_eq!(
        get_wrap_query(&index),
        "(call_expression\n             function: (field_expression\n               value: (call_expression\n             function: (field_expression\n               field: (field_identifier) @method_name (#match? @method_name \"(?:^create_a_raw$)\")\n             )\n           )\n               field: (field_identifier) @wrap (#eq? @wrap \"wrap\")\n             )\n        )"
    );
}
