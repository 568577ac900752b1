use located_edits::index::NameIndex;
use located_edits::location::{Location, MethodCallLocation, MethodDefinitionLocationAndName};
use located_edits::number::parse_decimal;
use located_edits::parse::{
    call_from_name, definition_from_groups, location_from_groups, name_at, parse_one_based,
    parse_target_method_definition, parse_target_method_definitions,
    parse_target_method_invocation, parse_target_method_invocations, parse_wrap_invocation,
    parse_wrap_invocations, resolvable_name, site_from_groups, ParseError, DEFINITION_PATTERN,
};

fn location(file_path: &str, line: usize, column: usize) -> Location {
    Location { file_path: file_path.to_string(), line, column }
}

fn definition(file_path: &str, line: usize, column: usize, name: &str) -> MethodDefinitionLocationAndName {
    MethodDefinitionLocationAndName {
        location: location(file_path, line, column),
        method_name: name.to_string(),
    }
}

fn index_of(names: &[&str]) -> NameIndex {
    let mut index = NameIndex::new();
    for (line, name) in names.iter().enumerate() {
        index.insert(definition("src/factory.rs", line, 11, name));
    }
    index
}

fn groups(parts: &[Option<&str>]) -> Option<Vec<Option<String>>> {
    Some(parts.iter().map(|part| part.map(|text| text.to_string())).collect())
}

fn malformed(line: &str) -> ParseError {
    ParseError::MalformedMatch(line.to_string())
}

#[test]
fn a_definition_line_gives_location_and_name() {
    let line = "src/compiler/factory/node_factory.rs:12:12:    pub fn create_node(&self) -> Node {";
    assert_eq!(
        parse_target_method_definition(line),
        Ok(definition("src/compiler/factory/node_factory.rs", 11, 11, "create_node"))
    );
}

#[test]
fn one_based_coordinates_become_zero_based() {
    assert_eq!(
        parse_target_method_definition("a.rs:1:1: fn x"),
        Ok(definition("a.rs", 0, 0, "x"))
    );
    assert_eq!(parse_one_based("1"), Some(0));
    assert_eq!(parse_one_based("517"), Some(516));
    assert_eq!(parse_one_based("0"), None);
    assert_eq!(parse_one_based("000"), None);
    assert_eq!(parse_one_based("007"), Some(6));
}

#[test]
fn the_last_fn_keyword_names_the_definition() {
    assert_eq!(
        parse_target_method_definition("a.rs:3:9:// fn one\tpub fn two_parts(x: fn three"),
        Ok(definition("a.rs", 2, 8, "three"))
    );
    assert_eq!(
        parse_target_method_definition("a.rs:3:9: fn first fn second"),
        Ok(definition("a.rs", 2, 8, "second"))
    );
}

#[test]
fn the_name_ends_at_the_first_other_character() {
    assert_eq!(
        parse_target_method_definition("a.rs:3:9: fn create_node2(x)"),
        Ok(definition("a.rs", 2, 8, "create_node"))
    );
}

#[test]
fn lines_of_another_shape_are_malformed() {
    for line in [
        "",
        "no coordinates at all",
        "a.rs:12: fn x",
        ":1:1: fn x",
        "a.rs:1:1: function x",
        "a.rs:1:1: fn X",
        "a.rs:1:1:fn x",
        "a.rs:x:1: fn x",
        "a.rs:1:-1: fn x",
        "a.rs:0:1: fn x",
        "a.rs:1:0: fn x",
        "a.rs:99999999999999999999999999:1: fn x",
        "a.rs:1:99999999999999999999999999: fn x",
        "a.rs:\u{0663}:1: fn x",
    ] {
        assert_eq!(parse_target_method_definition(line), Err(malformed(line)), "{line:?}");
    }
}

#[test]
fn the_largest_coordinate_is_read() {
    let line = format!("a.rs:{}:1: fn x", usize::MAX);
    assert_eq!(
        parse_target_method_definition(&line),
        Ok(definition("a.rs", usize::MAX - 1, 0, "x"))
    );
    assert_eq!(parse_decimal(&usize::MAX.to_string()), Some(usize::MAX));
    let next = format!("{}0", usize::MAX);
    assert_eq!(parse_decimal(&next), None);
    assert_eq!(parse_decimal("18446744073709551616"), if usize::BITS == 64 { None } else { parse_decimal("18446744073709551616") });
}

#[test]
fn decimal_numbers_are_digits_only() {
    assert_eq!(parse_decimal("0"), Some(0));
    assert_eq!(parse_decimal("42"), Some(42));
    assert_eq!(parse_decimal("0042"), Some(42));
    assert_eq!(parse_decimal(""), None);
    assert_eq!(parse_decimal("+5"), None);
    assert_eq!(parse_decimal("-5"), None);
    assert_eq!(parse_decimal("4 2"), None);
    assert_eq!(parse_decimal("4a"), None);
    assert_eq!(parse_decimal("\u{0664}\u{0662}"), None);
}

#[test]
fn a_report_of_definitions_is_read_line_by_line() {
    let report = "a.rs:1:8:pub fn one() -> A\n\nb.rs:20:12:    pub fn two() -> B\n";
    assert_eq!(
        parse_target_method_definitions(report),
        Ok(vec![definition("a.rs", 0, 7, "one"), definition("b.rs", 19, 11, "two")])
    );
    assert_eq!(parse_target_method_definitions(""), Ok(vec![]));
    assert_eq!(parse_target_method_definitions("\n\n"), Ok(vec![]));
}

#[test]
fn a_report_stops_at_its_first_malformed_line() {
    let report = "a.rs:1:8:pub fn one() -> A\nbroken\nalso broken\n";
    assert_eq!(parse_target_method_definitions(report), Err(malformed("broken")));
}

#[test]
fn a_call_line_resolves_the_name_at_its_column() {
    let index = index_of(&["create_node", "create_token"]);
    let line = "src/compiler/binder.rs:3:10:    self.create_node(x)";
    assert_eq!(
        parse_target_method_invocation(line, &index, false),
        Ok(MethodCallLocation {
            location: location("src/compiler/binder.rs", 2, 9),
            method_definition: definition("src/factory.rs", 0, 11, "create_node"),
        })
    );
}

#[test]
fn the_raw_suffix_is_stripped_before_the_lookup() {
    let index = index_of(&["create_node", "create_token"]);
    let line = "b.rs:3:10:    self.create_token_raw(x).wrap()";
    assert_eq!(
        parse_target_method_invocation(line, &index, true),
        Ok(MethodCallLocation {
            location: location("b.rs", 2, 9),
            method_definition: definition("src/factory.rs", 1, 11, "create_token"),
        })
    );
    assert_eq!(
        parse_target_method_invocation(line, &index, false),
        Err(ParseError::UnknownSymbol("create_token_raw".to_string()))
    );
}

#[test]
fn a_call_of_an_unknown_name_is_refused() {
    let index = index_of(&["create_node"]);
    let line = "b.rs:3:10:    self.create_other(x)";
    assert_eq!(
        parse_target_method_invocation(line, &index, false),
        Err(ParseError::UnknownSymbol("create_other".to_string()))
    );
    assert_eq!(
        parse_target_method_invocation(line, &NameIndex::new(), false),
        Err(ParseError::UnknownSymbol("create_other".to_string()))
    );
    assert_eq!(
        parse_target_method_invocation("b.rs:3:5:    self.create_node(x)", &index, false),
        Err(ParseError::UnknownSymbol("self".to_string()))
    );
    assert_eq!(
        parse_target_method_invocation("b.rs:1:1:_raw()", &index, true),
        Err(ParseError::UnknownSymbol("".to_string()))
    );
}

#[test]
fn call_lines_of_another_shape_are_malformed() {
    let index = index_of(&["create_node"]);
    for line in [
        "",
        "b.rs:3:10:",
        "b.rs:3:10",
        "b.rs:3:40:    self.create_node(x)",
        "b.rs:3:4:    self.create_node(x)",
        "b.rs:3:9:    self.create_node(x)",
        "b.rs:0:10:    self.create_node(x)",
    ] {
        assert_eq!(
            parse_target_method_invocation(line, &index, false),
            Err(malformed(line)),
            "{line:?}"
        );
    }
    let unsuffixed = "b.rs:3:10:    self.create_node(x)";
    assert_eq!(parse_target_method_invocation(unsuffixed, &index, true), Err(malformed(unsuffixed)));
}

#[test]
fn columns_of_call_lines_count_characters() {
    let index = index_of(&["create_node"]);
    let line = "b.rs:1:7:\u{e9}\u{e9}\u{e9}\u{e9}\u{e9}.create_node()";
    assert_eq!(
        parse_target_method_invocation(line, &index, false),
        Ok(MethodCallLocation {
            location: location("b.rs", 0, 6),
            method_definition: definition("src/factory.rs", 0, 11, "create_node"),
        })
    );
}

#[test]
fn a_report_of_calls_is_read_line_by_line() {
    let index = index_of(&["create_node", "create_token"]);
    let report = "b.rs:3:10:    self.create_node(x)\nc.rs:1:1:create_token()\n";
    let calls = parse_target_method_invocations(report, &index, false).unwrap();
    assert_eq!(calls.len(), 2);
    assert_eq!(calls[0].location, location("b.rs", 2, 9));
    assert_eq!(calls[0].method_definition.method_name, "create_node");
    assert_eq!(calls[1].location, location("c.rs", 0, 0));
    assert_eq!(calls[1].method_definition.method_name, "create_token");
    let bad = "b.rs:3:10:    self.create_node(x)\nc.rs:1:1:create_unknown()\nbroken\n";
    assert_eq!(
        parse_target_method_invocations(bad, &index, false),
        Err(ParseError::UnknownSymbol("create_unknown".to_string()))
    );
}

#[test]
fn a_wrap_line_gives_its_location() {
    assert_eq!(parse_wrap_invocation("b.rs:3:31:wrap"), Ok(location("b.rs", 2, 30)));
    assert_eq!(parse_wrap_invocation("b.rs:3:31:"), Ok(location("b.rs", 2, 30)));
    assert_eq!(parse_wrap_invocation("b.rs:3:31"), Err(malformed("b.rs:3:31")));
    assert_eq!(
        parse_wrap_invocations("b.rs:3:31:wrap\n\nb.rs:9:5:wrap\n"),
        Ok(vec![location("b.rs", 2, 30), location("b.rs", 8, 4)])
    );
    assert_eq!(parse_wrap_invocations("b.rs:3:31:wrap\nwrap\n"), Err(malformed("wrap")));
}

#[test]
fn groups_are_read_by_their_place() {
    let found = groups(&[Some("a.rs:4:2: fn x"), Some("a.rs"), Some("4"), Some("2"), Some("x")]);
    assert_eq!(location_from_groups(&found), Some(location("a.rs", 3, 1)));
    assert_eq!(definition_from_groups(&found), Some(definition("a.rs", 3, 1, "x")));
    assert_eq!(site_from_groups(&found), Some((location("a.rs", 3, 1), "x".to_string())));
    assert_eq!(location_from_groups(&None), None);
    assert_eq!(definition_from_groups(&None), None);
    let short = groups(&[Some("a.rs:4:2:"), Some("a.rs"), Some("4"), Some("2")]);
    assert_eq!(location_from_groups(&short), Some(location("a.rs", 3, 1)));
    assert_eq!(definition_from_groups(&short), None);
    assert_eq!(site_from_groups(&short), None);
    let gap = groups(&[Some("a.rs:4:2:"), Some("a.rs"), None, Some("2"), Some("x")]);
    assert_eq!(location_from_groups(&gap), None);
    let zero = groups(&[Some("a.rs:0:2:"), Some("a.rs"), Some("0"), Some("2"), Some("x")]);
    assert_eq!(definition_from_groups(&zero), None);
}

#[test]
fn a_name_is_found_at_a_column() {
    assert_eq!(name_at("self.create_node(x)", 5), Some("create_node".to_string()));
    assert_eq!(name_at("self.create_node(x)", 0), Some("self".to_string()));
    assert_eq!(name_at("self.create_node(x)", 4), None);
    assert_eq!(name_at("self", 4), None);
    assert_eq!(name_at("self", 5), None);
    assert_eq!(name_at("_x9", 0), Some("_x".to_string()));
}

#[test]
fn a_found_name_is_made_ready_for_the_lookup() {
    assert_eq!(resolvable_name("create_node", false), Some("create_node".to_string()));
    assert_eq!(resolvable_name("create_node_raw", false), Some("create_node_raw".to_string()));
    assert_eq!(resolvable_name("create_node_raw", true), Some("create_node".to_string()));
    assert_eq!(resolvable_name("create_node", true), None);
    assert_eq!(resolvable_name("raw", true), None);
    assert_eq!(resolvable_name("_raw", true), Some("".to_string()));
}

#[test]
fn a_found_name_becomes_a_call() {
    let index = index_of(&["create_node"]);
    assert_eq!(
        call_from_name(location("b.rs", 1, 2), "create_node", &index, false, "the line"),
        Ok(MethodCallLocation {
            location: location("b.rs", 1, 2),
            method_definition: definition("src/factory.rs", 0, 11, "create_node"),
        })
    );
    assert_eq!(
        call_from_name(location("b.rs", 1, 2), "create_node", &index, true, "the line"),
        Err(malformed("the line"))
    );
    assert_eq!(
        call_from_name(location("b.rs", 1, 2), "other", &index, false, "the line"),
        Err(ParseError::UnknownSymbol("other".to_string()))
    );
}

#[test]
fn the_definition_pattern_is_what_the_engine_is_asked() {
    let engine = regex::Regex::new(DEFINITION_PATTERN).unwrap();
    for line in [
        "src/a.rs:12:12:    pub fn create_node(&self) -> Node {",
        "a.rs:3:9: fn first fn second",
        "a.rs:1:1:fn x",
        "a.rs:1:1: fn X",
        "plain text",
    ] {
        let expected = engine.captures(line).map(|found| {
            definition(
                &found[1],
                found[2].parse::<usize>().unwrap() - 1,
                found[3].parse::<usize>().unwrap() - 1,
                &found[4],
            )
        });
        assert_eq!(parse_target_method_definition(line).ok(), expected, "{line:?}");
    }
}
