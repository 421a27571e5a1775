use awsdocuments_language_server::diagnostic::{to_diagnostic, Diagnostic, Range};
use awsdocuments_language_server::double::Double;
use awsdocuments_language_server::ir::{
    convert_array, convert_boolean, convert_number, convert_object, convert_pair, convert_string,
    IRArray, IRString, IR,
};
use awsdocuments_language_server::json_schema_parser::{
    validate_additional_items, validate_additional_properties, validate_pattern_properties,
    validate_properties, JSONSchemaValidator,
};
use awsdocuments_language_server::keywords::dependencies::validate_dependencies;
use awsdocuments_language_server::keywords::json_enum::{validate_enum, ENUM_CODE};
use awsdocuments_language_server::keywords::json_type::validate_type;
use awsdocuments_language_server::keywords::max_length::validate_max_length;
use awsdocuments_language_server::keywords::min_length::validate_min_length;
use awsdocuments_language_server::keywords::required::has_key;
use awsdocuments_language_server::keywords::unique_items::validate_unique_items;
use awsdocuments_language_server::object::{
    available_keys, find_pair, is_used, remove_keys, AvailableKey, NodeIdentifier,
};
use awsdocuments_language_server::parser::{ParseResult, Parser, SchemaMatches};
use awsdocuments_language_server::syntax::{ASTNodeExt, Position, SyntaxTree};
use awsdocuments_language_server::values::{get_value, is_equal, JSONValues};
use serde_json::Value;

fn double(x: f64) -> Double {
    Double::new(x.to_bits(), x.to_string(), format!("{:#?}", x))
}

fn number_of(text: &str) -> Option<Double> {
    match text.parse::<i64>() {
        Ok(i) => Some(double(i as f64)),
        Err(_) => text.parse::<f64>().ok().map(double),
    }
}

fn position(point: tree_sitter::Point) -> Position {
    Position::new(point.row as u32, point.column as u32)
}

fn convert(
    node: tree_sitter::Node,
    source: &str,
    parent: Option<usize>,
    tree: &mut SyntaxTree,
    ids: &mut Vec<usize>,
) {
    let text = node.utf8_text(source.as_bytes()).unwrap_or("");
    let number = if node.kind() == "number" {
        number_of(&text.replace('"', ""))
    } else {
        None
    };
    let id = tree
        .add(
            parent,
            node.kind(),
            text,
            position(node.start_position()),
            position(node.end_position()),
            number,
        )
        .unwrap();
    assert_eq!(id, ids.len());
    ids.push(node.id());
    for i in 0..node.child_count() {
        convert(node.child(i).unwrap(), source, Some(id), tree, ids);
    }
}

fn parse_tree(text: &str) -> tree_sitter::Tree {
    let mut parser = tree_sitter::Parser::new();
    parser
        .set_language(tree_sitter_json::language())
        .expect("Error loading json grammar");
    parser.parse(text, None).unwrap()
}

fn parse(text: &str) -> SyntaxTree {
    let parsed = parse_tree(text);
    let mut tree = SyntaxTree::new();
    let mut ids = Vec::new();
    convert(parsed.root_node(), text, None, &mut tree, &mut ids);
    tree
}

fn json(text: &str) -> Value {
    serde_json::from_str(text).unwrap()
}

fn run(input: &str, schema: &str) -> ParseResult {
    let val = JSONSchemaValidator::new(parse(input), json(schema), input.to_string());
    val.parse()
}

fn validation_test(contents: String, schema: Value) -> Vec<Diagnostic> {
    let val = JSONSchemaValidator::new(parse(&contents), schema, contents);
    let validation = val.parse();
    validation.errors
}

fn messages(input: &str, schema: &str) -> Vec<String> {
    run(input, schema).errors.into_iter().map(|d| d.message).collect()
}

#[test]
fn basic_validation() {
    let result = validation_test(
        r#"{
                "version": "testing"
            }"#
        .to_string(),
        json(
            r#"{
              "$schema": "http://json-schema.org/draft-04/schema#",
              "type": "object",
              "properties": {
                "version": {
                  "type": "string",
                  "minLength": 0,
                  "maxLength": 10
                }
              },
              "required": [
                "version"
              ]
            }"#,
        ),
    );
    assert_eq!(result.len(), 0);
}

#[test]
fn max_length_ok() {
    let schema = &json(r#"{"minLength": 2}"#);
    let result = validate_max_length(
        &IRString::new(
            String::from("test"),
            Position::new(0, 0),
            Position::new(0, 4),
        ),
        schema,
    );
    assert!(result.is_none())
}

#[test]
fn max_length_error() {
    let schema = &json(r#"{"maxLength": 2}"#);
    let result = validate_max_length(
        &IRString::new(
            String::from("test"),
            Position::new(0, 0),
            Position::new(0, 4),
        ),
        schema,
    );
    assert!(result.is_some())
}

#[test]
fn max_length_not_found() {
    let schema = &json(r#"{"notMaxLength": 2}"#);
    let result = validate_max_length(
        &IRString::new(
            String::from("test"),
            Position::new(0, 0),
            Position::new(0, 4),
        ),
        schema,
    );
    assert!(result.is_none())
}

#[test]
fn max_length_not_number() {
    let schema = &json(r#"{"maxLength": "NAN"}"#);
    let result = validate_max_length(
        &IRString::new(
            String::from("test"),
            Position::new(0, 0),
            Position::new(0, 4),
        ),
        schema,
    );
    assert!(result.is_none())
}

#[test]
fn a_document_that_conforms_has_no_diagnostics() {
    let schema = r#"{
        "type": "object",
        "properties": {
            "name": {"type": "string", "minLength": 1, "maxLength": 5, "pattern": "^[a-z]+$"},
            "size": {"type": "integer", "minimum": 1, "maximum": 10, "multipleOf": 2},
            "tags": {"type": "array", "items": [{"type": "string"}], "additionalItems": {"type": "number"},
                     "minItems": 1, "maxItems": 4, "uniqueItems": true},
            "on": {"type": "boolean", "enum": [true]},
            "none": {"type": "null"}
        },
        "patternProperties": {"^x-": {"type": "number"}},
        "additionalProperties": false,
        "required": ["name", "size"],
        "minProperties": 2,
        "maxProperties": 10
    }"#;
    let document = r#"{"name": "abc", "size": 4, "tags": ["a", 1, 2.5], "on": true, "none": null, "x-a": 1, "x-b": 2}"#;
    assert_eq!(messages(document, schema), Vec::<String>::new());
}

#[test]
fn each_keyword_that_fails_reports_once() {
    let schema = r#"{
        "properties": {
            "name": {"type": "string", "minLength": 4, "pattern": "^[a-z]+$"},
            "size": {"type": "integer", "minimum": 1, "maximum": 10, "multipleOf": 2}
        },
        "required": ["name", "size", "other"]
    }"#;
    let document = r#"{"name": "AB", "size": 11.5}"#;
    assert_eq!(
        messages(document, schema),
        vec![
            "Missing the following requirements: \"other\"",
            "Expected \"^[a-z]+$\" to match \"AB\"",
            "Expected an item of length 4 but found 2",
            "Incorrect type. Expected \"integer\" but found \"number\"",
            "11.5 is not a multiple of 2.0",
            "Value 11.5 was above the maximum of 10.0",
        ]
    );
}

#[test]
fn every_key_is_taken_by_one_keyword() {
    let schema = r#"{
        "properties": {"foo": {"type": "string"}, "x-foo": {"type": "string"}},
        "patternProperties": {"^x-": {"type": "boolean"}, "bar$": {"type": "boolean"}},
        "additionalProperties": {"type": "null"}
    }"#;
    let document = r#"{"foo": 1, "x-foo": 2, "x-bar": 3, "rebar": 4, "other": 5, "x-y": 6}"#;
    assert_eq!(
        messages(document, schema),
        vec![
            "Incorrect type. Expected \"string\" but found \"number\"",
            "Incorrect type. Expected \"string\" but found \"number\"",
            "Incorrect type. Expected \"boolean\" but found \"number\"",
            "Incorrect type. Expected \"boolean\" but found \"number\"",
            "Incorrect type. Expected \"boolean\" but found \"number\"",
            "Incorrect type. Expected \"boolean\" but found \"number\"",
            "Incorrect type. Expected \"null\" but found \"number\"",
        ]
    );
    let result = run(document, schema);
    let spans: Vec<u32> = result.errors.iter().map(|d| d.range.start.character).collect();
    // foo, x-foo by properties; x-bar by both patterns, rebar, x-y by one
    // pattern each; other by additionalProperties.
    assert_eq!(spans, vec![8, 20, 32, 32, 44, 66, 56]);
    assert_eq!(result.schema_matches.len(), 8);
}

#[test]
fn available_keys_are_partitioned() {
    let input = r#"{"foo": 1, "x-a": 2, "other": 3, "foo": 4}"#;
    let validator = JSONSchemaValidator::new(parse(input), json("{}"), input.to_string());
    let object = convert_object(validator.tree(), 1).unwrap();
    let keys = available_keys(&object);
    let names: Vec<&str> = keys.iter().map(|k| k.key.as_str()).collect();
    assert_eq!(names, vec!["foo", "x-a", "other"]);
    // The value of a key that occurs twice is that of its last pair.
    assert_eq!(validator.tree().node(keys[0].node).get_text(), "4");
    let schema = json(
        r#"{"properties": {"foo": {}, "bar": {}}, "patternProperties": {"^x-": {}},
            "additionalProperties": true}"#,
    );
    let first = validate_properties(&validator, 1, &keys, &schema).unwrap();
    assert_eq!(first.keys_used, vec!["foo"]);
    assert_eq!(first.validation.len(), 1);
    assert_eq!(first.errors.len(), 0);
    let keys = remove_keys(keys, &first.keys_used);
    let second = validate_pattern_properties(&validator, 1, &keys, &schema).unwrap();
    assert_eq!(second.keys_used, vec!["x-a"]);
    let keys = remove_keys(keys, &second.keys_used);
    let third = validate_additional_properties(&validator, 1, &keys, &schema).unwrap();
    assert_eq!(third.keys_used, vec!["other"]);
    assert_eq!(third.validation.len(), 1);
    assert_eq!(third.validation[0].schema_matches.len(), 1);
    assert_eq!(third.validation[0].schema_matches[0].schema, json("true"));
    let keys = remove_keys(keys, &third.keys_used);
    assert_eq!(keys.len(), 0);
    assert!(validate_properties(&validator, 1, &keys, &json(r#"{"properties": 5}"#)).is_none());
    assert!(validate_properties(&validator, 1, &keys, &json(r#"{}"#)).is_none());
    assert!(validate_pattern_properties(&validator, 1, &keys, &json(r#"{}"#)).is_none());
    assert!(validate_additional_properties(&validator, 1, &keys, &json(r#"{}"#)).is_none());
}

#[test]
fn a_key_is_not_descended_into_unless_it_lies_below() {
    let input = r#"{"foo": 1}"#;
    let validator = JSONSchemaValidator::new(parse(input), json("{}"), input.to_string());
    let keys = vec![AvailableKey { key: "foo".to_string(), node: 1 }];
    let schema = json(r#"{"properties": {"foo": {"type": "string"}}}"#);
    let found = validate_properties(&validator, 1, &keys, &schema).unwrap();
    assert_eq!(found.keys_used, vec!["foo"]);
    assert_eq!(found.validation.len(), 1);
    assert_eq!(found.validation[0].errors.len(), 0);
    assert_eq!(found.validation[0].schema_matches.len(), 0);
}

#[test]
fn additional_properties_false_reports_each_key_left_over() {
    let schema = r#"{"properties": {"foo": {}}, "patternProperties": {"^v": {}}, "additionalProperties": false}"#;
    let result = run(r#"{"foo": 1, "bar": 2, "vroom": 3, "quux": "x"}"#, schema);
    let found: Vec<String> = result.errors.iter().map(|d| d.message.clone()).collect();
    assert_eq!(
        found,
        vec![
            "!\"bar\" was declared but shouldn't be",
            "!\"quux\" was declared but shouldn't be",
        ]
    );
    assert_eq!(result.errors[0].range, Range::new(Position::new(0, 18), Position::new(0, 19)));
    assert_eq!(result.errors[1].range, Range::new(Position::new(0, 41), Position::new(0, 44)));
    assert_eq!(messages(r#"{"foo": 1, "vroom": 3}"#, schema), Vec::<String>::new());
    assert_eq!(
        messages(r#"{"foo": 1, "bar": 2}"#, r#"{"additionalProperties": 5}"#),
        Vec::<String>::new()
    );
}

#[test]
fn additional_properties_true_admits_every_key() {
    assert_eq!(
        messages(
            r#"{"foo": 1, "bar": "x"}"#,
            r#"{"type": "object", "properties": {"foo": {"type": "number"}}, "additionalProperties": true}"#
        ),
        Vec::<String>::new()
    );
}

#[test]
fn items_are_held_against_the_schemas_listed_and_the_rest_against_additional_items() {
    let schema = r#"{"items": [{"type": "string"}, 5, {"type": "number"}], "additionalItems": {"type": "boolean"}}"#;
    assert_eq!(
        messages(r#"[1, "x", true, null]"#, schema),
        vec![
            "Incorrect type. Expected \"string\" but found \"number\"",
            "Incorrect type. Expected \"number\" but found \"string\"",
            "Incorrect type. Expected \"boolean\" but found \"null\"",
        ]
    );
    assert_eq!(messages(r#"["x"]"#, schema), Vec::<String>::new());
    assert_eq!(messages(r#"[]"#, schema), Vec::<String>::new());
    assert_eq!(
        messages(r#"[1, 2, "x"]"#, r#"{"items": {"type": "number"}}"#),
        vec!["Incorrect type. Expected \"number\" but found \"string\""]
    );
    assert_eq!(
        messages(r#"[1, 2, "x"]"#, r#"{"additionalItems": {"type": "number"}}"#),
        Vec::<String>::new()
    );
    assert_eq!(
        messages(r#"[1, 2, "x"]"#, r#"{"items": [{}], "additionalItems": true}"#),
        Vec::<String>::new()
    );
}

#[test]
fn additional_items_false_reports_the_array() {
    let schema = r#"{"items": [{}, {}], "additionalItems": false}"#;
    assert_eq!(
        messages(r#"[1, 2, 3, 4]"#, schema),
        vec!["The array should have 2 items or less. Found 4"]
    );
    assert_eq!(messages(r#"[1, 2]"#, schema), Vec::<String>::new());
    assert_eq!(messages(r#"[1]"#, schema), Vec::<String>::new());
    assert_eq!(
        messages(r#"[1, 2, 3]"#, r#"{"additionalItems": false}"#),
        Vec::<String>::new()
    );
    let input = "[1, 2, 3]";
    let validator = JSONSchemaValidator::new(parse(input), json("{}"), input.to_string());
    let array = convert_array(validator.tree(), 1).unwrap();
    let found = validate_additional_items(
        &validator,
        1,
        &array,
        &json(r#"{"items": [{"type": "string"}], "additionalItems": false}"#),
    );
    assert_eq!(found.validation.len(), 1);
    assert_eq!(found.validation[0].errors.len(), 1);
    assert_eq!(
        found.error.unwrap().message,
        "The array should have 1 items or less. Found 3"
    );
}

#[test]
fn what_a_node_reports_comes_before_what_lies_below_it() {
    let schema = r#"{
        "type": "array",
        "minItems": 5,
        "items": {"type": "object", "required": ["a"], "properties": {"b": {"type": "string"}}},
        "uniqueItems": true
    }"#;
    assert_eq!(
        messages(r#"[{"b": 1}, {"b": 1}]"#, schema),
        vec![
            "Expected 5 items but found 2",
            "Found duplicate items: !\"{b: 1}\"",
            "Missing the following requirements: \"a\"",
            "Incorrect type. Expected \"string\" but found \"number\"",
            "Missing the following requirements: \"a\"",
            "Incorrect type. Expected \"string\" but found \"number\"",
        ]
    );
}

#[test]
fn every_node_visited_is_matched_with_its_schema() {
    let result = run(
        r#"{"a": [1, "x"], "b": {"c": null}}"#,
        r#"{"properties": {"a": {"items": {"type": "number"}}, "b": {"additionalProperties": {"title": "t"}}}}"#,
    );
    let schemas: Vec<String> = result.schema_matches.iter().map(|m| m.schema.to_string()).collect();
    assert_eq!(
        schemas,
        vec![
            r#"{"properties":{"a":{"items":{"type":"number"}},"b":{"additionalProperties":{"title":"t"}}}}"#,
            r#"{"items":{"type":"number"}}"#,
            r#"{"type":"number"}"#,
            r#"{"type":"number"}"#,
            r#"{"additionalProperties":{"title":"t"}}"#,
            r#"{"title":"t"}"#,
        ]
    );
    let pairs: Vec<Option<String>> =
        result.schema_matches.iter().map(|m| m.node.closest_pair.clone()).collect();
    assert_eq!(
        pairs,
        vec![
            None,
            Some("a: [1, x]".to_string()),
            None,
            None,
            Some("b: {c: null}".to_string()),
            Some("c: null".to_string()),
        ]
    );
    assert_eq!(result.schema_matches[1].node.start, Position::new(0, 6));
    assert_eq!(result.schema_matches[1].node.end, Position::new(0, 14));
    assert_eq!(result.errors.len(), 1);
}

#[test]
fn a_single_option_carries_the_code_for_the_fix() {
    let single = run("10", r#"{"enum": [1]}"#);
    assert_eq!(single.errors.len(), 1);
    assert_eq!(single.errors[0].code, Some(ENUM_CODE.to_string()));
    assert_eq!(single.errors[0].code, Some("ENUM_ACTION".to_string()));
    let several = run("10", r#"{"enum": [1, 2]}"#);
    assert_eq!(several.errors.len(), 1);
    assert_eq!(several.errors[0].code, None);
    let none = run("10", r#"{"enum": []}"#);
    assert_eq!(none.errors.len(), 1);
    assert_eq!(none.errors[0].code, None);
    assert_eq!(none.errors[0].message, "\"10\" must be one of \"\"");
    assert_eq!(run("1", r#"{"enum": [1]}"#).errors.len(), 0);
    assert_eq!(run("1", r#"{"enum": 1}"#).errors.len(), 0);
}

#[test]
fn options_are_compared_by_value() {
    let options = r#"{"enum": [1.0, "a", null, true, [1, "b"], {"x": 1, "y": [2]}]}"#;
    for document in [
        "1",
        "1.0",
        "1e0",
        "\"a\"",
        "null",
        "true",
        "[1, \"b\"]",
        "[ 1.0,\n\"b\" ]",
        "{\"x\": 1, \"y\": [2]}",
        "{\"y\": [2.0], \"x\": 1}",
    ] {
        assert_eq!(messages(document, options), Vec::<String>::new(), "{}", document);
    }
    for document in [
        "2",
        "\"1\"",
        "\"null\"",
        "false",
        "[1]",
        "[1, \"b\", 3]",
        "[\"b\", 1]",
        "{\"x\": 1}",
        "{\"x\": 1, \"y\": [2], \"z\": 3}",
        "{\"x\": 1, \"y\": [3]}",
        "[]",
        "{}",
    ] {
        assert_eq!(messages(document, options).len(), 1, "{}", document);
    }
    assert_eq!(
        messages("[1, 2]", r#"{"enum": ["a", "b"]}"#),
        vec!["\"Array [\\n    1,\\n    2,\\n]\" must be one of \"\\\"a\\\", \\\"b\\\"\""]
    );
}

#[test]
fn a_number_written_as_an_integer_is_an_integer() {
    assert_eq!(messages("5", r#"{"type": "integer"}"#), Vec::<String>::new());
    assert_eq!(messages("-5", r#"{"type": "integer"}"#), Vec::<String>::new());
    assert_eq!(messages("5", r#"{"type": "number"}"#), Vec::<String>::new());
    assert_eq!(messages("5.5", r#"{"type": "number"}"#), Vec::<String>::new());
    assert_eq!(
        messages("5.0", r#"{"type": "integer"}"#),
        vec!["Incorrect type. Expected \"integer\" but found \"number\""]
    );
    assert_eq!(
        messages("5", r#"{"type": ["string", 5, "null"]}"#),
        vec!["Incorrect type. Expected \"string, null\" but found \"number\""]
    );
    assert_eq!(messages("5", r#"{"type": ["string", "integer"]}"#), Vec::<String>::new());
    assert_eq!(messages("5", r#"{"type": []}"#).len(), 1);
    assert_eq!(messages("5", r#"{"type": 5}"#), Vec::<String>::new());
    assert_eq!(
        messages("true", r#"{"type": "string"}"#),
        vec!["Incorrect type. Expected \"string\" but found \"boolean\""]
    );
    assert_eq!(
        messages("[]", r#"{"type": "object"}"#),
        vec!["Incorrect type. Expected \"object\" but found \"array\""]
    );
    let found = validate_type(
        &IR::IRString(IRString::new("x".to_string(), Position::new(2, 3), Position::new(2, 6))),
        &json(r#"{"type": "null"}"#),
    )
    .unwrap();
    assert_eq!(found.range, Range::new(Position::new(2, 3), Position::new(2, 6)));
}

#[test]
fn items_that_repeat_are_named_in_the_order_of_the_document() {
    assert_eq!(
        messages(
            r#"[1, "a", 1.0, {"x": 1, "y": 2}, "a", {"y": 2, "x": 1}, [1], ["1"], 1]"#,
            r#"{"uniqueItems": true}"#
        ),
        vec!["Found duplicate items: !\"1.0, a, {y: 2, x: 1}, 1\""]
    );
    assert_eq!(
        messages(r#"[1, "1", null, "null", true, "true", [], {}]"#, r#"{"uniqueItems": true}"#),
        Vec::<String>::new()
    );
    assert_eq!(messages(r#"[1, 1]"#, r#"{"uniqueItems": false}"#), Vec::<String>::new());
    assert_eq!(messages(r#"[1, 1]"#, r#"{"uniqueItems": "yes"}"#), Vec::<String>::new());
    let input = "[2, 2]";
    let tree = parse(input);
    let array = convert_array(&tree, 1).unwrap();
    let found = validate_unique_items(&tree, &array, &json(r#"{"uniqueItems": true}"#)).unwrap();
    assert_eq!(found.message, "Found duplicate items: !\"2\"");
    assert_eq!(found.range, Range::new(Position::new(0, 0), Position::new(0, 6)));
}

#[test]
fn missing_requirements_are_listed_once_and_in_order() {
    assert_eq!(
        messages(
            r#"{"m": 1}"#,
            r#"{"required": ["z", "a", 5, "m", "z", "B", "a"]}"#
        ),
        vec!["Missing the following requirements: \"B, a, z\""]
    );
    assert_eq!(messages(r#"{"m": 1}"#, r#"{"required": "m"}"#), Vec::<String>::new());
    assert_eq!(messages(r#"{"m": 1}"#, r#"{"required": []}"#), Vec::<String>::new());
}

#[test]
fn a_key_asks_for_the_names_that_dependencies_lists() {
    let schema = r#"{"dependencies": {"bar": ["foo"]}}"#;
    check_all(
        schema,
        &[
            ("{}", true),
            ("{\"foo\": 1}", true),
            ("{\"foo\": 1, \"bar\": 2}", true),
            ("{\"bar\": 2}", false),
            ("[\"bar\"]", true),
            ("\"foobar\"", true),
            ("12", true),
        ],
    );
    check_all(
        r#"{"dependencies": {"quux": ["foo", "bar"]}}"#,
        &[
            ("{}", true),
            ("{\"foo\": 1, \"bar\": 2}", true),
            ("{\"foo\": 1, \"bar\": 2, \"quux\": 3}", true),
            ("{\"foo\": 1, \"quux\": 2}", false),
            ("{\"bar\": 1, \"quux\": 2}", false),
            ("{\"quux\": 1}", false),
        ],
    );
    let result = run(r#"{"quux": [1], "bar": 2}"#, r#"{"dependencies": {"quux": ["z", 5, "bar", "a", "z"], "bar": ["quux"], "other": ["x"]}}"#);
    assert_eq!(result.errors.len(), 1);
    assert_eq!(
        result.errors[0].message,
        "Missing the following requirements: \"a, z\""
    );
    assert_eq!(result.errors[0].range, Range::new(Position::new(0, 9), Position::new(0, 12)));
    assert_eq!(
        messages(r#"{"a": 1, "b": 2}"#, r#"{"dependencies": {"a": ["x"], "b": ["y"]}, "required": ["r"], "minProperties": 3}"#),
        vec![
            "Missing the following requirements: \"x\"",
            "Missing the following requirements: \"y\"",
            "Expected 3 properties but found 2",
            "Missing the following requirements: \"r\"",
        ]
    );
    assert_eq!(messages(r#"{"a": 1}"#, r#"{"dependencies": ["a", ["b"]]}"#), Vec::<String>::new());
    assert_eq!(messages(r#"{"a": 1}"#, r#"{"dependencies": {"a": "b"}}"#), Vec::<String>::new());
}

#[test]
fn a_key_asks_for_the_schema_that_dependencies_names() {
    let schema = r#"{"dependencies": {"bar": {"properties": {"foo": {"type": "integer"}, "bar": {"type": "integer"}}}}}"#;
    check_all(
        schema,
        &[
            ("{\"foo\": 1, \"bar\": 2}", true),
            ("{\"foo\": \"quux\"}", true),
            ("{\"foo\": \"quux\", \"bar\": 2}", false),
            ("{\"foo\": 2, \"bar\": \"quux\"}", false),
            ("{\"foo\": \"quux\", \"bar\": \"quux\"}", false),
        ],
    );
    let result = run(r#"{"a": 1}"#, r#"{"dependencies": {"a": {"required": ["b"], "dependencies": {"a": {"minProperties": 2}}}}}"#);
    let found: Vec<String> = result.errors.iter().map(|d| d.message.clone()).collect();
    assert_eq!(
        found,
        vec![
            "Missing the following requirements: \"b\"",
            "Expected 2 properties but found 1",
        ]
    );
    let schemas: Vec<String> = result.schema_matches.iter().map(|m| m.schema.to_string()).collect();
    assert_eq!(
        schemas,
        vec![
            r#"{"dependencies":{"a":{"dependencies":{"a":{"minProperties":2}},"required":["b"]}}}"#,
            r#"{"dependencies":{"a":{"minProperties":2}},"required":["b"]}"#,
            r#"{"minProperties":2}"#,
        ]
    );
}

#[test]
fn dependencies_speak_of_the_keys_that_no_keyword_took() {
    let tree = parse(r#"{"bar": 2, "baz": 3}"#);
    let object = convert_object(&tree, 1).unwrap();
    let keys = available_keys(&object);
    let schema = json(r#"{"dependencies": {"bar": ["foo"], "baz": ["bar", "qux"]}}"#);
    let found = validate_dependencies(&tree, &object, &keys, &schema).unwrap();
    assert_eq!(found.len(), 2);
    assert_eq!(found[0].message, "Missing the following requirements: \"foo\"");
    assert_eq!(found[1].message, "Missing the following requirements: \"qux\"");
    let fewer = remove_keys(keys, &vec!["bar".to_string()]);
    let found = validate_dependencies(&tree, &object, &fewer, &schema).unwrap();
    assert_eq!(found.len(), 1);
    assert_eq!(found[0].message, "Missing the following requirements: \"qux\"");
    assert_eq!(validate_dependencies(&tree, &object, &vec![], &schema).unwrap().len(), 0);
    assert!(validate_dependencies(&tree, &object, &fewer, &json(r#"{"dependencies": ["bar"]}"#)).is_none());
    assert!(validate_dependencies(&tree, &object, &fewer, &json(r#"{}"#)).is_none());
    // A key that `properties` took is not held against `dependencies`.
    assert_eq!(
        messages(r#"{"bar": 2}"#, r#"{"properties": {"bar": {}}, "dependencies": {"bar": ["foo"]}}"#),
        Vec::<String>::new()
    );
}

#[test]
fn bounds_on_sizes() {
    assert_eq!(messages("\"é\"", r#"{"minLength": 1, "maxLength": 1}"#), Vec::<String>::new());
    assert_eq!(
        messages("\"é\"", r#"{"minLength": 2}"#),
        vec!["Expected an item of length 2 but found 1"]
    );
    assert_eq!(messages("\"日本\"", r#"{"maxLength": 2}"#), Vec::<String>::new());
    assert_eq!(
        messages("\"日本語\"", r#"{"maxLength": 2}"#),
        vec!["Expected an item of length 2 but found 3"]
    );
    assert!(validate_max_length(
        &IRString::new(String::from("日本"), Position::new(0, 0), Position::new(0, 4)),
        &json(r#"{"maxLength": 2}"#)
    )
    .is_none());
    assert!(validate_min_length(
        &IRString::new(String::from("日本"), Position::new(0, 0), Position::new(0, 4)),
        &json(r#"{"minLength": 3}"#)
    )
    .is_some());
    assert_eq!(messages("\"abc\"", r#"{"minLength": -1}"#), Vec::<String>::new());
    assert_eq!(messages("\"abc\"", r#"{"minLength": 4.0}"#), Vec::<String>::new());
    assert_eq!(messages("\"\"", r#"{"minLength": 1}"#).len(), 1);
    assert_eq!(messages("[]", r#"{"minItems": 0, "maxItems": 0}"#), Vec::<String>::new());
    assert_eq!(messages("[\",\"]", r#"{"minItems": 1}"#), Vec::<String>::new());
    assert_eq!(
        messages("{}", r#"{"minProperties": 1}"#),
        vec!["Expected 1 properties but found 0"]
    );
    assert_eq!(
        messages(r#"{"a": 1, "a": 2}"#, r#"{"maxProperties": 1}"#),
        vec!["Expected 1 properties but found 2"]
    );
}

#[test]
fn bounds_on_numbers() {
    assert_eq!(messages("3", r#"{"maximum": 3}"#), Vec::<String>::new());
    assert_eq!(
        messages("3", r#"{"maximum": 3, "exclusiveMaximum": true}"#),
        vec!["Value 3.0 was above the maximum of 3.0"]
    );
    assert_eq!(messages("3", r#"{"maximum": 3, "exclusiveMaximum": false}"#), Vec::<String>::new());
    assert_eq!(messages("3", r#"{"maximum": 3, "exclusiveMaximum": "x"}"#), Vec::<String>::new());
    assert_eq!(messages("3.5", r#"{"maximum": 3, "exclusiveMaximum": 4}"#), Vec::<String>::new());
    assert_eq!(
        messages("4", r#"{"maximum": 3, "exclusiveMaximum": 4}"#),
        vec!["Value 4.0 was above the exclusive maximum of 4.0"]
    );
    assert_eq!(
        messages("5", r#"{"maximum": 5, "exclusiveMaximum": 4}"#),
        vec!["Value 5.0 was above the exclusive maximum of 4.0"]
    );
    assert_eq!(messages("3", r#"{"minimum": 3}"#), Vec::<String>::new());
    assert_eq!(
        messages("3", r#"{"minimum": 3, "exclusiveMinimum": true}"#),
        vec!["Value 3.0 was below the minimum of 3.0"]
    );
    assert_eq!(
        messages("2.5", r#"{"minimum": 3, "exclusiveMinimum": 2}"#),
        Vec::<String>::new()
    );
    assert_eq!(
        messages("1.5", r#"{"minimum": 3, "exclusiveMinimum": 2}"#),
        vec![
            "Value 1.5 was below the exclusive minimum of 2.0",
            "Value 1.5 was below the minimum of 2.0",
        ]
    );
    assert_eq!(messages("-0.0", r#"{"minimum": 0, "maximum": 0}"#), Vec::<String>::new());
    assert_eq!(messages("1e400", r#"{"maximum": 1e308}"#).len(), 1);
    assert_eq!(messages("4", r#"{"multipleOf": 2}"#), Vec::<String>::new());
    assert_eq!(messages("4.5", r#"{"multipleOf": 1.5}"#), Vec::<String>::new());
    assert_eq!(messages("0", r#"{"multipleOf": 7}"#), Vec::<String>::new());
    assert_eq!(messages("7", r#"{"multipleOf": 0}"#).len(), 1);
    assert_eq!(messages("0.0075", r#"{"multipleOf": 0.0001}"#).len(), 1);
    assert_eq!(messages("7", r#"{"multipleOf": "2"}"#), Vec::<String>::new());
    assert_eq!(messages("\"7\"", r#"{"multipleOf": 2, "maximum": 1}"#), Vec::<String>::new());
}

#[test]
fn validating_twice_gives_the_same_outcome() {
    let schema = r#"{"properties": {"a": {"type": "string", "enum": ["x"]}}, "additionalProperties": false, "required": ["b"]}"#;
    let document = r#"{"a": 1, "c": [1, 1]}"#;
    let validator = JSONSchemaValidator::new(parse(document), json(schema), document.to_string());
    let first = validator.validate();
    let second = validator.validate();
    let other = run(document, schema);
    assert_eq!(first.errors.len(), 4);
    for again in [&second, &other] {
        assert_eq!(first.errors.len(), again.errors.len());
        for (a, b) in first.errors.iter().zip(again.errors.iter()) {
            assert_eq!(a.message, b.message);
            assert_eq!(a.range, b.range);
            assert_eq!(a.code, b.code);
        }
        assert_eq!(first.schema_matches.len(), again.schema_matches.len());
        for (a, b) in first.schema_matches.iter().zip(again.schema_matches.iter()) {
            assert_eq!(a.schema, b.schema);
            assert_eq!(a.node.closest_pair, b.node.closest_pair);
            assert_eq!(a.node.start, b.node.start);
            assert_eq!(a.node.end, b.node.end);
        }
    }
}

#[test]
fn a_node_without_a_representation_contributes_nothing() {
    let empty = run("", r#"{"type": "object"}"#);
    assert_eq!(empty.errors.len(), 0);
    assert_eq!(empty.schema_matches.len(), 0);
    let comment = run("// nothing", r#"{"type": "object"}"#);
    assert_eq!(comment.errors.len(), 0);
    assert_eq!(comment.schema_matches.len(), 0);
    let validator = JSONSchemaValidator::new(parse("{}"), json("{}"), "{}".to_string());
    let outside = validator.validate_root(99, &json(r#"{"type": "string"}"#));
    assert_eq!(outside.errors.len(), 0);
    assert_eq!(outside.schema_matches.len(), 0);
    let none = JSONSchemaValidator::new(SyntaxTree::new(), json("{}"), String::new()).validate();
    assert_eq!(none.errors.len(), 0);
    assert_eq!(none.schema_matches.len(), 0);
}

#[test]
fn a_pair_is_validated_by_its_key_and_its_value() {
    let input = r#"{"ab": 5}"#;
    let validator = JSONSchemaValidator::new(parse(input), json("{}"), input.to_string());
    let tree = validator.tree();
    assert_eq!(tree.node(2).kind(), "{");
    assert_eq!(tree.node(3).kind(), "pair");
    // An opening brace stands for the sibling that follows it.
    let by_brace = validator.validate_root(2, &json(r#"{"minLength": 3, "maximum": 1}"#));
    let by_pair = validator.validate_root(3, &json(r#"{"minLength": 3, "maximum": 1}"#));
    for result in [by_brace, by_pair] {
        let found: Vec<String> = result.errors.iter().map(|d| d.message.clone()).collect();
        assert_eq!(
            found,
            vec![
                "Expected an item of length 3 but found 2",
                "Value 5.0 was above the maximum of 1.0",
            ]
        );
        assert_eq!(result.schema_matches.len(), 3);
    }
}

#[test]
fn nodes_become_values_of_seven_kinds() {
    let input = r#"{"a": [1, 2.5, "x", true, null, {"b": false}]}"#;
    let tree = parse(input);
    let kinds: Vec<String> = (0..tree.len())
        .map(|i| match IR::new(&tree, i) {
            Some(ir) => format!("{}:{}", tree.node(i).kind(), ir.get_kind()),
            None => format!("{}:-", tree.node(i).kind()),
        })
        .collect();
    assert_eq!(kinds[0], "document:-");
    assert_eq!(kinds[1], "object:object");
    assert_eq!(kinds[2], "{:-");
    assert_eq!(kinds[3], "pair:pair");
    assert_eq!(kinds[4], "string:string");
    assert!(kinds.contains(&"number:number".to_string()));
    assert!(kinds.contains(&"true:boolean".to_string()));
    assert!(kinds.contains(&"false:boolean".to_string()));
    assert!(kinds.contains(&"null:null".to_string()));
    assert!(kinds.contains(&"array:array".to_string()));
    assert!(kinds.contains(&"string_content:-".to_string()));
    assert!(IR::new(&tree, tree.len()).is_none());

    let object = convert_object(&tree, 1).unwrap();
    assert_eq!(object.kind, "object");
    assert_eq!(object.properties.len(), 1);
    assert_eq!(object.properties[0].key.contents, "a");
    assert_eq!(object.properties[0].start, Position::new(0, 0));
    assert_eq!(tree.node(object.properties[0].value).kind(), "array");
    let pair = convert_pair(&tree, 3).unwrap();
    assert_eq!(pair.kind, "pair");
    assert_eq!(pair.key.contents, "a");
    assert_eq!(pair.key.start, Position::new(0, 1));
    assert_eq!(pair.key.end, Position::new(0, 1));
    assert_eq!(pair.start, Position::new(0, 1));
    assert_eq!(pair.end, Position::new(0, 45));
    let array = convert_array(&tree, pair.value).unwrap();
    assert_eq!(array.items.len(), 6);
    let one = convert_number(&tree, array.items[0]).unwrap();
    assert!(one.is_integer);
    assert_eq!(one.value.bits, (1.0f64).to_bits());
    let fraction = convert_number(&tree, array.items[1]).unwrap();
    assert!(!fraction.is_integer);
    assert_eq!(fraction.value.debug, "2.5");
    assert_eq!(convert_string(&tree, array.items[2]).unwrap().contents, "x");
    assert!(convert_boolean(&tree, array.items[3]).unwrap().value);
    assert!(convert_boolean(&tree, array.items[2]).is_none());
    assert!(convert_number(&tree, array.items[2]).is_none());
    assert!(convert_pair(&tree, array.items[0]).is_none());
    assert!(convert_string(&tree, 1000).is_none());
    assert!(convert_object(&tree, 1000).is_none());
    assert!(has_key(&object.properties, "a"));
    assert!(!has_key(&object.properties, "b"));
}

#[test]
fn an_object_with_a_child_that_is_no_pair_has_no_representation() {
    let mut tree = SyntaxTree::new();
    let start = Position::new(0, 0);
    let end = Position::new(0, 9);
    let object = tree.add(None, "object", "{ /* */ }", start, end, None).unwrap();
    tree.add(Some(object), "{", "{", start, start, None).unwrap();
    tree.add(Some(object), "comment", "/* */", start, end, None).unwrap();
    tree.add(Some(object), "}", "}", end, end, None).unwrap();
    assert!(convert_object(&tree, object).is_none());
    assert!(IR::new(&tree, object).is_none());
    let validator = JSONSchemaValidator::new(tree, json(r#"{"type": "string"}"#), String::new());
    assert_eq!(validator.validate().errors.len(), 0);
}

#[test]
fn a_tree_is_built_parent_first() {
    let mut tree = SyntaxTree::new();
    let start = Position::new(0, 0);
    assert_eq!(tree.len(), 0);
    assert_eq!(tree.add(Some(0), "x", "x", start, start, None), None);
    assert_eq!(tree.len(), 0);
    let root = tree.add(None, "array", "[1]", start, start, None).unwrap();
    assert_eq!(root, 0);
    assert_eq!(tree.add(Some(5), "x", "x", start, start, None), None);
    let a = tree.add(Some(root), "[", "[", start, start, None).unwrap();
    let b = tree.add(Some(root), "number", "1", start, start, Some(double(1.0))).unwrap();
    let c = tree.add(Some(root), "]", "]", start, start, None).unwrap();
    let d = tree.add(Some(b), "x", "x", start, start, None).unwrap();
    assert_eq!((a, b, c, d), (1, 2, 3, 4));
    assert_eq!(tree.len(), 5);
    assert_eq!(tree.parent(root), None);
    assert_eq!(tree.parent(b), Some(root));
    assert_eq!(tree.parent(d), Some(b));
    assert_eq!(tree.child(root, 0), Some(a));
    assert_eq!(tree.child(root, 2), Some(c));
    assert_eq!(tree.child(root, 3), None);
    assert_eq!(tree.child(a, 0), None);
    assert_eq!(tree.next_sibling(a), Some(b));
    assert_eq!(tree.next_sibling(b), Some(c));
    assert_eq!(tree.next_sibling(c), None);
    assert_eq!(tree.next_sibling(root), None);
    assert_eq!(tree.node(b).child_count(), 1);
    assert_eq!(tree.node(b).number().unwrap().debug, "1.0");
    assert!(tree.node(a).number().is_none());
    assert_eq!(tree.node(root).kind(), "array");
    assert_eq!(tree.node(root).get_text(), "[1]");
    tree.links_forward();
}

#[test]
fn the_nearest_pair_identifies_a_node() {
    let input = r#"{"a": {"b": "c"}}"#;
    let tree = parse(input);
    let texts: Vec<(String, Option<String>)> = (0..tree.len())
        .map(|i| (tree.node(i).kind().to_string(), find_pair(&tree, i)))
        .collect();
    assert_eq!(texts[0], ("document".to_string(), None));
    assert_eq!(texts[1], ("object".to_string(), None));
    assert_eq!(texts[3], ("pair".to_string(), Some("a: {b: c}".to_string())));
    assert_eq!(texts[4], ("string".to_string(), Some("a: {b: c}".to_string())));
    let content = texts.iter().position(|t| t.0 == "string_content").unwrap();
    assert_eq!(texts[content].1, Some("a: {b: c}".to_string()));
    assert_eq!(find_pair(&tree, 1000), None);
    let identifier = NodeIdentifier::new(&tree, 3);
    assert_eq!(identifier.closest_pair, Some("a: {b: c}".to_string()));
    assert_eq!(identifier.start, Position::new(0, 1));
    assert_eq!(identifier.end, Position::new(0, 16));
}

#[test]
fn values_are_decoded_and_compared_with_schema_values() {
    let input = r#"{"a": [1, "x"], "a": null, "b": 2.50}"#;
    let tree = parse(input);
    match get_value(&tree, 1).unwrap() {
        JSONValues::Object(members) => {
            assert_eq!(members.len(), 2);
            assert_eq!(members[0].0, "a");
            assert!(matches!(members[0].1, JSONValues::Null));
            assert_eq!(members[1].0, "b");
            assert!(matches!(&members[1].1, JSONValues::Number(n) if n == "2.5"));
        }
        _ => panic!("expected an object"),
    }
    assert!(get_value(&tree, 0).is_none());
    assert!(get_value(&tree, 1000).is_none());
    assert!(is_equal(&tree, 1, &json(r#"{"a": null, "b": 2.5}"#)) == false);
    let simple = parse(r#"{"a": null, "b": 2.50}"#);
    assert!(is_equal(&simple, 1, &json(r#"{"b": 2.5, "a": null}"#)));
    assert!(!is_equal(&simple, 1, &json(r#"{"b": 2.5}"#)));
    assert!(!is_equal(&simple, 1, &json(r#"{"b": 2.5, "a": null, "c": 1}"#)));
    assert!(!is_equal(&simple, 0, &json(r#"{"b": 2.5, "a": null}"#)));
    assert!(!is_equal(&simple, 1000, &json("null")));
    assert!(validate_enum(&simple, 1000, &json(r#"{"enum": [1]}"#)).is_none());
    assert!(validate_enum(&simple, 1, &json(r#"{"enum": [{"b": 2.5, "a": null}]}"#)).is_none());
}

#[test]
fn outcomes_are_joined_in_order() {
    let diagnostic = |text: &str| to_diagnostic(Position::new(0, 0), Position::new(0, 1), text.to_string());
    let result = |texts: &[&str]| ParseResult::new(texts.iter().map(|t| diagnostic(t)).collect(), Vec::new());
    let merged = result(&["a", "b"]).merge(result(&["c"]));
    let found: Vec<&str> = merged.errors.iter().map(|d| d.message.as_str()).collect();
    assert_eq!(found, vec!["a", "b", "c"]);
    let all = result(&["a"]).merge_all(vec![result(&["b", "c"]), result(&[]), result(&["d"])]);
    let found: Vec<&str> = all.errors.iter().map(|d| d.message.as_str()).collect();
    assert_eq!(found, vec!["a", "b", "c", "d"]);
    let empty = ParseResult::default().merge_all(vec![]);
    assert_eq!(empty.errors.len(), 0);
    assert_eq!(empty.schema_matches.len(), 0);
    let with_match = ParseResult::new(
        Vec::new(),
        vec![SchemaMatches {
            node: NodeIdentifier { closest_pair: None, start: Position::new(0, 0), end: Position::new(0, 1) },
            schema: json("true"),
        }],
    );
    assert_eq!(with_match.merge(ParseResult::default()).schema_matches.len(), 1);
    assert!(is_used(&vec!["a".to_string()], "a"));
    assert!(!is_used(&vec!["a".to_string()], "b"));
    let array = IRArray::new(vec![1, 2], Position::new(0, 0), Position::new(0, 1));
    assert_eq!(array.kind, "array");
}

fn conforms(document: &str, schema: &str) -> bool {
    run(document, schema).errors.is_empty()
}

fn check_all(schema: &str, cases: &[(&str, bool)]) {
    for (document, valid) in cases {
        assert_eq!(conforms(document, schema), *valid, "{} against {}", document, schema);
    }
}

#[test]
fn items_of_draft_four() {
    check_all(
        r#"{"items": [{}], "additionalItems": {"type": "integer"}}"#,
        &[("[null, 2, 3, 4]", true), ("[null, 2, 3, \"foo\"]", false)],
    );
    check_all(
        r#"{"items": {}, "additionalItems": false}"#,
        &[("[1, 2, 3, 4, 5]", true)],
    );
    check_all(
        r#"{"items": [{}, {}, {}], "additionalItems": false}"#,
        &[
            ("[]", true),
            ("[1]", true),
            ("[1, 2]", true),
            ("[1, 2, 3]", true),
            ("[1, 2, 3, 4]", false),
        ],
    );
    check_all(
        r#"{"additionalItems": false}"#,
        &[("[1, 2, 3, 4, 5]", true), ("{\"foo\": \"bar\"}", true)],
    );
    check_all(
        r#"{"items": [{"type": "integer"}]}"#,
        &[("[1, \"foo\", false]", true)],
    );
    check_all(
        r#"{"items": {"type": "integer"}}"#,
        &[("[1, 2, 3]", true), ("[1, \"x\"]", false), ("{\"foo\": \"bar\"}", true)],
    );
    check_all(
        r#"{"items": [{"type": "integer"}, {"type": "string"}]}"#,
        &[
            ("[1, \"foo\"]", true),
            ("[\"foo\", 1]", false),
            ("[1]", true),
            ("[1, \"foo\", true]", true),
            ("[]", true),
        ],
    );
    check_all(
        r#"{"maxItems": 2}"#,
        &[("[1]", true), ("[1, 2]", true), ("[1, 2, 3]", false), ("\"foobar\"", true)],
    );
    check_all(
        r#"{"minItems": 1}"#,
        &[("[1, 2]", true), ("[1]", true), ("[]", false), ("\"\"", true)],
    );
    check_all(
        r#"{"uniqueItems": true}"#,
        &[
            ("[1, 2]", true),
            ("[1, 1]", false),
            ("[1.0, 1.00, 1]", false),
            ("[\"foo\", \"bar\", \"baz\"]", true),
            ("[\"foo\", \"bar\", \"foo\"]", false),
            ("[{\"foo\": \"bar\"}, {\"foo\": \"baz\"}]", true),
            ("[{\"foo\": \"bar\"}, {\"foo\": \"bar\"}]", false),
            (
                "[{\"foo\": {\"bar\": {\"baz\": true}}}, {\"foo\": {\"bar\": {\"baz\": false}}}]",
                true,
            ),
            (
                "[{\"foo\": {\"bar\": {\"baz\": true}}}, {\"foo\": {\"bar\": {\"baz\": true}}}]",
                false,
            ),
            ("[[\"foo\"], [\"bar\"]]", true),
            ("[[\"foo\"], [\"foo\"]]", false),
            ("[1, true]", true),
            ("[0, false]", true),
            ("[{}, [1], true, null, 1]", true),
            ("[{}, [1], true, null, {}, 1]", false),
        ],
    );
}

#[test]
fn properties_of_draft_four() {
    check_all(
        r#"{"properties": {"foo": {}, "bar": {}}, "patternProperties": {"^v": {}},
            "additionalProperties": false}"#,
        &[
            ("{\"foo\": 1}", true),
            ("{\"foo\": 1, \"bar\": 2, \"quux\": \"boom\"}", false),
            ("[1, 2, 3]", true),
            ("{\"foo\": 1, \"vroom\": 2}", true),
        ],
    );
    check_all(
        r#"{"properties": {"foo": {}, "bar": {}}, "additionalProperties": {"type": "boolean"}}"#,
        &[
            ("{\"foo\": 1}", true),
            ("{\"foo\": 1, \"bar\": 2, \"quux\": true}", true),
            ("{\"foo\": 1, \"bar\": 2, \"quux\": 12}", false),
        ],
    );
    check_all(
        r#"{"additionalProperties": {"type": "boolean"}}"#,
        &[("{\"foo\": true}", true), ("{\"foo\": 1}", false)],
    );
    check_all(
        r#"{"properties": {"foo": {}, "bar": {}}}"#,
        &[("{\"foo\": 1, \"bar\": 2, \"quux\": true}", true)],
    );
    check_all(
        r#"{"properties": {"foo": {"type": "integer"}, "bar": {"type": "string"}}}"#,
        &[
            ("{\"foo\": 1, \"bar\": \"baz\"}", true),
            ("{\"foo\": 1, \"bar\": {}}", false),
            ("{\"foo\": [], \"bar\": {}}", false),
            ("{\"quux\": []}", true),
            ("[]", true),
        ],
    );
    check_all(
        r#"{"patternProperties": {"f.*o": {"type": "integer"}}}"#,
        &[
            ("{\"foo\": 1}", true),
            ("{\"foo\": 1, \"foooooo\": 2}", true),
            ("{\"foo\": \"bar\", \"fooooo\": 2}", false),
            ("{\"foo\": \"bar\", \"foooooo\": \"baz\"}", false),
            ("12", true),
        ],
    );
    check_all(
        r#"{"patternProperties": {"a*": {"type": "integer"}, "aaa*": {"maximum": 20}}}"#,
        &[
            ("{\"a\": 21}", true),
            ("{\"aaaa\": 18}", true),
            ("{\"a\": 21, \"aaaa\": 18}", true),
            ("{\"a\": \"bar\"}", false),
            ("{\"aaaa\": 31}", false),
            ("{\"aaa\": \"foo\", \"aaaa\": 31}", false),
        ],
    );
    check_all(
        r#"{"patternProperties": {"[0-9]{2,}": {"type": "boolean"}, "X_": {"type": "string"}}}"#,
        &[
            ("{\"answer 1\": \"42\"}", true),
            ("{\"a31b\": null}", false),
            ("{\"a_x_3\": 3}", true),
            ("{\"a_X_3\": 3}", false),
        ],
    );
    check_all(
        r#"{"properties": {"foo": {"type": "array", "maxItems": 3}, "bar": {"type": "array"}},
            "patternProperties": {"f.o": {"minItems": 2}},
            "additionalProperties": {"type": "integer"}}"#,
        &[
            ("{\"foo\": [1, 2]}", true),
            ("{\"foo\": [1, 2, 3, 4]}", false),
            ("{\"fxo\": [1, 2]}", true),
            ("{\"fxo\": []}", false),
            ("{\"bar\": []}", true),
            ("{\"quux\": 3}", true),
            ("{\"quux\": \"foo\"}", false),
        ],
    );
    check_all(
        r#"{"properties": {"foo": {}, "bar": {}}, "required": ["foo"]}"#,
        &[("{\"foo\": 1}", true), ("{\"bar\": 1}", false), ("12", true)],
    );
    check_all(r#"{"properties": {"foo": {}}}"#, &[("{}", true)]);
    check_all(
        r#"{"maxProperties": 2}"#,
        &[
            ("{\"foo\": 1}", true),
            ("{\"foo\": 1, \"bar\": 2}", true),
            ("{\"foo\": 1, \"bar\": 2, \"baz\": 3}", false),
            ("[1, 2, 3]", true),
            ("\"foobar\"", true),
        ],
    );
    check_all(
        r#"{"minProperties": 1}"#,
        &[("{\"foo\": 1, \"bar\": 2}", true), ("{\"foo\": 1}", true), ("{}", false), ("[]", true)],
    );
}

#[test]
fn a_key_that_properties_takes_is_not_held_against_a_pattern() {
    let schema = r#"{"properties": {"foo": {"type": "array"}},
        "patternProperties": {"f.o": {"minItems": 2}}}"#;
    assert!(conforms("{\"foo\": []}", schema));
    assert!(!conforms("{\"fxo\": []}", schema));
}

#[test]
fn scalars_of_draft_four() {
    check_all(r#"{"enum": [1, 2, 3]}"#, &[("1", true), ("4", false)]);
    check_all(
        r#"{"enum": [6, "foo", [], true, {"foo": 12}]}"#,
        &[("[]", true), ("null", false), ("{\"foo\": false}", false), ("{\"foo\": 12}", true)],
    );
    check_all(
        r#"{"maxLength": 2}"#,
        &[("\"f\"", true), ("\"fo\"", true), ("\"foo\"", false), ("100", true)],
    );
    check_all(
        r#"{"minLength": 2}"#,
        &[("\"foo\"", true), ("\"fo\"", true), ("\"f\"", false), ("1", true)],
    );
    check_all(
        r#"{"maximum": 3.0}"#,
        &[("2.6", true), ("3.0", true), ("3.5", false), ("\"x\"", true)],
    );
    check_all(
        r#"{"maximum": 3.0, "exclusiveMaximum": true}"#,
        &[("2.2", true), ("3.0", false)],
    );
    check_all(
        r#"{"minimum": 1.1}"#,
        &[("2.6", true), ("1.1", true), ("0.6", false), ("\"x\"", true)],
    );
    check_all(
        r#"{"minimum": 1.1, "exclusiveMinimum": true}"#,
        &[("1.2", true), ("1.1", false)],
    );
    check_all(
        r#"{"multipleOf": 2}"#,
        &[("10", true), ("7", false), ("\"foo\"", true)],
    );
    check_all(
        r#"{"multipleOf": 1.5}"#,
        &[("0", true), ("4.5", true), ("35", false)],
    );
    check_all(r#"{"multipleOf": 0.0001}"#, &[("0.00751", false)]);
    check_all(
        r#"{"pattern": "^a*$"}"#,
        &[("\"aaa\"", true), ("\"abc\"", false), ("true", true)],
    );
    check_all(r#"{"pattern": "a+"}"#, &[("\"xxaayy\"", true)]);
    check_all(
        r#"{"type": "integer"}"#,
        &[
            ("1", true),
            ("1.1", false),
            ("\"foo\"", false),
            ("{}", false),
            ("[]", false),
            ("true", false),
            ("null", false),
        ],
    );
    check_all(
        r#"{"type": "number"}"#,
        &[("1", true), ("1.1", true), ("\"foo\"", false), ("null", false)],
    );
    check_all(
        r#"{"type": "string"}"#,
        &[("1", false), ("\"foo\"", true), ("\"\"", true), ("{}", false)],
    );
    check_all(r#"{"type": "object"}"#, &[("{}", true), ("[]", false), ("1", false)]);
    check_all(r#"{"type": "array"}"#, &[("[]", true), ("{}", false)]);
    check_all(
        r#"{"type": "boolean"}"#,
        &[("true", true), ("false", true), ("null", false), ("0", false)],
    );
    check_all(r#"{"type": "null"}"#, &[("null", true), ("false", false), ("0", false)]);
    check_all(
        r#"{"type": ["integer", "string"]}"#,
        &[
            ("1", true),
            ("\"foo\"", true),
            ("1.1", false),
            ("{}", false),
            ("[]", false),
            ("true", false),
            ("null", false),
        ],
    );
}
