use json_parser::{JsonDocument, JsonParseError, JsonParser, JsonRootType, Rule};

// A successful parse keeps exactly the trimmed input as the content.
#[test]
fn test_content_is_trimmed_input() {
    let json = "  \t {\"name\": \"test\", \"value\": 42} \n ";
    let doc = JsonDocument::parse(json).unwrap();
    assert_eq!(doc.root_type, JsonRootType::Object);
    assert_eq!(doc.content, "{\"name\": \"test\", \"value\": 42}");
}

// Re-parsing the content of a parsed document succeeds with the same root type.
#[test]
fn test_reparse_content_idempotent() {
    let inputs = vec![
        "  [1, 2, 3, \"test\"]  ",
        "{\"nested\": {\"array\": [1, 2, 3]}}",
    ];
    for input in inputs {
        let doc = JsonDocument::parse(input).unwrap();
        let again = JsonDocument::parse(&doc.content).unwrap();
        assert_eq!(again.root_type, doc.root_type);
        assert_eq!(again.content, doc.content);
    }
}

// Trailing commas are always rejected.
#[test]
fn test_trailing_commas_rejected() {
    assert!(JsonDocument::parse(r#"{"a":1,}"#).is_err());
    assert!(JsonDocument::parse(r#"[1,]"#).is_err());
    assert!(!JsonDocument::is_valid(r#"{"a":1,}"#));
    assert!(!JsonDocument::is_valid(r#"[1,]"#));
}

// A primitive root is grammar-valid but rejected as a document, and the
// error names the rule that matched at the root.
#[test]
fn test_primitive_roots() {
    let cases = vec![
        ("true", "true"),
        ("false", "false"),
        ("null", "null"),
        ("42", "number"),
        ("\"text\"", "string"),
    ];
    for (input, rule_name) in cases {
        assert!(JsonDocument::is_valid(input), "grammar-valid: {}", input);
        match JsonDocument::parse(input) {
            Err(JsonParseError::UnexpectedRootType(name)) => assert_eq!(name, rule_name),
            other => panic!("expected UnexpectedRootType for {}: {:?}", input, other),
        }
    }
}

// A missing value is reported at the position of the character that was
// found instead, here the closing brace of the object.
#[test]
fn test_grammar_error_offset() {
    match JsonDocument::parse(r#"{"name": "test", "value": }"#) {
        Err(JsonParseError::GrammarError { offset, message }) => {
            assert_eq!(offset, 26);
            assert_eq!(message, "expected a JSON value");
        }
        other => panic!("expected GrammarError: {:?}", other),
    }
}

// Both the empty input and a whitespace-only input are EmptyJson.
#[test]
fn test_empty_inputs() {
    assert!(matches!(
        JsonDocument::parse(""),
        Err(JsonParseError::EmptyJson)
    ));
    assert!(matches!(
        JsonDocument::parse(" \t\r\n "),
        Err(JsonParseError::EmptyJson)
    ));
    assert!(!JsonDocument::is_valid(""));
    assert!(!JsonDocument::is_valid(" \t\r\n "));
}

// With PEG semantics, a rule run on its own matches a prefix: a number
// stops at a leading zero's successor, and the document rule then rejects
// the leftover character.
#[test]
fn test_number_prefix_semantics() {
    let parsed = JsonParser::parse(Rule::number, "01").unwrap();
    assert_eq!(parsed.as_str(), "0");
    assert!(JsonParser::parse(Rule::json, "01").is_err());
    assert!(!JsonDocument::is_valid("[01]"));

    // A malformed fraction or exponent is not consumed at all.
    let parsed = JsonParser::parse(Rule::number, "1.x").unwrap();
    assert_eq!(parsed.as_str(), "1");
    let parsed = JsonParser::parse(Rule::number, "1.5e").unwrap();
    assert_eq!(parsed.as_str(), "1.5");
}

// A number rule alone must still start with a digit after the sign.
#[test]
fn test_invalid_numbers() {
    assert!(JsonParser::parse(Rule::number, "-").is_err());
    assert!(JsonParser::parse(Rule::number, "-x").is_err());
    assert!(JsonParser::parse(Rule::number, ".5").is_err());
    assert!(!JsonDocument::is_valid("[+1]"));
}

// Escape sequences: exactly the JSON set is recognized, and \u takes
// exactly four hexadecimal digits.
#[test]
fn test_escape_sequences() {
    assert!(JsonDocument::is_valid(r#"["a\"b\\c\/d\be\ff\ng\rh\ti"]"#));
    assert!(JsonDocument::is_valid(r#"["\u00A9"]"#));
    assert!(!JsonDocument::is_valid(r#"["\u00G9"]"#));
    assert!(!JsonDocument::is_valid(r#"["\u009"]"#));
    assert!(!JsonDocument::is_valid(r#"["\q"]"#));
    assert!(!JsonDocument::is_valid("[\"a"));
}

// Unescaped control characters may not appear inside strings.
#[test]
fn test_control_char_in_string_rejected() {
    assert!(!JsonDocument::is_valid("[\"a\nb\"]"));
    assert!(JsonDocument::is_valid(r#"["a\nb"]"#));
}

// Literals must not run into identifier characters.
#[test]
fn test_literal_boundaries() {
    assert!(!JsonDocument::is_valid("[truee]"));
    assert!(!JsonDocument::is_valid("[nulll]"));
    assert!(JsonDocument::is_valid("[true]"));
    assert!(JsonParser::parse(Rule::json, "tru").is_err());
}

// The failure position is the deepest position the engine reached.
#[test]
fn test_deepest_failure_position() {
    // The literal attempt consumed three characters before failing.
    match JsonParser::parse(Rule::json, "tru]") {
        Err(JsonParseError::GrammarError { offset, .. }) => assert_eq!(offset, 3),
        other => panic!("expected GrammarError: {:?}", other),
    }
    // The array got past the first element and failed on the separator.
    match JsonParser::parse(Rule::json, "[1 2]") {
        Err(JsonParseError::GrammarError { offset, message }) => {
            assert_eq!(offset, 3);
            assert_eq!(message, "expected ',' or ']'");
        }
        other => panic!("expected GrammarError: {:?}", other),
    }
}

// A document may carry whitespace between any two tokens.
#[test]
fn test_whitespace_between_tokens() {
    assert!(JsonDocument::is_valid(
        "{ \"a\" : [ 1 , 2 ] , \"b\" : { } }"
    ));
    let doc = JsonDocument::parse("\n[ true , false , null ]\n").unwrap();
    assert_eq!(doc.root_type, JsonRootType::Array);
}

// Nested structures are recognized to arbitrary (reasonable) depth.
#[test]
fn test_nested_structures() {
    let doc = JsonDocument::parse(r#"[[[[{"a": [1, {"b": []}]}]]]]"#).unwrap();
    assert_eq!(doc.root_type, JsonRootType::Array);
    assert!(!JsonDocument::is_valid(r#"[[[[{"a": [1, {"b": []}]}]]]"#));
}
