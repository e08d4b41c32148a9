use json_parser::{JsonDocument, JsonParseError, JsonRootType};

#[test]
fn test_valid_object_json() {
    let json = r#"{"name": "test", "value": 42}"#;
    let doc = JsonDocument::parse(json);
    assert!(doc.is_ok());
    if let Ok(doc) = doc {
        assert_eq!(doc.root_type, JsonRootType::Object);
    }
}

#[test]
fn test_valid_array_json() {
    let json = r#"[1, 2, 3, "test"]"#;
    let doc = JsonDocument::parse(json);
    assert!(doc.is_ok());
    if let Ok(doc) = doc {
        assert_eq!(doc.root_type, JsonRootType::Array);
    }
}

#[test]
fn test_empty_json() {
    let json = r#"  "#;
    assert!(matches!(
        JsonDocument::parse(json),
        Err(JsonParseError::EmptyJson)
    ));
}

#[test]
fn test_invalid_json() {
    let json = r#"{"name": "test", "value": }"#;
    assert!(matches!(
        JsonDocument::parse(json),
        Err(JsonParseError::GrammarError { .. })
    ));
}

#[test]
fn test_unexpected_root_type() {
    // `Rule::json` doesn't accept primitive values like `true` as root
    let json = r#"true"#;
    assert!(matches!(
        JsonDocument::parse(json),
        Err(JsonParseError::UnexpectedRootType(_))
    ));
}

#[test]
fn test_is_valid() {
    let valid_json = r#"{"key": "value"}"#;
    let invalid_json = r#"{"key": "value",}"#;
    let empty_json = r#"   "#;

    assert!(JsonDocument::is_valid(valid_json));
    assert!(!JsonDocument::is_valid(invalid_json));
    assert!(!JsonDocument::is_valid(empty_json));
}
