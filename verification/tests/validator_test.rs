use surface_saver_rust::validator::{compile_schema, error_line, validate_json_file, BOX_CONTENTS_SCHEMA};
use surface_saver_rust::json_schema::CompiledSchema;

fn get_compiled_schema() -> CompiledSchema {
    match compile_schema(BOX_CONTENTS_SCHEMA) {
        Ok(schema) => schema,
        Err(e) => panic!("schema does not compile: {e}"),
    }
}

fn check(contents: &str) -> Result<(), String> {
    validate_json_file(Ok(contents.to_string()), &get_compiled_schema())
}

#[test]
fn test_valid_json() {
    let valid_content = r#"[
            {
                "name": "Test Item",
                "description": "A test item",
                "categories": ["test"]
            }
        ]"#;
    assert!(check(valid_content).is_ok());
}

#[test]
fn test_missing_required_field() {
    let invalid_content = r#"[
            {
                "name": "Test Item"
            }
        ]"#;
    let result = check(invalid_content);
    assert!(result.is_err());
    assert!(result.unwrap_err().contains("description"));
}

#[test]
fn test_wrong_type() {
    let invalid_content = r#"{
            "name": "Not an array",
            "description": "This should be an array"
        }"#;
    let result = check(invalid_content);
    assert!(result.is_err());
    assert!(result.unwrap_err().contains("array"));
}

#[test]
fn test_invalid_json() {
    let result = check(r#"{ invalid json"#);
    assert!(result.is_err());
    assert!(result.unwrap_err().contains("invalid JSON"));
}

#[test]
fn test_nonexistent_file() {
    let result = validate_json_file(
        Err("No such file or directory (os error 2)".to_string()),
        &get_compiled_schema(),
    );
    assert!(result.is_err());
    assert!(result.unwrap_err().contains("failed to read file"));
}

#[test]
fn test_optional_fields() {
    let valid_content = r#"[
            {
                "name": "Test Item",
                "description": "A test item",
                "categories": ["test"],
                "notes": "Some optional notes"
            },
            {
                "name": "Minimal Item",
                "description": "Only required fields"
            }
        ]"#;
    assert!(check(valid_content).is_ok());
}

#[test]
fn test_empty_array() {
    assert!(check("[]").is_ok());
}

#[test]
fn test_compile_schema_invalid_json() {
    let result = compile_schema(r#"{ invalid json"#);
    assert!(result.is_err());
}

#[test]
fn test_compile_schema_invalid_schema() {
    let result = compile_schema(r#"{"not": "a valid schema"}"#);
    match result {
        Ok(_) => panic!("compiled an invalid schema"),
        Err(e) => assert!(e.to_string().contains("Failed to compile schema")),
    }
}

#[test]
fn messages_carry_their_prefixes() {
    let read = validate_json_file(Err("denied".to_string()), &get_compiled_schema());
    assert_eq!(read.unwrap_err(), "failed to read file: denied");
    let schema_failure = check(r#"[{"name": "x", "description": 3}]"#).unwrap_err();
    assert!(schema_failure.starts_with("schema validation failed: "));
    let syntax = check("[").unwrap_err();
    assert!(syntax.starts_with("invalid JSON: "));
}

#[test]
fn categories_must_be_strings() {
    assert!(check(r#"[{"name": "x", "description": "y", "categories": [1]}]"#).is_err());
    assert!(check(r#"[{"name": "x", "description": "y", "notes": 5}]"#).is_err());
}

#[test]
fn error_lines_point_at_the_file() {
    assert_eq!(
        error_line("box2/invalid.json", "schema validation failed: x"),
        "box2/invalid.json:1:1: error: schema validation failed: x"
    );
}

#[test]
fn inventory_schema_has_no_references() {
    assert!(get_compiled_schema().is_reference_free());
    let with_ref = compile_schema(r##"{"definitions": {"a": {"type": "string"}}, "$ref": "#/definitions/a"}"##)
        .unwrap_or_else(|e| panic!("{e}"));
    assert!(!with_ref.is_reference_free());
    let escaped = compile_schema(r#"{"title": "a\u0020b"}"#).unwrap_or_else(|e| panic!("{e}"));
    assert!(!escaped.is_reference_free());
}

#[test]
fn other_reference_free_schemas_validate() {
    let schema = compile_schema(r#"{"type": "object", "required": ["id"]}"#).unwrap_or_else(|e| panic!("{e}"));
    assert!(schema.is_reference_free());
    assert!(validate_json_file(Ok(r#"{"id": 1}"#.to_string()), &schema).is_ok());
    let failure = validate_json_file(Ok("{}".to_string()), &schema).unwrap_err();
    assert!(failure.starts_with("schema validation failed: "));
    assert!(failure.contains("id"));
}
