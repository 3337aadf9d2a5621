//! Checking inventory files against the inventory schema.
//!
//! A file passes when it is one JSON value that the Draft 7 schema
//! `BOX_CONTENTS_SCHEMA` accepts; otherwise the check names the first reason
//! it fails: the file could not be read, is not JSON, or breaks the schema.
use vstd::prelude::*;
use crate::json_schema::{
    CompiledSchema,
    compile_draft7,
    draft7_compile_error,
    first_schema_violation,
    first_violation,
    json_syntax_error,
    parse_json,
    reference_free,
};
use crate::text::concat;

verus! {

/// The inventory schema: a list of items, each an object with a string
/// `name` and a string `description`, and optionally a list of string
/// `categories` and a string `notes`.
pub const BOX_CONTENTS_SCHEMA: &'static str =
    "{\"$schema\": \"http://json-schema.org/draft-07/schema#\", \"title\": \"Box contents\", \"type\": \"array\", \"items\": {\"type\": \"object\", \"required\": [\"name\", \"description\"], \"properties\": {\"name\": {\"type\": \"string\", \"description\": \"Brief name or title\"}, \"description\": {\"type\": \"string\", \"description\": \"Detailed description\"}, \"categories\": {\"type\": \"array\", \"items\": {\"type\": \"string\"}, \"description\": \"Categories the item belongs to\"}, \"notes\": {\"type\": \"string\", \"description\": \"Additional notes or information\"}}}}";

/// What compiling a schema text gives: the parser's message when the text
/// is not JSON, the compiler's message after `Failed to compile schema: `
/// when it is no Draft 7 schema, else the compiled schema of that text.
pub open spec fn schema_compiles_to(text: Seq<char>, res: Result<CompiledSchema, String>) -> bool {
    match json_syntax_error(text) {
        Some(e) => res matches Err(m) && m@ == e,
        None => match draft7_compile_error(text) {
            Some(e) => res matches Err(m) && m@ == "Failed to compile schema: "@ + e,
            None => res matches Ok(s) && s@ == text,
        },
    }
}

/// Parses and compiles a schema text as a Draft 7 schema.
pub fn compile_schema(schema_str: &str) -> (res: Result<CompiledSchema, String>)
    ensures
        schema_compiles_to(schema_str@, res),
{
    match parse_json(schema_str) {
        Err(e) => Err(e),
        Ok(doc) => match compile_draft7(&doc) {
            Ok(compiled) => Ok(compiled),
            Err(e) => Err(concat("Failed to compile schema: ", e.as_str())),
        },
    }
}

/// The verdict on a file, given what reading it gave: the read error after
/// `failed to read file: `, the parser's message after `invalid JSON: `, the
/// schema's first complaint after `schema validation failed: `, or success.
pub open spec fn file_verdict(
    contents: Result<String, String>,
    schema: Seq<char>,
    res: Result<(), String>,
) -> bool {
    match contents {
        Err(e) => res matches Err(m) && m@ == "failed to read file: "@ + e@,
        Ok(text) => match json_syntax_error(text@) {
            Some(e) => res matches Err(m) && m@ == "invalid JSON: "@ + e,
            None => match first_violation(schema, text@) {
                Some(v) => res matches Err(m) && m@ == "schema validation failed: "@ + v,
                None => res is Ok,
            },
        },
    }
}

/// Checks one file, given what reading it gave, against a compiled schema
/// without references, such as the inventory schema.
pub fn validate_json_file(contents: Result<String, String>, schema: &CompiledSchema) -> (res:
    Result<(), String>)
    requires
        reference_free(schema@),
    ensures
        file_verdict(contents, schema@, res),
{
    match contents {
        Err(e) => Err(concat("failed to read file: ", e.as_str())),
        Ok(text) => match parse_json(text.as_str()) {
            Err(e) => Err(concat("invalid JSON: ", e.as_str())),
            Ok(doc) => match first_schema_violation(schema, &doc) {
                Some(v) => Err(concat("schema validation failed: ", v.as_str())),
                None => Ok(()),
            },
        },
    }
}

/// The line reported for a file that fails: `{path}:1:1: error: {message}`.
pub fn error_line(path: &str, message: &str) -> (res: String)
    ensures
        res@ == path@ + ":1:1: error: "@ + message@,
{
    let head = concat(path, ":1:1: error: ");
    concat(head.as_str(), message)
}

} // verus!
