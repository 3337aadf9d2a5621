//! JSON documents and compiled JSON Schemas, as serde_json and jsonschema
//! give them.
//!
//! A document keeps the text it was parsed from, and a compiled schema the
//! text of its schema; their views are those texts. Only the functions of
//! this module build them, each from a successful parse or compilation of
//! that very text, so what the outside crates report about a document or a
//! schema is a function of the texts.
use vstd::prelude::*;
use crate::text::{chars_of, has_infix, vec_has_infix};

verus! {

#[verifier::external_type_specification]
#[verifier::external_body]
pub struct ExValue(serde_json::Value);

#[verifier::external_type_specification]
#[verifier::external_body]
pub struct ExJSONSchema(jsonschema::JSONSchema);

/// A JSON value together with the text it was parsed from.
pub struct JsonDocument {
    source: String,
    value: serde_json::Value,
}

impl View for JsonDocument {
    type V = Seq<char>;

    closed spec fn view(&self) -> Seq<char> {
        self.source@
    }
}

/// A schema compiled for Draft 7, together with the text of the schema.
pub struct CompiledSchema {
    source: String,
    compiled: jsonschema::JSONSchema,
}

impl View for CompiledSchema {
    type V = Seq<char>;

    closed spec fn view(&self) -> Seq<char> {
        self.source@
    }
}

/// The message serde_json gives for a text that is not one JSON value, or
/// none when the text parses.
pub uninterp spec fn json_syntax_error(text: Seq<char>) -> Option<Seq<char>>;

/// The message jsonschema gives when the schema parsed from `schema_text`
/// does not compile as a Draft 7 schema, or none when it compiles.
pub uninterp spec fn draft7_compile_error(schema_text: Seq<char>) -> Option<Seq<char>>;

/// The first error jsonschema reports, in the order of its error iterator,
/// when the value parsed from `instance_text` is checked against the schema
/// compiled from `schema_text`, or none when the value is valid.
pub uninterp spec fn first_violation(schema_text: Seq<char>, instance_text: Seq<char>) -> Option<
    Seq<char>,
>;

/// The schema text holds no reference: no `$ref`, and no `\` (so no escape
/// can spell one). Under Draft 7, `$ref` is the only keyword that makes
/// jsonschema resolve and compile further schemas while validating.
pub open spec fn reference_free(schema_text: Seq<char>) -> bool {
    !has_infix(schema_text, "$ref"@) && !schema_text.contains('\\')
}

impl CompiledSchema {
    /// Whether the schema's text holds no reference.
    pub fn is_reference_free(&self) -> (b: bool)
        ensures
            b == reference_free(self@),
    {
        let text = chars_of(self.source.as_str());
        let needle = chars_of("$ref");
        if vec_has_infix(&text, &needle) {
            return false;
        }
        let n = text.len();
        let mut i: usize = 0;
        while i < n
            invariant
                n == text@.len(),
                text@ == self@,
                i <= n,
                forall|k: int| 0 <= k < i ==> text@[k] != '\\',
            decreases n - i,
        {
            if text[i] == '\\' {
                proof {
                    assert(self@[i as int] == '\\');
                }
                return false;
            }
            i += 1;
        }
        true
    }
}

/// Calls `serde_json::from_str::<serde_json::Value>`.
///
/// Claims that it fails exactly when `json_syntax_error` names a message for
/// the text, with that message (the error's `Display`), and that on success
/// the document is the parse of this text. What the parsed value holds is
/// not stated: the value is opaque here.
#[verifier::external_body]
pub(crate) fn parse_json(text: &str) -> (res: Result<JsonDocument, String>)
    ensures
        match res {
            Ok(doc) => json_syntax_error(text@) is None && doc@ == text@,
            Err(m) => json_syntax_error(text@) == Some(m@),
        },
{
    match serde_json::from_str::<serde_json::Value>(text) {
        Ok(value) => Ok(JsonDocument { source: text.to_string(), value }),
        Err(e) => Err(e.to_string()),
    }
}

/// Calls `jsonschema::JSONSchema::options().with_draft(Draft::Draft7).compile`.
///
/// Claims that compilation fails exactly when `draft7_compile_error` names a
/// message for the schema's text, with that message (the error's
/// `Display`), and that on success the compiled schema is that of this text.
#[verifier::external_body]
pub(crate) fn compile_draft7(schema: &JsonDocument) -> (res: Result<CompiledSchema, String>)
    ensures
        match res {
            Ok(compiled) => draft7_compile_error(schema@) is None && compiled@ == schema@,
            Err(m) => draft7_compile_error(schema@) == Some(m@),
        },
{
    match jsonschema::JSONSchema::options().with_draft(jsonschema::Draft::Draft7).compile(
        &schema.value,
    ) {
        Ok(compiled) => Ok(CompiledSchema { source: schema.source.clone(), compiled }),
        Err(e) => Err(e.to_string()),
    }
}

/// Calls `jsonschema::JSONSchema::validate` and takes the first error of the
/// iterator it returns on failure.
///
/// Claims that the result is `first_violation` of the two texts: none when
/// the instance is valid, else the first error's `Display`.
///
/// Only schemas without references are admitted (`reference_free`).
/// jsonschema compiles a `$ref` anew each time it validates through it, so a
/// schema whose references lead back to themselves without descending into
/// the instance (such as `{"$ref": "#"}`) makes validation recurse without
/// end. The inventory schema holds no reference.
#[verifier::external_body]
pub(crate) fn first_schema_violation(schema: &CompiledSchema, instance: &JsonDocument) -> (res: Option<
    String,
>)
    requires
        reference_free(schema@),
    ensures
        match res {
            Some(m) => first_violation(schema@, instance@) == Some(m@),
            None => first_violation(schema@, instance@) is None,
        },
{
    match schema.compiled.validate(&instance.value) {
        Ok(()) => None,
        Err(mut errors) => match errors.next() {
            Some(e) => Some(e.to_string()),
            None => None,
        },
    }
}

} // verus!
