//! The keyword `minLength`.
use crate::diagnostic::{plain_diagnostic, reports, to_diagnostic, Diagnostic, DiagnosticView};
use crate::errors::{expected_length_error, expected_length_text};
use crate::ir::{IRString, StringModel};
use crate::json::{json_model, size_bound, size_of, Json};
use crate::text::chars_of;
use serde_json::Value;
use vstd::prelude::*;

verus! {

/// What `minLength` reports of a string: nothing where the schema holds no
/// size under that key, or where the string has that many characters or more.
pub open spec fn min_length_diagnostic(node: StringModel, schema: Json) -> Option<DiagnosticView> {
    match size_bound(schema, "minLength"@) {
        Some(expected) => if node.contents.len() < expected {
            Some(
                plain_diagnostic(
                    node.start,
                    node.end,
                    expected_length_text(expected as nat, node.contents.len()),
                ),
            )
        } else {
            None
        },
        None => None,
    }
}

/// Holds a string against `minLength`.
pub fn validate_min_length(node: &IRString, sub_schema: &Value) -> (r: Option<Diagnostic>)
    ensures
        reports(r, min_length_diagnostic(node@, json_model(*sub_schema))),
{
    let expected = size_of(sub_schema, "minLength")?;
    let found = chars_of(node.contents.as_str()).len();
    if found < expected {
        return Some(to_diagnostic(node.start, node.end, expected_length_error(expected, found)));
    }
    None
}

} // verus!
