//! The keyword `maxLength`.
use crate::diagnostic::{plain_diagnostic, reports, to_diagnostic, Diagnostic, DiagnosticView};
use crate::errors::{expected_length_error, expected_length_text};
use crate::ir::{IRString, StringModel};
use crate::json::{json_model, size_bound, size_of, Json};
use crate::text::chars_of;
use serde_json::Value;
use vstd::prelude::*;

verus! {

/// What `maxLength` reports of a string: nothing where the schema holds no
/// size under that key, or where the string has that many characters or fewer.
pub open spec fn max_length_diagnostic(node: StringModel, schema: Json) -> Option<DiagnosticView> {
    match size_bound(schema, "maxLength"@) {
        Some(expected) => if node.contents.len() > expected {
            Some(
                plain_diagnostic(
                    node.start,
                    node.end,
                    expected_length_text(expected as nat, node.contents.len()),
                ),
            )
        } else {
            None
        },
        None => None,
    }
}

/// Holds a string against `maxLength`.
pub fn validate_max_length(node: &IRString, sub_schema: &Value) -> (r: Option<Diagnostic>)
    ensures
        reports(r, max_length_diagnostic(node@, json_model(*sub_schema))),
{
    let expected = size_of(sub_schema, "maxLength")?;
    let found = chars_of(node.contents.as_str()).len();
    if found > expected {
        return Some(to_diagnostic(node.start, node.end, expected_length_error(expected, found)));
    }
    None
}

} // verus!
