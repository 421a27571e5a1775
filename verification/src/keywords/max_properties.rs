//! The keyword `maxProperties`.
use crate::diagnostic::{plain_diagnostic, reports, to_diagnostic, Diagnostic, DiagnosticView};
use crate::errors::{expected_properties_error, expected_properties_text};
use crate::ir::{IRObject, ObjectModel};
use crate::json::{json_model, size_bound, size_of, Json};
use serde_json::Value;
use vstd::prelude::*;

verus! {

/// What `maxProperties` reports of an object: nothing where the schema holds no
/// size under that key, or where the object has that many properties or fewer.
pub open spec fn max_properties_diagnostic(node: ObjectModel, schema: Json) -> Option<
    DiagnosticView,
> {
    match size_bound(schema, "maxProperties"@) {
        Some(expected) => if node.properties.len() > expected {
            Some(
                plain_diagnostic(
                    node.start,
                    node.end,
                    expected_properties_text(expected as nat, node.properties.len()),
                ),
            )
        } else {
            None
        },
        None => None,
    }
}

/// Holds an object against `maxProperties`.
pub fn validate_max_properties(node: &IRObject, sub_schema: &Value) -> (r: Option<Diagnostic>)
    ensures
        reports(r, max_properties_diagnostic(node@, json_model(*sub_schema))),
{
    let expected = size_of(sub_schema, "maxProperties")?;
    let found = node.properties.len();
    if found > expected {
        return Some(
            to_diagnostic(node.start, node.end, expected_properties_error(expected, found)),
        );
    }
    None
}

} // verus!
