//! The keyword `maxItems`.
use crate::diagnostic::{plain_diagnostic, reports, to_diagnostic, Diagnostic, DiagnosticView};
use crate::errors::{expected_items_error, expected_items_text};
use crate::ir::{IRArray, ArrayModel};
use crate::json::{json_model, size_bound, size_of, Json};
use serde_json::Value;
use vstd::prelude::*;

verus! {

/// What `maxItems` reports of an array: nothing where the schema holds no
/// size under that key, or where the array has that many items or fewer.
pub open spec fn max_items_diagnostic(node: ArrayModel, schema: Json) -> Option<DiagnosticView> {
    match size_bound(schema, "maxItems"@) {
        Some(expected) => if node.items.len() > expected {
            Some(
                plain_diagnostic(
                    node.start,
                    node.end,
                    expected_items_text(expected as nat, node.items.len()),
                ),
            )
        } else {
            None
        },
        None => None,
    }
}

/// Holds an array against `maxItems`.
pub fn validate_max_items(node: &IRArray, sub_schema: &Value) -> (r: Option<Diagnostic>)
    ensures
        reports(r, max_items_diagnostic(node@, json_model(*sub_schema))),
{
    let expected = size_of(sub_schema, "maxItems")?;
    let found = node.items.len();
    if found > expected {
        return Some(to_diagnostic(node.start, node.end, expected_items_error(expected, found)));
    }
    None
}

} // verus!
