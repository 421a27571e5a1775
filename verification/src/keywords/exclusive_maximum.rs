//! The keyword `exclusiveMaximum`.
use crate::diagnostic::{plain_diagnostic, reports, to_diagnostic, Diagnostic, DiagnosticView};
use crate::double::at_most;
use crate::errors::{exclusive_maximum_error, exclusive_maximum_text};
use crate::ir::{IRNumber, NumberModel};
use crate::json::{double_at, double_under, json_model, Json};
use serde_json::Value;
use vstd::prelude::*;

verus! {

/// What `exclusiveMaximum` reports of a number:
/// that it is as large as the bound or larger.
/// Nothing where the schema holds no number under that key.
pub open spec fn exclusive_maximum_diagnostic(node: NumberModel, schema: Json) -> Option<
    DiagnosticView,
> {
    match double_under(schema, "exclusiveMaximum"@) {
        Some(expected) => if at_most(expected.bits, node.value.bits) {
            Some(
                plain_diagnostic(
                    node.start,
                    node.end,
                    exclusive_maximum_text(expected, node.value),
                ),
            )
        } else {
            None
        },
        None => None,
    }
}

/// Holds a number against `exclusiveMaximum`.
pub fn validate_exclusive_maximum(node: &IRNumber, sub_schema: &Value) -> (r: Option<Diagnostic>)
    ensures
        reports(r, exclusive_maximum_diagnostic(node@, json_model(*sub_schema))),
{
    let expected = double_at(sub_schema, "exclusiveMaximum")?;
    if expected.le(&node.value) {
        return Some(
            to_diagnostic(node.start, node.end, exclusive_maximum_error(&expected, &node.value)),
        );
    }
    None
}

} // verus!
