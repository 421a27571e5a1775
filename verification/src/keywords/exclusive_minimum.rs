//! The keyword `exclusiveMinimum`.
use crate::diagnostic::{plain_diagnostic, reports, to_diagnostic, Diagnostic, DiagnosticView};
use crate::double::at_most;
use crate::errors::{exclusive_minimum_error, exclusive_minimum_text};
use crate::ir::{IRNumber, NumberModel};
use crate::json::{double_at, double_under, json_model, Json};
use serde_json::Value;
use vstd::prelude::*;

verus! {

/// What `exclusiveMinimum` reports of a number:
/// that it is as small as the bound or smaller.
/// Nothing where the schema holds no number under that key.
pub open spec fn exclusive_minimum_diagnostic(node: NumberModel, schema: Json) -> Option<
    DiagnosticView,
> {
    match double_under(schema, "exclusiveMinimum"@) {
        Some(expected) => if at_most(node.value.bits, expected.bits) {
            Some(
                plain_diagnostic(
                    node.start,
                    node.end,
                    exclusive_minimum_text(expected, node.value),
                ),
            )
        } else {
            None
        },
        None => None,
    }
}

/// Holds a number against `exclusiveMinimum`.
pub fn validate_exclusive_minimum(node: &IRNumber, sub_schema: &Value) -> (r: Option<Diagnostic>)
    ensures
        reports(r, exclusive_minimum_diagnostic(node@, json_model(*sub_schema))),
{
    let expected = double_at(sub_schema, "exclusiveMinimum")?;
    if node.value.le(&expected) {
        return Some(
            to_diagnostic(node.start, node.end, exclusive_minimum_error(&expected, &node.value)),
        );
    }
    None
}

} // verus!
