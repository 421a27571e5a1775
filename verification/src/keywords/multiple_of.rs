//! The keyword `multipleOf`.
use crate::diagnostic::{plain_diagnostic, reports, to_diagnostic, Diagnostic, DiagnosticView};
use crate::double::zero_remainder;
use crate::errors::{multiple_of_error, multiple_of_text};
use crate::ir::{IRNumber, NumberModel};
use crate::json::{double_at, double_under, json_model, Json};
use serde_json::Value;
use vstd::prelude::*;

verus! {

/// What `multipleOf` reports of a number:
/// that dividing it by the divisor leaves a remainder other than zero.
/// Nothing where the schema holds no number under that key.
pub open spec fn multiple_of_diagnostic(node: NumberModel, schema: Json) -> Option<
    DiagnosticView,
> {
    match double_under(schema, "multipleOf"@) {
        Some(expected) => if !zero_remainder(node.value.bits, expected.bits) {
            Some(
                plain_diagnostic(
                    node.start,
                    node.end,
                    multiple_of_text(expected, node.value),
                ),
            )
        } else {
            None
        },
        None => None,
    }
}

/// Holds a number against `multipleOf`.
pub fn validate_multiple_of(node: &IRNumber, sub_schema: &Value) -> (r: Option<Diagnostic>)
    ensures
        reports(r, multiple_of_diagnostic(node@, json_model(*sub_schema))),
{
    let expected = double_at(sub_schema, "multipleOf")?;
    if !node.value.is_multiple_of(&expected) {
        return Some(
            to_diagnostic(node.start, node.end, multiple_of_error(&expected, &node.value)),
        );
    }
    None
}

} // verus!
