//! The keyword `maximum`, read together with `exclusiveMaximum`.
use crate::diagnostic::{plain_diagnostic, reports, to_diagnostic, Diagnostic, DiagnosticView};
use crate::double::{at_most, less, DoubleView};
use crate::errors::{maximum_error, maximum_text};
use crate::ir::{IRNumber, NumberModel};
use crate::json::{
    as_double, double_at, double_under, get, get_number, json_model, lookup, Json,
};
use serde_json::Value;
use vstd::prelude::*;

verus! {

/// The bound that a number is held against: `maximum`, or the number under
/// `exclusiveMaximum` where that is the larger.
pub open spec fn upper_bound(schema: Json) -> Option<DoubleView> {
    match double_under(schema, "maximum"@) {
        Some(bound) => match lookup(schema, "exclusiveMaximum"@) {
            Some(Json::Number(n)) => match as_double(Json::Number(n)) {
                Some(other) => if less(other.bits, bound.bits) {
                    Some(bound)
                } else {
                    Some(other)
                },
                None => Some(bound),
            },
            _ => Some(bound),
        },
        None => None,
    }
}

/// What `maximum` reports of a number: that it is above the bound; with
/// `exclusiveMaximum` set to `true`, that it is as large as the bound
/// or larger. Nothing where the
/// schema holds no number under `maximum`.
pub open spec fn maximum_diagnostic(node: NumberModel, schema: Json) -> Option<DiagnosticView> {
    match upper_bound(schema) {
        Some(bound) => if (if lookup(schema, "exclusiveMaximum"@) == Some(Json::Bool(true)) {
            at_most(bound.bits, node.value.bits)
        } else {
            less(bound.bits, node.value.bits)
        }) {
            Some(plain_diagnostic(node.start, node.end, maximum_text(bound, node.value)))
        } else {
            None
        },
        None => None,
    }
}

/// Holds a number against `maximum`.
pub fn validate_maximum(node: &IRNumber, sub_schema: &Value) -> (r: Option<Diagnostic>)
    ensures
        reports(r, maximum_diagnostic(node@, json_model(*sub_schema))),
{
    let expected = double_at(sub_schema, "maximum")?;
    let exclusive = get(sub_schema, "exclusiveMaximum");
    let mut bound = expected;
    let mut inclusive = false;
    if let Some(x) = exclusive {
        if let Some(flag) = x.as_bool() {
            inclusive = flag;
        } else if x.is_number() {
            if let Some(other) = get_number(x) {
                if !(other.lt(&bound)) {
                    bound = other;
                }
            }
        }
    }
    let beyond = if inclusive {
        bound.le(&node.value)
    } else {
        bound.lt(&node.value)
    };
    if beyond {
        return Some(to_diagnostic(node.start, node.end, maximum_error(&bound, &node.value)));
    }
    None
}

} // verus!
