//! The keyword `minimum`, read together with `exclusiveMinimum`.
use crate::diagnostic::{plain_diagnostic, reports, to_diagnostic, Diagnostic, DiagnosticView};
use crate::double::{at_most, less, DoubleView};
use crate::errors::{minimum_error, minimum_text};
use crate::ir::{IRNumber, NumberModel};
use crate::json::{
    as_double, double_at, double_under, get, get_number, json_model, lookup, Json,
};
use serde_json::Value;
use vstd::prelude::*;

verus! {

/// The bound that a number is held against: `minimum`, or the number under
/// `exclusiveMinimum` where that is not the larger.
pub open spec fn lower_bound(schema: Json) -> Option<DoubleView> {
    match double_under(schema, "minimum"@) {
        Some(bound) => match lookup(schema, "exclusiveMinimum"@) {
            Some(Json::Number(n)) => match as_double(Json::Number(n)) {
                Some(other) => if less(bound.bits, other.bits) {
                    Some(bound)
                } else {
                    Some(other)
                },
                None => Some(bound),
            },
            _ => Some(bound),
        },
        None => None,
    }
}

/// What `minimum` reports of a number: that it is below the bound; with
/// `exclusiveMinimum` set to `true`, that it is as small as the bound
/// or smaller. Nothing where the
/// schema holds no number under `minimum`.
pub open spec fn minimum_diagnostic(node: NumberModel, schema: Json) -> Option<DiagnosticView> {
    match lower_bound(schema) {
        Some(bound) => if (if lookup(schema, "exclusiveMinimum"@) == Some(Json::Bool(true)) {
            at_most(node.value.bits, bound.bits)
        } else {
            less(node.value.bits, bound.bits)
        }) {
            Some(plain_diagnostic(node.start, node.end, minimum_text(bound, node.value)))
        } else {
            None
        },
        None => None,
    }
}

/// Holds a number against `minimum`.
pub fn validate_minimum(node: &IRNumber, sub_schema: &Value) -> (r: Option<Diagnostic>)
    ensures
        reports(r, minimum_diagnostic(node@, json_model(*sub_schema))),
{
    let expected = double_at(sub_schema, "minimum")?;
    let exclusive = get(sub_schema, "exclusiveMinimum");
    let mut bound = expected;
    let mut inclusive = false;
    if let Some(x) = exclusive {
        if let Some(flag) = x.as_bool() {
            inclusive = flag;
        } else if x.is_number() {
            if let Some(other) = get_number(x) {
                if !(bound.lt(&other)) {
                    bound = other;
                }
            }
        }
    }
    let beyond = if inclusive {
        node.value.le(&bound)
    } else {
        node.value.lt(&bound)
    };
    if beyond {
        return Some(to_diagnostic(node.start, node.end, minimum_error(&bound, &node.value)));
    }
    None
}

} // verus!
