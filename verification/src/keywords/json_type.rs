//! The keyword `type`.
use crate::diagnostic::{plain_diagnostic, reports, to_diagnostic, Diagnostic, DiagnosticView};
use crate::errors::{type_error, type_text};
use crate::ir::{IRModel, IR};
use crate::json::{as_text, get, json_model, lookup, Json};
use crate::text::{join, joined, texts};
use crate::values::{matches_type, type_matches};
use serde_json::Value;
use vstd::prelude::*;

verus! {

/// The texts among the first `upto` values of `types`, in order.
pub open spec fn type_names(types: Seq<Json>, upto: int) -> Seq<Seq<char>>
    decreases upto,
{
    if 0 < upto <= types.len() {
        match as_text(types[upto - 1]) {
            Some(name) => type_names(types, upto - 1).push(name),
            None => type_names(types, upto - 1),
        }
    } else {
        Seq::empty()
    }
}

/// Whether the value has one of the types named.
pub open spec fn any_type_matches(ir: IRModel, names: Seq<Seq<char>>) -> bool {
    exists|i: int| 0 <= i < names.len() && type_matches(ir, #[trigger] names[i])
}

/// What `type` reports of a value: that it has not the type named, or none
/// of the types named where the schema holds a list. Nothing where the schema
/// holds neither a text nor a list under that key.
pub open spec fn type_diagnostic(ir: IRModel, schema: Json) -> Option<DiagnosticView> {
    match lookup(schema, "type"@) {
        Some(Json::Array(types)) => {
            let names = type_names(types, types.len() as int);
            if any_type_matches(ir, names) {
                None
            } else {
                Some(
                    plain_diagnostic(
                        ir.start(),
                        ir.end(),
                        type_text(joined(names, ", "@), ir.kind()),
                    ),
                )
            }
        },
        Some(Json::String(name)) => if type_matches(ir, name) {
            None
        } else {
            Some(plain_diagnostic(ir.start(), ir.end(), type_text(name, ir.kind())))
        },
        _ => None,
    }
}

/// Holds a value against `type`.
pub fn validate_type(ir_node: &IR, sub_schema: &Value) -> (r: Option<Diagnostic>)
    ensures
        reports(r, type_diagnostic(ir_node@, json_model(*sub_schema))),
{
    let type_property = get(sub_schema, "type")?;
    let start = ir_node.get_start();
    let end = ir_node.get_end();
    let kind = ir_node.get_kind();
    if let Some(types) = type_property.as_array() {
        let ghost listed = json_model(*type_property)->Array_0;
        let mut names: Vec<String> = Vec::new();
        let mut type_found = false;
        let mut i: usize = 0;
        while i < types.len()
            invariant
                i <= types.len(),
                types@.len() == listed.len(),
                forall|k: int|
                    0 <= k < listed.len() ==> json_model(#[trigger] types@[k]) == listed[k],
                texts(names@) == type_names(listed, i as int),
                type_found == any_type_matches(ir_node@, texts(names@)),
            decreases types.len() - i,
        {
            let ghost before = texts(names@);
            if let Some(name) = types[i].as_str() {
                let matched = matches_type(ir_node, name);
                names.push(String::from_str(name));
                proof {
                    let now = texts(names@);
                    assert(now =~= before.push(name@));
                    if type_found {
                        let w = choose|w: int|
                            0 <= w < before.len() && type_matches(ir_node@, #[trigger] before[w]);
                        assert(now[w] == before[w]);
                    }
                    if matched {
                        assert(type_matches(ir_node@, now[now.len() - 1]));
                    }
                    if any_type_matches(ir_node@, now) && !matched {
                        let w = choose|w: int|
                            0 <= w < now.len() && type_matches(ir_node@, #[trigger] now[w]);
                        assert(before[w] == now[w]);
                    }
                }
                if matched {
                    type_found = true;
                }
            }
            i += 1;
        }
        if !type_found {
            let missing_types = join(&names, ", ");
            return Some(to_diagnostic(start, end, type_error(missing_types.as_str(), kind)));
        }
        None
    } else {
        let types = type_property.as_str()?;
        if !matches_type(ir_node, types) {
            return Some(to_diagnostic(start, end, type_error(types, kind)));
        }
        None
    }
}

} // verus!
