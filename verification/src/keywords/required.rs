//! The keyword `required`.
use crate::diagnostic::{plain_diagnostic, reports, to_diagnostic, Diagnostic, DiagnosticView};
use crate::errors::{required_error, required_text};
use crate::ir::{IRObject, IRPair, ObjectModel};
use crate::json::{as_text, get, json_model, lookup, Json};
use crate::text::{insert_sorted, inserted, join, joined, str_eq, texts};
use crate::values::pair_keys;
use serde_json::Value;
use vstd::prelude::*;

verus! {

/// Those of the first `upto` values of `required` that are texts and no key
/// of `keys`: each once, in ascending order.
pub open spec fn missing(required: Seq<Json>, keys: Seq<Seq<char>>, upto: int) -> Seq<Seq<char>>
    decreases upto,
{
    if 0 < upto <= required.len() {
        let rest = missing(required, keys, upto - 1);
        match as_text(required[upto - 1]) {
            Some(name) => if keys.contains(name) {
                rest
            } else {
                inserted(rest, name)
            },
            None => rest,
        }
    } else {
        Seq::empty()
    }
}

/// What `required` reports of an object: the names that it lacks, in
/// ascending order with a comma between neighbours. Nothing where the schema
/// holds no list under that key, or where the object lacks none.
pub open spec fn required_diagnostic(node: ObjectModel, schema: Json) -> Option<DiagnosticView> {
    match lookup(schema, "required"@) {
        Some(Json::Array(required)) => {
            let lacking = missing(required, pair_keys(node.properties), required.len() as int);
            if lacking.len() > 0 {
                Some(
                    plain_diagnostic(node.start, node.end, required_text(joined(lacking, ", "@))),
                )
            } else {
                None
            }
        },
        _ => None,
    }
}

/// Whether one of `pairs` has the key `key`.
pub fn has_key(pairs: &Vec<IRPair>, key: &str) -> (r: bool)
    ensures
        r == pair_keys(pairs@.map_values(|p: IRPair| p@)).contains(key@),
{
    let ghost keys = pair_keys(pairs@.map_values(|p: IRPair| p@));
    let mut i: usize = 0;
    while i < pairs.len()
        invariant
            i <= pairs.len(),
            keys == pair_keys(pairs@.map_values(|p: IRPair| p@)),
            forall|k: int| 0 <= k < i ==> keys[k] != key@,
        decreases pairs.len() - i,
    {
        if str_eq(pairs[i].key.contents.as_str(), key) {
            assert(keys[i as int] == key@);
            return true;
        }
        i += 1;
    }
    false
}

/// The names among `required` that are no key of `pairs`: each once, in
/// ascending order.
pub fn lacking_names(required: &Vec<Value>, pairs: &Vec<IRPair>) -> (r: Vec<String>)
    ensures
        ({
            let listed = Seq::new(required@.len(), |k: int| json_model(required@[k]));
            texts(r@) == missing(
                listed,
                pair_keys(pairs@.map_values(|p: IRPair| p@)),
                listed.len() as int,
            )
        }),
{
    let ghost listed = Seq::new(required@.len(), |k: int| json_model(required@[k]));
    let ghost keys = pair_keys(pairs@.map_values(|p: IRPair| p@));
    let mut lacking: Vec<String> = Vec::new();
    let mut i: usize = 0;
    while i < required.len()
        invariant
            i <= required.len(),
            listed == Seq::new(required@.len(), |k: int| json_model(required@[k])),
            keys == pair_keys(pairs@.map_values(|p: IRPair| p@)),
            texts(lacking@) == missing(listed, keys, i as int),
        decreases required.len() - i,
    {
        assert(listed[i as int] == json_model(required@[i as int]));
        if let Some(requirement) = required[i].as_str() {
            if !has_key(pairs, requirement) {
                insert_sorted(&mut lacking, String::from_str(requirement));
            }
        }
        i += 1;
    }
    lacking
}

/// Holds an object against `required`.
pub fn validate_required(node: &IRObject, sub_schema: &Value) -> (r: Option<Diagnostic>)
    ensures
        reports(r, required_diagnostic(node@, json_model(*sub_schema))),
{
    let property = get(sub_schema, "required")?;
    let required = property.as_array()?;
    let lacking = lacking_names(required, &node.properties);
    proof {
        let listed = json_model(*property)->Array_0;
        assert(Seq::new(required@.len(), |k: int| json_model(required@[k])) =~= listed);
    }
    if lacking.len() > 0 {
        let missing_requirements = join(&lacking, ", ");
        return Some(
            to_diagnostic(node.start, node.end, required_error(missing_requirements.as_str())),
        );
    }
    None
}

} // verus!
