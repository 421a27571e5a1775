//! The keyword `dependencies`.
use crate::diagnostic::{
    diagnostic_views, plain_diagnostic, to_diagnostic, Diagnostic, DiagnosticView,
};
use crate::errors::{required_error, required_text};
use crate::ir::IRObject;
use crate::json::{get, json_model, lookup, member_of, Json, JsonMember};
use crate::keywords::required::{lacking_names, missing};
use crate::object::{entries, AvailableKey, Entry};
use crate::syntax::{SyntaxTree, TreeModel};
use crate::text::{join, joined};
use crate::values::pair_keys;
use serde_json::Value;
use vstd::prelude::*;

verus! {

/// The members under `dependencies`, where the schema holds an object
/// there: each names a key and what an object that has the key depends on, a
/// list of names or a schema.
pub open spec fn dependencies_of(schema: Json) -> Option<Seq<JsonMember>> {
    match lookup(schema, "dependencies"@) {
        Some(Json::Object(deps)) => Some(deps),
        _ => None,
    }
}

/// What `dependencies` reports of the first `upto` available keys: for each
/// key that `deps` names with a list, and whose object lacks a name of that
/// list, the names that are lacking, at the span of the value of the key.
pub open spec fn dependency_errors_upto(
    t: TreeModel,
    avail: Seq<Entry>,
    keys: Seq<Seq<char>>,
    deps: Seq<JsonMember>,
    upto: int,
) -> Seq<DiagnosticView>
    decreases upto,
{
    if 0 < upto <= avail.len() {
        let rest = dependency_errors_upto(t, avail, keys, deps, upto - 1);
        let e = avail[upto - 1];
        match member_of(deps, e.key) {
            Some(Json::Array(names)) => {
                let lacking = missing(names, keys, names.len() as int);
                if lacking.len() > 0 && 0 <= e.node < t.len() {
                    rest.push(
                        plain_diagnostic(
                            t[e.node].start,
                            t[e.node].end,
                            required_text(joined(lacking, ", "@)),
                        ),
                    )
                } else {
                    rest
                }
            },
            _ => rest,
        }
    } else {
        Seq::empty()
    }
}

/// What `dependencies` reports of an object with the keys `keys`, of which
/// `avail` are those that no other keyword took.
pub open spec fn dependency_errors(
    t: TreeModel,
    avail: Seq<Entry>,
    keys: Seq<Seq<char>>,
    deps: Seq<JsonMember>,
) -> Seq<DiagnosticView> {
    dependency_errors_upto(t, avail, keys, deps, avail.len() as int)
}

/// Holds the keys that no other keyword took against the lists of
/// `dependencies`: a key that the keyword names with a list asks for each
/// name of that list to be a key of the object.
pub fn validate_dependencies(
    tree: &SyntaxTree,
    obj: &IRObject,
    available_keys: &Vec<AvailableKey>,
    sub_schema: &Value,
) -> (r: Option<Vec<Diagnostic>>)
    ensures
        match lookup(json_model(*sub_schema), "dependencies"@) {
            Some(Json::Object(deps)) => r is Some && diagnostic_views(r.unwrap()@)
                == dependency_errors(
                tree@,
                entries(available_keys@),
                pair_keys(obj@.properties),
                deps,
            ),
            _ => r is None,
        },
{
    let dependencies = get(sub_schema, "dependencies")?;
    if !dependencies.is_object() {
        return None;
    }
    let ghost t = tree@;
    let ghost avail = entries(available_keys@);
    let ghost keys = pair_keys(obj@.properties);
    let ghost deps = json_model(*dependencies)->Object_0;
    let mut errors: Vec<Diagnostic> = Vec::new();
    let mut i: usize = 0;
    assert(diagnostic_views(errors@) =~= Seq::empty());
    while i < available_keys.len()
        invariant
            i <= available_keys.len(),
            t == tree@,
            avail == entries(available_keys@),
            keys == pair_keys(obj@.properties),
            json_model(*dependencies) == Json::Object(deps),
            diagnostic_views(errors@) == dependency_errors_upto(t, avail, keys, deps, i as int),
        decreases available_keys.len() - i,
    {
        let entry = &available_keys[i];
        assert(avail[i as int] == entry@);
        if let Some(dependency) = get(dependencies, entry.key.as_str()) {
            if let Some(names) = dependency.as_array() {
                let lacking = lacking_names(names, &obj.properties);
                proof {
                    let listed = json_model(*dependency)->Array_0;
                    assert(Seq::new(names@.len(), |k: int| json_model(names@[k])) =~= listed);
                }
                if lacking.len() > 0 && entry.node < tree.len() {
                    let value = tree.node(entry.node);
                    let ghost before = diagnostic_views(errors@);
                    let d = to_diagnostic(
                        value.start(),
                        value.end(),
                        required_error(join(&lacking, ", ").as_str()),
                    );
                    errors.push(d);
                    assert(diagnostic_views(errors@) =~= before.push(d@));
                }
            }
        }
        i += 1;
    }
    Some(errors)
}

} // verus!
