//! What it means for a document to conform to a schema, keyword by keyword.
use crate::double::{at_most, less, zero_remainder};
use crate::formats::regex_matches;
use crate::ir::{
    representation, ArrayModel, IRModel, NumberModel, ObjectModel, StringModel,
};
use crate::json::{
    as_text, double_under, lemma_member_nesting, lookup, member_of, nesting, size_bound,
    text_under, Json, JsonMember,
};
use crate::json_schema_parser::{
    additional_jobs, after_additional, after_patterns, after_properties, array_jobs, declared,
    is_placeholder, lemma_dependencies_nesting, listed, pattern_jobs, patterned, properties_jobs,
    rest_schema, stand_in, Job,
};
use crate::keywords::dependencies::dependencies_of;
use crate::keywords::format::conforms_to;
use crate::keywords::json_enum::is_option;
use crate::keywords::maximum::upper_bound;
use crate::keywords::minimum::lower_bound;
use crate::object::{available, Entry};
use crate::syntax::{child_of, TreeModel};
use crate::values::{pair_keys, same_value, type_matches, value_at};
use vstd::prelude::*;

verus! {

/// `type`: the value has the type named, or one of the types listed.
pub open spec fn type_holds(ir: IRModel, schema: Json) -> bool {
    match lookup(schema, "type"@) {
        Some(Json::String(name)) => type_matches(ir, name),
        Some(Json::Array(types)) => exists|i: int|
            0 <= i < types.len() && (as_text(#[trigger] types[i]) matches Some(name)
                && type_matches(ir, name)),
        _ => true,
    }
}

/// `enum`: the node holds one of the options.
pub open spec fn enum_holds(t: TreeModel, id: int, schema: Json) -> bool {
    lookup(schema, "enum"@) matches Some(Json::Array(options)) ==> is_option(t, id, options)
}

/// The keywords for strings: the pattern, where it is a regular expression,
/// matches in the string; the string is written in the format named, where
/// that is one of the formats checked; and the number of its characters lies
/// within the bounds.
pub open spec fn string_holds(node: StringModel, schema: Json) -> bool {
    &&& text_under(schema, "pattern"@) matches Some(pattern) ==> regex_matches(
        pattern,
        node.contents,
    ) != Some(false)
    &&& text_under(schema, "format"@) matches Some(format) ==> conforms_to(format, node.contents)
        != Some(false)
    &&& size_bound(schema, "minLength"@) matches Some(least) ==> node.contents.len()
        >= least
    &&& size_bound(schema, "maxLength"@) matches Some(most) ==> node.contents.len() <= most
}

/// The keywords for numbers: the divisor leaves no remainder; the number
/// lies strictly within the exclusive bounds; and it does not lie beyond the
/// maximum or the minimum, nor on it where the exclusive keyword holds
/// `true`.
pub open spec fn number_holds(node: NumberModel, schema: Json) -> bool {
    let value = node.value.bits;
    &&& double_under(schema, "multipleOf"@) matches Some(divisor) ==> zero_remainder(
        value,
        divisor.bits,
    )
    &&& double_under(schema, "exclusiveMinimum"@) matches Some(bound) ==> !at_most(
        value,
        bound.bits,
    )
    &&& double_under(schema, "exclusiveMaximum"@) matches Some(bound) ==> !at_most(
        bound.bits,
        value,
    )
    &&& lower_bound(schema) matches Some(bound) ==> if lookup(schema, "exclusiveMinimum"@) == Some(
        Json::Bool(true),
    ) {
        !at_most(value, bound.bits)
    } else {
        !less(value, bound.bits)
    }
    &&& upper_bound(schema) matches Some(bound) ==> if lookup(schema, "exclusiveMaximum"@) == Some(
        Json::Bool(true),
    ) {
        !at_most(bound.bits, value)
    } else {
        !less(bound.bits, value)
    }
}

/// Whether every text that `names` lists is one of `keys`.
pub open spec fn all_present(names: Seq<Json>, keys: Seq<Seq<char>>) -> bool {
    forall|i: int|
        0 <= i < names.len() ==> (as_text(#[trigger] names[i]) matches Some(name)
            ==> keys.contains(name))
}

/// The keywords for objects, as far as they speak of the object itself:
/// with `additionalProperties: false`, `properties` and `patternProperties`
/// leave no key over; for each key that no keyword took and that
/// `dependencies` names with a list, every name of the list is a key; the
/// number of properties lies within the bounds; and every name that
/// `required` lists is a key.
pub open spec fn object_holds(node: ObjectModel, schema: Json) -> bool {
    &&& lookup(schema, "additionalProperties"@) == Some(Json::Bool(false)) ==> after_patterns(
        available(node.properties, node.properties.len() as int),
        schema,
    ).len() == 0
    &&& dependencies_of(schema) matches Some(deps) ==> {
        let last = after_additional(
            available(node.properties, node.properties.len() as int),
            schema,
        );
        forall|k: int|
            0 <= k < last.len() ==> (member_of(deps, (#[trigger] last[k]).key) matches Some(
                Json::Array(names),
            ) ==> all_present(names, pair_keys(node.properties)))
    }
    &&& size_bound(schema, "minProperties"@) matches Some(least) ==> node.properties.len()
        >= least
    &&& size_bound(schema, "maxProperties"@) matches Some(most) ==> node.properties.len() <= most
    &&& lookup(schema, "required"@) matches Some(Json::Array(required)) ==> all_present(
        required,
        pair_keys(node.properties),
    )
}

/// The keywords for arrays, as far as they speak of the array itself: the
/// number of items lies within the bounds; with `additionalItems: false`,
/// there are no more items than `items` lists schemas; and with
/// `uniqueItems: true`, no two items have the same value.
pub open spec fn array_holds(t: TreeModel, node: ArrayModel, schema: Json) -> bool {
    &&& size_bound(schema, "minItems"@) matches Some(least) ==> node.items.len() >= least
    &&& size_bound(schema, "maxItems"@) matches Some(most) ==> node.items.len() <= most
    &&& rest_schema(schema) == Some(Json::Bool(false)) ==> node.items.len() <= listed(schema)
    &&& lookup(schema, "uniqueItems"@) == Some(Json::Bool(true)) ==> forall|i: int, j: int|
        0 <= i < j < node.items.len() ==> !(value_at(t, #[trigger] node.items[i]) matches Some(a)
            && value_at(t, #[trigger] node.items[j]) matches Some(b) && same_value(a, b))
}

/// What the keywords ask of the node `id` itself.
pub open spec fn keywords_hold(t: TreeModel, id: int, ir: IRModel, schema: Json) -> bool {
    &&& type_holds(ir, schema)
    &&& enum_holds(t, id, schema)
    &&& match ir {
        IRModel::String(s) => string_holds(s, schema),
        IRModel::Number(n) => number_holds(n, schema),
        IRModel::Object(o) => object_holds(o, schema),
        IRModel::Array(a) => array_holds(t, a, schema),
        _ => true,
    }
}

/// Whether the node `id` and all that lies below it conform to `schema`: the
/// keywords hold of the node, and each node below it conforms to the schema
/// fragment that applies to it. A placeholder conforms where the node that
/// stands for it does, and a node without a representation always.
pub open spec fn conforms(t: TreeModel, id: int, schema: Json) -> bool
    decreases t.len() - id, nesting(schema), 3int, 0int,
{
    if 0 <= id < t.len() {
        if is_placeholder(t, id) {
            match stand_in(t, id) {
                Some(next) => id < next < t.len() ==> conforms(t, next, schema),
                None => true,
            }
        } else {
            match representation(t, id) {
                Some(ir) => keywords_hold(t, id, ir, schema) && below_conforms(t, id, ir, schema),
                None => true,
            }
        }
    } else {
        true
    }
}

/// Whether each of the first `upto` descents from `parent` leads to a node
/// that conforms to the schema of the descent.
pub open spec fn all_conform(t: TreeModel, parent: int, jobs: Seq<Job>, upto: int) -> bool
    decreases t.len() - parent, 0nat, 0int, upto,
{
    if 0 < upto <= jobs.len() {
        let job = jobs[upto - 1];
        all_conform(t, parent, jobs, upto - 1) && (parent < job.node < t.len() ==> conforms(
            t,
            job.node,
            job.schema,
        ))
    } else {
        true
    }
}

/// Whether the object at the node `id` conforms to each schema that `deps`
/// names for one of the first `upto` available keys.
pub open spec fn dependent_conforms(
    t: TreeModel,
    id: int,
    avail: Seq<Entry>,
    deps: Seq<JsonMember>,
    upto: int,
) -> bool
    decreases t.len() - id, nesting(Json::Object(deps)), 1int, upto,
{
    if 0 < upto <= avail.len() {
        dependent_conforms(t, id, avail, deps, upto - 1) && match member_of(
            deps,
            avail[upto - 1].key,
        ) {
            Some(Json::Object(ms)) => {
                proof {
                    lemma_member_nesting(deps, avail[upto - 1].key);
                }
                conforms(t, id, Json::Object(ms))
            },
            _ => true,
        }
    } else {
        true
    }
}

/// Whether the nodes below the node `id` conform: the values of an object's
/// properties to the schemas that `properties`, `patternProperties` and
/// `additionalProperties` give them, and the object itself to the schemas
/// that `dependencies` names for the keys that no keyword took; the items of
/// an array to the schemas that `items` and `additionalItems` give them; and
/// the key and the value of a pair to the schema of the pair.
pub open spec fn below_conforms(t: TreeModel, id: int, ir: IRModel, schema: Json) -> bool
    decreases t.len() - id, nesting(schema), 2int, 0int,
{
    match ir {
        IRModel::Object(o) => {
            let all = available(o.properties, o.properties.len() as int);
            let left = after_properties(all, schema);
            let rest = after_patterns(all, schema);
            let first = match declared(schema) {
                Some(ms) => properties_jobs(all, ms, all.len() as int),
                None => Seq::empty(),
            };
            let second = match patterned(schema) {
                Some(ms) => pattern_jobs(left, ms, left.len() as int),
                None => Seq::empty(),
            };
            let third = match lookup(schema, "additionalProperties"@) {
                Some(fragment) => additional_jobs(rest, fragment, rest.len() as int),
                None => Seq::empty(),
            };
            &&& all_conform(t, id, first, first.len() as int)
            &&& all_conform(t, id, second, second.len() as int)
            &&& all_conform(t, id, third, third.len() as int)
            &&& match dependencies_of(schema) {
                Some(deps) => {
                    proof {
                        lemma_dependencies_nesting(schema);
                    }
                    let last = after_additional(all, schema);
                    dependent_conforms(t, id, last, deps, last.len() as int)
                },
                None => true,
            }
        },
        IRModel::Array(a) => {
            let jobs = array_jobs(a.items, schema);
            all_conform(t, id, jobs, jobs.len() as int)
        },
        IRModel::Pair(p) => {
            let jobs = match child_of(t, id, 0) {
                Some(key) => seq![Job { node: key, schema }, Job { node: p.value, schema }],
                None => seq![Job { node: p.value, schema }],
            };
            all_conform(t, id, jobs, jobs.len() as int)
        },
        _ => true,
    }
}

} // verus!
