//! What holds of every validation.
use crate::conformance::{
    all_conform, all_present, array_holds, below_conforms, conforms, dependent_conforms,
    enum_holds, keywords_hold, number_holds, object_holds, string_holds, type_holds,
};
use crate::diagnostic::optional;
use crate::ir::{descends, lemma_representation_descends, representation, IRModel, PairModel};
use crate::json::{
    as_text, lemma_member_nesting, lookup, member_of, nesting, Json, JsonMember,
};
use crate::json_schema_parser::{
    additional_errors, additional_jobs, additional_keys, after_additional, after_patterns,
    after_properties, dependent, lemma_dependencies_nesting,
    array_diagnostics, array_jobs, below, declared, is_placeholder, matching_jobs,
    number_diagnostics, object_diagnostics, outcome, own_diagnostics, pattern_jobs, pattern_keys,
    patterned, properties_jobs, properties_keys, results, stand_in, string_diagnostics,
    validation, Job,
};
use crate::keywords::dependencies::{dependencies_of, dependency_errors_upto};
use crate::keywords::json_enum::{enum_diagnostic, is_option, ENUM_CODE};
use crate::keywords::json_type::{any_type_matches, type_diagnostic, type_names};
use crate::keywords::required::{missing, required_diagnostic};
use crate::keywords::unique_items::{duplicates, occurs, unique_items_diagnostic, values_upto};
use crate::object::{
    available, keys_of, lemma_available_distinct, lemma_place_of, without, Entry,
};
use crate::parser::{all_of, ResultView};
use crate::syntax::{child_of, well_formed, TreeModel};
use crate::text::{ascending, inserted, lemma_inserted};
use crate::values::{pair_keys, same_value, type_matches, value_at, ValueModel};
use vstd::prelude::*;

verus! {

/// Validating a document against a schema a second time gives the outcome
/// of the first time: the same diagnostics and the same matches, in the same
/// order.
pub proof fn law_validation_repeats(
    t: TreeModel,
    id: int,
    schema: Json,
    first: ResultView,
    second: ResultView,
)
    requires
        first == validation(t, id, schema),
        second == validation(t, id, schema),
    ensures
        first.errors == second.errors,
        first.schema_matches == second.schema_matches,
{
}

/// A value that is none of the options of its enumeration is reported with
/// the code of the fix where there is one option, and without a code where
/// there are several or none.
pub proof fn law_code_for_a_single_option(t: TreeModel, id: int, schema: Json)
    ensures
        enum_diagnostic(t, id, schema) matches Some(d) ==> {
            &&& lookup(schema, "enum"@) matches Some(Json::Array(options))
            &&& !is_option(t, id, options)
            &&& d.code == if options.len() == 1 {
                Some(ENUM_CODE@)
            } else {
                None
            }
        },
{
}

/// The keys that `properties` takes of an object's keys.
pub open spec fn taken_by_properties(all: Seq<Entry>, schema: Json) -> Seq<Seq<char>> {
    match declared(schema) {
        Some(ms) => properties_keys(all, ms, all.len() as int),
        None => Seq::empty(),
    }
}

/// The keys that `patternProperties` takes of an object's keys.
pub open spec fn taken_by_patterns(all: Seq<Entry>, schema: Json) -> Seq<Seq<char>> {
    let left = after_properties(all, schema);
    match patterned(schema) {
        Some(ms) => pattern_keys(left, ms, left.len() as int),
        None => Seq::empty(),
    }
}

/// The keys that `additionalProperties` takes of an object's keys.
pub open spec fn taken_by_additional(all: Seq<Entry>, schema: Json) -> Seq<Seq<char>> {
    match lookup(schema, "additionalProperties"@) {
        Some(fragment) => additional_keys(after_patterns(all, schema), fragment),
        None => Seq::empty(),
    }
}

/// How often `key` occurs in `keys`.
pub open spec fn occurrences(keys: Seq<Seq<char>>, key: Seq<char>) -> nat
    decreases keys.len(),
{
    if keys.len() == 0 {
        0
    } else {
        occurrences(keys.drop_last(), key) + if keys.last() == key {
            1nat
        } else {
            0nat
        }
    }
}

proof fn lemma_occurrences(keys: Seq<Seq<char>>, key: Seq<char>)
    ensures
        occurrences(keys, key) > 0 <==> keys.contains(key),
        keys.no_duplicates() ==> occurrences(keys, key) <= 1,
    decreases keys.len(),
{
    if keys.len() > 0 {
        let front = keys.drop_last();
        lemma_occurrences(front, key);
        if front.contains(key) {
            let i = choose|i: int| 0 <= i < front.len() && front[i] == key;
            assert(keys[i] == key);
        }
        if keys.contains(key) && keys.last() != key {
            let i = choose|i: int| 0 <= i < keys.len() && keys[i] == key;
            assert(front[i] == key);
        }
        if keys.last() == key {
            assert(keys[keys.len() - 1] == key);
        }
        if keys.no_duplicates() {
            assert(front.no_duplicates());
            if keys.last() == key && front.contains(key) {
                let i = choose|i: int| 0 <= i < front.len() && front[i] == key;
                assert(keys[i] == keys[keys.len() - 1]);
            }
        }
    }
}

/// The keys left when `used` is taken out are those that are not used, each
/// as often as before.
proof fn lemma_without(list: Seq<Entry>, used: Seq<Seq<char>>, key: Seq<char>)
    ensures
        occurrences(keys_of(without(list, used)), key) == if used.contains(key) {
            0
        } else {
            occurrences(keys_of(list), key)
        },
    decreases list.len(),
{
    if list.len() > 0 {
        lemma_without(list.drop_last(), used, key);
        assert(keys_of(list).drop_last() =~= keys_of(list.drop_last()));
        let rest = without(list.drop_last(), used);
        if !used.contains(list.last().key) {
            assert(keys_of(rest.push(list.last())).drop_last() =~= keys_of(rest));
        }
    }
}

/// `properties` takes those of the keys that the schema declares, each as
/// often as it is available.
proof fn lemma_properties_keys(avail: Seq<Entry>, ms: Seq<JsonMember>, upto: int, key: Seq<char>)
    requires
        0 <= upto <= avail.len(),
    ensures
        occurrences(properties_keys(avail, ms, upto), key) == if member_of(ms, key) is Some {
            occurrences(keys_of(avail.take(upto)), key)
        } else {
            0
        },
    decreases upto,
{
    if upto > 0 {
        lemma_properties_keys(avail, ms, upto - 1, key);
        assert(keys_of(avail.take(upto)).drop_last() =~= keys_of(avail.take(upto - 1)));
        let rest = properties_keys(avail, ms, upto - 1);
        if member_of(ms, avail[upto - 1].key) is Some {
            assert(rest.push(avail[upto - 1].key).drop_last() =~= rest);
        }
    } else {
        assert(keys_of(avail.take(0)) =~= Seq::empty());
    }
}

/// `patternProperties` takes those of the keys that a pattern matches, each
/// as often as it is available.
proof fn lemma_pattern_keys(avail: Seq<Entry>, ms: Seq<JsonMember>, upto: int, key: Seq<char>)
    requires
        0 <= upto <= avail.len(),
    ensures
        occurrences(pattern_keys(avail, ms, upto), key) <= occurrences(
            keys_of(avail.take(upto)),
            key,
        ),
        occurrences(pattern_keys(avail, ms, upto), key) == 0 || occurrences(
            pattern_keys(avail, ms, upto),
            key,
        ) == occurrences(keys_of(avail.take(upto)), key),
    decreases upto,
{
    if upto > 0 {
        lemma_pattern_keys(avail, ms, upto - 1, key);
        assert(keys_of(avail.take(upto)).drop_last() =~= keys_of(avail.take(upto - 1)));
        let rest = pattern_keys(avail, ms, upto - 1);
        let e = avail[upto - 1];
        if matching_jobs(e, ms, ms.len() as int).len() > 0 {
            assert(rest.push(e.key).drop_last() =~= rest);
        }
        if e.key == key {
            // Whether a pattern matches depends on the key alone, so every
            // entry with this key is taken or none is.
            lemma_same_key_same_matches(avail, ms, upto - 1, e);
        }
    } else {
        assert(keys_of(avail.take(0)) =~= Seq::empty());
    }
}

/// How many descents the patterns make of a key depends on the key alone.
proof fn lemma_matching_by_key(a: Entry, b: Entry, ms: Seq<JsonMember>, upto: int)
    requires
        a.key == b.key,
    ensures
        matching_jobs(a, ms, upto).len() == matching_jobs(b, ms, upto).len(),
    decreases upto,
{
    if 0 < upto <= ms.len() {
        lemma_matching_by_key(a, b, ms, upto - 1);
    }
}

/// Among the first `upto` available keys, those equal to the key of `e` are
/// taken by `patternProperties` exactly where `e` would be.
proof fn lemma_same_key_same_matches(avail: Seq<Entry>, ms: Seq<JsonMember>, upto: int, e: Entry)
    requires
        0 <= upto <= avail.len(),
    ensures
        occurrences(pattern_keys(avail, ms, upto), e.key) == if matching_jobs(
            e,
            ms,
            ms.len() as int,
        ).len() > 0 {
            occurrences(keys_of(avail.take(upto)), e.key)
        } else {
            0
        },
    decreases upto,
{
    if upto > 0 {
        lemma_same_key_same_matches(avail, ms, upto - 1, e);
        assert(keys_of(avail.take(upto)).drop_last() =~= keys_of(avail.take(upto - 1)));
        let rest = pattern_keys(avail, ms, upto - 1);
        let x = avail[upto - 1];
        if matching_jobs(x, ms, ms.len() as int).len() > 0 {
            assert(rest.push(x.key).drop_last() =~= rest);
        }
        if x.key == e.key {
            lemma_matching_by_key(x, e, ms, ms.len() as int);
        }
    } else {
        assert(keys_of(avail.take(0)) =~= Seq::empty());
    }
}

/// Every key of an object is taken exactly once by `properties`,
/// `patternProperties` and `additionalProperties` together, where
/// `additionalProperties` holds a boolean or a schema; and the three take no
/// key that the object has not.
pub proof fn law_keys_taken_once(pairs: Seq<PairModel>, schema: Json, key: Seq<char>)
    requires
        lookup(schema, "additionalProperties"@) matches Some(fragment) && (fragment is Bool
            || fragment is Object),
    ensures
        ({
            let all = available(pairs, pairs.len() as int);
            occurrences(taken_by_properties(all, schema), key) + occurrences(
                taken_by_patterns(all, schema),
                key,
            ) + occurrences(taken_by_additional(all, schema), key) == if keys_of(all).contains(
                key,
            ) {
                1nat
            } else {
                0nat
            }
        }),
{
    let all = available(pairs, pairs.len() as int);
    let left = after_properties(all, schema);
    let rest = after_patterns(all, schema);
    lemma_available_distinct(pairs, pairs.len() as int);
    lemma_occurrences(keys_of(all), key);
    assert(all.take(all.len() as int) =~= all);
    assert(left.take(left.len() as int) =~= left);
    lemma_occurrences(taken_by_properties(all, schema), key);
    lemma_occurrences(taken_by_patterns(all, schema), key);
    match declared(schema) {
        Some(ms) => {
            lemma_properties_keys(all, ms, all.len() as int, key);
            lemma_without(all, properties_keys(all, ms, all.len() as int), key);
        },
        None => {},
    }
    match patterned(schema) {
        Some(ms) => {
            lemma_pattern_keys(left, ms, left.len() as int, key);
            lemma_without(left, pattern_keys(left, ms, left.len() as int), key);
        },
        None => {},
    }
}

/// A list of types holds a matching name exactly where one of its texts
/// names the value's type.
proof fn lemma_type_names(ir: IRModel, types: Seq<Json>, upto: int)
    requires
        0 <= upto <= types.len(),
    ensures
        any_type_matches(ir, type_names(types, upto)) <==> exists|i: int|
            0 <= i < upto && (as_text(#[trigger] types[i]) matches Some(name) && type_matches(
                ir,
                name,
            )),
    decreases upto,
{
    let names = type_names(types, upto);
    if upto > 0 {
        lemma_type_names(ir, types, upto - 1);
        let before = type_names(types, upto - 1);
        if any_type_matches(ir, names) {
            let w = choose|w: int| 0 <= w < names.len() && type_matches(ir, #[trigger] names[w]);
            if w < before.len() {
                assert(before[w] == names[w]);
                let i = choose|i: int|
                    0 <= i < upto - 1 && (as_text(#[trigger] types[i]) matches Some(name)
                        && type_matches(ir, name));
                assert(as_text(types[i]) matches Some(name) && type_matches(ir, name));
            } else {
                assert(as_text(types[upto - 1]) matches Some(name) && type_matches(ir, name));
            }
        }
        if exists|i: int|
            0 <= i < upto && (as_text(#[trigger] types[i]) matches Some(name) && type_matches(
                ir,
                name,
            )) {
            let i = choose|i: int|
                0 <= i < upto && (as_text(#[trigger] types[i]) matches Some(name) && type_matches(
                    ir,
                    name,
                ));
            if i < upto - 1 {
                let w = choose|w: int|
                    0 <= w < before.len() && type_matches(ir, #[trigger] before[w]);
                assert(names[w] == before[w]);
            } else {
                assert(type_matches(ir, names[names.len() - 1]));
            }
        }
    }
}

/// A list with an item put in is not empty.
proof fn lemma_inserted_nonempty(sorted: Seq<Seq<char>>, item: Seq<char>)
    ensures
        inserted(sorted, item).len() > 0,
    decreases sorted.len(),
{
    if sorted.len() > 0 {
        lemma_inserted_nonempty(sorted.drop_last(), item);
    }
}

/// No name is missing exactly where each name required is a key.
proof fn lemma_missing(required: Seq<Json>, keys: Seq<Seq<char>>, upto: int)
    requires
        0 <= upto <= required.len(),
    ensures
        missing(required, keys, upto).len() == 0 <==> forall|i: int|
            0 <= i < upto ==> (as_text(#[trigger] required[i]) matches Some(name)
                ==> keys.contains(name)),
    decreases upto,
{
    if upto > 0 {
        lemma_missing(required, keys, upto - 1);
        match as_text(required[upto - 1]) {
            Some(name) => {
                lemma_inserted_nonempty(missing(required, keys, upto - 1), name);
            },
            None => {},
        }
    }
}

/// The names that an object lacks are listed in ascending order, each once:
/// the list holds every text among those required that is no key of the
/// object, and nothing else.
pub proof fn law_missing_requirements_ascend(
    required: Seq<Json>,
    keys: Seq<Seq<char>>,
    upto: int,
    name: Seq<char>,
)
    requires
        0 <= upto <= required.len(),
    ensures
        ascending(missing(required, keys, upto)),
        missing(required, keys, upto).contains(name) <==> !keys.contains(name) && exists|i: int|
            0 <= i < upto && as_text(#[trigger] required[i]) == Some(name),
    decreases upto,
{
    if upto > 0 {
        law_missing_requirements_ascend(required, keys, upto - 1, name);
        let rest = missing(required, keys, upto - 1);
        match as_text(required[upto - 1]) {
            Some(last) => {
                if !keys.contains(last) {
                    lemma_inserted(rest, last);
                }
            },
            None => {},
        }
        if exists|i: int| 0 <= i < upto && as_text(#[trigger] required[i]) == Some(name) {
            let i = choose|i: int| 0 <= i < upto && as_text(#[trigger] required[i]) == Some(name);
            if i < upto - 1 {
                assert(as_text(required[i]) == Some(name));
            }
        }
        if missing(required, keys, upto).contains(name) {
            if rest.contains(name) {
                let i = choose|i: int|
                    0 <= i < upto - 1 && as_text(#[trigger] required[i]) == Some(name);
                assert(as_text(required[i]) == Some(name));
            } else {
                assert(as_text(required[upto - 1]) == Some(name));
            }
        }
    }
}

/// No name of a list is missing exactly where every text of the list is a
/// key.
proof fn lemma_all_present(names: Seq<Json>, keys: Seq<Seq<char>>)
    ensures
        missing(names, keys, names.len() as int).len() == 0 <==> all_present(names, keys),
{
    lemma_missing(names, keys, names.len() as int);
}

/// `dependencies` reports nothing of the first `upto` keys exactly where,
/// for each of them that it names with a list, every name of the list is a
/// key of the object.
proof fn lemma_dependency_errors(
    t: TreeModel,
    avail: Seq<Entry>,
    keys: Seq<Seq<char>>,
    deps: Seq<JsonMember>,
    upto: int,
)
    requires
        0 <= upto <= avail.len(),
        nodes_within(avail, -1, t.len() as int),
    ensures
        dependency_errors_upto(t, avail, keys, deps, upto).len() == 0 <==> forall|k: int|
            0 <= k < upto ==> (member_of(deps, (#[trigger] avail[k]).key) matches Some(
                Json::Array(names),
            ) ==> all_present(names, keys)),
    decreases upto,
{
    if upto > 0 {
        lemma_dependency_errors(t, avail, keys, deps, upto - 1);
        let e = avail[upto - 1];
        assert(-1 < e.node < t.len());
        match member_of(deps, e.key) {
            Some(Json::Array(names)) => {
                lemma_all_present(names, keys);
            },
            _ => {},
        }
    }
}

/// A value occurs among the values of the first items exactly where one of
/// those items has the same value.
proof fn lemma_values_upto(t: TreeModel, items: Seq<int>, upto: int, v: ValueModel)
    requires
        0 <= upto <= items.len(),
    ensures
        occurs(values_upto(t, items, upto), v) <==> exists|i: int|
            0 <= i < upto && (value_at(t, #[trigger] items[i]) matches Some(a) && same_value(a, v)),
    decreases upto,
{
    let now = values_upto(t, items, upto);
    if upto > 0 {
        lemma_values_upto(t, items, upto - 1, v);
        let before = values_upto(t, items, upto - 1);
        if occurs(now, v) {
            let k = choose|k: int| 0 <= k < now.len() && same_value(#[trigger] now[k], v);
            if k < before.len() {
                assert(before[k] == now[k]);
                let i = choose|i: int|
                    0 <= i < upto - 1 && (value_at(t, #[trigger] items[i]) matches Some(a)
                        && same_value(a, v));
                assert(value_at(t, items[i]) matches Some(a) && same_value(a, v));
            } else {
                assert(value_at(t, items[upto - 1]) matches Some(a) && same_value(a, v));
            }
        }
        if exists|i: int|
            0 <= i < upto && (value_at(t, #[trigger] items[i]) matches Some(a) && same_value(
                a,
                v,
            )) {
            let i = choose|i: int|
                0 <= i < upto && (value_at(t, #[trigger] items[i]) matches Some(a) && same_value(
                    a,
                    v,
                ));
            if i < upto - 1 {
                let k = choose|k: int| 0 <= k < before.len() && same_value(#[trigger] before[k], v);
                assert(now[k] == before[k]);
            } else {
                assert(same_value(now[now.len() - 1], v));
            }
        }
    }
}

/// No item repeats an earlier one exactly where no two items have the same
/// value.
proof fn lemma_duplicates(t: TreeModel, items: Seq<int>, upto: int)
    requires
        0 <= upto <= items.len(),
    ensures
        duplicates(t, items, upto).len() == 0 <==> forall|i: int, j: int|
            0 <= i < j < upto ==> !(value_at(t, #[trigger] items[i]) matches Some(a) && value_at(
                t,
                #[trigger] items[j],
            ) matches Some(b) && same_value(a, b)),
    decreases upto,
{
    if upto > 0 {
        lemma_duplicates(t, items, upto - 1);
        match value_at(t, items[upto - 1]) {
            Some(v) => {
                lemma_values_upto(t, items, upto - 1, v);
                if occurs(values_upto(t, items, upto - 1), v) {
                    let i = choose|i: int|
                        0 <= i < upto - 1 && (value_at(t, #[trigger] items[i]) matches Some(a)
                            && same_value(a, v));
                    assert(value_at(t, items[i]) matches Some(a) && value_at(
                        t,
                        items[upto - 1],
                    ) matches Some(b) && same_value(a, b));
                }
            },
            None => {},
        }
    }
}

/// Whether the value of each key is a node after `lo` and before `hi`.
spec fn nodes_within(list: Seq<Entry>, lo: int, hi: int) -> bool {
    forall|k: int| 0 <= k < list.len() ==> lo < (#[trigger] list[k]).node < hi
}

proof fn lemma_available_within(pairs: Seq<PairModel>, upto: int, lo: int, hi: int)
    requires
        forall|k: int| 0 <= k < pairs.len() ==> lo < (#[trigger] pairs[k]).value < hi,
    ensures
        nodes_within(available(pairs, upto), lo, hi),
    decreases upto,
{
    if 0 < upto <= pairs.len() {
        lemma_available_within(pairs, upto - 1, lo, hi);
        let rest = available(pairs, upto - 1);
        lemma_place_of(rest, pairs[upto - 1].key.contents);
        assert(lo < pairs[upto - 1].value < hi);
    }
}

proof fn lemma_without_within(list: Seq<Entry>, used: Seq<Seq<char>>, lo: int, hi: int)
    requires
        nodes_within(list, lo, hi),
    ensures
        nodes_within(without(list, used), lo, hi),
    decreases list.len(),
{
    if list.len() > 0 {
        assert(nodes_within(list.drop_last(), lo, hi)) by {
            assert forall|k: int| 0 <= k < list.drop_last().len() implies lo < (
            #[trigger] list.drop_last()[k]).node < hi by {
                assert(list.drop_last()[k] == list[k]);
            }
        }
        lemma_without_within(list.drop_last(), used, lo, hi);
        assert(lo < list[list.len() - 1].node < hi);
    }
}

/// Each key whose value is a node of the tree is reported.
proof fn lemma_additional_errors(t: TreeModel, list: Seq<Entry>, upto: int)
    requires
        0 <= upto <= list.len(),
        nodes_within(list, -1, t.len() as int),
    ensures
        additional_errors(t, list, upto).len() == upto,
    decreases upto,
{
    if upto > 0 {
        lemma_additional_errors(t, list, upto - 1);
        assert(-1 < list[upto - 1].node < t.len());
    }
}

/// The keywords report nothing of a node exactly where they hold of it.
proof fn lemma_keywords(t: TreeModel, id: int, ir: IRModel, schema: Json)
    requires
        0 <= id < t.len(),
        representation(t, id) == Some(ir),
        descends(ir, id, t.len() as int),
    ensures
        own_diagnostics(t, id, ir, schema).len() == 0 <==> keywords_hold(t, id, ir, schema),
{
    match lookup(schema, "type"@) {
        Some(Json::Array(types)) => {
            lemma_type_names(ir, types, types.len() as int);
        },
        _ => {},
    }
    assert(optional(type_diagnostic(ir, schema)).len() == 0 <==> type_holds(ir, schema));
    assert(optional(enum_diagnostic(t, id, schema)).len() == 0 <==> enum_holds(t, id, schema));
    match ir {
        IRModel::String(s) => {
            assert(string_diagnostics(s, schema).len() == 0 <==> string_holds(s, schema));
        },
        IRModel::Number(n) => {
            assert(number_diagnostics(n, schema).len() == 0 <==> number_holds(n, schema));
        },
        IRModel::Object(o) => {
            let all = available(o.properties, o.properties.len() as int);
            let left = after_properties(all, schema);
            let rest = after_patterns(all, schema);
            lemma_available_within(o.properties, o.properties.len() as int, -1, t.len() as int);
            match declared(schema) {
                Some(ms) => {
                    lemma_without_within(
                        all,
                        properties_keys(all, ms, all.len() as int),
                        -1,
                        t.len() as int,
                    );
                },
                None => {},
            }
            match patterned(schema) {
                Some(ms) => {
                    lemma_without_within(
                        left,
                        pattern_keys(left, ms, left.len() as int),
                        -1,
                        t.len() as int,
                    );
                },
                None => {},
            }
            lemma_additional_errors(t, rest, rest.len() as int);
            let last = after_additional(all, schema);
            match lookup(schema, "additionalProperties"@) {
                Some(fragment) => {
                    lemma_without_within(rest, additional_keys(rest, fragment), -1, t.len() as int);
                },
                None => {},
            }
            match dependencies_of(schema) {
                Some(deps) => {
                    lemma_dependency_errors(
                        t,
                        last,
                        pair_keys(o.properties),
                        deps,
                        last.len() as int,
                    );
                },
                None => {},
            }
            match lookup(schema, "required"@) {
                Some(Json::Array(required)) => {
                    lemma_all_present(required, pair_keys(o.properties));
                },
                _ => {},
            }
            assert(optional(required_diagnostic(o, schema)).len() == 0 <==> (lookup(
                schema,
                "required"@,
            ) matches Some(Json::Array(required)) ==> all_present(
                required,
                pair_keys(o.properties),
            )));
            assert(object_diagnostics(t, o, schema).len() == 0 <==> object_holds(o, schema));
        },
        IRModel::Array(a) => {
            lemma_duplicates(t, a.items, a.items.len() as int);
            assert(optional(unique_items_diagnostic(t, a, schema)).len() == 0 <==> (lookup(
                schema,
                "uniqueItems"@,
            ) == Some(Json::Bool(true)) ==> duplicates(t, a.items, a.items.len() as int).len()
                == 0));
            assert(array_diagnostics(t, a, schema).len() == 0 <==> array_holds(t, a, schema));
        },
        _ => {},
    }
}

/// A series of descents reports nothing exactly where each leads to a node
/// that conforms.
proof fn lemma_descents(t: TreeModel, parent: int, jobs: Seq<Job>, upto: int)
    requires
        well_formed(t),
        0 <= parent < t.len(),
        0 <= upto <= jobs.len(),
    ensures
        all_of(results(t, parent, jobs, upto)).errors.len() == 0 <==> all_conform(
            t,
            parent,
            jobs,
            upto,
        ),
    decreases t.len() - parent, 0nat, 0int, upto,
{
    if upto > 0 {
        lemma_descents(t, parent, jobs, upto - 1);
        let job = jobs[upto - 1];
        if parent < job.node < t.len() {
            lemma_conforms(t, job.node, job.schema);
        }
        let before = results(t, parent, jobs, upto - 1);
        let now = results(t, parent, jobs, upto);
        assert(now.drop_last() =~= before);
        assert(now.last() == outcome(t, parent, job));
    }
}

/// Holding an object against the schemas that `dependencies` names for its
/// keys reports nothing exactly where the object conforms to each of them.
proof fn lemma_dependent(
    t: TreeModel,
    id: int,
    avail: Seq<Entry>,
    deps: Seq<JsonMember>,
    upto: int,
)
    requires
        well_formed(t),
        0 <= id < t.len(),
    ensures
        dependent(t, id, avail, deps, upto).errors.len() == 0 <==> dependent_conforms(
            t,
            id,
            avail,
            deps,
            upto,
        ),
    decreases t.len() - id, nesting(Json::Object(deps)), 1int, upto,
{
    if 0 < upto <= avail.len() {
        lemma_dependent(t, id, avail, deps, upto - 1);
        match member_of(deps, avail[upto - 1].key) {
            Some(Json::Object(ms)) => {
                lemma_member_nesting(deps, avail[upto - 1].key);
                lemma_conforms(t, id, Json::Object(ms));
            },
            _ => {},
        }
    }
}

/// The nodes below a node report nothing exactly where they conform.
proof fn lemma_below(t: TreeModel, id: int, ir: IRModel, schema: Json)
    requires
        well_formed(t),
        0 <= id < t.len(),
    ensures
        below(t, id, ir, schema).errors.len() == 0 <==> below_conforms(t, id, ir, schema),
    decreases t.len() - id, nesting(schema), 2int, 0int,
{
    match ir {
        IRModel::Object(o) => {
            let all = available(o.properties, o.properties.len() as int);
            let left = after_properties(all, schema);
            let rest = after_patterns(all, schema);
            let first = match declared(schema) {
                Some(ms) => properties_jobs(all, ms, all.len() as int),
                None => Seq::empty(),
            };
            let second = match patterned(schema) {
                Some(ms) => pattern_jobs(left, ms, left.len() as int),
                None => Seq::empty(),
            };
            let third = match lookup(schema, "additionalProperties"@) {
                Some(fragment) => additional_jobs(
                    rest,
                    fragment,
                    rest.len() as int,
                ),
                None => Seq::empty(),
            };
            lemma_descents(t, id, first, first.len() as int);
            lemma_descents(t, id, second, second.len() as int);
            lemma_descents(t, id, third, third.len() as int);
            match dependencies_of(schema) {
                Some(deps) => {
                    lemma_dependencies_nesting(schema);
                    let last = after_additional(all, schema);
                    lemma_dependent(t, id, last, deps, last.len() as int);
                },
                None => {},
            }
        },
        IRModel::Array(a) => {
            let jobs = array_jobs(a.items, schema);
            lemma_descents(t, id, jobs, jobs.len() as int);
        },
        IRModel::Pair(p) => {
            let jobs = match child_of(t, id, 0) {
                Some(key) => seq![Job { node: key, schema }, Job { node: p.value, schema }],
                None => seq![Job { node: p.value, schema }],
            };
            lemma_descents(t, id, jobs, jobs.len() as int);
        },
        _ => {},
    }
}

/// Validating a node reports nothing exactly where the node conforms to the
/// schema.
proof fn lemma_conforms(t: TreeModel, id: int, schema: Json)
    requires
        well_formed(t),
    ensures
        validation(t, id, schema).errors.len() == 0 <==> conforms(t, id, schema),
    decreases t.len() - id, nesting(schema), 3int, 0int,
{
    if 0 <= id < t.len() {
        if is_placeholder(t, id) {
            match stand_in(t, id) {
                Some(next) => {
                    if id < next < t.len() {
                        lemma_conforms(t, next, schema);
                    }
                },
                None => {},
            }
        } else {
            match representation(t, id) {
                Some(ir) => {
                    lemma_representation_descends(t, id);
                    lemma_keywords(t, id, ir, schema);
                    lemma_below(t, id, ir, schema);
                },
                None => {},
            }
        }
    }
}

/// A validation reports no diagnostic exactly where the document conforms to
/// the schema: where every keyword of the schema that applies to a node
/// holds of it, for every node that the validation visits.
pub proof fn law_no_diagnostics_iff_conforms(t: TreeModel, id: int, schema: Json)
    requires
        well_formed(t),
    ensures
        validation(t, id, schema).errors.len() == 0 <==> conforms(t, id, schema),
{
    lemma_conforms(t, id, schema);
}

} // verus!
