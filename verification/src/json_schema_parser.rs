//! The validation engine: it walks the syntax tree, holds each node against
//! the schema fragment that applies to it, and gathers what the keywords
//! report.
use crate::diagnostic::{
    append_diagnostics, diagnostic_views, optional, plain_diagnostic, push_found, reports,
    to_diagnostic, Diagnostic, DiagnosticView,
};
use crate::errors::{
    additional_items_error, additional_items_text, additional_properties_error,
    additional_properties_text,
};
use crate::formats::{compile, regex_compiles, regex_matches, regex_pattern, regex_plain};
use crate::ir::{
    descends, representation, ArrayModel, IRArray, IRModel, IRNumber, IRObject, IRString,
    NumberModel, ObjectModel, StringModel, IR,
};
use crate::json::{
    get, json_model, lemma_member_nesting, lookup, member_of, members, nesting, Json, JsonMember,
};
use crate::keywords::dependencies::{dependencies_of, dependency_errors, validate_dependencies};
use crate::keywords::exclusive_maximum::{exclusive_maximum_diagnostic, validate_exclusive_maximum};
use crate::keywords::exclusive_minimum::{exclusive_minimum_diagnostic, validate_exclusive_minimum};
use crate::keywords::format::{format_diagnostic, validate_format};
use crate::keywords::json_enum::{enum_diagnostic, validate_enum};
use crate::keywords::json_type::{type_diagnostic, validate_type};
use crate::keywords::max_items::{max_items_diagnostic, validate_max_items};
use crate::keywords::max_length::{max_length_diagnostic, validate_max_length};
use crate::keywords::max_properties::{max_properties_diagnostic, validate_max_properties};
use crate::keywords::maximum::{maximum_diagnostic, validate_maximum};
use crate::keywords::min_items::{min_items_diagnostic, validate_min_items};
use crate::keywords::min_length::{min_length_diagnostic, validate_min_length};
use crate::keywords::min_properties::{min_properties_diagnostic, validate_min_properties};
use crate::keywords::minimum::{minimum_diagnostic, validate_minimum};
use crate::keywords::multiple_of::{multiple_of_diagnostic, validate_multiple_of};
use crate::keywords::pattern::{pattern_diagnostic, validate_pattern};
use crate::keywords::required::{required_diagnostic, validate_required};
use crate::keywords::unique_items::{unique_items_diagnostic, validate_unique_items};
use crate::object::{
    available, available_keys, entries, identity, keys_of, remove_keys, without, AvailableKey,
    Entry, Items, NodeIdentifier, Properties,
};
use crate::parser::{
    all_of, lemma_then, match_views, result_views, ParseResult, Parser, ResultView,
    SchemaMatchView, SchemaMatches,
};
use crate::syntax::{child_of, next_sibling_of, SyntaxTree, TreeModel};
use crate::text::{str_eq, texts};
use crate::values::{is_schema, pair_keys};
use serde_json::Value;
use vstd::prelude::*;

verus! {

/// What a schema holds under `dependencies` is nested less deep than the
/// schema.
pub proof fn lemma_dependencies_nesting(schema: Json)
    ensures
        dependencies_of(schema) matches Some(deps) ==> nesting(Json::Object(deps)) < nesting(
            schema,
        ),
{
    match schema {
        Json::Object(ms) => {
            lemma_member_nesting(ms, "dependencies"@);
        },
        _ => {},
    }
}

/// A node to descend into, and the schema fragment to hold it against.
pub ghost struct Job {
    pub node: int,
    pub schema: Json,
}

/// The members under `properties`, where the schema holds an object there.
pub open spec fn declared(schema: Json) -> Option<Seq<JsonMember>> {
    match lookup(schema, "properties"@) {
        Some(Json::Object(ms)) => Some(ms),
        _ => None,
    }
}

/// What `properties` descends into among the first `upto` available keys:
/// the value of each key that the schema declares, with its schema.
pub open spec fn properties_jobs(avail: Seq<Entry>, ms: Seq<JsonMember>, upto: int) -> Seq<Job>
    decreases upto,
{
    if 0 < upto <= avail.len() {
        let rest = properties_jobs(avail, ms, upto - 1);
        match member_of(ms, avail[upto - 1].key) {
            Some(schema) => rest.push(Job { node: avail[upto - 1].node, schema }),
            None => rest,
        }
    } else {
        Seq::empty()
    }
}

/// The keys that `properties` takes among the first `upto` available keys:
/// those that the schema declares.
pub open spec fn properties_keys(avail: Seq<Entry>, ms: Seq<JsonMember>, upto: int) -> Seq<
    Seq<char>,
>
    decreases upto,
{
    if 0 < upto <= avail.len() {
        let rest = properties_keys(avail, ms, upto - 1);
        match member_of(ms, avail[upto - 1].key) {
            Some(_) => rest.push(avail[upto - 1].key),
            None => rest,
        }
    } else {
        Seq::empty()
    }
}

/// The members under `patternProperties`, where the schema holds an object
/// there.
pub open spec fn patterned(schema: Json) -> Option<Seq<JsonMember>> {
    match lookup(schema, "patternProperties"@) {
        Some(Json::Object(ms)) => Some(ms),
        _ => None,
    }
}

/// What the first `upto` patterns make of one key: a descent into its value
/// for each pattern that matches the key.
pub open spec fn matching_jobs(entry: Entry, ms: Seq<JsonMember>, upto: int) -> Seq<Job>
    decreases upto,
{
    if 0 < upto <= ms.len() {
        let rest = matching_jobs(entry, ms, upto - 1);
        if regex_matches(ms[upto - 1].key, entry.key) == Some(true) {
            rest.push(Job { node: entry.node, schema: ms[upto - 1].value })
        } else {
            rest
        }
    } else {
        Seq::empty()
    }
}

/// What `patternProperties` descends into among the first `upto` available
/// keys.
pub open spec fn pattern_jobs(avail: Seq<Entry>, ms: Seq<JsonMember>, upto: int) -> Seq<Job>
    decreases upto,
{
    if 0 < upto <= avail.len() {
        pattern_jobs(avail, ms, upto - 1) + matching_jobs(avail[upto - 1], ms, ms.len() as int)
    } else {
        Seq::empty()
    }
}

/// The keys that `patternProperties` takes among the first `upto` available
/// keys: those that a pattern matches.
pub open spec fn pattern_keys(avail: Seq<Entry>, ms: Seq<JsonMember>, upto: int) -> Seq<Seq<char>>
    decreases upto,
{
    if 0 < upto <= avail.len() {
        let rest = pattern_keys(avail, ms, upto - 1);
        if matching_jobs(avail[upto - 1], ms, ms.len() as int).len() > 0 {
            rest.push(avail[upto - 1].key)
        } else {
            rest
        }
    } else {
        Seq::empty()
    }
}

/// Whether `additionalProperties`, holding `fragment`, admits the keys left
/// over and has their values validated: it holds `true` or a schema.
pub open spec fn admits(fragment: Json) -> bool {
    fragment == Json::Bool(true) || fragment is Object
}

/// What `additionalProperties` descends into among the first `upto`
/// available keys: the value of each, held against the fragment.
pub open spec fn additional_jobs(avail: Seq<Entry>, fragment: Json, upto: int) -> Seq<Job>
    decreases upto,
{
    if 0 < upto <= avail.len() && admits(fragment) {
        additional_jobs(avail, fragment, upto - 1).push(
            Job { node: avail[upto - 1].node, schema: fragment },
        )
    } else {
        Seq::empty()
    }
}

/// What `additionalProperties: false` reports of the first `upto` available
/// keys: each key whose value is a node of the tree, at the span of that
/// value.
pub open spec fn additional_errors(t: TreeModel, avail: Seq<Entry>, upto: int) -> Seq<
    DiagnosticView,
>
    decreases upto,
{
    if 0 < upto <= avail.len() {
        let rest = additional_errors(t, avail, upto - 1);
        let e = avail[upto - 1];
        if 0 <= e.node < t.len() {
            rest.push(
                plain_diagnostic(t[e.node].start, t[e.node].end, additional_properties_text(e.key)),
            )
        } else {
            rest
        }
    } else {
        Seq::empty()
    }
}

/// The keys that `additionalProperties` takes: all that are available, where
/// it holds a boolean or a schema.
pub open spec fn additional_keys(avail: Seq<Entry>, fragment: Json) -> Seq<Seq<char>> {
    if fragment is Bool || fragment is Object {
        keys_of(avail)
    } else {
        Seq::empty()
    }
}

/// The keys still available once `properties` has taken its keys.
pub open spec fn after_properties(avail: Seq<Entry>, schema: Json) -> Seq<Entry> {
    match declared(schema) {
        Some(ms) => without(avail, properties_keys(avail, ms, avail.len() as int)),
        None => avail,
    }
}

/// The keys still available once `properties` and `patternProperties` have
/// taken theirs.
pub open spec fn after_patterns(avail: Seq<Entry>, schema: Json) -> Seq<Entry> {
    let left = after_properties(avail, schema);
    match patterned(schema) {
        Some(ms) => without(left, pattern_keys(left, ms, left.len() as int)),
        None => left,
    }
}

/// The keys that none of `properties`, `patternProperties` and
/// `additionalProperties` has taken.
pub open spec fn after_additional(avail: Seq<Entry>, schema: Json) -> Seq<Entry> {
    let rest = after_patterns(avail, schema);
    match lookup(schema, "additionalProperties"@) {
        Some(fragment) => without(rest, additional_keys(rest, fragment)),
        None => rest,
    }
}

/// Those of the first `upto` values of `list` that can stand as a schema.
pub open spec fn schemas_among(list: Seq<Json>, upto: int) -> Seq<Json>
    decreases upto,
{
    if 0 < upto <= list.len() {
        if is_schema(list[upto - 1]) {
            schemas_among(list, upto - 1).push(list[upto - 1])
        } else {
            schemas_among(list, upto - 1)
        }
    } else {
        Seq::empty()
    }
}

/// The schemas that `items` lists for the first items of an array, where it
/// holds a list.
pub open spec fn item_schemas(schema: Json) -> Option<Seq<Json>> {
    match lookup(schema, "items"@) {
        Some(Json::Array(list)) => Some(schemas_among(list, list.len() as int)),
        _ => None,
    }
}

/// The schema for the items that `items` lists no schema for: what
/// `additionalItems` holds, where `items` is a list; `items` itself, where
/// it is one schema for every item.
pub open spec fn rest_schema(schema: Json) -> Option<Json> {
    match lookup(schema, "items"@) {
        Some(Json::Array(_)) => match lookup(schema, "additionalItems"@) {
            Some(fragment) => if is_schema(fragment) {
                Some(fragment)
            } else {
                None
            },
            None => None,
        },
        Some(Json::Object(ms)) => Some(Json::Object(ms)),
        _ => None,
    }
}

/// How many items `items` lists a schema for.
pub open spec fn listed(schema: Json) -> nat {
    match item_schemas(schema) {
        Some(schemas) => schemas.len(),
        None => 0,
    }
}

/// The descents into the first `upto` items, each with the schema listed at
/// its place.
pub open spec fn prefix_jobs(items: Seq<int>, schemas: Seq<Json>, upto: int) -> Seq<Job>
    decreases upto,
{
    if 0 < upto <= items.len() && upto <= schemas.len() {
        prefix_jobs(items, schemas, upto - 1).push(
            Job { node: items[upto - 1], schema: schemas[upto - 1] },
        )
    } else {
        Seq::empty()
    }
}

/// The descents into the items from `from` up to `upto`, each with the
/// schema `fragment`.
pub open spec fn rest_jobs(items: Seq<int>, from: int, fragment: Json, upto: int) -> Seq<Job>
    decreases upto,
{
    if 0 <= from < upto <= items.len() {
        rest_jobs(items, from, fragment, upto - 1).push(
            Job { node: items[upto - 1], schema: fragment },
        )
    } else {
        Seq::empty()
    }
}

/// The smaller of two lengths.
pub open spec fn shorter(a: int, b: int) -> int {
    if a < b {
        a
    } else {
        b
    }
}

/// What the items of an array are held against: the first against the
/// schemas that `items` lists, the others against the schema for the rest,
/// where that is an object.
pub open spec fn array_jobs(items: Seq<int>, schema: Json) -> Seq<Job> {
    (match item_schemas(schema) {
        Some(schemas) => prefix_jobs(
            items,
            schemas,
            shorter(items.len() as int, schemas.len() as int),
        ),
        None => Seq::empty(),
    }) + (match rest_schema(schema) {
        Some(Json::Object(ms)) => rest_jobs(
            items,
            listed(schema) as int,
            Json::Object(ms),
            items.len() as int,
        ),
        _ => Seq::empty(),
    })
}

/// What `additionalItems: false` reports of an array: that it has more items
/// than `items` lists schemas.
pub open spec fn additional_items_diagnostic(node: ArrayModel, schema: Json) -> Option<
    DiagnosticView,
> {
    if rest_schema(schema) == Some(Json::Bool(false)) && listed(schema) < node.items.len() {
        Some(
            plain_diagnostic(
                node.start,
                node.end,
                additional_items_text(listed(schema), node.items.len()),
            ),
        )
    } else {
        None
    }
}

/// What the keywords for strings report, in order.
pub open spec fn string_diagnostics(node: StringModel, schema: Json) -> Seq<DiagnosticView> {
    optional(pattern_diagnostic(node, schema)) + optional(format_diagnostic(node, schema))
        + optional(min_length_diagnostic(node, schema)) + optional(
        max_length_diagnostic(node, schema),
    )
}

/// What the keywords for numbers report, in order.
pub open spec fn number_diagnostics(node: NumberModel, schema: Json) -> Seq<DiagnosticView> {
    optional(multiple_of_diagnostic(node, schema)) + optional(
        exclusive_minimum_diagnostic(node, schema),
    ) + optional(exclusive_maximum_diagnostic(node, schema)) + optional(
        minimum_diagnostic(node, schema),
    ) + optional(maximum_diagnostic(node, schema))
}

/// What the keywords for objects report of the object itself, in order: the
/// keys that `additionalProperties: false` does not admit; the keys that no
/// keyword took and whose object lacks a name that `dependencies` lists for
/// them; then what `minProperties`, `maxProperties` and `required` report.
pub open spec fn object_diagnostics(t: TreeModel, node: ObjectModel, schema: Json) -> Seq<
    DiagnosticView,
> {
    let all = available(node.properties, node.properties.len() as int);
    let left = after_patterns(all, schema);
    (if lookup(schema, "additionalProperties"@) == Some(Json::Bool(false)) {
        additional_errors(t, left, left.len() as int)
    } else {
        Seq::empty()
    }) + (match dependencies_of(schema) {
        Some(deps) => dependency_errors(
            t,
            after_additional(all, schema),
            pair_keys(node.properties),
            deps,
        ),
        None => Seq::empty(),
    }) + optional(min_properties_diagnostic(node, schema)) + optional(
        max_properties_diagnostic(node, schema),
    ) + optional(required_diagnostic(node, schema))
}

/// What the keywords for arrays report of the array itself, in order.
pub open spec fn array_diagnostics(t: TreeModel, node: ArrayModel, schema: Json) -> Seq<
    DiagnosticView,
> {
    optional(min_items_diagnostic(node, schema)) + optional(max_items_diagnostic(node, schema))
        + optional(additional_items_diagnostic(node, schema)) + optional(
        unique_items_diagnostic(t, node, schema),
    )
}

/// What the keywords report of the node `id` itself: `type` and `enum`, then
/// the keywords for its kind of value.
pub open spec fn own_diagnostics(t: TreeModel, id: int, ir: IRModel, schema: Json) -> Seq<
    DiagnosticView,
> {
    optional(type_diagnostic(ir, schema)) + optional(enum_diagnostic(t, id, schema)) + (match ir {
        IRModel::String(s) => string_diagnostics(s, schema),
        IRModel::Number(n) => number_diagnostics(n, schema),
        IRModel::Object(o) => object_diagnostics(t, o, schema),
        IRModel::Array(a) => array_diagnostics(t, a, schema),
        _ => Seq::empty(),
    })
}

/// The node that stands for a placeholder: its first child, or the sibling
/// that follows it where it has no child.
pub open spec fn stand_in(t: TreeModel, id: int) -> Option<int> {
    match child_of(t, id, 0) {
        Some(c) => Some(c),
        None => next_sibling_of(t, id),
    }
}

/// Whether the node `id` is a placeholder: the root of a document, or an
/// opening brace.
pub open spec fn is_placeholder(t: TreeModel, id: int) -> bool {
    t[id].kind == "document"@ || t[id].kind == "{"@
}

/// The outcome of validating the node `id` against `schema`. A placeholder
/// passes the schema on to the node that stands for it. A node without a
/// representation contributes nothing. Of any other node the outcome holds,
/// first, the match of the node with the schema and what the keywords report
/// of the node itself, then the outcomes of the nodes below it, in the order
/// in which they are visited.
pub open spec fn validation(t: TreeModel, id: int, schema: Json) -> ResultView
    decreases t.len() - id, nesting(schema), 3int, 0int,
{
    if 0 <= id < t.len() {
        if is_placeholder(t, id) {
            match stand_in(t, id) {
                Some(next) => if id < next < t.len() {
                    validation(t, next, schema)
                } else {
                    ResultView::empty()
                },
                None => ResultView::empty(),
            }
        } else {
            match representation(t, id) {
                Some(ir) => ResultView {
                    errors: own_diagnostics(t, id, ir, schema),
                    schema_matches: seq![SchemaMatchView { node: identity(t, id), schema }],
                }.followed_by(below(t, id, ir, schema)),
                None => ResultView::empty(),
            }
        }
    } else {
        ResultView::empty()
    }
}

/// The outcome of one descent from the node `parent`. A descent into a node
/// that does not lie after `parent` is not made.
pub open spec fn outcome(t: TreeModel, parent: int, job: Job) -> ResultView
    decreases t.len() - parent, 0nat, 0int, 0int,
{
    if parent < job.node < t.len() {
        validation(t, job.node, job.schema)
    } else {
        ResultView::empty()
    }
}

/// The outcomes of the first `upto` descents from the node `parent`.
pub open spec fn results(t: TreeModel, parent: int, jobs: Seq<Job>, upto: int) -> Seq<ResultView>
    decreases t.len() - parent, 0nat, 0int, upto,
{
    if 0 < upto <= jobs.len() {
        results(t, parent, jobs, upto - 1).push(outcome(t, parent, jobs[upto - 1]))
    } else {
        Seq::empty()
    }
}

/// The outcome of all the descents `jobs` from the node `parent`, one after
/// another.
pub open spec fn descent(t: TreeModel, parent: int, jobs: Seq<Job>) -> ResultView
    decreases t.len() - parent, 0nat, 1int, 0int,
{
    all_of(results(t, parent, jobs, jobs.len() as int))
}

/// The outcome of holding the object at the node `id` against the schemas
/// that `deps` names for the first `upto` available keys: for each key that
/// has a schema there, the outcome of validating the object against that
/// schema.
pub open spec fn dependent(
    t: TreeModel,
    id: int,
    avail: Seq<Entry>,
    deps: Seq<JsonMember>,
    upto: int,
) -> ResultView
    decreases t.len() - id, nesting(Json::Object(deps)), 1int, upto,
{
    if 0 < upto <= avail.len() {
        let rest = dependent(t, id, avail, deps, upto - 1);
        match member_of(deps, avail[upto - 1].key) {
            Some(Json::Object(ms)) => {
                proof {
                    lemma_member_nesting(deps, avail[upto - 1].key);
                }
                rest.followed_by(validation(t, id, Json::Object(ms)))
            },
            _ => rest,
        }
    } else {
        ResultView::empty()
    }
}

/// The outcomes of the nodes below the node `id`: for an object, the values
/// that `properties` takes, then those that `patternProperties` takes, then
/// those that `additionalProperties` takes, then the object itself against
/// the schemas that `dependencies` names for the keys that no keyword took;
/// for an array, its items; for a pair, its key and its value.
pub open spec fn below(t: TreeModel, id: int, ir: IRModel, schema: Json) -> ResultView
    decreases t.len() - id, nesting(schema), 2int, 0int,
{
    match ir {
        IRModel::Object(o) => {
            let all = available(o.properties, o.properties.len() as int);
            let left = after_properties(all, schema);
            let rest = after_patterns(all, schema);
            descent(
                t,
                id,
                match declared(schema) {
                    Some(ms) => properties_jobs(all, ms, all.len() as int),
                    None => Seq::empty(),
                },
            ).followed_by(
                descent(
                    t,
                    id,
                    match patterned(schema) {
                        Some(ms) => pattern_jobs(left, ms, left.len() as int),
                        None => Seq::empty(),
                    },
                ),
            ).followed_by(
                descent(
                    t,
                    id,
                    match lookup(schema, "additionalProperties"@) {
                        Some(fragment) => additional_jobs(rest, fragment, rest.len() as int),
                        None => Seq::empty(),
                    },
                ),
            ).followed_by(
                match dependencies_of(schema) {
                    Some(deps) => {
                        proof {
                            lemma_dependencies_nesting(schema);
                        }
                        let last = after_additional(all, schema);
                        dependent(t, id, last, deps, last.len() as int)
                    },
                    None => ResultView::empty(),
                },
            )
        },
        IRModel::Array(a) => descent(t, id, array_jobs(a.items, schema)),
        IRModel::Pair(p) => descent(
            t,
            id,
            match child_of(t, id, 0) {
                Some(key) => seq![Job { node: key, schema }, Job { node: p.value, schema }],
                None => seq![Job { node: p.value, schema }],
            },
        ),
        _ => ResultView::empty(),
    }
}

/// The outcomes of the first descents depend on the first descents only.
pub proof fn lemma_results_prefix(t: TreeModel, parent: int, a: Seq<Job>, b: Seq<Job>, upto: int)
    requires
        0 <= upto <= a.len(),
        upto <= b.len(),
        forall|k: int| 0 <= k < upto ==> a[k] == b[k],
    ensures
        results(t, parent, a, upto) == results(t, parent, b, upto),
    decreases upto,
{
    if upto > 0 {
        lemma_results_prefix(t, parent, a, b, upto - 1);
    }
}

/// One descent more gives one outcome more.
pub proof fn lemma_results_push(t: TreeModel, parent: int, jobs: Seq<Job>, job: Job)
    ensures
        results(t, parent, jobs.push(job), jobs.len() as int + 1) == results(
            t,
            parent,
            jobs,
            jobs.len() as int,
        ).push(outcome(t, parent, job)),
{
    lemma_results_prefix(t, parent, jobs.push(job), jobs, jobs.len() as int);
}

/// The validator of one document against one schema.
pub struct JSONSchemaValidator {
    tree: SyntaxTree,
    schema: Value,
    contents: String,
}

impl JSONSchemaValidator {
    /// The tree of the document.
    pub closed spec fn document(&self) -> TreeModel {
        self.tree@
    }

    /// The schema of the document.
    pub closed spec fn schema(&self) -> Json {
        json_model(self.schema)
    }

    /// The text of the document.
    pub closed spec fn text(&self) -> Seq<char> {
        self.contents@
    }

    /// A validator of the document with the tree `tree` and the text
    /// `file_contents` against `schema`.
    pub fn new(tree: SyntaxTree, schema: Value, file_contents: String) -> (r: Self)
        ensures
            r.document() == tree@,
            r.schema() == json_model(schema),
            r.text() == file_contents@,
    {
        JSONSchemaValidator { tree, schema, contents: file_contents }
    }

    /// The text of the document.
    pub fn contents(&self) -> (r: &str)
        ensures
            r@ == self.text(),
    {
        self.contents.as_str()
    }

    /// The tree of the document.
    pub fn tree(&self) -> (r: &SyntaxTree)
        ensures
            r@ == self.document(),
    {
        &self.tree
    }

    /// Validates the document from its root against its schema.
    pub fn validate(&self) -> (r: ParseResult)
        ensures
            r@ == validation(self.document(), 0, self.schema()),
    {
        self.validate_root(0, &self.schema)
    }

    /// The outcome of one descent from the node `parent` into `node`.
    fn descend(&self, parent: usize, node: usize, schema: &Value) -> (r: ParseResult)
        ensures
            r@ == outcome(
                self.document(),
                parent as int,
                Job { node: node as int, schema: json_model(*schema) },
            ),
        decreases self.document().len() - parent, 0nat, 0int,
    {
        if parent < node && node < self.tree.len() {
            self.validate_root(node, schema)
        } else {
            ParseResult::default()
        }
    }

    /// Validates the node `node` and what lies below it against
    /// `sub_schema`.
    pub fn validate_root(&self, node: usize, sub_schema: &Value) -> (r: ParseResult)
        ensures
            r@ == validation(self.document(), node as int, json_model(*sub_schema)),
        decreases self.document().len() - node, nesting(json_model(*sub_schema)), 4int,
    {
        let tree = &self.tree;
        if node >= tree.len() {
            return ParseResult::default();
        }
        let kind = tree.node(node).kind();
        if str_eq(kind, "document") || str_eq(kind, "{") {
            let next = match tree.child(node, 0) {
                Some(c) => Some(c),
                None => tree.next_sibling(node),
            };
            return match next {
                Some(n) => self.validate_root(n, sub_schema),
                None => ParseResult::default(),
            };
        }
        let ir = match IR::new(tree, node) {
            Some(ir) => ir,
            None => {
                return ParseResult::default();
            },
        };
        let ghost t = self.document();
        let ghost schema = json_model(*sub_schema);
        let mut errors: Vec<Diagnostic> = Vec::new();
        assert(diagnostic_views(errors@) =~= Seq::empty());
        push_found(&mut errors, validate_type(&ir, sub_schema));
        push_found(&mut errors, validate_enum(tree, node, sub_schema));
        let mut matches: Vec<SchemaMatches> = Vec::new();
        matches.push(
            SchemaMatches { node: NodeIdentifier::new(tree, node), schema: sub_schema.clone() },
        );
        assert(match_views(matches@) =~= seq![
            SchemaMatchView { node: identity(t, node as int), schema },
        ]);
        let children = match &ir {
            IR::IRString(content) => {
                append_diagnostics(&mut errors, self.validate_string(content, sub_schema));
                ParseResult::default()
            },
            IR::IRNumber(number) => {
                append_diagnostics(&mut errors, self.validate_number(number, sub_schema));
                ParseResult::default()
            },
            IR::IRObject(obj) => {
                let (own, children) = self.validate_object(node, obj, sub_schema);
                append_diagnostics(&mut errors, own);
                children
            },
            IR::IRArray(array) => {
                let (own, children) = self.validate_array(node, array, sub_schema);
                append_diagnostics(&mut errors, own);
                children
            },
            IR::IRPair(pair) => {
                let mut done: Vec<ParseResult> = Vec::new();
                let ghost jobs: Seq<Job> = Seq::empty();
                assert(result_views(done@) =~= results(t, node as int, jobs, 0));
                if let Some(key) = tree.child(node, 0) {
                    let r = self.descend(node, key, sub_schema);
                    proof {
                        lemma_results_push(t, node as int, jobs, Job { node: key as int, schema });
                    }
                    let ghost before = result_views(done@);
                    done.push(r);
                    proof {
                        assert(result_views(done@) =~= before.push(r@));
                        jobs = jobs.push(Job { node: key as int, schema });
                    }
                }
                let r = self.descend(node, pair.value, sub_schema);
                proof {
                    lemma_results_push(
                        t,
                        node as int,
                        jobs,
                        Job { node: pair.value as int, schema },
                    );
                }
                let ghost before = result_views(done@);
                done.push(r);
                proof {
                    assert(result_views(done@) =~= before.push(r@));
                    jobs = jobs.push(Job { node: pair.value as int, schema });
                    assert(jobs =~= match child_of(t, node as int, 0) {
                        Some(key) => seq![
                            Job { node: key, schema },
                            Job { node: pair@.value, schema },
                        ],
                        None => seq![Job { node: pair@.value, schema }],
                    });
                }
                let all = ParseResult::default().merge_all(done);
                proof {
                    lemma_then(all@, all@, all@);
                }
                all
            },
            _ => {
                assert(diagnostic_views(errors@) + Seq::<DiagnosticView>::empty()
                    =~= diagnostic_views(errors@));
                ParseResult::default()
            },
        };
        assert(children@ == below(t, node as int, ir@, schema));
        assert(diagnostic_views(errors@) =~= own_diagnostics(t, node as int, ir@, schema));
        let own = ParseResult::new(errors, matches);
        assert(own@ == (ResultView {
            errors: own_diagnostics(t, node as int, ir@, schema),
            schema_matches: seq![SchemaMatchView { node: identity(t, node as int), schema }],
        }));
        own.merge(children)
    }

    /// What the keywords for strings report.
    fn validate_string(&self, content: &IRString, sub_schema: &Value) -> (r: Vec<Diagnostic>)
        ensures
            diagnostic_views(r@) == string_diagnostics(content@, json_model(*sub_schema)),
    {
        let mut errors: Vec<Diagnostic> = Vec::new();
        assert(diagnostic_views(errors@) =~= Seq::empty());
        push_found(&mut errors, validate_pattern(content, sub_schema));
        push_found(&mut errors, validate_format(content, sub_schema));
        push_found(&mut errors, validate_min_length(content, sub_schema));
        push_found(&mut errors, validate_max_length(content, sub_schema));
        assert(diagnostic_views(errors@) =~= string_diagnostics(
            content@,
            json_model(*sub_schema),
        ));
        errors
    }

    /// What the keywords for numbers report.
    fn validate_number(&self, number: &IRNumber, sub_schema: &Value) -> (r: Vec<Diagnostic>)
        ensures
            diagnostic_views(r@) == number_diagnostics(number@, json_model(*sub_schema)),
    {
        let mut errors: Vec<Diagnostic> = Vec::new();
        assert(diagnostic_views(errors@) =~= Seq::empty());
        push_found(&mut errors, validate_multiple_of(number, sub_schema));
        push_found(&mut errors, validate_exclusive_minimum(number, sub_schema));
        push_found(&mut errors, validate_exclusive_maximum(number, sub_schema));
        push_found(&mut errors, validate_minimum(number, sub_schema));
        push_found(&mut errors, validate_maximum(number, sub_schema));
        assert(diagnostic_views(errors@) =~= number_diagnostics(
            number@,
            json_model(*sub_schema),
        ));
        errors
    }

    /// What the keywords for objects report of the object at `node`, and
    /// the outcomes of the values of its properties.
    fn validate_object(&self, node: usize, obj: &IRObject, sub_schema: &Value) -> (r: (
        Vec<Diagnostic>,
        ParseResult,
    ))
        ensures
            diagnostic_views(r.0@) == object_diagnostics(
                self.document(),
                obj@,
                json_model(*sub_schema),
            ),
            r.1@ == below(
                self.document(),
                node as int,
                IRModel::Object(obj@),
                json_model(*sub_schema),
            ),
        decreases self.document().len() - node, nesting(json_model(*sub_schema)), 3int,
    {
        let ghost t = self.document();
        let ghost schema = json_model(*sub_schema);
        let mut errors: Vec<Diagnostic> = Vec::new();
        let mut validations = ParseResult::default();
        assert(diagnostic_views(errors@) =~= Seq::empty());
        let mut available = available_keys(obj);
        let ghost all = entries(available@);
        proof {
            lemma_then(validations@, validations@, validations@);
        }
        if let Some(props) = validate_properties(self, node, &available, sub_schema) {
            validations = validations.merge_all(props.validation);
            available = remove_keys(available, &props.keys_used);
        }
        let ghost left = entries(available@);
        let ghost first = validations@;
        assert(left == after_properties(all, schema));
        if let Some(props) = validate_pattern_properties(self, node, &available, sub_schema) {
            validations = validations.merge_all(props.validation);
            available = remove_keys(available, &props.keys_used);
        }
        let ghost rest = entries(available@);
        let ghost second = validations@;
        assert(rest == after_patterns(all, schema));
        if let Some(props) = validate_additional_properties(self, node, &available, sub_schema) {
            validations = validations.merge_all(props.validation);
            append_diagnostics(&mut errors, props.errors);
            available = remove_keys(available, &props.keys_used);
        }
        proof {
            let third = validations@;
            lemma_then(first, first, first);
            lemma_then(second, second, second);
            lemma_then(third, third, third);
            assert(diagnostic_views(errors@) =~= (if lookup(schema, "additionalProperties"@)
                == Some(Json::Bool(false)) {
                additional_errors(t, rest, rest.len() as int)
            } else {
                Seq::empty()
            }));
        }
        let ghost last = entries(available@);
        let ghost third = validations@;
        assert(last == after_additional(all, schema));
        if let Some(found) = validate_dependencies(&self.tree, obj, &available, sub_schema) {
            append_diagnostics(&mut errors, found);
        } else {
            assert(diagnostic_views(errors@) + Seq::<DiagnosticView>::empty()
                =~= diagnostic_views(errors@));
        }
        validations = validations.merge(self.validate_dependent(node, &available, sub_schema));
        proof {
            let fourth = validations@;
            lemma_then(third, third, third);
            lemma_then(fourth, fourth, fourth);
        }
        push_found(&mut errors, validate_min_properties(obj, sub_schema));
        push_found(&mut errors, validate_max_properties(obj, sub_schema));
        push_found(&mut errors, validate_required(obj, sub_schema));
        assert(diagnostic_views(errors@) =~= object_diagnostics(t, obj@, schema));
        (errors, validations)
    }

    /// The outcome of holding the object at `node` against the schemas that
    /// `dependencies` names for its available keys.
    fn validate_dependent(
        &self,
        node: usize,
        available_keys: &Vec<AvailableKey>,
        sub_schema: &Value,
    ) -> (r: ParseResult)
        ensures
            r@ == (match dependencies_of(json_model(*sub_schema)) {
                Some(deps) => dependent(
                    self.document(),
                    node as int,
                    entries(available_keys@),
                    deps,
                    available_keys@.len() as int,
                ),
                None => ResultView::empty(),
            }),
        decreases self.document().len() - node, nesting(json_model(*sub_schema)), 2int,
    {
        let mut validations = ParseResult::default();
        let dependencies = match get(sub_schema, "dependencies") {
            Some(d) => d,
            None => {
                return validations;
            },
        };
        if !dependencies.is_object() {
            return validations;
        }
        let ghost t = self.document();
        let ghost avail = entries(available_keys@);
        let ghost deps = json_model(*dependencies)->Object_0;
        proof {
            lemma_dependencies_nesting(json_model(*sub_schema));
        }
        let mut i: usize = 0;
        while i < available_keys.len()
            invariant
                i <= available_keys.len(),
                t == self.document(),
                avail == entries(available_keys@),
                json_model(*dependencies) == Json::Object(deps),
                nesting(Json::Object(deps)) < nesting(json_model(*sub_schema)),
                validations@ == dependent(t, node as int, avail, deps, i as int),
            decreases available_keys.len() - i,
        {
            let entry = &available_keys[i];
            assert(avail[i as int] == entry@);
            if let Some(dependency) = get(dependencies, entry.key.as_str()) {
                if dependency.is_object() {
                    proof {
                        lemma_member_nesting(deps, entry.key@);
                    }
                    validations = validations.merge(self.validate_root(node, dependency));
                }
            }
            i += 1;
        }
        validations
    }

    /// What the keywords for arrays report of the array at `node`, and the
    /// outcomes of its items.
    fn validate_array(&self, node: usize, array: &IRArray, sub_schema: &Value) -> (r: (
        Vec<Diagnostic>,
        ParseResult,
    ))
        ensures
            diagnostic_views(r.0@) == array_diagnostics(
                self.document(),
                array@,
                json_model(*sub_schema),
            ),
            r.1@ == below(
                self.document(),
                node as int,
                IRModel::Array(array@),
                json_model(*sub_schema),
            ),
        decreases self.document().len() - node, nesting(json_model(*sub_schema)), 3int,
    {
        let mut errors: Vec<Diagnostic> = Vec::new();
        assert(diagnostic_views(errors@) =~= Seq::empty());
        push_found(&mut errors, validate_min_items(array, sub_schema));
        push_found(&mut errors, validate_max_items(array, sub_schema));
        let items = validate_additional_items(self, node, array, sub_schema);
        push_found(&mut errors, items.error);
        push_found(&mut errors, validate_unique_items(&self.tree, array, sub_schema));
        let validations = ParseResult::default().merge_all(items.validation);
        proof {
            lemma_then(validations@, validations@, validations@);
            assert(diagnostic_views(errors@) =~= array_diagnostics(
                self.document(),
                array@,
                json_model(*sub_schema),
            ));
        }
        (errors, validations)
    }
}

impl Parser for JSONSchemaValidator {
    fn parse(&self) -> (r: ParseResult)
        ensures
            r@ == validation(self.document(), 0, self.schema()),
    {
        self.validate()
    }
}

/// Holds the values of the available keys that `properties` declares
/// against their schemas. `parent` is the node of the object.
pub fn validate_properties(
    validate: &JSONSchemaValidator,
    parent: usize,
    available_keys: &Vec<AvailableKey>,
    sub_schema: &Value,
) -> (r: Option<Properties>)
    ensures
        match declared(json_model(*sub_schema)) {
            Some(ms) => {
                let avail = entries(available_keys@);
                let jobs = properties_jobs(avail, ms, avail.len() as int);
                &&& r matches Some(p)
                &&& texts(p.keys_used@) == properties_keys(avail, ms, avail.len() as int)
                &&& result_views(p.validation@) == results(
                    validate.document(),
                    parent as int,
                    jobs,
                    jobs.len() as int,
                )
                &&& p.errors@.len() == 0
            },
            None => r is None,
        },
    decreases validate.document().len() - parent, 0nat, 1int,
{
    let properties = get(sub_schema, "properties")?;
    if !properties.is_object() {
        return None;
    }
    let ghost t = validate.document();
    let ghost avail = entries(available_keys@);
    let ghost ms = json_model(*properties)->Object_0;
    let mut validations: Vec<ParseResult> = Vec::new();
    let mut keys_used: Vec<String> = Vec::new();
    let mut i: usize = 0;
    assert(result_views(validations@) =~= Seq::empty());
    assert(texts(keys_used@) =~= Seq::empty());
    while i < available_keys.len()
        invariant
            i <= available_keys.len(),
            avail == entries(available_keys@),
            t == validate.document(),
            json_model(*properties) == Json::Object(ms),
            texts(keys_used@) == properties_keys(avail, ms, i as int),
            result_views(validations@) == results(
                t,
                parent as int,
                properties_jobs(avail, ms, i as int),
                properties_jobs(avail, ms, i as int).len() as int,
            ),
        decreases available_keys.len() - i,
    {
        let entry = &available_keys[i];
        assert(avail[i as int] == entry@);
        if let Some(schema) = get(properties, entry.key.as_str()) {
            let ghost job = Job { node: entry.node as int, schema: json_model(*schema) };
            let r = validate.descend(parent, entry.node, schema);
            proof {
                lemma_results_push(t, parent as int, properties_jobs(avail, ms, i as int), job);
            }
            let ghost before = result_views(validations@);
            let ghost used = texts(keys_used@);
            validations.push(r);
            keys_used.push(entry.key.clone());
            proof {
                assert(result_views(validations@) =~= before.push(r@));
                assert(texts(keys_used@) =~= used.push(entry.key@));
            }
        }
        i += 1;
    }
    Some(Properties { keys_used, validation: validations, errors: Vec::new() })
}

/// Holds the value of every available key that a pattern of
/// `patternProperties` matches against the schema of that pattern. `parent`
/// is the node of the object.
pub fn validate_pattern_properties(
    validate: &JSONSchemaValidator,
    parent: usize,
    available_keys: &Vec<AvailableKey>,
    sub_schema: &Value,
) -> (r: Option<Properties>)
    ensures
        match patterned(json_model(*sub_schema)) {
            Some(ms) => {
                let avail = entries(available_keys@);
                let jobs = pattern_jobs(avail, ms, avail.len() as int);
                &&& r matches Some(p)
                &&& texts(p.keys_used@) == pattern_keys(avail, ms, avail.len() as int)
                &&& result_views(p.validation@) == results(
                    validate.document(),
                    parent as int,
                    jobs,
                    jobs.len() as int,
                )
                &&& p.errors@.len() == 0
            },
            None => r is None,
        },
    decreases validate.document().len() - parent, 0nat, 1int,
{
    let properties = get(sub_schema, "patternProperties")?;
    let patterns = members(properties)?;
    let ghost t = validate.document();
    let ghost avail = entries(available_keys@);
    let ghost ms = json_model(*properties)->Object_0;
    let mut compiled: Vec<Option<regex::Regex>> = Vec::new();
    let mut k: usize = 0;
    while k < patterns.len()
        invariant
            k <= patterns.len(),
            compiled@.len() == k,
            patterns@.len() == ms.len(),
            forall|j: int| 0 <= j < ms.len() ==> (#[trigger] patterns@[j]).0@ == ms[j].key,
            forall|j: int|
                0 <= j < k ==> ((#[trigger] compiled@[j]) is Some <==> regex_compiles(
                    ms[j].key,
                )),
            forall|j: int|
                0 <= j < k ==> ((#[trigger] compiled@[j]) matches Some(re)
                    ==> regex_plain(re) && regex_pattern(re) == ms[j].key),
        decreases patterns.len() - k,
    {
        compiled.push(compile(patterns[k].0.as_str()));
        k += 1;
    }
    let mut validations: Vec<ParseResult> = Vec::new();
    let mut keys_used: Vec<String> = Vec::new();
    let mut i: usize = 0;
    assert(result_views(validations@) =~= Seq::empty());
    assert(texts(keys_used@) =~= Seq::empty());
    while i < available_keys.len()
        invariant
            i <= available_keys.len(),
            avail == entries(available_keys@),
            t == validate.document(),
            compiled@.len() == patterns@.len(),
            patterns@.len() == ms.len(),
            forall|j: int|
                0 <= j < ms.len() ==> {
                    &&& (#[trigger] patterns@[j]).0@ == ms[j].key
                    &&& json_model(*patterns@[j].1) == ms[j].value
                },
            forall|j: int|
                0 <= j < ms.len() ==> ((#[trigger] compiled@[j]) is Some
                    <==> regex_compiles(ms[j].key)),
            forall|j: int|
                0 <= j < ms.len() ==> ((#[trigger] compiled@[j]) matches Some(re)
                    ==> regex_plain(re) && regex_pattern(re) == ms[j].key),
            texts(keys_used@) == pattern_keys(avail, ms, i as int),
            result_views(validations@) == results(
                t,
                parent as int,
                pattern_jobs(avail, ms, i as int),
                pattern_jobs(avail, ms, i as int).len() as int,
            ),
        decreases available_keys.len() - i,
    {
        let entry = &available_keys[i];
        assert(avail[i as int] == entry@);
        let ghost base = pattern_jobs(avail, ms, i as int);
        let mut matched = false;
        let mut k: usize = 0;
        assert(base + matching_jobs(entry@, ms, 0) =~= base);
        while k < patterns.len()
            invariant
                k <= patterns.len(),
                t == validate.document(),
                compiled@.len() == patterns@.len(),
                patterns@.len() == ms.len(),
                forall|j: int|
                    0 <= j < ms.len() ==> {
                        &&& (#[trigger] patterns@[j]).0@ == ms[j].key
                        &&& json_model(*patterns@[j].1) == ms[j].value
                    },
                forall|j: int|
                    0 <= j < ms.len() ==> ((#[trigger] compiled@[j]) is Some
                        <==> regex_compiles(ms[j].key)),
                forall|j: int|
                    0 <= j < ms.len() ==> ((#[trigger] compiled@[j]) matches Some(re)
                        ==> regex_plain(re) && regex_pattern(re) == ms[j].key),
                matched == (matching_jobs(entry@, ms, k as int).len() > 0),
                result_views(validations@) == results(
                    t,
                    parent as int,
                    base + matching_jobs(entry@, ms, k as int),
                    (base + matching_jobs(entry@, ms, k as int)).len() as int,
                ),
            decreases patterns.len() - k,
        {
            let ghost so_far = base + matching_jobs(entry@, ms, k as int);
            let hit = match &compiled[k] {
                Some(re) => re.is_match(entry.key.as_str()),
                None => false,
            };
            assert(hit == (regex_matches(ms[k as int].key, entry@.key) == Some(true)));
            if hit {
                let schema = patterns[k].1;
                let ghost job = Job { node: entry.node as int, schema: json_model(*schema) };
                let r = validate.descend(parent, entry.node, schema);
                proof {
                    lemma_results_push(t, parent as int, so_far, job);
                    assert(so_far.push(job) =~= base + matching_jobs(entry@, ms, k + 1));
                }
                let ghost before = result_views(validations@);
                validations.push(r);
                assert(result_views(validations@) =~= before.push(r@));
                matched = true;
            }
            k += 1;
        }
        if matched {
            let ghost used = texts(keys_used@);
            keys_used.push(entry.key.clone());
            assert(texts(keys_used@) =~= used.push(entry.key@));
        }
        i += 1;
    }
    Some(Properties { keys_used, validation: validations, errors: Vec::new() })
}

/// Takes every available key for `additionalProperties`: where the keyword
/// holds `true` or a schema, the value of each key is held against it; where
/// it holds `false`, each key is reported. `parent` is the node of the
/// object.
pub fn validate_additional_properties(
    validate: &JSONSchemaValidator,
    parent: usize,
    available_keys: &Vec<AvailableKey>,
    sub_schema: &Value,
) -> (r: Option<Properties>)
    ensures
        match lookup(json_model(*sub_schema), "additionalProperties"@) {
            Some(fragment) => {
                let avail = entries(available_keys@);
                let jobs = additional_jobs(avail, fragment, avail.len() as int);
                &&& r matches Some(p)
                &&& texts(p.keys_used@) == additional_keys(avail, fragment)
                &&& result_views(p.validation@) == results(
                    validate.document(),
                    parent as int,
                    jobs,
                    jobs.len() as int,
                )
                &&& diagnostic_views(p.errors@) == (if fragment == Json::Bool(false) {
                    additional_errors(validate.document(), avail, avail.len() as int)
                } else {
                    Seq::empty()
                })
            },
            None => r is None,
        },
    decreases validate.document().len() - parent, 0nat, 1int,
{
    let properties = get(sub_schema, "additionalProperties")?;
    let flag = properties.as_bool();
    let open = flag == Some(true) || properties.is_object();
    let takes = flag.is_some() || properties.is_object();
    let closed = flag == Some(false);
    let ghost t = validate.document();
    let ghost avail = entries(available_keys@);
    let ghost fragment = json_model(*properties);
    let tree = validate.tree();
    let mut validations: Vec<ParseResult> = Vec::new();
    let mut keys_used: Vec<String> = Vec::new();
    let mut errors: Vec<Diagnostic> = Vec::new();
    let mut i: usize = 0;
    assert(result_views(validations@) =~= Seq::empty());
    assert(texts(keys_used@) =~= Seq::empty());
    assert(diagnostic_views(errors@) =~= Seq::empty());
    assert(keys_of(avail).take(0) =~= Seq::empty());
    while i < available_keys.len()
        invariant
            i <= available_keys.len(),
            avail == entries(available_keys@),
            t == validate.document(),
            t == tree@,
            fragment == json_model(*properties),
            open == admits(fragment),
            takes == (fragment is Bool || fragment is Object),
            closed == (fragment == Json::Bool(false)),
            texts(keys_used@) == (if takes {
                keys_of(avail).take(i as int)
            } else {
                Seq::empty()
            }),
            result_views(validations@) == results(
                t,
                parent as int,
                additional_jobs(avail, fragment, i as int),
                additional_jobs(avail, fragment, i as int).len() as int,
            ),
            diagnostic_views(errors@) == (if closed {
                additional_errors(t, avail, i as int)
            } else {
                Seq::empty()
            }),
        decreases available_keys.len() - i,
    {
        let entry = &available_keys[i];
        assert(avail[i as int] == entry@);
        if open {
            let ghost job = Job { node: entry.node as int, schema: fragment };
            let r = validate.descend(parent, entry.node, properties);
            proof {
                lemma_results_push(
                    t,
                    parent as int,
                    additional_jobs(avail, fragment, i as int),
                    job,
                );
            }
            let ghost before = result_views(validations@);
            validations.push(r);
            assert(result_views(validations@) =~= before.push(r@));
        } else if closed {
            if entry.node < tree.len() {
                let value = tree.node(entry.node);
                let ghost before = diagnostic_views(errors@);
                let d = to_diagnostic(
                    value.start(),
                    value.end(),
                    additional_properties_error(entry.key.as_str()),
                );
                errors.push(d);
                assert(diagnostic_views(errors@) =~= before.push(d@));
            }
        }
        if takes {
            let ghost used = texts(keys_used@);
            keys_used.push(entry.key.clone());
            assert(texts(keys_used@) =~= used.push(entry.key@));
            assert(keys_of(avail).take(i + 1) =~= keys_of(avail).take(i as int).push(entry.key@));
        }
        i += 1;
    }
    assert(keys_of(avail).take(avail.len() as int) =~= keys_of(avail));
    Some(Properties { keys_used, validation: validations, errors })
}

/// Holds the items of an array against the schemas that `items` and
/// `additionalItems` give for them, and reports the array where
/// `additionalItems` holds `false` and the array has more items than `items`
/// lists. `parent` is the node of the array.
pub fn validate_additional_items(
    validate: &JSONSchemaValidator,
    parent: usize,
    node: &IRArray,
    sub_schema: &Value,
) -> (r: Items)
    ensures
        result_views(r.validation@) == results(
            validate.document(),
            parent as int,
            array_jobs(node@.items, json_model(*sub_schema)),
            array_jobs(node@.items, json_model(*sub_schema)).len() as int,
        ),
        reports(r.error, additional_items_diagnostic(node@, json_model(*sub_schema))),
    decreases validate.document().len() - parent, 0nat, 1int,
{
    let ghost t = validate.document();
    let ghost schema = json_model(*sub_schema);
    let ghost items = node@.items;
    let mut schemas: Vec<&Value> = Vec::new();
    let mut is_list = false;
    let mut rest: Option<&Value> = None;
    if let Some(property) = get(sub_schema, "items") {
        if let Some(list) = property.as_array() {
            is_list = true;
            let ghost listed = json_model(*property)->Array_0;
            let mut k: usize = 0;
            while k < list.len()
                invariant
                    k <= list.len(),
                    list@.len() == listed.len(),
                    forall|j: int|
                        0 <= j < listed.len() ==> json_model(#[trigger] list@[j]) == listed[j],
                    schemas@.len() == schemas_among(listed, k as int).len(),
                    forall|j: int|
                        0 <= j < schemas@.len() ==> json_model(*#[trigger] schemas@[j])
                            == schemas_among(listed, k as int)[j],
                decreases list.len() - k,
            {
                let candidate = &list[k];
                if candidate.as_bool().is_some() || candidate.is_object() {
                    schemas.push(candidate);
                }
                k += 1;
            }
            if let Some(fragment) = get(sub_schema, "additionalItems") {
                if fragment.as_bool().is_some() || fragment.is_object() {
                    rest = Some(fragment);
                }
            }
        } else if property.is_object() {
            rest = Some(property);
        }
    }
    let ghost listed_schemas = match item_schemas(schema) {
        Some(s) => s,
        None => Seq::empty(),
    };
    assert(is_list == item_schemas(schema).is_some());
    assert(schemas@.len() == listed_schemas.len());
    assert(match rest_schema(schema) {
        Some(fragment) => rest is Some && json_model(*rest.unwrap()) == fragment,
        None => rest is None,
    });
    let n = node.items.len();
    let mut validations: Vec<ParseResult> = Vec::new();
    let limit = if schemas.len() < n {
        schemas.len()
    } else {
        n
    };
    let mut k: usize = 0;
    assert(result_views(validations@) =~= Seq::empty());
    while k < limit
        invariant
            k <= limit,
            limit <= n,
            limit <= schemas@.len(),
            n == node.items@.len(),
            items == node@.items,
            t == validate.document(),
            schemas@.len() == listed_schemas.len(),
            forall|j: int|
                0 <= j < schemas@.len() ==> json_model(*#[trigger] schemas@[j])
                    == listed_schemas[j],
            result_views(validations@) == results(
                t,
                parent as int,
                prefix_jobs(items, listed_schemas, k as int),
                prefix_jobs(items, listed_schemas, k as int).len() as int,
            ),
        decreases limit - k,
    {
        let item = node.items[k];
        assert(items[k as int] == item);
        let ghost job = Job { node: item as int, schema: listed_schemas[k as int] };
        let r = validate.descend(parent, item, schemas[k]);
        proof {
            lemma_results_push(t, parent as int, prefix_jobs(items, listed_schemas, k as int), job);
        }
        let ghost before = result_views(validations@);
        validations.push(r);
        assert(result_views(validations@) =~= before.push(r@));
        k += 1;
    }
    let ghost prefix = if is_list {
        prefix_jobs(items, listed_schemas, limit as int)
    } else {
        Seq::empty()
    };
    assert(prefix_jobs(items, listed_schemas, 0) =~= Seq::empty());
    let processed = if is_list {
        schemas.len()
    } else {
        0
    };
    let mut error: Option<Diagnostic> = None;
    if let Some(fragment) = rest {
        if processed < n {
            if fragment.as_bool() == Some(false) {
                error = Some(
                    to_diagnostic(node.start, node.end, additional_items_error(processed, n)),
                );
            } else if fragment.is_object() {
                let ghost f = json_model(*fragment);
                let mut k: usize = processed;
                assert(prefix + rest_jobs(items, processed as int, f, processed as int)
                    =~= prefix);
                while k < n
                    invariant
                        processed <= k <= n,
                        n == node.items@.len(),
                        items == node@.items,
                        t == validate.document(),
                        f == json_model(*fragment),
                        result_views(validations@) == results(
                            t,
                            parent as int,
                            prefix + rest_jobs(items, processed as int, f, k as int),
                            (prefix + rest_jobs(items, processed as int, f, k as int)).len() as int,
                        ),
                    decreases n - k,
                {
                    let item = node.items[k];
                    assert(items[k as int] == item);
                    let ghost so_far = prefix + rest_jobs(items, processed as int, f, k as int);
                    let ghost job = Job { node: item as int, schema: f };
                    let r = validate.descend(parent, item, fragment);
                    proof {
                        lemma_results_push(t, parent as int, so_far, job);
                        assert(so_far.push(job) =~= prefix + rest_jobs(
                            items,
                            processed as int,
                            f,
                            k + 1,
                        ));
                    }
                    let ghost before = result_views(validations@);
                    validations.push(r);
                    assert(result_views(validations@) =~= before.push(r@));
                    k += 1;
                }
            }
        }
    }
    proof {
        let rest_part = match rest_schema(schema) {
            Some(Json::Object(ms)) => rest_jobs(
                items,
                listed(schema) as int,
                Json::Object(ms),
                items.len() as int,
            ),
            _ => Seq::empty(),
        };
        assert(array_jobs(items, schema) =~= prefix + rest_part);
        assert(prefix + Seq::<Job>::empty() =~= prefix);
    }
    Items { validation: validations, error }
}

} // verus!
