//! The keyword `uniqueItems`.
use crate::diagnostic::{plain_diagnostic, reports, to_diagnostic, Diagnostic, DiagnosticView};
use crate::errors::{unique_items_error, unique_items_text};
use crate::ir::{ArrayModel, IRArray};
use crate::json::{get, json_model, lookup, Json};
use crate::syntax::{text_of, ASTNodeExt, SyntaxTree, TreeModel};
use crate::text::{join, joined, texts};
use crate::values::{
    get_value, item_views, lemma_item_views, same_value, value_at, values_equal, JSONValues,
    ValueModel,
};
use serde_json::Value;
use vstd::prelude::*;

verus! {

/// The values of those of the first `upto` nodes of `items` that have one.
pub open spec fn values_upto(t: TreeModel, items: Seq<int>, upto: int) -> Seq<ValueModel>
    decreases upto,
{
    if 0 < upto <= items.len() {
        match value_at(t, items[upto - 1]) {
            Some(v) => values_upto(t, items, upto - 1).push(v),
            None => values_upto(t, items, upto - 1),
        }
    } else {
        Seq::empty()
    }
}

/// Whether one of `seen` is the same value as `v`.
pub open spec fn occurs(seen: Seq<ValueModel>, v: ValueModel) -> bool {
    exists|k: int| 0 <= k < seen.len() && same_value(#[trigger] seen[k], v)
}

/// The texts of those of the first `upto` items whose value an item before
/// them has already, in the order of the document.
pub open spec fn duplicates(t: TreeModel, items: Seq<int>, upto: int) -> Seq<Seq<char>>
    decreases upto,
{
    if 0 < upto <= items.len() {
        let rest = duplicates(t, items, upto - 1);
        match value_at(t, items[upto - 1]) {
            Some(v) => if occurs(values_upto(t, items, upto - 1), v) {
                rest.push(text_of(t, items[upto - 1]))
            } else {
                rest
            },
            None => rest,
        }
    } else {
        Seq::empty()
    }
}

/// What `uniqueItems` reports of an array: the items that repeat an earlier
/// one, with a comma between neighbours. Nothing where the schema does not
/// hold `true` under that key, or where no item repeats another.
pub open spec fn unique_items_diagnostic(t: TreeModel, node: ArrayModel, schema: Json) -> Option<
    DiagnosticView,
> {
    if lookup(schema, "uniqueItems"@) == Some(Json::Bool(true)) {
        let repeated = duplicates(t, node.items, node.items.len() as int);
        if repeated.len() > 0 {
            Some(
                plain_diagnostic(node.start, node.end, unique_items_text(joined(repeated, ", "@))),
            )
        } else {
            None
        }
    } else {
        None
    }
}

fn contains_value(seen: &Vec<JSONValues>, value: &JSONValues) -> (r: bool)
    ensures
        r == occurs(item_views(seen@, seen@.len() as int), value@),
{
    let ghost views = item_views(seen@, seen@.len() as int);
    proof {
        lemma_item_views(seen@, seen@.len() as int);
    }
    let mut k: usize = 0;
    while k < seen.len()
        invariant
            k <= seen.len(),
            views == item_views(seen@, seen@.len() as int),
            views.len() == seen@.len(),
            forall|j: int| 0 <= j < views.len() ==> #[trigger] views[j] == seen@[j]@,
            forall|j: int| 0 <= j < k ==> !same_value(#[trigger] views[j], value@),
        decreases seen.len() - k,
    {
        if values_equal(&seen[k], value) {
            assert(same_value(views[k as int], value@));
            return true;
        }
        k += 1;
    }
    false
}

/// Holds an array against `uniqueItems`.
pub fn validate_unique_items(tree: &SyntaxTree, node: &IRArray, sub_schema: &Value) -> (r: Option<
    Diagnostic,
>)
    ensures
        reports(r, unique_items_diagnostic(tree@, node@, json_model(*sub_schema))),
{
    let unique_items = get(sub_schema, "uniqueItems")?.as_bool()?;
    if !unique_items {
        return None;
    }
    let ghost items = node@.items;
    let mut seen: Vec<JSONValues> = Vec::new();
    let mut repeated: Vec<String> = Vec::new();
    let mut i: usize = 0;
    while i < node.items.len()
        invariant
            i <= node.items.len(),
            items == node@.items,
            item_views(seen@, seen@.len() as int) == values_upto(tree@, items, i as int),
            texts(repeated@) == duplicates(tree@, items, i as int),
        decreases node.items.len() - i,
    {
        let item = node.items[i];
        assert(items[i as int] == item);
        if let Some(value) = get_value(tree, item) {
            let ghost before = item_views(seen@, seen@.len() as int);
            let ghost listed = texts(repeated@);
            let ghost old_seen = seen@;
            proof {
                lemma_item_views(old_seen, old_seen.len() as int);
            }
            if contains_value(&seen, &value) {
                repeated.push(tree.node(item).get_text());
                assert(texts(repeated@) =~= listed.push(text_of(tree@, item as int)));
            }
            seen.push(value);
            proof {
                lemma_item_views(seen@, seen@.len() as int);
                assert(forall|k: int| 0 <= k < old_seen.len() ==> seen@[k] == old_seen[k]);
                assert(item_views(seen@, seen@.len() as int) =~= before.push(value@));
            }
        }
        i += 1;
    }
    if repeated.len() > 0 {
        let duplicate_items = join(&repeated, ", ");
        return Some(
            to_diagnostic(node.start, node.end, unique_items_error(duplicate_items.as_str())),
        );
    }
    None
}

} // verus!
