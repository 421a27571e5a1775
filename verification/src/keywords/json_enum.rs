//! The keyword `enum`.
use crate::diagnostic::{reports, Diagnostic, DiagnosticView, Range};
use crate::errors::{enum_error, enum_text};
use crate::ir::{representation, IR};
use crate::json::{get, json_model, json_text, lookup, text_of, Json};
use crate::syntax::{SyntaxTree, TreeModel};
use crate::text::texts;
use crate::values::{describe, get_value, is_equal, node_equals, rendering, value_at};
use serde_json::Value;
use vstd::prelude::*;

verus! {

/// The code of the diagnostic for a value that is not the one option of its
/// enumeration: the option can be put in its place.
pub const ENUM_CODE: &'static str = "ENUM_ACTION";

/// The options of an enumeration as `serde_json` writes them.
pub open spec fn option_texts(options: Seq<Json>) -> Seq<Seq<char>> {
    options.map_values(|j: Json| json_text(j))
}

/// Whether the node `id` holds one of the options.
pub open spec fn is_option(t: TreeModel, id: int, options: Seq<Json>) -> bool {
    exists|i: int| 0 <= i < options.len() && node_equals(t, id, #[trigger] options[i])
}

/// What `enum` reports of the node `id`: that it holds none of the options;
/// the diagnostic carries the code where there is one option only. Nothing
/// where the schema holds no list under that key, or where the node has no
/// representation.
pub open spec fn enum_diagnostic(t: TreeModel, id: int, schema: Json) -> Option<DiagnosticView> {
    match (lookup(schema, "enum"@), representation(t, id), value_at(t, id)) {
        (Some(Json::Array(options)), Some(ir), Some(value)) => if is_option(t, id, options) {
            None
        } else {
            Some(
                DiagnosticView {
                    range: Range { start: ir.start(), end: ir.end() },
                    message: enum_text(option_texts(options), rendering(value)),
                    code: if options.len() == 1 {
                        Some(ENUM_CODE@)
                    } else {
                        None
                    },
                },
            )
        },
        _ => None,
    }
}

/// Holds a node against `enum`.
pub fn validate_enum(tree: &SyntaxTree, node: usize, sub_schema: &Value) -> (r: Option<
    Diagnostic,
>)
    ensures
        reports(r, enum_diagnostic(tree@, node as int, json_model(*sub_schema))),
{
    let property = get(sub_schema, "enum")?;
    let enums = property.as_array()?;
    let ir = IR::new(tree, node)?;
    let value = get_value(tree, node)?;
    let ghost options = json_model(*property)->Array_0;
    let mut found_match = false;
    let mut enum_options: Vec<String> = Vec::new();
    let mut i: usize = 0;
    while i < enums.len()
        invariant
            i <= enums.len(),
            enums@.len() == options.len(),
            forall|k: int|
                0 <= k < options.len() ==> json_model(#[trigger] enums@[k]) == options[k],
            texts(enum_options@) == option_texts(options).take(i as int),
            found_match == is_option(tree@, node as int, options.take(i as int)),
        decreases enums.len() - i,
    {
        let equal = is_equal(tree, node, &enums[i]);
        let ghost before = texts(enum_options@);
        enum_options.push(text_of(&enums[i]));
        proof {
            let prev = options.take(i as int);
            let now = options.take(i + 1);
            assert(texts(enum_options@) =~= before.push(json_text(options[i as int])));
            assert(option_texts(options).take(i + 1) =~= option_texts(options).take(i as int).push(
                json_text(options[i as int]),
            ));
            assert(now.drop_last() =~= prev);
            if found_match {
                let w = choose|w: int|
                    0 <= w < prev.len() && node_equals(tree@, node as int, #[trigger] prev[w]);
                assert(now[w] == prev[w]);
            }
            if equal {
                assert(now[i as int] == options[i as int]);
            }
            if is_option(tree@, node as int, now) && !equal {
                let w = choose|w: int|
                    0 <= w < now.len() && node_equals(tree@, node as int, #[trigger] now[w]);
                assert(prev[w] == now[w]);
            }
        }
        if equal {
            found_match = true;
        }
        i += 1;
    }
    assert(options.take(options.len() as int) =~= options);
    assert(option_texts(options).take(options.len() as int) =~= option_texts(options));
    if !found_match {
        let single = enum_options.len() == 1;
        let message = enum_error(&enum_options, describe(&value));
        return Some(
            Diagnostic {
                range: Range::new(ir.get_start(), ir.get_end()),
                message,
                code: if single {
                    Some(String::from_str(ENUM_CODE))
                } else {
                    None
                },
            },
        );
    }
    None
}

} // verus!
