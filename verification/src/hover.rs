//! What to show for the node under the cursor: the description of the
//! schema fragment that was held against it.
use crate::diagnostic::Range;
use crate::json::{text_at, text_under};
use crate::object::{closest_pair, NodeIdentifier};
use crate::parser::{match_views, ParseResult, SchemaMatchView};
use crate::syntax::SyntaxTree;
use crate::text::str_eq;
use vstd::prelude::*;

verus! {

/// An open document: its tree, its text, and the outcome of its last
/// validation.
pub struct TextDocument {
    pub tree: SyntaxTree,
    pub contents: String,
    pub parse_result: ParseResult,
}

/// What to show for a node: a text, and the span that it belongs to.
pub struct Hover {
    pub contents: String,
    pub range: Range,
}

/// The description to show for a node whose nearest pair is `pair`: that of
/// the first match from `from` on whose node has the same nearest pair and
/// whose schema holds a text under `description`; the empty text where there
/// is none.
pub open spec fn description_for(
    matches: Seq<SchemaMatchView>,
    pair: Option<Seq<char>>,
    from: int,
) -> Seq<char>
    decreases matches.len() - from,
{
    if from < 0 || from >= matches.len() {
        Seq::empty()
    } else if matches[from].node.closest_pair == pair {
        match text_under(matches[from].schema, "description"@) {
            Some(description) => description,
            None => description_for(matches, pair, from + 1),
        }
    } else {
        description_for(matches, pair, from + 1)
    }
}

fn same_pair(a: &Option<String>, b: &Option<String>) -> (r: bool)
    ensures
        r == (match (*a, *b) {
            (Some(x), Some(y)) => x@ == y@,
            (None, None) => true,
            _ => false,
        }),
{
    match (a, b) {
        (Some(x), Some(y)) => str_eq(x.as_str(), y.as_str()),
        (None, None) => true,
        _ => false,
    }
}

/// What to show for the node `node` of the document; `None` where the
/// document has no such node.
#[verifier::loop_isolation(false)]
pub fn hover(document: &TextDocument, node: usize) -> (r: Option<Hover>)
    ensures
        match r {
            Some(h) => {
                let t = document.tree@;
                &&& node < t.len()
                &&& h.contents@ == description_for(
                    document.parse_result@.schema_matches,
                    closest_pair(t, node as int),
                    0,
                )
                &&& h.range == (Range { start: t[node as int].start, end: t[node as int].end })
            },
            None => node >= document.tree@.len(),
        },
{
    if node >= document.tree.len() {
        return None;
    }
    let ident = NodeIdentifier::new(&document.tree, node);
    let matches = &document.parse_result.schema_matches;
    let ghost views = document.parse_result@.schema_matches;
    let ghost pair = closest_pair(document.tree@, node as int);
    let mut i: usize = 0;
    while i < matches.len()
        invariant
            i <= matches.len(),
            views == match_views(matches@),
            ident@.closest_pair == pair,
            description_for(views, pair, 0) == description_for(views, pair, i as int),
        decreases matches.len() - i,
    {
        let schema_match = &matches[i];
        assert(views[i as int] == schema_match@);
        if same_pair(&schema_match.node.closest_pair, &ident.closest_pair) {
            if let Some(description) = text_at(&schema_match.schema, "description") {
                return Some(
                    Hover {
                        contents: String::from_str(description),
                        range: Range::new(ident.start, ident.end),
                    },
                );
            }
        }
        i += 1;
    }
    Some(Hover { contents: String::new(), range: Range::new(ident.start, ident.end) })
}

} // verus!
