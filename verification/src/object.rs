//! How a visited node is identified, and what a validator of an object's
//! properties hands back.
use crate::diagnostic::Diagnostic;
use crate::ir::{IRObject, PairModel};
use crate::parser::ParseResult;
use crate::syntax::{text_of, ASTNodeExt, Position, SyntaxTree, TreeModel};
use crate::text::{str_eq, texts};
use vstd::prelude::*;

verus! {

/// What a validator of properties hands back: the keys it took, the result
/// of validating the value of each, and what it reports of the keys
/// themselves.
pub struct Properties {
    pub keys_used: Vec<String>,
    pub validation: Vec<ParseResult>,
    pub errors: Vec<Diagnostic>,
}

/// What the validator of an array's items hands back: the result of
/// validating each item that has a schema, and what it reports of the array
/// itself.
pub struct Items {
    pub validation: Vec<ParseResult>,
    pub error: Option<Diagnostic>,
}

/// A property that no validator has taken yet: its key and the node of its
/// value.
pub struct AvailableKey {
    pub key: String,
    pub node: usize,
}

/// An available key as plain values.
pub ghost struct Entry {
    pub key: Seq<char>,
    pub node: int,
}

impl View for AvailableKey {
    type V = Entry;

    open spec fn view(&self) -> Entry {
        Entry { key: self.key@, node: self.node as int }
    }
}

/// The plain values of a list of available keys.
pub open spec fn entries(list: Seq<AvailableKey>) -> Seq<Entry> {
    list.map_values(|k: AvailableKey| k@)
}

/// The keys of `list`, in order.
pub open spec fn keys_of(list: Seq<Entry>) -> Seq<Seq<char>> {
    list.map_values(|e: Entry| e.key)
}

/// The place of the entry with the key `key`; -1 where there is none.
pub open spec fn place_of(list: Seq<Entry>, key: Seq<char>) -> int
    decreases list.len(),
{
    if list.len() == 0 {
        -1
    } else if list.last().key == key {
        list.len() - 1
    } else {
        place_of(list.drop_last(), key)
    }
}

/// The place found lies in the list and holds the key; none is found exactly
/// where no entry has the key.
pub proof fn lemma_place_of(list: Seq<Entry>, key: Seq<char>)
    ensures
        -1 <= place_of(list, key) < list.len(),
        place_of(list, key) >= 0 ==> list[place_of(list, key)].key == key,
        place_of(list, key) == -1 <==> !keys_of(list).contains(key),
    decreases list.len(),
{
    if list.len() > 0 {
        if list.last().key == key {
            assert(keys_of(list)[list.len() - 1] == key);
        } else {
            lemma_place_of(list.drop_last(), key);
            if keys_of(list).contains(key) {
                let i = choose|i: int| 0 <= i < keys_of(list).len() && keys_of(list)[i] == key;
                assert(keys_of(list.drop_last())[i] == key);
            }
            if keys_of(list.drop_last()).contains(key) {
                let i = choose|i: int|
                    0 <= i < keys_of(list.drop_last()).len() && keys_of(list.drop_last())[i] == key;
                assert(keys_of(list)[i] == key);
            }
        }
    }
}

/// The keys that the first `upto` pairs make available: each key once, at
/// the place where it first occurs, with the node of the last pair that has
/// it.
pub open spec fn available(pairs: Seq<PairModel>, upto: int) -> Seq<Entry>
    decreases upto,
{
    if 0 < upto <= pairs.len() {
        let rest = available(pairs, upto - 1);
        let entry = Entry { key: pairs[upto - 1].key.contents, node: pairs[upto - 1].value };
        let at = place_of(rest, entry.key);
        if at >= 0 {
            rest.update(at, entry)
        } else {
            rest.push(entry)
        }
    } else {
        Seq::empty()
    }
}

/// No key occurs twice among the keys that pairs make available.
pub proof fn lemma_available_distinct(pairs: Seq<PairModel>, upto: int)
    ensures
        keys_of(available(pairs, upto)).no_duplicates(),
    decreases upto,
{
    if 0 < upto <= pairs.len() {
        lemma_available_distinct(pairs, upto - 1);
        let rest = available(pairs, upto - 1);
        let key = pairs[upto - 1].key.contents;
        lemma_place_of(rest, key);
        let now = available(pairs, upto);
        assert forall|i: int, j: int|
            0 <= i < keys_of(now).len() && 0 <= j < keys_of(now).len() && i != j implies keys_of(
            now,
        )[i] != keys_of(now)[j] by {
            if place_of(rest, key) >= 0 {
                assert(keys_of(now)[i] == keys_of(rest)[i]);
                assert(keys_of(now)[j] == keys_of(rest)[j]);
            } else {
                if i < rest.len() {
                    assert(keys_of(now)[i] == keys_of(rest)[i]);
                }
                if j < rest.len() {
                    assert(keys_of(now)[j] == keys_of(rest)[j]);
                }
            }
        }
    }
}

/// Those of `list` whose key is none of `used`, in order.
pub open spec fn without(list: Seq<Entry>, used: Seq<Seq<char>>) -> Seq<Entry>
    decreases list.len(),
{
    if list.len() == 0 {
        Seq::empty()
    } else if used.contains(list.last().key) {
        without(list.drop_last(), used)
    } else {
        without(list.drop_last(), used).push(list.last())
    }
}

fn find_key(list: &Vec<AvailableKey>, key: &str) -> (r: Option<usize>)
    ensures
        match r {
            Some(i) => i == place_of(entries(list@), key@),
            None => place_of(entries(list@), key@) == -1,
        },
{
    let ghost all = entries(list@);
    let mut i = list.len();
    assert(all.take(i as int) =~= all);
    while i > 0
        invariant
            i <= list.len(),
            all == entries(list@),
            place_of(all, key@) == place_of(all.take(i as int), key@),
        decreases i,
    {
        proof {
            assert(all.take(i as int).drop_last() =~= all.take(i - 1));
            assert(all.take(i as int).last() == all[i - 1]);
        }
        if str_eq(list[i - 1].key.as_str(), key) {
            return Some(i - 1);
        }
        i -= 1;
    }
    None
}

/// The keys that the pairs of an object make available.
pub fn available_keys(obj: &IRObject) -> (r: Vec<AvailableKey>)
    ensures
        entries(r@) == available(obj@.properties, obj@.properties.len() as int),
{
    let ghost pairs = obj@.properties;
    let mut list: Vec<AvailableKey> = Vec::new();
    let mut i: usize = 0;
    assert(entries(list@) =~= Seq::empty());
    while i < obj.properties.len()
        invariant
            i <= obj.properties.len(),
            pairs == obj@.properties,
            entries(list@) == available(pairs, i as int),
        decreases obj.properties.len() - i,
    {
        let pair = &obj.properties[i];
        assert(pairs[i as int] == pair@);
        let ghost before = entries(list@);
        let entry = AvailableKey { key: pair.key.contents.clone(), node: pair.value };
        proof {
            lemma_place_of(before, entry@.key);
        }
        match find_key(&list, pair.key.contents.as_str()) {
            Some(at) => {
                list.set(at, entry);
                assert(entries(list@) =~= before.update(at as int, entry@));
            },
            None => {
                list.push(entry);
                assert(entries(list@) =~= before.push(entry@));
            },
        }
        i += 1;
    }
    list
}

/// Whether `key` is one of `used`.
pub fn is_used(used: &Vec<String>, key: &str) -> (r: bool)
    ensures
        r == texts(used@).contains(key@),
{
    let mut i: usize = 0;
    while i < used.len()
        invariant
            i <= used.len(),
            forall|k: int| 0 <= k < i ==> texts(used@)[k] != key@,
        decreases used.len() - i,
    {
        if str_eq(used[i].as_str(), key) {
            assert(texts(used@)[i as int] == key@);
            return true;
        }
        i += 1;
    }
    false
}

/// Takes the keys `used` out of `list`.
pub fn remove_keys(list: Vec<AvailableKey>, used: &Vec<String>) -> (r: Vec<AvailableKey>)
    ensures
        entries(r@) == without(entries(list@), texts(used@)),
{
    let ghost all = entries(list@);
    let mut kept: Vec<AvailableKey> = Vec::new();
    assert(entries(kept@) =~= without(all.take(0), texts(used@)));
    for entry in it: list
        invariant
            entries(it.seq()) == all,
            entries(kept@) == without(all.take(it.index()), texts(used@)),
    {
        proof {
            let next = all.take(it.index() + 1);
            assert(next.drop_last() =~= all.take(it.index()));
            assert(next.last() == entry@);
        }
        if !is_used(used, entry.key.as_str()) {
            let ghost before = entries(kept@);
            kept.push(entry);
            assert(entries(kept@) =~= before.push(entry@));
        }
    }
    assert(all.take(all.len() as int) =~= all);
    kept
}

/// Identifies a node by what it holds, not by where it is stored: the text
/// of the nearest pair around it, and its span.
#[derive(Debug)]
pub struct NodeIdentifier {
    pub closest_pair: Option<String>,
    pub start: Position,
    pub end: Position,
}

/// What a [`NodeIdentifier`] holds, as plain values.
pub ghost struct NodeIdentifierView {
    pub closest_pair: Option<Seq<char>>,
    pub start: Position,
    pub end: Position,
}

impl View for NodeIdentifier {
    type V = NodeIdentifierView;

    open spec fn view(&self) -> NodeIdentifierView {
        NodeIdentifierView {
            closest_pair: match self.closest_pair {
                Some(p) => Some(p@),
                None => None,
            },
            start: self.start,
            end: self.end,
        }
    }
}

impl Clone for NodeIdentifier {
    fn clone(&self) -> (r: NodeIdentifier)
        ensures
            r@ == self@,
    {
        NodeIdentifier {
            closest_pair: match &self.closest_pair {
                Some(p) => Some(p.clone()),
                None => None,
            },
            start: self.start,
            end: self.end,
        }
    }
}

/// The text of the pair nearest to the node `id`: for the content of a
/// string, that of its grandparent; else that of its parent where the parent
/// is a pair; else its own where it is a pair. A node without a parent has
/// none.
pub open spec fn closest_pair(t: TreeModel, id: int) -> Option<Seq<char>> {
    if 0 <= id < t.len() {
        match t[id].parent {
            Some(p) => if 0 <= p < t.len() {
                if t[id].kind == "string_content"@ {
                    match t[p].parent {
                        Some(g) => if 0 <= g < t.len() {
                            Some(text_of(t, g))
                        } else {
                            None
                        },
                        None => None,
                    }
                } else if t[p].kind == "pair"@ {
                    Some(text_of(t, p))
                } else if t[id].kind == "pair"@ {
                    Some(text_of(t, id))
                } else {
                    None
                }
            } else {
                None
            },
            None => None,
        }
    } else {
        None
    }
}

/// The identity of the node `id`.
pub open spec fn identity(t: TreeModel, id: int) -> NodeIdentifierView {
    NodeIdentifierView { closest_pair: closest_pair(t, id), start: t[id].start, end: t[id].end }
}

/// The text of the pair nearest to a node.
pub fn find_pair(tree: &SyntaxTree, node: usize) -> (r: Option<String>)
    ensures
        match closest_pair(tree@, node as int) {
            Some(text) => r is Some && r.unwrap()@ == text,
            None => r is None,
        },
{
    if node >= tree.len() {
        return None;
    }
    let parent = tree.parent(node)?;
    if str_eq(tree.node(node).kind(), "string_content") {
        let grandparent = tree.parent(parent)?;
        return Some(tree.node(grandparent).get_text());
    }
    if str_eq(tree.node(parent).kind(), "pair") {
        return Some(tree.node(parent).get_text());
    }
    if str_eq(tree.node(node).kind(), "pair") {
        return Some(tree.node(node).get_text());
    }
    None
}

impl NodeIdentifier {
    /// The identity of a node of the tree.
    pub fn new(tree: &SyntaxTree, node: usize) -> (r: NodeIdentifier)
        requires
            node < tree@.len(),
        ensures
            r@ == identity(tree@, node as int),
    {
        NodeIdentifier {
            closest_pair: find_pair(tree, node),
            start: tree.node(node).start(),
            end: tree.node(node).end(),
        }
    }
}

} // verus!
