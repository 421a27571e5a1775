//! Decoded values: what a node of the document holds once its syntax is set
//! aside, and the comparison of documents with values of a schema.
use crate::ir::{descends, representation, IRModel, PairModel, IR};
use crate::keywords::required::has_key;
use crate::double::same;
use crate::json::{as_double, get, get_number, json_model, member_of, members, Json, JsonMember};
use crate::syntax::{SyntaxTree, TreeModel};
use crate::text::{chars_of, debug_text, push_char, quoted, str_eq};
use serde_json::Value;
use vstd::prelude::*;

verus! {

/// The decoded value of a node.
pub enum JSONValues {
    String(String),
    Boolean(bool),
    /// A number, by the text that `Display` writes for it.
    Number(String),
    Null,
    Array(Vec<JSONValues>),
    /// The members in the order of the document. Where a key occurs twice,
    /// its last member counts.
    Object(Vec<(String, JSONValues)>),
}

/// A decoded value as a mathematical value.
pub ghost enum ValueModel {
    String(Seq<char>),
    Boolean(bool),
    Number(Seq<char>),
    Null,
    Array(Seq<ValueModel>),
    Object(Seq<(Seq<char>, ValueModel)>),
}

/// The mathematical values of the first `upto` values of `items`.
pub open spec fn item_views(items: Seq<JSONValues>, upto: int) -> Seq<ValueModel>
    decreases items, upto,
{
    if 0 < upto <= items.len() {
        item_views(items, upto - 1).push(items[upto - 1].view())
    } else {
        Seq::empty()
    }
}

/// The mathematical values of the first `upto` members of `members`.
pub open spec fn member_views(members: Seq<(String, JSONValues)>, upto: int) -> Seq<
    (Seq<char>, ValueModel),
>
    decreases members, upto,
{
    if 0 < upto <= members.len() {
        member_views(members, upto - 1).push(
            (members[upto - 1].0@, members[upto - 1].1.view()),
        )
    } else {
        Seq::empty()
    }
}

impl View for JSONValues {
    type V = ValueModel;

    open spec fn view(&self) -> ValueModel
        decreases self,
    {
        match self {
            JSONValues::String(s) => ValueModel::String(s@),
            JSONValues::Boolean(b) => ValueModel::Boolean(*b),
            JSONValues::Number(n) => ValueModel::Number(n@),
            JSONValues::Null => ValueModel::Null,
            JSONValues::Array(items) => ValueModel::Array(item_views(items@, items@.len() as int)),
            JSONValues::Object(members) => ValueModel::Object(
                member_views(members@, members@.len() as int),
            ),
        }
    }
}

/// Each of the first `upto` views is that of the value at its place.
pub proof fn lemma_item_views(items: Seq<JSONValues>, upto: int)
    requires
        0 <= upto <= items.len(),
    ensures
        item_views(items, upto).len() == upto,
        forall|k: int| 0 <= k < upto ==> #[trigger] item_views(items, upto)[k] == items[k]@,
    decreases upto,
{
    if upto > 0 {
        lemma_item_views(items, upto - 1);
        assert(item_views(items, upto) == item_views(items, upto - 1).push(items[upto - 1]@));
    }
}

/// Each of the first `upto` views is that of the member at its place.
pub proof fn lemma_member_views(members: Seq<(String, JSONValues)>, upto: int)
    requires
        0 <= upto <= members.len(),
    ensures
        member_views(members, upto).len() == upto,
        forall|k: int|
            0 <= k < upto ==> #[trigger] member_views(members, upto)[k] == (
                members[k].0@,
                members[k].1@,
            ),
    decreases upto,
{
    if upto > 0 {
        lemma_member_views(members, upto - 1);
        assert(member_views(members, upto) == member_views(members, upto - 1).push(
            (members[upto - 1].0@, members[upto - 1].1@),
        ));
    }
}

/// The place of the last member with the key `key`; -1 where there is none.
pub open spec fn last_index(members: Seq<(Seq<char>, ValueModel)>, key: Seq<char>) -> int
    decreases members.len(),
{
    if members.len() == 0 {
        -1
    } else if members.last().0 == key {
        members.len() - 1
    } else {
        last_index(members.drop_last(), key)
    }
}

/// The place found lies in the list and holds the key; none is found exactly
/// where no member has the key.
pub proof fn lemma_last_index(members: Seq<(Seq<char>, ValueModel)>, key: Seq<char>)
    ensures
        -1 <= last_index(members, key) < members.len(),
        last_index(members, key) >= 0 ==> members[last_index(members, key)].0 == key,
        last_index(members, key) == -1 ==> forall|k: int|
            0 <= k < members.len() ==> (#[trigger] members[k]).0 != key,
    decreases members.len(),
{
    if members.len() > 0 && members.last().0 != key {
        lemma_last_index(members.drop_last(), key);
        assert forall|k: int| 0 <= k < members.len() && last_index(members, key) == -1 implies (
        #[trigger] members[k]).0 != key by {
            if k < members.len() - 1 {
                assert(members.drop_last()[k] == members[k]);
            }
        }
    }
}

/// Whether two decoded values are the same value: of the same kind, with
/// equal payloads; arrays item by item; objects key by key, whatever the
/// order of their members.
pub open spec fn same_value(a: ValueModel, b: ValueModel) -> bool
    decreases a,
{
    match (a, b) {
        (ValueModel::String(x), ValueModel::String(y)) => x == y,
        (ValueModel::Boolean(x), ValueModel::Boolean(y)) => x == y,
        (ValueModel::Number(x), ValueModel::Number(y)) => x == y,
        (ValueModel::Null, ValueModel::Null) => true,
        (ValueModel::Array(x), ValueModel::Array(y)) => x.len() == y.len() && same_items(
            x,
            y,
            x.len() as int,
        ),
        (ValueModel::Object(x), ValueModel::Object(y)) => members_within(x, y, x.len() as int)
            && keys_within(y, x, y.len() as int),
        _ => false,
    }
}

/// Whether the first `upto` items of `x` and of `y` are the same, place by
/// place.
pub open spec fn same_items(x: Seq<ValueModel>, y: Seq<ValueModel>, upto: int) -> bool
    decreases x, upto,
{
    if 0 < upto <= x.len() && upto <= y.len() {
        same_items(x, y, upto - 1) && same_value(x[upto - 1], y[upto - 1])
    } else {
        upto <= 0
    }
}

/// Whether each key among the first `upto` members of `x` is a key of `y`
/// under which `y` holds the same value as `x`.
pub open spec fn members_within(
    x: Seq<(Seq<char>, ValueModel)>,
    y: Seq<(Seq<char>, ValueModel)>,
    upto: int,
) -> bool
    decreases x, upto,
{
    if 0 < upto <= x.len() {
        let key = x[upto - 1].0;
        let i = last_index(x, key);
        let j = last_index(y, key);
        members_within(x, y, upto - 1) && 0 <= i < x.len() && 0 <= j < y.len() && same_value(
            x[i].1,
            y[j].1,
        )
    } else {
        upto <= 0
    }
}

/// Whether each key among the first `upto` members of `y` is a key of `x`.
pub open spec fn keys_within(
    y: Seq<(Seq<char>, ValueModel)>,
    x: Seq<(Seq<char>, ValueModel)>,
    upto: int,
) -> bool
    decreases upto,
{
    if 0 < upto <= y.len() {
        keys_within(y, x, upto - 1) && last_index(x, y[upto - 1].0) >= 0
    } else {
        upto <= 0
    }
}

#[verifier::loop_isolation(false)]
fn find_last(members: &Vec<(String, JSONValues)>, key: &str) -> (r: Option<usize>)
    ensures
        match r {
            Some(i) => i == last_index(member_views(members@, members@.len() as int), key@),
            None => last_index(member_views(members@, members@.len() as int), key@) == -1,
        },
{
    let ghost all = member_views(members@, members@.len() as int);
    proof {
        lemma_member_views(members@, members@.len() as int);
    }
    let mut i = members.len();
    assert(all.take(i as int) =~= all);
    while i > 0
        invariant
            i <= members.len(),
            all.len() == members@.len(),
            forall|k: int|
                0 <= k < all.len() ==> #[trigger] all[k] == (members@[k].0@, members@[k].1@),
            last_index(all, key@) == last_index(all.take(i as int), key@),
        decreases i,
    {
        proof {
            assert(all.take(i as int).drop_last() =~= all.take(i - 1));
            assert(all.take(i as int).last() == all[i - 1]);
        }
        if str_eq(members[i - 1].0.as_str(), key) {
            return Some(i - 1);
        }
        i -= 1;
    }
    None
}

/// Whether two decoded values are the same value.
#[verifier::loop_isolation(false)]
pub fn values_equal(a: &JSONValues, b: &JSONValues) -> (r: bool)
    ensures
        r == same_value(a@, b@),
    decreases a,
{
    match (a, b) {
        (JSONValues::String(x), JSONValues::String(y)) => str_eq(x.as_str(), y.as_str()),
        (JSONValues::Boolean(x), JSONValues::Boolean(y)) => *x == *y,
        (JSONValues::Number(x), JSONValues::Number(y)) => str_eq(x.as_str(), y.as_str()),
        (JSONValues::Null, JSONValues::Null) => true,
        (JSONValues::Array(x), JSONValues::Array(y)) => {
            proof {
                lemma_item_views(x@, x@.len() as int);
                lemma_item_views(y@, y@.len() as int);
            }
            if x.len() != y.len() {
                return false;
            }
            let ghost xs = item_views(x@, x@.len() as int);
            let ghost ys = item_views(y@, y@.len() as int);
            let mut i: usize = 0;
            while i < x.len()
                invariant
                    i <= x.len(),
                    x.len() == y.len(),
                    xs.len() == x@.len(),
                    ys.len() == y@.len(),
                    forall|k: int| 0 <= k < xs.len() ==> #[trigger] xs[k] == x@[k]@,
                    forall|k: int| 0 <= k < ys.len() ==> #[trigger] ys[k] == y@[k]@,
                    same_items(xs, ys, i as int),
                    decreases_to!(a => x),
                decreases x.len() - i,
            {
                if !values_equal(&x[i], &y[i]) {
                    proof {
                        lemma_same_items_fail(xs, ys, i + 1, xs.len() as int);
                    }
                    return false;
                }
                i += 1;
            }
            true
        },
        (JSONValues::Object(x), JSONValues::Object(y)) => {
            let ghost xs = member_views(x@, x@.len() as int);
            let ghost ys = member_views(y@, y@.len() as int);
            proof {
                lemma_member_views(x@, x@.len() as int);
                lemma_member_views(y@, y@.len() as int);
            }
            let mut i: usize = 0;
            while i < x.len()
                invariant
                    i <= x.len(),
                    xs == member_views(x@, x@.len() as int),
                    ys == member_views(y@, y@.len() as int),
                    xs.len() == x@.len(),
                    ys.len() == y@.len(),
                    forall|k: int| 0 <= k < xs.len() ==> #[trigger] xs[k] == (x@[k].0@, x@[k].1@),
                    forall|k: int| 0 <= k < ys.len() ==> #[trigger] ys[k] == (y@[k].0@, y@[k].1@),
                    members_within(xs, ys, i as int),
                    decreases_to!(a => x),
                decreases x.len() - i,
            {
                let key = x[i].0.as_str();
                let here = find_last(x, key);
                let there = find_last(y, key);
                proof {
                    lemma_last_index(xs, key@);
                    lemma_last_index(ys, key@);
                    assert(xs[i as int].0 == key@);
                }
                let same = match (here, there) {
                    (Some(p), Some(q)) => values_equal(&x[p].1, &y[q].1),
                    _ => false,
                };
                if !same {
                    proof {
                        lemma_members_within_fail(xs, ys, i + 1, xs.len() as int);
                    }
                    return false;
                }
                i += 1;
            }
            let mut j: usize = 0;
            while j < y.len()
                invariant
                    j <= y.len(),
                    xs == member_views(x@, x@.len() as int),
                    ys == member_views(y@, y@.len() as int),
                    ys.len() == y@.len(),
                    forall|k: int| 0 <= k < ys.len() ==> #[trigger] ys[k] == (y@[k].0@, y@[k].1@),
                    keys_within(ys, xs, j as int),
                decreases y.len() - j,
            {
                let found = find_last(x, y[j].0.as_str());
                proof {
                    assert(ys[j as int].0 == y@[j as int].0@);
                }
                if found.is_none() {
                    proof {
                        lemma_keys_within_fail(ys, xs, j + 1, ys.len() as int);
                    }
                    return false;
                }
                j += 1;
            }
            true
        },
        _ => false,
    }
}

proof fn lemma_same_items_fail(x: Seq<ValueModel>, y: Seq<ValueModel>, from: int, upto: int)
    requires
        0 < from <= upto <= x.len(),
        upto <= y.len(),
        !same_items(x, y, from),
    ensures
        !same_items(x, y, upto),
    decreases upto - from,
{
    if from < upto {
        lemma_same_items_fail(x, y, from, upto - 1);
    }
}

proof fn lemma_members_within_fail(
    x: Seq<(Seq<char>, ValueModel)>,
    y: Seq<(Seq<char>, ValueModel)>,
    from: int,
    upto: int,
)
    requires
        0 < from <= upto <= x.len(),
        !members_within(x, y, from),
    ensures
        !members_within(x, y, upto),
    decreases upto - from,
{
    if from < upto {
        lemma_members_within_fail(x, y, from, upto - 1);
    }
}

proof fn lemma_keys_within_fail(
    y: Seq<(Seq<char>, ValueModel)>,
    x: Seq<(Seq<char>, ValueModel)>,
    from: int,
    upto: int,
)
    requires
        0 < from <= upto <= y.len(),
        !keys_within(y, x, from),
    ensures
        !keys_within(y, x, upto),
    decreases upto - from,
{
    if from < upto {
        lemma_keys_within_fail(y, x, from, upto - 1);
    }
}

/// `members` with `value` under `key`: in the place of the member that has
/// the key already, at the end otherwise.
pub open spec fn with_member(
    members: Seq<(Seq<char>, ValueModel)>,
    key: Seq<char>,
    value: ValueModel,
) -> Seq<(Seq<char>, ValueModel)> {
    let at = last_index(members, key);
    if at >= 0 {
        members.update(at, (key, value))
    } else {
        members.push((key, value))
    }
}

/// The decoded value of the node `id`; `None` where the node has no
/// representation. Of an array it holds the items that have a value, of an
/// object the members whose value has one, and a pair counts as an object of
/// one member.
pub open spec fn value_at(t: TreeModel, id: int) -> Option<ValueModel>
    decreases t.len() - id, 1int, 0int,
{
    if 0 <= id < t.len() {
        match representation(t, id) {
            None => None,
            Some(IRModel::Array(a)) => Some(
                ValueModel::Array(item_values(t, id, a.items, a.items.len() as int)),
            ),
            Some(IRModel::Boolean(b)) => Some(ValueModel::Boolean(b.value)),
            Some(IRModel::Number(n)) => Some(ValueModel::Number(n.value.shown)),
            Some(IRModel::Object(o)) => Some(
                ValueModel::Object(member_values(t, id, o.properties, o.properties.len() as int)),
            ),
            Some(IRModel::Pair(p)) => Some(ValueModel::Object(member_values(t, id, seq![p], 1))),
            Some(IRModel::String(s)) => Some(ValueModel::String(s.contents)),
            Some(IRModel::Null(_)) => Some(ValueModel::Null),
        }
    } else {
        None
    }
}

/// The values of those of the first `upto` nodes of `items` that have one.
pub open spec fn item_values(t: TreeModel, id: int, items: Seq<int>, upto: int) -> Seq<ValueModel>
    decreases t.len() - id, 0int, upto,
{
    if 0 < upto <= items.len() {
        let rest = item_values(t, id, items, upto - 1);
        let c = items[upto - 1];
        if id < c < t.len() {
            match value_at(t, c) {
                Some(v) => rest.push(v),
                None => rest,
            }
        } else {
            rest
        }
    } else {
        Seq::empty()
    }
}

/// The members that the first `upto` pairs of `pairs` give: each key with
/// the value of its pair's node, where that has one.
pub open spec fn member_values(t: TreeModel, id: int, pairs: Seq<PairModel>, upto: int) -> Seq<
    (Seq<char>, ValueModel),
>
    decreases t.len() - id, 0int, upto,
{
    if 0 < upto <= pairs.len() {
        let rest = member_values(t, id, pairs, upto - 1);
        let c = pairs[upto - 1].value;
        if id < c < t.len() {
            match value_at(t, c) {
                Some(v) => with_member(rest, pairs[upto - 1].key.contents, v),
                None => rest,
            }
        } else {
            rest
        }
    } else {
        Seq::empty()
    }
}

fn put_member(members: &mut Vec<(String, JSONValues)>, key: String, value: JSONValues)
    ensures
        member_views(final(members)@, final(members)@.len() as int) == with_member(
            member_views(old(members)@, old(members)@.len() as int),
            key@,
            value@,
        ),
{
    let ghost before = member_views(members@, members@.len() as int);
    proof {
        lemma_member_views(members@, members@.len() as int);
        lemma_last_index(before, key@);
    }
    match find_last(members, key.as_str()) {
        Some(at) => {
            members.set(at, (key, value));
        },
        None => {
            members.push((key, value));
        },
    }
    proof {
        lemma_member_views(members@, members@.len() as int);
        assert(member_views(members@, members@.len() as int) =~= with_member(
            before,
            key@,
            value@,
        ));
    }
}

/// The decoded value of a node; `None` where the node has no
/// representation.
#[verifier::loop_isolation(false)]
pub fn get_value(tree: &SyntaxTree, node: usize) -> (r: Option<JSONValues>)
    ensures
        match value_at(tree@, node as int) {
            Some(v) => r is Some && r.unwrap()@ == v,
            None => r is None,
        },
    decreases tree@.len() - node,
{
    if node >= tree.len() {
        return None;
    }
    let ir = IR::new(tree, node)?;
    match ir {
        IR::IRArray(arr) => {
            let mut values: Vec<JSONValues> = Vec::new();
            let ghost items = arr@.items;
            let mut i: usize = 0;
            while i < arr.items.len()
                invariant
                    i <= arr.items.len(),
                    item_views(values@, values@.len() as int) == item_values(
                        tree@,
                        node as int,
                        items,
                        i as int,
                    ),
                decreases arr.items.len() - i,
            {
                let c = arr.items[i];
                assert(items[i as int] == c);
                let ghost before = item_views(values@, values@.len() as int);
                proof {
                    lemma_item_views(values@, values@.len() as int);
                }
                if let Some(value) = get_value(tree, c) {
                    values.push(value);
                    proof {
                        lemma_item_views(values@, values@.len() as int);
                        assert(item_views(values@, values@.len() as int) =~= before.push(value@));
                    }
                }
                i += 1;
            }
            Some(JSONValues::Array(values))
        },
        IR::IRBoolean(boo) => Some(JSONValues::Boolean(boo.value)),
        IR::IRNumber(num) => Some(JSONValues::Number(num.value.shown)),
        IR::IRObject(obj) => {
            let mut found: Vec<(String, JSONValues)> = Vec::new();
            let ghost pairs = obj@.properties;
            let mut i: usize = 0;
            assert(member_views(found@, 0) =~= Seq::empty());
            while i < obj.properties.len()
                invariant
                    i <= obj.properties.len(),
                    member_views(found@, found@.len() as int) == member_values(
                        tree@,
                        node as int,
                        pairs,
                        i as int,
                    ),
                decreases obj.properties.len() - i,
            {
                let pair = &obj.properties[i];
                assert(pairs[i as int] == pair@);
                if let Some(value) = get_value(tree, pair.value) {
                    put_member(&mut found, pair.key.contents.clone(), value);
                }
                i += 1;
            }
            Some(JSONValues::Object(found))
        },
        IR::IRPair(pair) => {
            let mut found: Vec<(String, JSONValues)> = Vec::new();
            assert(member_views(found@, 0) =~= Seq::empty());
            assert(member_values(tree@, node as int, seq![pair@], 0) =~= Seq::empty());
            if let Some(value) = get_value(tree, pair.value) {
                put_member(&mut found, pair.key.contents, value);
            }
            Some(JSONValues::Object(found))
        },
        IR::IRString(str) => Some(JSONValues::String(str.contents)),
        IR::IRNull(_) => Some(JSONValues::Null),
    }
}

/// `s` with four spaces in front of each of its lines; `fresh` says whether
/// `s` starts at the start of a line.
pub open spec fn padded(s: Seq<char>, fresh: bool) -> Seq<char>
    decreases s.len(),
{
    if s.len() == 0 {
        Seq::empty()
    } else {
        (if fresh {
            "    "@
        } else {
            Seq::empty()
        }) + seq![s[0]] + padded(s.drop_first(), s[0] == '\n')
    }
}

/// How a decoded value is written in a message: a string and a number by
/// their text, a boolean and `null` by their name, an array and an object
/// with one item or member to a line, each indented under its opening
/// bracket.
pub open spec fn rendering(v: ValueModel) -> Seq<char>
    decreases v,
{
    match v {
        ValueModel::String(s) => s,
        ValueModel::Boolean(b) => if b {
            "true"@
        } else {
            "false"@
        },
        ValueModel::Number(n) => n,
        ValueModel::Null => "null"@,
        ValueModel::Array(items) => if items.len() == 0 {
            "Array []"@
        } else {
            "Array [\n"@ + item_lines(items, items.len() as int) + "]"@
        },
        ValueModel::Object(members) => if members.len() == 0 {
            "Object {}"@
        } else {
            "Object {\n"@ + member_lines(members, members.len() as int) + "}"@
        },
    }
}

/// The lines for the first `upto` items of an array.
pub open spec fn item_lines(items: Seq<ValueModel>, upto: int) -> Seq<char>
    decreases items, upto,
{
    if 0 < upto <= items.len() {
        item_lines(items, upto - 1) + padded(rendering(items[upto - 1]), true) + ",\n"@
    } else {
        Seq::empty()
    }
}

/// The lines for the first `upto` members of an object.
pub open spec fn member_lines(members: Seq<(Seq<char>, ValueModel)>, upto: int) -> Seq<char>
    decreases members, upto,
{
    if 0 < upto <= members.len() {
        member_lines(members, upto - 1) + padded(
            debug_text(members[upto - 1].0) + ": "@ + rendering(members[upto - 1].1),
            true,
        ) + ",\n"@
    } else {
        Seq::empty()
    }
}

/// Appends `s` to `out`, with four spaces in front of each of its lines.
fn append_padded(out: &mut String, s: &str)
    ensures
        final(out)@ == old(out)@ + padded(s@, true),
{
    let chars = chars_of(s);
    let ghost start = out@;
    let mut fresh = true;
    let mut i: usize = 0;
    assert(chars@.skip(0) =~= chars@);
    while i < chars.len()
        invariant
            i <= chars.len(),
            out@ + padded(chars@.skip(i as int), fresh) == start + padded(chars@, true),
        decreases chars.len() - i,
    {
        let ghost o0 = out@;
        let ghost rest = chars@.skip(i as int);
        let c = chars[i];
        proof {
            assert(rest.drop_first() =~= chars@.skip(i + 1));
            assert(rest[0] == c);
            reveal_strlit("    ");
        }
        if fresh {
            out.append("    ");
        }
        push_char(out, c);
        proof {
            let lead = if fresh {
                "    "@
            } else {
                Seq::<char>::empty()
            };
            assert(out@ =~= o0 + lead + seq![c]);
            assert(o0 + padded(rest, fresh) =~= (o0 + lead + seq![c]) + padded(
                chars@.skip(i + 1),
                c == '\n',
            ));
        }
        fresh = c == '\n';
        i += 1;
    }
    assert(chars@.skip(chars.len() as int) =~= Seq::<char>::empty());
    assert(out@ + Seq::<char>::empty() =~= out@);
}

/// Writes a decoded value as messages quote it.
#[verifier::loop_isolation(false)]
pub fn describe(value: &JSONValues) -> (r: String)
    ensures
        r@ == rendering(value@),
    decreases value,
{
    match value {
        JSONValues::String(s) => s.clone(),
        JSONValues::Boolean(b) => if *b {
            String::from_str("true")
        } else {
            String::from_str("false")
        },
        JSONValues::Number(n) => n.clone(),
        JSONValues::Null => String::from_str("null"),
        JSONValues::Array(items) => {
            proof {
                lemma_item_views(items@, items@.len() as int);
            }
            if items.len() == 0 {
                return String::from_str("Array []");
            }
            let ghost views = item_views(items@, items@.len() as int);
            let mut out = String::from_str("Array [\n");
            let mut i: usize = 0;
            assert(out@ + item_lines(views, 0) =~= "Array [\n"@);
            while i < items.len()
                invariant
                    i <= items.len(),
                    out@ == "Array [\n"@ + item_lines(views, i as int),
                decreases items.len() - i,
            {
                let ghost o0 = out@;
                let text = describe(&items[i]);
                append_padded(&mut out, text.as_str());
                out.append(",\n");
                proof {
                    assert(views[i as int] == items@[i as int]@);
                    assert(out@ =~= "Array [\n"@ + (item_lines(views, i as int) + padded(
                        rendering(views[i as int]),
                        true,
                    ) + ",\n"@));
                }
                i += 1;
            }
            out.append("]");
            out
        },
        JSONValues::Object(members) => {
            proof {
                lemma_member_views(members@, members@.len() as int);
            }
            if members.len() == 0 {
                return String::from_str("Object {}");
            }
            let ghost views = member_views(members@, members@.len() as int);
            let mut out = String::from_str("Object {\n");
            let mut i: usize = 0;
            assert(out@ + member_lines(views, 0) =~= "Object {\n"@);
            while i < members.len()
                invariant
                    i <= members.len(),
                    out@ == "Object {\n"@ + member_lines(views, i as int),
                decreases members.len() - i,
            {
                let mut line = quoted(members[i].0.as_str());
                line.append(": ");
                line.append(describe(&members[i].1).as_str());
                append_padded(&mut out, line.as_str());
                out.append(",\n");
                proof {
                    assert(views[i as int] == (members@[i as int].0@, members@[i as int].1@));
                    assert(out@ =~= "Object {\n"@ + (member_lines(views, i as int) + padded(
                        debug_text(views[i as int].0) + ": "@ + rendering(views[i as int].1),
                        true,
                    ) + ",\n"@));
                }
                i += 1;
            }
            out.append("}");
            out
        },
    }
}

/// Whether a value of the representation `ir` has the type that a schema
/// names `json_type`; a number written as an integer is an `integer` too.
pub open spec fn type_matches(ir: IRModel, json_type: Seq<char>) -> bool {
    ir.kind() == json_type || (ir matches IRModel::Number(n) && n.is_integer && json_type
        == "integer"@)
}

/// Whether a value has the type that a schema names.
pub fn matches_type(ir_node: &IR, json_type: &str) -> (r: bool)
    ensures
        r == type_matches(ir_node@, json_type@),
{
    match ir_node {
        IR::IRArray(arr) => str_eq(arr.kind, json_type),
        IR::IRBoolean(boo) => str_eq(boo.kind, json_type),
        IR::IRNumber(num) => str_eq(num.kind, json_type) || (num.is_integer && str_eq(
            json_type,
            "integer",
        )),
        IR::IRObject(obj) => str_eq(obj.kind, json_type),
        IR::IRPair(pair) => str_eq(pair.kind, json_type),
        IR::IRString(str) => str_eq(str.kind, json_type),
        IR::IRNull(null) => str_eq(null.kind, json_type),
    }
}

/// Whether a schema value can stand as a schema of its own: a boolean or an
/// object.
pub open spec fn is_schema(j: Json) -> bool {
    j is Bool || j is Object
}

/// A copy of `value` where it can stand as a schema of its own.
pub fn new_schema_ref(value: &Value) -> (r: Option<Value>)
    ensures
        match r {
            Some(v) => is_schema(json_model(*value)) && json_model(v) == json_model(*value),
            None => !is_schema(json_model(*value)),
        },
{
    if value.as_bool().is_some() || value.is_object() {
        Some(value.clone())
    } else {
        None
    }
}

/// The keys of `pairs`, in order.
pub open spec fn pair_keys(pairs: Seq<PairModel>) -> Seq<Seq<char>> {
    pairs.map_values(|p: PairModel| p.key.contents)
}

/// Whether the node `id` holds the value `j`: the same kind of value with an
/// equal payload; an array of as many items, equal place by place; an object
/// with the same keys, equal key by key.
pub open spec fn node_equals(t: TreeModel, id: int, j: Json) -> bool
    decreases t.len() - id, 1int, 0int,
{
    if 0 <= id < t.len() {
        match representation(t, id) {
            Some(IRModel::Array(a)) => j matches Json::Array(items) && a.items.len() == items.len()
                && items_equal(t, id, a.items, items, a.items.len() as int),
            Some(IRModel::Boolean(b)) => j matches Json::Bool(x) && b.value == x,
            Some(IRModel::Number(n)) => as_double(j) matches Some(d) && same(n.value.bits, d.bits),
            Some(IRModel::Object(o)) => j matches Json::Object(ms) && pairs_equal(
                t,
                id,
                o.properties,
                ms,
                o.properties.len() as int,
            ) && forall|k: int|
                0 <= k < ms.len() ==> pair_keys(o.properties).contains((#[trigger] ms[k]).key),
            Some(IRModel::String(s)) => j matches Json::String(x) && s.contents == x,
            Some(IRModel::Null(_)) => j is Null,
            _ => false,
        }
    } else {
        false
    }
}

/// Whether each of the first `upto` nodes of `items` holds the value at its
/// place in `expected`.
pub open spec fn items_equal(
    t: TreeModel,
    id: int,
    items: Seq<int>,
    expected: Seq<Json>,
    upto: int,
) -> bool
    decreases t.len() - id, 0int, upto,
{
    if 0 < upto <= items.len() && upto <= expected.len() {
        let c = items[upto - 1];
        items_equal(t, id, items, expected, upto - 1) && id < c < t.len() && node_equals(
            t,
            c,
            expected[upto - 1],
        )
    } else {
        upto <= 0
    }
}

/// Whether the value of each of the first `upto` pairs holds what `ms` has
/// under the pair's key.
pub open spec fn pairs_equal(
    t: TreeModel,
    id: int,
    pairs: Seq<PairModel>,
    ms: Seq<JsonMember>,
    upto: int,
) -> bool
    decreases t.len() - id, 0int, upto,
{
    if 0 < upto <= pairs.len() {
        let c = pairs[upto - 1].value;
        pairs_equal(t, id, pairs, ms, upto - 1) && id < c < t.len() && (member_of(
            ms,
            pairs[upto - 1].key.contents,
        ) matches Some(v) && node_equals(t, c, v))
    } else {
        upto <= 0
    }
}

proof fn lemma_items_equal_fail(
    t: TreeModel,
    id: int,
    items: Seq<int>,
    expected: Seq<Json>,
    from: int,
    upto: int,
)
    requires
        0 < from <= upto <= items.len(),
        upto <= expected.len(),
        !items_equal(t, id, items, expected, from),
    ensures
        !items_equal(t, id, items, expected, upto),
    decreases upto - from,
{
    if from < upto {
        lemma_items_equal_fail(t, id, items, expected, from, upto - 1);
    }
}

proof fn lemma_pairs_equal_fail(
    t: TreeModel,
    id: int,
    pairs: Seq<PairModel>,
    ms: Seq<JsonMember>,
    from: int,
    upto: int,
)
    requires
        0 < from <= upto <= pairs.len(),
        !pairs_equal(t, id, pairs, ms, from),
    ensures
        !pairs_equal(t, id, pairs, ms, upto),
    decreases upto - from,
{
    if from < upto {
        lemma_pairs_equal_fail(t, id, pairs, ms, from, upto - 1);
    }
}

/// Whether a node holds the value `value`.
#[verifier::loop_isolation(false)]
pub fn is_equal(tree: &SyntaxTree, node: usize, value: &Value) -> (r: bool)
    ensures
        r == node_equals(tree@, node as int, json_model(*value)),
    decreases tree@.len() - node,
{
    if node >= tree.len() {
        return false;
    }
    let ir = match IR::new(tree, node) {
        Some(ir) => ir,
        None => {
            return false;
        },
    };
    match ir {
        IR::IRArray(arr) => {
            let second = match value.as_array() {
                Some(second) => second,
                None => {
                    return false;
                },
            };
            if arr.items.len() != second.len() {
                return false;
            }
            let ghost items = arr@.items;
            let ghost expected = json_model(*value)->Array_0;
            assert(ir@->Array_0 == arr@);
            assert(descends(ir@, node as int, tree@.len() as int));
            assert(forall|k: int|
                0 <= k < arr@.items.len() ==> node < #[trigger] arr@.items[k] < tree@.len());
            let mut i: usize = 0;
            while i < arr.items.len()
                invariant
                    i <= arr.items.len(),
                    forall|k: int|
                        0 <= k < items.len() ==> node < #[trigger] items[k] < tree@.len(),
                    items_equal(tree@, node as int, items, expected, i as int),
                decreases arr.items.len() - i,
            {
                let c = arr.items[i];
                assert(items[i as int] == c);

                if !is_equal(tree, c, &second[i]) {
                    proof {
                        lemma_items_equal_fail(
                            tree@,
                            node as int,
                            items,
                            expected,
                            i + 1,
                            items.len() as int,
                        );
                    }
                    return false;
                }
                i += 1;
            }
            true
        },
        IR::IRBoolean(boo) => match value.as_bool() {
            Some(x) => boo.value == x,
            None => false,
        },
        IR::IRNumber(num) => match get_number(value) {
            Some(d) => num.value.equals(&d),
            None => false,
        },
        IR::IRObject(obj) => {
            let entries = match members(value) {
                Some(entries) => entries,
                None => {
                    return false;
                },
            };
            let ghost pairs = obj@.properties;
            let ghost ms = json_model(*value)->Object_0;
            assert(ir@->Object_0 == obj@);
            assert(descends(ir@, node as int, tree@.len() as int));
            assert(forall|k: int|
                0 <= k < obj@.properties.len() ==> node < (#[trigger] obj@.properties[k]).value
                    < tree@.len());
            let mut i: usize = 0;
            while i < obj.properties.len()
                invariant
                    i <= obj.properties.len(),
                    forall|k: int|
                        0 <= k < pairs.len() ==> node < (#[trigger] pairs[k]).value < tree@.len(),
                    pairs_equal(tree@, node as int, pairs, ms, i as int),
                decreases obj.properties.len() - i,
            {
                let pair = &obj.properties[i];
                assert(pairs[i as int] == pair@);
                let same = match get(value, pair.key.contents.as_str()) {
                    Some(expected) => is_equal(tree, pair.value, expected),
                    None => false,
                };
                if !same {
                    proof {
                        lemma_pairs_equal_fail(
                            tree@,
                            node as int,
                            pairs,
                            ms,
                            i + 1,
                            pairs.len() as int,
                        );
                    }
                    return false;
                }
                i += 1;
            }
            let mut k: usize = 0;
            while k < entries.len()
                invariant
                    k <= entries.len(),
                    forall|q: int| 0 <= q < k ==> pair_keys(pairs).contains((#[trigger] ms[q]).key),
                decreases entries.len() - k,
            {
                assert(entries@[k as int].0@ == ms[k as int].key);
                if !has_key(&obj.properties, entries[k].0.as_str()) {
                    return false;
                }
                k += 1;
            }
            true
        },
        IR::IRString(str) => match value.as_str() {
            Some(x) => str_eq(str.contents.as_str(), x),
            None => false,
        },
        IR::IRNull(_) => value.is_null(),
        IR::IRPair(_) => false,
    }
}

} // verus!
