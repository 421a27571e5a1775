//! The intermediate representation: what a syntax node is to the validator,
//! one of seven kinds of value with its span.
use crate::double::{Double, DoubleView};
use crate::syntax::{child_of, well_formed, ASTNodeExt, Position, SyntaxTree, TreeModel};
use crate::syntax::text_of;
use crate::text::{is_i64_literal, parses_as_i64, str_eq};
use vstd::prelude::*;

verus! {

/// A `null`.
pub struct IRNull {
    pub kind: &'static str,
    pub start: Position,
    pub end: Position,
}

impl IRNull {
    /// A `null` that spans `start` to `end`.
    pub fn new(start: Position, end: Position) -> (r: IRNull)
        ensures
            r@ == (NullModel { kind: "null"@, start, end }),
    {
        IRNull { kind: "null", start, end }
    }
}

/// A string, without its quotes.
pub struct IRString {
    pub kind: &'static str,
    pub contents: String,
    pub start: Position,
    pub end: Position,
}

impl IRString {
    /// The string `contents` that spans `start` to `end`.
    pub fn new(contents: String, start: Position, end: Position) -> (r: IRString)
        ensures
            r@ == (StringModel { kind: "string"@, contents: contents@, start, end }),
    {
        IRString { kind: "string", contents, start, end }
    }
}

/// A boolean.
pub struct IRBoolean {
    pub kind: &'static str,
    pub value: bool,
    pub start: Position,
    pub end: Position,
}

impl IRBoolean {
    /// The boolean `value` that spans `start` to `end`.
    pub fn new(value: bool, start: Position, end: Position) -> (r: IRBoolean)
        ensures
            r@ == (BooleanModel { kind: "boolean"@, value, start, end }),
    {
        IRBoolean { kind: "boolean", value, start, end }
    }
}

/// A number, with whether it was written as an integer.
pub struct IRNumber {
    pub kind: &'static str,
    pub is_integer: bool,
    pub value: Double,
    pub start: Position,
    pub end: Position,
}

impl IRNumber {
    /// The number `value` that spans `start` to `end`.
    pub fn new(value: Double, is_integer: bool, start: Position, end: Position) -> (r: IRNumber)
        ensures
            r@ == (NumberModel { kind: "number"@, is_integer, value: value@, start, end }),
    {
        IRNumber { kind: "number", is_integer, value, start, end }
    }
}

/// A key and the node of its value.
pub struct IRPair {
    pub kind: &'static str,
    pub key: IRString,
    pub value: usize,
    pub start: Position,
    pub end: Position,
}

impl IRPair {
    /// The pair of `key` and the node `value` that spans `start` to `end`.
    pub fn new(key: IRString, value: usize, start: Position, end: Position) -> (r: IRPair)
        ensures
            r@ == (PairModel { kind: "pair"@, key: key@, value: value as int, start, end }),
    {
        IRPair { kind: "pair", key, value, start, end }
    }
}

/// An object: its pairs in the order of the document.
pub struct IRObject {
    pub kind: &'static str,
    pub properties: Vec<IRPair>,
    pub start: Position,
    pub end: Position,
}

impl IRObject {
    /// The object of the pairs `properties` that spans `start` to `end`.
    pub fn new(properties: Vec<IRPair>, start: Position, end: Position) -> (r: IRObject)
        ensures
            r@ == (ObjectModel {
                kind: "object"@,
                properties: properties@.map_values(|p: IRPair| p@),
                start,
                end,
            }),
    {
        IRObject { kind: "object", properties, start, end }
    }
}

/// An array: the nodes of its items in the order of the document.
pub struct IRArray {
    pub kind: &'static str,
    pub items: Vec<usize>,
    pub start: Position,
    pub end: Position,
}

impl IRArray {
    /// The array of the nodes `items` that spans `start` to `end`.
    pub fn new(items: Vec<usize>, start: Position, end: Position) -> (r: IRArray)
        ensures
            r@ == (ArrayModel {
                kind: "array"@,
                items: items@.map_values(|n: usize| n as int),
                start,
                end,
            }),
    {
        IRArray { kind: "array", items, start, end }
    }
}

/// What a syntax node is to the validator.
pub enum IR {
    IRString(IRString),
    IRArray(IRArray),
    IRBoolean(IRBoolean),
    IRObject(IRObject),
    IRPair(IRPair),
    IRNumber(IRNumber),
    IRNull(IRNull),
}

/// A string as plain values.
pub ghost struct StringModel {
    pub kind: Seq<char>,
    pub contents: Seq<char>,
    pub start: Position,
    pub end: Position,
}

/// An array as plain values.
pub ghost struct ArrayModel {
    pub kind: Seq<char>,
    pub items: Seq<int>,
    pub start: Position,
    pub end: Position,
}

/// A boolean as plain values.
pub ghost struct BooleanModel {
    pub kind: Seq<char>,
    pub value: bool,
    pub start: Position,
    pub end: Position,
}

/// A pair as plain values.
pub ghost struct PairModel {
    pub kind: Seq<char>,
    pub key: StringModel,
    pub value: int,
    pub start: Position,
    pub end: Position,
}

/// An object as plain values.
pub ghost struct ObjectModel {
    pub kind: Seq<char>,
    pub properties: Seq<PairModel>,
    pub start: Position,
    pub end: Position,
}

/// A number as plain values.
pub ghost struct NumberModel {
    pub kind: Seq<char>,
    pub is_integer: bool,
    pub value: DoubleView,
    pub start: Position,
    pub end: Position,
}

/// A `null` as plain values.
pub ghost struct NullModel {
    pub kind: Seq<char>,
    pub start: Position,
    pub end: Position,
}

/// A value of the intermediate representation as plain values.
pub ghost enum IRModel {
    String(StringModel),
    Array(ArrayModel),
    Boolean(BooleanModel),
    Object(ObjectModel),
    Pair(PairModel),
    Number(NumberModel),
    Null(NullModel),
}

impl View for IRString {
    type V = StringModel;

    open spec fn view(&self) -> StringModel {
        StringModel {
            kind: self.kind@,
            contents: self.contents@,
            start: self.start,
            end: self.end,
        }
    }
}

impl View for IRArray {
    type V = ArrayModel;

    open spec fn view(&self) -> ArrayModel {
        ArrayModel {
            kind: self.kind@,
            items: self.items@.map_values(|n: usize| n as int),
            start: self.start,
            end: self.end,
        }
    }
}

impl View for IRBoolean {
    type V = BooleanModel;

    open spec fn view(&self) -> BooleanModel {
        BooleanModel { kind: self.kind@, value: self.value, start: self.start, end: self.end }
    }
}

impl View for IRPair {
    type V = PairModel;

    open spec fn view(&self) -> PairModel {
        PairModel {
            kind: self.kind@,
            key: self.key@,
            value: self.value as int,
            start: self.start,
            end: self.end,
        }
    }
}

impl View for IRObject {
    type V = ObjectModel;

    open spec fn view(&self) -> ObjectModel {
        ObjectModel {
            kind: self.kind@,
            properties: self.properties@.map_values(|p: IRPair| p@),
            start: self.start,
            end: self.end,
        }
    }
}

impl View for IRNumber {
    type V = NumberModel;

    open spec fn view(&self) -> NumberModel {
        NumberModel {
            kind: self.kind@,
            is_integer: self.is_integer,
            value: self.value@,
            start: self.start,
            end: self.end,
        }
    }
}

impl View for IRNull {
    type V = NullModel;

    open spec fn view(&self) -> NullModel {
        NullModel { kind: self.kind@, start: self.start, end: self.end }
    }
}

impl View for IR {
    type V = IRModel;

    open spec fn view(&self) -> IRModel {
        match self {
            IR::IRString(s) => IRModel::String(s@),
            IR::IRArray(a) => IRModel::Array(a@),
            IR::IRBoolean(b) => IRModel::Boolean(b@),
            IR::IRObject(o) => IRModel::Object(o@),
            IR::IRPair(p) => IRModel::Pair(p@),
            IR::IRNumber(n) => IRModel::Number(n@),
            IR::IRNull(n) => IRModel::Null(n@),
        }
    }
}

impl IRModel {
    /// Where the value starts.
    pub open spec fn start(self) -> Position {
        match self {
            IRModel::String(v) => v.start,
            IRModel::Array(v) => v.start,
            IRModel::Boolean(v) => v.start,
            IRModel::Object(v) => v.start,
            IRModel::Pair(v) => v.start,
            IRModel::Number(v) => v.start,
            IRModel::Null(v) => v.start,
        }
    }

    /// Where the value ends.
    pub open spec fn end(self) -> Position {
        match self {
            IRModel::String(v) => v.end,
            IRModel::Array(v) => v.end,
            IRModel::Boolean(v) => v.end,
            IRModel::Object(v) => v.end,
            IRModel::Pair(v) => v.end,
            IRModel::Number(v) => v.end,
            IRModel::Null(v) => v.end,
        }
    }

    /// The name of the value's type.
    pub open spec fn kind(self) -> Seq<char> {
        match self {
            IRModel::String(v) => v.kind,
            IRModel::Array(v) => v.kind,
            IRModel::Boolean(v) => v.kind,
            IRModel::Object(v) => v.kind,
            IRModel::Pair(v) => v.kind,
            IRModel::Number(v) => v.kind,
            IRModel::Null(v) => v.kind,
        }
    }
}

impl IR {
    /// Where the value starts.
    pub fn get_start(&self) -> (r: Position)
        ensures
            r == self@.start(),
    {
        match self {
            IR::IRArray(arr) => arr.start,
            IR::IRBoolean(boo) => boo.start,
            IR::IRNumber(num) => num.start,
            IR::IRObject(obj) => obj.start,
            IR::IRPair(pair) => pair.start,
            IR::IRString(str) => str.start,
            IR::IRNull(null) => null.start,
        }
    }

    /// Where the value ends.
    pub fn get_end(&self) -> (r: Position)
        ensures
            r == self@.end(),
    {
        match self {
            IR::IRArray(arr) => arr.end,
            IR::IRBoolean(boo) => boo.end,
            IR::IRNumber(num) => num.end,
            IR::IRObject(obj) => obj.end,
            IR::IRPair(pair) => pair.end,
            IR::IRString(str) => str.end,
            IR::IRNull(null) => null.end,
        }
    }

    /// The name of the value's type.
    pub fn get_kind(&self) -> (r: &'static str)
        ensures
            r@ == self@.kind(),
    {
        match self {
            IR::IRArray(arr) => arr.kind,
            IR::IRBoolean(boo) => boo.kind,
            IR::IRNumber(num) => num.kind,
            IR::IRObject(obj) => obj.kind,
            IR::IRPair(pair) => pair.kind,
            IR::IRString(str) => str.kind,
            IR::IRNull(null) => null.kind,
        }
    }
}

/// The string that the node `id` stands for: its text without the quotes.
pub open spec fn string_at(t: TreeModel, id: int) -> Option<StringModel> {
    if 0 <= id < t.len() {
        Some(
            StringModel {
                kind: "string"@,
                contents: text_of(t, id),
                start: t[id].start,
                end: t[id].end,
            },
        )
    } else {
        None
    }
}

/// The pair that the node `id` stands for: its first child is the key and
/// its third the value. The key's span is empty and lies where the key
/// starts.
pub open spec fn pair_at(t: TreeModel, id: int) -> Option<PairModel> {
    match (child_of(t, id, 0), child_of(t, id, 2)) {
        (Some(key), Some(value)) => Some(
            PairModel {
                kind: "pair"@,
                key: StringModel {
                    kind: "string"@,
                    contents: text_of(t, key),
                    start: t[key].start,
                    end: t[key].start,
                },
                value,
                start: t[id].start,
                end: t[id].end,
            },
        ),
        _ => None,
    }
}

/// The boolean that the node `id` stands for, where its text is `true` or
/// `false`.
pub open spec fn boolean_at(t: TreeModel, id: int) -> Option<BooleanModel> {
    if 0 <= id < t.len() && (text_of(t, id) == "true"@ || text_of(t, id) == "false"@) {
        Some(
            BooleanModel {
                kind: "boolean"@,
                value: text_of(t, id) == "true"@,
                start: t[id].start,
                end: t[id].end,
            },
        )
    } else {
        None
    }
}

/// The number that the node `id` stands for, where its text denotes one;
/// the number counts as an integer where the text is an integer literal that
/// sixty-four bits hold.
pub open spec fn number_at(t: TreeModel, id: int) -> Option<NumberModel> {
    if 0 <= id < t.len() {
        match t[id].number {
            Some(value) => Some(
                NumberModel {
                    kind: "number"@,
                    is_integer: is_i64_literal(text_of(t, id)),
                    value,
                    start: t[id].start,
                    end: t[id].end,
                },
            ),
            None => None,
        }
    } else {
        None
    }
}

/// Whether a child of this kind is punctuation inside an object.
pub open spec fn object_punctuation(kind: Seq<char>) -> bool {
    kind == ","@ || kind == "{"@ || kind == "}"@
}

/// Whether a child of this kind is punctuation inside an array.
pub open spec fn array_punctuation(kind: Seq<char>) -> bool {
    kind == ","@ || kind == "["@ || kind == "]"@
}

/// The pair that the child `c` of the object `id` gives: key and value as in
/// [`pair_at`], the spans those of the object.
pub open spec fn member_at(t: TreeModel, id: int, c: int) -> Option<PairModel> {
    match (child_of(t, c, 0), child_of(t, c, 2)) {
        (Some(key), Some(value)) => Some(
            PairModel {
                kind: "pair"@,
                key: StringModel {
                    kind: "string"@,
                    contents: text_of(t, key),
                    start: t[id].start,
                    end: t[id].end,
                },
                value,
                start: t[id].start,
                end: t[id].end,
            },
        ),
        _ => None,
    }
}

/// The pairs that the first `upto` children of the object `id` give, where
/// each child that is no punctuation has a key and a value.
pub open spec fn members_upto(t: TreeModel, id: int, upto: int) -> Option<Seq<PairModel>>
    decreases upto,
{
    if upto <= 0 {
        Some(Seq::empty())
    } else {
        let c = t[id].children[upto - 1];
        match members_upto(t, id, upto - 1) {
            Some(pairs) => if object_punctuation(t[c].kind) {
                Some(pairs)
            } else {
                match member_at(t, id, c) {
                    Some(pair) => Some(pairs.push(pair)),
                    None => None,
                }
            },
            None => None,
        }
    }
}

/// The object that the node `id` stands for.
pub open spec fn object_at(t: TreeModel, id: int) -> Option<ObjectModel> {
    if 0 <= id < t.len() {
        match members_upto(t, id, t[id].children.len() as int) {
            Some(properties) => Some(
                ObjectModel { kind: "object"@, properties, start: t[id].start, end: t[id].end },
            ),
            None => None,
        }
    } else {
        None
    }
}

/// Those of the first `upto` children of the array `id` that are no
/// punctuation.
pub open spec fn items_upto(t: TreeModel, id: int, upto: int) -> Seq<int>
    decreases upto,
{
    if upto <= 0 {
        Seq::empty()
    } else {
        let c = t[id].children[upto - 1];
        if array_punctuation(t[c].kind) {
            items_upto(t, id, upto - 1)
        } else {
            items_upto(t, id, upto - 1).push(c)
        }
    }
}

/// The array that the node `id` stands for.
pub open spec fn array_at(t: TreeModel, id: int) -> Option<ArrayModel> {
    if 0 <= id < t.len() {
        Some(
            ArrayModel {
                kind: "array"@,
                items: items_upto(t, id, t[id].children.len() as int),
                start: t[id].start,
                end: t[id].end,
            },
        )
    } else {
        None
    }
}

/// What the node `id` is to the validator; `None` where its kind is none of
/// the seven, or where its parts are missing.
pub open spec fn representation(t: TreeModel, id: int) -> Option<IRModel> {
    if 0 <= id < t.len() {
        let kind = t[id].kind;
        if kind == "pair"@ {
            match pair_at(t, id) {
                Some(v) => Some(IRModel::Pair(v)),
                None => None,
            }
        } else if kind == "array"@ {
            match array_at(t, id) {
                Some(v) => Some(IRModel::Array(v)),
                None => None,
            }
        } else if kind == "number"@ {
            match number_at(t, id) {
                Some(v) => Some(IRModel::Number(v)),
                None => None,
            }
        } else if kind == "string"@ {
            match string_at(t, id) {
                Some(v) => Some(IRModel::String(v)),
                None => None,
            }
        } else if kind == "object"@ {
            match object_at(t, id) {
                Some(v) => Some(IRModel::Object(v)),
                None => None,
            }
        } else if kind == "null"@ {
            Some(IRModel::Null(NullModel { kind: "null"@, start: t[id].start, end: t[id].end }))
        } else if kind == "true"@ || kind == "false"@ {
            match boolean_at(t, id) {
                Some(v) => Some(IRModel::Boolean(v)),
                None => None,
            }
        } else {
            None
        }
    } else {
        None
    }
}

/// Whether every node that `ir` refers to lies after `id` and before `len`.
pub open spec fn descends(ir: IRModel, id: int, len: int) -> bool {
    match ir {
        IRModel::Array(a) => forall|k: int|
            0 <= k < a.items.len() ==> id < #[trigger] a.items[k] < len,
        IRModel::Object(o) => forall|k: int|
            0 <= k < o.properties.len() ==> id < (#[trigger] o.properties[k]).value < len,
        IRModel::Pair(p) => id < p.value < len,
        _ => true,
    }
}

/// Every item of an array and every value of a pair or of an object's pair
/// is a node that comes after the node converted.
pub proof fn lemma_representation_descends(t: TreeModel, id: int)
    requires
        well_formed(t),
    ensures
        representation(t, id) matches Some(ir) ==> descends(ir, id, t.len() as int),
{
    if 0 <= id < t.len() {
        lemma_items_descend(t, id, t[id].children.len() as int);
        lemma_members_descend(t, id, t[id].children.len() as int);
        if pair_at(t, id) is Some {
            let c = t[id].children[2];
            assert(id < c < t.len());
        }
    }
}

proof fn lemma_items_descend(t: TreeModel, id: int, upto: int)
    requires
        well_formed(t),
        0 <= id < t.len(),
        0 <= upto <= t[id].children.len(),
    ensures
        forall|k: int|
            0 <= k < items_upto(t, id, upto).len() ==> id < #[trigger] items_upto(
                t,
                id,
                upto,
            )[k] < t.len(),
    decreases upto,
{
    if upto > 0 {
        lemma_items_descend(t, id, upto - 1);
        let c = t[id].children[upto - 1];
        assert(id < c < t.len());
        let before = items_upto(t, id, upto - 1);
        let now = items_upto(t, id, upto);
        assert forall|k: int| 0 <= k < now.len() implies id < #[trigger] now[k] < t.len() by {
            if k < before.len() {
                assert(now[k] == before[k]);
            }
        }
    }
}

proof fn lemma_members_descend(t: TreeModel, id: int, upto: int)
    requires
        well_formed(t),
        0 <= id < t.len(),
        0 <= upto <= t[id].children.len(),
    ensures
        members_upto(t, id, upto) matches Some(pairs) ==> forall|k: int|
            0 <= k < pairs.len() ==> id < (#[trigger] pairs[k]).value < t.len(),
    decreases upto,
{
    if upto > 0 {
        lemma_members_descend(t, id, upto - 1);
        let c = t[id].children[upto - 1];
        assert(id < c < t.len());
        if member_at(t, id, c) is Some {
            let v = t[c].children[2];
            assert(c < v < t.len());
        }
    }
}

/// The pair that a node stands for.
pub fn convert_pair(tree: &SyntaxTree, node: usize) -> (r: Option<IRPair>)
    ensures
        match pair_at(tree@, node as int) {
            Some(pair) => r is Some && r.unwrap()@ == pair,
            None => r is None,
        },
{
    if node >= tree.len() {
        return None;
    }
    let key = tree.child(node, 0)?;
    let value = tree.child(node, 2)?;
    let start = tree.node(key).start();
    Some(
        IRPair::new(
            IRString::new(tree.node(key).get_text(), start, start),
            value,
            tree.node(node).start(),
            tree.node(node).end(),
        ),
    )
}

/// The string that a node stands for.
pub fn convert_string(tree: &SyntaxTree, node: usize) -> (r: Option<IRString>)
    ensures
        match string_at(tree@, node as int) {
            Some(string) => r is Some && r.unwrap()@ == string,
            None => r is None,
        },
{
    if node >= tree.len() {
        return None;
    }
    let n = tree.node(node);
    Some(IRString::new(n.get_text(), n.start(), n.end()))
}

/// The boolean that a node stands for.
pub fn convert_boolean(tree: &SyntaxTree, node: usize) -> (r: Option<IRBoolean>)
    ensures
        match boolean_at(tree@, node as int) {
            Some(boolean) => r is Some && r.unwrap()@ == boolean,
            None => r is None,
        },
{
    if node >= tree.len() {
        return None;
    }
    let n = tree.node(node);
    let contents = n.get_text();
    let yes = str_eq(contents.as_str(), "true");
    if !yes && !str_eq(contents.as_str(), "false") {
        return None;
    }
    Some(IRBoolean::new(yes, n.start(), n.end()))
}

/// The number that a node stands for.
pub fn convert_number(tree: &SyntaxTree, node: usize) -> (r: Option<IRNumber>)
    ensures
        match number_at(tree@, node as int) {
            Some(number) => r is Some && r.unwrap()@ == number,
            None => r is None,
        },
{
    if node >= tree.len() {
        return None;
    }
    let n = tree.node(node);
    let value = match n.number() {
        Some(d) => d.duplicate(),
        None => {
            return None;
        },
    };
    let is_integer = parses_as_i64(n.get_text().as_str());
    Some(IRNumber::new(value, is_integer, n.start(), n.end()))
}

fn is_object_punctuation(kind: &str) -> (r: bool)
    ensures
        r == object_punctuation(kind@),
{
    str_eq(kind, ",") || str_eq(kind, "{") || str_eq(kind, "}")
}

fn is_array_punctuation(kind: &str) -> (r: bool)
    ensures
        r == array_punctuation(kind@),
{
    str_eq(kind, ",") || str_eq(kind, "[") || str_eq(kind, "]")
}

/// The object that a node stands for.
pub fn convert_object(tree: &SyntaxTree, node: usize) -> (r: Option<IRObject>)
    ensures
        match object_at(tree@, node as int) {
            Some(object) => r is Some && r.unwrap()@ == object,
            None => r is None,
        },
{
    if node >= tree.len() {
        return None;
    }
    let n = tree.node(node);
    let start = n.start();
    let end = n.end();
    let count = n.child_count();
    let mut pairs: Vec<IRPair> = Vec::new();
    let mut i: usize = 0;
    while i < count
        invariant
            i <= count,
            node < tree@.len(),
            count == tree@[node as int].children.len(),
            start == tree@[node as int].start,
            end == tree@[node as int].end,
            members_upto(tree@, node as int, i as int) == Some(
                pairs@.map_values(|p: IRPair| p@),
            ),
        decreases count - i,
    {
        let ghost before = pairs@.map_values(|p: IRPair| p@);
        let c = tree.child(node, i).unwrap();
        assert(tree@[node as int].children[i + 1 - 1] == c);
        if !is_object_punctuation(tree.node(c).kind()) {
            let key = match tree.child(c, 0) {
                Some(k) => k,
                None => {
                    proof {
                        lemma_members_fail(tree@, node as int, i + 1, count as int);
                    }
                    return None;
                },
            };
            let value = match tree.child(c, 2) {
                Some(v) => v,
                None => {
                    proof {
                        lemma_members_fail(tree@, node as int, i + 1, count as int);
                    }
                    return None;
                },
            };
            let pair = IRPair::new(
                IRString::new(tree.node(key).get_text(), start, end),
                value,
                start,
                end,
            );
            pairs.push(pair);
            assert(pairs@.map_values(|p: IRPair| p@) =~= before.push(pair@));
        }
        i += 1;
    }
    Some(IRObject::new(pairs, start, end))
}

/// Once a child has no key or no value, no longer run of children gives
/// pairs.
proof fn lemma_members_fail(t: TreeModel, id: int, from: int, upto: int)
    requires
        from <= upto,
        members_upto(t, id, from) is None,
    ensures
        members_upto(t, id, upto) is None,
    decreases upto - from,
{
    if from < upto {
        lemma_members_fail(t, id, from, upto - 1);
    }
}

/// The array that a node stands for.
pub fn convert_array(tree: &SyntaxTree, node: usize) -> (r: Option<IRArray>)
    ensures
        match array_at(tree@, node as int) {
            Some(array) => r is Some && r.unwrap()@ == array,
            None => r is None,
        },
{
    if node >= tree.len() {
        return None;
    }
    let n = tree.node(node);
    let count = n.child_count();
    let mut items: Vec<usize> = Vec::new();
    let mut i: usize = 0;
    while i < count
        invariant
            i <= count,
            node < tree@.len(),
            count == tree@[node as int].children.len(),
            items_upto(tree@, node as int, i as int) == items@.map_values(|n: usize| n as int),
        decreases count - i,
    {
        let ghost before = items@.map_values(|n: usize| n as int);
        let c = tree.child(node, i).unwrap();
        assert(tree@[node as int].children[i + 1 - 1] == c);
        if !is_array_punctuation(tree.node(c).kind()) {
            items.push(c);
            assert(items@.map_values(|n: usize| n as int) =~= before.push(c as int));
        }
        i += 1;
    }
    Some(IRArray::new(items, n.start(), n.end()))
}

impl IR {
    /// What the node is to the validator; `None` where its kind is none of
    /// the seven, or where its parts are missing.
    pub fn new(tree: &SyntaxTree, node: usize) -> (r: Option<IR>)
        ensures
            match representation(tree@, node as int) {
                Some(ir) => r is Some && r.unwrap()@ == ir,
                None => r is None,
            },
            r matches Some(ir) ==> descends(ir@, node as int, tree@.len() as int),
    {
        if node >= tree.len() {
            return None;
        }
        tree.links_forward();
        proof {
            lemma_representation_descends(tree@, node as int);
        }
        let kind = tree.node(node).kind();
        if str_eq(kind, "pair") {
            let pair = convert_pair(tree, node)?;
            Some(IR::IRPair(pair))
        } else if str_eq(kind, "array") {
            let arr = convert_array(tree, node)?;
            Some(IR::IRArray(arr))
        } else if str_eq(kind, "number") {
            let num = convert_number(tree, node)?;
            Some(IR::IRNumber(num))
        } else if str_eq(kind, "string") {
            let str = convert_string(tree, node)?;
            Some(IR::IRString(str))
        } else if str_eq(kind, "object") {
            let obj = convert_object(tree, node)?;
            Some(IR::IRObject(obj))
        } else if str_eq(kind, "null") {
            Some(IR::IRNull(IRNull::new(tree.node(node).start(), tree.node(node).end())))
        } else if str_eq(kind, "true") || str_eq(kind, "false") {
            let boo = convert_boolean(tree, node)?;
            Some(IR::IRBoolean(boo))
        } else {
            None
        }
    }
}

} // verus!
