//! The syntax tree that the validator walks: the nodes of a parsed document,
//! each with its kind, its span, its text, its parent and its children.
use crate::double::{Double, DoubleView};
use crate::text::{strip_quotes, without_quotes};
use vstd::prelude::*;

verus! {

/// A place in a document: a line and a column, both counted from zero.
#[derive(Clone, Copy, Debug, PartialEq, Eq, Structural)]
pub struct Position {
    pub line: u32,
    pub character: u32,
}

impl Position {
    /// The place at `line` and `character`.
    pub fn new(line: u32, character: u32) -> (r: Position)
        ensures
            r == (Position { line, character }),
    {
        Position { line, character }
    }
}

/// One node of a syntax tree.
pub struct SyntaxNode {
    kind: String,
    text: String,
    start: Position,
    end: Position,
    parent: Option<usize>,
    children: Vec<usize>,
    number: Option<Double>,
}

/// What a node holds, as plain values.
pub ghost struct NodeModel {
    /// The grammar's name for the node.
    pub kind: Seq<char>,
    /// The text that the node spans.
    pub text: Seq<char>,
    pub start: Position,
    pub end: Position,
    pub parent: Option<int>,
    pub children: Seq<int>,
    /// The number that the text denotes, where the node is a numeric
    /// literal.
    pub number: Option<DoubleView>,
}

impl View for SyntaxNode {
    type V = NodeModel;

    closed spec fn view(&self) -> NodeModel {
        NodeModel {
            kind: self.kind@,
            text: self.text@,
            start: self.start,
            end: self.end,
            parent: match self.parent {
                Some(p) => Some(p as int),
                None => None,
            },
            children: self.children@.map_values(|c: usize| c as int),
            number: match self.number {
                Some(d) => Some(d@),
                None => None,
            },
        }
    }
}

/// Text access that every kind of syntax node offers.
pub trait ASTNodeExt {
    /// The text that the node spans.
    spec fn raw_text(&self) -> Seq<char>;

    /// The text of the node without its double quotes.
    fn get_text(&self) -> (r: String)
        ensures
            r@ == without_quotes(self.raw_text()),
    ;
}

impl ASTNodeExt for SyntaxNode {
    open spec fn raw_text(&self) -> Seq<char> {
        self@.text
    }

    fn get_text(&self) -> (r: String) {
        strip_quotes(self.text.as_str())
    }
}

impl SyntaxNode {
    /// The grammar's name for the node.
    pub fn kind(&self) -> (r: &str)
        ensures
            r@ == self@.kind,
    {
        self.kind.as_str()
    }

    /// Where the node starts.
    pub fn start(&self) -> (r: Position)
        ensures
            r == self@.start,
    {
        self.start
    }

    /// Where the node ends.
    pub fn end(&self) -> (r: Position)
        ensures
            r == self@.end,
    {
        self.end
    }

    /// How many children the node has.
    pub fn child_count(&self) -> (r: usize)
        ensures
            r == self@.children.len(),
    {
        self.children.len()
    }

    /// The number that the node's text denotes, where the node is a numeric
    /// literal.
    pub fn number(&self) -> (r: Option<&Double>)
        ensures
            match self@.number {
                Some(d) => r is Some && r.unwrap()@ == d,
                None => r is None,
            },
    {
        match &self.number {
            Some(d) => Some(d),
            None => None,
        }
    }
}

/// A tree as the sequence of its nodes; a node's index is its identity.
pub type TreeModel = Seq<NodeModel>;

/// Whether every link of the tree points forward: a child comes after its
/// parent, names that parent, and the children of a node come in ascending
/// order.
pub open spec fn well_formed(t: TreeModel) -> bool {
    &&& forall|i: int, k: int|
        0 <= i < t.len() && 0 <= k < t[i].children.len() ==> {
            &&& i < (#[trigger] t[i].children[k]) < t.len()
            &&& t[t[i].children[k]].parent == Some(i)
        }
    &&& forall|i: int, j: int, k: int|
        0 <= i < t.len() && 0 <= j < k < t[i].children.len() ==> (#[trigger] t[i].children[j]) < (
        #[trigger] t[i].children[k])
    &&& forall|i: int|
        0 <= i < t.len() ==> ((#[trigger] t[i].parent) matches Some(p) ==> 0 <= p < i)
}

/// The `index`-th child of `node`.
pub open spec fn child_of(t: TreeModel, node: int, index: int) -> Option<int> {
    if 0 <= node < t.len() && 0 <= index < t[node].children.len() {
        Some(t[node].children[index])
    } else {
        None
    }
}

/// The sibling that follows `node` among the children of its parent.
pub open spec fn next_sibling_of(t: TreeModel, node: int) -> Option<int> {
    if 0 <= node < t.len() {
        match t[node].parent {
            Some(p) => if 0 <= p < t.len() && t[p].children.contains(node) {
                child_of(t, p, t[p].children.index_of(node) + 1)
            } else {
                None
            },
            None => None,
        }
    } else {
        None
    }
}

/// The text of `node` without its double quotes.
pub open spec fn text_of(t: TreeModel, node: int) -> Seq<char> {
    without_quotes(t[node].text)
}

/// A syntax tree. Nodes are added parent first, so that every node comes
/// after its parent; the first node is the root.
pub struct SyntaxTree {
    nodes: Vec<SyntaxNode>,
}

impl View for SyntaxTree {
    type V = TreeModel;

    closed spec fn view(&self) -> TreeModel {
        self.nodes@.map_values(|n: SyntaxNode| n@)
    }
}

impl SyntaxTree {
    #[verifier::type_invariant]
    spec fn inv(self) -> bool {
        well_formed(self@)
    }

    /// The tree without nodes.
    pub fn new() -> (r: SyntaxTree)
        ensures
            r@.len() == 0,
    {
        let r = SyntaxTree { nodes: Vec::new() };
        assert(r@.len() == 0);
        r
    }

    /// The number of nodes.
    pub fn len(&self) -> (r: usize)
        ensures
            r == self@.len(),
    {
        self.nodes.len()
    }

    /// States what every tree satisfies, for the proofs of its callers; at
    /// run time it does nothing.
    pub fn links_forward(&self)
        ensures
            well_formed(self@),
    {
        proof {
            use_type_invariant(self);
        }
    }

    /// The node at `index`.
    pub fn node(&self, index: usize) -> (r: &SyntaxNode)
        requires
            index < self@.len(),
        ensures
            r@ == self@[index as int],
    {
        &self.nodes[index]
    }

    /// The parent of the node at `index`: a node before it.
    pub fn parent(&self, index: usize) -> (r: Option<usize>)
        requires
            index < self@.len(),
        ensures
            match r {
                Some(p) => self@[index as int].parent == Some(p as int) && p < index,
                None => self@[index as int].parent is None,
            },
    {
        proof {
            use_type_invariant(self);
        }
        self.nodes[index].parent
    }

    /// The `k`-th child of the node at `index`: a node after it.
    pub fn child(&self, index: usize, k: usize) -> (r: Option<usize>)
        requires
            index < self@.len(),
        ensures
            match r {
                Some(c) => child_of(self@, index as int, k as int) == Some(c as int) && index < c
                    < self@.len(),
                None => child_of(self@, index as int, k as int) is None,
            },
    {
        proof {
            use_type_invariant(self);
        }
        let node = &self.nodes[index];
        if k < node.children.len() {
            Some(node.children[k])
        } else {
            None
        }
    }

    /// The sibling that follows the node at `index`: a node after it.
    pub fn next_sibling(&self, index: usize) -> (r: Option<usize>)
        requires
            index < self@.len(),
        ensures
            match r {
                Some(c) => next_sibling_of(self@, index as int) == Some(c as int) && index < c
                    < self@.len(),
                None => next_sibling_of(self@, index as int) is None,
            },
    {
        proof {
            use_type_invariant(self);
        }
        let p = match self.nodes[index].parent {
            Some(p) => p,
            None => {
                return None;
            },
        };
        let siblings = &self.nodes[p].children;
        let ghost list = self@[p as int].children;
        let mut k: usize = 0;
        while k < siblings.len()
            invariant
                k <= siblings.len(),
                well_formed(self@),
                0 <= p < index < self@.len(),
                list == self@[p as int].children,
                list == siblings@.map_values(|c: usize| c as int),
                forall|j: int| 0 <= j < k ==> list[j] != index,
            decreases siblings.len() - k,
        {
            if siblings[k] == index {
                proof {
                    assert(list[k as int] == index);
                    assert(list.contains(index as int));
                    let found = list.index_of(index as int);
                    // The children ascend, so the node stands at one place only.
                    assert(found == k) by {
                        if found < k {
                        } else if found > k {
                            assert(list[k as int] < list[found]);
                        }
                    }
                    if k + 1 < list.len() {
                        assert(list[k as int] < list[k + 1]);
                    }
                }
                return if k + 1 < siblings.len() {
                    Some(siblings[k + 1])
                } else {
                    None
                };
            }
            k += 1;
        }
        proof {
            if list.contains(index as int) {
                let found = list.index_of(index as int);
                assert(list[found] == index);
            }
        }
        None
    }

    /// Adds a node under `parent`, after the children that `parent` has
    /// already, and returns its index; as the root where `parent` is `None`.
    /// Nothing is added, and `None` returned, where `parent` is no node of
    /// the tree.
    pub fn add(
        &mut self,
        parent: Option<usize>,
        kind: &str,
        text: &str,
        start: Position,
        end: Position,
        number: Option<Double>,
    ) -> (r: Option<usize>)
        ensures
            match parent {
                Some(p) if p >= old(self)@.len() => r is None && final(self)@ == old(self)@,
                _ => {
                    &&& r == Some(old(self)@.len() as usize)
                    &&& final(self)@.len() == old(self)@.len() + 1
                    &&& final(self)@.last() == (NodeModel {
                        kind: kind@,
                        text: text@,
                        start,
                        end,
                        parent: match parent {
                            Some(p) => Some(p as int),
                            None => None,
                        },
                        children: Seq::empty(),
                        number: match number {
                            Some(d) => Some(d@),
                            None => None,
                        },
                    })
                    &&& forall|i: int|
                        0 <= i < old(self)@.len() ==> #[trigger] final(self)@[i] == (if parent
                            == Some(i as usize) {
                            NodeModel {
                                children: old(self)@[i].children.push(old(self)@.len() as int),
                                ..old(self)@[i]
                            }
                        } else {
                            old(self)@[i]
                        })
                },
            },
    {
        proof {
            use_type_invariant(&*self);
        }
        let id = self.nodes.len();
        if let Some(p) = parent {
            if p >= id {
                return None;
            }
        }
        let node = SyntaxNode {
            kind: String::from_str(kind),
            text: String::from_str(text),
            start,
            end,
            parent,
            children: Vec::new(),
            number,
        };
        assert(node@.children =~= Seq::<int>::empty());
        let ghost before = self@;
        let mut taken = SyntaxTree { nodes: Vec::new() };
        assert(taken@.len() == 0);
        core::mem::swap(self, &mut taken);
        let SyntaxTree { nodes } = taken;
        let mut nodes = nodes;
        assert(nodes@.map_values(|n: SyntaxNode| n@) == before);
        nodes.push(node);
        let ghost pushed = nodes@;
        if let Some(p) = parent {
            nodes[p].children.push(id);
            assert(nodes@.len() == pushed.len());
            assert(forall|i: int| 0 <= i < pushed.len() && i != p ==> nodes@[i] == pushed[i]);
            assert(nodes@[p as int].children@ == pushed[p as int].children@.push(id));
            assert(nodes@[p as int]@.children =~= pushed[p as int]@.children.push(id as int));
            assert(nodes@[p as int]@ == (NodeModel {
                children: pushed[p as int]@.children.push(id as int),
                ..pushed[p as int]@
            }));
        }
        let ghost after = nodes@.map_values(|n: SyntaxNode| n@);
        assert(after.len() == before.len() + 1);
        assert(after.last() == node@);
        assert forall|i: int| 0 <= i < before.len() implies #[trigger] after[i] == (if parent
            == Some(i as usize) {
            NodeModel { children: before[i].children.push(before.len() as int), ..before[i] }
        } else {
            before[i]
        }) by {
            assert(pushed[i]@ == before[i]);
        }
        assert(well_formed(after)) by {
            assert forall|i: int, k: int|
                0 <= i < after.len() && 0 <= k < after[i].children.len() implies {
                &&& i < (#[trigger] after[i].children[k]) < after.len()
                &&& after[after[i].children[k]].parent == Some(i)
            } by {
                if i < before.len() {
                    if parent == Some(i as usize) && k == before[i].children.len() {
                    } else {
                        assert(after[i].children[k] == before[i].children[k]);
                        let c = before[i].children[k];
                        assert(i < c < before.len());
                        assert(before[c].parent == Some(i));
                    }
                }
            }
            assert forall|i: int, j: int, k: int|
                0 <= i < after.len() && 0 <= j < k < after[i].children.len() implies (
            #[trigger] after[i].children[j]) < (#[trigger] after[i].children[k]) by {
                if i < before.len() {
                    assert(after[i].children[j] == before[i].children[j]);
                    if parent == Some(i as usize) && k == before[i].children.len() {
                    } else {
                        assert(after[i].children[k] == before[i].children[k]);
                    }
                }
            }
            assert forall|i: int| 0 <= i < after.len() implies (
            (#[trigger] after[i].parent) matches Some(p) ==> 0 <= p < i) by {
                if i < before.len() {
                    assert(before[i].parent == after[i].parent);
                }
            }
        }
        *self = SyntaxTree { nodes };
        Some(id)
    }
}

} // verus!
