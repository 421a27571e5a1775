//! The outcome of a validation and the way outcomes combine.
use crate::diagnostic::{diagnostic_views, Diagnostic, DiagnosticView};
use crate::json::{json_model, Json};
use crate::object::{NodeIdentifier, NodeIdentifierView};
use serde_json::Value;
use vstd::prelude::*;

verus! {

/// Anything that validates the document it was made for.
pub trait Parser {
    fn parse(&self) -> ParseResult;
}

/// The outcome of a validation: the diagnostics, and which schema fragment
/// was held against which node.
#[derive(Debug)]
pub struct ParseResult {
    pub errors: Vec<Diagnostic>,
    pub schema_matches: Vec<SchemaMatches>,
}

/// A node that was visited, and the schema fragment held against it.
#[derive(Debug)]
pub struct SchemaMatches {
    pub node: NodeIdentifier,
    pub schema: Value,
}

/// What a [`SchemaMatches`] holds, as plain values.
pub ghost struct SchemaMatchView {
    pub node: NodeIdentifierView,
    pub schema: Json,
}

impl View for SchemaMatches {
    type V = SchemaMatchView;

    open spec fn view(&self) -> SchemaMatchView {
        SchemaMatchView { node: self.node@, schema: json_model(self.schema) }
    }
}

/// What a [`ParseResult`] holds, as plain values.
pub ghost struct ResultView {
    pub errors: Seq<DiagnosticView>,
    pub schema_matches: Seq<SchemaMatchView>,
}

impl ResultView {
    /// The outcome without diagnostics and without matches.
    pub open spec fn empty() -> ResultView {
        ResultView { errors: Seq::empty(), schema_matches: Seq::empty() }
    }

    /// This outcome followed by `other`.
    pub open spec fn followed_by(self, other: ResultView) -> ResultView {
        ResultView {
            errors: self.errors + other.errors,
            schema_matches: self.schema_matches + other.schema_matches,
        }
    }
}

/// The plain values of a list of matches.
pub open spec fn match_views(list: Seq<SchemaMatches>) -> Seq<SchemaMatchView> {
    list.map_values(|m: SchemaMatches| m@)
}

impl View for ParseResult {
    type V = ResultView;

    open spec fn view(&self) -> ResultView {
        ResultView {
            errors: diagnostic_views(self.errors@),
            schema_matches: match_views(self.schema_matches@),
        }
    }
}

/// The plain values of a list of outcomes.
pub open spec fn result_views(list: Seq<ParseResult>) -> Seq<ResultView> {
    list.map_values(|r: ParseResult| r@)
}

/// The outcomes of `list`, one after another.
pub open spec fn all_of(list: Seq<ResultView>) -> ResultView
    decreases list.len(),
{
    if list.len() == 0 {
        ResultView::empty()
    } else {
        all_of(list.drop_last()).followed_by(list.last())
    }
}

/// Following an outcome with the empty one, or the empty one with an
/// outcome, changes nothing; and joining is associative.
pub proof fn lemma_then(a: ResultView, b: ResultView, c: ResultView)
    ensures
        a.followed_by(ResultView::empty()) == a,
        ResultView::empty().followed_by(a) == a,
        a.followed_by(b).followed_by(c) == a.followed_by(b.followed_by(c)),
{
    assert(a.followed_by(ResultView::empty()).errors =~= a.errors);
    assert(a.followed_by(ResultView::empty()).schema_matches =~= a.schema_matches);
    assert(ResultView::empty().followed_by(a).errors =~= a.errors);
    assert(ResultView::empty().followed_by(a).schema_matches =~= a.schema_matches);
    assert(a.followed_by(b).followed_by(c).errors =~= a.followed_by(b.followed_by(c)).errors);
    assert(a.followed_by(b).followed_by(c).schema_matches =~= a.followed_by(
        b.followed_by(c),
    ).schema_matches);
}

impl Default for ParseResult {
    fn default() -> (r: ParseResult)
        ensures
            r@ == ResultView::empty(),
    {
        let r = ParseResult::new(Vec::new(), Vec::new());
        assert(r@.errors =~= Seq::empty());
        assert(r@.schema_matches =~= Seq::empty());
        r
    }
}

impl ParseResult {
    /// The outcome with these diagnostics and these matches.
    pub fn new(errors: Vec<Diagnostic>, schema_matches: Vec<SchemaMatches>) -> (r: ParseResult)
        ensures
            r.errors == errors,
            r.schema_matches == schema_matches,
    {
        ParseResult { errors, schema_matches }
    }

    /// This outcome followed by `val`.
    pub fn merge(self, val: ParseResult) -> (r: ParseResult)
        ensures
            r@ == self@.followed_by(val@),
    {
        let mut errors = self.errors;
        let mut schema_matches = self.schema_matches;
        let mut more_errors = val.errors;
        let mut more_matches = val.schema_matches;
        errors.append(&mut more_errors);
        schema_matches.append(&mut more_matches);
        let r = ParseResult { errors, schema_matches };
        assert(r@.errors =~= self@.followed_by(val@).errors);
        assert(r@.schema_matches =~= self@.followed_by(val@).schema_matches);
        r
    }

    /// This outcome followed by each outcome of `val` in turn.
    pub fn merge_all(self, val: Vec<ParseResult>) -> (r: ParseResult)
        ensures
            r@ == self@.followed_by(all_of(result_views(val@))),
    {
        let ghost first = self@;
        let ghost all = result_views(val@);
        let mut acc = self;
        proof {
            lemma_then(first, first, first);
            assert(all.take(0) =~= Seq::empty());
        }
        for v in it: val
            invariant
                result_views(it.seq()) == all,
                acc@ == first.followed_by(all_of(all.take(it.index()))),
        {
            proof {
                let done = all.take(it.index());
                let next = all.take(it.index() + 1);
                assert(next.drop_last() =~= done);
                assert(next.last() == v@);
                lemma_then(first, all_of(done), v@);
            }
            acc = acc.merge(v);
        }
        assert(all.take(all.len() as int) =~= all);
        acc
    }
}

} // verus!
