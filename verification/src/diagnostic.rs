//! Diagnostics: what a validation reports about a document.
use crate::syntax::Position;
use vstd::prelude::*;

verus! {

/// A span of a document, from `start` to `end`.
#[derive(Clone, Copy, Debug, PartialEq, Eq, Structural)]
pub struct Range {
    pub start: Position,
    pub end: Position,
}

impl Range {
    /// The span from `start` to `end`.
    pub fn new(start: Position, end: Position) -> (r: Range)
        ensures
            r == (Range { start, end }),
    {
        Range { start, end }
    }
}

/// A finding about a span of the document: a message for the reader and,
/// where a fix can be offered, a code that names it.
#[derive(Debug)]
pub struct Diagnostic {
    pub range: Range,
    pub message: String,
    pub code: Option<String>,
}

/// What a [`Diagnostic`] holds, as plain values.
pub ghost struct DiagnosticView {
    pub range: Range,
    pub message: Seq<char>,
    pub code: Option<Seq<char>>,
}

impl View for Diagnostic {
    type V = DiagnosticView;

    open spec fn view(&self) -> DiagnosticView {
        DiagnosticView {
            range: self.range,
            message: self.message@,
            code: match self.code {
                Some(c) => Some(c@),
                None => None,
            },
        }
    }
}

impl Clone for Diagnostic {
    fn clone(&self) -> (r: Diagnostic)
        ensures
            r@ == self@,
    {
        Diagnostic {
            range: self.range,
            message: self.message.clone(),
            code: match &self.code {
                Some(c) => Some(c.clone()),
                None => None,
            },
        }
    }
}

/// The diagnostic without a code that spans `start` to `end` and says
/// `message`.
pub open spec fn plain_diagnostic(start: Position, end: Position, message: Seq<char>)
    -> DiagnosticView {
    DiagnosticView { range: Range { start, end }, message, code: None }
}

/// A diagnostic without a code, from `start` to `end`, that says `error`.
pub fn to_diagnostic(start: Position, end: Position, error: String) -> (r: Diagnostic)
    ensures
        r@ == plain_diagnostic(start, end, error@),
{
    Diagnostic { range: Range::new(start, end), message: error, code: None }
}

/// Whether `found` is the diagnostic `expected`, or nothing where nothing is
/// expected.
pub open spec fn reports(found: Option<Diagnostic>, expected: Option<DiagnosticView>) -> bool {
    match expected {
        Some(d) => found is Some && found.unwrap()@ == d,
        None => found is None,
    }
}

/// The plain values of a list of diagnostics.
pub open spec fn diagnostic_views(list: Seq<Diagnostic>) -> Seq<DiagnosticView> {
    list.map_values(|d: Diagnostic| d@)
}

/// The list of one diagnostic where there is one, the empty list otherwise.
pub open spec fn optional(d: Option<DiagnosticView>) -> Seq<DiagnosticView> {
    match d {
        Some(d) => seq![d],
        None => Seq::empty(),
    }
}

/// Adds `found` to `list` where there is one.
pub fn push_found(list: &mut Vec<Diagnostic>, found: Option<Diagnostic>)
    ensures
        forall|expected: Option<DiagnosticView>|
            reports(found, expected) ==> diagnostic_views(final(list)@) == diagnostic_views(
                old(list)@,
            ) + optional(expected),
{
    let ghost before = diagnostic_views(list@);
    match found {
        Some(d) => {
            list.push(d);
            assert(diagnostic_views(list@) =~= before + seq![d@]);
        },
        None => {
            assert(before + Seq::<DiagnosticView>::empty() =~= before);
        },
    }
}

/// Moves the diagnostics of `more` to the end of `list`.
pub fn append_diagnostics(list: &mut Vec<Diagnostic>, more: Vec<Diagnostic>)
    ensures
        diagnostic_views(final(list)@) == diagnostic_views(old(list)@) + diagnostic_views(more@),
{
    let ghost before = diagnostic_views(list@);
    let mut more = more;
    let ghost added = diagnostic_views(more@);
    list.append(&mut more);
    assert(diagnostic_views(list@) =~= before + added);
}

} // verus!
