//! The fix that is offered for a value that is not the one option of its
//! enumeration: put the option in its place.
use crate::diagnostic::{diagnostic_views, Diagnostic, DiagnosticView, Range};
use crate::keywords::json_enum::ENUM_CODE;
use crate::text::str_eq;
use vstd::prelude::*;

verus! {

/// A change to a document: the text to put in the place of a span.
pub struct TextEdit {
    pub range: Range,
    pub new_text: String,
}

/// A text edit as plain values.
pub ghost struct TextEditView {
    pub range: Range,
    pub new_text: Seq<char>,
}

impl View for TextEdit {
    type V = TextEditView;

    open spec fn view(&self) -> TextEditView {
        TextEditView { range: self.range, new_text: self.new_text@ }
    }
}

/// A fix that can be offered: its title, the diagnostics that it answers,
/// and the changes that it makes.
pub struct CodeAction {
    pub title: String,
    pub diagnostics: Vec<Diagnostic>,
    pub edits: Vec<TextEdit>,
}

/// The plain values of a list of edits.
pub open spec fn edit_views(list: Seq<TextEdit>) -> Seq<TextEditView> {
    list.map_values(|e: TextEdit| e@)
}

/// What the group `group` of `pattern` captures at the first place where
/// the pattern matches in `text`; `None` where the pattern does not compile,
/// matches nowhere, has no such group in the match, or captures bytes there
/// that are no text in UTF-8.
pub uninterp spec fn captured(pattern: Seq<char>, text: Seq<char>, group: usize) -> Option<
    Seq<char>,
>;

/// `regex::bytes::Regex::new`, `captures` and `Captures::get`: the text of
/// one group of the leftmost match, a function of the pattern, of the text
/// searched and of the number of the group.
#[verifier::external_body]
fn capture(pattern: &str, text: &str, group: usize) -> (r: Option<String>)
    ensures
        match captured(pattern@, text@, group) {
            Some(t) => r is Some && r.unwrap()@ == t,
            None => r is None,
        },
{
    let re = regex::bytes::Regex::new(pattern).ok()?;
    let found = re.captures(text.as_bytes())?;
    let part = found.get(group)?;
    std::str::from_utf8(part.as_bytes()).ok().map(|s| s.to_string())
}

/// The shape of the message for a value that is not the one option of its
/// enumeration; the option is its first group.
pub open spec fn single_option_message() -> Seq<char> {
    "^\".*\" must be \"(.*)\"$"@
}

/// The option that a message names as the one that its value must be.
pub open spec fn option_named(message: Seq<char>) -> Option<Seq<char>> {
    captured(single_option_message(), message, 1)
}

/// Whether a diagnostic carries the code of the fix.
pub open spec fn is_fixable(d: DiagnosticView) -> bool {
    d.code == Some(ENUM_CODE@)
}

/// Those of the first `upto` diagnostics that carry the code of the fix.
pub open spec fn fixable(list: Seq<DiagnosticView>, upto: int) -> Seq<DiagnosticView>
    decreases upto,
{
    if 0 < upto <= list.len() {
        if is_fixable(list[upto - 1]) {
            fixable(list, upto - 1).push(list[upto - 1])
        } else {
            fixable(list, upto - 1)
        }
    } else {
        Seq::empty()
    }
}

/// The changes for the first `upto` diagnostics: for each whose message
/// names an option, that option in the place of the span of the diagnostic.
pub open spec fn edits_for(list: Seq<DiagnosticView>, upto: int) -> Seq<TextEditView>
    decreases upto,
{
    if 0 < upto <= list.len() {
        match option_named(list[upto - 1].message) {
            Some(option) => edits_for(list, upto - 1).push(
                TextEditView { range: list[upto - 1].range, new_text: option },
            ),
            None => edits_for(list, upto - 1),
        }
    } else {
        Seq::empty()
    }
}

/// The change that answers a message: the option that it names, in the
/// place of `diagnostic_range`.
pub fn enum_conversion(message: &str, diagnostic_range: Range) -> (r: Option<TextEdit>)
    ensures
        match option_named(message@) {
            Some(option) => r is Some && r.unwrap()@ == (TextEditView {
                range: diagnostic_range,
                new_text: option,
            }),
            None => r is None,
        },
{
    match capture("^\".*\" must be \"(.*)\"$", message, 1) {
        Some(expected_text) => Some(TextEdit { range: diagnostic_range, new_text: expected_text }),
        None => None,
    }
}

/// The fix for the diagnostics that carry its code: `None` where none of
/// `diagnostics` does.
pub fn enum_codeaction(diagnostics: &Vec<Diagnostic>) -> (r: Option<CodeAction>)
    ensures
        match r {
            Some(action) => {
                let answered = fixable(diagnostic_views(diagnostics@), diagnostics@.len() as int);
                &&& answered.len() > 0
                &&& action.title@ == "Use suggested enum"@
                &&& diagnostic_views(action.diagnostics@) == answered
                &&& edit_views(action.edits@) == edits_for(answered, answered.len() as int)
            },
            None => fixable(diagnostic_views(diagnostics@), diagnostics@.len() as int).len() == 0,
        },
{
    let ghost all = diagnostic_views(diagnostics@);
    let mut enum_diagnostics: Vec<Diagnostic> = Vec::new();
    let mut i: usize = 0;
    assert(diagnostic_views(enum_diagnostics@) =~= Seq::empty());
    while i < diagnostics.len()
        invariant
            i <= diagnostics.len(),
            all == diagnostic_views(diagnostics@),
            diagnostic_views(enum_diagnostics@) == fixable(all, i as int),
        decreases diagnostics.len() - i,
    {
        let d = &diagnostics[i];
        assert(all[i as int] == d@);
        let carries = match &d.code {
            Some(code) => str_eq(code.as_str(), ENUM_CODE),
            None => false,
        };
        if carries {
            let ghost before = diagnostic_views(enum_diagnostics@);
            let copy = d.clone();
            enum_diagnostics.push(copy);
            assert(diagnostic_views(enum_diagnostics@) =~= before.push(d@));
        }
        i += 1;
    }
    if enum_diagnostics.len() == 0 {
        return None;
    }
    let ghost answered = diagnostic_views(enum_diagnostics@);
    let mut text_edits: Vec<TextEdit> = Vec::new();
    let mut k: usize = 0;
    assert(edit_views(text_edits@) =~= Seq::empty());
    while k < enum_diagnostics.len()
        invariant
            k <= enum_diagnostics.len(),
            answered == diagnostic_views(enum_diagnostics@),
            edit_views(text_edits@) == edits_for(answered, k as int),
        decreases enum_diagnostics.len() - k,
    {
        let diag = &enum_diagnostics[k];
        assert(answered[k as int] == diag@);
        if let Some(edit) = enum_conversion(diag.message.as_str(), diag.range) {
            let ghost before = edit_views(text_edits@);
            text_edits.push(edit);
            assert(edit_views(text_edits@) =~= before.push(edit@));
        }
        k += 1;
    }
    Some(
        CodeAction {
            title: String::from_str("Use suggested enum"),
            diagnostics: enum_diagnostics,
            edits: text_edits,
        },
    )
}

} // verus!
