//! The keyword `pattern`.
use crate::diagnostic::{plain_diagnostic, reports, to_diagnostic, Diagnostic, DiagnosticView};
use crate::errors::{pattern_error, pattern_text};
use crate::formats::{pattern_matches, regex_matches};
use crate::ir::{IRString, StringModel};
use crate::json::{json_model, text_at, text_under, Json};
use serde_json::Value;
use vstd::prelude::*;

verus! {

/// What `pattern` reports of a string: that the pattern matches nowhere in
/// it. Nothing where the schema holds no text under that key, or where the
/// text is no regular expression.
pub open spec fn pattern_diagnostic(node: StringModel, schema: Json) -> Option<DiagnosticView> {
    match text_under(schema, "pattern"@) {
        Some(pattern) => if regex_matches(pattern, node.contents) == Some(false) {
            Some(plain_diagnostic(node.start, node.end, pattern_text(pattern, node.contents)))
        } else {
            None
        },
        None => None,
    }
}

/// What `pattern` reports of a string once it is known whether the pattern
/// matches: `matched` is `None` where the pattern is no regular expression.
pub fn pattern_outcome(node: &IRString, pattern: &str, matched: Option<bool>) -> (r: Option<
    Diagnostic,
>)
    ensures
        reports(
            r,
            if matched == Some(false) {
                Some(plain_diagnostic(node.start, node.end, pattern_text(pattern@, node.contents@)))
            } else {
                None
            },
        ),
{
    match matched {
        Some(false) => Some(
            to_diagnostic(node.start, node.end, pattern_error(pattern, node.contents.as_str())),
        ),
        _ => None,
    }
}

/// Holds a string against `pattern`.
pub fn validate_pattern(node: &IRString, sub_schema: &Value) -> (r: Option<Diagnostic>)
    ensures
        reports(r, pattern_diagnostic(node@, json_model(*sub_schema))),
{
    let pattern = text_at(sub_schema, "pattern")?;
    pattern_outcome(node, pattern, pattern_matches(pattern, node.contents.as_str()))
}

} // verus!
