//! The keyword `format`.
use crate::diagnostic::{plain_diagnostic, reports, to_diagnostic, Diagnostic, DiagnosticView};
use crate::formats::{
    date_time_parses, email_parses, hostname_parses, is_date_time, is_email, is_hostname, is_ipv4,
    is_ipv4_text, is_ipv6, is_ipv6_text, is_uri, uri_parses,
};
use crate::ir::{IRString, StringModel};
use crate::json::{json_model, text_at, text_under, Json};
use crate::text::str_eq;
use serde_json::Value;
use vstd::prelude::*;

verus! {

/// Whether `text` is written in the format that schemas name `format`;
/// `None` where the name is none of the six that are checked.
pub open spec fn conforms_to(format: Seq<char>, text: Seq<char>) -> Option<bool> {
    if format == "uri"@ {
        Some(uri_parses(text))
    } else if format == "date-time"@ {
        Some(date_time_parses(text))
    } else if format == "email"@ {
        Some(email_parses(text))
    } else if format == "hostname"@ {
        Some(hostname_parses(text))
    } else if format == "ipv4"@ {
        Some(is_ipv4_text(text))
    } else if format == "ipv6"@ {
        Some(is_ipv6_text(text))
    } else {
        None
    }
}

/// The message for a text that is not written in the format named.
pub open spec fn format_text(format: Seq<char>) -> Seq<char> {
    if format == "uri"@ {
        "Not a uri"@
    } else if format == "date-time"@ {
        "Not a date-time"@
    } else if format == "email"@ {
        "Not an email address"@
    } else if format == "hostname"@ {
        "Not a hostname"@
    } else if format == "ipv4"@ {
        "Not an ipv4 address"@
    } else {
        "Not an ipv6 address"@
    }
}

/// What `format` reports of a string: that it is not written in the format
/// named. Nothing where the schema holds no text under that key, or names a
/// format that is not checked.
pub open spec fn format_diagnostic(node: StringModel, schema: Json) -> Option<DiagnosticView> {
    match text_under(schema, "format"@) {
        Some(format) => if conforms_to(format, node.contents) == Some(false) {
            Some(plain_diagnostic(node.start, node.end, format_text(format)))
        } else {
            None
        },
        None => None,
    }
}

/// Whether a text is written in the format named; `None` where the name is
/// none of the six that are checked.
pub fn check_format(format: &str, text: &str) -> (r: Option<bool>)
    ensures
        r == conforms_to(format@, text@),
{
    if str_eq(format, "uri") {
        Some(is_uri(text))
    } else if str_eq(format, "date-time") {
        Some(is_date_time(text))
    } else if str_eq(format, "email") {
        Some(is_email(text))
    } else if str_eq(format, "hostname") {
        Some(is_hostname(text))
    } else if str_eq(format, "ipv4") {
        Some(is_ipv4(text))
    } else if str_eq(format, "ipv6") {
        Some(is_ipv6(text))
    } else {
        None
    }
}

/// What `format` reports of a string once it is known whether the string
/// conforms: `conforms` is `None` where the format is not checked.
pub fn format_outcome(node: &IRString, format: &str, conforms: Option<bool>) -> (r: Option<
    Diagnostic,
>)
    ensures
        reports(
            r,
            if conforms == Some(false) {
                Some(plain_diagnostic(node.start, node.end, format_text(format@)))
            } else {
                None
            },
        ),
{
    match conforms {
        Some(false) => {
            let message = if str_eq(format, "uri") {
                "Not a uri"
            } else if str_eq(format, "date-time") {
                "Not a date-time"
            } else if str_eq(format, "email") {
                "Not an email address"
            } else if str_eq(format, "hostname") {
                "Not a hostname"
            } else if str_eq(format, "ipv4") {
                "Not an ipv4 address"
            } else {
                "Not an ipv6 address"
            };
            Some(to_diagnostic(node.start, node.end, String::from_str(message)))
        },
        _ => None,
    }
}

/// Holds a string against `format`.
pub fn validate_format(node: &IRString, sub_schema: &Value) -> (r: Option<Diagnostic>)
    ensures
        reports(r, format_diagnostic(node@, json_model(*sub_schema))),
{
    let format = text_at(sub_schema, "format")?;
    format_outcome(node, format, check_format(format, node.contents.as_str()))
}

} // verus!
