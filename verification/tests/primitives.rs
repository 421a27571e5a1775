use awsdocuments_language_server::codeaction::{enum_codeaction, enum_conversion};
use awsdocuments_language_server::diagnostic::{to_diagnostic, Diagnostic, Range};
use awsdocuments_language_server::double::{
    has_zero_remainder, is_at_most, is_less, is_same, Double,
};
use awsdocuments_language_server::errors::{
    additional_items_error, additional_properties_error, enum_error, expected_items_error,
    type_error,
};
use awsdocuments_language_server::formats::{is_ipv4, is_ipv6, pattern_matches, split};
use awsdocuments_language_server::ir::{IRString, IR, IRNull};
use awsdocuments_language_server::json::{get_number, size_of, text_at};
use awsdocuments_language_server::keywords::format::{check_format, validate_format};
use awsdocuments_language_server::keywords::pattern::validate_pattern;
use awsdocuments_language_server::syntax::Position;
use awsdocuments_language_server::text::{
    chars_of, decimal_string, insert_sorted, join, parses_as_i64, str_eq, str_lt, strip_quotes,
};
use awsdocuments_language_server::values::{
    describe, matches_type, new_schema_ref, values_equal, JSONValues,
};
use serde_json::Value;

fn json(text: &str) -> Value {
    serde_json::from_str(text).unwrap()
}

fn samples() -> Vec<f64> {
    vec![
        0.0,
        -0.0,
        1.0,
        -1.0,
        1.5,
        3.0,
        4.0,
        5.0,
        35.0,
        0.1,
        0.3,
        0.0075,
        0.01,
        1e-320,
        4e-324,
        -4e-324,
        2.2250738585072014e-308,
        1e308,
        -1e308,
        1.7976931348623157e308,
        9007199254740992.0,
        9007199254740993.0,
        12391239123.0,
        1e16,
        1e-7,
        f64::INFINITY,
        f64::NEG_INFINITY,
        f64::NAN,
        -f64::NAN,
        2.0,
        1024.0,
        1e300,
        3e-310,
        6e-310,
    ]
}

#[test]
fn numbers_compare_as_doubles_do() {
    for a in samples() {
        for b in samples() {
            assert_eq!(is_less(a.to_bits(), b.to_bits()), a < b, "{} < {}", a, b);
            assert_eq!(is_at_most(a.to_bits(), b.to_bits()), a <= b, "{} <= {}", a, b);
            assert_eq!(is_same(a.to_bits(), b.to_bits()), a == b, "{} == {}", a, b);
        }
    }
}

#[test]
fn remainders_are_zero_where_those_of_doubles_are() {
    for a in samples() {
        for b in samples() {
            assert_eq!(
                has_zero_remainder(a.to_bits(), b.to_bits()),
                a % b == 0.0,
                "{} % {}",
                a,
                b
            );
        }
    }
}

#[test]
fn a_large_number_may_fail_to_divide_exactly() {
    // The remainder is taken of the doubles, not of the decimals written:
    // 0.0075 divides by 0.0001 on paper, and not as doubles.
    let value: f64 = 0.0075;
    let divisor: f64 = 0.0001;
    assert!(value % divisor != 0.0);
    assert!(!has_zero_remainder(value.to_bits(), divisor.to_bits()));
    let big: f64 = 1e308;
    assert!(has_zero_remainder(big.to_bits(), (0.5f64).to_bits()));
}

#[test]
fn double_methods_follow_the_bits() {
    let three = Double::new((3.0f64).to_bits(), "3".to_string(), "3.0".to_string());
    let four = Double::new((4.0f64).to_bits(), "4".to_string(), "4.0".to_string());
    assert!(three.lt(&four));
    assert!(!four.lt(&three));
    assert!(three.le(&three));
    assert!(three.equals(&three.duplicate()));
    assert!(!three.equals(&four));
    assert!(!three.is_multiple_of(&four));
    assert!(four.is_multiple_of(&Double::new(
        (2.0f64).to_bits(),
        "2".to_string(),
        "2.0".to_string()
    )));
    assert_eq!(three.duplicate().debug, "3.0");
    assert_eq!(three.duplicate().shown, "3");
}

#[test]
fn integer_literals_are_those_that_parse() {
    for text in [
        "0",
        "5",
        "-5",
        "+5",
        "007",
        "9223372036854775807",
        "9223372036854775808",
        "-9223372036854775808",
        "-9223372036854775809",
        "99999999999999999999999999",
        "000000000000000000000000000000000001",
        "",
        "-",
        "+",
        "5.0",
        "1e3",
        " 5",
        "5 ",
        "--5",
        "0x10",
        "١٢",
    ] {
        assert_eq!(parses_as_i64(text), text.parse::<i64>().is_ok(), "{:?}", text);
    }
}

#[test]
fn decimals_are_written_as_the_formatter_writes_them() {
    for n in [0usize, 1, 9, 10, 11, 99, 100, 101, 12345, 4294967295, usize::MAX] {
        assert_eq!(decimal_string(n), format!("{:#?}", n));
    }
}

#[test]
fn text_helpers() {
    assert_eq!(strip_quotes("\"a\\\"b\" \"\""), "a\\b ");
    assert_eq!(strip_quotes(""), "");
    assert_eq!(strip_quotes("héllo \"wörld\""), "héllo wörld");
    assert_eq!(chars_of("héllo"), vec!['h', 'é', 'l', 'l', 'o']);
    assert_eq!(chars_of("añ").len(), 2);
    assert!(str_eq("abc", "abc"));
    assert!(!str_eq("abc", "abd"));
    assert!(!str_eq("abc", "ab"));
    assert!(str_eq("", ""));
    assert_eq!(join(&vec![], ", "), "");
    assert_eq!(join(&vec!["a".to_string()], ", "), "a");
    assert_eq!(
        join(&vec!["a".to_string(), "".to_string(), "c".to_string()], ", "),
        "a, , c"
    );
}

#[test]
fn strings_are_ordered_by_their_bytes() {
    let words = ["", "a", "ab", "b", "B", "é", "z", "aa", "Zebra", "apple", "10", "9"];
    for a in words {
        for b in words {
            assert_eq!(str_lt(a, b), a < b, "{:?} < {:?}", a, b);
        }
    }
}

#[test]
fn sorted_insertion_keeps_order_and_drops_repeats() {
    let mut list: Vec<String> = Vec::new();
    for word in ["foo", "bar", "baz", "foo", "a", "zz", "bar", "m"] {
        insert_sorted(&mut list, word.to_string());
    }
    assert_eq!(list, vec!["a", "bar", "baz", "foo", "m", "zz"]);
}

#[test]
fn messages() {
    assert_eq!(
        additional_items_error(2, 5),
        "The array should have 2 items or less. Found 5"
    );
    assert_eq!(
        additional_properties_error("extra"),
        "!\"extra\" was declared but shouldn't be"
    );
    assert_eq!(expected_items_error(1, 3), "Expected 1 items but found 3");
    assert_eq!(
        type_error("string", "number"),
        "Incorrect type. Expected \"string\" but found \"number\""
    );
    assert_eq!(
        type_error("a\"b", "c\nd"),
        format!(
            "Incorrect type. Expected {:#?} but found {:#?}",
            "a\"b", "c\nd"
        )
    );
    assert_eq!(
        enum_error(&vec!["1".to_string()], "10".to_string()),
        "\"10\" must be \"1\""
    );
    assert_eq!(
        enum_error(&vec!["1".to_string(), "2".to_string()], "10".to_string()),
        "\"10\" must be one of \"1, 2\""
    );
    assert_eq!(enum_error(&vec![], "10".to_string()), "\"10\" must be one of \"\"");
}

#[test]
fn ipv4_addresses() {
    for good in ["0.0.0.0", "127.0.0.1", "255.255.255.255", "1.2.3.4", "192.168.1.10"] {
        assert!(is_ipv4(good), "{}", good);
    }
    for bad in [
        "",
        "1.2.3",
        "1.2.3.4.5",
        "256.1.1.1",
        "1.2.3.256",
        "01.2.3.4",
        "1.2.3.04",
        "1.2.3.",
        ".1.2.3",
        "1..2.3",
        "a.b.c.d",
        "1.2.3.4 ",
        " 1.2.3.4",
        "1.2.3.-4",
        "1.2.3.+4",
        "0127.0.0.1",
        "1111.1.1.1",
        "::1",
        "١.2.3.4",
    ] {
        assert!(!is_ipv4(bad), "{}", bad);
    }
}

#[test]
fn ipv6_addresses() {
    for good in [
        "::",
        "::1",
        "1::",
        "1:2:3:4:5:6:7:8",
        "1:2:3:4:5:6:7::",
        "::2:3:4:5:6:7:8",
        "1::8",
        "1:2::7:8",
        "fe80::1",
        "FE80::ABCD",
        "2001:db8:85a3:0:0:8a2e:370:7334",
        "2001:0db8:85a3:0000:0000:8a2e:0370:7334",
        "::ffff:1.2.3.4",
        "1:2:3:4:5:6:1.2.3.4",
        "::1.2.3.4",
        "1::1.2.3.4",
        "1:2:3:4:5::1.2.3.4",
        "0:0:0:0:0:0:0:0",
    ] {
        assert!(is_ipv6(good), "{}", good);
    }
    for bad in [
        "",
        ":",
        ":::",
        "1",
        "1:2",
        "1:2:3:4:5:6:7",
        "1:2:3:4:5:6:7:8:9",
        "1:2:3:4:5:6:7:8::",
        "::1:2:3:4:5:6:7:8",
        "1::2::3",
        ":1",
        "1:",
        ":1:2:3:4:5:6:7",
        "1:2:3:4:5:6:7:",
        "12345::",
        "g::",
        "1.2.3.4",
        "1.2.3.4::",
        "1:2:3:4:5:6:7:1.2.3.4",
        "1:2:3:4:5:6::1.2.3.4",
        "1:2:3:4:5:1.2.3.4",
        "::1.2.3",
        "::1.2.3.256",
        "::01.2.3.4",
        "1.2.3.4:1::",
        "::1 ",
        " ::1",
        "fe80::1%eth0",
        "[::1]",
        "1:2:3:4:5:6:7:8:",
        "::ffff:1.2.3.4:1",
    ] {
        assert!(!is_ipv6(bad), "{}", bad);
    }
}

#[test]
fn fields_are_cut_at_the_separator() {
    let parts = split(&chars_of("a::bc:"), ':');
    let texts: Vec<String> = parts.iter().map(|p| p.iter().collect()).collect();
    assert_eq!(texts, vec!["a", "", "bc", ""]);
    assert_eq!(split(&chars_of(""), ':').len(), 1);
}

#[test]
fn patterns_match_anywhere_and_may_not_compile() {
    assert_eq!(pattern_matches("^a*$", "aaa"), Some(true));
    assert_eq!(pattern_matches("^a*$", "abc"), Some(false));
    assert_eq!(pattern_matches("b", "abc"), Some(true));
    assert_eq!(pattern_matches("(", "abc"), None);
    assert_eq!(pattern_matches("abc", "^a*$"), Some(false));
}

fn string(contents: &str) -> IRString {
    IRString::new(
        String::from(contents),
        Position::new(0, 0),
        Position::new(0, 4),
    )
}

#[test]
fn a_pattern_that_does_not_compile_is_no_constraint() {
    assert!(validate_pattern(&string("abc"), &json(r#"{"pattern": "("}"#)).is_none());
    assert!(validate_pattern(&string("abc"), &json(r#"{"pattern": false}"#)).is_none());
    assert!(validate_pattern(&string("abc"), &json(r#"{"pattern": "b"}"#)).is_none());
    assert!(validate_pattern(&string("abc"), &json(r#"{}"#)).is_none());
    assert!(validate_pattern(&string("abc"), &json(r#"true"#)).is_none());
    let found = validate_pattern(&string("abc"), &json(r#"{"pattern": "^b"}"#)).unwrap();
    assert_eq!(found.message, "Expected \"^b\" to match \"abc\"");
    assert_eq!(found.range.end, Position::new(0, 4));
    assert_eq!(found.code, None);
}

fn format_message(format: &str, text: &str) -> Option<String> {
    let schema = serde_json::Value::Object(
        vec![("format".to_string(), Value::String(format.to_string()))]
            .into_iter()
            .collect(),
    );
    validate_format(&string(text), &schema).map(|d| d.message)
}

#[test]
fn formats() {
    assert_eq!(format_message("uri", "http://example.com/a?b#c"), None);
    assert_eq!(format_message("uri", "mailto:someone@example.com"), None);
    assert_eq!(format_message("uri", "/relative/path"), Some("Not a uri".to_string()));
    assert_eq!(format_message("uri", "not a uri"), Some("Not a uri".to_string()));
    assert_eq!(format_message("date-time", "1963-06-19T08:30:06.283185Z"), None);
    assert_eq!(format_message("date-time", "1985-04-12T23:20:50+01:00"), None);
    assert_eq!(
        format_message("date-time", "06/19/1963 08:30:06 PST"),
        Some("Not a date-time".to_string())
    );
    assert_eq!(
        format_message("date-time", "1963-06-19"),
        Some("Not a date-time".to_string())
    );
    assert_eq!(format_message("email", "joe.bloggs@example.com"), None);
    assert_eq!(
        format_message("email", "2962"),
        Some("Not an email address".to_string())
    );
    assert_eq!(
        format_message("email", "joe.bloggs@"),
        Some("Not an email address".to_string())
    );
    assert_eq!(format_message("hostname", "www.example.com"), None);
    assert_eq!(
        format_message("hostname", "-a-host-name-that-starts-with--"),
        Some("Not a hostname".to_string())
    );
    assert_eq!(
        format_message("hostname", "not_a_valid_host_name"),
        Some("Not a hostname".to_string())
    );
    assert_eq!(format_message("ipv4", "192.168.0.1"), None);
    assert_eq!(
        format_message("ipv4", "127.0.0.0.1"),
        Some("Not an ipv4 address".to_string())
    );
    assert_eq!(
        format_message("ipv4", "::1"),
        Some("Not an ipv4 address".to_string())
    );
    assert_eq!(format_message("ipv6", "::1"), None);
    assert_eq!(
        format_message("ipv6", "12345::"),
        Some("Not an ipv6 address".to_string())
    );
    assert_eq!(
        format_message("ipv6", "127.0.0.1"),
        Some("Not an ipv6 address".to_string())
    );
    assert_eq!(format_message("regex", "("), None);
    assert_eq!(format_message("unknown", "anything"), None);
    assert_eq!(check_format("unknown", "anything"), None);
    assert_eq!(check_format("ipv4", "1.2.3.4"), Some(true));
    assert_eq!(check_format("uri", "x"), Some(false));
    assert!(validate_format(&string("x"), &json(r#"{"format": 5}"#)).is_none());
    assert!(validate_format(&string("x"), &json(r#"{}"#)).is_none());
}

#[test]
fn schema_accessors() {
    let schema = json(
        r#"{"a": 5, "b": -1, "c": 2.5, "d": "text", "e": 18446744073709551615, "f": 1e3, "g": 3.0}"#,
    );
    assert_eq!(size_of(&schema, "a"), Some(5));
    assert_eq!(size_of(&schema, "b"), None);
    assert_eq!(size_of(&schema, "c"), None);
    assert_eq!(size_of(&schema, "d"), None);
    assert_eq!(size_of(&schema, "e"), None);
    assert_eq!(size_of(&schema, "g"), None);
    assert_eq!(size_of(&schema, "missing"), None);
    assert_eq!(size_of(&json("[1]"), "a"), None);
    assert_eq!(text_at(&schema, "d"), Some("text"));
    assert_eq!(text_at(&schema, "a"), None);
    let five = get_number(&json("5")).unwrap();
    assert_eq!(five.bits, (5.0f64).to_bits());
    assert_eq!(five.shown, "5");
    assert_eq!(five.debug, "5.0");
    let fraction = get_number(&json("2.5")).unwrap();
    assert_eq!(fraction.bits, (2.5f64).to_bits());
    assert_eq!(fraction.debug, "2.5");
    let negative = get_number(&json("-7")).unwrap();
    assert_eq!(negative.bits, (-7.0f64).to_bits());
    assert!(get_number(&json("18446744073709551615")).is_none());
    assert!(get_number(&json("\"5\"")).is_none());
    assert!(get_number(&json("null")).is_none());
}

#[test]
fn schema_references() {
    assert_eq!(new_schema_ref(&json("true")), Some(json("true")));
    assert_eq!(new_schema_ref(&json("{\"a\": 1}")), Some(json("{\"a\": 1}")));
    assert_eq!(new_schema_ref(&json("5")), None);
    assert_eq!(new_schema_ref(&json("[true]")), None);
    assert_eq!(new_schema_ref(&json("null")), None);
}

#[test]
fn kinds_and_types() {
    let text = IR::IRString(string("abc"));
    assert_eq!(text.get_kind(), "string");
    assert_eq!(text.get_start(), Position::new(0, 0));
    assert_eq!(text.get_end(), Position::new(0, 4));
    assert!(matches_type(&text, "string"));
    assert!(!matches_type(&text, "integer"));
    let null = IR::IRNull(IRNull::new(Position::new(1, 2), Position::new(3, 4)));
    assert_eq!(null.get_kind(), "null");
    assert!(matches_type(&null, "null"));
    assert!(!matches_type(&null, "string"));
    assert_eq!(null.get_start(), Position::new(1, 2));
}

#[test]
fn decoded_values_compare_by_what_they_hold() {
    let one = || JSONValues::Number("1".to_string());
    let text_one = || JSONValues::String("1".to_string());
    assert!(values_equal(&one(), &one()));
    assert!(!values_equal(&one(), &text_one()));
    assert!(!values_equal(&JSONValues::Null, &JSONValues::String("null".to_string())));
    assert!(values_equal(&JSONValues::Null, &JSONValues::Null));
    assert!(!values_equal(&JSONValues::Boolean(true), &JSONValues::Boolean(false)));
    let first = JSONValues::Object(vec![
        ("a".to_string(), one()),
        ("b".to_string(), JSONValues::Array(vec![one(), text_one()])),
    ]);
    let second = JSONValues::Object(vec![
        ("b".to_string(), JSONValues::Array(vec![one(), text_one()])),
        ("a".to_string(), one()),
    ]);
    let third = JSONValues::Object(vec![
        ("b".to_string(), JSONValues::Array(vec![text_one(), one()])),
        ("a".to_string(), one()),
    ]);
    let fourth = JSONValues::Object(vec![("a".to_string(), one())]);
    assert!(values_equal(&first, &second));
    assert!(values_equal(&second, &first));
    assert!(!values_equal(&first, &third));
    assert!(!values_equal(&first, &fourth));
    assert!(!values_equal(&fourth, &first));
    assert!(!values_equal(
        &JSONValues::Array(vec![one()]),
        &JSONValues::Array(vec![one(), one()])
    ));
    assert!(values_equal(&JSONValues::Array(vec![]), &JSONValues::Array(vec![])));
    assert!(!values_equal(&JSONValues::Array(vec![]), &JSONValues::Object(vec![])));
}

#[test]
fn decoded_values_are_written_one_item_to_a_line() {
    assert_eq!(describe(&JSONValues::String("a b".to_string())), "a b");
    assert_eq!(describe(&JSONValues::Number("2.5".to_string())), "2.5");
    assert_eq!(describe(&JSONValues::Boolean(true)), "true");
    assert_eq!(describe(&JSONValues::Null), "null");
    assert_eq!(describe(&JSONValues::Array(vec![])), "Array []");
    assert_eq!(describe(&JSONValues::Object(vec![])), "Object {}");
    let nested = JSONValues::Object(vec![
        (
            "a".to_string(),
            JSONValues::Array(vec![
                JSONValues::Number("1".to_string()),
                JSONValues::String("two\nlines".to_string()),
            ]),
        ),
        ("b".to_string(), JSONValues::Null),
    ]);
    assert_eq!(
        describe(&nested),
        "Object {\n    \"a\": Array [\n        1,\n        two\n        lines,\n    ],\n    \"b\": null,\n}"
    );
}

fn coded(message: &str, code: Option<&str>, line: u32) -> Diagnostic {
    Diagnostic {
        range: Range::new(Position::new(line, 0), Position::new(line, 2)),
        message: message.to_string(),
        code: code.map(|c| c.to_string()),
    }
}

#[test]
fn the_fix_puts_the_option_in_the_place_of_the_value() {
    let range = Range::new(Position::new(1, 2), Position::new(1, 4));
    let edit = enum_conversion("\"10\" must be \"1\"", range).unwrap();
    assert_eq!(edit.new_text, "1");
    assert_eq!(edit.range, range);
    assert_eq!(
        enum_conversion("\"a\" must be \"b\" must be \"c\"", range).unwrap().new_text,
        "c"
    );
    assert_eq!(enum_conversion("\"10\" must be \"\"", range).unwrap().new_text, "");
    assert!(enum_conversion("\"10\" must be one of \"1, 2\"", range).is_none());
    assert!(enum_conversion("Incorrect type", range).is_none());
    assert!(enum_conversion("", range).is_none());
}

#[test]
fn the_fix_answers_the_diagnostics_that_carry_its_code() {
    assert!(enum_codeaction(&vec![]).is_none());
    assert!(enum_codeaction(&vec![
        coded("\"10\" must be \"1\"", None, 0),
        coded("\"10\" must be \"1\"", Some("OTHER"), 1),
        to_diagnostic(Position::new(0, 0), Position::new(0, 1), "x".to_string()),
    ])
    .is_none());
    let action = enum_codeaction(&vec![
        coded("\"10\" must be \"1\"", Some("ENUM_ACTION"), 0),
        coded("\"x\" must be \"y\"", None, 1),
        coded("not of that shape", Some("ENUM_ACTION"), 2),
        coded("\"a\" must be \"b\"", Some("ENUM_ACTION"), 3),
    ])
    .unwrap();
    assert_eq!(action.title, "Use suggested enum");
    assert_eq!(action.diagnostics.len(), 3);
    assert_eq!(action.diagnostics[1].message, "not of that shape");
    assert_eq!(action.edits.len(), 2);
    assert_eq!(action.edits[0].new_text, "1");
    assert_eq!(action.edits[0].range.start, Position::new(0, 0));
    assert_eq!(action.edits[1].new_text, "b");
    assert_eq!(action.edits[1].range.start, Position::new(3, 0));
}

// A reader of addresses that goes through the text from left to right and
// steps back where a part does not fit: a second way to the same answers.
struct Reader<'a> {
    text: &'a [u8],
}

impl<'a> Reader<'a> {
    fn atomically<T>(&mut self, inner: impl FnOnce(&mut Reader<'a>) -> Option<T>) -> Option<T> {
        let saved = self.text;
        let found = inner(self);
        if found.is_none() {
            self.text = saved;
        }
        found
    }

    fn given(&mut self, c: u8) -> Option<()> {
        self.atomically(|r| match r.text.split_first() {
            Some((first, rest)) if *first == c => {
                r.text = rest;
                Some(())
            }
            _ => None,
        })
    }

    fn separated<T>(
        &mut self,
        separator: u8,
        index: usize,
        inner: impl FnOnce(&mut Reader<'a>) -> Option<T>,
    ) -> Option<T> {
        self.atomically(move |r| {
            if index > 0 {
                r.given(separator)?;
            }
            inner(r)
        })
    }

    fn number(&mut self, radix: u32, most: usize, zero_prefix: bool, limit: u32) -> Option<u32> {
        self.atomically(move |r| {
            let leading_zero = r.text.first() == Some(&b'0');
            let mut value: u32 = 0;
            let mut count = 0;
            while let Some(digit) = r.text.first().and_then(|c| (*c as char).to_digit(radix)) {
                r.text = &r.text[1..];
                value = value * radix + digit;
                count += 1;
                if count > most {
                    return None;
                }
            }
            if count == 0 || (!zero_prefix && leading_zero && count > 1) || value > limit {
                None
            } else {
                Some(value)
            }
        })
    }

    fn v4(&mut self) -> Option<()> {
        self.atomically(|r| {
            for i in 0..4 {
                r.separated(b'.', i, |r| r.number(10, 3, false, 255))?;
            }
            Some(())
        })
    }

    fn groups(&mut self, limit: usize) -> (usize, bool) {
        for i in 0..limit {
            if i + 1 < limit && self.separated(b':', i, |r| r.v4()).is_some() {
                return (i + 2, true);
            }
            if self.separated(b':', i, |r| r.number(16, 4, true, 0xffff)).is_none() {
                return (i, false);
            }
        }
        (limit, false)
    }

    fn v6(&mut self) -> Option<()> {
        self.atomically(|r| {
            let (head, head_v4) = r.groups(8);
            if head == 8 {
                return Some(());
            }
            if head_v4 {
                return None;
            }
            r.given(b':')?;
            r.given(b':')?;
            r.groups(8 - (head + 1));
            Some(())
        })
    }
}

fn reads_as_v4(text: &str) -> bool {
    let mut reader = Reader { text: text.as_bytes() };
    reader.v4().is_some() && reader.text.is_empty()
}

fn reads_as_v6(text: &str) -> bool {
    let mut reader = Reader { text: text.as_bytes() };
    reader.v6().is_some() && reader.text.is_empty()
}

#[test]
fn addresses_are_those_that_a_reader_from_the_left_accepts() {
    let alphabet = ['0', '1', '9', 'a', 'F', 'g', ':', '.'];
    let mut frontier: Vec<String> = vec![String::new()];
    for _ in 0..6 {
        let mut next = Vec::new();
        for w in &frontier {
            assert_eq!(is_ipv4(w), reads_as_v4(w), "{:?}", w);
            assert_eq!(is_ipv6(w), reads_as_v6(w), "{:?}", w);
            for c in alphabet {
                let mut s = w.clone();
                s.push(c);
                next.push(s);
            }
        }
        frontier = next;
    }
    for w in &frontier {
        assert_eq!(is_ipv4(w), reads_as_v4(w), "{:?}", w);
        assert_eq!(is_ipv6(w), reads_as_v6(w), "{:?}", w);
    }
}

#[test]
fn longer_addresses_are_those_that_a_reader_from_the_left_accepts() {
    let parts = ["", "0", "1", "ab", "FFFF", "12345", "1.2.3.4", "1.2.3", "256.1.1.1", "01.1.1.1", "g"];
    let mut seed: u64 = 0x2545F4914F6CDD1D;
    let mut accepted = 0;
    for _ in 0..200000 {
        let mut text = String::new();
        seed ^= seed << 13;
        seed ^= seed >> 7;
        seed ^= seed << 17;
        let count = 1 + (seed % 10) as usize;
        for i in 0..count {
            seed ^= seed << 13;
            seed ^= seed >> 7;
            seed ^= seed << 17;
            if i > 0 {
                text.push(':');
            }
            // Empty parts and short groups come most often, so that many
            // of the texts are addresses.
            let pick = (seed >> 8) % 24;
            let part = if pick < 11 { parts[pick as usize] } else if pick < 14 { "" } else { "1" };
            text.push_str(part);
        }
        let expected = reads_as_v6(&text);
        if expected {
            accepted += 1;
        }
        assert_eq!(is_ipv6(&text), expected, "{:?}", text);
        assert_eq!(is_ipv4(&text), reads_as_v4(&text), "{:?}", text);
    }
    assert!(accepted > 1000, "{}", accepted);
}
