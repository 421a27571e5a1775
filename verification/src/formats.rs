//! The grammars that string keywords defer to: regular expressions, and the
//! formats `uri`, `date-time`, `email`, `hostname`, `ipv4` and `ipv6`.
use crate::text::{all_digits, chars_of, digits_value, is_digit};
use regex::Regex;
use vstd::prelude::*;

verus! {

/// `regex::Regex`, taken as it is: a compiled regular expression, of which
/// only the pattern that it was compiled from is known, and whether it was
/// compiled with the crate's own options.
#[verifier::external_type_specification]
#[verifier::external_body]
pub struct ExRegex(Regex);

/// The pattern that a regular expression was compiled from.
pub uninterp spec fn regex_pattern(re: Regex) -> Seq<char>;

/// Whether a regular expression was compiled as `Regex::new` compiles it:
/// from its pattern alone, with no option set. Only of such an expression is
/// what it matches a function of its pattern.
pub uninterp spec fn regex_plain(re: Regex) -> bool;

/// Whether the `regex` crate compiles the pattern.
pub uninterp spec fn regex_compiles(pattern: Seq<char>) -> bool;

/// Whether the regular expression that `Regex::new` compiles from `pattern`
/// matches somewhere in `text`.
pub uninterp spec fn regex_accepts(pattern: Seq<char>, text: Seq<char>) -> bool;

/// Whether the `url` crate parses the text as an absolute URL.
pub uninterp spec fn uri_parses(text: Seq<char>) -> bool;

/// Whether the `time` crate parses the text as a date and time of RFC 3339.
pub uninterp spec fn date_time_parses(text: Seq<char>) -> bool;

/// Whether the `addr` crate parses the text as an email address.
pub uninterp spec fn email_parses(text: Seq<char>) -> bool;

/// Whether the `addr` crate parses the text as a domain name.
pub uninterp spec fn hostname_parses(text: Seq<char>) -> bool;

/// Whether `pattern` matches somewhere in `text`; `None` where the pattern
/// does not compile.
pub open spec fn regex_matches(pattern: Seq<char>, text: Seq<char>) -> Option<bool> {
    if regex_compiles(pattern) {
        Some(regex_accepts(pattern, text))
    } else {
        None
    }
}

/// `Regex::new`: the expression compiled from the pattern alone, which
/// remembers its pattern, or nothing where the crate refuses the pattern.
#[verifier::external_body]
pub(crate) fn compile(pattern: &str) -> (r: Option<Regex>)
    ensures
        r is Some <==> regex_compiles(pattern@),
        r matches Some(re) ==> regex_plain(re) && regex_pattern(re) == pattern@,
{
    Regex::new(pattern).ok()
}

/// `Regex::is_match`: whether the expression matches somewhere in the text.
/// Of an expression that was compiled from its pattern alone, the answer is
/// that for its pattern and the text; of any other, nothing is stated.
pub assume_specification[ Regex::is_match ](re: &Regex, haystack: &str) -> (r: bool)
    ensures
        regex_plain(*re) ==> r == regex_accepts(regex_pattern(*re), haystack@),
;

/// `Url::parse`: whether the text is an absolute URL.
#[verifier::external_body]
pub(crate) fn is_uri(text: &str) -> (r: bool)
    ensures
        r == uri_parses(text@),
{
    url::Url::parse(text).is_ok()
}

/// `OffsetDateTime::parse` with the description `Rfc3339`: whether the text
/// is a date and time of RFC 3339.
#[verifier::external_body]
pub(crate) fn is_date_time(text: &str) -> (r: bool)
    ensures
        r == date_time_parses(text@),
{
    time::OffsetDateTime::parse(text, &time::format_description::well_known::Rfc3339).is_ok()
}

/// `parse_email_address` on the public suffix list: whether the text is an
/// email address.
#[verifier::external_body]
pub(crate) fn is_email(text: &str) -> (r: bool)
    ensures
        r == email_parses(text@),
{
    addr::parser::EmailAddress::parse_email_address(&addr::psl::List, text).is_ok()
}

/// `parse_domain_name` on the public suffix list: whether the text is a
/// domain name.
#[verifier::external_body]
pub(crate) fn is_hostname(text: &str) -> (r: bool)
    ensures
        r == hostname_parses(text@),
{
    addr::parser::DomainName::parse_domain_name(&addr::psl::List, text).is_ok()
}

/// Whether `pattern` matches somewhere in `text`; `None` where the pattern
/// does not compile.
pub fn pattern_matches(pattern: &str, text: &str) -> (r: Option<bool>)
    ensures
        r == regex_matches(pattern@, text@),
{
    match compile(pattern) {
        Some(re) => Some(re.is_match(text)),
        None => None,
    }
}

/// The fields of `s`: the runs between one separator and the next. There is
/// one field more than there are separators.
pub open spec fn fields(s: Seq<char>, sep: char) -> Seq<Seq<char>>
    decreases s.len(),
{
    if s.len() == 0 {
        seq![Seq::empty()]
    } else {
        let before = fields(s.drop_last(), sep);
        if s.last() == sep {
            before.push(Seq::empty())
        } else {
            before.drop_last().push(before.last().push(s.last()))
        }
    }
}

proof fn lemma_fields_nonempty(s: Seq<char>, sep: char)
    ensures
        fields(s, sep).len() > 0,
    decreases s.len(),
{
    if s.len() > 0 {
        lemma_fields_nonempty(s.drop_last(), sep);
    }
}

/// The texts that a vector of fields holds.
pub open spec fn field_views(list: Seq<Vec<char>>) -> Seq<Seq<char>> {
    list.map_values(|f: Vec<char>| f@)
}

/// Cuts `chars` into its fields.
pub fn split(chars: &Vec<char>, sep: char) -> (r: Vec<Vec<char>>)
    ensures
        field_views(r@) == fields(chars@, sep),
{
    let mut done: Vec<Vec<char>> = Vec::new();
    let mut current: Vec<char> = Vec::new();
    let mut i: usize = 0;
    assert(chars@.take(0) =~= Seq::<char>::empty());
    assert(field_views(done@).push(current@) =~= seq![Seq::<char>::empty()]);
    while i < chars.len()
        invariant
            i <= chars.len(),
            field_views(done@).push(current@) == fields(chars@.take(i as int), sep),
        decreases chars.len() - i,
    {
        let c = chars[i];
        let ghost before = fields(chars@.take(i as int), sep);
        let ghost d0 = field_views(done@);
        let ghost c0 = current@;
        proof {
            assert(chars@.take(i + 1).drop_last() =~= chars@.take(i as int));
            assert(chars@.take(i + 1).last() == c);
            assert(before.drop_last() =~= d0);
            assert(before.last() == c0);
        }
        if c == sep {
            done.push(current);
            current = Vec::new();
            assert(field_views(done@) =~= d0.push(c0));
        } else {
            current.push(c);
        }
        i += 1;
    }
    assert(chars@.take(chars.len() as int) =~= chars@);
    let ghost d0 = field_views(done@);
    done.push(current);
    assert(field_views(done@) =~= d0.push(current@));
    done
}

/// Whether `s` is one of the four numbers of an IPv4 address: one to three
/// decimal digits, without a leading zero unless the number is `0`, and a
/// value up to 255.
pub open spec fn is_octet(s: Seq<char>) -> bool {
    &&& 1 <= s.len() <= 3
    &&& all_digits(s)
    &&& (s.len() > 1 ==> s[0] != '0')
    &&& digits_value(s) <= 255
}

/// Whether `s` is an IPv4 address in dotted decimal notation: four numbers
/// with a dot between neighbours.
pub open spec fn is_ipv4_text(s: Seq<char>) -> bool {
    let parts = fields(s, '.');
    parts.len() == 4 && forall|i: int| 0 <= i < 4 ==> is_octet(#[trigger] parts[i])
}

fn octet(s: &Vec<char>) -> (r: bool)
    ensures
        r == is_octet(s@),
{
    let n = s.len();
    if n < 1 || n > 3 {
        return false;
    }
    let mut value: u32 = 0;
    let mut i: usize = 0;
    assert(s@.take(0) =~= Seq::<char>::empty());
    while i < n
        invariant
            i <= n,
            n == s@.len(),
            n <= 3,
            all_digits(s@.take(i as int)),
            value == digits_value(s@.take(i as int)),
            value <= 999,
            i < 3 ==> value <= 99,
            i < 2 ==> value <= 9,
            i < 1 ==> value == 0,
        decreases n - i,
    {
        let c = s[i] as u32;
        let ghost prefix = s@.take(i as int);
        let ghost next = s@.take(i + 1);
        proof {
            assert(next.drop_last() =~= prefix);
            assert(next.last() == s@[i as int]);
        }
        if c < 48 || c > 57 {
            assert(!is_digit(s@[i as int]));
            return false;
        }
        value = value * 10 + (c - 48);
        i += 1;
        proof {
            assert forall|k: int| 0 <= k < next.len() implies is_digit(#[trigger] next[k]) by {
                if k < prefix.len() {
                    assert(next[k] == prefix[k]);
                }
            }
        }
    }
    assert(s@.take(n as int) =~= s@);
    if n > 1 && s[0] == '0' {
        return false;
    }
    value <= 255
}

fn ipv4_chars(chars: &Vec<char>) -> (r: bool)
    ensures
        r == is_ipv4_text(chars@),
{
    let parts = split(chars, '.');
    if parts.len() != 4 {
        return false;
    }
    let mut i: usize = 0;
    while i < 4
        invariant
            i <= 4,
            parts@.len() == 4,
            field_views(parts@) == fields(chars@, '.'),
            forall|k: int| 0 <= k < i ==> is_octet(#[trigger] fields(chars@, '.')[k]),
        decreases 4 - i,
    {
        assert(field_views(parts@)[i as int] == parts@[i as int]@);
        if !octet(&parts[i]) {
            return false;
        }
        i += 1;
    }
    true
}

/// Whether `text` is an IPv4 address in dotted decimal notation.
pub fn is_ipv4(text: &str) -> (r: bool)
    ensures
        r == is_ipv4_text(text@),
{
    let chars = chars_of(text);
    ipv4_chars(&chars)
}

/// Whether `c` is a hexadecimal digit, in either case.
pub open spec fn is_hex_digit(c: char) -> bool {
    is_digit(c) || 97 <= c as u32 <= 102 || 65 <= c as u32 <= 70
}

/// Whether `s` is one group of an IPv6 address: one to four hexadecimal
/// digits.
pub open spec fn is_group(s: Seq<char>) -> bool {
    1 <= s.len() <= 4 && forall|i: int| 0 <= i < s.len() ==> is_hex_digit(#[trigger] s[i])
}

/// Whether each of the fields from `lo` up to `hi` is a group.
pub open spec fn groups_between(parts: Seq<Seq<char>>, lo: int, hi: int) -> bool {
    forall|i: int| lo <= i < hi ==> is_group(#[trigger] parts[i])
}

/// How many groups of sixteen bits the fields from `lo` up to `hi` stand
/// for, where each is a group, but for the last, which may be an IPv4 address
/// and then stands for two.
pub open spec fn width_between(parts: Seq<Seq<char>>, lo: int, hi: int) -> Option<int> {
    if lo >= hi {
        Some(0)
    } else if groups_between(parts, lo, hi - 1) {
        if is_group(parts[hi - 1]) {
            Some(hi - lo)
        } else if is_ipv4_text(parts[hi - 1]) {
            Some(hi - lo + 1)
        } else {
            None
        }
    } else {
        None
    }
}

/// The place of the first empty field from `from` on; the number of fields
/// where there is none.
pub open spec fn first_empty(parts: Seq<Seq<char>>, from: int) -> int
    decreases parts.len() - from,
{
    if from >= parts.len() {
        parts.len() as int
    } else if parts[from].len() == 0 {
        from
    } else {
        first_empty(parts, from + 1)
    }
}

/// Whether `s` is an IPv6 address in its text form. Cut at its colons, the
/// text is either eight groups, the last two of which may be written as an
/// IPv4 address; or fewer, with one double colon (which shows as an empty
/// field, or as two at either end) that stands for the one group or more left
/// out.
pub open spec fn is_ipv6_text(s: Seq<char>) -> bool {
    let parts = fields(s, ':');
    let n = parts.len() as int;
    let gap = first_empty(parts, 0);
    if gap == n {
        width_between(parts, 0, n) == Some(8int)
    } else {
        let after = if gap == 0 {
            2
        } else {
            gap + 1
        };
        &&& gap == 0 ==> n >= 3 && parts[1].len() == 0
        &&& after < n
        &&& gap <= 7
        &&& groups_between(parts, 0, gap)
        &&& if after == n - 1 && parts[n - 1].len() == 0 {
            true
        } else {
            width_between(parts, after, n) matches Some(w) && gap + w <= 7
        }
    }
}

fn hex_group(s: &Vec<char>) -> (r: bool)
    ensures
        r == is_group(s@),
{
    let n = s.len();
    if n < 1 || n > 4 {
        return false;
    }
    let mut i: usize = 0;
    while i < n
        invariant
            i <= n,
            n == s@.len(),
            forall|k: int| 0 <= k < i ==> is_hex_digit(#[trigger] s@[k]),
        decreases n - i,
    {
        let c = s[i] as u32;
        if !((48 <= c && c <= 57) || (97 <= c && c <= 102) || (65 <= c && c <= 70)) {
            assert(!is_hex_digit(s@[i as int]));
            return false;
        }
        i += 1;
    }
    true
}

fn groups(parts: &Vec<Vec<char>>, lo: usize, hi: usize) -> (r: bool)
    requires
        hi <= parts@.len(),
    ensures
        r == groups_between(field_views(parts@), lo as int, hi as int),
{
    let mut i = lo;
    while i < hi
        invariant
            hi <= parts@.len(),
            lo <= i,
            groups_between(field_views(parts@), lo as int, i as int),
        decreases hi - i,
    {
        assert(field_views(parts@)[i as int] == parts@[i as int]@);
        if !hex_group(&parts[i]) {
            return false;
        }
        i += 1;
    }
    true
}

fn width(parts: &Vec<Vec<char>>, lo: usize, hi: usize) -> (r: Option<usize>)
    requires
        hi <= parts@.len(),
        parts@.len() <= 9,
    ensures
        match r {
            Some(w) => width_between(field_views(parts@), lo as int, hi as int) == Some(w as int),
            None => width_between(field_views(parts@), lo as int, hi as int) is None,
        },
{
    if lo >= hi {
        return Some(0);
    }
    if !groups(parts, lo, hi - 1) {
        return None;
    }
    assert(field_views(parts@)[hi - 1] == parts@[hi - 1]@);
    if hex_group(&parts[hi - 1]) {
        Some(hi - lo)
    } else if ipv4_chars(&parts[hi - 1]) {
        Some(hi - lo + 1)
    } else {
        None
    }
}

/// Whether `text` is an IPv6 address in its text form.
pub fn is_ipv6(text: &str) -> (r: bool)
    ensures
        r == is_ipv6_text(text@),
{
    let chars = chars_of(text);
    let parts = split(&chars, ':');
    let n = parts.len();
    let ghost views = field_views(parts@);
    if n > 9 {
        // More fields than the longest address has.
        return false;
    }
    let mut gap: usize = 0;
    while gap < n && parts[gap].len() != 0
        invariant
            gap <= n,
            n == parts@.len(),
            views == field_views(parts@),
            first_empty(views, 0) == first_empty(views, gap as int),
        decreases n - gap,
    {
        assert(views[gap as int] == parts@[gap as int]@);
        gap += 1;
    }
    proof {
        if gap < n {
            assert(views[gap as int] == parts@[gap as int]@);
        }
    }
    if gap == n {
        return match width(&parts, 0, n) {
            Some(w) => w == 8,
            None => false,
        };
    }
    if gap == 0 {
        if n < 3 {
            return false;
        }
        assert(views[1] == parts@[1]@);
        if parts[1].len() != 0 {
            return false;
        }
    }
    let after: usize = if gap == 0 {
        2
    } else {
        gap + 1
    };
    if after >= n || gap > 7 {
        return false;
    }
    if !groups(&parts, 0, gap) {
        return false;
    }
    assert(views[n - 1] == parts@[n - 1]@);
    if after == n - 1 && parts[n - 1].len() == 0 {
        return true;
    }
    match width(&parts, after, n) {
        Some(w) => w <= 7 - gap,
        None => false,
    }
}

} // verus!
