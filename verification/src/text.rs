//! Text helpers shared by the validators: character access, decimal rendering,
//! joining, ordering by bytes and the quoted rendering used in messages.
use vstd::prelude::*;
use vstd::std_specs::iter::IteratorSpec;
use vstd::string::StringSliceAdditionalSpecFns;

verus! {

/// The characters of `s`, in order.
pub fn chars_of(s: &str) -> (r: Vec<char>)
    ensures
        r@ == s@,
{
    broadcast use vstd::string::group_string_axioms;

    let mut out: Vec<char> = Vec::new();
    let mut it = s.chars();
    assert(it.remaining() == s@);
    loop
        invariant
            it.obeys_prophetic_iter_laws(),
            it.decrease() is Some,
            out@ + it.remaining() == s@,
        ensures
            out@ == s@,
        decreases it.decrease()->0,
    {
        match it.next() {
            Some(c) => {
                out.push(c);
                assert(out@ + it.remaining() =~= s@);
            },
            None => {
                assert(out@ =~= s@);
                break ;
            },
        }
    }
    out
}

/// `String::push` of the standard library: the string grows by exactly the
/// character given, at its end.
#[verifier::external_body]
pub(crate) fn push_char(s: &mut String, c: char)
    ensures
        final(s)@ == old(s)@.push(c),
{
    s.push(c);
}

/// Whether two string slices hold the same text.
pub fn str_eq(a: &str, b: &str) -> (r: bool)
    ensures
        r == (a@ == b@),
{
    let x = a.as_bytes();
    let y = b.as_bytes();
    proof {
        vstd::utf8::encode_utf8_decode_utf8(a@);
        vstd::utf8::encode_utf8_decode_utf8(b@);
    }
    if x.len() != y.len() {
        return false;
    }
    let mut i: usize = 0;
    while i < x.len()
        invariant
            i <= x.len(),
            x.len() == y.len(),
            x@ == a.spec_bytes(),
            y@ == b.spec_bytes(),
            vstd::utf8::decode_utf8(a.spec_bytes()) == a@,
            vstd::utf8::decode_utf8(b.spec_bytes()) == b@,
            forall|k: int| 0 <= k < i ==> x@[k] == y@[k],
        decreases x.len() - i,
    {
        if x[i] != y[i] {
            return false;
        }
        i += 1;
    }
    assert(x@ =~= y@);
    true
}

/// `text` without its double-quote characters.
pub open spec fn without_quotes(text: Seq<char>) -> Seq<char> {
    text.filter(|c: char| c != '"')
}

/// Removes every double-quote character from `text`.
pub fn strip_quotes(text: &str) -> (r: String)
    ensures
        r@ == without_quotes(text@),
{
    let chars = chars_of(text);
    let mut out = String::new();
    let mut i: usize = 0;
    let ghost keep = |c: char| c != '"';
    assert(chars@.take(0).filter(keep) =~= Seq::<char>::empty()) by {
        reveal(Seq::filter);
    }
    while i < chars.len()
        invariant
            i <= chars.len(),
            keep == (|c: char| c != '"'),
            out@ == chars@.take(i as int).filter(keep),
        decreases chars.len() - i,
    {
        let c = chars[i];
        proof {
            let prev = chars@.take(i as int);
            assert(chars@.take(i + 1) =~= prev.push(c));
            assert(prev.push(c).drop_last() =~= prev);
            reveal(Seq::filter);
        }
        if c != '"' {
            push_char(&mut out, c);
        }
        i += 1;
    }
    assert(chars@.take(chars.len() as int) =~= chars@);
    out
}

/// The decimal digit for `d`, where `d` is below ten.
pub open spec fn digit_char(d: nat) -> char {
    if d == 0 {
        '0'
    } else if d == 1 {
        '1'
    } else if d == 2 {
        '2'
    } else if d == 3 {
        '3'
    } else if d == 4 {
        '4'
    } else if d == 5 {
        '5'
    } else if d == 6 {
        '6'
    } else if d == 7 {
        '7'
    } else if d == 8 {
        '8'
    } else {
        '9'
    }
}

/// The decimal numeral of `n`, most significant digit first, without leading
/// zeros.
pub open spec fn decimal(n: nat) -> Seq<char>
    decreases n,
{
    if n < 10 {
        seq![digit_char(n)]
    } else {
        decimal(n / 10).push(digit_char(n % 10))
    }
}

fn digit_of(d: usize) -> (c: char)
    requires
        d < 10,
    ensures
        c == digit_char(d as nat),
{
    if d == 0 {
        '0'
    } else if d == 1 {
        '1'
    } else if d == 2 {
        '2'
    } else if d == 3 {
        '3'
    } else if d == 4 {
        '4'
    } else if d == 5 {
        '5'
    } else if d == 6 {
        '6'
    } else if d == 7 {
        '7'
    } else if d == 8 {
        '8'
    } else {
        '9'
    }
}

/// Renders `n` in decimal.
pub fn decimal_string(n: usize) -> (r: String)
    ensures
        r@ == decimal(n as nat),
    decreases n,
{
    if n < 10 {
        let mut s = String::new();
        push_char(&mut s, digit_of(n));
        assert(s@ =~= seq![digit_char(n as nat)]);
        s
    } else {
        let mut s = decimal_string(n / 10);
        push_char(&mut s, digit_of(n % 10));
        s
    }
}

/// What the standard library's `Debug` formatting writes for a string slice:
/// the text between double quotes, with its escapes.
pub uninterp spec fn debug_text(s: Seq<char>) -> Seq<char>;

/// `format!("{:#?}", s)` for a string slice `s`: the result is the standard
/// library's `Debug` rendering of the text, a function of the text alone.
#[verifier::external_body]
pub(crate) fn quoted(s: &str) -> (r: String)
    ensures
        r@ == debug_text(s@),
{
    format!("{:#?}", s)
}

/// `items` written one after another with `sep` between neighbours.
pub open spec fn joined(items: Seq<Seq<char>>, sep: Seq<char>) -> Seq<char>
    decreases items.len(),
{
    if items.len() == 0 {
        Seq::empty()
    } else if items.len() == 1 {
        items[0]
    } else {
        joined(items.drop_last(), sep) + sep + items.last()
    }
}

/// The texts that a vector of strings holds.
pub open spec fn texts(items: Seq<String>) -> Seq<Seq<char>> {
    items.map_values(|s: String| s@)
}

/// Joins `items` with `sep` between neighbours.
pub fn join(items: &Vec<String>, sep: &str) -> (r: String)
    ensures
        r@ == joined(texts(items@), sep@),
{
    let mut out = String::new();
    let mut i: usize = 0;
    while i < items.len()
        invariant
            i <= items.len(),
            out@ == joined(texts(items@).take(i as int), sep@),
        decreases items.len() - i,
    {
        proof {
            let next = texts(items@).take(i + 1);
            assert(next.drop_last() =~= texts(items@).take(i as int));
            assert(next.last() == items@[i as int]@);
        }
        if i > 0 {
            out.append(sep);
        }
        out.append(items[i].as_str());
        proof {
            if i == 0 {
                assert(out@ =~= items@[0]@);
            }
        }
        i += 1;
    }
    assert(texts(items@).take(items.len() as int) =~= texts(items@));
    out
}

/// Strict lexicographic order on byte sequences.
pub open spec fn bytes_lt(a: Seq<u8>, b: Seq<u8>) -> bool
    decreases a.len(),
{
    if b.len() == 0 {
        false
    } else if a.len() == 0 {
        true
    } else if a[0] != b[0] {
        a[0] < b[0]
    } else {
        bytes_lt(a.drop_first(), b.drop_first())
    }
}

/// The order of strings: lexicographic by the bytes of their UTF-8 encoding.
pub open spec fn text_lt(a: Seq<char>, b: Seq<char>) -> bool {
    bytes_lt(vstd::utf8::encode_utf8(a), vstd::utf8::encode_utf8(b))
}

/// Whether `a` sorts strictly before `b`.
pub fn str_lt(a: &str, b: &str) -> (r: bool)
    ensures
        r == text_lt(a@, b@),
{
    let x = a.as_bytes();
    let y = b.as_bytes();
    let mut i: usize = 0;
    assert(x@.skip(0) =~= x@ && y@.skip(0) =~= y@);
    loop
        invariant
            i <= x.len(),
            i <= y.len(),
            x@ == a.spec_bytes(),
            y@ == b.spec_bytes(),
            bytes_lt(x@, y@) == bytes_lt(x@.skip(i as int), y@.skip(i as int)),
        decreases x.len() - i,
    {
        proof {
            let xs = x@.skip(i as int);
            let ys = y@.skip(i as int);
            if xs.len() > 0 && ys.len() > 0 {
                assert(xs.drop_first() =~= x@.skip(i + 1));
                assert(ys.drop_first() =~= y@.skip(i + 1));
                assert(xs[0] == x@[i as int]);
                assert(ys[0] == y@[i as int]);
            }
        }
        if i >= y.len() {
            return false;
        }
        if i >= x.len() {
            return true;
        }
        if x[i] != y[i] {
            return x[i] < y[i];
        }
        i += 1;
    }
}

/// `sorted` with `item` put at its place; `sorted` unchanged where it holds
/// `item` already.
pub open spec fn inserted(sorted: Seq<Seq<char>>, item: Seq<char>) -> Seq<Seq<char>>
    decreases sorted.len(),
{
    if sorted.len() == 0 {
        seq![item]
    } else if sorted.last() == item {
        sorted
    } else if text_lt(sorted.last(), item) {
        sorted.push(item)
    } else {
        inserted(sorted.drop_last(), item).push(sorted.last())
    }
}

/// Whether each text of `list` sorts strictly before those that follow it.
pub open spec fn ascending(list: Seq<Seq<char>>) -> bool {
    forall|i: int, j: int|
        0 <= i < j < list.len() ==> text_lt(#[trigger] list[i], #[trigger] list[j])
}

/// Of two byte sequences that differ, one sorts before the other; none
/// sorts before itself; and the order is transitive.
pub proof fn lemma_bytes_order(a: Seq<u8>, b: Seq<u8>, c: Seq<u8>)
    ensures
        !bytes_lt(a, a),
        a != b ==> bytes_lt(a, b) || bytes_lt(b, a),
        bytes_lt(a, b) && bytes_lt(b, c) ==> bytes_lt(a, c),
    decreases a.len(),
{
    if a.len() > 0 {
        lemma_bytes_order(a.drop_first(), a.drop_first(), a.drop_first());
        if b.len() > 0 {
            if c.len() > 0 {
                lemma_bytes_order(a.drop_first(), b.drop_first(), c.drop_first());
            } else {
                lemma_bytes_order(a.drop_first(), b.drop_first(), b.drop_first());
            }
            if a[0] == b[0] && a.drop_first() == b.drop_first() {
                assert forall|i: int| 0 <= i < a.len() implies a[i] == b[i] by {
                    if i > 0 {
                        assert(a[i] == a.drop_first()[i - 1]);
                        assert(b[i] == b.drop_first()[i - 1]);
                    }
                }
                assert(a.len() == a.drop_first().len() + 1);
                assert(b.len() == b.drop_first().len() + 1);
                assert(a =~= b);
            }
        }
    } else if b.len() == 0 {
        assert(a =~= b);
    }
}

/// Of two texts that differ, one sorts before the other; none sorts before
/// itself; and the order is transitive.
pub proof fn lemma_text_order(a: Seq<char>, b: Seq<char>, c: Seq<char>)
    ensures
        !text_lt(a, a),
        a != b ==> text_lt(a, b) || text_lt(b, a),
        text_lt(a, b) && text_lt(b, c) ==> text_lt(a, c),
{
    vstd::utf8::encode_utf8_decode_utf8(a);
    vstd::utf8::encode_utf8_decode_utf8(b);
    lemma_bytes_order(
        vstd::utf8::encode_utf8(a),
        vstd::utf8::encode_utf8(b),
        vstd::utf8::encode_utf8(c),
    );
}

/// Putting a text into an ascending list gives an ascending list, which
/// holds that text and what the list held before.
pub proof fn lemma_inserted(sorted: Seq<Seq<char>>, item: Seq<char>)
    requires
        ascending(sorted),
    ensures
        ascending(inserted(sorted, item)),
        forall|x: Seq<char>|
            #![trigger inserted(sorted, item).contains(x)]
            #![trigger sorted.contains(x)]
            inserted(sorted, item).contains(x) <==> sorted.contains(x) || x == item,
    decreases sorted.len(),
{
    let now = inserted(sorted, item);
    if sorted.len() == 0 {
        assert(now[0] == item);
        assert forall|x: Seq<char>| now.contains(x) <==> sorted.contains(x) || x == item by {
            if now.contains(x) {
                let i = choose|i: int| 0 <= i < now.len() && now[i] == x;
            }
        }
    } else if sorted.last() == item {
        assert(sorted[sorted.len() - 1] == item);
    } else if text_lt(sorted.last(), item) {
        assert forall|i: int, j: int| 0 <= i < j < now.len() implies text_lt(
            #[trigger] now[i],
            #[trigger] now[j],
        ) by {
            if j == now.len() - 1 {
                if i < sorted.len() - 1 {
                    assert(text_lt(sorted[i], sorted[sorted.len() - 1]));
                    lemma_text_order(sorted[i], sorted.last(), item);
                }
            }
        }
        assert forall|x: Seq<char>| now.contains(x) <==> sorted.contains(x) || x == item by {
            if now.contains(x) {
                let i = choose|i: int| 0 <= i < now.len() && now[i] == x;
                if i < sorted.len() {
                    assert(sorted[i] == x);
                }
            }
            if sorted.contains(x) {
                let i = choose|i: int| 0 <= i < sorted.len() && sorted[i] == x;
                assert(now[i] == x);
            }
            if x == item {
                assert(now[now.len() - 1] == x);
            }
        }
    } else {
        let front = sorted.drop_last();
        let last = sorted.last();
        assert(ascending(front)) by {
            assert forall|i: int, j: int| 0 <= i < j < front.len() implies text_lt(
                #[trigger] front[i],
                #[trigger] front[j],
            ) by {
                assert(front[i] == sorted[i] && front[j] == sorted[j]);
            }
        }
        lemma_inserted(front, item);
        lemma_text_order(last, item, item);
        let placed = inserted(front, item);
        assert(text_lt(item, last));
        assert forall|i: int, j: int| 0 <= i < j < now.len() implies text_lt(
            #[trigger] now[i],
            #[trigger] now[j],
        ) by {
            if j == now.len() - 1 {
                assert(placed.contains(placed[i]));
                if placed[i] != item {
                    let k = choose|k: int| 0 <= k < front.len() && front[k] == placed[i];
                    assert(text_lt(sorted[k], sorted[sorted.len() - 1]));
                }
            } else {
                assert(now[i] == placed[i] && now[j] == placed[j]);
            }
        }
        assert forall|x: Seq<char>| now.contains(x) <==> sorted.contains(x) || x == item by {
            if now.contains(x) {
                let i = choose|i: int| 0 <= i < now.len() && now[i] == x;
                if i < placed.len() {
                    assert(placed.contains(x));
                    if x != item {
                        let k = choose|k: int| 0 <= k < front.len() && front[k] == x;
                        assert(sorted[k] == x);
                    }
                } else {
                    assert(sorted[sorted.len() - 1] == x);
                }
            }
            if sorted.contains(x) {
                let i = choose|i: int| 0 <= i < sorted.len() && sorted[i] == x;
                if i < front.len() {
                    assert(front[i] == x);
                    assert(placed.contains(x));
                    let k = choose|k: int| 0 <= k < placed.len() && placed[k] == x;
                    assert(now[k] == x);
                } else {
                    assert(now[now.len() - 1] == x);
                }
            }
            if x == item {
                assert(placed.contains(x));
                let k = choose|k: int| 0 <= k < placed.len() && placed[k] == x;
                assert(now[k] == x);
            }
        }
    }
}

/// Puts `item` at its place in `sorted`, unless it is there already.
pub fn insert_sorted(sorted: &mut Vec<String>, item: String)
    ensures
        texts(final(sorted)@) == inserted(texts(old(sorted)@), item@),
{
    let ghost before = texts(sorted@);
    let mut at = sorted.len();
    assert(before.take(at as int) =~= before);
    assert(before.skip(at as int) =~= Seq::empty());
    assert(inserted(before, item@) + Seq::<Seq<char>>::empty() =~= inserted(before, item@));
    while at > 0
        invariant
            at <= sorted.len(),
            before == texts(sorted@),
            inserted(before, item@) == inserted(before.take(at as int), item@) + before.skip(
                at as int,
            ),
        ensures
            at == 0 || (before[at - 1] != item@ && text_lt(before[at - 1], item@)),
        decreases at,
    {
        let ghost front = before.take(at as int);
        proof {
            assert(front.last() == sorted@[at - 1]@);
            assert(front.drop_last() =~= before.take(at - 1));
            assert(before.skip(at - 1) =~= seq![front.last()] + before.skip(at as int));
        }
        if str_eq(sorted[at - 1].as_str(), item.as_str()) {
            assert(front + before.skip(at as int) =~= before);
            return ;
        }
        if str_lt(sorted[at - 1].as_str(), item.as_str()) {
            break ;
        }
        proof {
            assert(inserted(front.drop_last(), item@).push(front.last()) + before.skip(at as int)
                =~= inserted(front.drop_last(), item@) + (seq![front.last()] + before.skip(
                at as int,
            )));
        }
        at -= 1;
    }
    sorted.insert(at, item);
    proof {
        let front = before.take(at as int);
        if at > 0 {
            assert(front.last() == before[at - 1]);
        }
        assert(texts(sorted@) =~= front.push(item@) + before.skip(at as int));
    }
}

/// Whether `c` is one of the ten decimal digits.
pub open spec fn is_digit(c: char) -> bool {
    48 <= c as u32 <= 57
}

/// Whether `s` holds decimal digits only.
pub open spec fn all_digits(s: Seq<char>) -> bool {
    forall|i: int| 0 <= i < s.len() ==> is_digit(#[trigger] s[i])
}

/// The number that a sequence of decimal digits denotes.
pub open spec fn digits_value(s: Seq<char>) -> nat
    decreases s.len(),
{
    if s.len() == 0 {
        0
    } else {
        digits_value(s.drop_last()) * 10 + (s.last() as u32 - 48) as nat
    }
}

/// The integer that `s` denotes where it is an integer literal: an optional
/// sign, `+` or `-`, and one decimal digit or more.
pub open spec fn integer_literal(s: Seq<char>) -> Option<int> {
    if s.len() > 0 && (s[0] == '-' || s[0] == '+') {
        let digits = s.drop_first();
        if digits.len() > 0 && all_digits(digits) {
            Some(
                if s[0] == '-' {
                    -(digits_value(digits) as int)
                } else {
                    digits_value(digits) as int
                },
            )
        } else {
            None
        }
    } else if s.len() > 0 && all_digits(s) {
        Some(digits_value(s) as int)
    } else {
        None
    }
}

/// Whether `s` is an integer literal whose value a signed sixty-four-bit
/// integer can hold.
pub open spec fn is_i64_literal(s: Seq<char>) -> bool {
    integer_literal(s) matches Some(v) && i64::MIN <= v <= i64::MAX
}

/// Whether `s` is an integer literal whose value a signed sixty-four-bit
/// integer can hold.
#[verifier::loop_isolation(false)]
pub fn parses_as_i64(s: &str) -> (r: bool)
    ensures
        r == is_i64_literal(s@),
{
    let chars = chars_of(s);
    let n = chars.len();
    if n == 0 {
        return false;
    }
    let negative = chars[0] == '-';
    let first: usize = if chars[0] == '-' || chars[0] == '+' {
        1
    } else {
        0
    };
    if first == n {
        return false;
    }
    let limit: u64 = if negative {
        9223372036854775808
    } else {
        9223372036854775807
    };
    let ghost digits = chars@.subrange(first as int, n as int);
    assert(digits =~= if first == 1 {
        s@.drop_first()
    } else {
        s@
    });
    let mut acc: u64 = 0;
    let mut fits = true;
    let mut i: usize = first;
    assert(digits.take(0) =~= Seq::<char>::empty());
    while i < n
        invariant
            first <= i <= n,
            n == chars@.len(),
            digits == chars@.subrange(first as int, n as int),
            limit >= 9223372036854775807,
            all_digits(digits.take(i - first)),
            fits ==> acc == digits_value(digits.take(i - first)) && acc <= limit,
            !fits ==> digits_value(digits.take(i - first)) > limit,
        decreases n - i,
    {
        let c = chars[i] as u32;
        let ghost prefix = digits.take(i - first);
        let ghost next = digits.take(i - first + 1);
        proof {
            assert(next.drop_last() =~= prefix);
            assert(next.last() == chars@[i as int]);
        }
        if c < 48 || c > 57 {
            proof {
                assert(!is_digit(digits[i - first]));
                assert(!all_digits(digits));
            }
            return false;
        }
        let d = (c - 48) as u64;
        if fits {
            if acc > (limit - d) / 10 {
                fits = false;
            } else {
                acc = acc * 10 + d;
            }
        }
        i += 1;
        proof {
            assert forall|k: int| 0 <= k < next.len() implies is_digit(#[trigger] next[k]) by {
                if k < prefix.len() {
                    assert(next[k] == prefix[k]);
                }
            }
        }
    }
    assert(digits.take(n - first) =~= digits);
    fits
}

} // verus!
