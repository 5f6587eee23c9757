//! Strings as sequences of characters: the small vocabulary that the rest of the
//! crate is written in.

use vstd::prelude::*;
use vstd::string::*;

verus! {

// ---------------------------------------------------------------------------
// Building and comparing
// ---------------------------------------------------------------------------

/// `String::push` appends one character to the end of the string.
#[verifier::external_body]
pub(crate) fn push_char(text: &mut String, c: char)
    ensures
        final(text)@ == old(text)@.push(c),
{
    text.push(c);
}

/// The characters of `text`, in order.
pub fn chars_of(text: &str) -> (chars: Vec<char>)
    ensures
        chars@ == text@,
{
    let mut chars: Vec<char> = Vec::new();
    for c in iter: text.chars()
        invariant
            chars@ == iter.seq().take(iter.index() as int),
            iter.seq() == text@,
    {
        chars.push(c);
        assert(chars@ =~= iter.seq().take(iter.index() + 1));
    }
    assert(chars@ =~= text@);
    chars
}

/// The characters `from..to` of `chars` as a string.
pub fn string_of(chars: &Vec<char>, from: usize, to: usize) -> (text: String)
    requires
        from <= to <= chars@.len(),
    ensures
        text@ == chars@.subrange(from as int, to as int),
{
    let mut text = String::new();
    let mut i: usize = from;
    while i < to
        invariant
            from <= i <= to <= chars@.len(),
            text@ == chars@.subrange(from as int, i as int),
        decreases to - i,
    {
        push_char(&mut text, chars[i]);
        i += 1;
        assert(text@ =~= chars@.subrange(from as int, i as int));
    }
    text
}

/// Whether two strings hold the same characters.
pub fn same(a: &str, b: &str) -> (equal: bool)
    ensures
        equal == (a@ == b@),
{
    a.to_owned() == b.to_owned()
}

/// Whether `value` is one of `list`.
pub fn among(list: &Vec<String>, value: &str) -> (found: bool)
    ensures
        found == list.deep_view().contains(value@),
{
    let mut i: usize = 0;
    while i < list.len()
        invariant
            i <= list@.len(),
            forall|j: int| 0 <= j < i ==> list.deep_view()[j] != value@,
        decreases list@.len() - i,
    {
        if same(list[i].as_str(), value) {
            assert(list.deep_view()[i as int] == value@);
            return true;
        }
        i += 1;
    }
    false
}

/// `a` followed by `b`.
pub fn cat(a: &str, b: &str) -> (text: String)
    ensures
        text@ == a@ + b@,
{
    a.to_owned().concat(b)
}

/// `a`, `b` and `c` one after the other.
pub fn cat3(a: &str, b: &str, c: &str) -> (text: String)
    ensures
        text@ == a@ + b@ + c@,
{
    a.to_owned().concat(b).concat(c)
}

// ---------------------------------------------------------------------------
// Decimal numbers
// ---------------------------------------------------------------------------

/// The decimal digit of `n`, which is below ten.
pub open spec fn digit(n: nat) -> char {
    (('0' as nat) + n) as char
}

/// The decimal numeral of `n`, without leading zeros.
pub open spec fn decimal(n: nat) -> Seq<char>
    decreases n,
{
    if n < 10 {
        seq![digit(n)]
    } else {
        decimal(n / 10).push(digit(n % 10))
    }
}

/// The character of the decimal digit `n`.
fn digit_char(n: u64) -> (c: char)
    requires
        n < 10,
    ensures
        c == digit(n as nat),
{
    ((48 + n) as u8) as char
}

/// Writes `n` in decimal.
pub fn decimal_of(n: u64) -> (text: String)
    ensures
        text@ == decimal(n as nat),
    decreases n,
{
    if n < 10 {
        let mut text = String::new();
        push_char(&mut text, digit_char(n));
        assert(text@ =~= decimal(n as nat));
        text
    } else {
        let mut text = decimal_of(n / 10);
        push_char(&mut text, digit_char(n % 10));
        text
    }
}

/// Whether `c` is a decimal digit.
pub open spec fn is_digit(c: char) -> bool {
    '0' <= c <= '9'
}

/// The number that a row of decimal digits stands for.
pub open spec fn numeral_value(digits: Seq<char>) -> nat
    decreases digits.len(),
{
    if digits.len() == 0 {
        0
    } else {
        numeral_value(digits.drop_last()) * 10 + (digits.last() as nat - '0' as nat) as nat
    }
}

/// `text` without the plus sign that it begins with, where it does.
pub open spec fn without_plus(text: Seq<char>) -> Seq<char> {
    if text.len() > 0 && text[0] == '+' {
        text.drop_first()
    } else {
        text
    }
}

/// The number that `text` stands for: decimal digits, after an optional plus sign,
/// whose value fits into 64 bits.
pub open spec fn parsed_u64(text: Seq<char>) -> Option<u64> {
    let digits = without_plus(text);
    if digits.len() > 0 && (forall|i: int| 0 <= i < digits.len() ==> is_digit(#[trigger] digits[i]))
        && numeral_value(digits) <= u64::MAX {
        Some(numeral_value(digits) as u64)
    } else {
        None
    }
}

/// Leaving out the last digits never makes a number greater.
proof fn lemma_numeral_prefix(digits: Seq<char>, n: int)
    requires
        0 <= n <= digits.len(),
    ensures
        numeral_value(digits.take(n)) <= numeral_value(digits),
    decreases digits.len() - n,
{
    if n < digits.len() {
        lemma_numeral_prefix(digits, n + 1);
        assert(digits.take(n + 1).drop_last() =~= digits.take(n));
    } else {
        assert(digits.take(n) =~= digits);
    }
}

/// Reads a decimal number.
pub fn parse_u64(text: &str) -> (number: Option<u64>)
    ensures
        number == parsed_u64(text@),
{
    let chars = chars_of(text);
    let start: usize = if chars.len() > 0 && chars[0] == '+' {
        1
    } else {
        0
    };
    let ghost digits = without_plus(text@);
    assert(chars@.skip(start as int) =~= digits);
    if start == chars.len() {
        return None;
    }
    let mut value: u64 = 0;
    let mut i: usize = start;
    assert(digits.take(0) =~= Seq::empty());
    while i < chars.len()
        invariant
            start <= i <= chars@.len(),
            chars@.skip(start as int) == digits,
            digits == without_plus(text@),
            forall|j: int| 0 <= j < i - start ==> is_digit(#[trigger] digits[j]),
            value == numeral_value(digits.take(i - start)),
        decreases chars@.len() - i,
    {
        let c = chars[i];
        assert(digits[i - start] == c);
        if c < '0' || c > '9' {
            return None;
        }
        let digit: u64 = (c as u32 - 48) as u64;
        let ghost next = digits.take(i - start + 1);
        assert(next.drop_last() =~= digits.take(i - start));
        assert(numeral_value(next) == value * 10 + digit);
        proof {
            lemma_numeral_prefix(digits, i - start + 1);
        }
        if value > (u64::MAX - digit) / 10 {
            return None;
        }
        value = value * 10 + digit;
        i += 1;
    }
    assert(digits.take(i - start) =~= digits);
    Some(value)
}

/// Writing a number in decimal and reading it back gives that number.
pub proof fn law_decimal_round_trip(n: u64)
    ensures
        parsed_u64(decimal(n as nat)) == Some(n),
{
    lemma_decimal(n as nat);
}

/// A decimal numeral holds digits alone, at least one, and stands for its number.
pub proof fn lemma_decimal(n: nat)
    ensures
        decimal(n).len() > 0,
        forall|i: int| 0 <= i < decimal(n).len() ==> is_digit(#[trigger] decimal(n)[i]),
        numeral_value(decimal(n)) == n,
    decreases n,
{
    reveal_with_fuel(numeral_value, 2);
    assert(is_digit(digit(n % 10)) && digit(n % 10) as nat - '0' as nat == n % 10);
    if n >= 10 {
        lemma_decimal(n / 10);
        assert(decimal(n).drop_last() =~= decimal(n / 10));
    } else {
        assert(decimal(n).drop_last() =~= Seq::empty());
    }
}

// ---------------------------------------------------------------------------
// Searching
// ---------------------------------------------------------------------------

/// Whether `part` stands in `text` at position `at`.
pub open spec fn stands_at(text: Seq<char>, part: Seq<char>, at: int) -> bool {
    0 <= at && at + part.len() <= text.len() && text.subrange(at, at + part.len()) == part
}

/// Whether `text` begins with `prefix`.
pub open spec fn begins(text: Seq<char>, prefix: Seq<char>) -> bool {
    stands_at(text, prefix, 0)
}

/// Whether `part` stands somewhere in `text`.
pub open spec fn holds(text: Seq<char>, part: Seq<char>) -> bool {
    exists|at: int| stands_at(text, part, at)
}

/// Whether `part` stands in `text` at position `at`.
fn found_at(text: &Vec<char>, part: &Vec<char>, at: usize) -> (found: bool)
    requires
        at <= text@.len(),
    ensures
        found == stands_at(text@, part@, at as int),
{
    let size: usize = text.len();
    if part.len() > size - at {
        return false;
    }
    let mut i: usize = 0;
    while i < part.len()
        invariant
            i <= part@.len(),
            at + part@.len() <= size,
            size == text@.len(),
            forall|j: int| 0 <= j < i ==> text@[at + j] == part@[j],
        decreases part@.len() - i,
    {
        if text[at + i] != part[i] {
            assert(text@.subrange(at as int, at + part@.len())[i as int] != part@[i as int]);
            return false;
        }
        i += 1;
    }
    assert(text@.subrange(at as int, at + part@.len()) =~= part@);
    true
}

/// Whether `text` begins with `prefix`.
pub fn starts_with(text: &str, prefix: &str) -> (found: bool)
    ensures
        found == begins(text@, prefix@),
{
    found_at(&chars_of(text), &chars_of(prefix), 0)
}

/// Whether `part` stands somewhere in `text`.
pub fn contains(text: &str, part: &str) -> (found: bool)
    ensures
        found == holds(text@, part@),
{
    let text_chars = chars_of(text);
    let part_chars = chars_of(part);
    let mut at: usize = 0;
    while at < text_chars.len()
        invariant
            text_chars@ == text@,
            part_chars@ == part@,
            at <= text@.len(),
            forall|k: int| 0 <= k < at ==> !stands_at(text@, part@, k),
        decreases text@.len() - at,
    {
        if found_at(&text_chars, &part_chars, at) {
            return true;
        }
        at += 1;
    }
    found_at(&text_chars, &part_chars, at)
}

/// `text` without `prefix`, where it begins with it.
pub open spec fn without_prefix(text: Seq<char>, prefix: Seq<char>) -> Option<Seq<char>> {
    if begins(text, prefix) {
        Some(text.skip(prefix.len() as int))
    } else {
        None
    }
}

/// `text` without `prefix`, where it begins with it.
pub fn strip_prefix(text: &str, prefix: &str) -> (rest: Option<String>)
    ensures
        rest.deep_view() == without_prefix(text@, prefix@),
{
    let chars = chars_of(text);
    let prefix_chars = chars_of(prefix);
    if found_at(&chars, &prefix_chars, 0) {
        let rest = string_of(&chars, prefix_chars.len(), chars.len());
        assert(rest@ =~= text@.skip(prefix@.len() as int));
        Some(rest)
    } else {
        None
    }
}

/// The position of the first `c` in `text`, or the length of `text`.
pub open spec fn first_of(text: Seq<char>, c: char) -> int
    decreases text.len(),
{
    if text.len() == 0 || text[0] == c {
        0
    } else {
        1 + first_of(text.drop_first(), c)
    }
}

/// The first `c` stands where no `c` comes before.
pub proof fn lemma_first_of(text: Seq<char>, c: char, at: int)
    requires
        0 <= at <= text.len(),
        forall|i: int| 0 <= i < at ==> text[i] != c,
        at < text.len() ==> text[at] == c,
    ensures
        first_of(text, c) == at,
    decreases text.len(),
{
    if text.len() > 0 && at > 0 {
        lemma_first_of(text.drop_first(), c, at - 1);
    }
}

/// What `first_of` gives.
pub proof fn lemma_first_of_bounds(text: Seq<char>, c: char)
    ensures
        0 <= first_of(text, c) <= text.len(),
        first_of(text, c) < text.len() ==> text[first_of(text, c)] == c,
        forall|i: int| 0 <= i < first_of(text, c) ==> text[i] != c,
    decreases text.len(),
{
    if text.len() > 0 && text[0] != c {
        lemma_first_of_bounds(text.drop_first(), c);
        assert forall|i: int| 0 <= i < first_of(text, c) implies text[i] != c by {
            if i > 0 {
                assert(text.drop_first()[i - 1] == text[i]);
            }
        }
    }
}

/// The position of the first `c` at or after `from`, or the number of characters.
pub fn position(chars: &Vec<char>, c: char, from: usize) -> (at: usize)
    requires
        from <= chars@.len(),
    ensures
        from <= at <= chars@.len(),
        at - from == first_of(chars@.skip(from as int), c),
{
    let mut at: usize = from;
    while at < chars.len() && chars[at] != c
        invariant
            from <= at <= chars@.len(),
            forall|i: int| from <= i < at ==> chars@[i] != c,
        decreases chars@.len() - at,
    {
        at += 1;
    }
    proof {
        lemma_first_of(chars@.skip(from as int), c, at - from);
    }
    at
}

// ---------------------------------------------------------------------------
// Letters
// ---------------------------------------------------------------------------

/// A letter of the alphabet in its small form; anything else as it is.
pub open spec fn small(c: char) -> char {
    if 'A' <= c <= 'Z' {
        ((c as u32) + 32) as char
    } else {
        c
    }
}

/// `text` in small letters.
pub open spec fn lower(text: Seq<char>) -> Seq<char> {
    text.map_values(|c: char| small(c))
}

fn small_of(c: char) -> (s: char)
    ensures
        s == small(c),
{
    if 'A' <= c && c <= 'Z' {
        ((c as u8) + 32) as char
    } else {
        c
    }
}

/// `text` in small letters. Only the letters of the alphabet have a small form.
pub fn lowered(text: &str) -> (result: String)
    ensures
        result@ == lower(text@),
{
    let chars = chars_of(text);
    let mut result = String::new();
    let mut i: usize = 0;
    assert(result@ =~= lower(chars@).take(0));
    while i < chars.len()
        invariant
            i <= chars@.len(),
            result@ == lower(chars@).take(i as int),
        decreases chars@.len() - i,
    {
        push_char(&mut result, small_of(chars[i]));
        i += 1;
        assert(result@ =~= lower(chars@).take(i as int));
    }
    assert(result@ =~= lower(chars@));
    result
}

// ---------------------------------------------------------------------------
// White space
// ---------------------------------------------------------------------------

/// Whether `c` is white space: the Unicode property White_Space.
pub open spec fn blank(c: char) -> bool {
    let n = c as u32;
    ||| 0x9 <= n <= 0xd
    ||| n == 0x20
    ||| n == 0x85
    ||| n == 0xa0
    ||| n == 0x1680
    ||| 0x2000 <= n <= 0x200a
    ||| n == 0x2028
    ||| n == 0x2029
    ||| n == 0x202f
    ||| n == 0x205f
    ||| n == 0x3000
}

/// Whether `c` is white space.
pub fn is_blank(c: char) -> (white: bool)
    ensures
        white == blank(c),
{
    let n: u32 = c as u32;
    (0x9 <= n && n <= 0xd) || n == 0x20 || n == 0x85 || n == 0xa0 || n == 0x1680 || (0x2000 <= n && n
        <= 0x200a) || n == 0x2028 || n == 0x2029 || n == 0x202f || n == 0x205f || n == 0x3000
}

/// `text` without the white space at its beginning.
pub open spec fn trim_start(text: Seq<char>) -> Seq<char>
    decreases text.len(),
{
    if text.len() > 0 && blank(text[0]) {
        trim_start(text.drop_first())
    } else {
        text
    }
}

/// `text` without the white space at its end.
pub open spec fn trim_end(text: Seq<char>) -> Seq<char>
    decreases text.len(),
{
    if text.len() > 0 && blank(text.last()) {
        trim_end(text.drop_last())
    } else {
        text
    }
}

/// `text` without the white space at either end.
pub open spec fn trim(text: Seq<char>) -> Seq<char> {
    trim_end(trim_start(text))
}

/// `text` without the white space at either end.
pub fn trimmed(text: &str) -> (inner: String)
    ensures
        inner@ == trim(text@),
{
    let chars = chars_of(text);
    let mut from: usize = 0;
    assert(chars@.skip(0) =~= chars@);
    while from < chars.len() && is_blank(chars[from])
        invariant
            from <= chars@.len(),
            trim_start(chars@.skip(from as int)) == trim_start(chars@),
        decreases chars@.len() - from,
    {
        assert(chars@.skip(from as int).drop_first() =~= chars@.skip(from + 1));
        from += 1;
    }
    let ghost inner = chars@.skip(from as int);
    assert(trim_start(chars@) == inner);
    let mut to: usize = chars.len();
    assert(chars@.subrange(from as int, to as int) =~= inner);
    while to > from && is_blank(chars[to - 1])
        invariant
            from <= to <= chars@.len(),
            inner == chars@.skip(from as int),
            trim_end(chars@.subrange(from as int, to as int)) == trim_end(inner),
        decreases to - from,
    {
        assert(chars@.subrange(from as int, to as int).drop_last() =~= chars@.subrange(
            from as int,
            to - 1,
        ));
        to -= 1;
    }
    string_of(&chars, from, to)
}

/// `text` without the white space at its end.
pub fn trimmed_end(text: &str) -> (inner: String)
    ensures
        inner@ == trim_end(text@),
{
    let chars = chars_of(text);
    let mut to: usize = chars.len();
    assert(chars@.take(to as int) =~= chars@);
    while to > 0 && is_blank(chars[to - 1])
        invariant
            to <= chars@.len(),
            trim_end(chars@.take(to as int)) == trim_end(chars@),
        decreases to,
    {
        assert(chars@.take(to as int).drop_last() =~= chars@.take(to - 1));
        to -= 1;
    }
    let inner = string_of(&chars, 0, to);
    assert(inner@ =~= chars@.take(to as int));
    inner
}

/// `text` without any `prefix` at its beginning, however often it stands there.
pub open spec fn without_leading(text: Seq<char>, prefix: Seq<char>) -> Seq<char>
    decreases text.len(),
{
    if prefix.len() > 0 && begins(text, prefix) {
        without_leading(text.skip(prefix.len() as int), prefix)
    } else {
        text
    }
}

/// `text` without any `prefix` at its beginning, however often it stands there.
pub fn stripped_leading(text: &str, prefix: &str) -> (rest: String)
    ensures
        rest@ == without_leading(text@, prefix@),
{
    let chars = chars_of(text);
    let prefix_chars = chars_of(prefix);
    let size: usize = chars.len();
    let mut from: usize = 0;
    assert(chars@.skip(0) =~= chars@);
    while prefix_chars.len() > 0 && found_at(&chars, &prefix_chars, from)
        invariant
            prefix_chars@ == prefix@,
            size == chars@.len(),
            from <= size,
            without_leading(chars@.skip(from as int), prefix@) == without_leading(chars@, prefix@),
        decreases chars@.len() - from,
    {
        let ghost rest = chars@.skip(from as int);
        assert(rest.subrange(0, prefix@.len() as int) =~= chars@.subrange(from as int, from + prefix@.len()));
        assert(begins(rest, prefix@));
        assert(rest.skip(prefix@.len() as int) =~= chars@.skip(from + prefix@.len()));
        from += prefix_chars.len();
    }
    proof {
        let rest = chars@.skip(from as int);
        if prefix@.len() > 0 && begins(rest, prefix@) {
            assert(chars@.subrange(from as int, from + prefix@.len()) =~= rest.subrange(0, prefix@.len() as int));
        }
    }
    let rest = string_of(&chars, from, chars.len());
    assert(rest@ =~= chars@.skip(from as int));
    rest
}

// ---------------------------------------------------------------------------
// Lines
// ---------------------------------------------------------------------------

/// A line without the carriage return that ends it, where it has one.
pub open spec fn without_return(line: Seq<char>) -> Seq<char> {
    if line.len() > 0 && line.last() == '\r' {
        line.drop_last()
    } else {
        line
    }
}

/// The lines of `text`: what stands between the line feeds, each line without a
/// carriage return before its line feed. A last line feed ends no further line.
pub open spec fn lines(text: Seq<char>) -> Seq<Seq<char>>
    decreases text.len(),
    via lines_decreases
{
    let end = first_of(text, '\n');
    if text.len() == 0 {
        Seq::empty()
    } else if end < text.len() {
        seq![without_return(text.take(end))] + lines(text.skip(end + 1))
    } else {
        seq![text]
    }
}

#[via_fn]
proof fn lines_decreases(text: Seq<char>) {
    lemma_first_of_bounds(text, '\n');
}

/// The lines of `text`.
pub fn lines_of(text: &str) -> (result: Vec<String>)
    ensures
        result.deep_view() == lines(text@),
{
    let chars = chars_of(text);
    let mut result: Vec<String> = Vec::new();
    let mut start: usize = 0;
    assert(chars@.skip(0) =~= chars@);
    assert(result.deep_view() + lines(chars@) =~= lines(chars@));
    while start < chars.len()
        invariant
            start <= chars@.len(),
            result.deep_view() + lines(chars@.skip(start as int)) == lines(chars@),
        decreases chars@.len() - start,
    {
        let end = position(&chars, '\n', start);
        let ghost rest = chars@.skip(start as int);
        let ghost before = result.deep_view();
        if end < chars.len() {
            let cut = if end > start && chars[end - 1] == '\r' {
                end - 1
            } else {
                end
            };
            let line = string_of(&chars, start, cut);
            assert(rest.take(end - start) =~= chars@.subrange(start as int, end as int));
            assert(line@ =~= without_return(rest.take(end - start)));
            result.push(line);
            assert(result.deep_view() =~= before.push(line@));
            assert(rest.skip(end - start + 1) =~= chars@.skip(end + 1));
            assert(before.push(line@) + lines(chars@.skip(end + 1)) =~= before + (seq![line@] + lines(
                chars@.skip(end + 1),
            )));
            start = end + 1;
        } else {
            let line = string_of(&chars, start, end);
            assert(line@ =~= rest);
            result.push(line);
            assert(result.deep_view() =~= before + seq![rest]);
            assert(chars@.skip(end as int) =~= Seq::empty());
            assert(result.deep_view() + lines(chars@.skip(end as int)) =~= result.deep_view());
            start = end;
        }
    }
    assert(chars@.skip(start as int) =~= Seq::empty());
    assert(result.deep_view() + Seq::<Seq<char>>::empty() =~= result.deep_view());
    result
}

// ---------------------------------------------------------------------------
// Splitting and replacing
// ---------------------------------------------------------------------------

/// What stands before, between and after the occurrences of `c` in `text`.
pub open spec fn split(text: Seq<char>, c: char) -> Seq<Seq<char>>
    decreases text.len(),
    via split_decreases
{
    let end = first_of(text, c);
    if end < text.len() {
        seq![text.take(end)] + split(text.skip(end + 1), c)
    } else {
        seq![text]
    }
}

#[via_fn]
proof fn split_decreases(text: Seq<char>, c: char) {
    lemma_first_of_bounds(text, c);
}

/// What stands before, between and after the occurrences of `c` in `text`.
pub fn split_on(text: &str, c: char) -> (parts: Vec<String>)
    ensures
        parts.deep_view() == split(text@, c),
{
    let chars = chars_of(text);
    let mut parts: Vec<String> = Vec::new();
    let mut start: usize = 0;
    assert(chars@.skip(0) =~= chars@);
    assert(parts.deep_view() + split(chars@, c) =~= split(chars@, c));
    loop
        invariant_except_break
            start <= chars@.len(),
            parts.deep_view() + split(chars@.skip(start as int), c) == split(chars@, c),
        ensures
            parts.deep_view() == split(chars@, c),
        decreases chars@.len() - start,
    {
        let end = position(&chars, c, start);
        let ghost rest = chars@.skip(start as int);
        let ghost before = parts.deep_view();
        let part = string_of(&chars, start, end);
        assert(part@ =~= rest.take(end - start));
        parts.push(part);
        assert(parts.deep_view() =~= before.push(part@));
        if end == chars.len() {
            assert(part@ =~= rest);
            assert(before.push(part@) =~= before + seq![rest]);
            break;
        }
        assert(rest.skip(end - start + 1) =~= chars@.skip(end + 1));
        assert(before.push(part@) + split(chars@.skip(end + 1), c) =~= before + (seq![part@] + split(
            chars@.skip(end + 1),
            c,
        )));
        start = end + 1;
    }
    parts
}

/// `text` with every occurrence of `pattern`, from the left, replaced by `by`.
pub open spec fn replace(text: Seq<char>, pattern: Seq<char>, by: Seq<char>) -> Seq<char>
    decreases text.len(),
{
    if text.len() == 0 || pattern.len() == 0 {
        text
    } else if begins(text, pattern) {
        by + replace(text.skip(pattern.len() as int), pattern, by)
    } else {
        seq![text[0]] + replace(text.drop_first(), pattern, by)
    }
}

/// `text` with every occurrence of `pattern` replaced by `by`.
pub fn replaced(text: &str, pattern: &str, by: &str) -> (result: String)
    requires
        pattern@.len() > 0,
    ensures
        result@ == replace(text@, pattern@, by@),
{
    let chars = chars_of(text);
    let pattern_chars = chars_of(pattern);
    let mut result = String::new();
    let mut i: usize = 0;
    assert(chars@.skip(0) =~= chars@);
    assert(result@ + replace(chars@, pattern@, by@) =~= replace(chars@, pattern@, by@));
    while i < chars.len()
        invariant
            i <= chars@.len(),
            pattern_chars@ == pattern@,
            pattern@.len() > 0,
            result@ + replace(chars@.skip(i as int), pattern@, by@) == replace(chars@, pattern@, by@),
        decreases chars@.len() - i,
    {
        let ghost rest = chars@.skip(i as int);
        let ghost before = result@;
        let found = found_at(&chars, &pattern_chars, i);
        assert(found == begins(rest, pattern@)) by {
            if i + pattern@.len() <= chars@.len() {
                assert(rest.subrange(0, pattern@.len() as int) =~= chars@.subrange(
                    i as int,
                    i + pattern@.len(),
                ));
            }
        }
        if found {
            result.append(by);
            assert(rest.skip(pattern@.len() as int) =~= chars@.skip(i + pattern@.len()));
            assert(before + by@ + replace(chars@.skip(i + pattern@.len()), pattern@, by@) =~= before + (by@
                + replace(chars@.skip(i + pattern@.len()), pattern@, by@)));
            i += pattern_chars.len();
        } else {
            push_char(&mut result, chars[i]);
            assert(rest.drop_first() =~= chars@.skip(i + 1));
            assert(before.push(rest[0]) + replace(chars@.skip(i + 1), pattern@, by@) =~= before + (seq![rest[0]]
                + replace(chars@.skip(i + 1), pattern@, by@)));
            i += 1;
        }
    }
    assert(chars@.skip(i as int) =~= Seq::empty());
    assert(result@ + Seq::<char>::empty() =~= result@);
    result
}

// ---------------------------------------------------------------------------
// Joining
// ---------------------------------------------------------------------------

/// `parts` one after the other, with `separator` between them.
pub open spec fn join(parts: Seq<Seq<char>>, separator: Seq<char>) -> Seq<char>
    decreases parts.len(),
{
    if parts.len() == 0 {
        Seq::empty()
    } else if parts.len() == 1 {
        parts[0]
    } else {
        join(parts.drop_last(), separator) + separator + parts.last()
    }
}

/// `parts` one after the other, with `separator` between them.
pub fn joined(parts: &Vec<String>, separator: &str) -> (text: String)
    ensures
        text@ == join(parts.deep_view(), separator@),
{
    let mut text = String::new();
    let mut i: usize = 0;
    assert(text@ =~= join(parts.deep_view().take(0), separator@));
    while i < parts.len()
        invariant
            i <= parts@.len(),
            text@ == join(parts.deep_view().take(i as int), separator@),
        decreases parts@.len() - i,
    {
        let ghost prefix = parts.deep_view().take(i + 1);
        assert(prefix.drop_last() =~= parts.deep_view().take(i as int));
        if i > 0 {
            text.append(separator);
            text.append(parts[i].as_str());
        } else {
            text = parts[i].clone();
        }
        i += 1;
    }
    assert(parts.deep_view().take(i as int) =~= parts.deep_view());
    text
}

// ---------------------------------------------------------------------------
// Words
// ---------------------------------------------------------------------------

/// The position of the first white space in `text`, or the length of `text`.
pub open spec fn first_blank(text: Seq<char>) -> int
    decreases text.len(),
{
    if text.len() == 0 || blank(text[0]) {
        0
    } else {
        1 + first_blank(text.drop_first())
    }
}

proof fn lemma_first_blank(text: Seq<char>)
    ensures
        0 <= first_blank(text) <= text.len(),
    decreases text.len(),
{
    if text.len() > 0 && !blank(text[0]) {
        lemma_first_blank(text.drop_first());
    }
}

/// The words of `text`, which white space sets apart.
pub open spec fn words(text: Seq<char>) -> Seq<Seq<char>>
    decreases text.len(),
{
    let rest = trim_start(text);
    let end = first_blank(rest);
    if rest.len() == 0 || end <= 0 || end > rest.len() || rest.len() > text.len() {
        Seq::empty()
    } else {
        seq![rest.take(end)] + words(rest.skip(end))
    }
}

proof fn lemma_trim_start(text: Seq<char>)
    ensures
        trim_start(text).len() <= text.len(),
        trim_start(text).len() > 0 ==> !blank(trim_start(text)[0]),
    decreases text.len(),
{
    if text.len() > 0 && blank(text[0]) {
        lemma_trim_start(text.drop_first());
    }
}

/// The words of `text`.
pub fn words_of(text: &str) -> (result: Vec<String>)
    ensures
        result.deep_view() == words(text@),
{
    let chars = chars_of(text);
    let mut result: Vec<String> = Vec::new();
    let mut at: usize = 0;
    assert(chars@.skip(0) =~= chars@);
    assert(result.deep_view() =~= Seq::empty());
    assert(words(chars@) =~= result.deep_view() + words(chars@.skip(0)));
    loop
        invariant
            at <= chars@.len(),
            words(chars@) == result.deep_view() + words(chars@.skip(at as int)),
        ensures
            words(chars@) == result.deep_view(),
        decreases chars@.len() - at,
    {
        let ghost text_left = chars@.skip(at as int);
        let mut from: usize = at;
        while from < chars.len() && is_blank(chars[from])
            invariant
                at <= from <= chars@.len(),
                trim_start(chars@.skip(from as int)) == trim_start(chars@.skip(at as int)),
            decreases chars@.len() - from,
        {
            assert(chars@.skip(from as int).drop_first() =~= chars@.skip(from + 1));
            from += 1;
        }
        let ghost rest = chars@.skip(from as int);
        assert(trim_start(text_left) == rest);
        if from == chars.len() {
            assert(words(text_left) =~= Seq::empty());
            assert(words(chars@) =~= result.deep_view());
            break;
        }
        let mut to: usize = from;
        while to < chars.len() && !is_blank(chars[to])
            invariant
                from <= to <= chars@.len(),
                rest == chars@.skip(from as int),
                first_blank(rest) == (to - from) + first_blank(chars@.skip(to as int)),
            decreases chars@.len() - to,
        {
            assert(chars@.skip(to as int).drop_first() =~= chars@.skip(to + 1));
            to += 1;
        }
        proof {
            lemma_first_blank(chars@.skip(to as int));
            if to < chars@.len() {
                assert(chars@.skip(to as int)[0] == chars@[to as int]);
            }
        }
        let ghost before = result.deep_view();
        let word = string_of(&chars, from, to);
        assert(word@ =~= rest.take(to - from));
        assert(rest.skip(to - from) =~= chars@.skip(to as int));
        result.push(word);
        assert(result.deep_view() =~= before.push(rest.take(to - from)));
        assert(rest[0] == chars@[from as int]);
        assert(words(text_left) == seq![rest.take(to - from)] + words(chars@.skip(to as int)));
        assert(before + (seq![rest.take(to - from)] + words(chars@.skip(to as int))) =~= before.push(
            rest.take(to - from),
        ) + words(chars@.skip(to as int)));
        at = to;
    }
    result
}

/// `text` followed by as many spaces as make it `width` characters wide.
pub open spec fn padded(text: Seq<char>, width: nat) -> Seq<char> {
    if text.len() >= width {
        text
    } else {
        text + Seq::new((width - text.len()) as nat, |i: int| ' ')
    }
}

/// `text` followed by as many spaces as make it `width` characters wide.
pub fn pad(text: &str, width: usize) -> (result: String)
    ensures
        result@ == padded(text@, width as nat),
{
    let size: usize = chars_of(text).len();
    let mut result = text.to_owned();
    let mut i: usize = size;
    assert(result@ =~= text@ + Seq::new(0, |i: int| ' '));
    while i < width
        invariant
            size == text@.len(),
            size <= i,
            i <= width || i == size,
            result@ == text@ + Seq::new((i - size) as nat, |i: int| ' '),
        decreases width - i,
    {
        push_char(&mut result, ' ');
        i += 1;
        assert(result@ =~= text@ + Seq::new((i - size) as nat, |i: int| ' '));
    }
    assert(size >= width ==> result@ =~= text@);
    result
}

/// Whether `text` ends with `c`.
pub fn ends_with_char(text: &str, c: char) -> (found: bool)
    ensures
        found == (text@.len() > 0 && text@.last() == c),
{
    let chars = chars_of(text);
    chars.len() > 0 && chars[chars.len() - 1] == c
}

/// `text`, with a line end added where it does not end with one.
pub open spec fn closed_line(text: Seq<char>) -> Seq<char> {
    if text.len() > 0 && text.last() == '\n' {
        text
    } else {
        text + "\n"@
    }
}

/// `text`, with a line end added where it does not end with one.
pub fn with_line_end(text: &str) -> (result: String)
    ensures
        result@ == closed_line(text@),
{
    if ends_with_char(text, '\n') {
        text.to_owned()
    } else {
        cat(text, "\n")
    }
}

// ---------------------------------------------------------------------------
// Laws
// ---------------------------------------------------------------------------

/// Whether each of `parts` stands in `text` where `at` says, one after the other.
pub open spec fn in_order_at(text: Seq<char>, parts: Seq<Seq<char>>, at: Seq<int>) -> bool {
    &&& at.len() == parts.len()
    &&& forall|i: int|
        0 <= i < parts.len() ==> 0 <= #[trigger] at[i] && at[i] + parts[i].len() <= text.len() && text.subrange(
            at[i],
            at[i] + parts[i].len(),
        ) == parts[i]
    &&& forall|i: int, j: int| 0 <= i < j < parts.len() ==> #[trigger] at[i] + parts[i].len() <= #[trigger] at[j]
}

/// Whether `parts` stand in `text` one after the other.
pub open spec fn holds_in_order(text: Seq<char>, parts: Seq<Seq<char>>) -> bool {
    exists|at: Seq<int>| in_order_at(text, parts, at)
}

/// What stands in a text one after the other still does where something is put before
/// and after it.
pub proof fn lemma_in_order_within(before: Seq<char>, text: Seq<char>, after: Seq<char>, parts: Seq<Seq<char>>)
    requires
        holds_in_order(text, parts),
    ensures
        holds_in_order(before + text + after, parts),
{
    let at = choose|at: Seq<int>| in_order_at(text, parts, at);
    let moved = at.map_values(|p: int| p + before.len());
    let whole = before + text + after;
    assert forall|i: int| 0 <= i < parts.len() implies 0 <= #[trigger] moved[i] && moved[i] + parts[i].len()
        <= whole.len() && whole.subrange(moved[i], moved[i] + parts[i].len()) == parts[i] by {
        assert(moved[i] == at[i] + before.len());
        assert(whole.subrange(moved[i], moved[i] + parts[i].len()) =~= text.subrange(
            at[i],
            at[i] + parts[i].len(),
        ));
    }
    assert(in_order_at(whole, parts, moved)) by {
        assert forall|i: int, j: int| 0 <= i < j < parts.len() implies #[trigger] moved[i] + parts[i].len()
            <= #[trigger] moved[j] by {
            assert(at[i] + parts[i].len() <= at[j]);
        }
    }
}

/// Parts that are joined stand in the result one after the other, the first at its
/// beginning and the last at its end, with nothing but the separator between two of
/// them.
pub proof fn law_joined_parts_stand_in_order(parts: Seq<Seq<char>>, separator: Seq<char>)
    ensures
        parts.len() == 0 ==> join(parts, separator).len() == 0,
        holds_in_order(join(parts, separator), parts),
        exists|at: Seq<int>| #[trigger]
            in_order_at(join(parts, separator), parts, at) && (parts.len() > 0 ==> at[0] == 0 && at.last()
                + parts.last().len() == join(parts, separator).len()) && forall|i: int|
                0 <= i < parts.len() - 1 ==> {
                    &&& #[trigger] at[i] + parts[i].len() + separator.len() == at[i + 1]
                    &&& join(parts, separator).subrange(at[i] + parts[i].len(), at[i + 1]) == separator
                },
    decreases parts.len(),
{
    let text = join(parts, separator);
    if parts.len() == 0 {
        assert(in_order_at(text, parts, Seq::<int>::empty()));
    } else if parts.len() == 1 {
        let at = seq![0int];
        assert(text.subrange(0, parts[0].len() as int) =~= parts[0]);
        assert(in_order_at(text, parts, at));
    } else {
        let front = parts.drop_last();
        let head = join(front, separator);
        law_joined_parts_stand_in_order(front, separator);
        let before = choose|at: Seq<int>| #[trigger]
            in_order_at(head, front, at) && (front.len() > 0 ==> at[0] == 0 && at.last() + front.last().len()
                == head.len()) && forall|i: int|
                0 <= i < front.len() - 1 ==> {
                    &&& #[trigger] at[i] + front[i].len() + separator.len() == at[i + 1]
                    &&& head.subrange(at[i] + front[i].len(), at[i + 1]) == separator
                };
        let at = before.push((head.len() + separator.len()) as int);
        let n = front.len() as int;
        assert forall|i: int| 0 <= i < parts.len() implies 0 <= #[trigger] at[i] && at[i] + parts[i].len()
            <= text.len() && text.subrange(at[i], at[i] + parts[i].len()) == parts[i] by {
            if i < n {
                assert(at[i] == before[i] && parts[i] == front[i]);
                assert(text.subrange(at[i], at[i] + parts[i].len()) =~= head.subrange(
                    before[i],
                    before[i] + front[i].len(),
                ));
            } else {
                assert(text.subrange(at[i], at[i] + parts[i].len()) =~= parts[i]);
            }
        }
        assert forall|i: int, j: int| 0 <= i < j < parts.len() implies #[trigger] at[i] + parts[i].len()
            <= #[trigger] at[j] by {
            assert(at[i] == before[i] && parts[i] == front[i]);
            if j < n {
                assert(at[j] == before[j] && parts[j] == front[j]);
            }
        }
        assert(in_order_at(text, parts, at));
        assert forall|i: int| 0 <= i < parts.len() - 1 implies {
            &&& #[trigger] at[i] + parts[i].len() + separator.len() == at[i + 1]
            &&& text.subrange(at[i] + parts[i].len(), at[i + 1]) == separator
        } by {
            assert(at[i] == before[i] && parts[i] == front[i]);
            if i < n - 1 {
                assert(at[i + 1] == before[i + 1]);
                assert(text.subrange(at[i] + parts[i].len(), at[i + 1]) =~= head.subrange(
                    before[i] + front[i].len(),
                    before[i + 1],
                ));
            } else {
                assert(before.last() == before[n - 1]);
                assert(text.subrange(at[i] + parts[i].len(), at[i + 1]) =~= separator);
            }
        }
    }
}

/// A text holds a part exactly where it is something, the part and something else, and
/// begins with it exactly where nothing comes before.
pub proof fn law_holding_is_standing_somewhere(text: Seq<char>, part: Seq<char>)
    ensures
        holds(text, part) <==> exists|before: Seq<char>, after: Seq<char>| text == #[trigger] (before + part + after),
        begins(text, part) <==> exists|after: Seq<char>| text == #[trigger] (part + after),
        without_prefix(text, part) matches Some(rest) ==> text == part + rest,
        without_prefix(text, part) is Some <==> begins(text, part),
{
    if holds(text, part) {
        let at = choose|at: int| stands_at(text, part, at);
        assert(text =~= text.take(at) + part + text.skip(at + part.len()));
    }
    if exists|before: Seq<char>, after: Seq<char>| text == #[trigger] (before + part + after) {
        let (before, after) = choose|before: Seq<char>, after: Seq<char>| text == #[trigger] (before + part + after);
        assert(text.subrange(before.len() as int, before.len() as int + part.len()) =~= part);
        assert(stands_at(text, part, before.len() as int));
    }
    if begins(text, part) {
        assert(text =~= part + text.skip(part.len() as int));
    }
    if exists|after: Seq<char>| text == #[trigger] (part + after) {
        let after = choose|after: Seq<char>| text == #[trigger] (part + after);
        assert(text.subrange(0, part.len() as int) =~= part);
    }
}

/// Small letters stand in the places of the great ones, and nothing else changes.
pub proof fn law_lowering_changes_great_letters_alone(text: Seq<char>)
    ensures
        lower(text).len() == text.len(),
        forall|i: int|
            0 <= i < text.len() ==> (#[trigger] lower(text)[i]) as u32 == (if 65 <= text[i] as u32 <= 90 {
                (text[i] as u32 + 32) as u32
            } else {
                text[i] as u32
            }),
        lower(lower(text)) == lower(text),
{
    assert forall|i: int| 0 <= i < text.len() implies (#[trigger] lower(text)[i]) as u32 == (if 65 <= text[i] as u32
        <= 90 {
        (text[i] as u32 + 32) as u32
    } else {
        text[i] as u32
    }) by {
        assert(lower(text)[i] == small(text[i]));
    }
    assert(lower(lower(text)) =~= lower(text)) by {
        assert forall|i: int| 0 <= i < text.len() implies lower(lower(text))[i] == lower(text)[i] by {
            assert(lower(lower(text))[i] == small(lower(text)[i]));
            assert(lower(text)[i] == small(text[i]));
        }
    }
}

/// Whether all of `text` is white space.
pub open spec fn all_blank(text: Seq<char>) -> bool {
    forall|i: int| 0 <= i < text.len() ==> blank(#[trigger] text[i])
}

proof fn lemma_trim_start_parts(text: Seq<char>)
    ensures
        exists|lead: Seq<char>| all_blank(lead) && text == #[trigger] (lead + trim_start(text)),
        trim_start(text).len() > 0 ==> !blank(trim_start(text)[0]),
    decreases text.len(),
{
    if text.len() > 0 && blank(text[0]) {
        let rest = text.drop_first();
        lemma_trim_start_parts(rest);
        let lead = choose|lead: Seq<char>| all_blank(lead) && rest == #[trigger] (lead + trim_start(rest));
        let more = seq![text[0]] + lead;
        assert(all_blank(more));
        assert(text =~= seq![text[0]] + rest);
        assert(more + trim_start(rest) =~= seq![text[0]] + (lead + trim_start(rest)));
        assert(text == more + trim_start(text));
    } else {
        let none = Seq::<char>::empty();
        assert(all_blank(none));
        assert(text =~= none + trim_start(text));
    }
}

proof fn lemma_trim_end_parts(text: Seq<char>)
    ensures
        exists|tail: Seq<char>| all_blank(tail) && text == #[trigger] (trim_end(text) + tail),
        trim_end(text).len() > 0 ==> !blank(trim_end(text).last()) && trim_end(text)[0] == text[0],
    decreases text.len(),
{
    if text.len() > 0 && blank(text.last()) {
        let rest = text.drop_last();
        lemma_trim_end_parts(rest);
        let tail = choose|tail: Seq<char>| all_blank(tail) && rest == #[trigger] (trim_end(rest) + tail);
        let more = tail.push(text.last());
        assert(all_blank(more));
        assert(text =~= rest.push(text.last()));
        assert(trim_end(rest) + more =~= (trim_end(rest) + tail).push(text.last()));
        assert(text == trim_end(text) + more);
    } else {
        let none = Seq::<char>::empty();
        assert(all_blank(none));
        assert(text =~= trim_end(text) + none);
    }
}

/// Trimming takes white space off both ends and nothing else: what is left neither
/// begins nor ends with any.
pub proof fn law_trimming_takes_off_blanks_alone(text: Seq<char>)
    ensures
        exists|lead: Seq<char>, tail: Seq<char>|
            all_blank(lead) && all_blank(tail) && text == #[trigger] (lead + trim(text) + tail),
        trim(text).len() > 0 ==> !blank(trim(text)[0]) && !blank(trim(text).last()),
        all_blank(text) ==> trim(text).len() == 0,
{
    let rest = trim_start(text);
    lemma_trim_start_parts(text);
    lemma_trim_end_parts(rest);
    let lead = choose|lead: Seq<char>| all_blank(lead) && text == #[trigger] (lead + rest);
    let tail = choose|tail: Seq<char>| all_blank(tail) && rest == #[trigger] (trim_end(rest) + tail);
    assert(text =~= lead + trim(text) + tail);
    if all_blank(text) && trim(text).len() > 0 {
        assert(trim(text)[0] == text[lead.len() as int]);
    }
}

/// A text is split at each separator and nowhere else: joined again, the parts are the
/// text, and none of them holds the separator.
pub proof fn law_splitting_loses_nothing(text: Seq<char>, c: char)
    ensures
        split(text, c).len() > 0,
        join(split(text, c), seq![c]) == text,
        forall|i: int| 0 <= i < split(text, c).len() ==> !(#[trigger] split(text, c)[i]).contains(c),
    decreases text.len(),
{
    let end = first_of(text, c);
    lemma_first_of_bounds(text, c);
    if end < text.len() {
        let rest = text.skip(end + 1);
        law_splitting_loses_nothing(rest, c);
        let parts = split(text, c);
        assert(!text.take(end).contains(c)) by {
            if text.take(end).contains(c) {
                let i = choose|i: int| 0 <= i < end && text.take(end)[i] == c;
                assert(text[i] == c);
            }
        }
        assert forall|i: int| 0 <= i < parts.len() implies !(#[trigger] parts[i]).contains(c) by {
            if i > 0 {
                assert(parts[i] == split(rest, c)[i - 1]);
            }
        }
        lemma_join_first(text.take(end), split(rest, c), seq![c]);
        assert(text =~= text.take(end) + seq![c] + rest);
    } else {
        assert(!text.contains(c)) by {
            if text.contains(c) {
                let i = choose|i: int| 0 <= i < text.len() && text[i] == c;
                assert(false);
            }
        }
        assert(join(seq![text], seq![c]) == text);
    }
}

/// Joining can begin at the front as well.
pub proof fn lemma_join_first(first: Seq<char>, rest: Seq<Seq<char>>, separator: Seq<char>)
    requires
        rest.len() > 0,
    ensures
        join(seq![first] + rest, separator) == first + separator + join(rest, separator),
    decreases rest.len(),
{
    let all = seq![first] + rest;
    if rest.len() == 1 {
        assert(all.drop_last() =~= seq![first]);
        reveal_with_fuel(join, 3);
        assert(join(all, separator) =~= first + separator + join(rest, separator));
    } else {
        lemma_join_first(first, rest.drop_last(), separator);
        assert(all.drop_last() =~= seq![first] + rest.drop_last());
        assert(join(all, separator) =~= first + separator + join(rest, separator));
    }
}

/// A text that begins with a part without the separator, and then the separator, is
/// split into that part and the rest.
pub proof fn law_split_takes_the_first_part(first: Seq<char>, rest: Seq<char>, c: char)
    requires
        !first.contains(c),
    ensures
        split(first, c) == seq![first],
        split(first + seq![c] + rest, c) == seq![first] + split(rest, c),
{
    let text = first + seq![c] + rest;
    assert forall|i: int| 0 <= i < first.len() implies first[i] != c by {
        assert(first.contains(first[i]));
    }
    lemma_first_of(text, c, first.len() as int);
    lemma_first_of(first, c, first.len() as int);
    assert(text.take(first.len() as int) =~= first);
    assert(text.skip(first.len() as int + 1) =~= rest);
}

/// A line ends at its line end and loses a carriage return before it; what comes after
/// is the following lines. A text without a line end is one line.
pub proof fn law_lines_end_at_line_ends(first: Seq<char>, rest: Seq<char>)
    requires
        !first.contains('\n'),
    ensures
        lines(Seq::empty()) == Seq::<Seq<char>>::empty(),
        first.len() > 0 ==> lines(first) == seq![first],
        lines(first + seq!['\n'] + rest) == seq![
            if first.len() > 0 && first.last() == '\r' {
                first.drop_last()
            } else {
                first
            },
        ] + lines(rest),
{
    let text = first + seq!['\n'] + rest;
    assert forall|i: int| 0 <= i < first.len() implies first[i] != '\n' by {
        assert(first.contains(first[i]));
    }
    lemma_first_of(text, '\n', first.len() as int);
    lemma_first_of(first, '\n', first.len() as int);
    assert(text.take(first.len() as int) =~= first);
    assert(text.skip(first.len() as int + 1) =~= rest);
}

/// Replacing leaves a text without the pattern as it is, and otherwise puts the other
/// text in the place of the first occurrence and goes on after it.
pub proof fn law_replacing_goes_from_left_to_right(
    before: Seq<char>,
    pattern: Seq<char>,
    after: Seq<char>,
    by: Seq<char>,
)
    requires
        pattern.len() > 0,
        forall|i: int| 0 <= i < before.len() ==> !stands_at(before + pattern + after, pattern, i),
    ensures
        replace(before + pattern + after, pattern, by) == before + by + replace(after, pattern, by),
    decreases before.len(),
{
    let text = before + pattern + after;
    if before.len() == 0 {
        assert(text.subrange(0, pattern.len() as int) =~= pattern);
        assert(text.skip(pattern.len() as int) =~= after);
        assert(before + by + replace(after, pattern, by) =~= by + replace(after, pattern, by));
    } else {
        let rest = before.drop_first();
        assert(!stands_at(text, pattern, 0));
        assert(text.drop_first() =~= rest + pattern + after);
        assert forall|i: int| 0 <= i < rest.len() implies !stands_at(rest + pattern + after, pattern, i) by {
            assert(!stands_at(text, pattern, i + 1));
            if stands_at(rest + pattern + after, pattern, i) {
                assert(text.subrange(i + 1, i + 1 + pattern.len()) =~= (rest + pattern + after).subrange(
                    i,
                    i + pattern.len(),
                ));
            }
        }
        law_replacing_goes_from_left_to_right(rest, pattern, after, by);
        assert(before + by + replace(after, pattern, by) =~= seq![text[0]] + (rest + by + replace(
            after,
            pattern,
            by,
        )));
    }
}

/// A text that does not hold the pattern is left as it is.
pub proof fn law_nothing_is_replaced_elsewhere(text: Seq<char>, pattern: Seq<char>, by: Seq<char>)
    requires
        !holds(text, pattern),
    ensures
        replace(text, pattern, by) == text,
    decreases text.len(),
{
    if text.len() > 0 && pattern.len() > 0 {
        assert(!stands_at(text, pattern, 0));
        let rest = text.drop_first();
        assert(!holds(rest, pattern)) by {
            if holds(rest, pattern) {
                let at = choose|at: int| stands_at(rest, pattern, at);
                assert(text.subrange(at + 1, at + 1 + pattern.len()) =~= rest.subrange(at, at + pattern.len()));
                assert(stands_at(text, pattern, at + 1));
            }
        }
        law_nothing_is_replaced_elsewhere(rest, pattern, by);
        assert(replace(text, pattern, by) =~= text);
    }
}

/// A padded text is the text and then spaces alone, just so many that it is as wide as
/// asked for.
pub proof fn law_padding_adds_spaces_alone(text: Seq<char>, width: nat)
    ensures
        padded(text, width).len() == (if text.len() < width {
            width
        } else {
            text.len()
        }),
        padded(text, width).take(text.len() as int) == text,
        forall|i: int| text.len() <= i < padded(text, width).len() ==> #[trigger] padded(text, width)[i] == ' ',
{
    assert(padded(text, width).take(text.len() as int) =~= text);
}

/// A closed line ends with a line end and is otherwise the text.
pub proof fn law_closed_lines_end_with_one_line_end(text: Seq<char>)
    ensures
        closed_line(text).len() > 0 && closed_line(text).last() == '\n',
        closed_line(text) == text || closed_line(text) == text.push('\n') && (text.len() == 0 || text.last() != '\n'),
{
    reveal_strlit("\n");
    assert(text + "\n"@ =~= text.push('\n'));
}

/// A part stands in a text that something stands before and after.
pub proof fn lemma_holds_within(before: Seq<char>, part: Seq<char>, after: Seq<char>)
    ensures
        holds(before + part + after, part),
{
    let text = before + part + after;
    assert(text.subrange(before.len() as int, (before.len() + part.len()) as int) =~= part);
    assert(stands_at(text, part, before.len() as int));
}

/// What stands in a part of a text stands in the text.
pub proof fn lemma_holds_in_part(before: Seq<char>, text: Seq<char>, after: Seq<char>, part: Seq<char>)
    requires
        holds(text, part),
    ensures
        holds(before + text + after, part),
{
    let at = choose|at: int| stands_at(text, part, at);
    let whole = before + text + after;
    assert(whole.subrange(at + before.len(), at + before.len() + part.len()) =~= text.subrange(at, at + part.len()));
    assert(stands_at(whole, part, at + before.len()));
}

/// Two parts stand in a text in the order in which they are put there.
pub proof fn lemma_two_in_order(
    before: Seq<char>,
    first: Seq<char>,
    between: Seq<char>,
    second: Seq<char>,
    after: Seq<char>,
)
    ensures
        holds_in_order(before + first + between + second + after, seq![first, second]),
{
    let text = before + first + between + second + after;
    let start = before.len() as int;
    let next = start + first.len() + between.len();
    assert(text.subrange(start, start + first.len()) =~= first);
    assert(text.subrange(next, next + second.len()) =~= second);
    let at = seq![start, next];
    assert(in_order_at(text, seq![first, second], at));
}

/// Four parts stand in a text in the order in which they are put there.
pub proof fn lemma_four_in_order(
    a: Seq<char>,
    first: Seq<char>,
    b: Seq<char>,
    second: Seq<char>,
    c: Seq<char>,
    third: Seq<char>,
    d: Seq<char>,
    fourth: Seq<char>,
    e: Seq<char>,
)
    ensures
        holds_in_order(a + first + b + second + c + third + d + fourth + e, seq![first, second, third, fourth]),
{
    let text = a + first + b + second + c + third + d + fourth + e;
    let one = a.len() as int;
    let two = one + first.len() + b.len();
    let three = two + second.len() + c.len();
    let four = three + third.len() + d.len();
    assert(text.subrange(one, one + first.len()) =~= first);
    assert(text.subrange(two, two + second.len()) =~= second);
    assert(text.subrange(three, three + third.len()) =~= third);
    assert(text.subrange(four, four + fourth.len()) =~= fourth);
    let at = seq![one, two, three, four];
    assert(in_order_at(text, seq![first, second, third, fourth], at));
}

/// What follows the last separator is the last part.
pub proof fn law_split_takes_the_last_part(text: Seq<char>, last: Seq<char>, c: char)
    requires
        !last.contains(c),
    ensures
        split(text + seq![c] + last, c) == split(text, c).push(last),
    decreases text.len(),
{
    lemma_first_of_bounds(text, c);
    let at = first_of(text, c);
    law_split_takes_the_first_part(last, Seq::empty(), c);
    if at == text.len() {
        assert(!text.contains(c));
        law_split_takes_the_first_part(text, last, c);
        assert(seq![text] + seq![last] =~= seq![text].push(last));
    } else {
        let first = text.take(at);
        let rest = text.skip(at + 1);
        assert(!first.contains(c)) by {
            if first.contains(c) {
                let i = choose|i: int| 0 <= i < first.len() && first[i] == c;
                assert(text[i] == c);
            }
        }
        law_split_takes_the_last_part(rest, last, c);
        law_split_takes_the_first_part(first, rest, c);
        law_split_takes_the_first_part(first, rest + seq![c] + last, c);
        assert(text =~= first + seq![c] + rest);
        assert(text + seq![c] + last =~= first + seq![c] + (rest + seq![c] + last));
        assert(seq![first] + split(rest, c).push(last) =~= (seq![first] + split(rest, c)).push(last));
    }
}

/// What is taken off the end of a text is blank, and what is left does not end with a
/// blank.
pub proof fn law_trimming_the_end_takes_off_blanks_alone(text: Seq<char>)
    ensures
        exists|tail: Seq<char>| all_blank(tail) && text == #[trigger] (trim_end(text) + tail),
        trim_end(text).len() > 0 ==> !blank(trim_end(text).last()),
{
    lemma_trim_end_parts(text);
}

/// Three parts stand in a text in the order in which they are put there.
pub proof fn lemma_three_in_order(
    a: Seq<char>,
    first: Seq<char>,
    b: Seq<char>,
    second: Seq<char>,
    c: Seq<char>,
    third: Seq<char>,
    d: Seq<char>,
)
    ensures
        holds_in_order(a + first + b + second + c + third + d, seq![first, second, third]),
{
    let text = a + first + b + second + c + third + d;
    let one = a.len() as int;
    let two = one + first.len() + b.len();
    let three = two + second.len() + c.len();
    assert(text.subrange(one, one + first.len()) =~= first);
    assert(text.subrange(two, two + second.len()) =~= second);
    assert(text.subrange(three, three + third.len()) =~= third);
    let at = seq![one, two, three];
    assert(in_order_at(text, seq![first, second, third], at));
}

/// A part that is put after a text stands there after the parts of the text.
pub proof fn lemma_in_order_push(
    text: Seq<char>,
    parts: Seq<Seq<char>>,
    lead: Seq<char>,
    part: Seq<char>,
    tail: Seq<char>,
)
    requires
        holds_in_order(text, parts),
    ensures
        holds_in_order(text + (lead + part + tail), parts.push(part)),
{
    let at = choose|at: Seq<int>| in_order_at(text, parts, at);
    let start = (text.len() + lead.len()) as int;
    let places = at.push(start);
    let whole = text + (lead + part + tail);
    let all = parts.push(part);
    assert forall|i: int| 0 <= i < all.len() implies 0 <= #[trigger] places[i] && places[i] + all[i].len()
        <= whole.len() && whole.subrange(places[i], places[i] + all[i].len()) == all[i] by {
        if i < parts.len() {
            assert(places[i] == at[i]);
            assert(whole.subrange(at[i], at[i] + all[i].len()) =~= text.subrange(at[i], at[i] + all[i].len()));
        } else {
            assert(whole.subrange(start, start + part.len()) =~= part);
        }
    }
    assert forall|i: int, j: int| 0 <= i < j < all.len() implies #[trigger] places[i] + all[i].len()
        <= #[trigger] places[j] by {
        assert(places[i] == at[i]);
        if j < parts.len() {
            assert(places[j] == at[j]);
        }
    }
    assert(in_order_at(whole, all, places));
}

/// In any text nothing stands.
pub proof fn lemma_in_order_empty(text: Seq<char>)
    ensures
        holds_in_order(text, Seq::empty()),
{
    assert(in_order_at(text, Seq::empty(), Seq::empty()));
}

/// What stands in a text one after the other still does where something is put after it, or
/// before it.
pub proof fn lemma_in_order_joined(text: Seq<char>, other: Seq<char>, parts: Seq<Seq<char>>)
    requires
        holds_in_order(text, parts),
    ensures
        holds_in_order(text + other, parts),
        holds_in_order(other + text, parts),
{
    let none = Seq::<char>::empty();
    lemma_in_order_within(none, text, other, parts);
    lemma_in_order_within(other, text, none, parts);
    assert(none + text + other =~= text + other);
    assert(other + text + none =~= other + text);
}

/// The words of a text are what blanks set apart: a word that stands first, after blanks, is
/// the first word, and blanks alone hold none.
pub proof fn law_words_are_set_apart_by_blanks(lead: Seq<char>, first: Seq<char>, rest: Seq<char>)
    requires
        all_blank(lead),
        first.len() > 0,
        forall|i: int| 0 <= i < first.len() ==> !blank(#[trigger] first[i]),
        rest.len() > 0 ==> blank(rest[0]),
    ensures
        words(lead + first + rest) == seq![first] + words(rest),
        words(lead) == Seq::<Seq<char>>::empty(),
{
    let text = lead + first + rest;
    let tail = first + rest;
    assert(text =~= lead + tail);
    lemma_trim_start_is(lead, tail);
    lemma_first_blank_is(first, rest);
    assert(tail.take(first.len() as int) =~= first);
    assert(tail.skip(first.len() as int) =~= rest);
    let none = Seq::<char>::empty();
    lemma_trim_start_is(lead, none);
    assert(lead + none =~= lead);
}

proof fn lemma_trim_start_is(lead: Seq<char>, rest: Seq<char>)
    requires
        all_blank(lead),
        rest.len() > 0 ==> !blank(rest[0]),
    ensures
        trim_start(lead + rest) == rest,
    decreases lead.len(),
{
    if lead.len() > 0 {
        assert(blank(lead[0]));
        assert((lead + rest).drop_first() =~= lead.drop_first() + rest);
        assert forall|i: int| 0 <= i < lead.drop_first().len() implies blank(#[trigger] lead.drop_first()[i]) by {
            assert(blank(lead[i + 1]));
        }
        lemma_trim_start_is(lead.drop_first(), rest);
    } else {
        assert(lead + rest =~= rest);
    }
}

proof fn lemma_first_blank_is(first: Seq<char>, rest: Seq<char>)
    requires
        forall|i: int| 0 <= i < first.len() ==> !blank(#[trigger] first[i]),
        rest.len() > 0 ==> blank(rest[0]),
    ensures
        first_blank(first + rest) == first.len(),
    decreases first.len(),
{
    if first.len() > 0 {
        assert(!blank(first[0]));
        assert((first + rest).drop_first() =~= first.drop_first() + rest);
        assert forall|i: int| 0 <= i < first.drop_first().len() implies !blank(#[trigger] first.drop_first()[i]) by {
            assert(!blank(first[i + 1]));
        }
        lemma_first_blank_is(first.drop_first(), rest);
    } else {
        assert(first + rest =~= rest);
    }
}

/// A number is read from decimal digits, after a plus sign or without one, and from nothing
/// else; a digit more makes it ten times as great, and that digit more.
pub proof fn law_numbers_are_read_digit_by_digit(text: &str, number: Option<u64>, next: char)
    requires
        call_ensures(parse_u64, (text,), number),
        '0' <= next <= '9',
    ensures
        number is Some ==> text@.len() > 0 && forall|i: int|
            0 <= i < text@.len() ==> '0' <= #[trigger] text@[i] <= '9' || (i == 0 && text@[i] == '+'),
        number matches Some(n) && 10 * n + (next as int - '0' as int) <= u64::MAX ==> parsed_u64(text@.push(next))
            == Some((10 * number->0 + (next as int - '0' as int)) as u64),
        parsed_u64(seq![next]) == Some((next as int - '0' as int) as u64),
{
    reveal_with_fuel(numeral_value, 2);
    let one = seq![next];
    assert(one[0] == next);
    assert(without_plus(one) == one);
    assert(one.drop_last().len() == 0);
    if let Some(n) = number {
        let digits = without_plus(text@);
        assert forall|i: int| 0 <= i < text@.len() implies '0' <= #[trigger] text@[i] <= '9' || (i == 0 && text@[i]
            == '+') by {
            if text@[0] == '+' {
                if i > 0 {
                    assert(is_digit(digits[i - 1]));
                }
            } else {
                assert(is_digit(digits[i]));
            }
        }
        let more = text@.push(next);
        assert(without_plus(more) =~= digits.push(next));
        assert(digits.push(next).drop_last() =~= digits);
        assert(digits.push(next).last() == next);
    }
}

/// A number in decimal digits does not begin with a zero, unless it is zero.
pub proof fn law_decimals_do_not_begin_with_zero(n: nat)
    ensures
        n > 0 ==> decimal(n)[0] != '0',
        decimal(0) == seq!['0'],
    decreases n,
{
    if n >= 10 {
        law_decimals_do_not_begin_with_zero(n / 10);
        lemma_decimal(n / 10);
        assert(decimal(n)[0] == decimal(n / 10)[0]);
    }
}

} // verus!
