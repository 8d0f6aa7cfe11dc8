//! Text as sequences of characters: reading, comparing and building strings.

use vstd::prelude::*;
use vstd::string::*;

verus! {

/// `String::push`: the character goes to the end of the string.
pub assume_specification[ String::push ](s: &mut String, c: char)
    ensures
        final(s)@ == old(s)@.push(c),
;

/// What `format!("{:?}", text)` prints for a string: the text in double quotes,
/// with the escapes of `str`'s `Debug`.
pub uninterp spec fn quoted(text: Seq<char>) -> Seq<char>;

/// `str`'s `Debug` form. Which characters it escapes, and how, is left to the
/// name.
#[verifier::external_body]
pub(crate) fn quote(text: &str) -> (out: String)
    ensures
        out@ == quoted(text@),
{
    format!("{:?}", text)
}

/// What `str::to_lowercase` returns.
pub uninterp spec fn lowercased(text: Seq<char>) -> Seq<char>;

/// One character of ASCII text in lower case.
pub open spec fn ascii_lower(c: char) -> char {
    if 'A' <= c && c <= 'Z' {
        (c as u32 + 32) as char
    } else {
        c
    }
}

/// `str::to_lowercase`. Beyond the name, one fact of Unicode's mapping: text
/// that is all ASCII is lowered character by character.
#[verifier::external_body]
pub(crate) fn lowercase(text: &str) -> (out: String)
    ensures
        out@ == lowercased(text@),
        is_ascii(text) ==> out@ == text@.map_values(|c: char| ascii_lower(c)),
{
    text.to_lowercase()
}

/// The characters of a string, in order.
pub fn chars_of(s: &str) -> (out: Vec<char>)
    ensures
        out@ == s@,
{
    let mut out: Vec<char> = Vec::new();
    for c in it: s.chars()
        invariant
            out@ == it.seq().take(it.index()),
            it.seq() == s@,
    {
        assert(it.seq().take(it.index() + 1) =~= it.seq().take(it.index()).push(c));
        out.push(c);
    }
    assert(s@.take(s@.len() as int) =~= s@);
    out
}

/// The string made of the characters of a slice.
pub fn text_of(chars: &[char]) -> (out: String)
    ensures
        out@ == chars@,
{
    let mut out = String::new();
    let mut i: usize = 0;
    while i < chars.len()
        invariant
            i <= chars.len(),
            out@ == chars@.take(i as int),
        decreases chars.len() - i,
    {
        out.push(chars[i]);
        i = i + 1;
        assert(chars@.take(i as int) =~= chars@.take(i - 1).push(chars@[i - 1]));
    }
    assert(chars@.take(chars.len() as int) =~= chars@);
    out
}

/// Whether two slices of characters are equal.
pub fn same_chars(left: &[char], right: &[char]) -> (same: bool)
    ensures
        same == (left@ == right@),
{
    if left.len() != right.len() {
        return false;
    }
    let mut i: usize = 0;
    while i < left.len()
        invariant
            i <= left.len(),
            left.len() == right.len(),
            forall|j: int| 0 <= j < i ==> left@[j] == right@[j],
        decreases left.len() - i,
    {
        if left[i] != right[i] {
            return false;
        }
        i = i + 1;
    }
    assert(left@ =~= right@);
    true
}

/// Whether two strings hold the same characters.
pub fn same_text(a: &str, b: &str) -> (same: bool)
    ensures
        same == (a@ == b@),
{
    let left = chars_of(a);
    let right = chars_of(b);
    same_chars(left.as_slice(), right.as_slice())
}

/// Whether `text` begins with `prefix`.
pub open spec fn begins_with(text: Seq<char>, prefix: Seq<char>) -> bool {
    prefix.len() <= text.len() && text.take(prefix.len() as int) == prefix
}

/// `str::starts_with` on characters.
pub fn starts_with(text: &[char], prefix: &[char]) -> (found: bool)
    ensures
        found == begins_with(text@, prefix@),
{
    if prefix.len() > text.len() {
        return false;
    }
    let mut i: usize = 0;
    while i < prefix.len()
        invariant
            i <= prefix.len() <= text.len(),
            forall|j: int| 0 <= j < i ==> text@[j] == prefix@[j],
        decreases prefix.len() - i,
    {
        if text[i] != prefix[i] {
            assert(text@.take(prefix@.len() as int)[i as int] != prefix@[i as int]);
            return false;
        }
        i = i + 1;
    }
    assert(text@.take(prefix@.len() as int) =~= prefix@);
    true
}

// ---------------------------------------------------------------- whitespace
/// Unicode's `White_Space`, which is what `str::trim` removes.
pub open spec fn is_space(c: char) -> bool {
    ||| '\u{9}' <= c && c <= '\u{d}'
    ||| c == ' '
    ||| c == '\u{85}'
    ||| c == '\u{a0}'
    ||| c == '\u{1680}'
    ||| '\u{2000}' <= c && c <= '\u{200a}'
    ||| c == '\u{2028}'
    ||| c == '\u{2029}'
    ||| c == '\u{202f}'
    ||| c == '\u{205f}'
    ||| c == '\u{3000}'
}

pub fn space(c: char) -> (r: bool)
    ensures
        r == is_space(c),
{
    ('\u{9}' <= c && c <= '\u{d}') || c == ' ' || c == '\u{85}' || c == '\u{a0}' || c == '\u{1680}'
        || ('\u{2000}' <= c && c <= '\u{200a}') || c == '\u{2028}' || c == '\u{2029}'
        || c == '\u{202f}' || c == '\u{205f}' || c == '\u{3000}'
}

/// Text without the whitespace in front of it.
pub open spec fn trimmed_start(text: Seq<char>) -> Seq<char>
    decreases text.len(),
{
    if text.len() > 0 && is_space(text[0]) {
        trimmed_start(text.drop_first())
    } else {
        text
    }
}

/// Text without the whitespace behind it.
pub open spec fn trimmed_end(text: Seq<char>) -> Seq<char>
    decreases text.len(),
{
    if text.len() > 0 && is_space(text.last()) {
        trimmed_end(text.drop_last())
    } else {
        text
    }
}

/// Text without the whitespace around it.
pub open spec fn trimmed(text: Seq<char>) -> Seq<char> {
    trimmed_end(trimmed_start(text))
}

/// `str::trim` on characters.
pub fn trim(text: &[char]) -> (out: Vec<char>)
    ensures
        out@ == trimmed(text@),
{
    let mut start: usize = 0;
    assert(text@.subrange(0, text@.len() as int) =~= text@);
    while start < text.len() && space(text[start])
        invariant
            start <= text.len(),
            trimmed_start(text@) == trimmed_start(text@.subrange(start as int, text@.len() as int)),
        decreases text.len() - start,
    {
        assert(text@.subrange(start as int, text@.len() as int).drop_first() =~= text@.subrange(
            start + 1,
            text@.len() as int,
        ));
        start = start + 1;
    }
    let ghost head = text@.subrange(start as int, text@.len() as int);
    assert(trimmed_start(text@) == head);
    let mut end: usize = text.len();
    assert(text@.subrange(start as int, end as int) =~= head);
    while end > start && space(text[end - 1])
        invariant
            start <= end <= text.len(),
            trimmed_end(head) == trimmed_end(text@.subrange(start as int, end as int)),
        decreases end - start,
    {
        assert(text@.subrange(start as int, end as int).drop_last() =~= text@.subrange(
            start as int,
            end - 1,
        ));
        end = end - 1;
    }
    subslice(text, start, end)
}

/// A copy of the characters `start..end`.
pub fn subslice(text: &[char], start: usize, end: usize) -> (out: Vec<char>)
    requires
        start <= end <= text@.len(),
    ensures
        out@ == text@.subrange(start as int, end as int),
{
    let mut out: Vec<char> = Vec::new();
    let mut i: usize = start;
    while i < end
        invariant
            start <= i <= end <= text@.len(),
            out@ == text@.subrange(start as int, i as int),
        decreases end - i,
    {
        out.push(text[i]);
        i = i + 1;
        assert(text@.subrange(start as int, i as int) =~= text@.subrange(start as int, i - 1).push(
            text@[i - 1],
        ));
    }
    out
}

/// `str::to_ascii_lowercase` on characters: only `A` to `Z` change.
pub open spec fn ascii_lowered(text: Seq<char>) -> Seq<char> {
    text.map_values(|c: char| ascii_lower(c))
}

pub fn lower_ascii_char(c: char) -> (r: char)
    ensures
        r == ascii_lower(c),
{
    if 'A' <= c && c <= 'Z' {
        ((c as u8) + 32) as char
    } else {
        c
    }
}

pub fn lower_ascii(text: &[char]) -> (out: Vec<char>)
    ensures
        out@ == ascii_lowered(text@),
{
    let mut out: Vec<char> = Vec::new();
    let mut i: usize = 0;
    while i < text.len()
        invariant
            i <= text.len(),
            out@ == ascii_lowered(text@.take(i as int)),
        decreases text.len() - i,
    {
        out.push(lower_ascii_char(text[i]));
        i = i + 1;
        assert(text@.take(i as int) =~= text@.take(i - 1).push(text@[i - 1]));
        assert(ascii_lowered(text@.take(i as int)) =~= ascii_lowered(text@.take(i - 1)).push(
            ascii_lower(text@[i - 1]),
        ));
    }
    assert(text@.take(text@.len() as int) =~= text@);
    out
}

// ------------------------------------------------------------------- numbers
pub open spec fn digit_char(d: nat) -> char {
    (48 + d) as char
}

/// The decimal digits of a number, most significant first.
pub open spec fn decimal(n: nat) -> Seq<char>
    decreases n,
{
    if n < 10 {
        seq![digit_char(n)]
    } else {
        decimal(n / 10).push(digit_char(n % 10))
    }
}

/// A signed number in decimal.
pub open spec fn signed_decimal(i: int) -> Seq<char> {
    if i < 0 {
        seq!['-'] + decimal((-i) as nat)
    } else {
        decimal(i as nat)
    }
}

/// Appends a number in decimal.
pub fn push_decimal(out: &mut String, n: u64)
    ensures
        final(out)@ == old(out)@ + decimal(n as nat),
    decreases n,
{
    if n >= 10 {
        push_decimal(out, n / 10);
    }
    out.push(((n % 10) as u8 + 48) as char);
    proof {
        if n >= 10 {
            assert(out@ =~= old(out)@ + decimal((n / 10) as nat).push(digit_char((n % 10) as nat)));
        } else {
            assert(out@ =~= old(out)@ + seq![digit_char(n as nat)]);
        }
    }
}

pub fn decimal_text(n: u64) -> (out: String)
    ensures
        out@ == decimal(n as nat),
{
    let mut out = String::new();
    push_decimal(&mut out, n);
    assert(out@ =~= decimal(n as nat));
    out
}

/// Whether text has a part in it.
pub open spec fn has_part(text: Seq<char>, part: Seq<char>) -> bool {
    exists|i: int| 0 <= i <= text.len() - part.len() && #[trigger] begins_with(text.skip(i), part)
}

/// `str::contains` on characters.
pub fn contains(text: &[char], part: &[char]) -> (found: bool)
    ensures
        found == has_part(text@, part@),
{
    if part.len() > text.len() {
        return false;
    }
    let last: usize = text.len() - part.len();
    let mut i: usize = 0;
    while i <= last
        invariant
            last == text@.len() - part@.len(),
            i <= last + 1,
            last < usize::MAX || i <= last,
            forall|j: int| 0 <= j < i ==> !#[trigger] begins_with(text@.skip(j), part@),
        decreases last + 1 - i,
    {
        let rest = vstd::slice::slice_subrange(text, i, text.len());
        assert(rest@ =~= text@.skip(i as int));
        if starts_with(rest, part) {
            assert(begins_with(text@.skip(i as int), part@));
            return true;
        }
        if i == last {
            return false;
        }
        i = i + 1;
    }
    false
}

/// A number between two texts.
pub fn with_number(before: &str, n: u64, after: &str) -> (out: String)
    ensures
        out@ == before@ + decimal(n as nat) + after@,
{
    let mut out = before.to_owned();
    push_decimal(&mut out, n);
    out.append(after);
    out
}

pub fn push_signed(out: &mut String, i: i64)
    ensures
        final(out)@ == old(out)@ + signed_decimal(i as int),
{
    if i < 0 {
        out.push('-');
        let magnitude: u64 = if i == i64::MIN {
            0x8000_0000_0000_0000u64
        } else {
            (-i) as u64
        };
        push_decimal(out, magnitude);
        assert(out@ =~= old(out)@ + (seq!['-'] + decimal((-i) as nat)));
    } else {
        push_decimal(out, i as u64);
    }
}

pub fn signed_text(i: i64) -> (out: String)
    ensures
        out@ == signed_decimal(i as int),
{
    let mut out = String::new();
    push_signed(&mut out, i);
    assert(out@ =~= signed_decimal(i as int));
    out
}

/// Lower-case hexadecimal digit.
pub open spec fn hex_char(d: nat) -> char {
    if d < 10 {
        (48 + d) as char
    } else {
        (87 + d) as char
    }
}

/// The last `width` hexadecimal digits of a number, most significant first.
pub open spec fn hex(n: nat, width: nat) -> Seq<char>
    decreases width,
{
    if width == 0 {
        seq![]
    } else {
        hex(n / 16, (width - 1) as nat).push(hex_char(n % 16))
    }
}

pub fn hex_digit(d: u8) -> (c: char)
    requires
        d < 16,
    ensures
        c == hex_char(d as nat),
{
    if d < 10 {
        (48 + d) as char
    } else {
        (87 + d) as char
    }
}

/// Appends the last `width` hexadecimal digits of a number.
pub fn push_hex(out: &mut String, n: u64, width: usize)
    ensures
        final(out)@ == old(out)@ + hex(n as nat, width as nat),
    decreases width,
{
    if width > 0 {
        push_hex(out, n / 16, width - 1);
        out.push(hex_digit((n % 16) as u8));
        assert(out@ =~= old(out)@ + hex((n / 16) as nat, (width - 1) as nat).push(
            hex_char((n % 16) as nat),
        ));
    } else {
        assert(out@ =~= old(out)@ + hex(n as nat, 0));
    }
}

pub open spec fn is_digit(c: char) -> bool {
    '0' <= c && c <= '9'
}

pub open spec fn all_digits(text: Seq<char>) -> bool {
    forall|i: int| 0 <= i < text.len() ==> is_digit(#[trigger] text[i])
}

/// The number that a run of decimal digits writes.
pub open spec fn digits_value(text: Seq<char>) -> nat
    decreases text.len(),
{
    if text.len() == 0 {
        0
    } else {
        digits_value(text.drop_last()) * 10 + (text.last() as u32 - 48) as nat
    }
}

/// What `str::parse::<u64>` reads: an optional `+` and then at least one digit,
/// nothing else, and a value that fits.
pub open spec fn parsed_unsigned(text: Seq<char>, max: nat) -> Option<nat> {
    let digits = if text.len() > 0 && text[0] == '+' {
        text.drop_first()
    } else {
        text
    };
    if digits.len() > 0 && all_digits(digits) && digits_value(digits) <= max {
        Some(digits_value(digits))
    } else {
        None
    }
}

/// What `str::parse::<i64>` reads: an optional sign and then at least one
/// digit, nothing else, and a value that fits.
pub open spec fn parsed_signed(text: Seq<char>) -> Option<int> {
    if text.len() > 0 && text[0] == '-' {
        let digits = text.drop_first();
        if digits.len() > 0 && all_digits(digits) && digits_value(digits) <= 0x8000_0000_0000_0000 {
            Some(-(digits_value(digits) as int))
        } else {
            None
        }
    } else {
        match parsed_unsigned(text, i64::MAX as nat) {
            Some(n) => Some(n as int),
            None => None,
        }
    }
}

proof fn digits_value_grows(text: Seq<char>, i: int)
    requires
        all_digits(text),
        0 <= i <= text.len(),
    ensures
        digits_value(text.take(i)) <= digits_value(text),
    decreases text.len() - i,
{
    if i == text.len() {
        assert(text.take(i) =~= text);
    } else {
        digits_value_grows(text, i + 1);
        assert(text.take(i + 1).drop_last() =~= text.take(i));
        assert(text.take(i + 1).last() == text[i]);
        assert(is_digit(text[i]));
    }
}

/// The value of the digits `start..`, if they are digits, there is one, and the
/// value is at most `max`.
fn digits_from(text: &[char], start: usize, max: u64) -> (out: Option<u64>)
    requires
        start <= text@.len(),
    ensures
        ({
            let digits = text@.subrange(start as int, text@.len() as int);
            match out {
                Some(n) => digits.len() > 0 && all_digits(digits) && digits_value(digits) == n && n
                    <= max,
                None => !(digits.len() > 0 && all_digits(digits) && digits_value(digits) <= max),
            }
        }),
{
    let ghost digits = text@.subrange(start as int, text@.len() as int);
    if start == text.len() {
        return None;
    }
    let mut value: u64 = 0;
    let mut i: usize = start;
    assert(digits.take(0) =~= Seq::<char>::empty());
    while i < text.len()
        invariant
            start <= i <= text@.len(),
            digits == text@.subrange(start as int, text@.len() as int),
            all_digits(digits.take(i - start)),
            value == digits_value(digits.take(i - start)),
            value <= max,
        decreases text.len() - i,
    {
        let c = text[i];
        let ghost at = i - start;
        assert(digits[at] == c);
        if !('0' <= c && c <= '9') {
            assert(!is_digit(digits[at]));
            return None;
        }
        let d: u64 = (c as u32 - 48) as u64;
        let ghost next = digits.take(at + 1);
        assert(next.drop_last() =~= digits.take(at));
        assert(next.last() == c);
        assert(digits_value(next) == value as nat * 10 + d as nat);
        assert(all_digits(next)) by {
            assert forall|j: int| 0 <= j < next.len() implies is_digit(#[trigger] next[j]) by {
                if j < at {
                    assert(is_digit(digits.take(at)[j]));
                }
            }
        }
        let wide: u128 = value as u128 * 10 + d as u128;
        if wide > max as u128 {
            proof {
                if all_digits(digits) {
                    digits_value_grows(digits, at + 1);
                }
            }
            return None;
        }
        value = wide as u64;
        i = i + 1;
    }
    assert(digits.take(digits.len() as int) =~= digits);
    Some(value)
}

/// `str::parse` into an unsigned number of at most `max`.
pub fn parse_unsigned(text: &[char], max: u64) -> (out: Option<u64>)
    ensures
        match out {
            Some(n) => parsed_unsigned(text@, max as nat) == Some(n as nat),
            None => parsed_unsigned(text@, max as nat) is None,
        },
{
    if text.len() > 0 && text[0] == '+' {
        assert(text@.drop_first() =~= text@.subrange(1, text@.len() as int));
        digits_from(text, 1, max)
    } else {
        assert(text@.subrange(0, text@.len() as int) =~= text@);
        digits_from(text, 0, max)
    }
}

/// `str::parse::<u64>`.
pub fn parse_u64(text: &str) -> (out: Option<u64>)
    ensures
        match out {
            Some(n) => parsed_unsigned(text@, u64::MAX as nat) == Some(n as nat),
            None => parsed_unsigned(text@, u64::MAX as nat) is None,
        },
{
    let chars = chars_of(text);
    parse_unsigned(chars.as_slice(), u64::MAX)
}

/// `str::parse::<i64>`.
pub fn parse_i64(text: &str) -> (out: Option<i64>)
    ensures
        match out {
            Some(n) => parsed_signed(text@) == Some(n as int),
            None => parsed_signed(text@) is None,
        },
{
    let chars = chars_of(text);
    if chars.len() > 0 && chars[0] == '-' {
        assert(text@.drop_first() =~= text@.subrange(1, text@.len() as int));
        match digits_from(chars.as_slice(), 1, 0x8000_0000_0000_0000) {
            None => None,
            Some(n) => {
                if n == 0x8000_0000_0000_0000 {
                    Some(i64::MIN)
                } else {
                    Some(-(n as i64))
                }
            },
        }
    } else {
        match parse_unsigned(chars.as_slice(), i64::MAX as u64) {
            None => None,
            Some(n) => Some(n as i64),
        }
    }
}

// ----------------------------------------------------------------------- lines
/// Where the first `stop` stands in a text, or its length.
pub open spec fn index_of_char(text: Seq<char>, stop: char) -> int
    decreases text.len(),
{
    if text.len() == 0 || text[0] == stop {
        0
    } else {
        1 + index_of_char(text.drop_first(), stop)
    }
}

pub proof fn index_of_char_bounds(text: Seq<char>, stop: char)
    ensures
        0 <= index_of_char(text, stop) <= text.len(),
        index_of_char(text, stop) < text.len() ==> text[index_of_char(text, stop)] == stop,
        forall|i: int| 0 <= i < index_of_char(text, stop) ==> text[i] != stop,
    decreases text.len(),
{
    if text.len() > 0 && text[0] != stop {
        let rest = text.drop_first();
        index_of_char_bounds(rest, stop);
        assert forall|i: int| 0 <= i < index_of_char(text, stop) implies text[i] != stop by {
            if i > 0 {
                assert(rest[i - 1] == text[i]);
            }
        }
    }
}

/// The first `stop` is where `at` says, if it is there and not before.
pub proof fn index_of_char_is(text: Seq<char>, stop: char, at: int)
    requires
        0 <= at <= text.len(),
        at < text.len() ==> text[at] == stop,
        forall|i: int| 0 <= i < at ==> text[i] != stop,
    ensures
        index_of_char(text, stop) == at,
{
    index_of_char_bounds(text, stop);
    let found = index_of_char(text, stop);
    if found < at {
        assert(text[found] != stop);
    }
    if at < found {
        assert(text[at] != stop);
    }
}

/// A line without the carriage return that ended it.
pub open spec fn without_return(line: Seq<char>) -> Seq<char> {
    if line.len() > 0 && line.last() == '\r' {
        line.drop_last()
    } else {
        line
    }
}

/// The lines of a text: split at `\n`, each without its line ending, no empty
/// line behind a final one. A carriage return goes only with the `\n` behind it.
pub open spec fn lines(text: Seq<char>) -> Seq<Seq<char>>
    decreases text.len(),
    via lines_decreases
{
    if text.len() == 0 {
        seq![]
    } else {
        let at = index_of_char(text, '\n');
        if at == text.len() {
            seq![text]
        } else {
            seq![without_return(text.take(at))] + lines(text.skip(at + 1))
        }
    }
}

#[via_fn]
proof fn lines_decreases(text: Seq<char>) {
    index_of_char_bounds(text, '\n');
}

/// Where the first `stop` at or behind `from` stands, or the length.
pub fn find_char(text: &[char], from: usize, stop: char) -> (at: usize)
    requires
        from <= text@.len(),
    ensures
        from <= at <= text@.len(),
        at - from == index_of_char(text@.skip(from as int), stop),
{
    let mut at: usize = from;
    while at < text.len() && text[at] != stop
        invariant
            from <= at <= text@.len(),
            forall|i: int| from <= i < at ==> text@[i] != stop,
        decreases text.len() - at,
    {
        at = at + 1;
    }
    proof {
        let rest = text@.skip(from as int);
        assert forall|i: int| 0 <= i < at - from implies rest[i] != stop by {
            assert(rest[i] == text@[from + i]);
        }
        index_of_char_is(rest, stop, at - from);
    }
    at
}

/// `str::lines` on characters.
pub fn lines_of(text: &[char]) -> (out: Vec<Vec<char>>)
    ensures
        out@.len() == lines(text@).len(),
        forall|i: int| 0 <= i < out@.len() ==> (#[trigger] out@[i])@ == lines(text@)[i],
{
    let mut out: Vec<Vec<char>> = Vec::new();
    let mut from: usize = 0;
    assert(text@.skip(0) =~= text@);
    while from < text.len()
        invariant
            from <= text@.len(),
            lines(text@).len() == out@.len() + lines(text@.skip(from as int)).len(),
            forall|i: int| 0 <= i < out@.len() ==> (#[trigger] out@[i])@ == lines(text@)[i],
            forall|i: int|
                0 <= i < lines(text@.skip(from as int)).len() ==> #[trigger] lines(
                    text@.skip(from as int),
                )[i] == lines(text@)[out@.len() + i],
        decreases text.len() - from,
    {
        let ghost rest = text@.skip(from as int);
        let ghost done = out@.len();
        let at: usize = find_char(text, from, '\n');
        if at == text.len() {
            let line = subslice(text, from, at);
            assert(line@ =~= rest);
            assert(lines(rest) =~= seq![rest]);
            assert(lines(rest)[0] == lines(text@)[done as int]);
            out.push(line);
            from = at;
            assert(text@.skip(from as int) =~= Seq::<char>::empty());
            assert(lines(text@.skip(from as int)) =~= Seq::<Seq<char>>::empty());
        } else {
            let mut end: usize = at;
            assert(rest.take(at - from) =~= text@.subrange(from as int, at as int));
            if end > from && text[end - 1] == '\r' {
                end = end - 1;
            }
            let line = subslice(text, from, end);
            proof {
                let raw = rest.take(at - from);
                assert(line@ =~= without_return(raw));
                let tail = rest.skip(at - from + 1);
                assert(tail =~= text@.skip(at + 1));
                assert(lines(rest) =~= seq![without_return(raw)] + lines(tail));
                assert(lines(rest)[0] == lines(text@)[done as int]);
                assert forall|i: int| 0 <= i < lines(tail).len() implies #[trigger] lines(tail)[i]
                    == lines(text@)[done + 1 + i] by {
                    assert(lines(rest)[i + 1] == lines(tail)[i]);
                    assert(lines(rest)[i + 1] == lines(text@)[done + (i + 1)]);
                }
            }
            out.push(line);
            from = at + 1;
        }
    }
    proof {
        assert(text@.skip(from as int) =~= Seq::<char>::empty());
        assert(lines(text@.skip(from as int)) =~= Seq::<Seq<char>>::empty());
    }
    out
}

/// What stands behind `prefix` in the first line that begins with it.
pub open spec fn field_of(list: Seq<Seq<char>>, prefix: Seq<char>) -> Option<Seq<char>>
    decreases list.len(),
{
    if list.len() == 0 {
        None
    } else if begins_with(list[0], prefix) {
        Some(list[0].skip(prefix.len() as int))
    } else {
        field_of(list.drop_first(), prefix)
    }
}

/// What stands behind `prefix` in the first line of `text` that begins with it.
pub fn find_field(text: &str, prefix: &str) -> (out: Option<Vec<char>>)
    ensures
        match out {
            Some(value) => field_of(lines(text@), prefix@) == Some(value@),
            None => field_of(lines(text@), prefix@) is None,
        },
{
    let chars = chars_of(text);
    let all = lines_of(chars.as_slice());
    let wanted = chars_of(prefix);
    let mut i: usize = 0;
    assert(lines(text@).skip(0) =~= lines(text@));
    while i < all.len()
        invariant
            i <= all@.len(),
            all@.len() == lines(text@).len(),
            forall|j: int| 0 <= j < all@.len() ==> (#[trigger] all@[j])@ == lines(text@)[j],
            wanted@ == prefix@,
            field_of(lines(text@), prefix@) == field_of(lines(text@).skip(i as int), prefix@),
        decreases all.len() - i,
    {
        assert(lines(text@).skip(i as int).drop_first() =~= lines(text@).skip(i + 1));
        assert(lines(text@).skip(i as int)[0] == all@[i as int]@);
        if starts_with(all[i].as_slice(), wanted.as_slice()) {
            let value = subslice(all[i].as_slice(), wanted.len(), all[i].len());
            assert(value@ =~= all@[i as int]@.skip(wanted@.len() as int));
            return Some(value);
        }
        i = i + 1;
    }
    None
}

/// The first word of a text: what stands before any whitespace, once the
/// whitespace in front is gone.
pub open spec fn until_space(text: Seq<char>) -> Seq<char>
    decreases text.len(),
{
    if text.len() == 0 || is_space(text[0]) {
        seq![]
    } else {
        seq![text[0]] + until_space(text.drop_first())
    }
}

/// `str::split_whitespace` and its first item; empty if there is none.
pub open spec fn first_word(text: Seq<char>) -> Seq<char> {
    until_space(trimmed_start(text))
}

pub fn word(text: &[char]) -> (out: Vec<char>)
    ensures
        out@ == first_word(text@),
{
    let mut start: usize = 0;
    assert(text@.skip(0) =~= text@);
    while start < text.len() && space(text[start])
        invariant
            start <= text@.len(),
            trimmed_start(text@) == trimmed_start(text@.skip(start as int)),
        decreases text.len() - start,
    {
        assert(text@.skip(start as int).drop_first() =~= text@.skip(start + 1));
        start = start + 1;
    }
    assert(trimmed_start(text@) == text@.skip(start as int));
    let mut out: Vec<char> = Vec::new();
    let mut i: usize = start;
    assert(out@ + until_space(text@.skip(i as int)) =~= until_space(text@.skip(start as int)));
    while i < text.len() && !space(text[i])
        invariant
            start <= i <= text@.len(),
            out@ + until_space(text@.skip(i as int)) == until_space(text@.skip(start as int)),
        decreases text.len() - i,
    {
        assert(text@.skip(i as int).drop_first() =~= text@.skip(i + 1));
        assert(text@.skip(i as int)[0] == text@[i as int]);
        out.push(text[i]);
        assert(out@ + until_space(text@.skip(i + 1)) =~= until_space(text@.skip(start as int)));
        i = i + 1;
    }
    assert(until_space(text@.skip(i as int)) =~= Seq::<char>::empty());
    assert(out@ =~= until_space(text@.skip(start as int)));
    out
}

proof fn until_space_bounds(text: Seq<char>)
    ensures
        until_space(text).len() <= text.len(),
        text.len() > 0 && !is_space(text[0]) ==> until_space(text).len() > 0,
        until_space(text) == text.take(until_space(text).len() as int),
    decreases text.len(),
{
    if text.len() > 0 && !is_space(text[0]) {
        until_space_bounds(text.drop_first());
        assert(until_space(text) =~= text.take(until_space(text).len() as int));
    } else {
        assert(until_space(text) =~= text.take(0));
    }
}

proof fn trimmed_start_bounds(text: Seq<char>)
    ensures
        trimmed_start(text).len() <= text.len(),
        trimmed_start(text).len() > 0 ==> !is_space(trimmed_start(text)[0]),
        trimmed_start(text) == text.skip(text.len() - trimmed_start(text).len()),
    decreases text.len(),
{
    if text.len() > 0 && is_space(text[0]) {
        trimmed_start_bounds(text.drop_first());
        assert(trimmed_start(text) =~= text.skip(text.len() - trimmed_start(text).len()));
    } else {
        assert(trimmed_start(text) =~= text.skip(0));
    }
}

/// The words of a text: what stands between its whitespace.
pub open spec fn words(text: Seq<char>) -> Seq<Seq<char>>
    decreases text.len(),
    via words_decreases
{
    let rest = trimmed_start(text);
    if rest.len() == 0 {
        seq![]
    } else {
        seq![until_space(rest)] + words(rest.skip(until_space(rest).len() as int))
    }
}

#[via_fn]
proof fn words_decreases(text: Seq<char>) {
    trimmed_start_bounds(text);
    until_space_bounds(trimmed_start(text));
}

/// The words of a text.
pub fn words_of(text: &[char]) -> (out: Vec<Vec<char>>)
    ensures
        out@.len() == words(text@).len(),
        forall|i: int| 0 <= i < out@.len() ==> (#[trigger] out@[i])@ == words(text@)[i],
{
    let mut out: Vec<Vec<char>> = Vec::new();
    let mut from: usize = 0;
    assert(text@.skip(0) =~= text@);
    loop
        invariant_except_break
            from <= text@.len(),
            out@.len() + words(text@.skip(from as int)).len() == words(text@).len(),
            forall|i: int| 0 <= i < out@.len() ==> (#[trigger] out@[i])@ == words(text@)[i],
            forall|i: int|
                0 <= i < words(text@.skip(from as int)).len() ==> #[trigger] words(
                    text@.skip(from as int),
                )[i] == words(text@)[out@.len() + i],
        ensures
            out@.len() == words(text@).len(),
            forall|i: int| 0 <= i < out@.len() ==> (#[trigger] out@[i])@ == words(text@)[i],
        decreases text@.len() - from,
    {
        let rest = subslice(text, from, text.len());
        let ghost here = text@.skip(from as int);
        assert(rest@ =~= here);
        let mut start: usize = 0;
        assert(rest@.skip(0) =~= rest@);
        while start < rest.len() && space(rest[start])
            invariant
                start <= rest@.len(),
                trimmed_start(rest@) == trimmed_start(rest@.skip(start as int)),
            decreases rest.len() - start,
        {
            assert(rest@.skip(start as int).drop_first() =~= rest@.skip(start + 1));
            start = start + 1;
        }
        assert(trimmed_start(rest@) == rest@.skip(start as int));
        if start == rest.len() {
            break;
        }
        let found = word(rest.as_slice());
        let ghost behind = trimmed_start(here).skip(until_space(trimmed_start(here)).len() as int);
        proof {
            trimmed_start_bounds(here);
            until_space_bounds(trimmed_start(here));
            assert(words(here) == seq![found@] + words(behind));
            assert(behind =~= text@.skip(from + start + found@.len()));
            assert forall|i: int| 0 <= i < words(behind).len() implies #[trigger] words(behind)[i]
                == words(text@)[out@.len() + 1 + i] by {
                assert(words(here)[i + 1] == words(behind)[i]);
                assert(words(here)[i + 1] == words(text@)[out@.len() + (i + 1)]);
            }
            assert(words(here)[0] == found@);
            assert(words(here)[0] == words(text@)[out@.len() as int]);
        }
        from = from + start + found.len();
        out.push(found);
    }
    out
}

/// Whether characters spell a given word.
pub fn is_word(chars: &[char], expected: &str) -> (same: bool)
    ensures
        same == (chars@ == expected@),
{
    let wanted = chars_of(expected);
    same_chars(chars, wanted.as_slice())
}

// ------------------------------------------------------------------------ laws
/// A number in decimal is digits, at least one, and reads back as the number.
pub proof fn decimal_reads_back(n: nat)
    ensures
        all_digits(decimal(n)),
        decimal(n).len() > 0,
        digits_value(decimal(n)) == n,
    decreases n,
{
    if n < 10 {
        assert(decimal(n).drop_last() =~= Seq::<char>::empty());
        assert(digits_value(decimal(n).drop_last()) == 0);
    } else {
        decimal_reads_back(n / 10);
        let head = decimal(n / 10);
        assert(decimal(n).drop_last() =~= head);
        assert forall|i: int| 0 <= i < decimal(n).len() implies is_digit(
            #[trigger] decimal(n)[i],
        ) by {
            if i < head.len() {
                assert(is_digit(head[i]));
            }
        }
    }
}

/// Parsing what a number prints as gives the number.
pub proof fn parse_undoes_print(n: u64)
    ensures
        parsed_unsigned(decimal(n as nat), u64::MAX as nat) == Some(n as nat),
{
    decimal_reads_back(n as nat);
    assert(is_digit(decimal(n as nat)[0]));
}

/// A signed number in decimal has no whitespace around it, and reads back as the
/// number.
pub proof fn signed_reads_back(n: i64)
    ensures
        trimmed(signed_decimal(n as int)) == signed_decimal(n as int),
        parsed_signed(signed_decimal(n as int)) == Some(n as int),
{
    let text = signed_decimal(n as int);
    let size = (if n < 0 {
        -n
    } else {
        n as int
    }) as nat;
    let digits = decimal(size);
    decimal_reads_back(size);
    assert(is_digit(digits[0]));
    assert(is_digit(digits[digits.len() - 1]));
    assert(text.last() == digits.last());
    if n < 0 {
        assert(text.drop_first() =~= digits);
    }
}

/// Two numbers that print alike are the same.
pub proof fn decimal_injective(a: nat, b: nat)
    requires
        decimal(a) == decimal(b),
    ensures
        a == b,
{
    decimal_reads_back(a);
    decimal_reads_back(b);
}

/// Two texts, each with digits behind a separator that is no digit: if the whole
/// is the same, so are the parts.
pub proof fn split_before_digits(
    left: Seq<char>,
    left_digits: Seq<char>,
    right: Seq<char>,
    right_digits: Seq<char>,
    separator: char,
)
    requires
        all_digits(left_digits),
        all_digits(right_digits),
        !is_digit(separator),
        left + seq![separator] + left_digits == right + seq![separator] + right_digits,
    ensures
        left == right,
        left_digits == right_digits,
{
    let whole = left + seq![separator] + left_digits;
    let other = right + seq![separator] + right_digits;
    assert(whole == other);
    assert(whole.len() == left.len() + 1 + left_digits.len());
    assert(other.len() == right.len() + 1 + right_digits.len());
    assert(whole[left.len() as int] == separator);
    assert(other[right.len() as int] == separator);
    if left.len() < right.len() {
        let at = right.len() - left.len() - 1;
        assert(whole[right.len() as int] == left_digits[at]);
        assert(is_digit(left_digits[at]));
    }
    if right.len() < left.len() {
        let at = left.len() - right.len() - 1;
        assert(other[left.len() as int] == right_digits[at]);
        assert(is_digit(right_digits[at]));
    }
    assert(left =~= whole.take(left.len() as int));
    assert(right =~= other.take(right.len() as int));
    assert(left_digits =~= whole.skip(left.len() as int + 1));
    assert(right_digits =~= other.skip(right.len() as int + 1));
}

/// Text is trimmed to what stands between the whitespace in front of it and the
/// whitespace behind it: what is taken off is whitespace, and what is left neither begins
/// nor ends with any.
pub proof fn trimming_takes_off_the_whitespace_around(text: Seq<char>)
    ensures
        exists|from: int, to: int|
            {
                &&& 0 <= from <= to <= text.len()
                &&& trimmed(text) == #[trigger] text.subrange(from, to)
                &&& forall|i: int| 0 <= i < from ==> is_space(#[trigger] text[i])
                &&& forall|i: int| to <= i < text.len() ==> is_space(#[trigger] text[i])
            },
        trimmed(text).len() > 0 ==> !is_space(trimmed(text)[0]) && !is_space(trimmed(text).last()),
{
    let start = trimmed_start(text);
    let end = trimmed_end(start);
    start_is_a_suffix(text);
    end_is_a_prefix(start);
    let from = text.len() - start.len();
    let to = from + end.len();
    assert(text.subrange(from, to) =~= end);
    assert forall|i: int| to <= i < text.len() implies is_space(#[trigger] text[i]) by {
        assert(start[i - from] == text[i]);
    }
    if end.len() > 0 {
        assert(end[0] == start[0]);
    }
}

proof fn start_is_a_suffix(text: Seq<char>)
    ensures
        trimmed_start(text).len() <= text.len(),
        trimmed_start(text) == text.skip(text.len() - trimmed_start(text).len()),
        forall|i: int|
            0 <= i < text.len() - trimmed_start(text).len() ==> is_space(#[trigger] text[i]),
        trimmed_start(text).len() > 0 ==> !is_space(trimmed_start(text)[0]),
    decreases text.len(),
{
    if text.len() > 0 && is_space(text[0]) {
        let rest = text.drop_first();
        start_is_a_suffix(rest);
        let cut = text.len() - trimmed_start(text).len();
        assert(rest.skip(rest.len() - trimmed_start(rest).len()) =~= text.skip(cut));
        assert forall|i: int| 0 <= i < cut implies is_space(#[trigger] text[i]) by {
            if i > 0 {
                assert(rest[i - 1] == text[i]);
            }
        }
    } else {
        assert(text.skip(0) =~= text);
    }
}

proof fn end_is_a_prefix(text: Seq<char>)
    ensures
        trimmed_end(text).len() <= text.len(),
        trimmed_end(text) == text.take(trimmed_end(text).len() as int),
        forall|i: int|
            trimmed_end(text).len() <= i < text.len() ==> is_space(#[trigger] text[i]),
        trimmed_end(text).len() > 0 ==> !is_space(trimmed_end(text).last()),
    decreases text.len(),
{
    if text.len() > 0 && is_space(text.last()) {
        let rest = text.drop_last();
        end_is_a_prefix(rest);
        assert(rest.take(trimmed_end(rest).len() as int) =~= text.take(
            trimmed_end(rest).len() as int,
        ));
        assert forall|i: int| trimmed_end(text).len() <= i < text.len() implies is_space(
            #[trigger] text[i],
        ) by {
            if i < rest.len() {
                assert(rest[i] == text[i]);
            }
        }
    } else {
        assert(text.take(text.len() as int) =~= text);
    }
}

/// A text has a part exactly if it is that part with something before it and something
/// behind it.
pub proof fn a_part_has_something_before_and_behind_it(text: Seq<char>, part: Seq<char>)
    ensures
        has_part(text, part) <==> exists|before: Seq<char>, behind: Seq<char>|
            text == #[trigger] (before + part + behind),
{
    if has_part(text, part) {
        let i = choose|i: int|
            0 <= i <= text.len() - part.len() && #[trigger] begins_with(text.skip(i), part);
        let before = text.take(i);
        let behind = text.skip(i + part.len());
        assert(text.skip(i).take(part.len() as int) =~= part);
        assert(text =~= before + text.skip(i).take(part.len() as int) + behind);
    }
    if exists|before: Seq<char>, behind: Seq<char>| text == #[trigger] (before + part + behind) {
        let (before, behind) = choose|before: Seq<char>, behind: Seq<char>|
            text == #[trigger] (before + part + behind);
        let i = before.len() as int;
        assert(text.skip(i).take(part.len() as int) =~= part);
        assert(begins_with(text.skip(i), part));
    }
}

/// A number is read exactly from digits, at least one, with a sign in front of them or
/// none, if it fits. One more digit behind it makes it ten times as large and adds the
/// digit.
pub proof fn only_digits_are_a_number(text: Seq<char>, digit: char)
    requires
        is_digit(digit),
    ensures
        parsed_signed(text) is Some ==> {
            let digits = if text[0] == '-' || text[0] == '+' {
                text.drop_first()
            } else {
                text
            };
            &&& text.len() > 0
            &&& digits.len() > 0
            &&& forall|i: int| 0 <= i < digits.len() ==> '0' <= #[trigger] digits[i] <= '9'
            &&& parsed_signed(text)->Some_0 == if text[0] == '-' {
                -(digits_value(digits) as int)
            } else {
                digits_value(digits) as int
            }
            &&& i64::MIN <= parsed_signed(text)->Some_0 <= i64::MAX
        },
        digits_value(text.push(digit)) == 10 * digits_value(text) + (digit as nat - 48),
        digits_value(seq![]) == 0,
{
    assert(text.push(digit).drop_last() =~= text);
    if parsed_signed(text) is Some {
        let digits = if text[0] == '-' || text[0] == '+' {
            text.drop_first()
        } else {
            text
        };
        assert(all_digits(digits));
        assert forall|i: int| 0 <= i < digits.len() implies '0' <= #[trigger] digits[i] <= '9' by {
            assert(is_digit(digits[i]));
        }
    }
}

} // verus!
