//! What reading and writing text promises: lines, words, fields and digits.

use vstd::prelude::*;
use vstd::string::*;

use crate::text::{
    begins_with, field_of, hex, index_of_char_is, is_space, lines, trimmed_start, until_space,
    words,
};

verus! {

// ---------------------------------------------------------------------- lines
/// A line with its end in front of a text is the first line of it, without the end, and
/// the others are those of the text. Either end will do.
pub proof fn a_line_in_front_is_the_first_line(line: Seq<char>, rest: Seq<char>)
    requires
        forall|i: int| 0 <= i < line.len() ==> line[i] != '\n',
        line.len() > 0 ==> line.last() != '\r',
    ensures
        lines(line + seq!['\n'] + rest) == seq![line] + lines(rest),
        lines(line + seq!['\r', '\n'] + rest) == seq![line] + lines(rest),
{
    let plain = line + seq!['\n'] + rest;
    let end = line.len() as int;
    index_of_char_is(plain, '\n', end);
    assert(plain.take(end) =~= line);
    assert(plain.skip(end + 1) =~= rest);
    let long = line + seq!['\r', '\n'] + rest;
    let bare = line + seq!['\r'];
    index_of_char_is(long, '\n', end + 1);
    assert(long.take(end + 1) =~= bare);
    assert(bare.drop_last() =~= line);
    assert(long.skip(end + 2) =~= rest);
}

/// A text without a line end is one line, and no text has no line.
pub proof fn a_text_without_an_end_is_one_line(text: Seq<char>)
    requires
        forall|i: int| 0 <= i < text.len() ==> text[i] != '\n',
    ensures
        text.len() > 0 ==> lines(text) == seq![text],
        text.len() == 0 ==> lines(text).len() == 0,
{
    index_of_char_is(text, '\n', text.len() as int);
}

/// A field is what stands behind the prefix in the first line that begins with it.
pub proof fn a_field_is_in_the_first_line_of_its_prefix(
    list: Seq<Seq<char>>,
    prefix: Seq<char>,
    value: Seq<char>,
    i: int,
)
    requires
        0 <= i < list.len(),
        list[i] == prefix + value,
        forall|j: int| 0 <= j < i ==> !begins_with(#[trigger] list[j], prefix),
    ensures
        field_of(list, prefix) == Some(value),
    decreases list.len(),
{
    if i == 0 {
        assert(list[0].take(prefix.len() as int) =~= prefix);
        assert(list[0].skip(prefix.len() as int) =~= value);
    } else {
        let rest = list.drop_first();
        assert(!begins_with(list[0], prefix));
        assert(rest[i - 1] == list[i]);
        assert forall|j: int| 0 <= j < i - 1 implies !begins_with(#[trigger] rest[j], prefix) by {
            assert(rest[j] == list[j + 1]);
        }
        a_field_is_in_the_first_line_of_its_prefix(rest, prefix, value, i - 1);
    }
}

/// Where no line begins with a prefix, there is no field.
pub proof fn a_prefix_that_no_line_has_is_no_field(list: Seq<Seq<char>>, prefix: Seq<char>)
    requires
        forall|j: int| 0 <= j < list.len() ==> !begins_with(#[trigger] list[j], prefix),
    ensures
        field_of(list, prefix) is None,
    decreases list.len(),
{
    if list.len() > 0 {
        let rest = list.drop_first();
        assert(!begins_with(list[0], prefix));
        assert forall|j: int| 0 <= j < rest.len() implies !begins_with(
            #[trigger] rest[j],
            prefix,
        ) by {
            assert(rest[j] == list[j + 1]);
        }
        a_prefix_that_no_line_has_is_no_field(rest, prefix);
    }
}

// ---------------------------------------------------------------------- words
pub(crate) proof fn until_the_space(word: Seq<char>, rest: Seq<char>)
    requires
        forall|i: int| 0 <= i < word.len() ==> !is_space(#[trigger] word[i]),
        rest.len() > 0 ==> is_space(rest[0]),
    ensures
        until_space(word + rest) == word,
    decreases word.len(),
{
    let text = word + rest;
    if word.len() == 0 {
        assert(text =~= rest);
        assert(until_space(text) =~= word);
    } else {
        let tail = word.drop_first();
        assert(!is_space(word[0]));
        assert(text[0] == word[0]);
        assert(text.drop_first() =~= tail + rest);
        assert forall|i: int| 0 <= i < tail.len() implies !is_space(#[trigger] tail[i]) by {
            assert(tail[i] == word[i + 1]);
        }
        until_the_space(tail, rest);
        assert(seq![word[0]] + tail =~= word);
    }
}

/// A word in front of whitespace is the first word, and the others are those of what
/// follows. Whitespace in front changes no word.
pub proof fn a_word_in_front_is_the_first_word(word: Seq<char>, space: char, rest: Seq<char>)
    requires
        word.len() > 0,
        forall|i: int| 0 <= i < word.len() ==> !is_space(#[trigger] word[i]),
        is_space(space),
    ensures
        words(word + seq![space] + rest) == seq![word] + words(rest),
        words(seq![space] + rest) == words(rest),
        words(word) == seq![word],
{
    let tail = seq![space] + rest;
    assert(tail.drop_first() =~= rest);
    assert(trimmed_start(tail) == trimmed_start(rest));
    let text = word + seq![space] + rest;
    assert(text =~= word + tail);
    assert(!is_space(word[0]));
    assert(text[0] == word[0]);
    until_the_space(word, tail);
    assert(text.skip(word.len() as int) =~= tail);
    assert(words(tail) == words(rest));
    assert(trimmed_start(text) == text);
    assert(words(text) == seq![until_space(text)] + words(
        text.skip(until_space(text).len() as int),
    ));
    until_the_space(word, seq![]);
    assert(word + Seq::<char>::empty() =~= word);
    assert(word.skip(word.len() as int) =~= seq![]);
    assert(words(Seq::<char>::empty()) =~= Seq::<Seq<char>>::empty());
    assert(seq![word] + Seq::<Seq<char>>::empty() =~= seq![word]);
}

/// Whitespace alone has no words.
pub proof fn whitespace_has_no_words(text: Seq<char>)
    requires
        forall|i: int| 0 <= i < text.len() ==> is_space(#[trigger] text[i]),
    ensures
        words(text).len() == 0,
    decreases text.len(),
{
    if text.len() > 0 {
        let rest = text.drop_first();
        assert(is_space(text[0]));
        assert forall|i: int| 0 <= i < rest.len() implies is_space(#[trigger] rest[i]) by {
            assert(rest[i] == text[i + 1]);
        }
        whitespace_has_no_words(rest);
    }
}

// --------------------------------------------------------------------- digits
/// A number in hexadecimal has the digits asked for, and its last one says what is left
/// over sixteen: `0` to `9`, then `a` to `f`.
pub proof fn hexadecimal_goes_digit_by_digit(n: nat, digit: nat, width: nat)
    requires
        digit < 16,
    ensures
        hex(n, width).len() == width,
        hex(16 * n + digit, width + 1).drop_last() == hex(n, width),
        digit < 10 ==> hex(16 * n + digit, width + 1).last() as u32 == '0' as u32 + digit,
        digit >= 10 ==> hex(16 * n + digit, width + 1).last() as u32 == 'a' as u32 + digit - 10,
    decreases width,
{
    assert((16 * n + digit) / 16 == n);
    assert((16 * n + digit) % 16 == digit);
    let long = hex(16 * n + digit, width + 1);
    assert(long.drop_last() =~= hex(n, width));
    if width > 0 {
        hexadecimal_goes_digit_by_digit(n / 16, n % 16, (width - 1) as nat);
    }
}

} // verus!
