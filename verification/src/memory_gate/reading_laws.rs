//! What reading a run promises: the numbers in its files, the lines of its log and the
//! status of an answer.

use vstd::prelude::*;
use vstd::string::*;

use crate::memory_gate::readings::{
    behind_letter, filled_lines, is_letter, number_field, number_or_zero, plain_line, row_of,
    series_of, status_of, tail_of, Sample,
};
use crate::text::{
    begins_with, decimal, decimal_reads_back, is_digit, is_space, lines, parsed_unsigned, trimmed,
    words,
};
use crate::text_laws::a_word_in_front_is_the_first_word;

verus! {

// -------------------------------------------------------------------- numbers
/// A file that holds a number is read as that number, and one that is not there as zero.
pub proof fn a_file_with_a_number_is_read_as_it(n: u64, space: char)
    requires
        is_space(space),
    ensures
        number_or_zero(Some(decimal(n as nat))) == n,
        number_or_zero(Some(decimal(n as nat).push(space))) == n,
        number_or_zero(None) == 0,
{
    let text = decimal(n as nat);
    decimal_reads_back(n as nat);
    assert(is_digit(text[0]) && is_digit(text[text.len() - 1]));
    assert(trimmed(text) == text);
    let ended = text.push(space);
    assert(ended[0] == text[0]);
    assert(ended.drop_last() =~= text);
    assert(trimmed(ended) == trimmed(text));
}

/// The number of a field is the one behind its prefix.
pub proof fn the_number_of_a_field_is_behind_its_prefix(
    prefix: Seq<char>,
    n: u64,
    rest: Seq<Seq<char>>,
)
    ensures
        number_field(seq![prefix + decimal(n as nat)] + rest, prefix) == Some(n as nat),
{
    let text = decimal(n as nat);
    decimal_reads_back(n as nat);
    assert(is_digit(text[0]) && is_digit(text[text.len() - 1]));
    assert(trimmed(text) == text);
    let line = prefix + text;
    assert(line.take(prefix.len() as int) =~= prefix);
    assert(line.skip(prefix.len() as int) =~= text);
    assert((seq![line] + rest)[0] == line);
}

/// A line with another prefix changes no field.
pub proof fn a_line_of_another_prefix_is_passed_over(
    line: Seq<char>,
    prefix: Seq<char>,
    rest: Seq<Seq<char>>,
)
    requires
        !begins_with(line, prefix),
    ensures
        number_field(seq![line] + rest, prefix) == number_field(rest, prefix),
{
    assert((seq![line] + rest).drop_first() =~= rest);
    assert((seq![line] + rest)[0] == line);
}

/// A series has its heading and then a row for each sample, in order, with every number of
/// the sample.
pub proof fn a_series_has_a_row_for_each_sample(samples: Seq<Sample>, sample: Sample)
    ensures
        series_of(Seq::empty()) == "t,anon,file,current,memory_peak,oom_kill\n"@,
        series_of(samples.push(sample)) == series_of(samples) + sample.shown_at@ + ","@ + decimal(
            sample.anon as nat,
        ) + ","@ + decimal(sample.file as nat) + ","@ + decimal(sample.current as nat) + ","@
            + decimal(sample.memory_peak as nat) + ","@ + decimal(sample.oom_kill as nat) + "\n"@,
{
    assert(samples.push(sample).drop_last() =~= samples);
    assert(series_of(samples.push(sample)) =~= series_of(samples) + sample.shown_at@ + ","@
        + decimal(sample.anon as nat) + ","@ + decimal(sample.file as nat) + ","@ + decimal(
        sample.current as nat,
    ) + ","@ + decimal(sample.memory_peak as nat) + ","@ + decimal(sample.oom_kill as nat)
        + "\n"@);
}

// ------------------------------------------------------------------------ log
/// Text without an escape character stays as it is, in front of whatever follows.
pub proof fn plain_text_stays_as_it_is(text: Seq<char>, rest: Seq<char>)
    requires
        forall|i: int| 0 <= i < text.len() ==> text[i] != '\u{1b}',
    ensures
        plain_line(text + rest) == text + plain_line(rest),
    decreases text.len(),
{
    let whole = text + rest;
    if text.len() == 0 {
        assert(whole =~= rest);
        assert(text + plain_line(rest) =~= plain_line(rest));
    } else {
        let tail = text.drop_first();
        assert(text[0] != '\u{1b}');
        assert(whole[0] == text[0]);
        assert(whole.drop_first() =~= tail + rest);
        assert forall|i: int| 0 <= i < tail.len() implies tail[i] != '\u{1b}' by {
            assert(tail[i] == text[i + 1]);
        }
        plain_text_stays_as_it_is(tail, rest);
        assert(seq![text[0]] + (tail + plain_line(rest)) =~= text + plain_line(rest));
    }
}

/// An escape sequence, from the escape character to the first letter, goes, and nothing
/// behind it does.
pub proof fn an_escape_sequence_goes(codes: Seq<char>, letter: char, rest: Seq<char>)
    requires
        forall|i: int| 0 <= i < codes.len() ==> !is_letter(#[trigger] codes[i]),
        ('a' <= letter && letter <= 'z') || ('A' <= letter && letter <= 'Z'),
    ensures
        plain_line(seq!['\u{1b}'] + codes + seq![letter] + rest) == plain_line(rest),
{
    let whole = seq!['\u{1b}'] + codes + seq![letter] + rest;
    behind_the_letter(codes, letter, rest);
    assert(whole.drop_first() =~= codes + seq![letter] + rest);
}

proof fn behind_the_letter(codes: Seq<char>, letter: char, rest: Seq<char>)
    requires
        forall|i: int| 0 <= i < codes.len() ==> !is_letter(#[trigger] codes[i]),
        is_letter(letter),
    ensures
        behind_letter(codes + seq![letter] + rest) == rest,
    decreases codes.len(),
{
    let whole = codes + seq![letter] + rest;
    if codes.len() == 0 {
        assert(whole.drop_first() =~= rest);
    } else {
        let tail = codes.drop_first();
        assert(!is_letter(codes[0]));
        assert(whole[0] == codes[0]);
        assert(whole.drop_first() =~= tail + seq![letter] + rest);
        assert forall|i: int| 0 <= i < tail.len() implies !is_letter(#[trigger] tail[i]) by {
            assert(tail[i] == codes[i + 1]);
        }
        behind_the_letter(tail, letter, rest);
    }
}

/// A blank line is left out of what is shown of a log, and any other line is kept, without
/// its escape sequences.
pub proof fn only_blank_lines_are_left_out(list: Seq<Seq<char>>, line: Seq<char>)
    ensures
        trimmed(line).len() == 0 ==> filled_lines(list.push(line)) == filled_lines(list),
        trimmed(line).len() > 0 ==> filled_lines(list.push(line)) == filled_lines(list).push(
            plain_line(line),
        ),
        filled_lines(Seq::empty()).len() == 0,
{
    assert(list.push(line).drop_last() =~= list);
}

/// The tail of a log is its last lines: as many as asked for, or all there are.
pub proof fn a_tail_is_the_last_lines(text: Seq<char>, count: nat, i: int)
    requires
        0 <= i < tail_of(text, count).len(),
    ensures
        ({
            let all = filled_lines(lines(text));
            let tail = tail_of(text, count);
            &&& tail.len() <= count
            &&& tail.len() == count || tail.len() == all.len()
            &&& tail.len() <= all.len()
            &&& tail[tail.len() - 1 - i] == all[all.len() - 1 - i]
        }),
{
}

// --------------------------------------------------------------------- answer
/// The status of an answer is the number behind the first word of its head.
pub proof fn the_status_is_the_second_word(version: Seq<char>, status: u16, reason: Seq<char>)
    requires
        version.len() > 0,
        forall|i: int| 0 <= i < version.len() ==> !is_space(#[trigger] version[i]),
    ensures
        status_of(version + seq![' '] + decimal(status as nat) + seq![' '] + reason) == Some(
            status as nat,
        ),
        status_of(version) is None,
{
    let number = decimal(status as nat);
    decimal_reads_back(status as nat);
    assert forall|i: int| 0 <= i < number.len() implies !is_space(#[trigger] number[i]) by {
        assert(is_digit(number[i]));
    }
    a_word_in_front_is_the_first_word(number, ' ', reason);
    let rest = number + seq![' '] + reason;
    a_word_in_front_is_the_first_word(version, ' ', rest);
    let head = version + seq![' '] + number + seq![' '] + reason;
    assert(head =~= version + seq![' '] + rest);
    assert(words(head) == seq![version] + (seq![number] + words(reason)));
    assert(words(head)[1] == number);
}

} // verus!
