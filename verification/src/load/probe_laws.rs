//! What reading the server promises: its memory, its published series, and the counts of
//! its answers.

use vstd::prelude::*;
use vstd::string::*;

use crate::load::closed_loop::{head_ends_at, plain_percentile};
use crate::load::probe::{metric_of, metrics_in, size_field, without_unit};
use crate::load::queries::{QueryShape, QUERY_SHAPES};
use crate::load::report::{place_of, shortened};
use crate::load::stats::percentile_index;
use crate::load::tally::{count_in, first_error};
use crate::load::verdict::{highest, highest_if_read};
use crate::order::ordered;
use crate::text::{
    decimal, decimal_reads_back, field_of, is_digit, is_space, lines, trimmed, trimmed_end,
    trimmed_start, words,
};
use crate::text_laws::a_word_in_front_is_the_first_word;

verus! {

// --------------------------------------------------------------------- memory
/// A size that a status text gives in kilobytes is read as that many times 1024 bytes, and
/// one that is not there is not read.
pub proof fn kilobytes_are_read_as_bytes(status: Seq<char>, name: Seq<char>, n: nat, space: char)
    requires
        n * 1024 <= u64::MAX,
        is_space(space),
    ensures
        field_of(lines(status), name) == Some(seq![space] + decimal(n) + seq![' ', 'k', 'B'])
            ==> size_field(status, name) == Some(n * 1024),
        field_of(lines(status), name) is None ==> size_field(status, name) is None,
{
    let number = decimal(n);
    decimal_reads_back(n);
    assert(is_digit(number[0]) && is_digit(number[number.len() - 1]));
    let bare = number + seq![' ', 'k', 'B'];
    let value = seq![space] + number + seq![' ', 'k', 'B'];
    assert(value.drop_first() =~= bare);
    assert(bare[0] == number[0]);
    assert(trimmed_start(bare) == bare);
    assert(trimmed_start(value) == bare);
    assert(bare.last() == 'B');
    assert(trimmed(value) == bare);
    let spaced = number + seq![' '];
    assert(bare.take(bare.len() - 2) =~= spaced);
    assert(spaced.last() == ' ');
    assert(without_unit(spaced) == spaced);
    assert(without_unit(bare) == spaced);
    assert(spaced.drop_last() =~= number);
    assert(trimmed_start(spaced) == spaced);
    assert(trimmed_end(number) == number);
    assert(trimmed_end(spaced) == number);
}

/// The peak of what was read is at least each reading, and one of them.
pub proof fn the_highest_is_one_of_the_two(before: Option<u64>, value: u64)
    ensures
        highest(before, value) is Some,
        highest(before, value)->Some_0 >= value,
        before matches Some(seen) ==> highest(before, value)->Some_0 >= seen,
        highest(before, value) == Some(value) || highest(before, value) == before,
        highest_if_read(before, None) == before,
        highest_if_read(before, Some(value)) == highest(before, value),
{
}

// --------------------------------------------------------------------- series
/// A line of a published text with a name and a value is a series of that name and value,
/// and a comment is none.
pub proof fn a_line_with_a_name_and_a_value_is_a_series(
    name: Seq<char>,
    value: Seq<char>,
    comment: Seq<char>,
)
    requires
        name.len() > 0,
        name[0] != '#',
        value.len() > 0,
        forall|i: int| 0 <= i < name.len() ==> !is_space(#[trigger] name[i]),
        forall|i: int| 0 <= i < value.len() ==> !is_space(#[trigger] value[i]),
        comment.len() > 0 ==> !is_space(comment.last()),
    ensures
        metric_of(name + seq![' '] + value) == Some((name, value)),
        metric_of(seq!['#'] + comment) is None,
        metric_of(Seq::empty()) is None,
{
    let line = name + seq![' '] + value;
    assert(!is_space(name[0]) && !is_space(value[value.len() - 1]));
    assert(line[0] == name[0]);
    assert(line.last() == value[value.len() - 1]);
    assert(trimmed(line) == line);
    a_word_in_front_is_the_first_word(value, ' ', seq![]);
    a_word_in_front_is_the_first_word(name, ' ', value);
    assert(words(line) == seq![name] + seq![value]);
    assert(words(line)[0] == name && words(line)[1] == value);
    let note = seq!['#'] + comment;
    assert(note[0] == '#');
    if comment.len() > 0 {
        assert(note.last() == comment.last());
    } else {
        assert(note.last() == '#');
    }
    assert(trimmed(note) == note);
}

/// The series of a text are those of its lines, in order.
pub proof fn the_series_are_those_of_the_lines(list: Seq<Seq<char>>, line: Seq<char>)
    ensures
        metric_of(line) is None ==> metrics_in(list.push(line)) == metrics_in(list),
        metric_of(line) matches Some(series) ==> metrics_in(list.push(line)) == metrics_in(
            list,
        ).push(series),
        metrics_in(Seq::empty()).len() == 0,
{
    assert(list.push(line).drop_last() =~= list);
}

// --------------------------------------------------------------------- counts
/// The count of a status is that of its first entry, and zero where there is none.
pub proof fn a_status_is_counted_by_its_entry(
    counts: Seq<(u16, u64)>,
    entry: (u16, u64),
    status: u16,
)
    ensures
        count_in(Seq::empty(), status) == 0,
        entry.0 == status ==> count_in(seq![entry] + counts, status) == entry.1,
        entry.0 != status ==> count_in(seq![entry] + counts, status) == count_in(counts, status),
{
    assert((seq![entry] + counts).drop_first() =~= counts);
    assert((seq![entry] + counts)[0] == entry);
}

/// The first error stays.
pub proof fn the_first_error_stays(before: Option<Seq<char>>, next: Option<Seq<char>>)
    ensures
        before is Some ==> first_error(before, next) == before,
        before is None ==> first_error(before, next) == next,
{
}

/// Each shape has a place of its own: the one at which it stands among the shapes.
pub proof fn a_shape_is_at_its_place(shape: QueryShape)
    ensures
        0 <= place_of(shape) < 5,
        QUERY_SHAPES@[place_of(shape)] == shape,
{
}

/// What is kept of a body is its beginning, 200 characters of it at most.
pub proof fn the_beginning_of_a_body_is_kept(body: Seq<char>)
    ensures
        shortened(body).len() <= 200,
        shortened(body).is_prefix_of(body),
        body.len() <= 200 ==> shortened(body) == body,
        body.len() > 200 ==> shortened(body).len() == 200,
{
    assert(body.subrange(0, shortened(body).len() as int) =~= shortened(body));
}

/// A percentile of few samples is one of them, at the place that cuts off the share asked
/// for.
pub proof fn a_percentile_of_few_samples_is_one_of_them(samples: Seq<u64>, percent: nat)
    requires
        percent <= 100,
    ensures
        samples.len() == 0 ==> plain_percentile(samples, percent) == 0,
        samples.len() > 0 ==> {
            let at = percentile_index(samples.len(), percent);
            &&& 0 <= at < samples.len()
            &&& plain_percentile(samples, percent) == ordered(samples)[at]
            &&& (samples.len() - 1) * percent <= at * 100 < (samples.len() - 1) * percent + 100
        },
{
    if samples.len() > 0 {
        let last = samples.len() - 1;
        let product = last * percent;
        assert(0 <= product <= last * 100) by (nonlinear_arith)
            requires
                product == last * percent,
                last >= 0,
                percent <= 100,
        ;
    }
}

/// A body begins behind an empty line: the end of one line, and the end of another right
/// behind it.
pub proof fn a_head_ends_with_an_empty_line(response: Seq<char>, at: int)
    ensures
        head_ends_at(response, at) <==> {
            &&& 0 <= at
            &&& at + 4 <= response.len()
            &&& response[at] == '\r' && response[at + 1] == '\n'
            &&& response[at + 2] == '\r' && response[at + 3] == '\n'
        },
{
    reveal_strlit("\r\n\r\n");
    let end = "\r\n\r\n"@;
    if 0 <= at && at + 4 <= response.len() {
        let part = response.subrange(at, at + 4);
        assert(part[0] == response[at] && part[1] == response[at + 1]);
        assert(part[2] == response[at + 2] && part[3] == response[at + 3]);
        if response[at] == '\r' && response[at + 1] == '\n' && response[at + 2] == '\r'
            && response[at + 3] == '\n' {
            assert(part =~= end);
        }
    }
}

} // verus!
