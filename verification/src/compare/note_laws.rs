//! What the report promises to say: what is counted, what is listed, and when a caveat or a
//! note is given.

use vstd::prelude::*;
use vstd::string::*;

use crate::compare::agreement::{agree, shape_total, sums_of, Basis, Count, SHAPES};
use crate::compare::notes::{
    base_name, differing_of, is_log, joined, one_more_count, reduced_shown, row_of,
    MismatchView,
};
use crate::compare::records::{number_field, record_with, text_field, RecordView};
use crate::compare::remarks::{
    dropped_of, last_colon, log_size, log_sizes, pieces, shape_count, shape_sum,
};
use crate::compare::sections::{
    caveats_of, ends_differ, failed_note, listed_rows, mismatch_section, unordered_note,
    unstable_note,
};
use crate::json::JsonView;
use crate::text::{begins_with, index_of_char_is};

verus! {

// ----------------------------------------------------------------------- sums
/// The sums of a column take in every shape: one more adds what agreed of it and what was
/// compared.
pub proof fn the_sums_take_in_every_shape(per_shape: Seq<(u64, u64)>, one: (u64, u64))
    ensures
        sums_of(Seq::empty()) == (0nat, 0nat),
        sums_of(per_shape.push(one)).0 == sums_of(per_shape).0 + one.0,
        sums_of(per_shape.push(one)).1 == sums_of(per_shape).1 + one.1,
{
    assert(per_shape.push(one).drop_last() =~= per_shape);
}

/// A total over a shape takes in every answer of the shape, with the number that it gives,
/// and no answer of another.
pub proof fn a_total_takes_in_every_answer_of_its_shape(
    answers: Seq<JsonView>,
    answer: JsonView,
    shape: Seq<char>,
)
    ensures
        shape_total(Seq::empty(), shape, Count::Rows) == 0,
        text_field(answer, "shape"@) != Some(shape) ==> {
            &&& shape_total(answers.push(answer), shape, Count::Rows) == shape_total(
                answers,
                shape,
                Count::Rows,
            )
            &&& shape_total(answers.push(answer), shape, Count::LinesProcessed) == shape_total(
                answers,
                shape,
                Count::LinesProcessed,
            )
        },
        text_field(answer, "shape"@) == Some(shape) && number_field(answer, "rows"@) is Some
            ==> shape_total(answers.push(answer), shape, Count::Rows) == shape_total(
            answers,
            shape,
            Count::Rows,
        ) + number_field(answer, "rows"@)->Some_0,
        text_field(answer, "shape"@) == Some(shape) && number_field(answer, "lines_processed"@)
            is Some ==> shape_total(answers.push(answer), shape, Count::LinesProcessed)
            == shape_total(answers, shape, Count::LinesProcessed) + number_field(
            answer,
            "lines_processed"@,
        )->Some_0,
{
    assert(answers.push(answer).drop_last() =~= answers);
}

/// A disagreement counts as one row more exactly if the first side has one row more than
/// the other.
pub proof fn one_row_more_is_one_row_more(list: Seq<MismatchView>, mismatch: MismatchView)
    ensures
        one_more_count(Seq::empty()) == 0,
        one_more_count(list.push(mismatch)) == one_more_count(list) + if mismatch.left_rows is Some
            && mismatch.right_rows is Some && mismatch.left_rows->Some_0
            == mismatch.right_rows->Some_0 + 1 {
            1nat
        } else {
            0nat
        },
{
    assert(list.push(mismatch).drop_last() =~= list);
}

/// What was left out of digests takes in what every answer left out.
pub proof fn what_was_left_out_is_that_of_every_answer(
    records: Seq<RecordView>,
    record: RecordView,
)
    ensures
        dropped_of(Seq::empty()).len() == 0,
        dropped_of(records.push(record)) == dropped_of(records) + record.dropped_label_keys,
{
    assert(records.push(record).drop_last() =~= records);
}

// --------------------------------------------------------------------- caveats
/// A count of a shape is the number under its name, and zero where it is not given.
pub proof fn a_count_is_the_number_under_its_shape(
    report: JsonView,
    matrix: JsonView,
    shapes: JsonView,
    entry: JsonView,
    shape: Seq<char>,
    name: Seq<char>,
)
    ensures
        report.field("matrix"@) == Some(matrix) && matrix.field("shapes"@) == Some(shapes)
            && shapes.field(shape) == Some(entry) && number_field(entry, name) is Some
            ==> shape_count(report, shape, name) == number_field(entry, name)->Some_0,
        report.field("matrix"@) is None ==> shape_count(report, shape, name) == 0,
{
}

/// A sum over the shapes is that of all seven.
pub proof fn a_sum_is_over_all_shapes(report: JsonView, name: Seq<char>)
    ensures
        shape_sum(report, name, 7) == shape_count(report, SHAPES@[0]@, name) + shape_count(
            report,
            SHAPES@[1]@,
            name,
        ) + shape_count(report, SHAPES@[2]@, name) + shape_count(report, SHAPES@[3]@, name)
            + shape_count(report, SHAPES@[4]@, name) + shape_count(report, SHAPES@[5]@, name)
            + shape_count(report, SHAPES@[6]@, name),
{
    reveal_with_fuel(shape_sum, 8);
}

/// A system's timings come with a caveat for each thing that went wrong, and with none
/// where nothing did.
pub proof fn each_thing_that_went_wrong_is_a_caveat(report: JsonView, target: Seq<char>)
    ensures
        ({
            let failed = shape_sum(report, "errors"@, 7);
            let unordered = shape_sum(report, "answers_out_of_requested_order"@, 7);
            let unstable = shape_sum(report, "warm_answers_differed"@, 7);
            let caveats = caveats_of(report, target);
            &&& failed == 0 && unordered == 0 && unstable == 0 <==> caveats.len() == 0
            &&& failed > 0 ==> caveats[0] == failed_note(failed, target)
            &&& unstable > 0 ==> caveats.last() == unstable_note(unstable, target)
            &&& unordered > 0 ==> caveats.contains(unordered_note(unordered, target))
            &&& caveats.len() == (if failed > 0 {
                1int
            } else {
                0
            }) + (if unordered > 0 {
                1int
            } else {
                0
            }) + (if unstable > 0 {
                1int
            } else {
                0
            })
        }),
{
    let failed = shape_sum(report, "errors"@, 7);
    let unordered = shape_sum(report, "answers_out_of_requested_order"@, 7);
    let caveats = caveats_of(report, target);
    if unordered > 0 {
        let at = if failed > 0 {
            1int
        } else {
            0
        };
        assert(caveats[at] == unordered_note(unordered, target));
    }
}

/// Runs ended differently exactly if two of them did.
pub proof fn runs_ended_differently_exactly_if_two_did(ends: Seq<(Seq<char>, Seq<char>)>)
    ensures
        ends_differ(ends) <==> exists|i: int, j: int|
            0 <= i < ends.len() && 0 <= j < ends.len() && (#[trigger] ends[i]).1 != (
            #[trigger] ends[j]).1,
{
    if ends_differ(ends) {
        let i = choose|i: int| 0 <= i < ends.len() && (#[trigger] ends[i]).1 != ends[0].1;
        assert(ends[i].1 != ends[0].1);
    }
    if exists|i: int, j: int|
        0 <= i < ends.len() && 0 <= j < ends.len() && (#[trigger] ends[i]).1 != (
        #[trigger] ends[j]).1 {
        let (i, j) = choose|i: int, j: int|
            0 <= i < ends.len() && 0 <= j < ends.len() && (#[trigger] ends[i]).1 != (
            #[trigger] ends[j]).1;
        assert(ends[i].1 != ends[0].1 || ends[j].1 != ends[0].1);
    }
}

// --------------------------------------------------------------------- listing
/// A query on which two systems differ on the reduced basis is listed with the rows of both
/// sides, and one on which they agree is not.
pub proof fn one_more_query_is_listed_exactly_if_it_differs(
    left: Seq<RecordView>,
    right: Seq<RecordView>,
    one: RecordView,
)
    ensures
        ({
            let answered = record_with(right, one.id);
            let before = differing_of(left, right);
            let after = differing_of(left.push(one), right);
            &&& answered is None ==> after == before
            &&& answered is Some && agree(one, answered->Some_0, Basis::Reduced) ==> after == before
            &&& answered is Some && !agree(one, answered->Some_0, Basis::Reduced) ==> after
                == before.push(
                "`"@ + one.id + "` ("@ + one.rows_shown + " against "@
                    + answered->Some_0.rows_shown + " rows)"@,
            )
        }),
{
    assert(left.push(one).drop_last() =~= left);
}

/// A pair is reported on the reduced basis exactly if something differs.
pub proof fn a_pair_is_reported_exactly_if_something_differs(
    left_name: Seq<char>,
    right_name: Seq<char>,
    list: Seq<Seq<char>>,
)
    ensures
        reduced_shown(left_name, right_name, list) is None <==> list.len() == 0,
{
}

/// Up to twenty disagreements are listed, the first ones, each as its row.
pub proof fn the_first_disagreements_are_listed(list: Seq<MismatchView>, i: int)
    ensures
        listed_rows(list).len() == if list.len() < 20 {
            list.len()
        } else {
            20
        },
        0 <= i < list.len() && i < 20 ==> listed_rows(list)[i] == row_of(list[i]),
        mismatch_section(Seq::empty())
            == "\nNo strict-basis mismatches between loggytracy and Loki.\n"@,
{
}

/// Texts are joined with the separator between any two of them, and nowhere else.
pub proof fn texts_are_joined_with_separators_between(
    list: Seq<Seq<char>>,
    text: Seq<char>,
    separator: Seq<char>,
)
    ensures
        joined(Seq::empty(), separator).len() == 0,
        joined(seq![text], separator) == text,
        list.len() > 0 ==> joined(list.push(text), separator) == joined(list, separator) + separator
            + text,
{
    assert(list.push(text).drop_last() =~= list);
}

// --------------------------------------------------------------------- volumes
/// A piece in front of a comma is the first piece, and the others are those of what follows.
pub proof fn a_piece_in_front_is_the_first_piece(piece: Seq<char>, rest: Seq<char>)
    requires
        forall|i: int| 0 <= i < piece.len() ==> piece[i] != ',',
    ensures
        pieces(piece + seq![','] + rest) == seq![piece] + pieces(rest),
        pieces(piece) == seq![piece],
{
    let whole = piece + seq![','] + rest;
    let at = piece.len() as int;
    index_of_char_is(whole, ',', at);
    assert(whole.take(at) =~= piece);
    assert(whole.skip(at + 1) =~= rest);
    index_of_char_is(piece, ',', at);
}

proof fn colon_in_front(name: Seq<char>, size: Seq<char>)
    requires
        forall|i: int| 0 <= i < size.len() ==> size[i] != ':',
    ensures
        last_colon(name + seq![':'] + size) == name.len(),
    decreases size.len(),
{
    let whole = name + seq![':'] + size;
    if size.len() > 0 {
        let rest = size.drop_last();
        assert(whole.last() == size.last());
        assert(size[size.len() - 1] != ':');
        assert(whole.drop_last() =~= name + seq![':'] + rest);
        colon_in_front(name, rest);
    } else {
        assert(whole.last() == ':');
    }
}

/// A component with its size behind a colon gives the size exactly if it is a write-ahead
/// log.
pub proof fn only_a_log_gives_its_size(name: Seq<char>, size: Seq<char>)
    requires
        forall|i: int| 0 <= i < size.len() ==> size[i] != ':',
    ensures
        is_log(name) ==> log_size(name + seq![':'] + size) == Some(size),
        !is_log(name) ==> log_size(name + seq![':'] + size) is None,
{
    let whole = name + seq![':'] + size;
    colon_in_front(name, size);
    assert(whole.take(name.len() as int) =~= name);
    assert(whole.skip(name.len() as int + 1) =~= size);
}

/// The sizes of the logs are those of the pieces that are logs, in order.
pub proof fn the_sizes_are_those_of_the_logs(piece: Seq<char>, list: Seq<Seq<char>>)
    ensures
        log_sizes(Seq::empty()).len() == 0,
        log_size(piece) is None ==> log_sizes(seq![piece] + list) == log_sizes(list),
        log_size(piece) matches Some(size) ==> log_sizes(seq![piece] + list) == seq![size]
            + log_sizes(list),
{
    assert((seq![piece] + list).drop_first() =~= list);
    assert((seq![piece] + list)[0] == piece);
}

proof fn behind_the_slash(name: Seq<char>, front: Seq<char>)
    requires
        forall|i: int| 0 <= i < name.len() ==> name[i] != '/',
        front.len() == 0 || front.last() == '/',
    ensures
        base_name(front + name) == name,
    decreases name.len(),
{
    let whole = front + name;
    if name.len() > 0 {
        let rest = name.drop_last();
        assert(whole.last() == name.last());
        assert(name[name.len() - 1] != '/');
        assert(whole.drop_last() =~= front + rest);
        behind_the_slash(rest, front);
        assert(rest.push(name.last()) =~= name);
    } else {
        assert(whole =~= front);
        assert(base_name(whole) =~= name);
    }
}

/// A component is a log by its own name, whatever it stands in: one that begins with `wal`
/// or with `journal`.
pub proof fn a_log_is_known_by_its_own_name(front: Seq<char>, name: Seq<char>)
    requires
        forall|i: int| 0 <= i < name.len() ==> name[i] != '/',
        front.len() == 0 || front.last() == '/',
    ensures
        is_log(front + name) <==> begins_with(name, "wal"@) || begins_with(name, "journal"@),
{
    behind_the_slash(name, front);
}

} // verus!
