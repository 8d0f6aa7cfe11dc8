//! What the comparison promises: which answers are held against each other, what is said
//! to differ, and when a ratio or a verdict is given.

use vstd::prelude::*;
use vstd::string::*;

use crate::compare::agreement::{
    agree, full_agreement_is_agreement_on_every_query, gated, tally_of, verdict_of, Basis,
    PairAgreement, SHAPES,
};
use crate::compare::notes::{mismatch_of, mismatches_of, missing_from};
use crate::compare::records::{
    answer_with, page_text, record_of, record_with, text_field, texts_in, RecordView,
};
use crate::compare::remarks::{offenders_of, times_in};
use crate::env::lookup;
use crate::json::{same_value, JsonView};
use crate::text::decimal;

verus! {

// -------------------------------------------------------------------- records
/// An answer is found by its id, and the first one of an id is found.
pub proof fn the_first_record_of_an_id_is_found(records: Seq<RecordView>, id: Seq<char>, i: int)
    requires
        0 <= i < records.len(),
        records[i].id == id,
        forall|j: int| 0 <= j < i ==> (#[trigger] records[j]).id != id,
    ensures
        record_with(records, id) == Some(records[i]),
    decreases records.len(),
{
    let rest = records.drop_first();
    if i > 0 {
        assert(records[0].id != id);
        assert(rest[i - 1] == records[i]);
        assert forall|j: int| 0 <= j < i - 1 implies (#[trigger] rest[j]).id != id by {
            assert(rest[j] == records[j + 1]);
        }
        the_first_record_of_an_id_is_found(rest, id, i - 1);
    }
}

/// Where no answer has an id, none is found.
pub proof fn an_id_that_nothing_has_is_not_found(records: Seq<RecordView>, id: Seq<char>)
    requires
        forall|j: int| 0 <= j < records.len() ==> (#[trigger] records[j]).id != id,
    ensures
        record_with(records, id) is None,
    decreases records.len(),
{
    if records.len() > 0 {
        let rest = records.drop_first();
        assert(records[0].id != id);
        assert forall|j: int| 0 <= j < rest.len() implies (#[trigger] rest[j]).id != id by {
            assert(rest[j] == records[j + 1]);
        }
        an_id_that_nothing_has_is_not_found(rest, id);
    }
}

/// Of the answers of a report that have an id, the last counts.
pub proof fn the_last_answer_of_an_id_counts(answers: Seq<JsonView>, id: Seq<char>, i: int)
    requires
        0 <= i < answers.len(),
        text_field(answers[i], "id"@) == Some(id),
        forall|j: int|
            i < j < answers.len() ==> text_field(#[trigger] answers[j], "id"@) != Some(id),
    ensures
        answer_with(answers, id) == Some(answers[i]),
    decreases answers.len(),
{
    let last = answers.len() - 1;
    assert(answers[last] == answers.last());
    if i < last {
        assert(text_field(answers[last], "id"@) != Some(id));
        the_last_answer_of_an_id_counts(answers.drop_last(), id, i);
    }
}

/// A record holds what stands in its answer under the name of each of its parts. A digest
/// that is missing is null.
pub proof fn a_record_holds_the_fields_of_its_answer(
    id: Seq<char>,
    answer: JsonView,
    forms: Seq<(String, String)>,
)
    ensures
        record_of(id, answer, forms).id == id,
        answer.field("digest"@) matches Some(value) ==> record_of(id, answer, forms).digest
            == value,
        answer.field("digest"@) is None ==> record_of(id, answer, forms).digest.node is Null,
        answer.field("reduced_digest"@) matches Some(value) ==> record_of(
            id,
            answer,
            forms,
        ).reduced_digest == value,
        answer.field("reduced_digest"@) is None ==> record_of(
            id,
            answer,
            forms,
        ).reduced_digest.node is Null,
        answer.field("shape"@) matches Some(value) ==> record_of(id, answer, forms).shape
            == value.text(),
        answer.field("shape"@) is None ==> record_of(id, answer, forms).shape is None,
        answer.field("digest"@) matches Some(value) ==> record_of(id, answer, forms).digest_text
            == value.text(),
        answer.field("ordered"@) matches Some(value) ==> record_of(id, answer, forms).ordered
            == value.flag(),
        answer.field("ordered"@) is None ==> record_of(id, answer, forms).ordered is None,
        answer.field("rows"@) matches Some(value) ==> (record_of(id, answer, forms).rows is Some
            <==> value.number() is Some),
        answer.field("rows"@) is Some && answer.field("rows"@)->Some_0.number() is Some
            && answer.field("rows"@)->Some_0.number()->Some_0 <= u64::MAX ==> record_of(
            id,
            answer,
            forms,
        ).rows->Some_0 == answer.field("rows"@)->Some_0.number()->Some_0,
        answer.field("rows"@) is None ==> record_of(id, answer, forms).rows is None,
{
}

/// The texts of a list are the items that are texts.
pub proof fn the_texts_of_a_list_are_its_items(items: Seq<JsonView>, text: Seq<char>)
    ensures
        texts_in(items).contains(text) <==> exists|i: int|
            0 <= i < items.len() && (#[trigger] items[i]).text() == Some(text),
    decreases items.len(),
{
    if items.len() > 0 {
        let rest = items.drop_last();
        let before = texts_in(rest);
        let last = items.len() - 1;
        the_texts_of_a_list_are_its_items(rest, text);
        assert(items[last] == items.last());
        if let Some(added) = items.last().text() {
            let now = before.push(added);
            assert(now[before.len() as int] == added);
            if before.contains(text) {
                let i = choose|i: int| 0 <= i < before.len() && before[i] == text;
                assert(now[i] == text);
            }
            if now.contains(text) {
                let i = choose|i: int| 0 <= i < now.len() && now[i] == text;
                if i < before.len() {
                    assert(before[i] == text);
                }
            }
        }
        if exists|i: int| 0 <= i < rest.len() && (#[trigger] rest[i]).text() == Some(text) {
            let i = choose|i: int|
                0 <= i < rest.len() && (#[trigger] rest[i]).text() == Some(text);
            assert(items[i] == rest[i]);
        }
        if exists|i: int| 0 <= i < items.len() && (#[trigger] items[i]).text() == Some(text) {
            let i = choose|i: int|
                0 <= i < items.len() && (#[trigger] items[i]).text() == Some(text);
            if i < last {
                assert(rest[i] == items[i]);
            }
        }
    }
}

// ------------------------------------------------------------------ agreement
/// Two answers agree exactly if what they are held to is the same, and is there: the
/// whole digest on the strict basis, the reduced one on the reduced basis.
pub proof fn answers_agree_exactly_if_their_digests_do(one: RecordView, other: RecordView)
    ensures
        agree(one, other, Basis::Strict) <==> same_value(one.digest, other.digest) && !(
        one.digest.node is Null),
        agree(one, other, Basis::Reduced) <==> same_value(one.reduced_digest, other.reduced_digest)
            && !(one.reduced_digest.node is Null),
{
}

/// One more query adds to what was compared exactly if it is of the shape and the other
/// system answered it, and to what agreed exactly if its answers agree besides.
pub proof fn one_more_query_is_counted_where_it_belongs(
    left: Seq<RecordView>,
    right: Seq<RecordView>,
    basis: Basis,
    shape: Seq<char>,
    one: RecordView,
)
    ensures
        ({
            let before = tally_of(left, right, basis, shape);
            let after = tally_of(left.push(one), right, basis, shape);
            let answered = record_with(right, one.id);
            &&& after.1 == before.1 + if one.shape == Some(shape) && answered is Some {
                1int
            } else {
                0
            }
            &&& after.0 == before.0 + if one.shape == Some(shape) && answered is Some && agree(
                one,
                answered->Some_0,
                basis,
            ) {
                1int
            } else {
                0
            }
        }),
{
    assert(left.push(one).drop_last() =~= left);
}

/// A ratio is withheld as soon as one query of its shape, which both answered, does not
/// agree.
pub proof fn one_disagreement_withholds_the_ratio(
    agreement: PairAgreement,
    pair: (usize, usize, Basis),
    left: Seq<RecordView>,
    right: Seq<RecordView>,
    shape: int,
    i: int,
    ratio: Seq<char>,
)
    requires
        agreement.is_of(pair, left, right),
        0 <= shape < 7,
        0 <= i < left.len(),
        left[i].shape == Some(SHAPES@[shape]@),
        record_with(right, left[i].id) is Some,
        !agree(left[i], record_with(right, left[i].id)->Some_0, pair.2),
    ensures
        "withheld ("@.is_prefix_of(gated(agreement, shape, ratio)),
{
    if agreement.full(shape) {
        full_agreement_is_agreement_on_every_query(agreement, pair, left, right, shape);
        assert(agree(left[i], record_with(right, left[i].id)->Some_0, pair.2));
    }
    let shown = gated(agreement, shape, ratio);
    let head = "withheld ("@;
    assert(shown.subrange(0, head.len() as int) =~= head);
}

/// The claim is said to hold exactly if it holds against both systems, and to be undecided
/// exactly if one of the two could not be decided.
pub proof fn the_claim_holds_only_against_both(
    against_loki: Option<bool>,
    against_victorialogs: Option<bool>,
)
    ensures
        "**holds**"@.is_prefix_of(verdict_of(against_loki, against_victorialogs)) <==> against_loki
            == Some(true) && against_victorialogs == Some(true),
        "**could not be decided**"@.is_prefix_of(verdict_of(against_loki, against_victorialogs))
            <==> against_loki is None || against_victorialogs is None,
{
    reveal_strlit("**holds**");
    reveal_strlit("**could not be decided**");
    reveal_strlit(
        "**holds** \u{2014} materially faster than Loki and not materially worse than VictoriaLogs",
    );
    reveal_strlit("**does not hold** \u{2014} ");
    reveal_strlit(
        "**could not be decided** \u{2014} the answers disagreed, and a verdict over disagreeing answers is the mistake this report refuses",
    );
    let shown = verdict_of(against_loki, against_victorialogs);
    let holds = "**holds**"@;
    let undecided = "**could not be decided**"@;
    assert(shown.len() > 2);
    if holds.is_prefix_of(shown) {
        assert(holds[2] == shown.subrange(0, holds.len() as int)[2]);
        assert(shown[2] == 'h');
    }
    if undecided.is_prefix_of(shown) {
        assert(undecided[2] == shown.subrange(0, undecided.len() as int)[2]);
        assert(shown[2] == 'c');
    }
    if against_loki == Some(true) && against_victorialogs == Some(true) {
        assert(shown[2] == 'h');
        assert(shown.subrange(0, holds.len() as int) =~= holds);
    } else if against_loki is None || against_victorialogs is None {
        assert(shown[2] == 'c');
        assert(shown.subrange(0, undecided.len() as int) =~= undecided);
    } else {
        assert(shown[2] == 'd');
    }
}

// ----------------------------------------------------------------- mismatches
/// What one list has and the other lacks is exactly that.
pub proof fn what_is_missing_is_in_one_list_only(
    left: Seq<Seq<char>>,
    right: Seq<Seq<char>>,
    name: Seq<char>,
)
    ensures
        missing_from(left, right).contains(name) <==> left.contains(name) && !right.contains(name),
    decreases left.len(),
{
    if left.len() > 0 {
        let rest = left.drop_last();
        let before = missing_from(rest, right);
        let last = left.len() - 1;
        what_is_missing_is_in_one_list_only(rest, right, name);
        assert(left[last] == left.last());
        if rest.contains(name) {
            let i = choose|i: int| 0 <= i < rest.len() && rest[i] == name;
            assert(left[i] == name);
        }
        if left.contains(name) && !rest.contains(name) {
            let i = choose|i: int| 0 <= i < left.len() && left[i] == name;
            if i < last {
                assert(rest[i] == name);
            }
        }
        let now = before.push(left.last());
        assert(now[before.len() as int] == left.last());
        if before.contains(name) {
            let i = choose|i: int| 0 <= i < before.len() && before[i] == name;
            assert(now[i] == name);
        }
        if now.contains(name) {
            let i = choose|i: int| 0 <= i < now.len() && now[i] == name;
            if i < before.len() {
                assert(before[i] == name);
            }
        }
    }
}

/// A query that both answered, on which they do not agree, is among the mismatches, with
/// the rows of each side.
pub proof fn every_disagreement_is_listed(
    left: Seq<RecordView>,
    right: Seq<RecordView>,
    i: int,
) -> (at: int)
    requires
        0 <= i < left.len(),
        record_with(right, left[i].id) is Some,
        !agree(left[i], record_with(right, left[i].id)->Some_0, Basis::Strict),
    ensures
        0 <= at < mismatches_of(left, right).len(),
        mismatches_of(left, right)[at].id == left[i].id,
        mismatches_of(left, right)[at].left_rows == left[i].rows,
        mismatches_of(left, right)[at].right_rows == record_with(right, left[i].id)->Some_0.rows,
        mismatches_of(left, right)[at] == mismatch_of(
            left[i],
            record_with(right, left[i].id)->Some_0,
        ),
    decreases left.len(),
{
    let rest = left.drop_last();
    let last = left.len() - 1;
    assert(left[last] == left.last());
    if i < last {
        assert(rest[i] == left[i]);
        every_disagreement_is_listed(rest, right, i)
    } else {
        mismatches_of(rest, right).len() as int
    }
}

/// What is among the mismatches is a query that both answered, on which they do not agree.
pub proof fn only_disagreements_are_listed(
    left: Seq<RecordView>,
    right: Seq<RecordView>,
    at: int,
) -> (i: int)
    requires
        0 <= at < mismatches_of(left, right).len(),
    ensures
        0 <= i < left.len(),
        record_with(right, left[i].id) is Some,
        !agree(left[i], record_with(right, left[i].id)->Some_0, Basis::Strict),
        mismatches_of(left, right)[at].id == left[i].id,
    decreases left.len(),
{
    let rest = left.drop_last();
    let last = left.len() - 1;
    assert(left[last] == left.last());
    if at < mismatches_of(rest, right).len() {
        let i = only_disagreements_are_listed(rest, right, at);
        assert(rest[i] == left[i]);
        i
    } else {
        last
    }
}

/// A mismatch holds both sides as they are: what it has only on one side is what that
/// side's labels have and the other's lack.
pub proof fn a_mismatch_holds_both_sides(one: RecordView, other: RecordView, name: Seq<char>)
    ensures
        mismatch_of(one, other).only_left.contains(name) <==> one.label_keys.contains(name)
            && !other.label_keys.contains(name),
        mismatch_of(one, other).only_right.contains(name) <==> other.label_keys.contains(name)
            && !one.label_keys.contains(name),
        mismatch_of(one, other).left_digest == one.digest_text,
        mismatch_of(one, other).right_digest == other.digest_text,
        mismatch_of(one, other).left_rows_shown == one.rows_shown,
        mismatch_of(one, other).right_rows_shown == other.rows_shown,
{
    what_is_missing_is_in_one_list_only(one.label_keys, other.label_keys, name);
    what_is_missing_is_in_one_list_only(other.label_keys, one.label_keys, name);
}

// -------------------------------------------------------------------- remarks
/// The queries that are said to be out of order are exactly those that say so themselves.
pub proof fn only_what_is_out_of_order_is_said_to_be(records: Seq<RecordView>, id: Seq<char>)
    ensures
        offenders_of(records).contains(id) <==> exists|i: int|
            0 <= i < records.len() && (#[trigger] records[i]).id == id && records[i].ordered
                == Some(false),
    decreases records.len(),
{
    if records.len() > 0 {
        let rest = records.drop_last();
        let before = offenders_of(rest);
        let last = records.len() - 1;
        let now = before.push(records.last().id);
        only_what_is_out_of_order_is_said_to_be(rest, id);
        assert(records[last] == records.last());
        assert(now[before.len() as int] == records.last().id);
        if before.contains(id) {
            let i = choose|i: int| 0 <= i < before.len() && before[i] == id;
            assert(now[i] == id);
            let j = choose|j: int|
                0 <= j < rest.len() && (#[trigger] rest[j]).id == id && rest[j].ordered == Some(
                    false,
                );
            assert(records[j] == rest[j]);
        }
        if now.contains(id) {
            let i = choose|i: int| 0 <= i < now.len() && now[i] == id;
            if i < before.len() {
                assert(before[i] == id);
            }
        }
        if exists|i: int|
            0 <= i < records.len() && (#[trigger] records[i]).id == id && records[i].ordered
                == Some(false) {
            let i = choose|i: int|
                0 <= i < records.len() && (#[trigger] records[i]).id == id && records[i].ordered
                    == Some(false);
            if i < last {
                assert(rest[i] == records[i]);
            }
        }
    }
}

/// A text that is not in a list is in it no times, and one that is put behind it adds one
/// to how often that text is in it, and to no other.
pub proof fn a_text_is_counted_each_time_it_stands(
    list: Seq<Seq<char>>,
    added: Seq<char>,
    text: Seq<char>,
)
    ensures
        times_in(Seq::empty(), text) == 0,
        times_in(list.push(added), text) == times_in(list, text) + if added == text {
            1int
        } else {
            0
        },
{
    assert(list.push(added).drop_last() =~= list);
}

/// A value is shown as what it is: a text as it stands, a flag and a null by their names, a
/// whole number below `10^15` digit by digit, and any other number by the
/// form that is given for it, or as it is written where none is.
pub proof fn a_value_is_shown_as_what_it_is(value: JsonView, forms: Seq<(String, String)>)
    ensures
        value.node is Null ==> page_text(value, forms) == "null"@,
        value.flag() == Some(true) ==> page_text(value, forms) == "true"@,
        value.flag() == Some(false) ==> page_text(value, forms) == "false"@,
        value.node is Text ==> page_text(value, forms) == value.node->Text_0,
        value.number() is Some && value.number()->Some_0 < 1_000_000_000_000_000 ==> page_text(
            value,
            forms,
        ) == decimal(value.number()->Some_0),
        value.node is Number && value.number() is None && lookup(forms, value.shown) is Some
            ==> page_text(value, forms) == lookup(forms, value.shown)->Some_0,
        value.node is Number && value.number() is None && lookup(forms, value.shown) is None
            ==> page_text(value, forms) == value.shown,
{
}

} // verus!
