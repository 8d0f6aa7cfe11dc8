//! The answers of one system, as its report lists them.

use vstd::prelude::*;
use vstd::string::*;

use crate::checks::shown;
use crate::env::{get, lookup};
use crate::json::{Json, JsonView, Node, NodeView};
use crate::load::answers::{drop_repeats, without_repeats};
use crate::order::{ordered_texts, sort_texts, texts_view};
use crate::text::{decimal, push_decimal, same_text};

verus! {

/// What one query was answered.
pub struct AnswerRecord {
    pub id: String,
    pub shape: Option<String>,
    /// The digests, null where there is none.
    pub digest: Json,
    pub reduced_digest: Json,
    /// The digest, where it is text.
    pub digest_text: Option<String>,
    pub rows: Option<u64>,
    /// The number of rows as the page shows it.
    pub rows_shown: String,
    pub lines_processed: Option<u64>,
    pub label_keys: Vec<String>,
    pub dropped_label_keys: Vec<String>,
    pub ordered: Option<bool>,
}

#[verifier::ext_equal]
pub struct RecordView {
    pub id: Seq<char>,
    pub shape: Option<Seq<char>>,
    pub digest: JsonView,
    pub reduced_digest: JsonView,
    pub digest_text: Option<Seq<char>>,
    pub rows: Option<u64>,
    pub rows_shown: Seq<char>,
    pub lines_processed: Option<u64>,
    pub label_keys: Seq<Seq<char>>,
    pub dropped_label_keys: Seq<Seq<char>>,
    pub ordered: Option<bool>,
}

impl View for AnswerRecord {
    type V = RecordView;

    open spec fn view(&self) -> RecordView {
        RecordView {
            id: self.id@,
            shape: shown(self.shape),
            digest: self.digest@,
            reduced_digest: self.reduced_digest@,
            digest_text: shown(self.digest_text),
            rows: self.rows,
            rows_shown: self.rows_shown@,
            lines_processed: self.lines_processed,
            label_keys: texts_view(self.label_keys@),
            dropped_label_keys: texts_view(self.dropped_label_keys@),
            ordered: self.ordered,
        }
    }
}

pub open spec fn records_view(records: Seq<AnswerRecord>) -> Seq<RecordView> {
    records.map_values(|record: AnswerRecord| record@)
}

// --------------------------------------------------------------------- fields
/// The value of a field, null where it is missing.
pub open spec fn value_field(doc: JsonView, name: Seq<char>) -> JsonView {
    match doc.field(name) {
        Some(value) => value,
        None => JsonView { shown: "null"@, node: NodeView::Null },
    }
}

/// Whole numbers below this are shown digit by digit.
pub const EXACT_NUMBERS: u64 = 1_000_000_000_000_000;

/// A value as the page shows it. A whole number that is small enough is shown
/// digit by digit; any other is shown as `forms` has it, which gives the page's
/// form for the text of a number.
pub open spec fn page_text(value: JsonView, forms: Seq<(String, String)>) -> Seq<char> {
    match value.node {
        NodeView::Null => "null"@,
        NodeView::Bool(flag) => if flag {
            "true"@
        } else {
            "false"@
        },
        NodeView::Text(text) => text,
        NodeView::Number => match value.number() {
            Some(number) if number < EXACT_NUMBERS => decimal(number),
            _ => match lookup(forms, value.shown) {
                Some(form) => form,
                None => value.shown,
            },
        },
        _ => value.shown,
    }
}

fn show_value(value: &Json, forms: &[(String, String)]) -> (out: String)
    ensures
        out@ == page_text(value@, forms@),
{
    match &value.node {
        Node::Null => "null".to_owned(),
        Node::Bool(flag) => if *flag {
            "true".to_owned()
        } else {
            "false".to_owned()
        },
        Node::Text(text) => text.clone(),
        Node::Number => {
            if let Some(number) = value.as_u64() {
                if number < EXACT_NUMBERS {
                    let mut out = String::new();
                    push_decimal(&mut out, number);
                    assert(out@ =~= decimal(number as nat));
                    return out;
                }
            }
            match get(forms, value.shown.as_str()) {
                Some(form) => form.clone(),
                None => value.shown.clone(),
            }
        },
        _ => value.shown.clone(),
    }
}

pub open spec fn text_field(doc: JsonView, name: Seq<char>) -> Option<Seq<char>> {
    match doc.field(name) {
        Some(value) => value.text(),
        None => None,
    }
}

pub open spec fn number_field(doc: JsonView, name: Seq<char>) -> Option<u64> {
    match doc.field(name) {
        Some(value) => match value.number() {
            Some(number) => Some(number as u64),
            None => None,
        },
        None => None,
    }
}

pub open spec fn flag_field(doc: JsonView, name: Seq<char>) -> Option<bool> {
    match doc.field(name) {
        Some(value) => value.flag(),
        None => None,
    }
}

/// The items of a list that are text.
pub open spec fn texts_in(items: Seq<JsonView>) -> Seq<Seq<char>>
    decreases items.len(),
{
    if items.len() == 0 {
        seq![]
    } else {
        let before = texts_in(items.drop_last());
        match items.last().text() {
            Some(text) => before.push(text),
            None => before,
        }
    }
}

pub open spec fn list_field(doc: JsonView, name: Seq<char>) -> Seq<JsonView> {
    match doc.field(name) {
        Some(value) => match value.items() {
            Some(items) => items,
            None => seq![],
        },
        None => seq![],
    }
}

fn read_value(doc: &Json, name: &str) -> (out: Json)
    ensures
        out@ == value_field(doc@, name@),
{
    match doc.get(name) {
        Some(value) => value.copy(),
        None => Json::null(),
    }
}

fn read_text(doc: &Json, name: &str) -> (out: Option<String>)
    ensures
        shown(out) == text_field(doc@, name@),
{
    match doc.get(name) {
        Some(value) => match value.as_str() {
            Some(text) => Some(text.to_owned()),
            None => None,
        },
        None => None,
    }
}

fn read_number(doc: &Json, name: &str) -> (out: Option<u64>)
    ensures
        out == number_field(doc@, name@),
{
    match doc.get(name) {
        Some(value) => value.as_u64(),
        None => None,
    }
}

fn read_flag(doc: &Json, name: &str) -> (out: Option<bool>)
    ensures
        out == flag_field(doc@, name@),
{
    match doc.get(name) {
        Some(value) => value.as_bool(),
        None => None,
    }
}

fn read_texts(doc: &Json, name: &str) -> (out: Vec<String>)
    ensures
        texts_view(out@) == texts_in(list_field(doc@, name@)),
{
    match doc.get(name) {
        Some(value) => match value.as_list() {
            Some(items) => list_texts(items, Ghost(value@.items()->Some_0)),
            None => {
                let out: Vec<String> = Vec::new();
                assert(texts_view(out@) =~= seq![]);
                out
            },
        },
        None => {
            let out: Vec<String> = Vec::new();
            assert(texts_view(out@) =~= seq![]);
            out
        },
    }
}

fn list_texts(items: &Vec<Json>, Ghost(views): Ghost<Seq<JsonView>>) -> (out: Vec<String>)
    requires
        views.len() == items@.len(),
        forall|j: int| 0 <= j < items@.len() ==> #[trigger] views[j] == items@[j]@,
    ensures
        texts_view(out@) == texts_in(views),
{
    let mut out: Vec<String> = Vec::new();
    let mut i: usize = 0;
    assert(texts_view(out@) =~= texts_in(views.take(0)));
    while i < items.len()
        invariant
            i <= items@.len(),
            views.len() == items@.len(),
            forall|j: int| 0 <= j < items@.len() ==> #[trigger] views[j] == items@[j]@,
            texts_view(out@) == texts_in(views.take(i as int)),
        decreases items@.len() - i,
    {
        let ghost before = out@;
        assert(views.take(i + 1).drop_last() =~= views.take(i as int));
        assert(views.take(i + 1).last() == items@[i as int]@);
        if let Some(text) = items[i].as_str() {
            let ghost view = text@;
            out.push(text.to_owned());
            assert(texts_view(out@) =~= texts_view(before).push(view));
        }
        i = i + 1;
    }
    assert(views.take(i as int) =~= views);
    out
}

// -------------------------------------------------------------------- records
/// What an answer says, under an id.
pub open spec fn record_of(
    id: Seq<char>,
    answer: JsonView,
    forms: Seq<(String, String)>,
) -> RecordView {
    RecordView {
        id,
        shape: text_field(answer, "shape"@),
        digest: value_field(answer, "digest"@),
        reduced_digest: value_field(answer, "reduced_digest"@),
        digest_text: text_field(answer, "digest"@),
        rows: number_field(answer, "rows"@),
        rows_shown: page_text(value_field(answer, "rows"@), forms),
        lines_processed: number_field(answer, "lines_processed"@),
        label_keys: texts_in(list_field(answer, "label_keys"@)),
        dropped_label_keys: texts_in(list_field(answer, "dropped_label_keys"@)),
        ordered: flag_field(answer, "ordered"@),
    }
}

fn read_record(id: &str, answer: &Json, forms: &[(String, String)]) -> (record: AnswerRecord)
    ensures
        record@ == record_of(id@, answer@, forms@),
{
    AnswerRecord {
        id: id.to_owned(),
        shape: read_text(answer, "shape"),
        digest: read_value(answer, "digest"),
        reduced_digest: read_value(answer, "reduced_digest"),
        digest_text: read_text(answer, "digest"),
        rows: read_number(answer, "rows"),
        rows_shown: show_value(&read_value(answer, "rows"), forms),
        lines_processed: read_number(answer, "lines_processed"),
        label_keys: read_texts(answer, "label_keys"),
        dropped_label_keys: read_texts(answer, "dropped_label_keys"),
        ordered: read_flag(answer, "ordered"),
    }
}

/// The answers that a report lists.
pub open spec fn answers_of(report: JsonView) -> Seq<JsonView> {
    match report.field("matrix"@) {
        Some(matrix) => list_field(matrix, "answers"@),
        None => seq![],
    }
}

/// The ids of answers.
pub open spec fn ids_of(answers: Seq<JsonView>) -> Seq<Seq<char>>
    decreases answers.len(),
{
    if answers.len() == 0 {
        seq![]
    } else {
        let before = ids_of(answers.drop_last());
        match text_field(answers.last(), "id"@) {
            Some(id) => before.push(id),
            None => before,
        }
    }
}

/// The last answer with an id.
pub open spec fn answer_with(answers: Seq<JsonView>, id: Seq<char>) -> Option<JsonView>
    decreases answers.len(),
{
    if answers.len() == 0 {
        None
    } else if text_field(answers.last(), "id"@) == Some(id) {
        Some(answers.last())
    } else {
        answer_with(answers.drop_last(), id)
    }
}

/// The records of a report by their ids, in order. An id that is listed twice has
/// the last answer of it.
pub open spec fn records_of(report: JsonView, forms: Seq<(String, String)>) -> Seq<RecordView> {
    let answers = answers_of(report);
    let ids = without_repeats(ordered_texts(ids_of(answers)));
    Seq::new(ids.len(), |i: int| record_of(ids[i], answer_with(answers, ids[i])->Some_0, forms))
}

proof fn repeats_come_from(list: Seq<Seq<char>>, i: int)
    requires
        0 <= i < without_repeats(list).len(),
    ensures
        list.contains(without_repeats(list)[i]),
    decreases list.len(),
{
    if list.len() > 1 {
        let rest = list.drop_last();
        if i < without_repeats(rest).len() {
            repeats_come_from(rest, i);
            let at = rest.index_of(without_repeats(rest)[i]);
            assert(list[at] == rest[at]);
        } else {
            assert(list[list.len() - 1] == without_repeats(list)[i]);
        }
    } else {
        assert(list[0] == without_repeats(list)[i]);
    }
}

proof fn listed_ids_have_answers(answers: Seq<JsonView>, id: Seq<char>)
    requires
        ids_of(answers).contains(id),
    ensures
        answer_with(answers, id) is Some,
    decreases answers.len(),
{
    if answers.len() > 0 && text_field(answers.last(), "id"@) != Some(id) {
        let at = ids_of(answers).index_of(id);
        let before = ids_of(answers.drop_last());
        assert(at < before.len() && before[at] == id);
        listed_ids_have_answers(answers.drop_last(), id);
    }
}

proof fn every_id_has_an_answer(answers: Seq<JsonView>, i: int)
    requires
        0 <= i < without_repeats(ordered_texts(ids_of(answers))).len(),
    ensures
        answer_with(
            answers,
            without_repeats(ordered_texts(ids_of(answers)))[i],
        ) is Some,
{
    let ids = ids_of(answers);
    let sorted = ordered_texts(ids);
    let id = without_repeats(sorted)[i];
    repeats_come_from(sorted, i);
    crate::order::ordered_texts_are_sorted(ids);
    vstd::seq_lib::to_multiset_contains(sorted, id);
    vstd::seq_lib::to_multiset_contains(ids, id);
    listed_ids_have_answers(answers, id);
}

fn list_ids(items: &Vec<Json>, Ghost(views): Ghost<Seq<JsonView>>) -> (out: Vec<String>)
    requires
        views.len() == items@.len(),
        forall|j: int| 0 <= j < items@.len() ==> #[trigger] views[j] == items@[j]@,
    ensures
        texts_view(out@) == ids_of(views),
{
    let mut out: Vec<String> = Vec::new();
    let mut i: usize = 0;
    assert(texts_view(out@) =~= ids_of(views.take(0)));
    while i < items.len()
        invariant
            i <= items@.len(),
            views.len() == items@.len(),
            forall|j: int| 0 <= j < items@.len() ==> #[trigger] views[j] == items@[j]@,
            texts_view(out@) == ids_of(views.take(i as int)),
        decreases items@.len() - i,
    {
        let ghost before = out@;
        assert(views.take(i + 1).drop_last() =~= views.take(i as int));
        assert(views.take(i + 1).last() == items@[i as int]@);
        if let Some(id) = read_text(&items[i], "id") {
            let ghost view = id@;
            out.push(id);
            assert(texts_view(out@) =~= texts_view(before).push(view));
        }
        i = i + 1;
    }
    assert(views.take(i as int) =~= views);
    out
}

fn find_answer(items: &Vec<Json>, id: &str, Ghost(views): Ghost<Seq<JsonView>>) -> (at: usize)
    requires
        views.len() == items@.len(),
        forall|j: int| 0 <= j < items@.len() ==> #[trigger] views[j] == items@[j]@,
        answer_with(views, id@) is Some,
    ensures
        at < items@.len(),
        answer_with(views, id@) == Some(items@[at as int]@),
{
    let mut n: usize = items.len();
    assert(views.take(n as int) =~= views);
    while n > 0
        invariant
            n <= items@.len(),
            views.len() == items@.len(),
            forall|j: int| 0 <= j < items@.len() ==> #[trigger] views[j] == items@[j]@,
            answer_with(views, id@) is Some,
            answer_with(views, id@) == answer_with(views.take(n as int), id@),
        decreases n,
    {
        assert(views.take(n as int).last() == items@[n - 1]@);
        assert(views.take(n as int).drop_last() =~= views.take(n - 1));
        if let Some(found) = read_text(&items[n - 1], "id") {
            if same_text(found.as_str(), id) {
                return n - 1;
            }
        }
        n = n - 1;
    }
    assert(views.take(0).len() == 0);
    0
}

fn index_items(
    items: &Vec<Json>,
    forms: &[(String, String)],
    Ghost(views): Ghost<Seq<JsonView>>,
) -> (out: Vec<AnswerRecord>)
    requires
        views.len() == items@.len(),
        forall|j: int| 0 <= j < items@.len() ==> #[trigger] views[j] == items@[j]@,
    ensures
        ({
            let ids = without_repeats(ordered_texts(ids_of(views)));
            &&& out@.len() == ids.len()
            &&& forall|i: int|
                0 <= i < ids.len() ==> (#[trigger] out@[i])@ == record_of(
                    ids[i],
                    answer_with(views, ids[i])->Some_0,
                    forms@,
                )
        }),
{
    let mut names = list_ids(items, Ghost(views));
    sort_texts(&mut names);
    let ids = drop_repeats(&names);
    let ghost order = without_repeats(ordered_texts(ids_of(views)));
    let mut out: Vec<AnswerRecord> = Vec::new();
    let mut i: usize = 0;
    while i < ids.len()
        invariant
            i <= ids@.len(),
            texts_view(ids@) == order,
            order == without_repeats(ordered_texts(ids_of(views))),
            views.len() == items@.len(),
            forall|j: int| 0 <= j < items@.len() ==> #[trigger] views[j] == items@[j]@,
            out@.len() == i,
            forall|j: int|
                0 <= j < i ==> (#[trigger] out@[j])@ == record_of(
                    order[j],
                    answer_with(views, order[j])->Some_0,
                    forms@,
                ),
        decreases ids@.len() - i,
    {
        proof {
            every_id_has_an_answer(views, i as int);
            assert(ids@[i as int]@ == order[i as int]);
        }
        let at: usize = find_answer(items, ids[i].as_str(), Ghost(views));
        let record = read_record(ids[i].as_str(), &items[at], forms);
        out.push(record);
        i = i + 1;
    }
    out
}

/// Reads the answers of a report. `forms` holds the page's form for the text of
/// each number that is not shown digit by digit.
pub fn indexed_answers(report: &Json, forms: &[(String, String)]) -> (out: Vec<AnswerRecord>)
    ensures
        records_view(out@) == records_of(report@, forms@),
{
    let ghost answers = answers_of(report@);
    if let Some(matrix) = report.get("matrix") {
        if let Some(list) = matrix.get("answers") {
            if let Some(items) = list.as_list() {
                let out = index_items(items, forms, Ghost(answers));
                assert(records_view(out@) =~= records_of(report@, forms@));
                return out;
            }
        }
    }
    let out: Vec<AnswerRecord> = Vec::new();
    proof {
        assert(ids_of(answers) =~= seq![]);
        crate::order::ordered_texts_are_sorted(ids_of(answers));
        assert(ordered_texts(ids_of(answers)) =~= seq![]);
        assert(records_view(out@) =~= records_of(report@, forms@));
    }
    out
}

/// The first record with an id.
pub open spec fn record_with(records: Seq<RecordView>, id: Seq<char>) -> Option<RecordView>
    decreases records.len(),
{
    if records.len() == 0 {
        None
    } else if records[0].id == id {
        Some(records[0])
    } else {
        record_with(records.drop_first(), id)
    }
}

pub fn find_record<'a>(records: &'a [AnswerRecord], id: &str) -> (out: Option<&'a AnswerRecord>)
    ensures
        match out {
            Some(record) => record_with(records_view(records@), id@) == Some(record@),
            None => record_with(records_view(records@), id@) is None,
        },
{
    let ghost views = records_view(records@);
    let mut i: usize = 0;
    assert(views.skip(0) =~= views);
    while i < records.len()
        invariant
            i <= records@.len(),
            views == records_view(records@),
            record_with(views, id@) == record_with(views.skip(i as int), id@),
        decreases records@.len() - i,
    {
        assert(views.skip(i as int)[0] == records@[i as int]@);
        assert(views.skip(i as int).drop_first() =~= views.skip(i + 1));
        if same_text(records[i].id.as_str(), id) {
            return Some(&records[i]);
        }
        i = i + 1;
    }
    None
}

} // verus!
