//! What a query returned, reduced to something that two runs can be compared on.

use vstd::prelude::*;
use vstd::string::*;
use vstd::utf8::*;

use crate::json::{json_of, parse_json, Json, JsonView, Node, NodeView};
use crate::order::{
    ordered_texts, ordered_texts_are_sorted, same_texts_same_order, sort_texts, texts_view,
};
use crate::text::{chars_of, hex, push_hex, same_text, subslice, text_of};

verus! {

// ------------------------------------------------------------------- counting
/// The entries of a result document, if it has any.
pub open spec fn result_entries(doc: JsonView) -> Option<Seq<JsonView>> {
    match doc.field("data"@) {
        Some(data) => match data.field("result"@) {
            Some(result) => result.items(),
            None => None,
        },
        None => None,
    }
}

/// How many values an entry has.
pub open spec fn value_count(entry: JsonView) -> nat {
    match entry.field("values"@) {
        Some(values) => match values.items() {
            Some(items) => items.len(),
            None => 0,
        },
        None => 0,
    }
}

pub open spec fn values_in(entries: Seq<JsonView>) -> nat
    decreases entries.len(),
{
    if entries.len() == 0 {
        0
    } else {
        values_in(entries.drop_last()) + value_count(entries.last())
    }
}

pub open spec fn capped(n: nat) -> u64 {
    if n > u64::MAX {
        u64::MAX
    } else {
        n as u64
    }
}

/// How many lines a result document has.
pub open spec fn document_rows(doc: JsonView) -> u64 {
    match result_entries(doc) {
        Some(entries) => capped(values_in(entries)),
        None => 0,
    }
}

fn count_values(entry: &Json) -> (n: usize)
    ensures
        n == value_count(entry@),
{
    match entry.get("values") {
        Some(values) => match values.as_list() {
            Some(items) => items.len(),
            None => 0,
        },
        None => 0,
    }
}

fn entries_of(doc: &Json) -> (out: Option<&Vec<Json>>)
    ensures
        match out {
            Some(items) => {
                &&& result_entries(doc@) is Some
                &&& result_entries(doc@)->Some_0.len() == items@.len()
                &&& forall|i: int|
                    0 <= i < items@.len() ==> #[trigger] result_entries(doc@)->Some_0[i]
                        == items@[i]@
            },
            None => result_entries(doc@) is None,
        },
{
    match doc.get("data") {
        Some(data) => match data.get("result") {
            Some(result) => result.as_list(),
            None => None,
        },
        None => None,
    }
}

/// How many lines a result document has: none if it is no result.
pub fn count_rows(doc: &Json) -> (rows: u64)
    ensures
        rows == document_rows(doc@),
{
    match entries_of(doc) {
        None => 0,
        Some(entries) => {
            let ghost views = result_entries(doc@)->Some_0;
            let mut rows: u64 = 0;
            let mut i: usize = 0;
            assert(views.take(0) =~= seq![]);
            while i < entries.len()
                invariant
                    i <= entries@.len(),
                    views.len() == entries@.len(),
                    forall|j: int| 0 <= j < entries@.len() ==> #[trigger] views[j] == entries@[j]@,
                    rows == capped(values_in(views.take(i as int))),
                decreases entries@.len() - i,
            {
                assert(views.take(i + 1).drop_last() =~= views.take(i as int));
                assert(views.take(i + 1).last() == views[i as int]);
                rows = rows.saturating_add(count_values(&entries[i]) as u64);
                i = i + 1;
            }
            assert(views.take(i as int) =~= views);
            rows
        },
    }
}

/// How many lines a response holds. A body that is no JSON counts for none: the
/// status is what is gated, and this number describes what came back.
pub fn loki_result_rows(body: &[u8]) -> (rows: u64)
    ensures
        rows == match json_of(body@) {
            Ok(doc) => document_rows(doc),
            Err(_) => 0,
        },
{
    match parse_json(body) {
        Ok(doc) => count_rows(&doc),
        Err(_) => 0,
    }
}

// -------------------------------------------------------------------- reading
/// One side of a value.
pub enum Cell {
    Text(String),
    /// A number, as it is written.
    Number(String),
    /// Anything else, as it is written.
    Other(String),
}

pub enum CellView {
    Text(Seq<char>),
    Number(Seq<char>),
    Other(Seq<char>),
}

impl View for Cell {
    type V = CellView;

    open spec fn view(&self) -> CellView {
        match self {
            Cell::Text(text) => CellView::Text(text@),
            Cell::Number(text) => CellView::Number(text@),
            Cell::Other(text) => CellView::Other(text@),
        }
    }
}

pub open spec fn cell_of(value: JsonView) -> CellView {
    match value.node {
        NodeView::Text(text) => CellView::Text(text),
        NodeView::Number => CellView::Number(value.shown),
        _ => CellView::Other(value.shown),
    }
}

/// The cell at a place of a value. One that is missing reads as null.
pub open spec fn cell_at(items: Seq<JsonView>, i: int) -> CellView {
    if i < items.len() {
        cell_of(items[i])
    } else {
        CellView::Other("null"@)
    }
}

/// A value of a result, with the labels of its series.
pub struct LokiRow {
    pub labels: String,
    pub first: Cell,
    pub second: Cell,
}

pub struct RowView {
    pub labels: Seq<char>,
    pub first: CellView,
    pub second: CellView,
}

impl View for LokiRow {
    type V = RowView;

    open spec fn view(&self) -> RowView {
        RowView { labels: self.labels@, first: self.first@, second: self.second@ }
    }
}

pub open spec fn rows_view(rows: Seq<LokiRow>) -> Seq<RowView> {
    rows.map_values(|row: LokiRow| row@)
}

/// What a response holds.
pub struct LokiResult {
    pub kind: String,
    pub series: usize,
    /// Every label name in it, each once, in order.
    pub label_keys: Vec<String>,
    pub rows: Vec<LokiRow>,
}

/// Whether values are samples of a metric, and not lines.
pub open spec fn is_metric(kind: Seq<char>) -> bool {
    kind == "matrix"@ || kind == "vector"@
}

pub open spec fn kind_of(doc: JsonView) -> Seq<char> {
    match doc.field("data"@) {
        Some(data) => match data.field("resultType"@) {
            Some(kind) => match kind.text() {
                Some(text) => text,
                None => "unknown"@,
            },
            None => "unknown"@,
        },
        None => "unknown"@,
    }
}

/// The labels of an entry: a series of a metric keeps them under another name.
pub open spec fn labels_of(entry: JsonView, kind: Seq<char>) -> Seq<(Seq<char>, JsonView)> {
    let labels = if is_metric(kind) {
        entry.field("metric"@)
    } else {
        entry.field("stream"@)
    };
    match labels {
        Some(labels) => match labels.fields() {
            Some(fields) => fields,
            None => seq![],
        },
        None => seq![],
    }
}

/// Labels as one text: each name with its value, which is empty if it is no text.
pub open spec fn labels_text(fields: Seq<(Seq<char>, JsonView)>) -> Seq<char>
    decreases fields.len(),
{
    if fields.len() == 0 {
        seq![]
    } else {
        let before = labels_text(fields.drop_last());
        let separated = if fields.len() == 1 {
            before
        } else {
            before + ","@
        };
        separated + fields.last().0 + "="@ + match fields.last().1.text() {
            Some(text) => text,
            None => seq![],
        }
    }
}

/// The rows of the values of an entry. What is no list is passed over.
pub open spec fn rows_of_values(values: Seq<JsonView>, labels: Seq<char>) -> Seq<RowView>
    decreases values.len(),
{
    if values.len() == 0 {
        seq![]
    } else {
        let before = rows_of_values(values.drop_last(), labels);
        match values.last().items() {
            Some(items) => before.push(
                RowView { labels, first: cell_at(items, 0), second: cell_at(items, 1) },
            ),
            None => before,
        }
    }
}

pub open spec fn rows_of_entry(entry: JsonView, kind: Seq<char>) -> Seq<RowView> {
    match entry.field("values"@) {
        Some(values) => match values.items() {
            Some(items) => rows_of_values(items, labels_text(labels_of(entry, kind))),
            None => seq![],
        },
        None => seq![],
    }
}

pub open spec fn rows_of(entries: Seq<JsonView>, kind: Seq<char>) -> Seq<RowView>
    decreases entries.len(),
{
    if entries.len() == 0 {
        seq![]
    } else {
        rows_of(entries.drop_last(), kind) + rows_of_entry(entries.last(), kind)
    }
}

pub open spec fn field_names(fields: Seq<(Seq<char>, JsonView)>) -> Seq<Seq<char>> {
    fields.map_values(|field: (Seq<char>, JsonView)| field.0)
}

pub open spec fn names_of(entries: Seq<JsonView>, kind: Seq<char>) -> Seq<Seq<char>>
    decreases entries.len(),
{
    if entries.len() == 0 {
        seq![]
    } else {
        names_of(entries.drop_last(), kind) + field_names(labels_of(entries.last(), kind))
    }
}

/// A list without the items that are the same as the one before them.
pub open spec fn without_repeats(list: Seq<Seq<char>>) -> Seq<Seq<char>>
    decreases list.len(),
{
    if list.len() == 0 {
        seq![]
    } else if list.len() == 1 {
        list
    } else if list.last() == list[list.len() - 2] {
        without_repeats(list.drop_last())
    } else {
        without_repeats(list.drop_last()).push(list.last())
    }
}

/// What a document holds, if it is a result.
pub open spec fn is_result(result: LokiResult, doc: JsonView) -> bool {
    let entries = result_entries(doc)->Some_0;
    &&& result.kind@ == kind_of(doc)
    &&& result.series == entries.len()
    &&& texts_view(result.label_keys@) == without_repeats(
        ordered_texts(names_of(entries, kind_of(doc))),
    )
    &&& rows_view(result.rows@) == rows_of(entries, kind_of(doc))
}

fn read_cell(value: &Json) -> (cell: Cell)
    ensures
        cell@ == cell_of(value@),
{
    match &value.node {
        Node::Text(text) => Cell::Text(text.clone()),
        Node::Number => Cell::Number(value.shown.clone()),
        _ => Cell::Other(value.shown.clone()),
    }
}

fn read_cell_at(items: &Vec<Json>, i: usize, Ghost(views): Ghost<Seq<JsonView>>) -> (cell: Cell)
    requires
        views.len() == items@.len(),
        forall|j: int| 0 <= j < items@.len() ==> #[trigger] views[j] == items@[j]@,
    ensures
        cell@ == cell_at(views, i as int),
{
    if i < items.len() {
        assert(views[i as int] == items@[i as int]@);
        read_cell(&items[i])
    } else {
        Cell::Other("null".to_owned())
    }
}

fn read_labels<'a>(entry: &'a Json, kind: &str) -> (out: Option<&'a Vec<(String, Json)>>)
    ensures
        ({
            let fields = labels_of(entry@, kind@);
            match out {
                Some(list) => {
                    &&& fields.len() == list@.len()
                    &&& forall|i: int|
                        0 <= i < list@.len() ==> #[trigger] fields[i] == (
                            list@[i].0@,
                            list@[i].1@,
                        )
                },
                None => fields.len() == 0,
            }
        }),
{
    let metric = same_text(kind, "matrix") || same_text(kind, "vector");
    let labels = if metric {
        entry.get("metric")
    } else {
        entry.get("stream")
    };
    match labels {
        Some(labels) => labels.as_object(),
        None => None,
    }
}

fn write_labels(entry: &Json, kind: &str) -> (out: String)
    ensures
        out@ == labels_text(labels_of(entry@, kind@)),
{
    let ghost fields = labels_of(entry@, kind@);
    let mut out = String::new();
    match read_labels(entry, kind) {
        None => {
            assert(out@ =~= labels_text(fields));
        },
        Some(list) => {
            let mut i: usize = 0;
            assert(fields.take(0) =~= seq![]);
            assert(out@ =~= labels_text(fields.take(0)));
            while i < list.len()
                invariant
                    i <= list@.len(),
                    fields.len() == list@.len(),
                    forall|j: int|
                        0 <= j < list@.len() ==> #[trigger] fields[j] == (
                            list@[j].0@,
                            list@[j].1@,
                        ),
                    out@ == labels_text(fields.take(i as int)),
                decreases list@.len() - i,
            {
                let ghost before = out@;
                assert(fields.take(i + 1).drop_last() =~= fields.take(i as int));
                assert(fields.take(i + 1).last() == fields[i as int]);
                if i > 0 {
                    out.append(",");
                }
                out.append(list[i].0.as_str());
                out.append("=");
                match list[i].1.as_str() {
                    Some(text) => {
                        out.append(text);
                    },
                    None => {
                        assert(out@ =~= out@ + Seq::<char>::empty());
                    },
                }
                i = i + 1;
            }
            assert(fields.take(i as int) =~= fields);
        },
    }
    out
}

fn read_rows(entry: &Json, kind: &str, rows: &mut Vec<LokiRow>)
    ensures
        rows_view(final(rows)@) == rows_view(old(rows)@) + rows_of_entry(entry@, kind@),
{
    let ghost start = rows@;
    let ghost none = Seq::<RowView>::empty();
    assert(rows_view(start) =~= rows_view(start) + none);
    let values = match entry.get("values") {
        Some(values) => values,
        None => {
            return;
        },
    };
    let items = match values.as_list() {
        Some(items) => items,
        None => {
            return;
        },
    };
    let labels = write_labels(entry, kind);
    let ghost views = values@.items()->Some_0;
    let mut i: usize = 0;
    assert(views.take(0) =~= seq![]);
    while i < items.len()
        invariant
            i <= items@.len(),
            views.len() == items@.len(),
            forall|j: int| 0 <= j < items@.len() ==> #[trigger] views[j] == items@[j]@,
            rows_view(rows@) == rows_view(start) + rows_of_values(views.take(i as int), labels@),
        decreases items@.len() - i,
    {
        let ghost before = rows@;
        assert(views.take(i + 1).drop_last() =~= views.take(i as int));
        assert(views.take(i + 1).last() == views[i as int]);
        if let Some(pair) = items[i].as_list() {
            let ghost cells = items@[i as int]@.items()->Some_0;
            let row = LokiRow {
                labels: labels.clone(),
                first: read_cell_at(pair, 0, Ghost(cells)),
                second: read_cell_at(pair, 1, Ghost(cells)),
            };
            let ghost view = row@;
            rows.push(row);
            assert(rows_view(rows@) =~= rows_view(before).push(view));
            assert(rows_view(rows@) =~= rows_view(start) + rows_of_values(
                views.take(i + 1),
                labels@,
            ));
        }
        i = i + 1;
    }
    assert(views.take(i as int) =~= views);
}

fn read_names(entry: &Json, kind: &str, names: &mut Vec<String>)
    ensures
        texts_view(final(names)@) == texts_view(old(names)@) + field_names(
            labels_of(entry@, kind@),
        ),
{
    let ghost fields = labels_of(entry@, kind@);
    let ghost start = names@;
    match read_labels(entry, kind) {
        None => {
            assert(texts_view(names@) =~= texts_view(start) + field_names(fields));
        },
        Some(list) => {
            let mut i: usize = 0;
            assert(texts_view(names@) =~= texts_view(start) + field_names(fields).take(0));
            while i < list.len()
                invariant
                    i <= list@.len(),
                    fields.len() == list@.len(),
                    forall|j: int|
                        0 <= j < list@.len() ==> #[trigger] fields[j] == (
                            list@[j].0@,
                            list@[j].1@,
                        ),
                    texts_view(names@) == texts_view(start) + field_names(fields).take(i as int),
                decreases list@.len() - i,
            {
                let ghost before = names@;
                let name = list[i].0.clone();
                let ghost view = name@;
                names.push(name);
                assert(texts_view(names@) =~= texts_view(before).push(view));
                assert(view == fields[i as int].0);
                i = i + 1;
                assert(field_names(fields).take(i as int) =~= field_names(fields).take(
                    i - 1,
                ).push(view));
            }
            assert(field_names(fields).take(i as int) =~= field_names(fields));
        },
    }
}

/// A list without repeats.
pub fn drop_repeats(list: &Vec<String>) -> (out: Vec<String>)
    ensures
        texts_view(out@) == without_repeats(texts_view(list@)),
{
    let ghost views = texts_view(list@);
    let mut out: Vec<String> = Vec::new();
    let mut i: usize = 0;
    assert(views.take(0) =~= seq![]);
    assert(texts_view(out@) =~= seq![]);
    while i < list.len()
        invariant
            i <= list@.len(),
            views == texts_view(list@),
            texts_view(out@) == without_repeats(views.take(i as int)),
        decreases list@.len() - i,
    {
        let ghost before = out@;
        assert(views.take(i + 1).drop_last() =~= views.take(i as int));
        if i == 0 || !same_text(list[i].as_str(), list[i - 1].as_str()) {
            let text = list[i].clone();
            let ghost view = text@;
            out.push(text);
            assert(texts_view(out@) =~= texts_view(before).push(view));
            if i == 0 {
                assert(views.take(1) =~= seq![view]);
            }
        }
        i = i + 1;
    }
    assert(views.take(i as int) =~= views);
    out
}

/// Reads a result document.
pub fn read_result(doc: &Json) -> (out: Result<LokiResult, String>)
    ensures
        match out {
            Ok(result) => result_entries(doc@) is Some && is_result(result, doc@),
            Err(message) => result_entries(doc@) is None && message@
                == "response has no data.result array"@,
        },
{
    let kind = match doc.get("data") {
        Some(data) => match data.get("resultType") {
            Some(kind) => match kind.as_str() {
                Some(text) => text.to_owned(),
                None => "unknown".to_owned(),
            },
            None => "unknown".to_owned(),
        },
        None => "unknown".to_owned(),
    };
    match entries_of(doc) {
        None => Err("response has no data.result array".to_owned()),
        Some(entries) => {
            let ghost views = result_entries(doc@)->Some_0;
            let mut rows: Vec<LokiRow> = Vec::new();
            let mut names: Vec<String> = Vec::new();
            let mut i: usize = 0;
            assert(views.take(0) =~= seq![]);
            assert(rows_view(rows@) =~= seq![]);
            assert(texts_view(names@) =~= seq![]);
            while i < entries.len()
                invariant
                    i <= entries@.len(),
                    views.len() == entries@.len(),
                    forall|j: int| 0 <= j < entries@.len() ==> #[trigger] views[j] == entries@[j]@,
                    rows_view(rows@) == rows_of(views.take(i as int), kind@),
                    texts_view(names@) == names_of(views.take(i as int), kind@),
                decreases entries@.len() - i,
            {
                assert(views.take(i + 1).drop_last() =~= views.take(i as int));
                assert(views.take(i + 1).last() == views[i as int]);
                read_names(&entries[i], kind.as_str(), &mut names);
                read_rows(&entries[i], kind.as_str(), &mut rows);
                i = i + 1;
            }
            assert(views.take(i as int) =~= views);
            sort_texts(&mut names);
            let label_keys = drop_repeats(&names);
            Ok(LokiResult { kind, series: entries.len(), label_keys, rows })
        },
    }
}

/// Reads a response. A body that is no result is an error and not an empty
/// answer.
pub fn read_response(body: &[u8]) -> (out: Result<LokiResult, String>)
    ensures
        match json_of(body@) {
            Err(error) => out is Err && out->Err_0@ == "response is not JSON: "@ + error,
            Ok(doc) => match out {
                Ok(result) => result_entries(doc) is Some && is_result(result, doc),
                Err(message) => result_entries(doc) is None && message@
                    == "response has no data.result array"@,
            },
        },
{
    match parse_json(body) {
        Err(error) => {
            let mut message = "response is not JSON: ".to_owned();
            message.append(error.as_str());
            Err(message)
        },
        Ok(doc) => read_result(&doc),
    }
}

// --------------------------------------------------------------------- digest
/// The start of a digest.
pub const FNV_OFFSET: u64 = 0xcbf2_9ce4_8422_2325;

/// What a digest is multiplied by at each step.
pub const FNV_PRIME: u64 = 0x0000_0100_0000_01b3;

/// A digest with one more number in it.
pub open spec fn stirred(hash: u64, value: u64) -> u64 {
    (hash ^ value).wrapping_mul(FNV_PRIME)
}

/// The FNV-1a hash of bytes.
pub open spec fn fnv(bytes: Seq<u8>) -> u64
    decreases bytes.len(),
{
    if bytes.len() == 0 {
        FNV_OFFSET
    } else {
        stirred(fnv(bytes.drop_last()), bytes.last() as u64)
    }
}

/// The FNV-1a hash of bytes.
pub fn fnv1a64(bytes: &[u8]) -> (hash: u64)
    ensures
        hash == fnv(bytes@),
{
    let mut hash: u64 = FNV_OFFSET;
    let mut i: usize = 0;
    assert(bytes@.take(0) =~= seq![]);
    while i < bytes.len()
        invariant
            i <= bytes@.len(),
            hash == fnv(bytes@.take(i as int)),
        decreases bytes@.len() - i,
    {
        assert(bytes@.take(i + 1).drop_last() =~= bytes@.take(i as int));
        hash = (hash ^ bytes[i] as u64).wrapping_mul(FNV_PRIME);
        i = i + 1;
    }
    assert(bytes@.take(i as int) =~= bytes@);
    hash
}

/// The digest of lines in a given order.
pub open spec fn folded(lines: Seq<Seq<char>>) -> u64
    decreases lines.len(),
{
    if lines.len() == 0 {
        FNV_OFFSET
    } else {
        stirred(folded(lines.drop_last()), fnv(encode_utf8(lines.last())))
    }
}

/// The text of a cell of a line: empty if it is no text.
pub open spec fn plain_cell(cell: CellView) -> Seq<char> {
    match cell {
        CellView::Text(text) => text,
        _ => seq![],
    }
}

/// A row as it goes into the digest. The labels of a stream stay out: a system
/// that promotes fields to labels has returned the same row. Those of a series
/// are in, with the samples in the form that `sample` gives.
pub open spec fn digest_line(
    row: RowView,
    kind: Seq<char>,
    sample: (Seq<char>, Seq<char>),
) -> Seq<char> {
    if is_metric(kind) {
        row.labels + "\u{1}"@ + sample.0 + "\u{1}"@ + sample.1
    } else {
        plain_cell(row.first) + "\u{1}"@ + plain_cell(row.second)
    }
}

pub open spec fn samples_view(samples: Seq<(String, String)>) -> Seq<(Seq<char>, Seq<char>)> {
    samples.map_values(|sample: (String, String)| (sample.0@, sample.1@))
}

pub open spec fn digest_lines(
    rows: Seq<RowView>,
    kind: Seq<char>,
    samples: Seq<(Seq<char>, Seq<char>)>,
) -> Seq<Seq<char>> {
    Seq::new(rows.len(), |i: int| digest_line(rows[i], kind, samples[i]))
}

/// The beginning of a text.
pub open spec fn cut(text: Seq<char>, n: nat) -> Seq<char> {
    if text.len() <= n {
        text
    } else {
        text.take(n as int)
    }
}

/// An answer, reduced to what two runs are compared on.
pub struct Answer {
    pub kind: String,
    pub rows: u64,
    pub series: u64,
    /// A digest of the rows that does not depend on their order.
    pub digest: String,
    pub label_keys: Vec<String>,
    /// The beginning of the first rows in order.
    pub sample: Vec<String>,
}

fn plain_text(cell: &Cell) -> (text: &str)
    ensures
        text@ == plain_cell(cell@),
{
    match cell {
        Cell::Text(text) => text.as_str(),
        _ => {
            proof {
                reveal_strlit("");
                assert(""@ =~= Seq::<char>::empty());
            }
            ""
        },
    }
}

fn write_line(
    row: &LokiRow,
    metric: bool,
    sample: Option<&(String, String)>,
    Ghost(kind): Ghost<Seq<char>>,
    Ghost(shown): Ghost<(Seq<char>, Seq<char>)>,
) -> (line: String)
    requires
        metric == is_metric(kind),
        metric ==> sample is Some && shown == (sample->Some_0.0@, sample->Some_0.1@),
    ensures
        line@ == digest_line(row@, kind, shown),
{
    let mut line = String::new();
    match sample {
        Some(sample) if metric => {
            line.append(row.labels.as_str());
            line.append("\u{1}");
            line.append(sample.0.as_str());
            line.append("\u{1}");
            line.append(sample.1.as_str());
        },
        _ => {
            line.append(plain_text(&row.first));
            line.append("\u{1}");
            line.append(plain_text(&row.second));
        },
    }
    assert(line@ =~= digest_line(row@, kind, shown));
    line
}

fn cut_text(text: &str, n: usize) -> (out: String)
    ensures
        out@ == cut(text@, n as nat),
{
    let chars = chars_of(text);
    if chars.len() <= n {
        text_of(chars.as_slice())
    } else {
        let part = subslice(chars.as_slice(), 0, n);
        assert(part@ =~= text@.take(n as int));
        text_of(part.as_slice())
    }
}

/// Reduces a response to an answer. For a metric, `samples` gives the two sides
/// of each row in the form in which they are compared.
pub fn digest_result(result: &LokiResult, samples: &[(String, String)]) -> (answer: Answer)
    requires
        is_metric(result.kind@) ==> samples@.len() == result.rows@.len(),
    ensures
        ({
            let lines = ordered_texts(
                digest_lines(rows_view(result.rows@), result.kind@, samples_view(samples@)),
            );
            &&& answer.kind@ == result.kind@
            &&& answer.rows == result.rows@.len()
            &&& answer.series == result.series
            &&& answer.digest@ == hex(folded(lines) as nat, 16)
            &&& texts_view(answer.label_keys@) == texts_view(result.label_keys@)
            &&& texts_view(answer.sample@) == Seq::new(
                if lines.len() < 3 {
                    lines.len()
                } else {
                    3
                },
                |i: int| cut(lines[i], 140),
            )
        }),
{
    let ghost kind = result.kind@;
    let ghost shown = samples_view(samples@);
    let ghost wanted = digest_lines(rows_view(result.rows@), kind, shown);
    let metric = same_text(result.kind.as_str(), "matrix") || same_text(
        result.kind.as_str(),
        "vector",
    );
    let mut lines: Vec<String> = Vec::new();
    let mut i: usize = 0;
    assert(texts_view(lines@) =~= wanted.take(0));
    while i < result.rows.len()
        invariant
            i <= result.rows@.len(),
            kind == result.kind@,
            metric == is_metric(kind),
            metric ==> samples@.len() == result.rows@.len(),
            shown == samples_view(samples@),
            wanted == digest_lines(rows_view(result.rows@), kind, shown),
            texts_view(lines@) == wanted.take(i as int),
        decreases result.rows@.len() - i,
    {
        let ghost before = lines@;
        let sample = if metric {
            Some(&samples[i])
        } else {
            None
        };
        let line = write_line(
            &result.rows[i],
            metric,
            sample,
            Ghost(kind),
            Ghost(shown[i as int]),
        );
        let ghost view = line@;
        lines.push(line);
        i = i + 1;
        assert(texts_view(lines@) =~= texts_view(before).push(view));
        assert(wanted.take(i as int) =~= wanted.take(i - 1).push(wanted[i - 1]));
    }
    assert(wanted.take(i as int) =~= wanted);
    sort_texts(&mut lines);
    let ghost sorted = ordered_texts(wanted);
    let mut hash: u64 = FNV_OFFSET;
    let mut sample: Vec<String> = Vec::new();
    let mut j: usize = 0;
    assert(sorted.take(0) =~= seq![]);
    while j < lines.len()
        invariant
            j <= lines@.len(),
            texts_view(lines@) == sorted,
            hash == folded(sorted.take(j as int)),
            sample@.len() == if j < 3 {
                j as int
            } else {
                3
            },
            forall|n: int|
                0 <= n < sample@.len() ==> (#[trigger] sample@[n])@ == cut(sorted[n], 140),
        decreases lines@.len() - j,
    {
        assert(sorted.take(j + 1).drop_last() =~= sorted.take(j as int));
        assert(sorted[j as int] == lines@[j as int]@);
        hash = (hash ^ fnv1a64(lines[j].as_str().as_bytes())).wrapping_mul(FNV_PRIME);
        if j < 3 {
            sample.push(cut_text(lines[j].as_str(), 140));
        }
        j = j + 1;
    }
    assert(sorted.take(j as int) =~= sorted);
    let mut digest = String::new();
    push_hex(&mut digest, hash, 16);
    assert(digest@ =~= hex(hash as nat, 16));
    proof {
        ordered_texts_are_sorted(wanted);
        assert(texts_view(sample@) =~= Seq::new(
            if sorted.len() < 3 {
                sorted.len()
            } else {
                3
            },
            |i: int| cut(sorted[i], 140),
        ));
    }
    Answer {
        kind: result.kind.clone(),
        rows: result.rows.len() as u64,
        series: result.series as u64,
        digest,
        label_keys: copy_texts(&result.label_keys),
        sample,
    }
}

/// A copy of a list of texts.
pub fn copy_texts(list: &Vec<String>) -> (out: Vec<String>)
    ensures
        texts_view(out@) == texts_view(list@),
{
    let mut out: Vec<String> = Vec::new();
    let mut i: usize = 0;
    while i < list.len()
        invariant
            i <= list@.len(),
            texts_view(out@) == texts_view(list@).take(i as int),
        decreases list@.len() - i,
    {
        let ghost before = out@;
        out.push(list[i].clone());
        assert(texts_view(out@) =~= texts_view(before).push(list@[i as int]@));
        i = i + 1;
        assert(texts_view(list@).take(i as int) =~= texts_view(list@).take(i - 1).push(
            list@[i - 1]@,
        ));
    }
    assert(texts_view(list@).take(i as int) =~= texts_view(list@));
    out
}

/// The digest does not depend on the order of the rows: two lists of the same
/// rows, each as often, have the same one.
pub proof fn the_digest_ignores_order(a: Seq<Seq<char>>, b: Seq<Seq<char>>)
    requires
        a.to_multiset() == b.to_multiset(),
    ensures
        folded(ordered_texts(a)) == folded(ordered_texts(b)),
{
    same_texts_same_order(a, b);
}

/// The digest of lines does not depend on the labels of their streams.
pub proof fn the_digest_ignores_stream_labels(
    a: RowView,
    b: RowView,
    kind: Seq<char>,
    sample: (Seq<char>, Seq<char>),
)
    requires
        !is_metric(kind),
        a.first == b.first,
        a.second == b.second,
    ensures
        digest_line(a, kind, sample) == digest_line(b, kind, sample),
{
}

} // verus!
