//! What reading an answer promises: every line is counted, every row is kept, and every
//! byte of what is compared goes into the digest.

use vstd::prelude::*;
use vstd::string::*;
use vstd::utf8::*;

use crate::json::JsonView;
use crate::load::answers::{
    cell_of, digest_lines, document_rows, fnv, folded, is_metric, kind_of, labels_of, labels_text,
    rows_of, rows_of_entry, rows_of_values, values_in, CellView, RowView,
};

verus! {

// ------------------------------------------------------------------- counting
/// An answer has as many rows as its entries have values together; one more entry adds
/// its values, and one without values adds none.
pub proof fn one_more_entry_adds_its_values(
    entries: Seq<JsonView>,
    entry: JsonView,
    values: JsonView,
)
    ensures
        values_in(Seq::empty()) == 0,
        entry.field("values"@) == Some(values) && values.node is List ==> values_in(
            entries.push(entry),
        ) == values_in(entries) + values.node->List_0.len(),
        entry.field("values"@) is None ==> values_in(entries.push(entry)) == values_in(entries),
{
    assert(entries.push(entry).drop_last() =~= entries);
}

/// The rows of an answer are those of the list under `data` and `result`, and an answer
/// without one has none.
pub proof fn the_rows_are_under_data_and_result(doc: JsonView, data: JsonView, result: JsonView)
    ensures
        doc.field("data"@) == Some(data) && data.field("result"@) == Some(result)
            && result.node is List && values_in(result.node->List_0) <= u64::MAX
            ==> document_rows(doc) == values_in(result.node->List_0),
        doc.field("data"@) is None ==> document_rows(doc) == 0,
        doc.field("data"@) == Some(data) && data.field("result"@) is None ==> document_rows(doc)
            == 0,
{
}

// ----------------------------------------------------------------------- rows
/// Each value of an entry that is a list is a row, with the labels of the entry and its
/// first two cells as they stand; a value that is no list is passed over.
pub proof fn each_value_is_a_row(values: Seq<JsonView>, labels: Seq<char>, value: JsonView)
    ensures
        rows_of_values(Seq::empty(), labels).len() == 0,
        !(value.node is List) ==> rows_of_values(values.push(value), labels) == rows_of_values(
            values,
            labels,
        ),
        value.node is List ==> {
            let rows = rows_of_values(values.push(value), labels);
            let items = value.node->List_0;
            &&& rows.drop_last() == rows_of_values(values, labels)
            &&& rows.len() == rows_of_values(values, labels).len() + 1
            &&& rows.last().labels == labels
            &&& items.len() > 0 ==> rows.last().first == cell_of(items[0])
            &&& items.len() > 1 ==> rows.last().second == cell_of(items[1])
        },
{
    assert(values.push(value).drop_last() =~= values);
    let before = rows_of_values(values, labels);
    if value.node is List {
        let rows = rows_of_values(values.push(value), labels);
        assert(rows.drop_last() =~= before);
    }
}

/// A cell keeps its text, its number as it is written, or what else stands there.
pub proof fn a_cell_keeps_what_stands_there(value: JsonView)
    ensures
        value.node is Text ==> cell_of(value) == CellView::Text(value.node->Text_0),
        value.node is Number ==> cell_of(value) == CellView::Number(value.shown),
        !(value.node is Text) && !(value.node is Number) ==> cell_of(value) == CellView::Other(
            value.shown,
        ),
{
}

/// The rows of an answer are those of its entries, one entry behind the other.
pub proof fn the_rows_of_entries_follow_each_other(
    entries: Seq<JsonView>,
    entry: JsonView,
    kind: Seq<char>,
)
    ensures
        rows_of(entries.push(entry), kind) == rows_of(entries, kind) + rows_of_entry(entry, kind),
        rows_of(Seq::empty(), kind).len() == 0,
{
    assert(entries.push(entry).drop_last() =~= entries);
}

/// The labels of an entry are under `metric` for a series of a metric, and under `stream`
/// for any other.
pub proof fn the_labels_are_those_of_the_kind(entry: JsonView, kind: Seq<char>, labels: JsonView)
    requires
        labels.node is Object,
    ensures
        is_metric(kind) && entry.field("metric"@) == Some(labels) ==> labels_of(entry, kind)
            == labels.node->Object_0,
        !is_metric(kind) && entry.field("stream"@) == Some(labels) ==> labels_of(entry, kind)
            == labels.node->Object_0,
{
}

/// Labels as one text name each label once, with its value behind it.
pub proof fn one_more_label_is_put_behind(
    fields: Seq<(Seq<char>, JsonView)>,
    name: Seq<char>,
    value: JsonView,
)
    requires
        value.node is Text,
    ensures
        fields.len() == 0 ==> labels_text(fields.push((name, value))) == name + "="@
            + value.node->Text_0,
        fields.len() > 0 ==> labels_text(fields.push((name, value))) == labels_text(fields) + ","@
            + name + "="@ + value.node->Text_0,
{
    let more = fields.push((name, value));
    assert(more.drop_last() =~= fields);
    if fields.len() == 0 {
        assert(labels_text(fields) =~= seq![]);
        assert(labels_text(more) =~= name + "="@ + value.node->Text_0);
    }
}

// --------------------------------------------------------------------- digest
/// A hash begins with the offset of FNV-1a, and takes in each byte by `xor` and then a
/// multiplication with its prime.
pub proof fn a_hash_takes_in_every_byte(bytes: Seq<u8>, byte: u8)
    ensures
        fnv(Seq::empty()) == 0xcbf2_9ce4_8422_2325,
        fnv(bytes.push(byte)) == (fnv(bytes) ^ (byte as u64)).wrapping_mul(0x100_0000_01b3),
{
    assert(bytes.push(byte).drop_last() =~= bytes);
}

/// A digest takes in the hash of each line, one behind the other.
pub proof fn a_digest_takes_in_every_line(lines: Seq<Seq<char>>, line: Seq<char>)
    ensures
        folded(Seq::empty()) == 0xcbf2_9ce4_8422_2325,
        folded(lines.push(line)) == (folded(lines) ^ fnv(encode_utf8(line))).wrapping_mul(
            0x100_0000_01b3,
        ),
{
    assert(lines.push(line).drop_last() =~= lines);
}

/// A line of a stream goes into the digest with its instant and its text, and a sample of a
/// series with its labels, its instant and its value.
pub proof fn a_row_goes_into_the_digest_whole(
    rows: Seq<RowView>,
    kind: Seq<char>,
    samples: Seq<(Seq<char>, Seq<char>)>,
    i: int,
    instant: Seq<char>,
    text: Seq<char>,
)
    requires
        0 <= i < rows.len(),
    ensures
        digest_lines(rows, kind, samples).len() == rows.len(),
        is_metric(kind) ==> digest_lines(rows, kind, samples)[i] == rows[i].labels + "\u{1}"@
            + samples[i].0 + "\u{1}"@ + samples[i].1,
        !is_metric(kind) && rows[i].first == CellView::Text(instant) && rows[i].second
            == CellView::Text(text) ==> digest_lines(rows, kind, samples)[i] == instant + "\u{1}"@
            + text,
{
}

/// The kind of an answer is the text under `data` and `resultType`, and samples of a metric
/// are what comes as a matrix or a vector.
pub proof fn the_kind_is_under_data_and_its_type(
    doc: JsonView,
    data: JsonView,
    kind: JsonView,
    name: Seq<char>,
)
    ensures
        doc.field("data"@) == Some(data) && data.field("resultType"@) == Some(kind)
            && kind.node is Text ==> kind_of(doc) == kind.node->Text_0,
        doc.field("data"@) is None ==> kind_of(doc) == "unknown"@,
        doc.field("data"@) == Some(data) && data.field("resultType"@) is None ==> kind_of(doc)
            == "unknown"@,
        is_metric(name) <==> name == "matrix"@ || name == "vector"@,
        !is_metric("streams"@),
{
    reveal_strlit("matrix");
    reveal_strlit("vector");
    reveal_strlit("streams");
    assert("matrix"@.len() == 6 && "vector"@.len() == 6 && "streams"@.len() == 7);
}

} // verus!
