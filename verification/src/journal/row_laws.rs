//! What replay promises of rows: each one that was pushed is back under its tenant and
//! its labels, as it was pushed, and nothing else is.

use vstd::prelude::*;
use vstd::string::*;

use crate::journal::replay::{
    all_put_back, normalized_count, pushed_count, streams_put_back, with_streams, Decoded,
    Normalized, RecordView, TablesView,
};
use crate::model::{
    entries_view, first_index, keys_of, with_entries, with_stream, EntryView, Labels, LogEntry,
};
use crate::push::{every_entry_is_read_as_it_was_pushed, pushed_entries, PushedStream};

verus! {

// --------------------------------------------------------------------- tables
/// What a list holds under a key, if it holds anything.
pub open spec fn under<K, T>(list: Seq<(K, T)>, key: K) -> Option<T>
    decreases list.len(),
{
    if list.len() == 0 {
        None
    } else if list[0].0 == key {
        Some(list[0].1)
    } else {
        under(list.drop_first(), key)
    }
}

/// The entries that tables hold of a tenant's label set, in order.
pub open spec fn rows(
    tables: TablesView,
    tenant: Seq<char>,
    labels: Seq<(Seq<char>, Seq<char>)>,
) -> Seq<EntryView> {
    match under(tables, tenant) {
        None => seq![],
        Some(streams) => match under(streams, labels) {
            None => seq![],
            Some(entries) => entries,
        },
    }
}

/// A list with a key set to something: in its place if it is there, else at the end.
spec fn set_under<K, T>(list: Seq<(K, T)>, key: K, value: T) -> Seq<(K, T)> {
    let at = first_index(keys_of(list), key);
    if at < list.len() {
        list.update(at, (key, value))
    } else {
        list.push((key, value))
    }
}

proof fn set_under_is_found<K, T>(list: Seq<(K, T)>, key: K, value: T, other: K)
    ensures
        0 <= first_index(keys_of(list), key) <= list.len(),
        under(set_under(list, key, value), other) == if other == key {
            Some(value)
        } else {
            under(list, other)
        },
        first_index(keys_of(list), key) < list.len() <==> under(list, key) is Some,
        first_index(keys_of(list), key) < list.len() ==> under(list, key) == Some(
            list[first_index(keys_of(list), key)].1,
        ),
    decreases list.len(),
{
    let keys = keys_of(list);
    let out = set_under(list, key, value);
    if list.len() == 0 {
        assert(out =~= seq![(key, value)]);
        assert(out.drop_first() =~= list);
    } else if list[0].0 == key {
        assert(keys[0] == key);
        assert(out.drop_first() =~= list.drop_first());
    } else {
        let rest = list.drop_first();
        assert(keys[0] == list[0].0);
        assert(keys.drop_first() =~= keys_of(rest));
        set_under_is_found(rest, key, value, other);
        assert(out[0] == list[0]);
        assert(out.drop_first() =~= set_under(rest, key, value));
    }
}

/// Adding a stream adds its entries behind those of its tenant and its labels, and
/// changes nothing that is held under another tenant or other labels.
pub proof fn a_stream_is_added_under_its_tenant_and_labels(
    tables: TablesView,
    tenant: Seq<char>,
    labels: Seq<(Seq<char>, Seq<char>)>,
    entries: Seq<EntryView>,
    other_tenant: Seq<char>,
    other_labels: Seq<(Seq<char>, Seq<char>)>,
)
    ensures
        rows(with_stream(tables, tenant, labels, entries), tenant, labels) == rows(
            tables,
            tenant,
            labels,
        ) + entries,
        other_tenant != tenant || other_labels != labels ==> rows(
            with_stream(tables, tenant, labels, entries),
            other_tenant,
            other_labels,
        ) == rows(tables, other_tenant, other_labels),
{
    let none = Seq::<(Seq<(Seq<char>, Seq<char>)>, Seq<EntryView>)>::empty();
    let streams = match under(tables, tenant) {
        Some(streams) => streams,
        None => none,
    };
    let held = match under(streams, labels) {
        Some(held) => held,
        None => seq![],
    };
    let now = set_under(streams, labels, held + entries);
    set_under_is_found(streams, labels, held + entries, labels);
    set_under_is_found(streams, labels, held + entries, other_labels);
    assert(with_entries(streams, labels, entries) =~= now) by {
        if under(streams, labels) is None {
            assert(held + entries =~= entries);
        }
    }
    set_under_is_found(tables, tenant, now, tenant);
    set_under_is_found(tables, tenant, now, other_tenant);
    assert(with_stream(tables, tenant, labels, entries) =~= set_under(tables, tenant, now));
    assert(rows(tables, tenant, labels) == held);
}

/// How many entries streams hold.
pub open spec fn entries_in(
    streams: Seq<(Seq<(Seq<char>, Seq<char>)>, Seq<EntryView>)>,
) -> nat
    decreases streams.len(),
{
    if streams.len() == 0 {
        0
    } else {
        entries_in(streams.drop_last()) + streams.last().1.len()
    }
}

/// How many entries tables hold.
pub open spec fn rows_in(tables: TablesView) -> nat
    decreases tables.len(),
{
    if tables.len() == 0 {
        0
    } else {
        rows_in(tables.drop_last()) + entries_in(tables.last().1)
    }
}

proof fn entries_in_updated(
    streams: Seq<(Seq<(Seq<char>, Seq<char>)>, Seq<EntryView>)>,
    at: int,
    labels: Seq<(Seq<char>, Seq<char>)>,
    entries: Seq<EntryView>,
)
    requires
        0 <= at < streams.len(),
    ensures
        entries_in(streams.update(at, (labels, entries))) + streams[at].1.len() == entries_in(
            streams,
        ) + entries.len(),
    decreases streams.len(),
{
    let now = streams.update(at, (labels, entries));
    if at == streams.len() - 1 {
        assert(now.drop_last() =~= streams.drop_last());
    } else {
        entries_in_updated(streams.drop_last(), at, labels, entries);
        assert(now.drop_last() =~= streams.drop_last().update(at, (labels, entries)));
    }
}

proof fn rows_in_updated(
    tables: TablesView,
    at: int,
    tenant: Seq<char>,
    streams: Seq<(Seq<(Seq<char>, Seq<char>)>, Seq<EntryView>)>,
)
    requires
        0 <= at < tables.len(),
    ensures
        rows_in(tables.update(at, (tenant, streams))) + entries_in(tables[at].1) == rows_in(tables)
            + entries_in(streams),
    decreases tables.len(),
{
    let now = tables.update(at, (tenant, streams));
    if at == tables.len() - 1 {
        assert(now.drop_last() =~= tables.drop_last());
    } else {
        rows_in_updated(tables.drop_last(), at, tenant, streams);
        assert(now.drop_last() =~= tables.drop_last().update(at, (tenant, streams)));
    }
}

proof fn entries_in_with(
    streams: Seq<(Seq<(Seq<char>, Seq<char>)>, Seq<EntryView>)>,
    labels: Seq<(Seq<char>, Seq<char>)>,
    entries: Seq<EntryView>,
)
    ensures
        entries_in(with_entries(streams, labels, entries)) == entries_in(streams) + entries.len(),
{
    let at = first_index(keys_of(streams), labels);
    set_under_is_found(streams, labels, entries, labels);
    if at < streams.len() {
        entries_in_updated(streams, at, labels, streams[at].1 + entries);
    } else {
        assert(streams.push((labels, entries)).drop_last() =~= streams);
    }
}

/// Adding a stream adds as many rows as it has entries.
pub proof fn a_stream_adds_as_many_rows_as_it_has_entries(
    tables: TablesView,
    tenant: Seq<char>,
    labels: Seq<(Seq<char>, Seq<char>)>,
    entries: Seq<EntryView>,
)
    ensures
        rows_in(with_stream(tables, tenant, labels, entries)) == rows_in(tables) + entries.len(),
{
    let at = first_index(keys_of(tables), tenant);
    let none = Seq::<(Seq<(Seq<char>, Seq<char>)>, Seq<EntryView>)>::empty();
    set_under_is_found(tables, tenant, none, tenant);
    if at < tables.len() {
        entries_in_with(tables[at].1, labels, entries);
        rows_in_updated(tables, at, tenant, with_entries(tables[at].1, labels, entries));
    } else {
        entries_in_with(none, labels, entries);
        assert(tables.push((tenant, with_entries(none, labels, entries))).drop_last() =~= tables);
    }
}

// ----------------------------------------------------------------- log pushes
/// The entries that pushed streams have under a label set, in order, each with the
/// timestamp, the line and the metadata that it was pushed with.
pub open spec fn pushed_under(
    streams: Seq<PushedStream>,
    labels: Seq<(Seq<char>, Seq<char>)>,
) -> Seq<EntryView>
    decreases streams.len(),
{
    if streams.len() == 0 {
        seq![]
    } else {
        let last = streams.last();
        let before = pushed_under(streams.drop_last(), labels);
        if last.labels->Ok_0@ == labels {
            before + Seq::new(
                last.entries@.len(),
                |j: int|
                    EntryView {
                        timestamp_ns: last.entries@[j].timestamp_ns->Ok_0 as int,
                        line: last.entries@[j].line@,
                        metadata: Seq::new(
                            last.entries@[j].structured_metadata@.len(),
                            |k: int|
                                (
                                    last.entries@[j].structured_metadata@[k].0@,
                                    last.entries@[j].structured_metadata@[k].1@,
                                ),
                        ),
                    },
            )
        } else {
            before
        }
    }
}

/// Whether the labels and every timestamp of a pushed stream can be read.
pub open spec fn is_readable(stream: PushedStream) -> bool {
    &&& stream.labels is Ok
    &&& forall|j: int|
        0 <= j < stream.entries@.len() ==> (#[trigger] stream.entries@[j]).timestamp_ns is Ok
}

/// Replaying a push puts it back exactly if the labels and the timestamps of every
/// stream of it can be read. It then holds, under its tenant and each label set, what was
/// there, and behind it the entries that were pushed under those labels, in order, each
/// as it was pushed. Nothing of another tenant changes, and as many rows are added, and
/// counted, as were pushed.
pub proof fn a_replayed_push_is_put_back_as_it_was_pushed(
    tables: TablesView,
    tenant: Seq<char>,
    streams: Seq<PushedStream>,
    offset: nat,
    other: Seq<char>,
    labels: Seq<(Seq<char>, Seq<char>)>,
)
    ensures
        streams_put_back(tables, tenant, streams, offset).1 is Ok <==> forall|i: int|
            0 <= i < streams.len() ==> is_readable(#[trigger] streams[i]),
        streams_put_back(tables, tenant, streams, offset).1 matches Ok(count) ==> {
            let after = streams_put_back(tables, tenant, streams, offset).0;
            &&& rows(after, tenant, labels) == rows(tables, tenant, labels) + pushed_under(
                streams,
                labels,
            )
            &&& other != tenant ==> rows(after, other, labels) == rows(tables, other, labels)
            &&& count == pushed_count(streams)
            &&& rows_in(after) == rows_in(tables) + count
        },
    decreases streams.len(),
{
    if streams.len() == 0 {
        assert(rows(tables, tenant, labels) + pushed_under(streams, labels) =~= rows(
            tables,
            tenant,
            labels,
        ));
    } else {
        let rest = streams.drop_last();
        let last = streams.last();
        let end = streams.len() - 1;
        a_replayed_push_is_put_back_as_it_was_pushed(tables, tenant, rest, offset, other, labels);
        every_entry_is_read_as_it_was_pushed(last.entries@);
        assert forall|i: int| 0 <= i < end implies rest[i] == #[trigger] streams[i] by {}
        assert(streams[end] == last);
        let before = streams_put_back(tables, tenant, rest, offset);
        if before.1 is Ok {
            assert forall|i: int| 0 <= i < end implies is_readable(#[trigger] streams[i]) by {
                assert(is_readable(rest[i]));
            }
        } else {
            let i = choose|i: int| 0 <= i < rest.len() && !is_readable(#[trigger] rest[i]);
            assert(!is_readable(streams[i]));
        }
        if streams_put_back(tables, tenant, streams, offset).1 is Ok {
            let list = pushed_entries(last.entries@)->Ok_0;
            let own = last.labels->Ok_0@;
            let after = with_stream(before.0, tenant, own, list);
            a_stream_is_added_under_its_tenant_and_labels(before.0, tenant, own, list, tenant, labels);
            a_stream_is_added_under_its_tenant_and_labels(before.0, tenant, own, list, other, labels);
            a_stream_adds_as_many_rows_as_it_has_entries(before.0, tenant, own, list);
            if own == labels {
                let pushed = pushed_under(streams, labels);
                let earlier = pushed_under(rest, labels);
                let start = earlier.len();
                assert forall|n: int| start <= n < pushed.len() implies #[trigger] pushed[n]
                    == list[n - start] by {
                    assert(list[n - start].metadata =~= pushed[n].metadata);
                }
                assert(pushed =~= earlier + list);
                assert(rows(after, tenant, labels) =~= rows(tables, tenant, labels) + pushed);
            }
        }
    }
}

/// A push of which a stream cannot be read is put back up to that stream, and refused.
pub proof fn a_push_is_put_back_up_to_its_first_bad_stream(
    tables: TablesView,
    tenant: Seq<char>,
    streams: Seq<PushedStream>,
    offset: nat,
    bad: int,
)
    requires
        0 <= bad < streams.len(),
        forall|i: int| 0 <= i < bad ==> is_readable(#[trigger] streams[i]),
        !is_readable(streams[bad]),
    ensures
        streams_put_back(tables, tenant, streams, offset).1 is Err,
        streams_put_back(tables, tenant, streams, offset).0 == streams_put_back(
            tables,
            tenant,
            streams.take(bad),
            offset,
        ).0,
        streams_put_back(tables, tenant, streams.take(bad), offset).1 is Ok,
    decreases streams.len(),
{
    let rest = streams.drop_last();
    if bad < streams.len() - 1 {
        assert forall|i: int| 0 <= i < bad implies is_readable(#[trigger] rest[i]) by {
            assert(is_readable(streams[i]));
        }
        a_push_is_put_back_up_to_its_first_bad_stream(tables, tenant, rest, offset, bad);
        assert(rest.take(bad) =~= streams.take(bad));
    } else {
        assert(streams.take(bad) =~= rest);
        assert forall|i: int| 0 <= i < rest.len() implies is_readable(#[trigger] rest[i]) by {
            assert(is_readable(streams[i]));
        }
        a_replayed_push_is_put_back_as_it_was_pushed(tables, tenant, rest, offset, tenant, seq![]);
        every_entry_is_read_as_it_was_pushed(streams.last().entries@);
    }
}

/// Every entry of a push that was replayed is in the tables: under the tenant of the push
/// and the labels of its stream stand, side by side and in order, all entries of the
/// stream, each with its timestamp, its line and its metadata.
pub proof fn every_pushed_stream_stands_in_the_tables(
    tables: TablesView,
    tenant: Seq<char>,
    streams: Seq<PushedStream>,
    offset: nat,
    i: int,
) -> (at: int)
    requires
        streams_put_back(tables, tenant, streams, offset).1 is Ok,
        0 <= i < streams.len(),
    ensures
        ({
            let after = streams_put_back(tables, tenant, streams, offset).0;
            let held = rows(after, tenant, streams[i].labels->Ok_0@);
            let pushed = streams[i].entries@;
            &&& rows(tables, tenant, streams[i].labels->Ok_0@).len() <= at
            &&& at + pushed.len() <= held.len()
            &&& forall|j: int|
                0 <= j < pushed.len() ==> {
                    &&& (#[trigger] held[at + j]).timestamp_ns == pushed[j].timestamp_ns->Ok_0
                    &&& held[at + j].line == pushed[j].line@
                    &&& held[at + j].metadata.len() == pushed[j].structured_metadata@.len()
                    &&& forall|k: int|
                        0 <= k < held[at + j].metadata.len()
                            ==> #[trigger] held[at + j].metadata[k] == (
                            pushed[j].structured_metadata@[k].0@,
                            pushed[j].structured_metadata@[k].1@,
                        )
                }
        }),
    decreases streams.len(),
{
    let rest = streams.drop_last();
    let labels = streams[i].labels->Ok_0@;
    a_replayed_push_is_put_back_as_it_was_pushed(tables, tenant, streams, offset, tenant, labels);
    a_replayed_push_is_put_back_as_it_was_pushed(tables, tenant, rest, offset, tenant, labels);
    let after = streams_put_back(tables, tenant, streams, offset).0;
    let held = rows(after, tenant, labels);
    let before = rows(streams_put_back(tables, tenant, rest, offset).0, tenant, labels);
    assert forall|n: int| 0 <= n < before.len() implies before[n] == #[trigger] held[n] by {}
    if i < streams.len() - 1 {
        assert(rest[i] == streams[i]);
        let at = every_pushed_stream_stands_in_the_tables(tables, tenant, rest, offset, i);
        let pushed = streams[i].entries@;
        assert forall|j: int| 0 <= j < pushed.len() implies before[at + j] == #[trigger] held[at
            + j] by {}
        at
    } else {
        before.len() as int
    }
}

// -------------------------------------------------------------------- exports
/// The entries that streams have under a label set, in order.
pub open spec fn streamed_under(
    streams: Seq<(Labels, Vec<LogEntry>)>,
    labels: Seq<(Seq<char>, Seq<char>)>,
) -> Seq<EntryView>
    decreases streams.len(),
{
    if streams.len() == 0 {
        seq![]
    } else if streams.last().0@ == labels {
        streamed_under(streams.drop_last(), labels) + Seq::new(
            streams.last().1@.len(),
            |j: int| streams.last().1@[j]@,
        )
    } else {
        streamed_under(streams.drop_last(), labels)
    }
}

/// Inserting streams adds, under their tenant and each label set, the entries that they
/// have under those labels, in order, and nothing else.
pub proof fn inserted_streams_are_held_as_they_are(
    tables: TablesView,
    tenant: Seq<char>,
    streams: Seq<(Labels, Vec<LogEntry>)>,
    other: Seq<char>,
    labels: Seq<(Seq<char>, Seq<char>)>,
)
    ensures
        rows(with_streams(tables, tenant, streams), tenant, labels) == rows(
            tables,
            tenant,
            labels,
        ) + streamed_under(streams, labels),
        other != tenant ==> rows(with_streams(tables, tenant, streams), other, labels) == rows(
            tables,
            other,
            labels,
        ),
        rows_in(with_streams(tables, tenant, streams)) == rows_in(tables) + normalized_count(
            streams,
        ),
    decreases streams.len(),
{
    if streams.len() == 0 {
        assert(rows(tables, tenant, labels) + streamed_under(streams, labels) =~= rows(
            tables,
            tenant,
            labels,
        ));
    } else {
        let rest = streams.drop_last();
        let own = streams.last().0@;
        let list = entries_view(streams.last().1@);
        let before = with_streams(tables, tenant, rest);
        inserted_streams_are_held_as_they_are(tables, tenant, rest, other, labels);
        a_stream_is_added_under_its_tenant_and_labels(before, tenant, own, list, tenant, labels);
        a_stream_is_added_under_its_tenant_and_labels(before, tenant, own, list, other, labels);
        a_stream_adds_as_many_rows_as_it_has_entries(before, tenant, own, list);
        if own == labels {
            assert(rows(with_streams(tables, tenant, streams), tenant, labels) =~= rows(
                tables,
                tenant,
                labels,
            ) + streamed_under(streams, labels));
        }
    }
}

// -------------------------------------------------------------------- records
/// The entries that what a record decodes to has under a label set.
pub open spec fn decoded_under(
    decoded: Decoded,
    labels: Seq<(Seq<char>, Seq<char>)>,
) -> Seq<EntryView> {
    match decoded {
        Decoded::Logs(Ok(streams)) => pushed_under(streams@, labels),
        Decoded::OtlpLogs(Ok(Normalized::Streams(streams))) => streamed_under(streams@, labels),
        _ => seq![],
    }
}

/// Whether what a payload decodes to can be put back: it could be decoded, and of a push
/// every stream can be read. An export without records is no obstacle.
pub open spec fn can_be_put_back(decoded: Decoded) -> bool {
    match decoded {
        Decoded::Logs(Ok(streams)) => forall|i: int|
            0 <= i < streams@.len() ==> is_readable(#[trigger] streams@[i]),
        Decoded::OtlpLogs(Ok(normalized)) => !(normalized is Invalid),
        Decoded::Traces(outcome) => outcome is Inserted,
        _ => false,
    }
}

/// A record is put back exactly if it can be. It then adds its entries under its tenant
/// and their labels, in order, and nothing else.
pub proof fn a_record_is_put_back_under_its_tenant(
    decoded: Decoded,
    tables: TablesView,
    tenant: Seq<char>,
    offset: nat,
    other: Seq<char>,
    labels: Seq<(Seq<char>, Seq<char>)>,
)
    ensures
        decoded.put_back(tables, tenant, offset).1 is Ok <==> can_be_put_back(decoded),
        decoded.put_back(tables, tenant, offset).1 matches Ok(count) ==> {
            let after = decoded.put_back(tables, tenant, offset).0;
            &&& rows(after, tenant, labels) == rows(tables, tenant, labels) + decoded_under(
                decoded,
                labels,
            )
            &&& other != tenant ==> rows(after, other, labels) == rows(tables, other, labels)
            &&& rows_in(after) == rows_in(tables) + count
        },
{
    assert(rows(tables, tenant, labels) + Seq::<EntryView>::empty() =~= rows(
        tables,
        tenant,
        labels,
    ));
    match decoded {
        Decoded::Logs(Ok(streams)) => {
            a_replayed_push_is_put_back_as_it_was_pushed(
                tables,
                tenant,
                streams@,
                offset,
                other,
                labels,
            );
        },
        Decoded::OtlpLogs(Ok(Normalized::Streams(streams))) => {
            inserted_streams_are_held_as_they_are(tables, tenant, streams@, other, labels);
        },
        _ => {},
    }
}

/// The entries that records have of a tenant under a label set, in order.
pub open spec fn recorded_under(
    records: Seq<RecordView>,
    decoded: Seq<Decoded>,
    tenant: Seq<char>,
    labels: Seq<(Seq<char>, Seq<char>)>,
) -> Seq<EntryView>
    decreases decoded.len(),
{
    if decoded.len() == 0 {
        seq![]
    } else {
        let before = recorded_under(records.drop_last(), decoded.drop_last(), tenant, labels);
        if records.last().tenant == tenant {
            before + decoded_under(decoded.last(), labels)
        } else {
            before
        }
    }
}

/// A log is replayed exactly if every record of it can be put back. The tables then hold,
/// of every tenant and every label set, what they held before and behind it the entries
/// of the tenant's records, in the order of the log: no row is lost, none is held twice,
/// and none moves to another tenant or other labels.
pub proof fn a_replayed_log_puts_every_row_back(
    tables: TablesView,
    records: Seq<RecordView>,
    decoded: Seq<Decoded>,
    tenant: Seq<char>,
    labels: Seq<(Seq<char>, Seq<char>)>,
)
    requires
        records.len() == decoded.len(),
    ensures
        all_put_back(tables, records, decoded).1 is Ok <==> forall|k: int|
            0 <= k < decoded.len() ==> can_be_put_back(#[trigger] decoded[k]),
        all_put_back(tables, records, decoded).1 matches Ok(count) ==> {
            let after = all_put_back(tables, records, decoded).0;
            &&& rows(after, tenant, labels) == rows(tables, tenant, labels) + recorded_under(
                records,
                decoded,
                tenant,
                labels,
            )
            &&& rows_in(after) == rows_in(tables) + count
        },
    decreases decoded.len(),
{
    if decoded.len() == 0 {
        assert(rows(tables, tenant, labels) + Seq::<EntryView>::empty() =~= rows(
            tables,
            tenant,
            labels,
        ));
    } else {
        let rest = decoded.drop_last();
        let end = decoded.len() - 1;
        let earlier = records.drop_last();
        let record = records.last();
        a_replayed_log_puts_every_row_back(tables, earlier, rest, tenant, labels);
        let before = all_put_back(tables, earlier, rest);
        assert forall|k: int| 0 <= k < end implies rest[k] == #[trigger] decoded[k] by {}
        assert(decoded[end] == decoded.last());
        if before.1 is Ok {
            assert forall|k: int| 0 <= k < end implies can_be_put_back(#[trigger] decoded[k]) by {
                assert(can_be_put_back(rest[k]));
            }
            a_record_is_put_back_under_its_tenant(
                decoded.last(),
                before.0,
                record.tenant,
                record.offset,
                tenant,
                labels,
            );
            if all_put_back(tables, records, decoded).1 is Ok && record.tenant == tenant {
                let after = all_put_back(tables, records, decoded).0;
                assert(rows(after, tenant, labels) =~= rows(tables, tenant, labels)
                    + recorded_under(records, decoded, tenant, labels));
            }
        } else {
            let k = choose|k: int| 0 <= k < rest.len() && !can_be_put_back(#[trigger] rest[k]);
            assert(!can_be_put_back(decoded[k]));
        }
    }
}

/// An entry of a push in a log that was replayed is in the tables, under the tenant of
/// its record and the labels of its stream, with its timestamp, its line and its
/// metadata, whatever stood in the log before it and behind it.
pub proof fn a_logged_entry_is_back_after_a_restart(
    tables: TablesView,
    records: Seq<RecordView>,
    decoded: Seq<Decoded>,
    k: int,
    i: int,
    j: int,
) -> (at: int)
    requires
        records.len() == decoded.len(),
        all_put_back(tables, records, decoded).1 is Ok,
        0 <= k < decoded.len(),
        decoded[k] is Logs,
        decoded[k]->Logs_0 is Ok,
        0 <= i < decoded[k]->Logs_0->Ok_0@.len(),
        0 <= j < decoded[k]->Logs_0->Ok_0@[i].entries@.len(),
    ensures
        ({
            let stream = decoded[k]->Logs_0->Ok_0@[i];
            let pushed = stream.entries@[j];
            let after = all_put_back(tables, records, decoded).0;
            let held = rows(after, records[k].tenant, stream.labels->Ok_0@);
            &&& 0 <= at < held.len()
            &&& held[at].timestamp_ns == pushed.timestamp_ns->Ok_0
            &&& held[at].line == pushed.line@
            &&& held[at].metadata.len() == pushed.structured_metadata@.len()
            &&& forall|m: int|
                0 <= m < held[at].metadata.len() ==> #[trigger] held[at].metadata[m] == (
                    pushed.structured_metadata@[m].0@,
                    pushed.structured_metadata@[m].1@,
                )
        }),
    decreases decoded.len(),
{
    let rest = decoded.drop_last();
    let earlier = records.drop_last();
    let stream = decoded[k]->Logs_0->Ok_0@[i];
    let tenant = records[k].tenant;
    let labels = stream.labels->Ok_0@;
    let before = all_put_back(tables, earlier, rest);
    a_record_is_put_back_under_its_tenant(
        decoded.last(),
        before.0,
        records.last().tenant,
        records.last().offset,
        tenant,
        labels,
    );
    let after = all_put_back(tables, records, decoded).0;
    let held = rows(after, tenant, labels);
    let earlier_held = rows(before.0, tenant, labels);
    assert forall|n: int| 0 <= n < earlier_held.len() implies earlier_held[n]
        == #[trigger] held[n] by {}
    if k < decoded.len() - 1 {
        assert(rest[k] == decoded[k]);
        assert(earlier[k] == records[k]);
        let at = a_logged_entry_is_back_after_a_restart(tables, earlier, rest, k, i, j);
        assert(earlier_held[at] == held[at]);
        at
    } else {
        let streams = decoded[k]->Logs_0->Ok_0@;
        let at = every_pushed_stream_stands_in_the_tables(
            before.0,
            tenant,
            streams,
            records[k].offset,
            i,
        );
        assert(held[at + j].line == stream.entries@[j].line@);
        at + j
    }
}

} // verus!
