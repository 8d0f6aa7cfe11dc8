//! What a push and an export promise: what is kept of them, and when they are refused.

use vstd::prelude::*;
use vstd::string::*;
use vstd::utf8::*;

use crate::checks::{first_failure, none_fails};
use crate::ingest::{
    accepted_labels, accepted_push, body_problem, entry_problem, entry_problems, json_entries,
    json_streams, label_problem, label_problems, labels_problem, line_problem, opened_body,
    pushed_problem, pushed_problems, refusal_of, saturated, span_ns, stored_entries, streams_refusal,
    IngestError, JsonEntry, JsonStream, PushLimits, StreamView, TimestampWindow,
};
use crate::log_ingest::{export_problem, exported_problem, exported_problems, stream_problem};
use crate::model::EntryView;
use crate::push::{PushedEntry, PushedStream};
use crate::text::{decimal, parsed_signed, signed_decimal, trimmed};
use crate::time::Duration;

verus! {

// -------------------------------------------------------------------- limits
/// Labels are within the limits exactly if there are not too many, and no name and
/// no value takes too many bytes.
pub proof fn labels_within_the_limits(labels: Seq<(Seq<char>, Seq<char>)>, limits: PushLimits)
    ensures
        labels_problem(labels, limits) is None <==> {
            &&& labels.len() <= limits.max_label_names_per_stream
            &&& forall|k: int|
                0 <= k < labels.len() ==> {
                    &&& encode_utf8((#[trigger] labels[k]).0).len() <= limits.max_label_name_bytes
                    &&& encode_utf8(labels[k].1).len() <= limits.max_label_value_bytes
                }
        },
{
    let outcomes = label_problems(labels, limits);
    none_fails(outcomes);
    assert forall|k: int| 0 <= k < labels.len() implies outcomes[k] == label_problem(
        #[trigger] labels[k],
        limits,
    ) by {}
    if labels.len() <= limits.max_label_names_per_stream {
        if labels_problem(labels, limits) is None {
            assert forall|k: int| 0 <= k < labels.len() implies {
                &&& encode_utf8((#[trigger] labels[k]).0).len() <= limits.max_label_name_bytes
                &&& encode_utf8(labels[k].1).len() <= limits.max_label_value_bytes
            } by {
                assert(outcomes[k] is None);
            }
        } else {
            let k = choose|k: int| 0 <= k < outcomes.len() && #[trigger] outcomes[k] is Some;
            assert(label_problem(labels[k], limits) is Some);
        }
    }
}

/// An entry is fine exactly if its timestamp is within the window, the edges included,
/// and its line does not take too many bytes. In which order the two are looked at
/// decides nothing.
pub proof fn an_entry_within_the_limits(
    entry: EntryView,
    limits: PushLimits,
    window: TimestampWindow,
)
    ensures
        entry_problem(entry.timestamp_ns, entry.line, limits, window) is None <==> {
            &&& window.oldest_ns is Some ==> window.oldest_ns->Some_0 <= entry.timestamp_ns
            &&& window.newest_ns is Some ==> entry.timestamp_ns <= window.newest_ns->Some_0
            &&& encode_utf8(entry.line).len() <= limits.max_line_bytes
        },
        exported_problem(entry, limits, window) is None <==> {
            &&& window.oldest_ns is Some ==> window.oldest_ns->Some_0 <= entry.timestamp_ns
            &&& window.newest_ns is Some ==> entry.timestamp_ns <= window.newest_ns->Some_0
            &&& encode_utf8(entry.line).len() <= limits.max_line_bytes
        },
{
}

// ---------------------------------------------------------------------- push
/// If a push is accepted, there is a stored stream for each pushed one, in its place,
/// with its labels; and a stored entry for each pushed one, in its place, with its
/// timestamp, its line and all its metadata, in order.
pub proof fn an_accepted_push_is_stored_as_it_was_pushed(
    streams: Seq<PushedStream>,
    admitted: Seq<Option<IngestError>>,
    limits: PushLimits,
    window: TimestampWindow,
)
    ensures
        accepted_push(streams, admitted, limits, window) matches Ok(stored) ==> {
            &&& stored.len() == streams.len()
            &&& forall|i: int|
                #![trigger stored[i]]
                #![trigger streams[i]]
                0 <= i < streams.len() ==> {
                    &&& streams[i].labels is Ok
                    &&& stored[i].0 == streams[i].labels->Ok_0@
                    &&& stored[i].1.len() == streams[i].entries@.len()
                }
            &&& forall|i: int, j: int|
                #![trigger stored[i].1[j]]
                #![trigger streams[i].entries@[j]]
                0 <= i < streams.len() && 0 <= j < streams[i].entries@.len() ==> {
                    let pushed = streams[i].entries@[j];
                    let kept = stored[i].1[j];
                    &&& pushed.timestamp_ns is Ok
                    &&& kept.timestamp_ns == pushed.timestamp_ns->Ok_0
                    &&& kept.line == pushed.line@
                    &&& kept.metadata.len() == pushed.structured_metadata@.len()
                    &&& forall|k: int|
                        0 <= k < kept.metadata.len() ==> #[trigger] kept.metadata[k] == (
                            pushed.structured_metadata@[k].0@,
                            pushed.structured_metadata@[k].1@,
                        )
                }
        },
    decreases streams.len(),
{
    if streams.len() > 0 {
        let rest = streams.drop_last();
        an_accepted_push_is_stored_as_it_was_pushed(rest, admitted, limits, window);
        if let Ok(stored) = accepted_push(streams, admitted, limits, window) {
            let before = accepted_push(rest, admitted, limits, window)->Ok_0;
            let last = streams.len() - 1;
            let outcomes = pushed_problems(streams.last().entries@, limits, window);
            none_fails(outcomes);
            assert forall|i: int|
                #![trigger stored[i]]
                #![trigger streams[i]]
                0 <= i < streams.len() implies {
                &&& streams[i].labels is Ok
                &&& stored[i].0 == streams[i].labels->Ok_0@
                &&& stored[i].1.len() == streams[i].entries@.len()
            } by {
                if i < last {
                    assert(stored[i] == before[i]);
                    assert(rest[i] == streams[i]);
                }
            }
            assert forall|i: int, j: int|
                #![trigger stored[i].1[j]]
                #![trigger streams[i].entries@[j]]
                0 <= i < streams.len() && 0 <= j < streams[i].entries@.len() implies {
                let pushed = streams[i].entries@[j];
                let kept = stored[i].1[j];
                &&& pushed.timestamp_ns is Ok
                &&& kept.timestamp_ns == pushed.timestamp_ns->Ok_0
                &&& kept.line == pushed.line@
                &&& kept.metadata.len() == pushed.structured_metadata@.len()
                &&& forall|k: int|
                    0 <= k < kept.metadata.len() ==> #[trigger] kept.metadata[k] == (
                        pushed.structured_metadata@[k].0@,
                        pushed.structured_metadata@[k].1@,
                    )
            } by {
                if i < last {
                    assert(stored[i] == before[i]);
                    assert(rest[i] == streams[i]);
                    assert(before[i].1[j] == stored[i].1[j]);
                } else {
                    assert(outcomes[j] is None);
                    assert(stored[i].1[j] == stored_entries(streams[i].entries@)[j]);
                }
            }
        }
    }
}

/// Whether nothing is to be said against a pushed stream: its labels can be read and
/// are within the limits, the quota admits it, and every entry of it has a timestamp
/// that can be read and is within the window, and a line within the limit.
pub open spec fn is_unobjectionable(
    stream: PushedStream,
    admitted: Option<IngestError>,
    limits: PushLimits,
    window: TimestampWindow,
) -> bool {
    &&& stream.labels is Ok
    &&& stream.labels->Ok_0@.len() <= limits.max_label_names_per_stream
    &&& forall|k: int|
        0 <= k < stream.labels->Ok_0@.len() ==> {
            &&& encode_utf8((#[trigger] stream.labels->Ok_0@[k]).0).len()
                <= limits.max_label_name_bytes
            &&& encode_utf8(stream.labels->Ok_0@[k].1).len() <= limits.max_label_value_bytes
        }
    &&& admitted is None
    &&& forall|j: int|
        0 <= j < stream.entries@.len() ==> {
            let entry = #[trigger] stream.entries@[j];
            &&& entry.timestamp_ns is Ok
            &&& window.oldest_ns is Some ==> window.oldest_ns->Some_0 <= entry.timestamp_ns->Ok_0
            &&& window.newest_ns is Some ==> entry.timestamp_ns->Ok_0 <= window.newest_ns->Some_0
            &&& encode_utf8(entry.line@).len() <= limits.max_line_bytes
        }
}

proof fn one_stream_is_unobjectionable(
    stream: PushedStream,
    admitted: Option<IngestError>,
    limits: PushLimits,
    window: TimestampWindow,
)
    ensures
        is_unobjectionable(stream, admitted, limits, window) <==> {
            &&& accepted_labels(stream, limits) is Ok
            &&& refusal_of(admitted) is None
            &&& first_failure(pushed_problems(stream.entries@, limits, window)) is None
        },
{
    let entries = stream.entries@;
    let outcomes = pushed_problems(entries, limits, window);
    none_fails(outcomes);
    if stream.labels is Ok {
        labels_within_the_limits(stream.labels->Ok_0@, limits);
    }
    assert forall|j: int| 0 <= j < entries.len() implies outcomes[j] == pushed_problem(
        #[trigger] entries[j],
        limits,
        window,
    ) by {}
    if first_failure(outcomes) is None {
        assert forall|j: int| 0 <= j < entries.len() implies {
            let entry = #[trigger] stream.entries@[j];
            &&& entry.timestamp_ns is Ok
            &&& window.oldest_ns is Some ==> window.oldest_ns->Some_0 <= entry.timestamp_ns->Ok_0
            &&& window.newest_ns is Some ==> entry.timestamp_ns->Ok_0 <= window.newest_ns->Some_0
            &&& encode_utf8(entry.line@).len() <= limits.max_line_bytes
        } by {
            assert(outcomes[j] is None);
        }
    } else {
        let j = choose|j: int| 0 <= j < outcomes.len() && #[trigger] outcomes[j] is Some;
        assert(pushed_problem(entries[j], limits, window) is Some);
    }
}

/// A push is accepted exactly if nothing is to be said against any of its streams.
pub proof fn a_push_is_accepted_exactly_if_nothing_is_said_against_it(
    streams: Seq<PushedStream>,
    admitted: Seq<Option<IngestError>>,
    limits: PushLimits,
    window: TimestampWindow,
)
    ensures
        accepted_push(streams, admitted, limits, window) is Ok <==> forall|i: int|
            0 <= i < streams.len() ==> is_unobjectionable(
                #[trigger] streams[i],
                admitted[i],
                limits,
                window,
            ),
    decreases streams.len(),
{
    if streams.len() > 0 {
        let rest = streams.drop_last();
        let last = streams.len() - 1;
        a_push_is_accepted_exactly_if_nothing_is_said_against_it(rest, admitted, limits, window);
        one_stream_is_unobjectionable(streams[last], admitted[last], limits, window);
        assert forall|i: int| 0 <= i < last implies rest[i] == #[trigger] streams[i] by {}
        if accepted_push(streams, admitted, limits, window) is Ok {
            assert forall|i: int| 0 <= i < streams.len() implies is_unobjectionable(
                #[trigger] streams[i],
                admitted[i],
                limits,
                window,
            ) by {
                if i < last {
                    assert(is_unobjectionable(rest[i], admitted[i], limits, window));
                }
            }
        } else if forall|i: int|
            0 <= i < streams.len() ==> is_unobjectionable(
                #[trigger] streams[i],
                admitted[i],
                limits,
                window,
            ) {
            assert forall|i: int| 0 <= i < rest.len() implies is_unobjectionable(
                #[trigger] rest[i],
                admitted[i],
                limits,
                window,
            ) by {
                assert(is_unobjectionable(streams[i], admitted[i], limits, window));
            }
            assert(is_unobjectionable(streams[last], admitted[last], limits, window));
        }
    }
}

/// The first stream that something is to be said against decides how a push is
/// refused: as a bad request, unless its labels are fine and the quota refuses it, whose
/// words then stand. What follows that stream changes nothing.
pub proof fn the_first_bad_stream_decides_the_refusal(
    streams: Seq<PushedStream>,
    admitted: Seq<Option<IngestError>>,
    limits: PushLimits,
    window: TimestampWindow,
    bad: int,
)
    requires
        0 <= bad < streams.len(),
        forall|i: int|
            0 <= i < bad ==> is_unobjectionable(#[trigger] streams[i], admitted[i], limits, window),
        !is_unobjectionable(streams[bad], admitted[bad], limits, window),
    ensures
        ({
            let refusal = accepted_push(streams, admitted, limits, window);
            &&& refusal is Err
            &&& refusal->Err_0 == (admitted[bad]->Some_0.status, admitted[bad]->Some_0.message@)
                || refusal->Err_0.0 == 400
            &&& admitted[bad] is None ==> refusal->Err_0.0 == 400
            &&& if streams[bad].labels is Ok && stream_is_within(
                (streams[bad].labels->Ok_0@, seq![]),
                limits,
                window,
            ) {
                admitted[bad] is Some ==> refusal->Err_0 == (
                    admitted[bad]->Some_0.status,
                    admitted[bad]->Some_0.message@,
                )
            } else {
                refusal->Err_0.0 == 400
            }
            &&& refusal == accepted_push(streams.take(bad + 1), admitted, limits, window)
        }),
    decreases streams.len(),
{
    let rest = streams.drop_last();
    let last = streams.len() - 1;
    if bad < last {
        assert forall|i: int| 0 <= i < bad implies is_unobjectionable(
            #[trigger] rest[i],
            admitted[i],
            limits,
            window,
        ) by {
            assert(is_unobjectionable(streams[i], admitted[i], limits, window));
        }
        the_first_bad_stream_decides_the_refusal(rest, admitted, limits, window, bad);
        assert(rest.take(bad + 1) =~= streams.take(bad + 1));
    } else {
        assert(streams.take(bad + 1) =~= streams);
        a_push_is_accepted_exactly_if_nothing_is_said_against_it(rest, admitted, limits, window);
        assert forall|i: int| 0 <= i < rest.len() implies is_unobjectionable(
            #[trigger] rest[i],
            admitted[i],
            limits,
            window,
        ) by {
            assert(is_unobjectionable(streams[i], admitted[i], limits, window));
        }
        one_stream_is_unobjectionable(streams[bad], admitted[bad], limits, window);
        if streams[bad].labels is Ok {
            labels_within_the_limits(streams[bad].labels->Ok_0@, limits);
        }
    }
}

// ---------------------------------------------------------------------- JSON
/// The entries of a JSON stream are read as they stand, each in its place: its
/// timestamp is the number that its text spells, whatever whitespace is around it, and
/// its line and its metadata are kept as they are. They are read exactly if every
/// timestamp spells a number.
pub proof fn json_entries_are_read_as_they_stand(entries: Seq<JsonEntry>)
    ensures
        json_entries(entries) is Ok <==> forall|j: int|
            0 <= j < entries.len() ==> parsed_signed(trimmed((#[trigger] entries[j]).timestamp@))
                is Some,
        json_entries(entries) matches Ok(list) ==> {
            &&& list.len() == entries.len()
            &&& forall|j: int|
                0 <= j < entries.len() ==> {
                    &&& parsed_signed(trimmed(entries[j].timestamp@)) == Some(
                        (#[trigger] list[j]).timestamp_ns,
                    )
                    &&& list[j].line == entries[j].line@
                    &&& list[j].metadata.len() == entries[j].metadata@.len()
                    &&& forall|k: int|
                        0 <= k < list[j].metadata.len() ==> #[trigger] list[j].metadata[k] == (
                            entries[j].metadata@[k].0@,
                            entries[j].metadata@[k].1@,
                        )
                }
        },
    decreases entries.len(),
{
    if entries.len() > 0 {
        let before = entries.drop_last();
        let last = entries.len() - 1;
        json_entries_are_read_as_they_stand(before);
        assert forall|j: int| 0 <= j < last implies before[j] == #[trigger] entries[j] by {}
        if json_entries(before) is Ok {
            assert forall|j: int| 0 <= j < last implies parsed_signed(
                trimmed((#[trigger] entries[j]).timestamp@),
            ) is Some by {
                assert(parsed_signed(trimmed(before[j].timestamp@)) is Some);
            }
        } else {
            let j = choose|j: int|
                0 <= j < before.len() && parsed_signed(trimmed((#[trigger] before[j]).timestamp@))
                    is None;
            assert(parsed_signed(trimmed(entries[j].timestamp@)) is None);
        }
        assert(entries[last] == entries.last());
        if let Ok(list) = json_entries(entries) {
            let read = json_entries(before)->Ok_0;
            assert forall|j: int| 0 <= j < entries.len() implies {
                &&& parsed_signed(trimmed(entries[j].timestamp@)) == Some(
                    (#[trigger] list[j]).timestamp_ns,
                )
                &&& list[j].line == entries[j].line@
                &&& list[j].metadata.len() == entries[j].metadata@.len()
                &&& forall|k: int|
                    0 <= k < list[j].metadata.len() ==> #[trigger] list[j].metadata[k] == (
                        entries[j].metadata@[k].0@,
                        entries[j].metadata@[k].1@,
                    )
            } by {
                if j < last {
                    assert(list[j] == read[j]);
                }
            }
        }
    }
}

/// A JSON push is read exactly if no stream of it has a bad label name and every
/// timestamp spells a number. Each stream is then in its place, with its labels and
/// with every entry in its place.
pub proof fn a_json_push_is_read_as_it_stands(streams: Seq<JsonStream>)
    ensures
        json_streams(streams) is Ok <==> forall|i: int|
            0 <= i < streams.len() ==> (#[trigger] streams[i]).bad_name is None && forall|j: int|
                0 <= j < streams[i].values@.len() ==> parsed_signed(
                    trimmed((#[trigger] streams[i].values@[j]).timestamp@),
                ) is Some,
        json_streams(streams) matches Ok(read) ==> {
            &&& read.len() == streams.len()
            &&& forall|i: int|
                0 <= i < streams.len() ==> {
                    &&& (#[trigger] read[i]).0 == streams[i].labels@
                    &&& read[i].1.len() == streams[i].values@.len()
                }
            &&& forall|i: int, j: int|
                0 <= i < streams.len() && 0 <= j < streams[i].values@.len() ==> {
                    let value = streams[i].values@[j];
                    let kept = #[trigger] read[i].1[j];
                    &&& parsed_signed(trimmed(value.timestamp@)) == Some(kept.timestamp_ns)
                    &&& kept.line == value.line@
                    &&& kept.metadata.len() == value.metadata@.len()
                    &&& forall|k: int|
                        0 <= k < kept.metadata.len() ==> #[trigger] kept.metadata[k] == (
                            value.metadata@[k].0@,
                            value.metadata@[k].1@,
                        )
                }
        },
    decreases streams.len(),
{
    if streams.len() > 0 {
        let rest = streams.drop_last();
        let last = streams.len() - 1;
        a_json_push_is_read_as_it_stands(rest);
        json_entries_are_read_as_they_stand(streams.last().values@);
        assert forall|i: int| 0 <= i < last implies rest[i] == #[trigger] streams[i] by {}
        if json_streams(streams) is Ok {
            assert forall|i: int| 0 <= i < streams.len() implies (#[trigger] streams[i]).bad_name
                is None && forall|j: int|
                0 <= j < streams[i].values@.len() ==> parsed_signed(
                    trimmed((#[trigger] streams[i].values@[j]).timestamp@),
                ) is Some by {
                if i < last {
                    assert(rest[i].bad_name is None);
                }
            }
            let read = json_streams(streams)->Ok_0;
            let before = json_streams(rest)->Ok_0;
            assert forall|i: int| 0 <= i < streams.len() implies {
                &&& (#[trigger] read[i]).0 == streams[i].labels@
                &&& read[i].1.len() == streams[i].values@.len()
            } by {
                if i < last {
                    assert(read[i] == before[i]);
                }
            }
            assert forall|i: int, j: int|
                0 <= i < streams.len() && 0 <= j < streams[i].values@.len() implies {
                let value = streams[i].values@[j];
                let kept = #[trigger] read[i].1[j];
                &&& parsed_signed(trimmed(value.timestamp@)) == Some(kept.timestamp_ns)
                &&& kept.line == value.line@
                &&& kept.metadata.len() == value.metadata@.len()
                &&& forall|k: int|
                    0 <= k < kept.metadata.len() ==> #[trigger] kept.metadata[k] == (
                        value.metadata@[k].0@,
                        value.metadata@[k].1@,
                    )
            } by {
                if i < last {
                    assert(read[i] == before[i]);
                    assert(before[i].1[j] == read[i].1[j]);
                }
            }
        } else if forall|i: int|
            0 <= i < streams.len() ==> (#[trigger] streams[i]).bad_name is None && forall|j: int|
                0 <= j < streams[i].values@.len() ==> parsed_signed(
                    trimmed((#[trigger] streams[i].values@[j]).timestamp@),
                ) is Some {
            assert forall|i: int| 0 <= i < rest.len() implies (#[trigger] rest[i]).bad_name is None
                && forall|j: int|
                0 <= j < rest[i].values@.len() ==> parsed_signed(
                    trimmed((#[trigger] rest[i].values@[j]).timestamp@),
                ) is Some by {
                assert(streams[i].bad_name is None);
            }
            assert(streams[last].bad_name is None);
        }
    }
}

/// A nanosecond count in decimal, with nothing around it, is read as that count.
pub proof fn a_printed_timestamp_is_read_back(entry: JsonEntry, timestamp_ns: i64)
    requires
        entry.timestamp@ == signed_decimal(timestamp_ns as int),
    ensures
        crate::ingest::json_entry(entry) is Ok,
        crate::ingest::json_entry(entry)->Ok_0.timestamp_ns == timestamp_ns,
        crate::ingest::json_entry(entry)->Ok_0.line == entry.line@,
{
    crate::text::signed_reads_back(timestamp_ns);
}

// ----------------------------------------------------------- decoded streams
/// Decoded streams are accepted exactly if the labels of each are within the limits,
/// the quota admits each, and each entry is within the window and the limit.
pub proof fn decoded_streams_are_accepted_exactly_within_the_limits(
    streams: Seq<StreamView>,
    admitted: Seq<Option<IngestError>>,
    limits: PushLimits,
    window: TimestampWindow,
)
    ensures
        streams_refusal(streams, admitted, limits, window) is None <==> forall|i: int|
            #![trigger admitted[i]]
            #![trigger streams[i]]
            0 <= i < streams.len() ==> admitted[i] is None && stream_is_within(
                streams[i],
                limits,
                window,
            ),
    decreases streams.len(),
{
    if streams.len() > 0 {
        let rest = streams.drop_last();
        let last = streams.len() - 1;
        decoded_streams_are_accepted_exactly_within_the_limits(rest, admitted, limits, window);
        one_stream_is_within(streams[last], limits, window);
        assert forall|i: int| 0 <= i < last implies rest[i] == #[trigger] streams[i] by {}
        if streams_refusal(streams, admitted, limits, window) is None {
            assert forall|i: int|
                #![trigger admitted[i]]
                #![trigger streams[i]]
                0 <= i < streams.len() implies admitted[i] is None && stream_is_within(
                streams[i],
                limits,
                window,
            ) by {
                if i < last {
                    assert(stream_is_within(rest[i], limits, window));
                }
            }
        } else if forall|i: int|
            #![trigger admitted[i]]
            #![trigger streams[i]]
            0 <= i < streams.len() ==> admitted[i] is None && stream_is_within(
                streams[i],
                limits,
                window,
            ) {
            assert forall|i: int|
                #![trigger admitted[i]]
                #![trigger rest[i]]
                0 <= i < rest.len() implies admitted[i] is None && stream_is_within(
                rest[i],
                limits,
                window,
            ) by {
                assert(stream_is_within(streams[i], limits, window));
            }
            assert(stream_is_within(streams[last], limits, window));
        }
    }
}

/// Whether a decoded stream is within the limits and the window.
pub open spec fn stream_is_within(
    stream: StreamView,
    limits: PushLimits,
    window: TimestampWindow,
) -> bool {
    &&& stream.0.len() <= limits.max_label_names_per_stream
    &&& forall|k: int|
        0 <= k < stream.0.len() ==> {
            &&& encode_utf8((#[trigger] stream.0[k]).0).len() <= limits.max_label_name_bytes
            &&& encode_utf8(stream.0[k].1).len() <= limits.max_label_value_bytes
        }
    &&& forall|j: int|
        0 <= j < stream.1.len() ==> {
            let entry = #[trigger] stream.1[j];
            &&& window.oldest_ns is Some ==> window.oldest_ns->Some_0 <= entry.timestamp_ns
            &&& window.newest_ns is Some ==> entry.timestamp_ns <= window.newest_ns->Some_0
            &&& encode_utf8(entry.line).len() <= limits.max_line_bytes
        }
}

proof fn one_stream_is_within(stream: StreamView, limits: PushLimits, window: TimestampWindow)
    ensures
        stream_is_within(stream, limits, window) <==> {
            &&& labels_problem(stream.0, limits) is None
            &&& first_failure(entry_problems(stream.1, limits, window)) is None
        },
        stream_is_within(stream, limits, window) <==> stream_problem(stream, limits, window)
            is None,
{
    let entries = stream.1;
    let outcomes = entry_problems(entries, limits, window);
    let exported = exported_problems(entries, limits, window);
    none_fails(outcomes);
    none_fails(exported);
    labels_within_the_limits(stream.0, limits);
    assert forall|j: int| 0 <= j < entries.len() implies {
        &&& outcomes[j] is None <==> exported[j] is None
        &&& outcomes[j] is None <==> {
            let entry = #[trigger] entries[j];
            &&& window.oldest_ns is Some ==> window.oldest_ns->Some_0 <= entry.timestamp_ns
            &&& window.newest_ns is Some ==> entry.timestamp_ns <= window.newest_ns->Some_0
            &&& encode_utf8(entry.line).len() <= limits.max_line_bytes
        }
    } by {
        an_entry_within_the_limits(entries[j], limits, window);
    }
    if first_failure(outcomes) is None {
        assert forall|j: int| 0 <= j < exported.len() implies #[trigger] exported[j] is None by {
            assert(outcomes[j] is None);
            assert(entries[j] == stream.1[j]);
        }
        assert forall|j: int| 0 <= j < stream.1.len() implies {
            let entry = #[trigger] stream.1[j];
            &&& window.oldest_ns is Some ==> window.oldest_ns->Some_0 <= entry.timestamp_ns
            &&& window.newest_ns is Some ==> entry.timestamp_ns <= window.newest_ns->Some_0
            &&& encode_utf8(entry.line).len() <= limits.max_line_bytes
        } by {
            assert(outcomes[j] is None);
        }
    } else {
        let j = choose|j: int| 0 <= j < outcomes.len() && #[trigger] outcomes[j] is Some;
        assert(entries[j] == stream.1[j]);
        assert(exported[j] is Some);
    }
}

/// An export is within the limits exactly if each of its streams is.
pub proof fn an_export_is_accepted_exactly_within_the_limits(
    streams: Seq<StreamView>,
    limits: PushLimits,
    window: TimestampWindow,
)
    ensures
        export_problem(streams, limits, window) is None <==> forall|i: int|
            0 <= i < streams.len() ==> stream_is_within(#[trigger] streams[i], limits, window),
{
    let outcomes = streams.map_values(
        |stream: StreamView| stream_problem(stream, limits, window),
    );
    none_fails(outcomes);
    assert forall|i: int| 0 <= i < streams.len() implies (outcomes[i] is None
        <==> stream_is_within(#[trigger] streams[i], limits, window)) by {
        one_stream_is_within(streams[i], limits, window);
    }
    if export_problem(streams, limits, window) is None {
        assert forall|i: int| 0 <= i < streams.len() implies stream_is_within(
            #[trigger] streams[i],
            limits,
            window,
        ) by {
            assert(outcomes[i] is None);
        }
    } else {
        let i = choose|i: int| 0 <= i < outcomes.len() && #[trigger] outcomes[i] is Some;
        assert(!stream_is_within(streams[i], limits, window));
    }
}

/// A body is refused for its length exactly if it is longer than the limit; and a
/// compressed body comes to what it decompresses to, exactly if what it declares can be
/// read and is within the limit and it can be decompressed. One that declares too much
/// is too large, and nothing else is.
pub proof fn a_body_within_the_limits_is_opened(
    len: nat,
    declared: Result<nat, Seq<char>>,
    bytes: Result<Seq<u8>, Seq<char>>,
    limits: PushLimits,
)
    ensures
        body_problem(len, limits) is Some <==> len > limits.max_push_bytes,
        opened_body(declared, bytes, limits) is Ok <==> {
            &&& declared is Ok
            &&& declared->Ok_0 <= limits.max_decompressed_push_bytes
            &&& bytes is Ok
        },
        opened_body(declared, bytes, limits) matches Ok(opened) ==> opened == bytes->Ok_0,
        opened_body(declared, bytes, limits) matches Err(refusal) ==> {
            &&& refusal.0 == 413 <==> declared is Ok && declared->Ok_0
                > limits.max_decompressed_push_bytes
            &&& refusal.0 == 413 || refusal.0 == 400
        },
{
}

// ------------------------------------------------------------------- refusals
/// A refusal says how large what it refuses is and how large it may be, and a refused
/// timestamp is named.
pub proof fn a_refusal_names_what_was_found_and_the_limit(
    line: Seq<char>,
    pair: (Seq<char>, Seq<char>),
    timestamp_ns: int,
    body: nat,
    limits: PushLimits,
    window: TimestampWindow,
)
    ensures
        crate::ingest::line_problem(line, limits) matches Some(message) ==> names_both(
            message,
            encode_utf8(line).len(),
            limits.max_line_bytes as nat,
        ),
        label_problem(pair, limits) matches Some(message) ==> {
            ||| encode_utf8(pair.0).len() > limits.max_label_name_bytes && names_both(
                message,
                encode_utf8(pair.0).len(),
                limits.max_label_name_bytes as nat,
            )
            ||| encode_utf8(pair.0).len() <= limits.max_label_name_bytes && names_both(
                message,
                encode_utf8(pair.1).len(),
                limits.max_label_value_bytes as nat,
            )
        },
        body_problem(body, limits) matches Some(message) ==> names_both(
            message,
            body,
            limits.max_push_bytes as nat,
        ),
        window.problem(timestamp_ns) matches Some(message) ==> exists|
            before: Seq<char>,
            behind: Seq<char>,
        |
            message == #[trigger] (before + signed_decimal(timestamp_ns) + behind),
{
    let mid = " bytes, exceeding the maximum of "@;
    if let Some(message) = crate::ingest::line_problem(line, limits) {
        assert(message =~= "log line is "@ + decimal(encode_utf8(line).len()) + mid + decimal(
            limits.max_line_bytes as nat,
        ));
    }
    if let Some(message) = label_problem(pair, limits) {
        if encode_utf8(pair.0).len() > limits.max_label_name_bytes {
            assert(message =~= "label name is "@ + decimal(encode_utf8(pair.0).len()) + mid
                + decimal(limits.max_label_name_bytes as nat));
        } else {
            assert(message =~= ("value of label '"@ + pair.0 + "' is "@) + decimal(
                encode_utf8(pair.1).len(),
            ) + mid + decimal(limits.max_label_value_bytes as nat));
        }
    }
    if let Some(message) = body_problem(body, limits) {
        assert(message =~= "push body is "@ + decimal(body) + mid + decimal(
            limits.max_push_bytes as nat,
        ));
    }
}

/// Whether a message names a number, and behind it another at its end.
pub open spec fn names_both(message: Seq<char>, found: nat, limit: nat) -> bool {
    exists|before: Seq<char>, between: Seq<char>|
        message == #[trigger] (before + decimal(found) + between + decimal(limit))
}

// ---------------------------------------------------------------------- order
/// Of several objections the first one is raised, whatever else there would be to object
/// to. Of a label its name comes before its value, of labels their number before each of
/// them; of a pushed entry its timestamp comes before its line, of an exported one its line
/// before its timestamp; and of an exported stream its labels come before its entries.
pub proof fn the_first_objection_is_the_one_raised(
    pair: (Seq<char>, Seq<char>),
    labels: Seq<(Seq<char>, Seq<char>)>,
    entry: EntryView,
    entries: Seq<EntryView>,
    limits: PushLimits,
    window: TimestampWindow,
    other: Seq<char>,
)
    ensures
        encode_utf8(pair.0).len() > limits.max_label_name_bytes ==> label_problem(pair, limits)
            == label_problem((pair.0, other), limits),
        labels.len() > limits.max_label_names_per_stream ==> labels_problem(labels, limits) == Some(
            "stream has "@ + decimal(labels.len()) + " labels, exceeding the maximum of "@
                + decimal(limits.max_label_names_per_stream as nat),
        ),
        window.problem(entry.timestamp_ns) is Some ==> entry_problem(
            entry.timestamp_ns,
            entry.line,
            limits,
            window,
        ) == window.problem(entry.timestamp_ns),
        window.problem(entry.timestamp_ns) is None ==> entry_problem(
            entry.timestamp_ns,
            entry.line,
            limits,
            window,
        ) == line_problem(entry.line, limits),
        line_problem(entry.line, limits) is Some ==> exported_problem(entry, limits, window)
            == line_problem(entry.line, limits),
        line_problem(entry.line, limits) is None ==> exported_problem(entry, limits, window)
            == window.problem(entry.timestamp_ns),
        labels_problem(labels, limits) is Some ==> stream_problem(
            (labels, entries),
            limits,
            window,
        ) == labels_problem(labels, limits),
{
}

/// Of decoded streams the first bad one is objected to, whatever follows it: to its labels
/// first, then for what the quota says of it, and to its entries last.
pub proof fn the_first_bad_decoded_stream_is_objected_to(
    streams: Seq<StreamView>,
    admitted: Seq<Option<IngestError>>,
    limits: PushLimits,
    window: TimestampWindow,
    stream: StreamView,
)
    ensures
        ({
            let more = streams.push(stream);
            let before = streams_refusal(streams, admitted, limits, window);
            let after = streams_refusal(more, admitted, limits, window);
            let said = admitted[streams.len() as int];
            &&& before is Some ==> after == before
            &&& before is None && labels_problem(stream.0, limits) is Some ==> after == Some(
                (400u16, labels_problem(stream.0, limits)->Some_0),
            )
            &&& before is None && labels_problem(stream.0, limits) is None && said is Some ==> after
                == Some((said->Some_0.status, said->Some_0.message@))
            &&& before is None && labels_problem(stream.0, limits) is None && said is None && after
                is Some ==> after->Some_0.0 == 400
        }),
{
    assert(streams.push(stream).drop_last() =~= streams);
}

/// An instant that a timestamp can hold is kept, and any other becomes the nearest that one
/// can hold; and so does a span.
pub proof fn an_instant_is_kept_or_becomes_the_nearest(instant: int, span: Duration)
    ensures
        i64::MIN <= instant <= i64::MAX ==> saturated(instant) == instant,
        instant > i64::MAX ==> saturated(instant) == i64::MAX,
        instant < i64::MIN ==> saturated(instant) == i64::MIN,
        span.nanos <= i64::MAX ==> span_ns(span) == span.nanos,
        span.nanos > i64::MAX ==> span_ns(span) == i64::MAX,
{
}

} // verus!
