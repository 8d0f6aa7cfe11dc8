//! What an OTLP log export is held to. It lands in the same log and the same
//! tables as a push, so the same limits hold for it.

use vstd::prelude::*;
use vstd::string::*;

use crate::checks::first_failure;
use crate::config::MAX_OTLP_REQUEST_BYTES;
use crate::ingest::{
    labels_problem, line_problem, line_refusal, parsed_view, validate_labels, PushLimits,
    StreamView, TimestampWindow,
};
use crate::model::{entries_view, EntryView, Labels, LogEntry};

verus! {

/// Records one export may carry. It is normalized in memory before anything of
/// it is appended, so the count is bounded before that work starts.
pub const MAX_OTLP_LOG_RECORDS: usize = 100_000;

/// How a refused export is answered.
#[derive(Clone, Copy, Debug, PartialEq, Eq, Structural)]
pub enum GrpcCode {
    Unavailable,
    ResourceExhausted,
    InvalidArgument,
}

/// A refused export: the code it is answered with, and why.
pub struct ExportError {
    pub code: GrpcCode,
    pub message: String,
}

impl View for ExportError {
    type V = (GrpcCode, Seq<char>);

    open spec fn view(&self) -> (GrpcCode, Seq<char>) {
        (self.code, self.message@)
    }
}

/// Refuses an export while the instance shuts down.
pub fn check_serving(fenced: bool, draining: bool) -> (out: Result<(), ExportError>)
    ensures
        match out {
            Ok(_) => !fenced && !draining,
            Err(error) => {
                &&& fenced || draining
                &&& error@ == (
                    GrpcCode::Unavailable,
                    if fenced {
                        "this instance has been fenced by a newer writer and is shutting down"@
                    } else {
                        "server is draining for shutdown"@
                    },
                )
            },
        },
{
    match crate::ingest::check_serving(fenced, draining) {
        Ok(_) => Ok(()),
        Err(error) => Err(ExportError { code: GrpcCode::Unavailable, message: error.message }),
    }
}

/// How many records there are in all.
pub open spec fn total(counts: Seq<usize>) -> nat
    decreases counts.len(),
{
    if counts.len() == 0 {
        0
    } else {
        total(counts.drop_last()) + counts.last() as nat
    }
}

proof fn total_prefix(counts: Seq<usize>, i: int)
    requires
        0 <= i <= counts.len(),
    ensures
        total(counts.take(i)) <= total(counts),
    decreases counts.len() - i,
{
    if i < counts.len() {
        assert(counts.take(i + 1).drop_last() =~= counts.take(i));
        total_prefix(counts, i + 1);
    } else {
        assert(counts.take(i) =~= counts);
    }
}

/// The number of records in all, if it fits.
pub fn record_count(counts: &[usize]) -> (out: Option<usize>)
    ensures
        match out {
            Some(count) => count == total(counts@),
            None => total(counts@) > usize::MAX,
        },
{
    let mut count: usize = 0;
    let mut i: usize = 0;
    assert(counts@.take(0) =~= seq![]);
    while i < counts.len()
        invariant
            i <= counts@.len(),
            count == total(counts@.take(i as int)),
        decreases counts@.len() - i,
    {
        proof {
            assert(counts@.take(i + 1).drop_last() =~= counts@.take(i as int));
            total_prefix(counts@, i + 1);
        }
        match count.checked_add(counts[i]) {
            Some(sum) => {
                count = sum;
            },
            None => {
                return None;
            },
        }
        i = i + 1;
    }
    assert(counts@.take(i as int) =~= counts@);
    Some(count)
}

/// Refuses an export that is too long, or has too many records. `counts` is how
/// many records each of its scopes has.
pub fn check_export(encoded_len: usize, counts: &[usize]) -> (out: Result<(), ExportError>)
    ensures
        out is Ok <==> encoded_len <= 16_777_216 && total(counts@) <= 100_000,
        match out {
            Ok(_) => encoded_len <= MAX_OTLP_REQUEST_BYTES && total(counts@)
                <= MAX_OTLP_LOG_RECORDS,
            Err(error) => error.code == GrpcCode::ResourceExhausted && if encoded_len
                > MAX_OTLP_REQUEST_BYTES {
                error.message@ == "OTLP request exceeds the maximum of 16777216 bytes"@
            } else if total(counts@) > usize::MAX {
                error.message@ == "OTLP log record count overflow"@
            } else {
                total(counts@) > MAX_OTLP_LOG_RECORDS && error.message@
                    == "OTLP request contains more than 100000 log records"@
            },
        },
{
    if encoded_len > MAX_OTLP_REQUEST_BYTES {
        return Err(
            ExportError {
                code: GrpcCode::ResourceExhausted,
                message: "OTLP request exceeds the maximum of 16777216 bytes".to_owned(),
            },
        );
    }
    match record_count(counts) {
        None => Err(
            ExportError {
                code: GrpcCode::ResourceExhausted,
                message: "OTLP log record count overflow".to_owned(),
            },
        ),
        Some(count) => {
            if count > MAX_OTLP_LOG_RECORDS {
                return Err(
                    ExportError {
                        code: GrpcCode::ResourceExhausted,
                        message: "OTLP request contains more than 100000 log records".to_owned(),
                    },
                );
            }
            Ok(())
        },
    }
}

/// What is wrong with an exported entry: its line is looked at before its
/// timestamp.
pub open spec fn exported_problem(
    entry: EntryView,
    limits: PushLimits,
    window: TimestampWindow,
) -> Option<Seq<char>> {
    match line_problem(entry.line, limits) {
        Some(message) => Some(message),
        None => window.problem(entry.timestamp_ns),
    }
}

pub open spec fn exported_problems(
    entries: Seq<EntryView>,
    limits: PushLimits,
    window: TimestampWindow,
) -> Seq<Option<Seq<char>>> {
    entries.map_values(|entry: EntryView| exported_problem(entry, limits, window))
}

/// What is wrong with one exported stream: its labels are looked at first.
pub open spec fn stream_problem(
    stream: StreamView,
    limits: PushLimits,
    window: TimestampWindow,
) -> Option<Seq<char>> {
    match labels_problem(stream.0, limits) {
        Some(message) => Some(message),
        None => first_failure(exported_problems(stream.1, limits, window)),
    }
}

/// What is wrong with the first bad one of exported streams.
pub open spec fn export_problem(
    streams: Seq<StreamView>,
    limits: PushLimits,
    window: TimestampWindow,
) -> Option<Seq<char>> {
    first_failure(
        streams.map_values(|stream: StreamView| stream_problem(stream, limits, window)),
    )
}

fn stream_refusal(
    labels: &Labels,
    entries: &[LogEntry],
    limits: &PushLimits,
    window: &TimestampWindow,
) -> (out: Option<String>)
    ensures
        crate::checks::shown(out) == stream_problem(
            (labels@, entries_view(entries@)),
            *limits,
            *window,
        ),
{
    if let Err(message) = validate_labels(labels, limits) {
        return Some(message);
    }
    let ghost outcomes = exported_problems(entries_view(entries@), *limits, *window);
    let mut i: usize = 0;
    while i < entries.len()
        invariant
            i <= entries@.len(),
            labels_problem(labels@, *limits) is None,
            outcomes == exported_problems(entries_view(entries@), *limits, *window),
            first_failure(outcomes.take(i as int)) is None,
        decreases entries@.len() - i,
    {
        proof {
            assert(outcomes.take(i + 1).drop_last() =~= outcomes.take(i as int));
            assert(entries_view(entries@)[i as int] == entries@[i as int]@);
        }
        if let Some(message) = line_refusal(entries[i].line.as_str(), limits) {
            proof {
                crate::ingest::failed_by(outcomes, i + 1);
            }
            return Some(message);
        }
        if let Err(message) = window.validate(entries[i].timestamp_ns) {
            proof {
                crate::ingest::failed_by(outcomes, i + 1);
            }
            return Some(message);
        }
        i = i + 1;
    }
    assert(outcomes.take(i as int) =~= outcomes);
    None
}

/// Holds exported streams to the window and the limits.
pub fn check_streams(
    streams: &[(Labels, Vec<LogEntry>)],
    limits: &PushLimits,
    window: &TimestampWindow,
) -> (out: Result<(), ExportError>)
    ensures
        match out {
            Ok(_) => export_problem(parsed_view(streams@), *limits, *window) is None,
            Err(error) => error.code == GrpcCode::InvalidArgument && export_problem(
                parsed_view(streams@),
                *limits,
                *window,
            ) == Some(error.message@),
        },
{
    let ghost views = parsed_view(streams@);
    let ghost outcomes = views.map_values(
        |stream: StreamView| stream_problem(stream, *limits, *window),
    );
    let mut i: usize = 0;
    while i < streams.len()
        invariant
            i <= streams@.len(),
            views == parsed_view(streams@),
            outcomes == views.map_values(
                |stream: StreamView| stream_problem(stream, *limits, *window),
            ),
            first_failure(outcomes.take(i as int)) is None,
        decreases streams@.len() - i,
    {
        proof {
            assert(outcomes.take(i + 1).drop_last() =~= outcomes.take(i as int));
            assert(outcomes[i as int] == stream_problem(views[i as int], *limits, *window));
        }
        if let Some(message) = stream_refusal(
            &streams[i].0,
            streams[i].1.as_slice(),
            limits,
            window,
        ) {
            proof {
                crate::ingest::failed_by(outcomes, i + 1);
            }
            return Err(ExportError { code: GrpcCode::InvalidArgument, message });
        }
        i = i + 1;
    }
    assert(outcomes.take(i as int) =~= outcomes);
    Ok(())
}

} // verus!
