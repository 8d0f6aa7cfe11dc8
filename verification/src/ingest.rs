//! What a push is held to before anything of it reaches the log.

use vstd::prelude::*;
use vstd::string::*;
use vstd::utf8::*;

use crate::checks::first_failure;
use crate::config::Config;
use crate::model::{entries_view, pairs_view, EntryView, Labels, LogEntry};
use crate::push::{pushed_entry, PushedEntry, PushedStream};
use crate::snappy::{declared_len, decompressed, snappy_decompress, snappy_len};
use crate::text::{
    chars_of, contains, decimal, has_part, parse_i64, parsed_signed, push_decimal, push_signed,
    quote, quoted, signed_decimal, text_of, trim, trimmed, with_number,
};
use crate::time::Duration;

verus! {

pub const NO_CONTENT: u16 = 204;

pub const BAD_REQUEST: u16 = 400;

pub const PAYLOAD_TOO_LARGE: u16 = 413;

pub const SERVICE_UNAVAILABLE: u16 = 503;

/// A refused push: the status it is answered with, and why.
pub struct IngestError {
    pub status: u16,
    pub message: String,
}

impl View for IngestError {
    type V = (u16, Seq<char>);

    open spec fn view(&self) -> (u16, Seq<char>) {
        (self.status, self.message@)
    }
}

fn bad_request(message: String) -> (error: IngestError)
    ensures
        error@ == (BAD_REQUEST, message@),
{
    IngestError { status: BAD_REQUEST, message }
}

/// The most that a push may carry.
pub struct PushLimits {
    pub max_push_bytes: usize,
    pub max_decompressed_push_bytes: usize,
    pub max_label_names_per_stream: usize,
    pub max_label_name_bytes: usize,
    pub max_label_value_bytes: usize,
    pub max_line_bytes: usize,
}

// -------------------------------------------------------------------- serving
/// Refuses a push while the instance shuts down. Being fenced by a newer writer
/// is said before draining.
pub fn check_serving(fenced: bool, draining: bool) -> (out: Result<(), IngestError>)
    ensures
        out is Ok <==> !fenced && !draining,
        out matches Err(error) ==> error.status == 503,
        match out {
            Ok(_) => !fenced && !draining,
            Err(error) => {
                &&& fenced || draining
                &&& error.status == SERVICE_UNAVAILABLE
                &&& error.message@ == if fenced {
                    "this instance has been fenced by a newer writer and is shutting down"@
                } else {
                    "server is draining for shutdown"@
                }
            },
        },
{
    if fenced {
        return Err(
            IngestError {
                status: SERVICE_UNAVAILABLE,
                message:
                    "this instance has been fenced by a newer writer and is shutting down".to_owned(),
            },
        );
    }
    if draining {
        return Err(
            IngestError {
                status: SERVICE_UNAVAILABLE,
                message: "server is draining for shutdown".to_owned(),
            },
        );
    }
    Ok(())
}

// ----------------------------------------------------------------- timestamps
/// The band of timestamps that is accepted, the edges included. A far-past entry
/// would land in a partition that retention has swept, and a far-future one in a
/// partition that never expires.
#[derive(Clone, Copy, Debug, PartialEq, Eq, Structural)]
pub struct TimestampWindow {
    pub oldest_ns: Option<i64>,
    pub newest_ns: Option<i64>,
}

/// A span as a count of nanoseconds that a timestamp can hold.
pub open spec fn span_ns(span: Duration) -> int {
    if span.nanos > i64::MAX {
        i64::MAX as int
    } else {
        span.nanos as int
    }
}

/// An instant, or the nearest that a timestamp can hold.
pub open spec fn saturated(instant: int) -> i64 {
    if instant < i64::MIN {
        i64::MIN
    } else if instant > i64::MAX {
        i64::MAX
    } else {
        instant as i64
    }
}

pub fn saturate(instant: i128) -> (out: i64)
    ensures
        out == saturated(instant as int),
{
    if instant < i64::MIN as i128 {
        i64::MIN
    } else if instant > i64::MAX as i128 {
        i64::MAX
    } else {
        instant as i64
    }
}

fn duration_to_ns(span: Duration) -> (ns: i64)
    ensures
        ns == span_ns(span),
{
    if span.nanos > i64::MAX as u64 {
        i64::MAX
    } else {
        span.nanos as i64
    }
}

impl TimestampWindow {
    /// The band around an instant.
    pub fn from_config(config: &Config, now_ns: i64) -> (window: Self)
        ensures
            window.oldest_ns == match config.max_timestamp_age {
                Some(age) => Some(saturated(now_ns - span_ns(age))),
                None => None,
            },
            window.newest_ns == match config.max_timestamp_skew {
                Some(skew) => Some(saturated(now_ns + span_ns(skew))),
                None => None,
            },
            window.oldest_ns is Some <==> config.max_timestamp_age is Some,
            config.max_timestamp_age matches Some(age) ==> i64::MIN <= now_ns - age.nanos
                && age.nanos <= i64::MAX ==> window.oldest_ns->Some_0 == now_ns - age.nanos,
            window.newest_ns is Some <==> config.max_timestamp_skew is Some,
            config.max_timestamp_skew matches Some(skew) ==> now_ns + skew.nanos <= i64::MAX
                && skew.nanos <= i64::MAX ==> window.newest_ns->Some_0 == now_ns + skew.nanos,
    {
        let oldest_ns: Option<i64> = match config.max_timestamp_age {
            Some(age) => Some(saturate(now_ns as i128 - duration_to_ns(age) as i128)),
            None => None,
        };
        let newest_ns: Option<i64> = match config.max_timestamp_skew {
            Some(skew) => Some(saturate(now_ns as i128 + duration_to_ns(skew) as i128)),
            None => None,
        };
        TimestampWindow { oldest_ns, newest_ns }
    }

    /// What is wrong with a timestamp, if it is outside the band.
    pub open spec fn problem(self, timestamp_ns: int) -> Option<Seq<char>> {
        if self.oldest_ns is Some && timestamp_ns < self.oldest_ns->Some_0 {
            Some(
                "entry timestamp "@ + signed_decimal(timestamp_ns)
                    + " is older than the accepted window; raise LOGGYTRACY_MAX_TIMESTAMP_AGE or disable it with 'off'"@,
            )
        } else if self.newest_ns is Some && timestamp_ns > self.newest_ns->Some_0 {
            Some(
                "entry timestamp "@ + signed_decimal(timestamp_ns)
                    + " is further in the future than the accepted window; check the client clock and timestamp units, or raise LOGGYTRACY_MAX_TIMESTAMP_SKEW"@,
            )
        } else {
            None
        }
    }

    pub fn validate(&self, timestamp_ns: i64) -> (out: Result<(), String>)
        ensures
            match out {
                Ok(_) => self.problem(timestamp_ns as int) is None,
                Err(message) => self.problem(timestamp_ns as int) == Some(message@),
            },
    {
        if let Some(oldest) = self.oldest_ns {
            if timestamp_ns < oldest {
                let mut message = "entry timestamp ".to_owned();
                push_signed(&mut message, timestamp_ns);
                message.append(
                    " is older than the accepted window; raise LOGGYTRACY_MAX_TIMESTAMP_AGE or disable it with 'off'",
                );
                return Err(message);
            }
        }
        if let Some(newest) = self.newest_ns {
            if timestamp_ns > newest {
                let mut message = "entry timestamp ".to_owned();
                push_signed(&mut message, timestamp_ns);
                message.append(
                    " is further in the future than the accepted window; check the client clock and timestamp units, or raise LOGGYTRACY_MAX_TIMESTAMP_SKEW",
                );
                return Err(message);
            }
        }
        Ok(())
    }
}

/// The window takes in exactly the timestamps from its oldest to its newest, and
/// an edge that is switched off excludes nothing.
pub proof fn the_window_is_closed(window: TimestampWindow, timestamp_ns: int)
    ensures
        window.problem(timestamp_ns) is None <==> {
            &&& window.oldest_ns is Some ==> window.oldest_ns->Some_0 <= timestamp_ns
            &&& window.newest_ns is Some ==> timestamp_ns <= window.newest_ns->Some_0
        },
{
}

// --------------------------------------------------------------------- labels
/// How many bytes text takes.
pub open spec fn byte_len(text: Seq<char>) -> nat {
    encode_utf8(text).len()
}

/// What is wrong with a label, if its name or its value is too long.
pub open spec fn label_problem(
    pair: (Seq<char>, Seq<char>),
    limits: PushLimits,
) -> Option<Seq<char>> {
    if byte_len(pair.0) > limits.max_label_name_bytes {
        Some(
            "label name is "@ + decimal(byte_len(pair.0)) + " bytes, exceeding the maximum of "@
                + decimal(limits.max_label_name_bytes as nat),
        )
    } else if byte_len(pair.1) > limits.max_label_value_bytes {
        Some(
            "value of label '"@ + pair.0 + "' is "@ + decimal(byte_len(pair.1))
                + " bytes, exceeding the maximum of "@ + decimal(
                limits.max_label_value_bytes as nat,
            ),
        )
    } else {
        None
    }
}

pub open spec fn label_problems(
    labels: Seq<(Seq<char>, Seq<char>)>,
    limits: PushLimits,
) -> Seq<Option<Seq<char>>> {
    labels.map_values(|pair: (Seq<char>, Seq<char>)| label_problem(pair, limits))
}

/// What is wrong with labels, if there are too many or one is too long.
pub open spec fn labels_problem(
    labels: Seq<(Seq<char>, Seq<char>)>,
    limits: PushLimits,
) -> Option<Seq<char>> {
    if labels.len() > limits.max_label_names_per_stream {
        Some(
            "stream has "@ + decimal(labels.len()) + " labels, exceeding the maximum of "@
                + decimal(limits.max_label_names_per_stream as nat),
        )
    } else {
        first_failure(label_problems(labels, limits))
    }
}

fn exceeding(before: &str, len: usize, unit: &str, max: usize) -> (message: String)
    ensures
        message@ == before@ + decimal(len as nat) + unit@ + decimal(max as nat),
{
    let mut message = with_number(before, len as u64, unit);
    push_decimal(&mut message, max as u64);
    message
}

fn label_refusal(name: &str, value: &str, limits: &PushLimits) -> (out: Option<String>)
    ensures
        crate::checks::shown(out) == label_problem((name@, value@), *limits),
{
    let name_len: usize = name.as_bytes().len();
    let value_len: usize = value.as_bytes().len();
    if name_len > limits.max_label_name_bytes {
        return Some(
            exceeding(
                "label name is ",
                name_len,
                " bytes, exceeding the maximum of ",
                limits.max_label_name_bytes,
            ),
        );
    }
    if value_len > limits.max_label_value_bytes {
        let mut message = "value of label '".to_owned();
        message.append(name);
        message.append("' is ");
        push_decimal(&mut message, value_len as u64);
        message.append(" bytes, exceeding the maximum of ");
        push_decimal(&mut message, limits.max_label_value_bytes as u64);
        return Some(message);
    }
    None
}

/// Once an outcome is a failure, the first failure is among those up to it.
pub proof fn failed_by(outcomes: Seq<Option<Seq<char>>>, i: int)
    requires
        0 <= i <= outcomes.len(),
        first_failure(outcomes.take(i)) is Some,
    ensures
        first_failure(outcomes) == first_failure(outcomes.take(i)),
    decreases outcomes.len() - i,
{
    if i < outcomes.len() {
        assert(outcomes.take(i + 1).drop_last() =~= outcomes.take(i));
        failed_by(outcomes, i + 1);
    } else {
        assert(outcomes.take(i) =~= outcomes);
    }
}

/// Holds labels to the limits.
pub fn validate_labels(labels: &Labels, limits: &PushLimits) -> (out: Result<(), String>)
    ensures
        match out {
            Ok(_) => labels_problem(labels@, *limits) is None,
            Err(message) => labels_problem(labels@, *limits) == Some(message@),
        },
{
    if labels.len() > limits.max_label_names_per_stream {
        return Err(
            exceeding(
                "stream has ",
                labels.len(),
                " labels, exceeding the maximum of ",
                limits.max_label_names_per_stream,
            ),
        );
    }
    let ghost outcomes = label_problems(labels@, *limits);
    let mut i: usize = 0;
    while i < labels.len()
        invariant
            i <= labels@.len(),
            labels@.len() <= limits.max_label_names_per_stream,
            outcomes == label_problems(labels@, *limits),
            first_failure(outcomes.take(i as int)) is None,
        decreases labels@.len() - i,
    {
        let pair = labels.pair(i);
        let refusal = label_refusal(pair.0.as_str(), pair.1.as_str(), limits);
        proof {
            assert(outcomes.take(i + 1).drop_last() =~= outcomes.take(i as int));
            assert(outcomes[i as int] == label_problem(labels@[i as int], *limits));
        }
        if let Some(message) = refusal {
            proof {
                failed_by(outcomes, i + 1);
            }
            return Err(message);
        }
        i = i + 1;
    }
    assert(outcomes.take(i as int) =~= outcomes);
    Ok(())
}

// -------------------------------------------------------------------- entries
/// What is wrong with a line, if it is too long.
pub open spec fn line_problem(line: Seq<char>, limits: PushLimits) -> Option<Seq<char>> {
    if byte_len(line) > limits.max_line_bytes {
        Some(
            "log line is "@ + decimal(byte_len(line)) + " bytes, exceeding the maximum of "@
                + decimal(limits.max_line_bytes as nat),
        )
    } else {
        None
    }
}

/// Why a line is refused, if it is.
pub fn line_refusal(line: &str, limits: &PushLimits) -> (out: Option<String>)
    ensures
        crate::checks::shown(out) == line_problem(line@, *limits),
{
    let len: usize = line.as_bytes().len();
    if len > limits.max_line_bytes {
        return Some(
            exceeding(
                "log line is ",
                len,
                " bytes, exceeding the maximum of ",
                limits.max_line_bytes,
            ),
        );
    }
    None
}

/// What is wrong with an entry: its timestamp is looked at before its line.
pub open spec fn entry_problem(
    timestamp_ns: int,
    line: Seq<char>,
    limits: PushLimits,
    window: TimestampWindow,
) -> Option<Seq<char>> {
    match window.problem(timestamp_ns) {
        Some(message) => Some(message),
        None => line_problem(line, limits),
    }
}

fn entry_refusal(
    timestamp_ns: i64,
    line: &str,
    limits: &PushLimits,
    window: &TimestampWindow,
) -> (out: Option<String>)
    ensures
        crate::checks::shown(out) == entry_problem(timestamp_ns as int, line@, *limits, *window),
{
    match window.validate(timestamp_ns) {
        Err(message) => Some(message),
        Ok(_) => line_refusal(line, limits),
    }
}

// ----------------------------------------------------------------------- push
/// What is wrong with a pushed entry, if anything is.
pub open spec fn pushed_problem(
    entry: PushedEntry,
    limits: PushLimits,
    window: TimestampWindow,
) -> Option<Seq<char>> {
    match entry.timestamp_ns {
        Err(error) => Some("invalid entry timestamp: "@ + error@),
        Ok(timestamp_ns) => entry_problem(timestamp_ns as int, entry.line@, limits, window),
    }
}

pub open spec fn pushed_problems(
    entries: Seq<PushedEntry>,
    limits: PushLimits,
    window: TimestampWindow,
) -> Seq<Option<Seq<char>>> {
    entries.map_values(|entry: PushedEntry| pushed_problem(entry, limits, window))
}

/// The entries of a pushed stream, as they are stored.
pub open spec fn stored_entries(entries: Seq<PushedEntry>) -> Seq<EntryView> {
    entries.map_values(
        |entry: PushedEntry| pushed_entry(entry, entry.timestamp_ns->Ok_0 as int),
    )
}

/// The labels of a pushed stream, or what is wrong with them.
pub open spec fn accepted_labels(stream: PushedStream, limits: PushLimits) -> Result<
    Seq<(Seq<char>, Seq<char>)>,
    Seq<char>,
> {
    match stream.labels {
        Err(error) => Err("invalid labels '"@ + stream.labels_text@ + "': "@ + error@),
        Ok(labels) => match labels_problem(labels@, limits) {
            Some(message) => Err(message),
            None => Ok(labels@),
        },
    }
}

/// Reads the labels of a pushed stream.
pub fn stream_labels(stream: &PushedStream, limits: &PushLimits) -> (out: Result<
    Labels,
    IngestError,
>)
    ensures
        match out {
            Ok(labels) => accepted_labels(*stream, *limits) == Ok::<
                Seq<(Seq<char>, Seq<char>)>,
                Seq<char>,
            >(labels@),
            Err(error) => error.status == BAD_REQUEST && accepted_labels(*stream, *limits) == Err::<
                Seq<(Seq<char>, Seq<char>)>,
                Seq<char>,
            >(error.message@),
        },
        out matches Ok(labels) ==> stream.labels is Ok && labels@ == stream.labels->Ok_0@,
{
    match &stream.labels {
        Err(error) => {
            let mut message = "invalid labels '".to_owned();
            message.append(stream.labels_text.as_str());
            message.append("': ");
            message.append(error.as_str());
            Err(bad_request(message))
        },
        Ok(labels) => match validate_labels(labels, limits) {
            Err(message) => Err(bad_request(message)),
            Ok(_) => Ok(labels.clone()),
        },
    }
}

/// Whether an entry has the timestamp, the line and the metadata of a pushed one.
pub open spec fn stores(entry: LogEntry, pushed: PushedEntry) -> bool {
    &&& pushed.timestamp_ns is Ok
    &&& entry.timestamp_ns == pushed.timestamp_ns->Ok_0
    &&& entry.line@ == pushed.line@
    &&& entry.structured_metadata@ == pushed.structured_metadata@
}

/// Whether a stream has the labels of a pushed one, and its entries in their places.
pub open spec fn stores_stream(stream: (Labels, Vec<LogEntry>), pushed: PushedStream) -> bool {
    &&& pushed.labels is Ok
    &&& stream.0@ == pushed.labels->Ok_0@
    &&& stream.1@.len() == pushed.entries@.len()
    &&& forall|j: int|
        0 <= j < stream.1@.len() ==> stores(#[trigger] stream.1@[j], pushed.entries@[j])
}

/// Reads the entries of a pushed stream.
pub fn stream_entries(
    stream: &PushedStream,
    limits: &PushLimits,
    window: &TimestampWindow,
) -> (out: Result<Vec<LogEntry>, IngestError>)
    ensures
        ({
            let problem = first_failure(pushed_problems(stream.entries@, *limits, *window));
            match out {
                Ok(entries) => problem is None && entries_view(entries@) == stored_entries(
                    stream.entries@,
                ),
                Err(error) => error.status == BAD_REQUEST && problem == Some(error.message@),
            }
        }),
        out matches Ok(entries) ==> {
            &&& entries@.len() == stream.entries@.len()
            &&& forall|j: int| 0 <= j < entries@.len() ==> stores(#[trigger] entries@[j], stream.entries@[j])
        },
{
    let ghost outcomes = pushed_problems(stream.entries@, *limits, *window);
    let mut out: Vec<LogEntry> = Vec::new();
    let mut i: usize = 0;
    while i < stream.entries.len()
        invariant
            i <= stream.entries@.len(),
            outcomes == pushed_problems(stream.entries@, *limits, *window),
            first_failure(outcomes.take(i as int)) is None,
            out@.len() == i,
            forall|j: int|
                0 <= j < i ==> #[trigger] entries_view(out@)[j] == stored_entries(
                    stream.entries@,
                )[j],
            forall|j: int| 0 <= j < i ==> stores(#[trigger] out@[j], stream.entries@[j]),
        decreases stream.entries@.len() - i,
    {
        let entry = &stream.entries[i];
        let ghost before = out@;
        proof {
            assert(outcomes.take(i + 1).drop_last() =~= outcomes.take(i as int));
            assert(outcomes[i as int] == pushed_problem(
                stream.entries@[i as int],
                *limits,
                *window,
            ));
        }
        let timestamp_ns: i64 = match &entry.timestamp_ns {
            Err(error) => {
                let mut message = "invalid entry timestamp: ".to_owned();
                message.append(error.as_str());
                proof {
                    failed_by(outcomes, i + 1);
                }
                return Err(bad_request(message));
            },
            Ok(timestamp_ns) => *timestamp_ns,
        };
        if let Some(message) = entry_refusal(timestamp_ns, entry.line.as_str(), limits, window) {
            proof {
                failed_by(outcomes, i + 1);
            }
            return Err(bad_request(message));
        }
        out.push(entry.at(timestamp_ns));
        i = i + 1;
        assert forall|j: int| 0 <= j < i implies #[trigger] entries_view(out@)[j]
            == stored_entries(stream.entries@)[j] by {
            if j < i - 1 {
                assert(entries_view(before)[j] == entries_view(out@)[j]);
            }
        }
    }
    assert(outcomes.take(i as int) =~= outcomes);
    assert(entries_view(out@) =~= stored_entries(stream.entries@));
    Ok(out)
}

/// A stream as it is stored.
pub type StreamView = (Seq<(Seq<char>, Seq<char>)>, Seq<EntryView>);

pub open spec fn parsed_view(streams: Seq<(Labels, Vec<LogEntry>)>) -> Seq<StreamView> {
    streams.map_values(|stream: (Labels, Vec<LogEntry>)| (stream.0@, entries_view(stream.1@)))
}

/// What a quota says of a stream.
pub open spec fn refusal_of(admitted: Option<IngestError>) -> Option<(u16, Seq<char>)> {
    match admitted {
        Some(error) => Some(error@),
        None => None,
    }
}

/// What a push comes to: its streams, or why it is refused. The streams are
/// looked at in order, of each the labels, then what the quota says of it, then
/// the entries; the first objection stands for the whole push.
pub open spec fn accepted_push(
    streams: Seq<PushedStream>,
    admitted: Seq<Option<IngestError>>,
    limits: PushLimits,
    window: TimestampWindow,
) -> Result<Seq<StreamView>, (u16, Seq<char>)>
    decreases streams.len(),
{
    if streams.len() == 0 {
        Ok(seq![])
    } else {
        let stream = streams.last();
        match accepted_push(streams.drop_last(), admitted, limits, window) {
            Err(error) => Err(error),
            Ok(before) => match accepted_labels(stream, limits) {
                Err(message) => Err((BAD_REQUEST, message)),
                Ok(labels) => match refusal_of(admitted[streams.len() - 1]) {
                    Some(refusal) => Err(refusal),
                    None => match first_failure(pushed_problems(stream.entries@, limits, window)) {
                        Some(message) => Err((BAD_REQUEST, message)),
                        None => Ok(before.push((labels, stored_entries(stream.entries@)))),
                    },
                },
            },
        }
    }
}

proof fn refused_by(
    streams: Seq<PushedStream>,
    admitted: Seq<Option<IngestError>>,
    limits: PushLimits,
    window: TimestampWindow,
    i: int,
)
    requires
        0 <= i <= streams.len(),
        accepted_push(streams.take(i), admitted, limits, window) is Err,
    ensures
        accepted_push(streams, admitted, limits, window) == accepted_push(
            streams.take(i),
            admitted,
            limits,
            window,
        ),
    decreases streams.len() - i,
{
    if i < streams.len() {
        assert(streams.take(i + 1).drop_last() =~= streams.take(i));
        refused_by(streams, admitted, limits, window, i + 1);
    } else {
        assert(streams.take(i) =~= streams);
    }
}

/// Reads a push, given what the quota says of each of its streams.
pub fn read_push(
    streams: &[PushedStream],
    admitted: &[Option<IngestError>],
    limits: &PushLimits,
    window: &TimestampWindow,
) -> (out: Result<Vec<(Labels, Vec<LogEntry>)>, IngestError>)
    requires
        admitted@.len() == streams@.len(),
    ensures
        match out {
            Ok(parsed) => accepted_push(streams@, admitted@, *limits, *window) == Ok::<
                Seq<StreamView>,
                (u16, Seq<char>),
            >(parsed_view(parsed@)),
            Err(error) => accepted_push(streams@, admitted@, *limits, *window) == Err::<
                Seq<StreamView>,
                (u16, Seq<char>),
            >(error@),
        },
        out matches Ok(parsed) ==> {
            &&& parsed@.len() == streams@.len()
            &&& forall|i: int|
                0 <= i < parsed@.len() ==> stores_stream(#[trigger] parsed@[i], streams@[i])
        },
{
    let mut out: Vec<(Labels, Vec<LogEntry>)> = Vec::new();
    let mut i: usize = 0;
    assert(streams@.take(0) =~= seq![]);
    assert(parsed_view(out@) =~= seq![]);
    while i < streams.len()
        invariant
            i <= streams@.len(),
            admitted@.len() == streams@.len(),
            accepted_push(streams@.take(i as int), admitted@, *limits, *window) == Ok::<
                Seq<StreamView>,
                (u16, Seq<char>),
            >(parsed_view(out@)),
            out@.len() == i,
            forall|n: int| 0 <= n < i ==> stores_stream(#[trigger] out@[n], streams@[n]),
        decreases streams@.len() - i,
    {
        let stream = &streams[i];
        let ghost before = out@;
        proof {
            assert(streams@.take(i + 1).drop_last() =~= streams@.take(i as int));
            assert(streams@.take(i + 1).last() == streams@[i as int]);
        }
        let labels = match stream_labels(stream, limits) {
            Ok(labels) => labels,
            Err(error) => {
                proof {
                    refused_by(streams@, admitted@, *limits, *window, i + 1);
                }
                return Err(error);
            },
        };
        if let Some(refusal) = &admitted[i] {
            proof {
                refused_by(streams@, admitted@, *limits, *window, i + 1);
            }
            return Err(
                IngestError { status: refusal.status, message: refusal.message.clone() },
            );
        }
        let entries = match stream_entries(stream, limits, window) {
            Ok(entries) => entries,
            Err(error) => {
                proof {
                    refused_by(streams@, admitted@, *limits, *window, i + 1);
                }
                return Err(error);
            },
        };
        out.push((labels, entries));
        assert(parsed_view(out@) =~= parsed_view(before).push(
            (labels@, entries_view(entries@)),
        ));
        assert(stores_stream(out@[i as int], streams@[i as int]));
        i = i + 1;
    }
    assert(streams@.take(i as int) =~= streams@);
    Ok(out)
}

/// A push is accepted whole or not at all: if it is, every stream of it is kept
/// with all its entries, each within the window and the limits.
pub proof fn an_accepted_push_is_within_the_limits(
    streams: Seq<PushedStream>,
    admitted: Seq<Option<IngestError>>,
    limits: PushLimits,
    window: TimestampWindow,
)
    ensures
        accepted_push(streams, admitted, limits, window) matches Ok(stored) ==> {
            &&& stored.len() == streams.len()
            &&& forall|i: int|
                0 <= i < streams.len() ==> {
                    &&& labels_problem((#[trigger] stored[i]).0, limits) is None
                    &&& stored[i].1.len() == streams[i].entries@.len()
                    &&& forall|j: int|
                        0 <= j < stored[i].1.len() ==> entry_problem(
                            (#[trigger] stored[i].1[j]).timestamp_ns,
                            stored[i].1[j].line,
                            limits,
                            window,
                        ) is None
                }
        },
    decreases streams.len(),
{
    if streams.len() > 0 {
        let rest = streams.drop_last();
        an_accepted_push_is_within_the_limits(rest, admitted, limits, window);
        if let Ok(stored) = accepted_push(streams, admitted, limits, window) {
            let entries = streams.last().entries@;
            let outcomes = pushed_problems(entries, limits, window);
            crate::checks::none_fails(outcomes);
            let before = accepted_push(rest, admitted, limits, window)->Ok_0;
            assert forall|i: int| 0 <= i < streams.len() implies {
                &&& labels_problem((#[trigger] stored[i]).0, limits) is None
                &&& stored[i].1.len() == streams[i].entries@.len()
                &&& forall|j: int|
                    0 <= j < stored[i].1.len() ==> entry_problem(
                        (#[trigger] stored[i].1[j]).timestamp_ns,
                        stored[i].1[j].line,
                        limits,
                        window,
                    ) is None
            } by {
                if i < rest.len() {
                    assert(stored[i] == before[i]);
                    assert(rest[i] == streams[i]);
                } else {
                    assert forall|j: int| 0 <= j < stored[i].1.len() implies entry_problem(
                        (#[trigger] stored[i].1[j]).timestamp_ns,
                        stored[i].1[j].line,
                        limits,
                        window,
                    ) is None by {
                        assert(outcomes[j] is None);
                    }
                }
            }
        }
    }
}

// ----------------------------------------------------------------------- body
/// What the body of a push is.
pub enum Body {
    /// JSON, as it arrived.
    Json,
    /// A protobuf message, which is also how the log stores the push.
    Protobuf(Vec<u8>),
}

/// What is wrong with the length of a body, if it is too long.
pub open spec fn body_problem(len: nat, limits: PushLimits) -> Option<Seq<char>> {
    if len > limits.max_push_bytes {
        Some(
            "push body is "@ + decimal(len) + " bytes, exceeding the maximum of "@ + decimal(
                limits.max_push_bytes as nat,
            ),
        )
    } else {
        None
    }
}

/// What a compressed body comes to, given what its header declares and what it
/// decompresses to. What it declares is looked at first: a header must not size
/// an allocation.
pub open spec fn opened_body(
    declared: Result<nat, Seq<char>>,
    bytes: Result<Seq<u8>, Seq<char>>,
    limits: PushLimits,
) -> Result<Seq<u8>, (u16, Seq<char>)> {
    match declared {
        Err(error) => Err((BAD_REQUEST, "invalid snappy header: "@ + error)),
        Ok(len) => if len > limits.max_decompressed_push_bytes {
            Err(
                (
                    PAYLOAD_TOO_LARGE,
                    "push declares "@ + decimal(len)
                        + " decompressed bytes, exceeding the maximum of "@ + decimal(
                        limits.max_decompressed_push_bytes as nat,
                    ),
                ),
            )
        } else {
            match bytes {
                Err(error) => Err((BAD_REQUEST, "snappy decompress failed: "@ + error)),
                Ok(bytes) => Ok(bytes),
            }
        },
    }
}

/// Refuses a declared length that is over the limit, and a header that declares
/// none.
pub fn check_declared(declared: Result<usize, String>, limits: &PushLimits) -> (out: Result<
    usize,
    IngestError,
>)
    ensures
        match (declared, out) {
            (Err(error), Err(refusal)) => refusal@ == (
                BAD_REQUEST,
                "invalid snappy header: "@ + error@,
            ),
            (Ok(len), Err(refusal)) => len > limits.max_decompressed_push_bytes && refusal@ == (
                PAYLOAD_TOO_LARGE,
                "push declares "@ + decimal(len as nat)
                    + " decompressed bytes, exceeding the maximum of "@ + decimal(
                    limits.max_decompressed_push_bytes as nat,
                ),
            ),
            (Ok(len), Ok(kept)) => len <= limits.max_decompressed_push_bytes && kept == len,
            (Err(_), Ok(_)) => false,
        },
{
    match declared {
        Err(error) => {
            let mut message = "invalid snappy header: ".to_owned();
            message.append(error.as_str());
            Err(bad_request(message))
        },
        Ok(len) => {
            if len > limits.max_decompressed_push_bytes {
                return Err(
                    IngestError {
                        status: PAYLOAD_TOO_LARGE,
                        message: exceeding(
                            "push declares ",
                            len,
                            " decompressed bytes, exceeding the maximum of ",
                            limits.max_decompressed_push_bytes,
                        ),
                    },
                );
            }
            Ok(len)
        },
    }
}

/// Opens the body of a push. Its length is held to the limit whatever it is;
/// then JSON is passed on as it is, and anything else is decompressed.
pub fn open_body(content_type: &str, body: &[u8], limits: &PushLimits) -> (out: Result<
    Body,
    IngestError,
>)
    ensures
        match out {
            Err(error) => match body_problem(body@.len(), *limits) {
                Some(message) => error@ == (PAYLOAD_TOO_LARGE, message),
                None => !has_part(content_type@, "application/json"@) && opened_body(
                    declared_len(body@),
                    decompressed(body@),
                    *limits,
                ) == Err::<Seq<u8>, (u16, Seq<char>)>(error@),
            },
            Ok(Body::Json) => body_problem(body@.len(), *limits) is None && has_part(
                content_type@,
                "application/json"@,
            ),
            Ok(Body::Protobuf(bytes)) => {
                &&& body_problem(body@.len(), *limits) is None
                &&& !has_part(content_type@, "application/json"@)
                &&& opened_body(declared_len(body@), decompressed(body@), *limits) == Ok::<
                    Seq<u8>,
                    (u16, Seq<char>),
                >(bytes@)
                &&& bytes@.len() <= limits.max_decompressed_push_bytes
            },
        },
{
    if body.len() > limits.max_push_bytes {
        return Err(
            IngestError {
                status: PAYLOAD_TOO_LARGE,
                message: exceeding(
                    "push body is ",
                    body.len(),
                    " bytes, exceeding the maximum of ",
                    limits.max_push_bytes,
                ),
            },
        );
    }
    let named = chars_of(content_type);
    let json = chars_of("application/json");
    if contains(named.as_slice(), json.as_slice()) {
        return Ok(Body::Json);
    }
    match check_declared(snappy_len(body), limits) {
        Err(error) => Err(error),
        Ok(_) => match snappy_decompress(body) {
            Err(error) => {
                let mut message = "snappy decompress failed: ".to_owned();
                message.append(error.as_str());
                Err(bad_request(message))
            },
            Ok(bytes) => Ok(Body::Protobuf(bytes)),
        },
    }
}

// ----------------------------------------------------------------------- JSON
/// An entry of a JSON push.
pub struct JsonEntry {
    pub timestamp: String,
    pub line: String,
    pub metadata: Vec<(String, String)>,
}

/// A stream of a JSON push, with what is wrong with its first bad label name.
pub struct JsonStream {
    pub labels: Labels,
    pub bad_name: Option<String>,
    pub values: Vec<JsonEntry>,
}

/// An entry of a JSON push, as it is stored, or what is wrong with it.
pub open spec fn json_entry(entry: JsonEntry) -> Result<EntryView, Seq<char>> {
    match parsed_signed(trimmed(entry.timestamp@)) {
        Some(timestamp_ns) => Ok(
            EntryView {
                timestamp_ns,
                line: entry.line@,
                metadata: pairs_view(entry.metadata@),
            },
        ),
        None => Err(
            "entry timestamp "@ + quoted(entry.timestamp@) + " is not a nanosecond count"@,
        ),
    }
}

pub open spec fn json_entries(entries: Seq<JsonEntry>) -> Result<Seq<EntryView>, Seq<char>>
    decreases entries.len(),
{
    if entries.len() == 0 {
        Ok(seq![])
    } else {
        match json_entries(entries.drop_last()) {
            Err(message) => Err(message),
            Ok(before) => match json_entry(entries.last()) {
                Err(message) => Err(message),
                Ok(entry) => Ok(before.push(entry)),
            },
        }
    }
}

/// The streams of a JSON push, or what is wrong with the first bad one: a name is
/// looked at before the entries.
pub open spec fn json_streams(streams: Seq<JsonStream>) -> Result<Seq<StreamView>, Seq<char>>
    decreases streams.len(),
{
    if streams.len() == 0 {
        Ok(seq![])
    } else {
        match json_streams(streams.drop_last()) {
            Err(message) => Err(message),
            Ok(before) => match streams.last().bad_name {
                Some(message) => Err(message@),
                None => match json_entries(streams.last().values@) {
                    Err(message) => Err(message),
                    Ok(entries) => Ok(before.push((streams.last().labels@, entries))),
                },
            },
        }
    }
}

proof fn json_entries_failed(entries: Seq<JsonEntry>, i: int)
    requires
        0 <= i <= entries.len(),
        json_entries(entries.take(i)) is Err,
    ensures
        json_entries(entries) == json_entries(entries.take(i)),
    decreases entries.len() - i,
{
    if i < entries.len() {
        assert(entries.take(i + 1).drop_last() =~= entries.take(i));
        json_entries_failed(entries, i + 1);
    } else {
        assert(entries.take(i) =~= entries);
    }
}

proof fn json_streams_failed(streams: Seq<JsonStream>, i: int)
    requires
        0 <= i <= streams.len(),
        json_streams(streams.take(i)) is Err,
    ensures
        json_streams(streams) == json_streams(streams.take(i)),
    decreases streams.len() - i,
{
    if i < streams.len() {
        assert(streams.take(i + 1).drop_last() =~= streams.take(i));
        json_streams_failed(streams, i + 1);
    } else {
        assert(streams.take(i) =~= streams);
    }
}

fn read_json_entries(entries: &[JsonEntry]) -> (out: Result<Vec<LogEntry>, String>)
    ensures
        match out {
            Ok(list) => json_entries(entries@) == Ok::<Seq<EntryView>, Seq<char>>(
                entries_view(list@),
            ),
            Err(message) => json_entries(entries@) == Err::<Seq<EntryView>, Seq<char>>(message@),
        },
{
    let mut out: Vec<LogEntry> = Vec::new();
    let mut i: usize = 0;
    assert(entries@.take(0) =~= seq![]);
    assert(entries_view(out@) =~= seq![]);
    while i < entries.len()
        invariant
            i <= entries@.len(),
            json_entries(entries@.take(i as int)) == Ok::<Seq<EntryView>, Seq<char>>(
                entries_view(out@),
            ),
        decreases entries@.len() - i,
    {
        let entry = &entries[i];
        let ghost before = out@;
        proof {
            assert(entries@.take(i + 1).drop_last() =~= entries@.take(i as int));
            assert(entries@.take(i + 1).last() == entries@[i as int]);
        }
        let chars = chars_of(entry.timestamp.as_str());
        let digits = text_of(trim(chars.as_slice()).as_slice());
        match parse_i64(digits.as_str()) {
            None => {
                let mut message = "entry timestamp ".to_owned();
                message.append(quote(entry.timestamp.as_str()).as_str());
                message.append(" is not a nanosecond count");
                proof {
                    json_entries_failed(entries@, i + 1);
                }
                return Err(message);
            },
            Some(timestamp_ns) => {
                let read = LogEntry {
                    timestamp_ns,
                    line: entry.line.clone(),
                    structured_metadata: crate::model::copy_pairs(entry.metadata.as_slice()),
                };
                let ghost view = read@;
                out.push(read);
                assert(entries_view(out@) =~= entries_view(before).push(view));
            },
        }
        i = i + 1;
    }
    assert(entries@.take(i as int) =~= entries@);
    Ok(out)
}

/// Reads the streams of a JSON push.
pub fn into_streams(streams: &[JsonStream]) -> (out: Result<Vec<(Labels, Vec<LogEntry>)>, String>)
    ensures
        match out {
            Ok(parsed) => json_streams(streams@) == Ok::<Seq<StreamView>, Seq<char>>(
                parsed_view(parsed@),
            ),
            Err(message) => json_streams(streams@) == Err::<Seq<StreamView>, Seq<char>>(message@),
        },
{
    let mut out: Vec<(Labels, Vec<LogEntry>)> = Vec::new();
    let mut i: usize = 0;
    assert(streams@.take(0) =~= seq![]);
    assert(parsed_view(out@) =~= seq![]);
    while i < streams.len()
        invariant
            i <= streams@.len(),
            json_streams(streams@.take(i as int)) == Ok::<Seq<StreamView>, Seq<char>>(
                parsed_view(out@),
            ),
        decreases streams@.len() - i,
    {
        let ghost before = out@;
        proof {
            assert(streams@.take(i + 1).drop_last() =~= streams@.take(i as int));
            assert(streams@.take(i + 1).last() == streams@[i as int]);
        }
        if let Some(message) = &streams[i].bad_name {
            proof {
                json_streams_failed(streams@, i + 1);
            }
            return Err(message.clone());
        }
        match read_json_entries(streams[i].values.as_slice()) {
            Err(message) => {
                proof {
                    json_streams_failed(streams@, i + 1);
                }
                return Err(message);
            },
            Ok(entries) => {
                let labels = streams[i].labels.clone();
                let ghost view = (labels@, entries_view(entries@));
                out.push((labels, entries));
                assert(parsed_view(out@) =~= parsed_view(before).push(view));
            },
        }
        i = i + 1;
    }
    assert(streams@.take(i as int) =~= streams@);
    Ok(out)
}

// ------------------------------------------------------------ decoded streams
pub open spec fn entry_problems(
    entries: Seq<EntryView>,
    limits: PushLimits,
    window: TimestampWindow,
) -> Seq<Option<Seq<char>>> {
    entries.map_values(
        |entry: EntryView| entry_problem(entry.timestamp_ns, entry.line, limits, window),
    )
}

/// Holds decoded entries to the window and the limits.
pub fn check_entries(
    entries: &[LogEntry],
    limits: &PushLimits,
    window: &TimestampWindow,
) -> (out: Result<(), IngestError>)
    ensures
        ({
            let problem = first_failure(entry_problems(entries_view(entries@), *limits, *window));
            match out {
                Ok(_) => problem is None,
                Err(error) => error.status == BAD_REQUEST && problem == Some(error.message@),
            }
        }),
{
    let ghost outcomes = entry_problems(entries_view(entries@), *limits, *window);
    let mut i: usize = 0;
    while i < entries.len()
        invariant
            i <= entries@.len(),
            outcomes == entry_problems(entries_view(entries@), *limits, *window),
            first_failure(outcomes.take(i as int)) is None,
        decreases entries@.len() - i,
    {
        let entry = &entries[i];
        proof {
            assert(outcomes.take(i + 1).drop_last() =~= outcomes.take(i as int));
            assert(entries_view(entries@)[i as int] == entries@[i as int]@);
        }
        if let Some(message) = entry_refusal(
            entry.timestamp_ns,
            entry.line.as_str(),
            limits,
            window,
        ) {
            proof {
                failed_by(outcomes, i + 1);
            }
            return Err(bad_request(message));
        }
        i = i + 1;
    }
    assert(outcomes.take(i as int) =~= outcomes);
    Ok(())
}

/// What is wrong with decoded streams, given what the quota says of each: of each
/// stream the labels come first, then the quota, then the entries.
pub open spec fn streams_refusal(
    streams: Seq<StreamView>,
    admitted: Seq<Option<IngestError>>,
    limits: PushLimits,
    window: TimestampWindow,
) -> Option<(u16, Seq<char>)>
    decreases streams.len(),
{
    if streams.len() == 0 {
        None
    } else {
        let stream = streams.last();
        match streams_refusal(streams.drop_last(), admitted, limits, window) {
            Some(refusal) => Some(refusal),
            None => match labels_problem(stream.0, limits) {
                Some(message) => Some((BAD_REQUEST, message)),
                None => match refusal_of(admitted[streams.len() - 1]) {
                    Some(refusal) => Some(refusal),
                    None => match first_failure(entry_problems(stream.1, limits, window)) {
                        Some(message) => Some((BAD_REQUEST, message)),
                        None => None,
                    },
                },
            },
        }
    }
}

proof fn streams_refused_by(
    streams: Seq<StreamView>,
    admitted: Seq<Option<IngestError>>,
    limits: PushLimits,
    window: TimestampWindow,
    i: int,
)
    requires
        0 <= i <= streams.len(),
        streams_refusal(streams.take(i), admitted, limits, window) is Some,
    ensures
        streams_refusal(streams, admitted, limits, window) == streams_refusal(
            streams.take(i),
            admitted,
            limits,
            window,
        ),
    decreases streams.len() - i,
{
    if i < streams.len() {
        assert(streams.take(i + 1).drop_last() =~= streams.take(i));
        streams_refused_by(streams, admitted, limits, window, i + 1);
    } else {
        assert(streams.take(i) =~= streams);
    }
}

/// Holds decoded streams to the window and the limits, whatever encoding they
/// arrived in, given what the quota says of each.
pub fn accept_streams(
    streams: &[(Labels, Vec<LogEntry>)],
    admitted: &[Option<IngestError>],
    limits: &PushLimits,
    window: &TimestampWindow,
) -> (out: Result<(), IngestError>)
    requires
        admitted@.len() == streams@.len(),
    ensures
        match out {
            Ok(_) => streams_refusal(parsed_view(streams@), admitted@, *limits, *window) is None,
            Err(error) => streams_refusal(parsed_view(streams@), admitted@, *limits, *window)
                == Some(error@),
        },
{
    let ghost views = parsed_view(streams@);
    let mut i: usize = 0;
    assert(views.take(0) =~= seq![]);
    while i < streams.len()
        invariant
            i <= streams@.len(),
            admitted@.len() == streams@.len(),
            views == parsed_view(streams@),
            streams_refusal(views.take(i as int), admitted@, *limits, *window) is None,
        decreases streams@.len() - i,
    {
        proof {
            assert(views.take(i + 1).drop_last() =~= views.take(i as int));
            assert(views.take(i + 1).last() == views[i as int]);
        }
        if let Err(message) = validate_labels(&streams[i].0, limits) {
            proof {
                streams_refused_by(views, admitted@, *limits, *window, i + 1);
            }
            return Err(bad_request(message));
        }
        if let Some(refusal) = &admitted[i] {
            proof {
                streams_refused_by(views, admitted@, *limits, *window, i + 1);
            }
            return Err(
                IngestError { status: refusal.status, message: refusal.message.clone() },
            );
        }
        if let Err(error) = check_entries(streams[i].1.as_slice(), limits, window) {
            proof {
                streams_refused_by(views, admitted@, *limits, *window, i + 1);
            }
            return Err(error);
        }
        i = i + 1;
    }
    assert(views.take(i as int) =~= views);
    Ok(())
}

} // verus!
