//! What holds of every generated row: its instant, its line and what it draws from.

use vstd::prelude::*;
use vstd::string::*;
use vstd::utf8::*;

use crate::corpus::{
    all_entries, all_label_bytes, all_rows, at_least_one, corpus_row, facts_of, filled,
    label_bytes, label_count, row_of, shape_of, stream_rows, target_of, tenant_name, three_digits,
    thousandths, trace_count, user_count, with_phrase, CorpusSpec, Shape, Stream, STATUSES,
};
use crate::model::entries_view;
use crate::text::{all_digits, decimal, digits_value, is_digit};

verus! {

// ------------------------------------------------------------------- instants
/// The rows of a corpus in order are a step apart, and those of one that is not are up to
/// sixty-three steps early.
pub proof fn rows_are_a_step_apart(
    state: u64,
    spec: CorpusSpec,
    traces: Seq<Seq<char>>,
    users: Seq<Seq<char>>,
    row: nat,
)
    ensures
        !spec.out_of_order ==> row_of(state, spec, traces, users, row).0.timestamp_ns
            == spec.start_ts_ns + row * spec.step_ns,
        spec.out_of_order ==> exists|early: int|
            0 <= early < 64 && row_of(state, spec, traces, users, row).0.timestamp_ns
                == spec.start_ts_ns + row * spec.step_ns - #[trigger] (early * spec.step_ns),
{
    if spec.out_of_order {
        let early = crate::rng::nth_below(state, 0, 64);
        assert(0 <= early < 64);
        assert(row_of(state, spec, traces, users, row).0.timestamp_ns == spec.start_ts_ns + row
            * spec.step_ns - early * spec.step_ns);
    }
}

// ---------------------------------------------------------------------- lines
/// A message begins with what it has, and is filled until it is as long as asked for, and
/// no further: the last phrase is put behind one that was too short.
pub proof fn a_message_is_filled_until_it_is_long_enough(
    state: u64,
    text: Seq<char>,
    target: nat,
)
    ensures
        filled(state, text, target).0.len() >= target,
        text.is_prefix_of(filled(state, text, target).0),
        text.len() >= target ==> filled(state, text, target).0 == text,
        filled(state, text, target).0.len() < target + 102 || text.len() >= target,
    decreases
            if text.len() < target {
                target - text.len()
            } else {
                0
            },
{
    if text.len() < target {
        let at = crate::rng::nth_below(state, 0, 24);
        crate::corpus::phrases_are_not_empty(at);
        let phrase = crate::corpus::PHRASES@[at]@;
        let longer = with_phrase(text, phrase);
        reveal_strlit("; ");
        a_message_is_filled_until_it_is_long_enough(crate::rng::after(state, 1), longer, target);
        let done = filled(crate::rng::after(state, 1), longer, target).0;
        assert(longer.subrange(0, text.len() as int) =~= text);
        assert(done.subrange(0, longer.len() as int) == longer);
        assert(done.subrange(0, text.len() as int) =~= longer.subrange(0, text.len() as int));
    } else {
        assert(text.subrange(0, text.len() as int) =~= text);
    }
}

/// A line aims at a length of 70 to 2009.
pub proof fn a_line_aims_at_a_length_within_bounds(state: u64)
    ensures
        70 <= target_of(state) < 2010,
{
}

/// A shape without weight is not drawn, unless no shape has any: then lines are plain.
pub proof fn a_shape_without_weight_is_not_drawn(state: u64, plain: nat, json: nat, logfmt: nat)
    ensures
        plain == 0 && json + logfmt > 0 ==> shape_of(state, plain, json, logfmt).0 != Shape::Plain,
        json == 0 ==> shape_of(state, plain, json, logfmt).0 != Shape::Json,
        logfmt == 0 ==> shape_of(state, plain, json, logfmt).0 != Shape::Logfmt,
        plain + json + logfmt == 0 ==> shape_of(state, plain, json, logfmt) == (
            Shape::Plain,
            state,
        ),
{
    let total = plain + json + logfmt;
    if total > 0 {
        let roll = crate::rng::nth(state, 0) as int % total as int;
        assert(0 <= roll < total);
    }
}

/// What a line says is drawn from what there is: a level, a method and a path that exist, a
/// status of those known, a duration below 200 ms, a trace and a user of the vocabulary.
pub proof fn what_a_line_says_is_drawn_from_what_there_is(
    state: u64,
    traces: Seq<Seq<char>>,
    users: Seq<Seq<char>>,
    ts_ns: int,
)
    requires
        traces.len() > 0,
        users.len() > 0,
    ensures
        ({
            let facts = facts_of(state, traces, users, ts_ns);
            &&& 0 <= facts.level < 4
            &&& 0 <= facts.method < 5
            &&& 0 <= facts.path < 8
            &&& exists|i: int| 0 <= i < 6 && facts.status == #[trigger] STATUSES@[i]
            &&& facts.duration_us < 200_000
            &&& facts.bytes < 65_536
            &&& traces.contains(facts.trace_id)
            &&& users.contains(facts.user_id)
            &&& facts.span_id.len() == 16
        }),
{
    let at = crate::rng::nth_below(state, 1, 6);
    assert(0 <= at < 6);
    assert(facts_of(state, traces, users, ts_ns).status == STATUSES@[at]);
    let trace = crate::rng::nth_below(state, 3, traces.len());
    assert(0 <= trace < traces.len());
    assert(traces[trace] == facts_of(state, traces, users, ts_ns).trace_id);
    let user = crate::rng::nth_below(state, 20, users.len());
    assert(0 <= user < users.len());
    assert(users[user] == facts_of(state, traces, users, ts_ns).user_id);
}

/// The traces are a quarter of the rows and the users a sixteenth, within their bounds.
pub proof fn the_vocabulary_grows_with_the_rows(rows: nat)
    ensures
        64 <= trace_count(rows) <= 65_536,
        32 <= user_count(rows) <= 16_384,
        256 <= rows <= 262_144 ==> trace_count(rows) == rows / 4,
        512 <= rows <= 262_144 ==> user_count(rows) == rows / 16,
{
}

/// Three digits are digits, and write the number.
pub proof fn three_digits_write_the_number(n: nat)
    requires
        n < 1000,
    ensures
        three_digits(n).len() == 3,
        all_digits(three_digits(n)),
        digits_value(three_digits(n)) == n,
{
    let text = three_digits(n);
    reveal_with_fuel(digits_value, 4);
    assert(is_digit(text[0]) && is_digit(text[1]) && is_digit(text[2]));
    assert(text.drop_last() =~= seq![text[0], text[1]]);
    assert(text.drop_last().drop_last() =~= seq![text[0]]);
    assert(text.drop_last().drop_last().drop_last() =~= seq![]);
    assert(digits_value(text) == (n / 100 % 10) * 100 + (n / 10 % 10) * 10 + n % 10);
}

/// Thousandths are the whole number, a point and three digits of the rest.
pub proof fn thousandths_are_written_with_three_decimals(whole: nat, rest: nat)
    requires
        rest < 1000,
    ensures
        thousandths(1000 * whole + rest) == decimal(whole) + "."@ + three_digits(rest),
{
}

/// Tenants are named by the prefix and their number, in three digits at least.
pub proof fn a_tenant_is_named_by_its_number(prefix: Seq<char>, index: nat)
    ensures
        index < 1000 ==> tenant_name(prefix, index) == prefix + "-"@ + three_digits(index),
        index >= 1000 ==> tenant_name(prefix, index) == prefix + "-"@ + decimal(index),
{
}

// -------------------------------------------------------------------- streams
/// A row is in the stream that its number leaves over the number of streams, and adds to
/// no other.
pub proof fn a_row_is_in_one_stream(spec: CorpusSpec, stream: nat, row: nat)
    ensures
        row % at_least_one(spec.streams as nat) == stream ==> stream_rows(spec, stream, row + 1)
            == stream_rows(spec, stream, row).push(corpus_row(spec, row)),
        row % at_least_one(spec.streams as nat) != stream ==> stream_rows(spec, stream, row + 1)
            == stream_rows(spec, stream, row),
        stream_rows(spec, stream, 0).len() == 0,
        at_least_one(spec.streams as nat) >= 1,
        spec.streams > 0 ==> at_least_one(spec.streams as nat) == spec.streams,
{
}

/// One more stream adds its entries behind those of the others, each as a row of its tenant
/// and labels.
pub proof fn one_more_stream_adds_its_entries(streams: Seq<Stream>, stream: Stream, i: int)
    requires
        0 <= i < stream.entries@.len(),
    ensures
        ({
            let more = streams.push(stream);
            let before = all_rows(streams);
            &&& all_entries(more) == all_entries(streams) + entries_view(stream.entries@)
            &&& all_rows(more).len() == before.len() + stream.entries@.len()
            &&& all_rows(more)[before.len() + i].tenant == stream.tenant@
            &&& all_rows(more)[before.len() + i].labels == stream.labels@
            &&& all_rows(more)[before.len() + i].entry == stream.entries@[i]@
            &&& all_label_bytes(more) == all_label_bytes(streams) + label_bytes(stream.labels@)
        }),
{
    assert(streams.push(stream).drop_last() =~= streams);
}

/// One more label adds the bytes of its name and of its value.
pub proof fn one_more_label_adds_its_bytes(
    pairs: Seq<(Seq<char>, Seq<char>)>,
    name: Seq<char>,
    value: Seq<char>,
)
    ensures
        label_bytes(Seq::empty()) == 0,
        label_bytes(pairs.push((name, value))) == label_bytes(pairs) + encode_utf8(name).len()
            + encode_utf8(value).len(),
{
    assert(pairs.push((name, value)).drop_last() =~= pairs);
}

/// A stream has as many labels as asked for, from one to ten.
pub proof fn a_stream_has_from_one_to_ten_labels(labels_per_stream: nat)
    ensures
        1 <= label_count(labels_per_stream) <= 10,
        1 <= labels_per_stream <= 10 ==> label_count(labels_per_stream) == labels_per_stream,
        labels_per_stream == 0 ==> label_count(labels_per_stream) == 1,
        labels_per_stream > 10 ==> label_count(labels_per_stream) == 10,
{
}

} // verus!
