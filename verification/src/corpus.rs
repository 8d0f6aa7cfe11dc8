//! A deterministic corpus: tenants, streams and log lines out of a seed.

use vstd::prelude::*;
use vstd::string::*;

use crate::model::{
    copy_entries, entries_view, value_of, with_label, with_stream, EntryView, Labels, LogEntry,
    MemTableSnapshot, Row, RowView,
};
use crate::rng::{after, after_add, hex_text, nth, nth_after, nth_below, seeded, Rng};
use crate::tenant::TenantId;
use crate::text::{push_decimal, push_hex};

verus! {

// ------------------------------------------------------------------ vocabulary
pub const LABEL_NAMES: [&'static str; 10] = [
    "app",
    "env",
    "cluster",
    "namespace",
    "container",
    "region",
    "component",
    "level",
    "instance",
    "pod",
];

/// The label names in the order of names.
pub const SORTED_POSITIONS: [usize; 10] = [0, 2, 6, 4, 1, 8, 7, 3, 9, 5];

/// How many values each label takes before the next one starts varying.
pub const LABEL_CARDINALITY: [usize; 10] = [8, 3, 2, 6, 4, 3, 5, 4, 16, 64];

pub const APPS: [&'static str; 8] = [
    "api-gateway",
    "checkout",
    "search",
    "ingest",
    "billing",
    "notifier",
    "web",
    "scheduler",
];

pub const ENVS: [&'static str; 3] = ["prod", "staging", "dev"];

pub const CLUSTERS: [&'static str; 2] = ["eu-west-1a", "eu-west-1b"];

pub const NAMESPACES: [&'static str; 6] = [
    "default",
    "payments",
    "platform",
    "observability",
    "edge",
    "data",
];

pub const CONTAINERS: [&'static str; 4] = ["server", "sidecar", "migrator", "exporter"];

pub const REGIONS: [&'static str; 3] = ["eu-west-1", "us-east-1", "ap-northeast-1"];

pub const COMPONENTS: [&'static str; 5] = ["http", "worker", "scheduler", "storage", "cache"];

pub const LEVELS: [&'static str; 4] = ["info", "warn", "error", "debug"];

/// The levels in upper case, filled with blanks to five characters.
pub const PADDED_LEVELS: [&'static str; 4] = ["INFO ", "WARN ", "ERROR", "DEBUG"];

pub const METHODS: [&'static str; 5] = ["GET", "POST", "PUT", "DELETE", "PATCH"];

pub const PATHS: [&'static str; 8] = [
    "/api/v1/query_range",
    "/api/v1/push",
    "/healthz",
    "/api/v1/labels",
    "/v1/checkout/session",
    "/v1/accounts/me",
    "/internal/metrics",
    "/api/v1/series",
];

pub const STATUSES: [u32; 6] = [200, 200, 204, 400, 404, 500];

/// What messages are made of: a small set of phrases, repeated.
pub const PHRASES: [&'static str; 24] = [
    "request completed successfully",
    "upstream connection reset by peer, retrying",
    "cache miss, restoring object from remote store",
    "tenant quota exceeded, shedding load",
    "backpressure engaged: memtable above threshold",
    "flush segment committed, manifest generation advanced",
    "compaction scheduled for partition",
    "row group pruned by bloom filter",
    "candidate deadline exceeded before first byte",
    "shard rebalanced after lease renewal",
    "checkpoint durable, replay resumed from offset",
    "connection idle, closing after keepalive timeout",
    "retrying request after transient upstream failure",
    "handler returned early: client disconnected",
    "authorization token accepted for principal",
    "rate limiter admitted request within budget",
    "background worker woke on schedule",
    "object store returned a throttling response",
    "manifest CAS lost the race, reloading",
    "writer epoch verified against the manifest",
    "structured metadata parsed without error",
    "query admitted after waiting for a scan permit",
    "partial result returned: scan limit reached",
    "graceful shutdown drained in-flight requests",
];

// ------------------------------------------------------------------------ spec
#[derive(Clone, Copy, Debug, PartialEq, Eq, Structural)]
pub enum Shape {
    Plain,
    Json,
    Logfmt,
}

/// What to generate.
pub struct CorpusSpec {
    pub seed: u64,
    pub tenants: usize,
    /// How many distinct label sets.
    pub streams: usize,
    pub labels_per_stream: usize,
    pub rows: usize,
    pub tenant_prefix: String,
    /// Relative weights of the line shapes.
    pub plain_weight: u32,
    pub json_weight: u32,
    pub logfmt_weight: u32,
    /// Structured metadata pairs of each entry.
    pub metadata_pairs: usize,
    pub start_ts_ns: i64,
    pub step_ns: i64,
    /// Whether entries may land behind the clock.
    pub out_of_order: bool,
}

impl Default for CorpusSpec {
    fn default() -> (spec: Self)
        ensures
            spec.seed == 0x10_9700_2026,
            spec.tenants == 1,
            spec.streams == 64,
            spec.labels_per_stream == 5,
            spec.rows == 10_000,
            spec.tenant_prefix@ == "bench-tenant"@,
            spec.plain_weight == 3,
            spec.json_weight == 5,
            spec.logfmt_weight == 2,
            spec.metadata_pairs == 2,
            spec.start_ts_ns == 1_772_000_000_000_000_000,
            spec.step_ns == 1_000_000,
            !spec.out_of_order,
    {
        CorpusSpec {
            seed: 0x10_9700_2026,
            tenants: 1,
            streams: 64,
            labels_per_stream: 5,
            rows: 10_000,
            tenant_prefix: "bench-tenant".to_owned(),
            plain_weight: 3,
            json_weight: 5,
            logfmt_weight: 2,
            metadata_pairs: 2,
            start_ts_ns: 1_772_000_000_000_000_000,
            step_ns: 1_000_000,
            out_of_order: false,
        }
    }
}

impl CorpusSpec {
    pub fn rows(self, rows: usize) -> (spec: Self)
        ensures
            spec == (CorpusSpec { rows, ..self }),
    {
        let mut spec = self;
        spec.rows = rows;
        spec
    }

    pub fn streams(self, streams: usize) -> (spec: Self)
        ensures
            spec == (CorpusSpec { streams, ..self }),
    {
        let mut spec = self;
        spec.streams = streams;
        spec
    }

    pub fn labels_per_stream(self, labels: usize) -> (spec: Self)
        ensures
            spec == (CorpusSpec { labels_per_stream: labels, ..self }),
    {
        let mut spec = self;
        spec.labels_per_stream = labels;
        spec
    }

    pub fn tenants(self, tenants: usize) -> (spec: Self)
        ensures
            spec == (CorpusSpec { tenants, ..self }),
    {
        let mut spec = self;
        spec.tenants = tenants;
        spec
    }

    pub fn tenant_prefix(self, prefix: &str) -> (spec: Self)
        ensures
            spec.tenant_prefix@ == prefix@,
            spec == (CorpusSpec { tenant_prefix: spec.tenant_prefix, ..self }),
    {
        let mut spec = self;
        spec.tenant_prefix = prefix.to_owned();
        spec
    }

    pub fn seed(self, seed: u64) -> (spec: Self)
        ensures
            spec == (CorpusSpec { seed, ..self }),
    {
        let mut spec = self;
        spec.seed = seed;
        spec
    }

    pub fn step_ns(self, step_ns: i64) -> (spec: Self)
        ensures
            spec == (CorpusSpec { step_ns, ..self }),
    {
        let mut spec = self;
        spec.step_ns = step_ns;
        spec
    }

    pub fn out_of_order(self, out_of_order: bool) -> (spec: Self)
        ensures
            spec == (CorpusSpec { out_of_order, ..self }),
    {
        let mut spec = self;
        spec.out_of_order = out_of_order;
        spec
    }

    pub fn metadata_pairs(self, pairs: usize) -> (spec: Self)
        ensures
            spec == (CorpusSpec { metadata_pairs: pairs, ..self }),
    {
        let mut spec = self;
        spec.metadata_pairs = pairs;
        spec
    }

    /// Lines of one shape alone.
    pub fn only(self, shape: Shape) -> (spec: Self)
        ensures
            spec == (CorpusSpec {
                plain_weight: if shape == Shape::Plain { 1 } else { 0 },
                json_weight: if shape == Shape::Json { 1 } else { 0 },
                logfmt_weight: if shape == Shape::Logfmt { 1 } else { 0 },
                ..self
            }),
    {
        let mut spec = self;
        spec.plain_weight = 0;
        spec.json_weight = 0;
        spec.logfmt_weight = 0;
        match shape {
            Shape::Plain => spec.plain_weight = 1,
            Shape::Json => spec.json_weight = 1,
            Shape::Logfmt => spec.logfmt_weight = 1,
        }
        spec
    }

    pub fn copy(&self) -> (spec: CorpusSpec)
        ensures
            spec == *self,
    {
        CorpusSpec {
            seed: self.seed,
            tenants: self.tenants,
            streams: self.streams,
            labels_per_stream: self.labels_per_stream,
            rows: self.rows,
            tenant_prefix: self.tenant_prefix.clone(),
            plain_weight: self.plain_weight,
            json_weight: self.json_weight,
            logfmt_weight: self.logfmt_weight,
            metadata_pairs: self.metadata_pairs,
            start_ts_ns: self.start_ts_ns,
            step_ns: self.step_ns,
            out_of_order: self.out_of_order,
        }
    }
}

// ---------------------------------------------------------------------- labels
/// The values that a label takes first, by its position.
pub open spec fn pool(position: int) -> Seq<&'static str> {
    if position == 0 {
        APPS@
    } else if position == 1 {
        ENVS@
    } else if position == 2 {
        CLUSTERS@
    } else if position == 3 {
        NAMESPACES@
    } else if position == 4 {
        CONTAINERS@
    } else if position == 5 {
        REGIONS@
    } else if position == 6 {
        COMPONENTS@
    } else {
        LEVELS@
    }
}

/// A number in lower-case hexadecimal, as many digits as it takes.
pub open spec fn hex_digits(n: nat) -> Seq<char>
    decreases n,
{
    if n < 16 {
        seq![crate::text::hex_char(n)]
    } else {
        hex_digits(n / 16).push(crate::text::hex_char(n % 16))
    }
}

/// The value of the label at a position: out of its pool, with a number behind
/// the word once the pool is used up; an address; or a pod's name.
pub open spec fn value_text(position: int, index: nat) -> Seq<char> {
    if position < 8 {
        let words = pool(position);
        if index < words.len() {
            words[index as int]@
        } else {
            words[index as int % words.len() as int]@ + "-"@ + crate::text::decimal(
                index / words.len(),
            )
        }
    } else if position == 8 {
        "10.4."@ + crate::text::decimal(index / 256) + "."@ + crate::text::decimal(index % 256)
    } else {
        "pod-"@ + (if index < 0x10000 {
            crate::text::hex(index, 4)
        } else {
            hex_digits(index)
        })
    }
}

fn push_hex_digits(out: &mut String, n: u64)
    ensures
        final(out)@ == old(out)@ + hex_digits(n as nat),
    decreases n,
{
    if n >= 16 {
        push_hex_digits(out, n / 16);
    }
    out.push(crate::text::hex_digit((n % 16) as u8));
    proof {
        if n >= 16 {
            assert(out@ =~= old(out)@ + hex_digits((n / 16) as nat).push(
                crate::text::hex_char((n % 16) as nat),
            ));
        } else {
            assert(out@ =~= old(out)@ + seq![crate::text::hex_char(n as nat)]);
        }
    }
}

fn pool_word(position: usize, index: usize) -> (word: &'static str)
    requires
        position < 8,
        index < pool(position as int).len(),
    ensures
        word@ == pool(position as int)[index as int]@,
{
    match position {
        0 => APPS[index],
        1 => ENVS[index],
        2 => CLUSTERS[index],
        3 => NAMESPACES[index],
        4 => CONTAINERS[index],
        5 => REGIONS[index],
        6 => COMPONENTS[index],
        _ => LEVELS[index],
    }
}

fn pool_len(position: usize) -> (n: usize)
    requires
        position < 8,
    ensures
        n == pool(position as int).len(),
        n > 0,
{
    match position {
        0 => 8,
        1 => 3,
        2 => 2,
        3 => 6,
        4 => 4,
        5 => 3,
        6 => 5,
        _ => 4,
    }
}

fn label_value(position: usize, index: usize) -> (out: String)
    requires
        position < 10,
    ensures
        out@ == value_text(position as int, index as nat),
{
    if position < 8 {
        let n: usize = pool_len(position);
        if index < n {
            pool_word(position, index).to_owned()
        } else {
            let mut out = pool_word(position, index % n).to_owned();
            out.append("-");
            push_decimal(&mut out, (index / n) as u64);
            out
        }
    } else if position == 8 {
        let mut out = "10.4.".to_owned();
        push_decimal(&mut out, (index / 256) as u64);
        out.append(".");
        push_decimal(&mut out, (index % 256) as u64);
        out
    } else {
        let mut out = "pod-".to_owned();
        if index < 0x10000 {
            push_hex(&mut out, index as u64, 4);
        } else {
            push_hex_digits(&mut out, index as u64);
        }
        out
    }
}

/// How many labels a stream has: as many as asked for, at least one, at most
/// all ten.
pub open spec fn label_count(labels_per_stream: nat) -> nat {
    if labels_per_stream < 1 {
        1
    } else if labels_per_stream > 10 {
        10
    } else {
        labels_per_stream
    }
}

/// What is left of a stream's number once the labels before a position have
/// taken their part.
pub open spec fn remaining_at(stream: nat, position: nat) -> nat
    decreases position,
{
    if position == 0 {
        stream
    } else {
        remaining_at(stream, (position - 1) as nat) / (LABEL_CARDINALITY@[position - 1] as nat)
    }
}

/// Which value of the label at a position a stream has: a digit of its number,
/// least significant first; the last label takes all that is left.
pub open spec fn value_index(stream: nat, position: nat, count: nat) -> nat {
    if position + 1 == count {
        remaining_at(stream, position)
    } else {
        remaining_at(stream, position) % (LABEL_CARDINALITY@[position as int] as nat)
    }
}

/// The labels of a stream up to a position.
pub open spec fn labels_up_to(stream: nat, position: nat, count: nat) -> Seq<
    (Seq<char>, Seq<char>),
>
    decreases position,
{
    if position == 0 {
        seq![]
    } else {
        with_label(
            labels_up_to(stream, (position - 1) as nat, count),
            LABEL_NAMES@[position - 1]@,
            value_text(position - 1, value_index(stream, (position - 1) as nat, count)),
        )
    }
}

/// The labels of a stream.
pub open spec fn stream_labels(stream: nat, labels_per_stream: nat) -> Seq<
    (Seq<char>, Seq<char>),
> {
    labels_up_to(stream, label_count(labels_per_stream), label_count(labels_per_stream))
}

fn clamp_labels(labels_per_stream: usize) -> (count: usize)
    ensures
        count == label_count(labels_per_stream as nat),
        1 <= count <= 10,
{
    if labels_per_stream < 1 {
        1
    } else if labels_per_stream > 10 {
        10
    } else {
        labels_per_stream
    }
}

/// The labels of a stream: its number written out in the labels, least
/// significant first.
pub fn labels_for_stream(stream_index: usize, labels_per_stream: usize) -> (labels: Labels)
    ensures
        labels.wf(),
        labels@ == stream_labels(stream_index as nat, labels_per_stream as nat),
{
    let count: usize = clamp_labels(labels_per_stream);
    let mut remaining: usize = stream_index;
    let mut labels = Labels::new();
    let mut position: usize = 0;
    while position < count
        invariant
            position <= count <= 10,
            position < count ==> remaining == remaining_at(stream_index as nat, position as nat),
            labels.wf(),
            labels@ == labels_up_to(stream_index as nat, position as nat, count as nat),
        decreases count - position,
    {
        let mut index: usize = remaining;
        if position + 1 < count {
            let radix: usize = LABEL_CARDINALITY[position];
            assert(radix > 0);
            index = remaining % radix;
            remaining = remaining / radix;
        }
        labels.insert(LABEL_NAMES[position].to_owned(), label_value(position, index));
        position = position + 1;
    }
    labels
}

// ----------------------------------------------------------------------- lines
/// How a line writes an instant: the UTC date and time with six decimals.
pub const UTC_FORMAT: &'static str = "%Y-%m-%dT%H:%M:%S%.6fZ";

/// What `chrono` prints for an instant by a format, if the instant is in its range.
pub uninterp spec fn utc_text(secs: int, nanos: int, format: Seq<char>) -> Option<Seq<char>>;

/// `chrono::DateTime::from_timestamp` and then `DateTime::format`. Every instant
/// that a count of nanoseconds in 64 bits reaches is in chrono's range. What is
/// printed is left to the name.
#[verifier::external_body]
fn format_utc(secs: i64, nanos: u32, format: &str) -> (out: Option<String>)
    requires
        nanos < 1_000_000_000,
        format@ == UTC_FORMAT@,
    ensures
        match out {
            Some(text) => utc_text(secs as int, nanos as int, format@) == Some(text@),
            None => utc_text(secs as int, nanos as int, format@) is None,
        },
        -9_223_372_037 <= secs <= 9_223_372_036 ==> out is Some,
{
    chrono::DateTime::from_timestamp(secs, nanos).map(|instant| instant.format(format).to_string())
}

/// A timestamp as text: whole seconds, rounded down, and the rest.
pub open spec fn instant_text(ts_ns: int) -> Seq<char> {
    utc_text(ts_ns / 1_000_000_000, ts_ns % 1_000_000_000, UTC_FORMAT@)->Some_0
}

pub fn timestamp_text(ts_ns: i64) -> (out: String)
    ensures
        utc_text(ts_ns as int / 1_000_000_000, ts_ns as int % 1_000_000_000, UTC_FORMAT@) == Some(
            out@,
        ),
        out@ == instant_text(ts_ns as int),
{
    let mut secs: i64 = ts_ns / 1_000_000_000;
    let mut nanos: i64 = ts_ns % 1_000_000_000;
    if nanos < 0 {
        secs = secs - 1;
        nanos = nanos + 1_000_000_000;
    }
    assert(ts_ns as int == secs * 1_000_000_000 + nanos && 0 <= nanos < 1_000_000_000);
    format_utc(secs, nanos as u32, UTC_FORMAT).unwrap()
}

/// A number of thousandths with three decimals.
pub open spec fn thousandths(n: nat) -> Seq<char> {
    crate::text::decimal(n / 1000) + "."@ + three_digits(n % 1000)
}

/// A number below a thousand in three digits.
pub open spec fn three_digits(n: nat) -> Seq<char> {
    seq![
        crate::text::digit_char(n / 100 % 10),
        crate::text::digit_char(n / 10 % 10),
        crate::text::digit_char(n % 10),
    ]
}

fn push_three_digits(out: &mut String, n: u64)
    ensures
        final(out)@ == old(out)@ + three_digits(n as nat),
{
    out.push((48 + (n / 100 % 10) as u8) as char);
    out.push((48 + (n / 10 % 10) as u8) as char);
    out.push((48 + (n % 10) as u8) as char);
    assert(out@ =~= old(out)@ + three_digits(n as nat));
}

fn push_thousandths(out: &mut String, n: u64)
    ensures
        final(out)@ == old(out)@ + thousandths(n as nat),
{
    push_decimal(out, n / 1000);
    out.append(".");
    push_three_digits(out, n % 1000);
    assert(out@ =~= old(out)@ + thousandths(n as nat));
}

/// The identifiers that lines draw from: a bounded set of traces and of users.
pub struct Vocab {
    trace_ids: Vec<String>,
    user_ids: Vec<String>,
}

pub open spec fn clamped(n: nat, low: nat, high: nat) -> nat {
    if n < low {
        low
    } else if n > high {
        high
    } else {
        n
    }
}

/// How many traces and how many users `rows` lines draw from.
pub open spec fn trace_count(rows: nat) -> nat {
    clamped(rows / 4, 64, 65_536)
}

pub open spec fn user_count(rows: nat) -> nat {
    clamped(rows / 16, 32, 16_384)
}

/// The `i`-th trace id that a state gives.
pub open spec fn trace_id(state: u64, i: nat) -> Seq<char> {
    hex_text(after(state, 32 * i), 32)
}

/// The `i`-th user id that a state gives.
pub open spec fn user_id(state: u64, i: nat) -> Seq<char> {
    "u-"@ + crate::text::decimal(nth_below(state, i, 500_000) as nat)
}

/// The state once the vocabulary of `rows` lines is drawn.
pub open spec fn after_vocab(state: u64, rows: nat) -> u64 {
    after(state, 32 * trace_count(rows) + user_count(rows))
}

pub open spec fn texts(list: Seq<String>) -> Seq<Seq<char>> {
    list.map_values(|text: String| text@)
}

impl Vocab {
    pub closed spec fn traces(&self) -> Seq<Seq<char>> {
        texts(self.trace_ids@)
    }

    pub closed spec fn users(&self) -> Seq<Seq<char>> {
        texts(self.user_ids@)
    }

    /// Whether this is the vocabulary that a state gives for `rows` lines.
    pub open spec fn is_from(&self, state: u64, rows: nat) -> bool {
        &&& self.traces() == Seq::new(trace_count(rows), |i: int| trace_id(state, i as nat))
        &&& self.users() == Seq::new(
            user_count(rows),
            |i: int| user_id(after(state, 32 * trace_count(rows)), i as nat),
        )
    }

    pub fn new(rng: &mut Rng, rows: usize) -> (vocab: Self)
        ensures
            vocab.is_from(old(rng).state(), rows as nat),
            final(rng).state() == after_vocab(old(rng).state(), rows as nat),
    {
        let ghost start = rng.state();
        let traces: usize = clamp(rows / 4, 64, 65_536);
        let users: usize = clamp(rows / 16, 32, 16_384);
        let mut trace_ids: Vec<String> = Vec::new();
        let mut i: usize = 0;
        while i < traces
            invariant
                i <= traces,
                rng.state() == after(start, 32 * i as nat),
                trace_ids@.len() == i,
                forall|j: int| 0 <= j < i ==> (#[trigger] trace_ids@[j])@ == trace_id(start, j as nat),
            decreases traces - i,
        {
            trace_ids.push(rng.hex(32));
            proof {
                after_add(start, 32 * i as nat, 32);
            }
            i = i + 1;
        }
        let ghost middle = rng.state();
        let mut user_ids: Vec<String> = Vec::new();
        let mut n: usize = 0;
        while n < users
            invariant
                n <= users,
                rng.state() == after(middle, n as nat),
                user_ids@.len() == n,
                forall|j: int| 0 <= j < n ==> (#[trigger] user_ids@[j])@ == user_id(middle, j as nat),
            decreases users - n,
        {
            let mut id = "u-".to_owned();
            let number: usize = rng.below(500_000);
            proof {
                nth_after(middle, n as nat, 0);
            }
            push_decimal(&mut id, number as u64);
            user_ids.push(id);
            n = n + 1;
        }
        proof {
            after_add(start, 32 * traces as nat, users as nat);
        }
        let vocab = Vocab { trace_ids, user_ids };
        proof {
            assert(vocab.traces() =~= Seq::new(
                trace_count(rows as nat),
                |i: int| trace_id(start, i as nat),
            ));
            assert(vocab.users() =~= Seq::new(
                user_count(rows as nat),
                |i: int| user_id(middle, i as nat),
            ));
        }
        vocab
    }
}

fn clamp(n: usize, low: usize, high: usize) -> (out: usize)
    ensures
        out == clamped(n as nat, low as nat, high as nat),
{
    if n < low {
        low
    } else if n > high {
        high
    } else {
        n
    }
}

/// What a line says, before its words.
pub struct FactsView {
    pub level: int,
    pub status: int,
    pub duration_us: nat,
    pub trace_id: Seq<char>,
    pub span_id: Seq<char>,
    pub user_id: Seq<char>,
    pub method: int,
    pub path: int,
    pub bytes: nat,
    pub ts_text: Seq<char>,
}

struct LineFacts {
    level: usize,
    status: u32,
    duration_us: u64,
    trace_id: String,
    span_id: String,
    user_id: String,
    method: usize,
    path: usize,
    bytes: u64,
    ts_text: String,
}

impl LineFacts {
    spec fn is(&self, facts: FactsView) -> bool {
        &&& self.level == facts.level
        &&& 0 <= facts.level < 4
        &&& self.status == facts.status
        &&& self.duration_us == facts.duration_us
        &&& self.trace_id@ == facts.trace_id
        &&& self.span_id@ == facts.span_id
        &&& self.user_id@ == facts.user_id
        &&& self.method == facts.method
        &&& 0 <= facts.method < 5
        &&& self.path == facts.path
        &&& 0 <= facts.path < 8
        &&& self.bytes == facts.bytes
        &&& self.ts_text@ == facts.ts_text
    }
}

/// The facts of a line out of a state: 24 numbers, in this order.
pub open spec fn facts_of(
    state: u64,
    traces: Seq<Seq<char>>,
    users: Seq<Seq<char>>,
    ts_ns: int,
) -> FactsView {
    FactsView {
        level: nth_below(state, 0, 4),
        status: STATUSES@[nth_below(state, 1, 6)] as int,
        duration_us: nth_below(state, 2, 200_000) as nat,
        trace_id: traces[nth_below(state, 3, traces.len())],
        span_id: hex_text(after(state, 4), 16),
        user_id: users[nth_below(state, 20, users.len())],
        method: nth_below(state, 21, 5),
        path: nth_below(state, 22, 8),
        bytes: nth_below(state, 23, 65_536) as nat,
        ts_text: instant_text(ts_ns),
    }
}

fn line_facts(rng: &mut Rng, vocab: &Vocab, ts_ns: i64) -> (facts: LineFacts)
    requires
        vocab.traces().len() > 0,
        vocab.users().len() > 0,
    ensures
        facts.is(facts_of(old(rng).state(), vocab.traces(), vocab.users(), ts_ns as int)),
        final(rng).state() == after(old(rng).state(), 24),
{
    let ghost s = rng.state();
    proof {
        nth_after(s, 0, 0);
        nth_after(s, 1, 0);
        nth_after(s, 2, 0);
        nth_after(s, 3, 0);
        after_add(s, 4, 16);
        nth_after(s, 20, 0);
        nth_after(s, 21, 0);
        nth_after(s, 22, 0);
        nth_after(s, 23, 0);
    }
    let level: usize = rng.below(4);
    assert(rng.state() == after(s, 1));
    let status_at: usize = rng.below(6);
    assert(rng.state() == after(s, 2));
    let duration: usize = rng.below(200_000);
    assert(rng.state() == after(s, 3));
    let trace_at: usize = rng.below(vocab.trace_ids.len());
    assert(rng.state() == after(s, 4));
    let span_id = rng.hex(16);
    assert(rng.state() == after(s, 20));
    let user_at: usize = rng.below(vocab.user_ids.len());
    assert(rng.state() == after(s, 21));
    let method: usize = rng.below(5);
    assert(rng.state() == after(s, 22));
    let path: usize = rng.below(8);
    assert(rng.state() == after(s, 23));
    let bytes: usize = rng.below(65_536);
    LineFacts {
        level,
        status: STATUSES[status_at],
        duration_us: duration as u64,
        trace_id: vocab.trace_ids[trace_at].clone(),
        span_id,
        user_id: vocab.user_ids[user_at].clone(),
        method,
        path,
        bytes: bytes as u64,
        ts_text: timestamp_text(ts_ns),
    }
}

/// A length to aim at: mostly short, sometimes long. The bounds are 70% and 95%
/// of `2^53`.
pub open spec fn target_of(state: u64) -> nat {
    let roll = nth(state, 0) >> 11;
    if roll < 0x16_6666_6666_6666 {
        (70 + nth_below(state, 1, 100)) as nat
    } else if roll < 0x1e_6666_6666_6666 {
        (170 + nth_below(state, 1, 340)) as nat
    } else {
        (510 + nth_below(state, 1, 1500)) as nat
    }
}

fn target_len(rng: &mut Rng) -> (target: usize)
    ensures
        target == target_of(old(rng).state()),
        final(rng).state() == after(old(rng).state(), 2),
{
    let ghost s = rng.state();
    proof {
        nth_after(s, 0, 0);
        nth_after(s, 1, 0);
    }
    let roll: u64 = rng.unit();
    assert(rng.state() == after(s, 1));
    if roll < 0x16_6666_6666_6666 {
        70 + rng.below(100)
    } else if roll < 0x1e_6666_6666_6666 {
        170 + rng.below(340)
    } else {
        510 + rng.below(1500)
    }
}

/// One more phrase, with `; ` in front unless it is the first.
pub open spec fn with_phrase(text: Seq<char>, phrase: Seq<char>) -> Seq<char> {
    if text.len() == 0 {
        phrase
    } else {
        text + "; "@ + phrase
    }
}

/// A message of at least `target` characters: phrases until it is long enough.
/// Every phrase is ASCII, so characters and bytes are the same count.
pub open spec fn filled(state: u64, text: Seq<char>, target: nat) -> (Seq<char>, u64)
    decreases
            if text.len() < target {
                target - text.len()
            } else {
                0
            },
    via filled_decreases
{
    if text.len() >= target {
        (text, state)
    } else {
        filled(
            after(state, 1),
            with_phrase(text, PHRASES@[nth_below(state, 0, 24)]@),
            target,
        )
    }
}

#[via_fn]
proof fn filled_decreases(state: u64, text: Seq<char>, target: nat) {
    phrases_are_not_empty(nth_below(state, 0, 24));
}

pub(crate) proof fn phrases_are_not_empty(i: int)
    requires
        0 <= i < 24,
    ensures
        0 < PHRASES@[i]@.len() < 100,
        0 < "; "@.len() < 100,
{
    reveal_strlit("; ");
    reveal_strlit("request completed successfully");
    reveal_strlit("upstream connection reset by peer, retrying");
    reveal_strlit("cache miss, restoring object from remote store");
    reveal_strlit("tenant quota exceeded, shedding load");
    reveal_strlit("backpressure engaged: memtable above threshold");
    reveal_strlit("flush segment committed, manifest generation advanced");
    reveal_strlit("compaction scheduled for partition");
    reveal_strlit("row group pruned by bloom filter");
    reveal_strlit("candidate deadline exceeded before first byte");
    reveal_strlit("shard rebalanced after lease renewal");
    reveal_strlit("checkpoint durable, replay resumed from offset");
    reveal_strlit("connection idle, closing after keepalive timeout");
    reveal_strlit("retrying request after transient upstream failure");
    reveal_strlit("handler returned early: client disconnected");
    reveal_strlit("authorization token accepted for principal");
    reveal_strlit("rate limiter admitted request within budget");
    reveal_strlit("background worker woke on schedule");
    reveal_strlit("object store returned a throttling response");
    reveal_strlit("manifest CAS lost the race, reloading");
    reveal_strlit("writer epoch verified against the manifest");
    reveal_strlit("structured metadata parsed without error");
    reveal_strlit("query admitted after waiting for a scan permit");
    reveal_strlit("partial result returned: scan limit reached");
    reveal_strlit("graceful shutdown drained in-flight requests");
    assert(PHRASES@.len() == 24);
}

/// The message of a line that aims at `target` with `overhead` around it.
pub open spec fn message_of(state: u64, target: nat, overhead: nat) -> (Seq<char>, u64) {
    filled(
        state,
        seq![],
        if target > overhead {
            (target - overhead) as nat
        } else {
            0
        },
    )
}

fn message(rng: &mut Rng, target: usize, overhead: usize) -> (text: String)
    requires
        target <= 2010,
    ensures
        (text@, final(rng).state()) == message_of(
            old(rng).state(),
            target as nat,
            overhead as nat,
        ),
{
    let wanted: usize = target.saturating_sub(overhead);
    let mut text = String::new();
    let mut count: usize = 0;
    assert(text@ =~= Seq::<char>::empty());
    while count < wanted
        invariant
            count == text@.len(),
            wanted <= 2010,
            count <= 2300,
            filled(rng.state(), text@, wanted as nat) == filled(
                old(rng).state(),
                seq![],
                wanted as nat,
            ),
        decreases
                if count < wanted {
                    wanted - count
                } else {
                    0
                },
    {
        let ghost s = rng.state();
        let ghost before = text@;
        let at: usize = rng.below(24);
        proof {
            nth_after(s, 0, 0);
            phrases_are_not_empty(at as int);
        }
        if count > 0 {
            text.append("; ");
        }
        let phrase = PHRASES[at];
        text.append(phrase);
        assert(text@ =~= with_phrase(before, PHRASES@[at as int]@));
        count = text.as_str().unicode_len();
    }
    text
}

pub open spec fn plain_text(f: FactsView, message: Seq<char>) -> Seq<char> {
    "["@ + f.ts_text + "] "@ + PADDED_LEVELS@[f.level]@ + " "@ + PATHS@[f.path]@ + " "@
        + METHODS@[f.method]@ + " "@ + f.span_id + " -> "@ + crate::text::decimal(f.status as nat)
        + " in "@ + thousandths(f.duration_us) + "ms trace="@ + f.trace_id + " user="@ + f.user_id
        + " - "@ + message
}

fn plain_line(rng: &mut Rng, facts: &LineFacts, target: usize, Ghost(f): Ghost<FactsView>) -> (line:
    String)
    requires
        facts.is(f),
        target <= 2010,
    ensures
        ({
            let drawn = message_of(old(rng).state(), target as nat, 150);
            line@ == plain_text(f, drawn.0) && final(rng).state() == drawn.1
        }),
{
    let words = message(rng, target, 150);
    let mut line = "[".to_owned();
    line.append(facts.ts_text.as_str());
    line.append("] ");
    line.append(PADDED_LEVELS[facts.level]);
    line.append(" ");
    line.append(PATHS[facts.path]);
    line.append(" ");
    line.append(METHODS[facts.method]);
    line.append(" ");
    line.append(facts.span_id.as_str());
    line.append(" -> ");
    push_decimal(&mut line, facts.status as u64);
    line.append(" in ");
    push_thousandths(&mut line, facts.duration_us);
    line.append("ms trace=");
    line.append(facts.trace_id.as_str());
    line.append(" user=");
    line.append(facts.user_id.as_str());
    line.append(" - ");
    line.append(words.as_str());
    line
}

pub open spec fn json_text(f: FactsView, state: u64, message: Seq<char>) -> Seq<char> {
    "{\"ts\":\""@ + f.ts_text + "\",\"level\":\""@ + LEVELS@[f.level]@ + "\",\"trace_id\":\""@
        + f.trace_id + "\",\"span_id\":\""@ + f.span_id + "\",\"status\":"@
        + crate::text::decimal(f.status as nat) + ",\"duration_ms\":"@ + thousandths(f.duration_us)
        + ",\"user_id\":\""@ + f.user_id + "\",\"http\":{\"method\":\""@ + METHODS@[f.method]@
        + "\",\"path\":\""@ + PATHS@[f.path]@ + "\",\"bytes\":"@ + crate::text::decimal(f.bytes)
        + ",\"remote\":\"10."@ + crate::text::decimal(nth_below(state, 0, 32) as nat) + "."@
        + crate::text::decimal(nth_below(state, 1, 256) as nat) + "."@ + crate::text::decimal(
        nth_below(state, 2, 256) as nat,
    ) + "\"},\"retry\":"@ + crate::text::decimal(nth_below(state, 3, 3) as nat) + ",\"msg\":\""@
        + message + "\"}"@
}

fn json_line(rng: &mut Rng, facts: &LineFacts, target: usize, Ghost(f): Ghost<FactsView>) -> (line:
    String)
    requires
        facts.is(f),
        target <= 2010,
    ensures
        ({
            let drawn = message_of(old(rng).state(), target as nat, 240);
            line@ == json_text(f, drawn.1, drawn.0) && final(rng).state() == after(drawn.1, 4)
        }),
{
    let words = message(rng, target, 240);
    let ghost s = rng.state();
    proof {
        nth_after(s, 0, 0);
        nth_after(s, 1, 0);
        nth_after(s, 2, 0);
        nth_after(s, 3, 0);
    }
    let a: usize = rng.below(32);
    assert(rng.state() == after(s, 1));
    let b: usize = rng.below(256);
    assert(rng.state() == after(s, 2));
    let c: usize = rng.below(256);
    assert(rng.state() == after(s, 3));
    let retry: usize = rng.below(3);
    let mut line = "{\"ts\":\"".to_owned();
    line.append(facts.ts_text.as_str());
    line.append("\",\"level\":\"");
    line.append(LEVELS[facts.level]);
    line.append("\",\"trace_id\":\"");
    line.append(facts.trace_id.as_str());
    line.append("\",\"span_id\":\"");
    line.append(facts.span_id.as_str());
    line.append("\",\"status\":");
    push_decimal(&mut line, facts.status as u64);
    line.append(",\"duration_ms\":");
    push_thousandths(&mut line, facts.duration_us);
    line.append(",\"user_id\":\"");
    line.append(facts.user_id.as_str());
    line.append("\",\"http\":{\"method\":\"");
    line.append(METHODS[facts.method]);
    line.append("\",\"path\":\"");
    line.append(PATHS[facts.path]);
    line.append("\",\"bytes\":");
    push_decimal(&mut line, facts.bytes);
    line.append(",\"remote\":\"10.");
    push_decimal(&mut line, a as u64);
    line.append(".");
    push_decimal(&mut line, b as u64);
    line.append(".");
    push_decimal(&mut line, c as u64);
    line.append("\"},\"retry\":");
    push_decimal(&mut line, retry as u64);
    line.append(",\"msg\":\"");
    line.append(words.as_str());
    line.append("\"}");
    line
}

pub open spec fn logfmt_text(f: FactsView, message: Seq<char>) -> Seq<char> {
    "ts="@ + f.ts_text + " level="@ + LEVELS@[f.level]@ + " trace_id="@ + f.trace_id + " span_id="@
        + f.span_id + " status="@ + crate::text::decimal(f.status as nat) + " duration_ms="@
        + thousandths(f.duration_us) + " user_id="@ + f.user_id + " method="@ + METHODS@[f.method]@
        + " path="@ + PATHS@[f.path]@ + " bytes="@ + crate::text::decimal(f.bytes) + " msg=\""@
        + message + "\""@
}

fn logfmt_line(rng: &mut Rng, facts: &LineFacts, target: usize, Ghost(f): Ghost<FactsView>) -> (line:
    String)
    requires
        facts.is(f),
        target <= 2010,
    ensures
        ({
            let drawn = message_of(old(rng).state(), target as nat, 180);
            line@ == logfmt_text(f, drawn.0) && final(rng).state() == drawn.1
        }),
{
    let words = message(rng, target, 180);
    let mut line = "ts=".to_owned();
    line.append(facts.ts_text.as_str());
    line.append(" level=");
    line.append(LEVELS[facts.level]);
    line.append(" trace_id=");
    line.append(facts.trace_id.as_str());
    line.append(" span_id=");
    line.append(facts.span_id.as_str());
    line.append(" status=");
    push_decimal(&mut line, facts.status as u64);
    line.append(" duration_ms=");
    push_thousandths(&mut line, facts.duration_us);
    line.append(" user_id=");
    line.append(facts.user_id.as_str());
    line.append(" method=");
    line.append(METHODS[facts.method]);
    line.append(" path=");
    line.append(PATHS[facts.path]);
    line.append(" bytes=");
    push_decimal(&mut line, facts.bytes);
    line.append(" msg=\"");
    line.append(words.as_str());
    line.append("\"");
    line
}

/// The shape of a line by weight, and the state behind it. Without weights
/// nothing is drawn and the line is plain.
pub open spec fn shape_of(state: u64, plain: nat, json: nat, logfmt: nat) -> (Shape, u64) {
    let total = plain + json + logfmt;
    if total == 0 {
        (Shape::Plain, state)
    } else {
        let roll = nth(state, 0) as int % total as int;
        (
            if roll < plain {
                Shape::Plain
            } else if roll < plain + json {
                Shape::Json
            } else {
                Shape::Logfmt
            },
            after(state, 1),
        )
    }
}

fn pick_shape(rng: &mut Rng, spec: &CorpusSpec) -> (shape: Shape)
    requires
        spec.plain_weight + spec.json_weight + spec.logfmt_weight <= u32::MAX,
    ensures
        (shape, final(rng).state()) == shape_of(
            old(rng).state(),
            spec.plain_weight as nat,
            spec.json_weight as nat,
            spec.logfmt_weight as nat,
        ),
{
    let total: u32 = spec.plain_weight + spec.json_weight + spec.logfmt_weight;
    if total == 0 {
        return Shape::Plain;
    }
    proof {
        nth_after(rng.state(), 0, 0);
    }
    let roll: u64 = rng.next_u64() % (total as u64);
    if roll < spec.plain_weight as u64 {
        Shape::Plain
    } else if roll < (spec.plain_weight + spec.json_weight) as u64 {
        Shape::Json
    } else {
        Shape::Logfmt
    }
}

/// The first `pairs` metadata pairs of a line, and the state behind them.
pub open spec fn metadata_of(state: u64, trace: Seq<char>, pairs: nat) -> (
    Seq<(Seq<char>, Seq<char>)>,
    u64,
)
    decreases pairs,
{
    if pairs == 0 {
        (seq![], state)
    } else {
        let (list, s) = metadata_of(state, trace, (pairs - 1) as nat);
        if pairs == 1 {
            (list.push(("trace_id"@, trace)), s)
        } else if pairs == 2 {
            (
                list.push(
                    (
                        "pod_ip"@,
                        "10.9."@ + crate::text::decimal(nth_below(s, 0, 256) as nat) + "."@
                            + crate::text::decimal(nth_below(s, 1, 256) as nat),
                    ),
                ),
                after(s, 2),
            )
        } else if pairs == 3 {
            (list.push(("container_id"@, hex_text(s, 24))), after(s, 24))
        } else {
            (
                list.push(("attr_"@ + crate::text::decimal((pairs - 1) as nat), hex_text(s, 8))),
                after(s, 8),
            )
        }
    }
}

fn metadata(rng: &mut Rng, trace_id: &String, pairs: usize) -> (out: Vec<(String, String)>)
    ensures
        (crate::model::pairs_view(out@), final(rng).state()) == metadata_of(
            old(rng).state(),
            trace_id@,
            pairs as nat,
        ),
{
    let mut out: Vec<(String, String)> = Vec::new();
    let mut index: usize = 0;
    assert(crate::model::pairs_view(out@) =~= Seq::<(Seq<char>, Seq<char>)>::empty());
    while index < pairs
        invariant
            index <= pairs,
            (crate::model::pairs_view(out@), rng.state()) == metadata_of(
                old(rng).state(),
                trace_id@,
                index as nat,
            ),
        decreases pairs - index,
    {
        let ghost s = rng.state();
        let ghost before = crate::model::pairs_view(out@);
        let pair: (String, String) = if index == 0 {
            ("trace_id".to_owned(), trace_id.clone())
        } else if index == 1 {
            proof {
                nth_after(s, 0, 0);
                nth_after(s, 1, 0);
            }
            let mut address = "10.9.".to_owned();
            let a: usize = rng.below(256);
            assert(rng.state() == after(s, 1));
            let b: usize = rng.below(256);
            push_decimal(&mut address, a as u64);
            address.append(".");
            push_decimal(&mut address, b as u64);
            ("pod_ip".to_owned(), address)
        } else if index == 2 {
            ("container_id".to_owned(), rng.hex(24))
        } else {
            let mut name = "attr_".to_owned();
            push_decimal(&mut name, index as u64);
            (name, rng.hex(8))
        };
        out.push(pair);
        assert(crate::model::pairs_view(out@) =~= before.push((pair.0@, pair.1@)));
        index = index + 1;
    }
    out
}

// --------------------------------------------------------------------- corpora
/// One row out of a state, and the state behind it.
pub open spec fn row_of(
    state: u64,
    spec: CorpusSpec,
    traces: Seq<Seq<char>>,
    users: Seq<Seq<char>>,
    row: nat,
) -> (EntryView, u64) {
    let clock = spec.start_ts_ns + row * spec.step_ns;
    let ts = if spec.out_of_order {
        clock - nth_below(state, 0, 64) * spec.step_ns
    } else {
        clock
    };
    let s1 = if spec.out_of_order {
        after(state, 1)
    } else {
        state
    };
    let facts = facts_of(s1, traces, users, ts);
    let s2 = after(s1, 24);
    let target = target_of(s2);
    let s3 = after(s2, 2);
    let (shape, s4) = shape_of(
        s3,
        spec.plain_weight as nat,
        spec.json_weight as nat,
        spec.logfmt_weight as nat,
    );
    let (line, s5) = match shape {
        Shape::Plain => {
            let drawn = message_of(s4, target, 150);
            (plain_text(facts, drawn.0), drawn.1)
        },
        Shape::Json => {
            let drawn = message_of(s4, target, 240);
            (json_text(facts, drawn.1, drawn.0), after(drawn.1, 4))
        },
        Shape::Logfmt => {
            let drawn = message_of(s4, target, 180);
            (logfmt_text(facts, drawn.0), drawn.1)
        },
    };
    let (metadata, s6) = metadata_of(s5, facts.trace_id, spec.metadata_pairs as nat);
    (EntryView { timestamp_ns: ts, line, metadata }, s6)
}

/// The state in front of a row.
pub open spec fn state_before(
    base: u64,
    spec: CorpusSpec,
    traces: Seq<Seq<char>>,
    users: Seq<Seq<char>>,
    row: nat,
) -> u64
    decreases row,
{
    if row == 0 {
        base
    } else {
        row_of(
            state_before(base, spec, traces, users, (row - 1) as nat),
            spec,
            traces,
            users,
            (row - 1) as nat,
        ).1
    }
}

/// The traces and the users that a corpus draws from.
pub open spec fn spec_traces(spec: CorpusSpec) -> Seq<Seq<char>> {
    Seq::new(trace_count(spec.rows as nat), |i: int| trace_id(seeded(spec.seed), i as nat))
}

pub open spec fn spec_users(spec: CorpusSpec) -> Seq<Seq<char>> {
    Seq::new(
        user_count(spec.rows as nat),
        |i: int| user_id(after(seeded(spec.seed), 32 * trace_count(spec.rows as nat)), i as nat),
    )
}

/// A row of a corpus.
pub open spec fn corpus_row(spec: CorpusSpec, row: nat) -> EntryView {
    let (t, u) = (spec_traces(spec), spec_users(spec));
    row_of(
        state_before(after_vocab(seeded(spec.seed), spec.rows as nat), spec, t, u, row),
        spec,
        t,
        u,
        row,
    ).0
}

pub open spec fn at_least_one(n: nat) -> nat {
    if n == 0 {
        1
    } else {
        n
    }
}

/// The entries of a stream among the first `rows`: every row whose number, by
/// the number of streams, leaves the stream's own.
pub open spec fn stream_rows(spec: CorpusSpec, stream: nat, rows: nat) -> Seq<EntryView>
    decreases rows,
{
    if rows == 0 {
        seq![]
    } else {
        let earlier = stream_rows(spec, stream, (rows - 1) as nat);
        if (rows - 1) % at_least_one(spec.streams as nat) as int == stream {
            earlier.push(corpus_row(spec, (rows - 1) as nat))
        } else {
            earlier
        }
    }
}

/// The name of a tenant: the prefix and its number in at least three digits.
pub open spec fn tenant_name(prefix: Seq<char>, index: nat) -> Seq<char> {
    prefix + "-"@ + (if index < 1000 {
        three_digits(index)
    } else {
        crate::text::decimal(index)
    })
}

pub open spec fn fits_i64(n: int) -> bool {
    i64::MIN <= n <= i64::MAX
}

/// Whether every timestamp of a corpus can be written.
pub open spec fn timestamps_fit(spec: CorpusSpec) -> bool {
    &&& spec.rows <= i64::MAX
    &&& forall|row: int|
        0 <= row < spec.rows ==> fits_i64(#[trigger] (row * spec.step_ns)) && fits_i64(
            spec.start_ts_ns + row * spec.step_ns,
        )
    &&& spec.out_of_order ==> forall|back: int, row: int|
        0 <= back < 64 && 0 <= row < spec.rows ==> fits_i64(#[trigger] (back * spec.step_ns))
            && fits_i64(spec.start_ts_ns + #[trigger] (row * spec.step_ns) - back * spec.step_ns)
}

/// Whether a corpus can be generated: the names of its tenants are tenant ids,
/// its timestamps fit, and so does the sum of its weights.
pub open spec fn generable(spec: CorpusSpec) -> bool {
    &&& timestamps_fit(spec)
    &&& spec.plain_weight + spec.json_weight + spec.logfmt_weight <= u32::MAX
    &&& forall|i: nat|
        i < at_least_one(spec.tenants as nat) ==> crate::tenant::is_tenant(
            #[trigger] tenant_name(spec.tenant_prefix@, i),
        )
}

pub struct Stream {
    pub tenant: TenantId,
    pub labels: Labels,
    pub entries: Vec<LogEntry>,
}

pub struct Corpus {
    pub spec: CorpusSpec,
    pub tenant_ids: Vec<TenantId>,
    pub streams: Vec<Stream>,
    pub label_names: Vec<String>,
}

/// The names of the first `count` labels among the first `n` in the order of
/// names.
pub open spec fn sorted_names(n: nat, count: nat) -> Seq<Seq<char>>
    decreases n,
{
    if n == 0 {
        seq![]
    } else {
        let earlier = sorted_names((n - 1) as nat, count);
        if SORTED_POSITIONS@[n - 1] < count {
            earlier.push(LABEL_NAMES@[SORTED_POSITIONS@[n - 1] as int]@)
        } else {
            earlier
        }
    }
}

impl Corpus {
    /// Whether this is what a spec asks for, to the last character.
    pub open spec fn is_generated(&self, spec: CorpusSpec) -> bool {
        &&& self.spec == spec
        &&& self.tenant_ids@.len() == at_least_one(spec.tenants as nat)
        &&& forall|i: int|
            0 <= i < self.tenant_ids@.len() ==> (#[trigger] self.tenant_ids@[i])@ == tenant_name(
                spec.tenant_prefix@,
                i as nat,
            )
        &&& self.streams@.len() == at_least_one(spec.streams as nat)
        &&& forall|i: int|
            0 <= i < self.streams@.len() ==> {
                let stream = #[trigger] self.streams@[i];
                &&& stream.tenant@ == tenant_name(
                    spec.tenant_prefix@,
                    (i % at_least_one(spec.tenants as nat) as int) as nat,
                )
                &&& stream.labels.wf()
                &&& stream.labels@ == stream_labels(i as nat, spec.labels_per_stream as nat)
                &&& entries_view(stream.entries@) == stream_rows(spec, i as nat, spec.rows as nat)
            }
        &&& texts(self.label_names@) == sorted_names(
            10,
            label_count(spec.labels_per_stream as nat),
        )
    }
}

/// What lies between two multiples of a step fits where they do.
proof fn multiples_between(start: int, step: int, low: int, k: int, high: int)
    requires
        low <= k <= high,
        fits_i64(start + low * step),
        fits_i64(start + high * step),
    ensures
        fits_i64(start + k * step),
{
    assert(low * step <= k * step <= high * step || high * step <= k * step <= low * step)
        by (nonlinear_arith)
        requires
            low <= k <= high,
    ;
}

fn is_i64(n: i128) -> (fits: bool)
    ensures
        fits == fits_i64(n as int),
{
    i64::MIN as i128 <= n && n <= i64::MAX as i128
}

fn timestamps_are_writable(spec: &CorpusSpec) -> (fits: bool)
    ensures
        fits == timestamps_fit(*spec),
{
    if spec.rows as u64 > i64::MAX as u64 {
        return false;
    }
    if spec.rows == 0 {
        return true;
    }
    let ghost (start, step) = (spec.start_ts_ns as int, spec.step_ns as int);
    let ghost last = spec.rows - 1;
    assert(-(last * 0x8000_0000_0000_0000) <= last * step <= last * 0x8000_0000_0000_0000)
        by (nonlinear_arith)
        requires
            0 <= last,
            -0x8000_0000_0000_0000 <= step <= 0x8000_0000_0000_0000,
    ;
    let far: i128 = (spec.rows - 1) as i128 * spec.step_ns as i128;
    if !is_i64(far) || !is_i64(spec.start_ts_ns as i128 + far) {
        assert(!(fits_i64(last * step) && fits_i64(start + last * step)));
        return false;
    }
    assert forall|row: int| 0 <= row < spec.rows implies fits_i64(#[trigger] (row * step))
        && fits_i64(start + row * step) by {
        multiples_between(0, step, 0, row, last);
        multiples_between(start, step, 0, row, last);
    }
    if spec.out_of_order {
        let back: i128 = 63 * spec.step_ns as i128;
        if !is_i64(back) || !is_i64(spec.start_ts_ns as i128 - back) {
            assert(!(fits_i64(63 * step) && fits_i64(start + 0 * step - 63 * step)));
            return false;
        }
        assert forall|back: int, row: int|
            0 <= back < 64 && 0 <= row < spec.rows implies fits_i64(#[trigger] (back * step))
            && fits_i64(start + #[trigger] (row * step) - back * step) by {
            multiples_between(0, step, 0, back, 63);
            assert(start + -63 * step == start - 63 * step);
            multiples_between(start, step, -63, row - back, last);
            assert((row - back) * step == row * step - back * step) by (nonlinear_arith);
        }
    }
    true
}

fn tenant_text(prefix: &String, index: usize) -> (name: String)
    ensures
        name@ == tenant_name(prefix@, index as nat),
{
    let mut name = prefix.clone();
    name.append("-");
    if index < 1000 {
        push_three_digits(&mut name, index as u64);
    } else {
        push_decimal(&mut name, index as u64);
    }
    name
}

/// Whether a corpus can be generated.
pub fn is_generable(spec: &CorpusSpec) -> (possible: bool)
    ensures
        possible == generable(*spec),
{
    let weights: u64 = spec.plain_weight as u64 + spec.json_weight as u64
        + spec.logfmt_weight as u64;
    if weights > u32::MAX as u64 || !timestamps_are_writable(spec) {
        return false;
    }
    let tenants: usize = if spec.tenants == 0 {
        1
    } else {
        spec.tenants
    };
    let mut i: usize = 0;
    while i < tenants
        invariant
            i <= tenants,
            tenants == at_least_one(spec.tenants as nat),
            forall|j: nat|
                j < i ==> crate::tenant::is_tenant(
                    #[trigger] tenant_name(spec.tenant_prefix@, j),
                ),
        decreases tenants - i,
    {
        if TenantId::parse(tenant_text(&spec.tenant_prefix, i).as_str()).is_err() {
            assert(!crate::tenant::is_tenant(tenant_name(spec.tenant_prefix@, i as nat)));
            return false;
        }
        i = i + 1;
    }
    true
}

fn corpus_tenant(prefix: &String, index: usize) -> (tenant: TenantId)
    requires
        crate::tenant::is_tenant(tenant_name(prefix@, index as nat)),
    ensures
        tenant@ == tenant_name(prefix@, index as nat),
{
    TenantId::parse(tenant_text(prefix, index).as_str()).unwrap()
}

fn label_name_list(count: usize) -> (out: Vec<String>)
    ensures
        texts(out@) == sorted_names(10, count as nat),
{
    let mut out: Vec<String> = Vec::new();
    let mut n: usize = 0;
    assert(texts(out@) =~= Seq::<Seq<char>>::empty());
    while n < 10
        invariant
            n <= 10,
            texts(out@) == sorted_names(n as nat, count as nat),
        decreases 10 - n,
    {
        let position: usize = SORTED_POSITIONS[n];
        assert(position < 10);
        if position < count {
            let ghost before = texts(out@);
            out.push(LABEL_NAMES[position].to_owned());
            assert(texts(out@) =~= before.push(LABEL_NAMES@[position as int]@));
        }
        n = n + 1;
    }
    out
}

fn generate_row(rng: &mut Rng, spec: &CorpusSpec, vocab: &Vocab, row: usize) -> (entry: LogEntry)
    requires
        row < spec.rows,
        timestamps_fit(*spec),
        spec.plain_weight + spec.json_weight + spec.logfmt_weight <= u32::MAX,
        vocab.traces().len() > 0,
        vocab.users().len() > 0,
    ensures
        (entry@, final(rng).state()) == row_of(
            old(rng).state(),
            *spec,
            vocab.traces(),
            vocab.users(),
            row as nat,
        ),
{
    let ghost s = rng.state();
    let ghost r = row as int;
    assert(fits_i64(r * spec.step_ns) && fits_i64(spec.start_ts_ns + r * spec.step_ns));
    let mut ts_ns: i64 = spec.start_ts_ns + (row as i64) * spec.step_ns;
    if spec.out_of_order {
        proof {
            nth_after(s, 0, 0);
        }
        let back: usize = rng.below(64);
        let ghost b = back as int;
        assert(fits_i64(b * spec.step_ns) && fits_i64(
            spec.start_ts_ns + r * spec.step_ns - b * spec.step_ns,
        ));
        ts_ns = ts_ns - (back as i64) * spec.step_ns;
    }
    let ghost s1 = rng.state();
    let facts = line_facts(rng, vocab, ts_ns);
    let ghost f = facts_of(s1, vocab.traces(), vocab.users(), ts_ns as int);
    let target: usize = target_len(rng);
    let line = match pick_shape(rng, spec) {
        Shape::Plain => plain_line(rng, &facts, target, Ghost(f)),
        Shape::Json => json_line(rng, &facts, target, Ghost(f)),
        Shape::Logfmt => logfmt_line(rng, &facts, target, Ghost(f)),
    };
    let structured_metadata = metadata(rng, &facts.trace_id, spec.metadata_pairs);
    LogEntry { timestamp_ns: ts_ns, line, structured_metadata }
}

/// Generates a corpus.
#[verifier::rlimit(40)]
pub fn generate(spec: &CorpusSpec) -> (corpus: Corpus)
    requires
        generable(*spec),
    ensures
        corpus.is_generated(*spec),
{
    let mut rng = Rng::new(spec.seed);
    let vocab = Vocab::new(&mut rng, spec.rows);
    let ghost base = rng.state();
    let ghost (t, u) = (spec_traces(*spec), spec_users(*spec));
    assert(vocab.traces() =~= t);
    assert(vocab.users() =~= u);
    let tenant_count: usize = if spec.tenants == 0 {
        1
    } else {
        spec.tenants
    };
    let stream_count: usize = if spec.streams == 0 {
        1
    } else {
        spec.streams
    };
    let mut tenant_ids: Vec<TenantId> = Vec::new();
    let mut i: usize = 0;
    while i < tenant_count
        invariant
            i <= tenant_count,
            generable(*spec),
            tenant_count == at_least_one(spec.tenants as nat),
            tenant_ids@.len() == i,
            forall|j: int|
                0 <= j < i ==> (#[trigger] tenant_ids@[j])@ == tenant_name(
                    spec.tenant_prefix@,
                    j as nat,
                ),
        decreases tenant_count - i,
    {
        assert(crate::tenant::is_tenant(tenant_name(spec.tenant_prefix@, i as nat)));
        tenant_ids.push(corpus_tenant(&spec.tenant_prefix, i));
        i = i + 1;
    }
    let mut streams: Vec<Stream> = Vec::new();
    let mut n: usize = 0;
    while n < stream_count
        invariant
            n <= stream_count,
            tenant_count > 0,
            tenant_count == at_least_one(spec.tenants as nat),
            tenant_ids@.len() == tenant_count,
            forall|j: int|
                0 <= j < tenant_ids@.len() ==> (#[trigger] tenant_ids@[j])@ == tenant_name(
                    spec.tenant_prefix@,
                    j as nat,
                ),
            streams@.len() == n,
            forall|j: int|
                0 <= j < n ==> {
                    let stream = #[trigger] streams@[j];
                    &&& stream.tenant@ == tenant_name(
                        spec.tenant_prefix@,
                        (j % tenant_count as int) as nat,
                    )
                    &&& stream.labels.wf()
                    &&& stream.labels@ == stream_labels(j as nat, spec.labels_per_stream as nat)
                    &&& stream.entries@.len() == 0
                },
        decreases stream_count - n,
    {
        let stream = Stream {
            tenant: tenant_ids[n % tenant_count].clone(),
            labels: labels_for_stream(n, spec.labels_per_stream),
            entries: Vec::new(),
        };
        streams.push(stream);
        n = n + 1;
    }
    let mut row: usize = 0;
    assert forall|j: int| 0 <= j < stream_count implies entries_view(
        (#[trigger] streams@[j]).entries@,
    ) == stream_rows(*spec, j as nat, 0) by {
        assert(entries_view(streams@[j].entries@) =~= Seq::<EntryView>::empty());
    }
    while row < spec.rows
        invariant
            row <= spec.rows,
            generable(*spec),
            stream_count > 0,
            stream_count == at_least_one(spec.streams as nat),
            tenant_count == at_least_one(spec.tenants as nat),
            vocab.traces() == t,
            vocab.users() == u,
            t == spec_traces(*spec),
            u == spec_users(*spec),
            t.len() > 0,
            u.len() > 0,
            base == after_vocab(seeded(spec.seed), spec.rows as nat),
            rng.state() == state_before(base, *spec, t, u, row as nat),
            streams@.len() == stream_count,
            forall|j: int|
                0 <= j < stream_count ==> {
                    let stream = #[trigger] streams@[j];
                    &&& stream.tenant@ == tenant_name(
                        spec.tenant_prefix@,
                        (j % tenant_count as int) as nat,
                    )
                    &&& stream.labels.wf()
                    &&& stream.labels@ == stream_labels(j as nat, spec.labels_per_stream as nat)
                    &&& entries_view(stream.entries@) == stream_rows(*spec, j as nat, row as nat)
                },
        decreases spec.rows - row,
    {
        let entry = generate_row(&mut rng, spec, &vocab, row);
        let at: usize = row % stream_count;
        let ghost before = streams@;
        assert(entry@ == corpus_row(*spec, row as nat));
        streams[at].entries.push(entry);
        proof {
            assert forall|j: int| 0 <= j < stream_count implies {
                let stream = #[trigger] streams@[j];
                &&& stream.tenant@ == before[j].tenant@
                &&& stream.labels == before[j].labels
                &&& entries_view(stream.entries@) == stream_rows(*spec, j as nat, (row + 1) as nat)
            } by {
                if j == at as int {
                    assert(entries_view(streams@[j].entries@) =~= entries_view(
                        before[j].entries@,
                    ).push(entry@));
                } else {
                    assert(streams@[j] == before[j]);
                }
            }
        }
        row = row + 1;
    }
    let label_names = label_name_list(clamp_labels(spec.labels_per_stream));
    Corpus { spec: spec.copy(), tenant_ids, streams, label_names }
}

// --------------------------------------------------------------- what it holds
/// How many entries streams have together.
pub open spec fn total_entries(streams: Seq<Stream>) -> nat
    decreases streams.len(),
{
    if streams.len() == 0 {
        0
    } else {
        total_entries(streams.drop_last()) + streams.last().entries@.len()
    }
}

/// How many bytes entries' lines have together.
pub open spec fn entry_bytes(entries: Seq<EntryView>) -> nat
    decreases entries.len(),
{
    if entries.len() == 0 {
        0
    } else {
        entry_bytes(entries.drop_last()) + vstd::utf8::encode_utf8(entries.last().line).len()
    }
}

/// Every entry of streams, stream by stream.
pub open spec fn all_entries(streams: Seq<Stream>) -> Seq<EntryView>
    decreases streams.len(),
{
    if streams.len() == 0 {
        seq![]
    } else {
        all_entries(streams.drop_last()) + entries_view(streams.last().entries@)
    }
}

/// Every entry of streams as a row, stream by stream.
pub open spec fn all_rows(streams: Seq<Stream>) -> Seq<RowView>
    decreases streams.len(),
{
    if streams.len() == 0 {
        seq![]
    } else {
        let last = streams.last();
        all_rows(streams.drop_last()) + last.entries@.map_values(
            |entry: LogEntry|
                RowView { tenant: last.tenant@, labels: last.labels@, entry: entry@ },
        )
    }
}

/// How many bytes names and values have together.
pub open spec fn label_bytes(pairs: Seq<(Seq<char>, Seq<char>)>) -> nat
    decreases pairs.len(),
{
    if pairs.len() == 0 {
        0
    } else {
        label_bytes(pairs.drop_last()) + vstd::utf8::encode_utf8(pairs.last().0).len()
            + vstd::utf8::encode_utf8(pairs.last().1).len()
    }
}

/// How many bytes the label sets of streams have together, each counted once.
pub open spec fn all_label_bytes(streams: Seq<Stream>) -> nat
    decreases streams.len(),
{
    if streams.len() == 0 {
        0
    } else {
        all_label_bytes(streams.drop_last()) + label_bytes(streams.last().labels@)
    }
}

pub proof fn entry_bytes_grow(entries: Seq<EntryView>, n: int)
    requires
        0 <= n <= entries.len(),
    ensures
        entry_bytes(entries.take(n)) <= entry_bytes(entries),
    decreases entries.len() - n,
{
    if n == entries.len() {
        assert(entries.take(n) =~= entries);
    } else {
        entry_bytes_grow(entries, n + 1);
        assert(entries.take(n + 1).drop_last() =~= entries.take(n));
    }
}

proof fn streams_grow(streams: Seq<Stream>, n: int)
    requires
        0 <= n <= streams.len(),
    ensures
        total_entries(streams.take(n)) <= total_entries(streams),
        all_label_bytes(streams.take(n)) <= all_label_bytes(streams),
    decreases streams.len() - n,
{
    if n == streams.len() {
        assert(streams.take(n) =~= streams);
    } else {
        streams_grow(streams, n + 1);
        assert(streams.take(n + 1).drop_last() =~= streams.take(n));
    }
}

proof fn label_bytes_grow(pairs: Seq<(Seq<char>, Seq<char>)>, n: int)
    requires
        0 <= n <= pairs.len(),
    ensures
        label_bytes(pairs.take(n)) <= label_bytes(pairs),
    decreases pairs.len() - n,
{
    if n == pairs.len() {
        assert(pairs.take(n) =~= pairs);
    } else {
        label_bytes_grow(pairs, n + 1);
        assert(pairs.take(n + 1).drop_last() =~= pairs.take(n));
    }
}

fn labels_bytes(labels: &Labels) -> (bytes: u64)
    requires
        label_bytes(labels@) <= u64::MAX,
    ensures
        bytes == label_bytes(labels@),
{
    let mut bytes: u64 = 0;
    let mut i: usize = 0;
    assert(labels@.take(0) =~= Seq::<(Seq<char>, Seq<char>)>::empty());
    while i < labels.len()
        invariant
            i <= labels@.len(),
            label_bytes(labels@) <= u64::MAX,
            bytes == label_bytes(labels@.take(i as int)),
        decreases labels@.len() - i,
    {
        let pair = labels.pair(i);
        let name: usize = pair.0.as_str().as_bytes().len();
        let value: usize = pair.1.as_str().as_bytes().len();
        proof {
            label_bytes_grow(labels@, i + 1);
            assert(labels@.take(i + 1).drop_last() =~= labels@.take(i as int));
        }
        bytes = bytes + name as u64 + value as u64;
        i = i + 1;
    }
    assert(labels@.take(labels@.len() as int) =~= labels@);
    bytes
}

impl Corpus {
    /// How many entries there are.
    pub fn entry_count(&self) -> (n: usize)
        requires
            total_entries(self.streams@) <= usize::MAX,
        ensures
            n == total_entries(self.streams@),
    {
        let mut n: usize = 0;
        let mut i: usize = 0;
        assert(self.streams@.take(0) =~= Seq::<Stream>::empty());
        while i < self.streams.len()
            invariant
                i <= self.streams@.len(),
                total_entries(self.streams@) <= usize::MAX,
                n == total_entries(self.streams@.take(i as int)),
            decreases self.streams.len() - i,
        {
            proof {
                streams_grow(self.streams@, i + 1);
                assert(self.streams@.take(i + 1).drop_last() =~= self.streams@.take(i as int));
            }
            n = n + self.streams[i].entries.len();
            i = i + 1;
        }
        assert(self.streams@.take(self.streams@.len() as int) =~= self.streams@);
        n
    }

    /// Every entry, stream by stream.
    pub fn entries(&self) -> (out: Vec<&LogEntry>)
        ensures
            out@.map_values(|entry: &LogEntry| entry@) == all_entries(self.streams@),
    {
        let mut out: Vec<&LogEntry> = Vec::new();
        let mut i: usize = 0;
        assert(self.streams@.take(0) =~= Seq::<Stream>::empty());
        assert(out@.map_values(|entry: &LogEntry| entry@) =~= Seq::<EntryView>::empty());
        while i < self.streams.len()
            invariant
                i <= self.streams@.len(),
                out@.map_values(|entry: &LogEntry| entry@) == all_entries(
                    self.streams@.take(i as int),
                ),
            decreases self.streams.len() - i,
        {
            let ghost before = out@.map_values(|entry: &LogEntry| entry@);
            let list = &self.streams[i].entries;
            let mut n: usize = 0;
            assert(before + entries_view(list@.take(0)) =~= before);
            while n < list.len()
                invariant
                    n <= list@.len(),
                    out@.map_values(|entry: &LogEntry| entry@) == before + entries_view(
                        list@.take(n as int),
                    ),
                decreases list.len() - n,
            {
                let ghost now = out@.map_values(|entry: &LogEntry| entry@);
                out.push(&list[n]);
                proof {
                    assert(out@.map_values(|entry: &LogEntry| entry@) =~= now.push(
                        list@[n as int]@,
                    ));
                    assert(entries_view(list@.take(n + 1)) =~= entries_view(
                        list@.take(n as int),
                    ).push(list@[n as int]@));
                    assert(now.push(list@[n as int]@) =~= before + entries_view(
                        list@.take(n + 1),
                    ));
                }
                n = n + 1;
            }
            proof {
                assert(list@.take(list@.len() as int) =~= list@);
                assert(self.streams@.take(i + 1).drop_last() =~= self.streams@.take(i as int));
            }
            i = i + 1;
        }
        assert(self.streams@.take(self.streams@.len() as int) =~= self.streams@);
        out
    }

    /// Every line, stream by stream.
    pub fn lines(&self) -> (out: Vec<&str>)
        ensures
            out@.map_values(|line: &str| line@) == all_entries(self.streams@).map_values(
                |entry: EntryView| entry.line,
            ),
    {
        let entries = self.entries();
        let ghost all = all_entries(self.streams@);
        let mut out: Vec<&str> = Vec::new();
        let mut i: usize = 0;
        while i < entries.len()
            invariant
                i <= entries@.len(),
                entries@.map_values(|entry: &LogEntry| entry@) == all,
                out@.len() == i,
                forall|j: int| 0 <= j < i ==> (#[trigger] out@[j])@ == all[j].line,
            decreases entries.len() - i,
        {
            assert(entries@.map_values(|entry: &LogEntry| entry@)[i as int] == entries@[i as int]@);
            out.push(entries[i].line.as_str());
            i = i + 1;
        }
        assert(entries@.map_values(|entry: &LogEntry| entry@).len() == entries@.len());
        assert(out@.map_values(|line: &str| line@) =~= all.map_values(
            |entry: EntryView| entry.line,
        ));
        out
    }

    /// How many bytes the lines have together.
    pub fn line_bytes(&self) -> (bytes: u64)
        requires
            entry_bytes(all_entries(self.streams@)) <= u64::MAX,
        ensures
            bytes == entry_bytes(all_entries(self.streams@)),
    {
        let entries = self.entries();
        let ghost all = all_entries(self.streams@);
        assert(entries@.map_values(|entry: &LogEntry| entry@).len() == entries@.len());
        let mut bytes: u64 = 0;
        let mut i: usize = 0;
        assert(all.take(0) =~= Seq::<EntryView>::empty());
        while i < entries.len()
            invariant
                i <= entries@.len(),
                all.len() == entries@.len(),
                entries@.map_values(|entry: &LogEntry| entry@) == all,
                entry_bytes(all) <= u64::MAX,
                bytes == entry_bytes(all.take(i as int)),
            decreases entries.len() - i,
        {
            let size: usize = entries[i].line.as_str().as_bytes().len();
            proof {
                assert(entries@.map_values(|entry: &LogEntry| entry@)[i as int]
                    == entries@[i as int]@);
                entry_bytes_grow(all, i + 1);
                assert(all.take(i + 1).drop_last() =~= all.take(i as int));
            }
            bytes = bytes + size as u64;
            i = i + 1;
        }
        assert(all.take(all.len() as int) =~= all);
        bytes
    }

    /// Every entry as a row, stream by stream.
    pub fn rows(&self) -> (out: Vec<Row>)
        ensures
            out@.map_values(|row: Row| row@) == all_rows(self.streams@),
    {
        let mut out: Vec<Row> = Vec::new();
        let mut i: usize = 0;
        assert(self.streams@.take(0) =~= Seq::<Stream>::empty());
        assert(out@.map_values(|row: Row| row@) =~= Seq::<RowView>::empty());
        while i < self.streams.len()
            invariant
                i <= self.streams@.len(),
                out@.map_values(|row: Row| row@) == all_rows(self.streams@.take(i as int)),
            decreases self.streams.len() - i,
        {
            let ghost before = out@.map_values(|row: Row| row@);
            let stream = &self.streams[i];
            let ghost to_row = |entry: LogEntry|
                RowView { tenant: stream.tenant@, labels: stream.labels@, entry: entry@ };
            let mut n: usize = 0;
            assert(before + stream.entries@.take(0).map_values(to_row) =~= before);
            while n < stream.entries.len()
                invariant
                    n <= stream.entries@.len(),
                    to_row == (|entry: LogEntry|
                        (RowView { tenant: stream.tenant@, labels: stream.labels@, entry: entry@ })),
                    out@.map_values(|row: Row| row@) == before + stream.entries@.take(
                        n as int,
                    ).map_values(to_row),
                decreases stream.entries.len() - n,
            {
                let ghost now = out@.map_values(|row: Row| row@);
                out.push(Row::from_entry(&stream.tenant, &stream.labels, &stream.entries[n]));
                proof {
                    let row = to_row(stream.entries@[n as int]);
                    assert(out@.map_values(|row: Row| row@) =~= now.push(row));
                    assert(stream.entries@.take(n + 1).map_values(to_row)
                        =~= stream.entries@.take(n as int).map_values(to_row).push(row));
                    assert(now.push(row) =~= before + stream.entries@.take(n + 1).map_values(
                        to_row,
                    ));
                }
                n = n + 1;
            }
            proof {
                assert(stream.entries@.take(stream.entries@.len() as int) =~= stream.entries@);
                assert(self.streams@.take(i + 1).drop_last() =~= self.streams@.take(i as int));
                assert(self.streams@.take(i + 1).last() == *stream);
            }
            i = i + 1;
        }
        assert(self.streams@.take(self.streams@.len() as int) =~= self.streams@);
        out
    }

    /// Every entry with the labels of its stream, stream by stream.
    pub fn labelled_entries(&self) -> (out: Vec<(&Labels, &LogEntry)>)
        ensures
            out@.map_values(|pair: (&Labels, &LogEntry)| (pair.0@, pair.1@)) == all_rows(
                self.streams@,
            ).map_values(|row: RowView| (row.labels, row.entry)),
    {
        let mut out: Vec<(&Labels, &LogEntry)> = Vec::new();
        let ghost shown = |pair: (&Labels, &LogEntry)| (pair.0@, pair.1@);
        let ghost bare = |row: RowView| (row.labels, row.entry);
        let mut i: usize = 0;
        assert(self.streams@.take(0) =~= Seq::<Stream>::empty());
        assert(out@.map_values(shown) =~= all_rows(self.streams@.take(0)).map_values(bare));
        while i < self.streams.len()
            invariant
                i <= self.streams@.len(),
                shown == |pair: (&Labels, &LogEntry)| (pair.0@, pair.1@),
                bare == |row: RowView| (row.labels, row.entry),
                out@.map_values(shown) == all_rows(self.streams@.take(i as int)).map_values(bare),
            decreases self.streams.len() - i,
        {
            let ghost before = out@.map_values(shown);
            let stream = &self.streams[i];
            let ghost to_pair = |entry: LogEntry| (stream.labels@, entry@);
            let mut n: usize = 0;
            assert(before + stream.entries@.take(0).map_values(to_pair) =~= before);
            while n < stream.entries.len()
                invariant
                    n <= stream.entries@.len(),
                    shown == |pair: (&Labels, &LogEntry)| (pair.0@, pair.1@),
                    to_pair == |entry: LogEntry| (stream.labels@, entry@),
                    out@.map_values(shown) == before + stream.entries@.take(n as int).map_values(
                        to_pair,
                    ),
                decreases stream.entries.len() - n,
            {
                let ghost now = out@.map_values(shown);
                out.push((&stream.labels, &stream.entries[n]));
                proof {
                    let pair = to_pair(stream.entries@[n as int]);
                    assert(out@.map_values(shown) =~= now.push(pair));
                    assert(stream.entries@.take(n + 1).map_values(to_pair)
                        =~= stream.entries@.take(n as int).map_values(to_pair).push(pair));
                    assert(now.push(pair) =~= before + stream.entries@.take(n + 1).map_values(
                        to_pair,
                    ));
                }
                n = n + 1;
            }
            proof {
                assert(stream.entries@.take(stream.entries@.len() as int) =~= stream.entries@);
                assert(self.streams@.take(i + 1).drop_last() =~= self.streams@.take(i as int));
                assert(self.streams@.take(i + 1).last() == *stream);
                assert(all_rows(self.streams@.take(i + 1)).map_values(bare) =~= before
                    + stream.entries@.map_values(to_pair));
            }
            i = i + 1;
        }
        assert(self.streams@.take(self.streams@.len() as int) =~= self.streams@);
        out
    }

    /// The first tenant.
    pub fn tenant(&self) -> (tenant: &TenantId)
        requires
            self.tenant_ids@.len() > 0,
        ensures
            tenant@ == self.tenant_ids@[0]@,
    {
        &self.tenant_ids[0]
    }

    /// The value of a label on the first stream; nothing where it has none.
    pub fn label_value(&self, name: &str) -> (value: String)
        requires
            self.streams@.len() > 0,
        ensures
            value@ == match crate::model::value_of(self.streams@[0].labels@, name@) {
                Some(text) => text,
                None => ""@,
            },
    {
        match self.streams[0].labels.get(name) {
            Some(value) => value.clone(),
            None => "".to_owned(),
        }
    }

    /// The earliest timestamp, or the smallest number where there is no entry.
    pub fn min_ts_ns(&self) -> (ts: i64)
        ensures
            ({
                let all = all_entries(self.streams@);
                if all.len() == 0 {
                    ts == i64::MIN
                } else {
                    &&& exists|i: int| 0 <= i < all.len() && #[trigger] all[i].timestamp_ns == ts
                    &&& forall|i: int| 0 <= i < all.len() ==> ts <= #[trigger] all[i].timestamp_ns
                }
            }),
    {
        let entries = self.entries();
        let ghost all = all_entries(self.streams@);
        assert(entries@.map_values(|entry: &LogEntry| entry@).len() == entries@.len());
        if entries.len() == 0 {
            return i64::MIN;
        }
        assert forall|j: int| 0 <= j < all.len() implies #[trigger] all[j].timestamp_ns
            == entries@[j].timestamp_ns by {
            assert(entries@.map_values(|entry: &LogEntry| entry@)[j] == entries@[j]@);
        }
        let mut ts: i64 = entries[0].timestamp_ns;
        let mut i: usize = 1;
        assert(all[0].timestamp_ns == ts);
        while i < entries.len()
            invariant
                1 <= i <= entries@.len(),
                all.len() == entries@.len(),
                forall|j: int|
                    0 <= j < all.len() ==> #[trigger] all[j].timestamp_ns
                        == entries@[j].timestamp_ns,
                exists|j: int| 0 <= j < all.len() && #[trigger] all[j].timestamp_ns == ts,
                forall|j: int| 0 <= j < i ==> ts <= #[trigger] all[j].timestamp_ns,
            decreases entries.len() - i,
        {
            if entries[i].timestamp_ns < ts {
                ts = entries[i].timestamp_ns;
                assert(all[i as int].timestamp_ns == ts);
            }
            i = i + 1;
        }
        ts
    }

    /// The latest timestamp, or the largest number where there is no entry.
    pub fn max_ts_ns(&self) -> (ts: i64)
        ensures
            ({
                let all = all_entries(self.streams@);
                if all.len() == 0 {
                    ts == i64::MAX
                } else {
                    &&& exists|i: int| 0 <= i < all.len() && #[trigger] all[i].timestamp_ns == ts
                    &&& forall|i: int| 0 <= i < all.len() ==> ts >= #[trigger] all[i].timestamp_ns
                }
            }),
    {
        let entries = self.entries();
        let ghost all = all_entries(self.streams@);
        assert(entries@.map_values(|entry: &LogEntry| entry@).len() == entries@.len());
        if entries.len() == 0 {
            return i64::MAX;
        }
        assert forall|j: int| 0 <= j < all.len() implies #[trigger] all[j].timestamp_ns
            == entries@[j].timestamp_ns by {
            assert(entries@.map_values(|entry: &LogEntry| entry@)[j] == entries@[j]@);
        }
        let mut ts: i64 = entries[0].timestamp_ns;
        let mut i: usize = 1;
        assert(all[0].timestamp_ns == ts);
        while i < entries.len()
            invariant
                1 <= i <= entries@.len(),
                all.len() == entries@.len(),
                forall|j: int|
                    0 <= j < all.len() ==> #[trigger] all[j].timestamp_ns
                        == entries@[j].timestamp_ns,
                exists|j: int| 0 <= j < all.len() && #[trigger] all[j].timestamp_ns == ts,
                forall|j: int| 0 <= j < i ==> ts >= #[trigger] all[j].timestamp_ns,
            decreases entries.len() - i,
        {
            if entries[i].timestamp_ns > ts {
                ts = entries[i].timestamp_ns;
                assert(all[i as int].timestamp_ns == ts);
            }
            i = i + 1;
        }
        ts
    }

    /// How many bytes the label sets take, each counted once.
    pub fn distinct_label_bytes(&self) -> (bytes: u64)
        requires
            all_label_bytes(self.streams@) <= u64::MAX,
        ensures
            bytes == all_label_bytes(self.streams@),
    {
        let mut bytes: u64 = 0;
        let mut i: usize = 0;
        assert(self.streams@.take(0) =~= Seq::<Stream>::empty());
        while i < self.streams.len()
            invariant
                i <= self.streams@.len(),
                all_label_bytes(self.streams@) <= u64::MAX,
                bytes == all_label_bytes(self.streams@.take(i as int)),
            decreases self.streams.len() - i,
        {
            proof {
                streams_grow(self.streams@, i + 1);
                assert(self.streams@.take(i + 1).drop_last() =~= self.streams@.take(i as int));
            }
            bytes = bytes + labels_bytes(&self.streams[i].labels);
            i = i + 1;
        }
        assert(self.streams@.take(self.streams@.len() as int) =~= self.streams@);
        bytes
    }
}

/// The streams of a corpus as pushes: one label set and its entries each.
pub fn push_batches(corpus: &Corpus) -> (out: Vec<(Labels, Vec<LogEntry>)>)
    ensures
        out@.len() == corpus.streams@.len(),
        forall|i: int|
            0 <= i < out@.len() ==> (#[trigger] out@[i]).0@ == corpus.streams@[i].labels@
                && entries_view(out@[i].1@) == entries_view(corpus.streams@[i].entries@),
{
    let mut out: Vec<(Labels, Vec<LogEntry>)> = Vec::new();
    let mut i: usize = 0;
    while i < corpus.streams.len()
        invariant
            i <= corpus.streams@.len(),
            out@.len() == i,
            forall|j: int|
                0 <= j < i ==> (#[trigger] out@[j]).0@ == corpus.streams@[j].labels@
                    && entries_view(out@[j].1@) == entries_view(corpus.streams@[j].entries@),
        decreases corpus.streams.len() - i,
    {
        let stream = &corpus.streams[i];
        out.push((stream.labels.clone(), copy_entries(stream.entries.as_slice())));
        i = i + 1;
    }
    out
}

/// What streams add up to as a snapshot, one after the other.
pub open spec fn snapshot_of(streams: Seq<Stream>) -> Seq<
    (Seq<char>, Seq<(Seq<(Seq<char>, Seq<char>)>, Seq<EntryView>)>),
>
    decreases streams.len(),
{
    if streams.len() == 0 {
        seq![]
    } else {
        let last = streams.last();
        with_stream(
            snapshot_of(streams.drop_last()),
            last.tenant@,
            last.labels@,
            entries_view(last.entries@),
        )
    }
}

impl Corpus {
    /// The corpus as it would be buffered.
    pub fn snapshot(&self) -> (snapshot: MemTableSnapshot)
        ensures
            snapshot@ == snapshot_of(self.streams@),
    {
        let mut snapshot = MemTableSnapshot::new();
        let mut i: usize = 0;
        assert(self.streams@.take(0) =~= Seq::<Stream>::empty());
        while i < self.streams.len()
            invariant
                i <= self.streams@.len(),
                snapshot@ == snapshot_of(self.streams@.take(i as int)),
            decreases self.streams.len() - i,
        {
            let stream = &self.streams[i];
            snapshot.extend(&stream.tenant, &stream.labels, stream.entries.as_slice());
            proof {
                assert(self.streams@.take(i + 1).drop_last() =~= self.streams@.take(i as int));
                assert(self.streams@.take(i + 1).last() == *stream);
            }
            i = i + 1;
        }
        assert(self.streams@.take(self.streams@.len() as int) =~= self.streams@);
        snapshot
    }
}

} // verus!
