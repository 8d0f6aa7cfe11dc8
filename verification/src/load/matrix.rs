//! The query comparison: a fixed dataset, the queries over it, and what their
//! timings and answers come to.

use vstd::prelude::*;
use vstd::string::*;

use crate::corpus::{
    entry_bytes, entry_bytes_grow, fits_i64, generate, tenant_name, Corpus, CorpusSpec, APPS,
    LEVELS, PHRASES, STATUSES,
};
use crate::load::answers::{drop_repeats, without_repeats, Answer};
use crate::load::config::{Config, Verify};
use crate::load::queries::{
    query_path, range_query, select, select_level, select_phrase, select_status, selector,
    with_level, with_phrase, with_status,
};
use crate::load::stats::Series;
use crate::load::tally::{first_error, StatusCounts};
use crate::model::{entries_view, value_of, EntryView};
use crate::order::{ordered_texts, sort_texts, texts_view};
use crate::tenant::is_tenant;
use crate::text::{decimal, push_decimal};

verus! {

/// Keeps the dataset apart from the load corpus while it stays a function of the
/// seed.
pub const VERIFY_SEED_SALT: u64 = 0x1e4f_a1ce;

/// The query shapes that are compared.
#[derive(Clone, Copy, Debug, PartialEq, Eq, Structural)]
pub enum Shape {
    LabelOnly,
    LineFilter,
    JsonField,
    Rate,
}

pub const SHAPES: [Shape; 4] = [
    Shape::LabelOnly,
    Shape::LineFilter,
    Shape::JsonField,
    Shape::Rate,
];

pub open spec fn shape_name(shape: Shape) -> Seq<char> {
    match shape {
        Shape::LabelOnly => "label_only"@,
        Shape::LineFilter => "line_filter"@,
        Shape::JsonField => "json_field"@,
        Shape::Rate => "rate"@,
    }
}

impl Shape {
    pub fn name(self) -> (name: &'static str)
        ensures
            name@ == shape_name(self),
    {
        match self {
            Shape::LabelOnly => "label_only",
            Shape::LineFilter => "line_filter",
            Shape::JsonField => "json_field",
            Shape::Rate => "rate",
        }
    }
}

// -------------------------------------------------------------------- dataset
/// The dataset that both systems are given: one tenant, so that the queries read
/// nothing else; a fixed start; and nothing out of order.
pub open spec fn is_verify_spec(spec: CorpusSpec, cfg: Config) -> bool {
    &&& spec.seed == cfg.seed ^ VERIFY_SEED_SALT
    &&& spec.tenants == 1
    &&& spec.streams == cfg.verify.streams
    &&& spec.labels_per_stream == cfg.verify.labels_per_stream
    &&& spec.rows == cfg.verify.rows
    &&& spec.tenant_prefix@ == cfg.verify.tenant_prefix@
    &&& spec.plain_weight == cfg.plain_weight
    &&& spec.json_weight == cfg.json_weight
    &&& spec.logfmt_weight == cfg.logfmt_weight
    &&& spec.metadata_pairs == cfg.metadata_pairs
    &&& spec.start_ts_ns == cfg.verify.anchor_ns
    &&& spec.step_ns == cfg.verify.step_ns
    &&& spec.out_of_order == false
}

/// What the dataset is generated from.
pub fn verify_spec(cfg: &Config) -> (spec: CorpusSpec)
    ensures
        is_verify_spec(spec, *cfg),
{
    CorpusSpec {
        seed: cfg.seed ^ VERIFY_SEED_SALT,
        tenants: 1,
        streams: cfg.verify.streams,
        labels_per_stream: cfg.verify.labels_per_stream,
        rows: cfg.verify.rows,
        tenant_prefix: cfg.verify.tenant_prefix.clone(),
        plain_weight: cfg.plain_weight,
        json_weight: cfg.json_weight,
        logfmt_weight: cfg.logfmt_weight,
        metadata_pairs: cfg.metadata_pairs,
        start_ts_ns: cfg.verify.anchor_ns,
        step_ns: cfg.verify.step_ns,
        out_of_order: false,
    }
}

/// Whether the dataset can be generated: its timestamps and the sum of its line
/// weights fit, and the name of its tenant is a tenant id.
pub open spec fn dataset_fits(cfg: Config) -> bool {
    &&& cfg.verify.rows <= i64::MAX
    &&& forall|row: int|
        0 <= row < cfg.verify.rows ==> fits_i64(#[trigger] (row * cfg.verify.step_ns)) && fits_i64(
            cfg.verify.anchor_ns + row * cfg.verify.step_ns,
        )
    &&& cfg.plain_weight + cfg.json_weight + cfg.logfmt_weight <= u32::MAX
    &&& is_tenant(tenant_name(cfg.verify.tenant_prefix@, 0))
}

/// The dataset.
pub fn verify_corpus(cfg: &Config) -> (corpus: Corpus)
    requires
        dataset_fits(*cfg),
    ensures
        is_verify_spec(corpus.spec, *cfg),
        corpus.is_generated(corpus.spec),
{
    let spec = verify_spec(cfg);
    generate(&spec)
}

/// Refuses a dataset without a start. One taken from the clock would differ
/// between the two runs of a comparison.
pub fn require_anchor(verify: &Verify) -> (out: Result<(), String>)
    ensures
        match out {
            Ok(_) => verify.anchor_ns > 0,
            Err(message) => verify.anchor_ns <= 0 && message@
                == "LOGGYTRACY_LOAD_VERIFY_ANCHOR_NS must be set to the same value for both runs of a comparison; without it each run would seed a different dataset"@,
        },
{
    if verify.anchor_ns > 0 {
        return Ok(());
    }
    Err(
        "LOGGYTRACY_LOAD_VERIFY_ANCHOR_NS must be set to the same value for both runs of a comparison; without it each run would seed a different dataset".to_owned(),
    )
}

// -------------------------------------------------------------------- seeding
/// A push of the dataset: the entries `start..end` of a stream.
#[derive(Clone, Copy, Debug, PartialEq, Eq, Structural)]
pub struct SeedChunk {
    pub stream: usize,
    pub start: usize,
    pub end: usize,
    pub line_bytes: usize,
}

/// Whether chunks cut a stream: one follows the other, each is full but for the
/// last, and together they are the stream.
pub open spec fn cuts(
    chunks: Seq<SeedChunk>,
    stream: int,
    entries: Seq<EntryView>,
    size: int,
) -> bool {
    &&& chunks.len() == (entries.len() + size - 1) / size
    &&& forall|k: int|
        0 <= k < chunks.len() ==> is_chunk(#[trigger] chunks[k], stream, entries, size, k)
}

/// Whether a chunk is the `k`th of a stream.
pub open spec fn is_chunk(
    chunk: SeedChunk,
    stream: int,
    entries: Seq<EntryView>,
    size: int,
    k: int,
) -> bool {
    &&& chunk.stream == stream
    &&& chunk.start == k * size
    &&& chunk.end == if (k + 1) * size < entries.len() {
        (k + 1) * size
    } else {
        entries.len() as int
    }
    &&& chunk.start < chunk.end <= entries.len()
    &&& chunk.line_bytes == entry_bytes(entries.subrange(chunk.start as int, chunk.end as int))
}

/// Cuts a stream into pushes.
fn cut_stream(corpus: &Corpus, stream: usize, size: usize) -> (out: Vec<SeedChunk>)
    requires
        stream < corpus.streams@.len(),
        size > 0,
        entry_bytes(entries_view(corpus.streams@[stream as int].entries@)) <= usize::MAX,
    ensures
        cuts(
            out@,
            stream as int,
            entries_view(corpus.streams@[stream as int].entries@),
            size as int,
        ),
{
    let entries = &corpus.streams[stream].entries;
    let ghost views = entries_view(entries@);
    let len: usize = entries.len();
    let mut out: Vec<SeedChunk> = Vec::new();
    let mut start: usize = 0;
    proof {
        assert(0 * size == 0);
        if len == 0 {
            assert((0 + size - 1) / size as int == 0) by (nonlinear_arith)
                requires
                    size > 0,
            ;
        }
    }
    while start < len
        invariant
            size > 0,
            len == entries@.len(),
            *entries == corpus.streams@[stream as int].entries,
            views == entries_view(entries@),
            entry_bytes(views) <= usize::MAX,
            start <= len,
            start < len ==> start == out@.len() * size,
            start == len ==> out@.len() == (len + size - 1) / size as int,
            forall|k: int|
                0 <= k < out@.len() ==> is_chunk(
                    #[trigger] out@[k],
                    stream as int,
                    views,
                    size as int,
                    k,
                ),
        decreases len - start,
    {
        let end: usize = if size < len - start {
            start + size
        } else {
            len
        };
        let ghost k = out@.len() as int;
        let mut bytes: usize = 0;
        let mut i: usize = start;
        assert(views.subrange(start as int, start as int) =~= seq![]);
        while i < end
            invariant
                start <= i <= end <= len,
                len == entries@.len(),
                views == entries_view(entries@),
                entry_bytes(views) <= usize::MAX,
                bytes == entry_bytes(views.subrange(start as int, i as int)),
                bytes + entry_bytes(views.take(start as int)) == entry_bytes(views.take(i as int)),
            decreases end - i,
        {
            proof {
                assert(views.subrange(start as int, i + 1).drop_last() =~= views.subrange(
                    start as int,
                    i as int,
                ));
                assert(views.take(i + 1).drop_last() =~= views.take(i as int));
                assert(views[i as int] == entries@[i as int]@);
                entry_bytes_grow(views, i + 1);
            }
            bytes = bytes + entries[i].line.as_str().as_bytes().len();
            i = i + 1;
        }
        out.push(SeedChunk { stream, start, end, line_bytes: bytes });
        proof {
            assert((k + 1) * size == k * size + size) by (nonlinear_arith);
            if end == len {
                assert((len + size - 1) / size as int == k + 1) by (nonlinear_arith)
                    requires
                        size > 0,
                        k * size < len,
                        len <= k * size + size,
                ;
            }
        }
        start = end;
    }
    out
}

/// The chunks of a stream put together again.
pub open spec fn joined(chunks: Seq<SeedChunk>, entries: Seq<EntryView>, n: nat) -> Seq<EntryView>
    decreases n,
{
    if n == 0 {
        seq![]
    } else {
        joined(chunks, entries, (n - 1) as nat) + entries.subrange(
            chunks[n - 1].start as int,
            chunks[n - 1].end as int,
        )
    }
}

/// The pushes of a stream carry every entry of it once, in order.
pub proof fn the_pushes_carry_every_entry(
    chunks: Seq<SeedChunk>,
    stream: int,
    entries: Seq<EntryView>,
    size: int,
)
    requires
        size > 0,
        cuts(chunks, stream, entries, size),
    ensures
        joined(chunks, entries, chunks.len()) == entries,
{
    joined_so_far(chunks, stream, entries, size, chunks.len());
    let count = chunks.len() as int;
    if count > 0 {
        assert(is_chunk(chunks[count - 1], stream, entries, size, count - 1));
        assert(count * size >= entries.len()) by (nonlinear_arith)
            requires
                size > 0,
                count == (entries.len() + size - 1) / size,
        ;
    } else {
        assert(entries.len() == 0) by (nonlinear_arith)
            requires
                size > 0,
                count == 0,
                count == (entries.len() + size - 1) / size,
        ;
    }
    assert(joined(chunks, entries, chunks.len()) =~= entries);
}

proof fn joined_so_far(
    chunks: Seq<SeedChunk>,
    stream: int,
    entries: Seq<EntryView>,
    size: int,
    n: nat,
)
    requires
        size > 0,
        cuts(chunks, stream, entries, size),
        n <= chunks.len(),
    ensures
        n > 0 ==> joined(chunks, entries, n) == entries.take(chunks[n - 1].end as int),
        n == 0 ==> joined(chunks, entries, n) == Seq::<EntryView>::empty(),
    decreases n,
{
    if n > 0 {
        joined_so_far(chunks, stream, entries, size, (n - 1) as nat);
        assert(is_chunk(chunks[n - 1], stream, entries, size, n - 1));
        if n > 1 {
            assert(is_chunk(chunks[n - 2], stream, entries, size, n - 2));
        } else {
            assert(0 * size == 0);
        }
        assert(joined(chunks, entries, n) =~= entries.take(chunks[n - 1].end as int));
    }
}

/// Cuts the dataset into pushes: of each stream the chunks of its entries. The
/// pushes are then a function of the dataset alone.
pub fn seed_chunks(corpus: &Corpus, entries_per_push: usize) -> (out: Vec<Vec<SeedChunk>>)
    requires
        entries_per_push > 0,
        forall|s: int|
            0 <= s < corpus.streams@.len() ==> entry_bytes(
                entries_view((#[trigger] corpus.streams@[s]).entries@),
            ) <= usize::MAX,
    ensures
        out@.len() == corpus.streams@.len(),
        forall|s: int|
            0 <= s < out@.len() ==> cuts(
                (#[trigger] out@[s])@,
                s,
                entries_view(corpus.streams@[s].entries@),
                entries_per_push as int,
            ),
{
    let mut out: Vec<Vec<SeedChunk>> = Vec::new();
    let mut s: usize = 0;
    while s < corpus.streams.len()
        invariant
            s <= corpus.streams@.len(),
            entries_per_push > 0,
            out@.len() == s,
            forall|j: int|
                0 <= j < corpus.streams@.len() ==> entry_bytes(
                    entries_view((#[trigger] corpus.streams@[j]).entries@),
                ) <= usize::MAX,
            forall|j: int|
                0 <= j < s ==> cuts(
                    (#[trigger] out@[j])@,
                    j,
                    entries_view(corpus.streams@[j].entries@),
                    entries_per_push as int,
                ),
        decreases corpus.streams@.len() - s,
    {
        out.push(cut_stream(corpus, s, entries_per_push));
        s = s + 1;
    }
    out
}

/// What came back for a push of the dataset.
#[derive(Clone, Copy, Debug, PartialEq, Eq, Structural)]
pub enum SeedReply {
    Status(u16),
    Failed,
}

/// What to do about it.
#[derive(Clone, Copy, Debug, PartialEq, Eq, Structural)]
pub enum SeedStep {
    Done,
    /// Wait and send it again.
    Retry,
    GiveUp,
}

/// How often a push is sent at most.
pub const SEED_ATTEMPTS: usize = 60;

/// What to do about a reply. Seeding is no measurement: a refusal or a failure is
/// waited out, as long as there are attempts left, since the dataset has to land
/// in full. A status that is neither success nor refusal ends the push at once.
pub open spec fn seed_step_of(attempt: usize, reply: SeedReply) -> SeedStep {
    match reply {
        SeedReply::Status(status) => if status == 204 || status == 200 {
            SeedStep::Done
        } else if status == 429 && attempt < SEED_ATTEMPTS - 1 {
            SeedStep::Retry
        } else {
            SeedStep::GiveUp
        },
        SeedReply::Failed => if attempt < SEED_ATTEMPTS - 1 {
            SeedStep::Retry
        } else {
            SeedStep::GiveUp
        },
    }
}

pub fn seed_step(attempt: usize, reply: SeedReply) -> (step: SeedStep)
    ensures
        step == seed_step_of(attempt, reply),
{
    match reply {
        SeedReply::Status(status) => {
            if status == 204 || status == 200 {
                SeedStep::Done
            } else if status == 429 && attempt < SEED_ATTEMPTS - 1 {
                SeedStep::Retry
            } else {
                SeedStep::GiveUp
            }
        },
        SeedReply::Failed => {
            if attempt < SEED_ATTEMPTS - 1 {
                SeedStep::Retry
            } else {
                SeedStep::GiveUp
            }
        },
    }
}

/// What seeding came to.
pub struct SeedOutcome {
    pub pushes: u64,
    pub rows: u64,
    pub line_bytes: u64,
    pub wire_bytes: u64,
    pub retries: u64,
    pub errors: u64,
    pub statuses: StatusCounts,
    pub first_error: Option<String>,
}

/// The most that any number of an outcome may be for another push to be counted.
pub const MAX_SEED_COUNT: u64 = 0x7fff_ffff_ffff_ffff;

impl SeedOutcome {
    pub open spec fn wf(&self) -> bool {
        &&& self.statuses.wf()
        &&& self.pushes <= MAX_SEED_COUNT
        &&& self.rows <= MAX_SEED_COUNT
        &&& self.line_bytes <= MAX_SEED_COUNT
        &&& self.wire_bytes <= MAX_SEED_COUNT
        &&& self.retries <= MAX_SEED_COUNT
        &&& self.errors <= MAX_SEED_COUNT
        &&& forall|status: u16| #[trigger] self.statuses.of(status) <= MAX_SEED_COUNT
    }

    pub fn new() -> (outcome: Self)
        ensures
            outcome.wf(),
            outcome.pushes == 0 && outcome.rows == 0 && outcome.line_bytes == 0
                && outcome.wire_bytes == 0 && outcome.retries == 0 && outcome.errors == 0,
            outcome.statuses.counts@ == Seq::<(u16, u64)>::empty(),
            forall|status: u16| #[trigger] outcome.statuses.of(status) == 0,
            outcome.first_error is None,
    {
        SeedOutcome {
            pushes: 0,
            rows: 0,
            line_bytes: 0,
            wire_bytes: 0,
            retries: 0,
            errors: 0,
            statuses: StatusCounts::new(),
            first_error: None,
        }
    }

    /// Counts a reply to a chunk: its status, and what follows from it. `error` is
    /// what is kept if the push is given up, unless an earlier one is kept.
    pub fn record(
        &mut self,
        chunk: &SeedChunk,
        wire_bytes: u64,
        reply: SeedReply,
        step: SeedStep,
        error: String,
    )
        requires
            old(self).wf(),
            chunk.start <= chunk.end,
            old(self).pushes < MAX_SEED_COUNT,
            old(self).retries < MAX_SEED_COUNT,
            old(self).errors < MAX_SEED_COUNT,
            old(self).rows + (chunk.end - chunk.start) <= MAX_SEED_COUNT,
            old(self).line_bytes + chunk.line_bytes <= MAX_SEED_COUNT,
            old(self).wire_bytes + wire_bytes <= MAX_SEED_COUNT,
            reply matches SeedReply::Status(status) ==> old(self).statuses.of(status)
                < MAX_SEED_COUNT,
        ensures
            final(self).wf(),
            forall|status: u16|
                #[trigger] final(self).statuses.of(status) == old(self).statuses.of(status)
                    + if reply == SeedReply::Status(status) {
                    1int
                } else {
                    0int
                },
            final(self).pushes == old(self).pushes + if step == SeedStep::Done {
                1int
            } else {
                0int
            },
            final(self).rows == old(self).rows + if step == SeedStep::Done {
                chunk.end - chunk.start
            } else {
                0
            },
            final(self).line_bytes == old(self).line_bytes + if step == SeedStep::Done {
                chunk.line_bytes as int
            } else {
                0int
            },
            final(self).wire_bytes == old(self).wire_bytes + if step == SeedStep::Done {
                wire_bytes as int
            } else {
                0int
            },
            final(self).retries == old(self).retries + if step == SeedStep::Retry {
                1int
            } else {
                0int
            },
            final(self).errors == old(self).errors + if step == SeedStep::GiveUp {
                1int
            } else {
                0int
            },
            crate::checks::shown(final(self).first_error) == if step == SeedStep::GiveUp {
                first_error(crate::checks::shown(old(self).first_error), Some(error@))
            } else {
                crate::checks::shown(old(self).first_error)
            },
    {
        if let SeedReply::Status(status) = reply {
            self.statuses.add(status, 1);
        }
        match step {
            SeedStep::Done => {
                self.pushes = self.pushes + 1;
                self.rows = self.rows + (chunk.end - chunk.start) as u64;
                self.line_bytes = self.line_bytes + chunk.line_bytes as u64;
                self.wire_bytes = self.wire_bytes + wire_bytes;
            },
            SeedStep::Retry => {
                self.retries = self.retries + 1;
            },
            SeedStep::GiveUp => {
                self.errors = self.errors + 1;
                if self.first_error.is_none() {
                    self.first_error = Some(error);
                }
            },
        }
    }

    /// Adds what another worker came to.
    pub fn merge(&mut self, other: SeedOutcome)
        requires
            old(self).wf(),
            other.wf(),
            old(self).pushes + other.pushes <= MAX_SEED_COUNT,
            old(self).rows + other.rows <= MAX_SEED_COUNT,
            old(self).line_bytes + other.line_bytes <= MAX_SEED_COUNT,
            old(self).wire_bytes + other.wire_bytes <= MAX_SEED_COUNT,
            old(self).retries + other.retries <= MAX_SEED_COUNT,
            old(self).errors + other.errors <= MAX_SEED_COUNT,
            forall|status: u16|
                #[trigger] old(self).statuses.of(status) + other.statuses.of(status)
                    <= MAX_SEED_COUNT,
        ensures
            final(self).wf(),
            final(self).pushes == old(self).pushes + other.pushes,
            final(self).rows == old(self).rows + other.rows,
            final(self).line_bytes == old(self).line_bytes + other.line_bytes,
            final(self).wire_bytes == old(self).wire_bytes + other.wire_bytes,
            final(self).retries == old(self).retries + other.retries,
            final(self).errors == old(self).errors + other.errors,
            forall|status: u16|
                #[trigger] final(self).statuses.of(status) == old(self).statuses.of(status)
                    + other.statuses.of(status),
            crate::checks::shown(final(self).first_error) == first_error(
                crate::checks::shown(old(self).first_error),
                crate::checks::shown(other.first_error),
            ),
    {
        self.pushes = self.pushes + other.pushes;
        self.rows = self.rows + other.rows;
        self.line_bytes = self.line_bytes + other.line_bytes;
        self.wire_bytes = self.wire_bytes + other.wire_bytes;
        self.retries = self.retries + other.retries;
        self.errors = self.errors + other.errors;
        self.statuses.merge(&other.statuses);
        if self.first_error.is_none() {
            self.first_error = other.first_error;
        }
    }

    /// Whether the dataset landed in full.
    pub fn complete(&self, rows: u64) -> (complete: bool)
        ensures
            complete == (self.errors == 0 && self.rows == rows),
    {
        self.errors == 0 && self.rows == rows
    }
}

// -------------------------------------------------------------------- queries
/// The app of each stream that has one, in order of the streams.
pub open spec fn app_names(corpus: Corpus, n: nat) -> Seq<Seq<char>>
    decreases n,
{
    if n == 0 {
        seq![]
    } else {
        let before = app_names(corpus, (n - 1) as nat);
        match value_of(corpus.streams@[n - 1].labels@, "app"@) {
            Some(app) => before.push(app),
            None => before,
        }
    }
}

/// The apps that are queried: those of the dataset, each once, in order, or a
/// stand-in where it has none.
pub open spec fn queried_apps(corpus: Corpus) -> Seq<Seq<char>> {
    let names = app_names(corpus, corpus.streams@.len());
    if names.len() == 0 {
        seq![APPS@[0]@]
    } else {
        without_repeats(ordered_texts(names))
    }
}

fn list_apps(corpus: &Corpus) -> (apps: Vec<String>)
    ensures
        texts_view(apps@) == queried_apps(*corpus),
{
    let mut names: Vec<String> = Vec::new();
    let mut i: usize = 0;
    assert(texts_view(names@) =~= seq![]);
    while i < corpus.streams.len()
        invariant
            i <= corpus.streams@.len(),
            texts_view(names@) == app_names(*corpus, i as nat),
        decreases corpus.streams@.len() - i,
    {
        let ghost before = names@;
        if let Some(app) = corpus.streams[i].labels.get("app") {
            names.push(app.clone());
            assert(texts_view(names@) =~= texts_view(before).push(app@));
        }
        i = i + 1;
    }
    if names.len() == 0 {
        let known = APPS;
        names.push(known[0].to_owned());
        assert(texts_view(names@) =~= seq![APPS@[0]@]);
        return names;
    }
    sort_texts(&mut names);
    drop_repeats(&names)
}

/// A query of the comparison.
pub struct Query {
    pub id: String,
    pub shape: Shape,
    pub expression: String,
    pub start_ns: i64,
    pub end_ns: i64,
    pub path: String,
}

#[verifier::ext_equal]
pub struct QueryView {
    pub id: Seq<char>,
    pub shape: Shape,
    pub expression: Seq<char>,
    pub start_ns: int,
    pub end_ns: int,
    pub path: Seq<char>,
}

impl View for Query {
    type V = QueryView;

    open spec fn view(&self) -> QueryView {
        QueryView {
            id: self.id@,
            shape: self.shape,
            expression: self.expression@,
            start_ns: self.start_ns as int,
            end_ns: self.end_ns as int,
            path: self.path@,
        }
    }
}

pub open spec fn queries_view(queries: Seq<Query>) -> Seq<QueryView> {
    queries.map_values(|query: Query| query@)
}

/// The expression of a shape over an app. The variant picks what it filters for.
pub open spec fn expression_of(shape: Shape, app: Seq<char>, variant: nat, range: Seq<char>) -> Seq<
    char,
> {
    match shape {
        Shape::LabelOnly => selector(app),
        Shape::LineFilter => with_phrase(app, PHRASES@[(variant % 24) as int]@),
        Shape::JsonField => if variant % 2 == 0 {
            with_status(app, STATUSES@[(variant % 6) as int] as nat)
        } else {
            with_level(app, LEVELS@[(variant % 4) as int]@)
        },
        Shape::Rate => "sum(rate("@ + selector(app) + "["@ + range + "]))"@,
    }
}

/// Where a window of the dataset begins.
pub open spec fn window_start(verify: Verify, window: int) -> int {
    verify.anchor_ns + (verify.rows * verify.step_ns * window) / (verify.windows as int)
}

/// The query of a shape over an app in a window. What no query has asked for
/// before cannot come out of a cache, and the window is what makes it so.
pub open spec fn query_of(
    verify: Verify,
    shape: Shape,
    app_index: int,
    app: Seq<char>,
    window: int,
) -> QueryView {
    let expression = expression_of(
        shape,
        app,
        (app_index * verify.windows + window) as nat,
        verify.range@,
    );
    QueryView {
        id: shape_name(shape) + "/"@ + app + "/w"@ + decimal(window as nat),
        shape,
        expression,
        start_ns: window_start(verify, window),
        end_ns: window_start(verify, window + 1),
        path: query_path(
            expression,
            window_start(verify, window),
            window_start(verify, window + 1),
            verify.step_seconds as int,
            verify.limit as nat,
            "backward"@,
        ),
    }
}

/// The queries of a shape over an app, window by window.
pub open spec fn window_queries(
    verify: Verify,
    shape: Shape,
    app_index: int,
    app: Seq<char>,
    n: nat,
) -> Seq<QueryView> {
    Seq::new(n, |w: int| query_of(verify, shape, app_index, app, w))
}

/// The queries of a shape, app by app.
pub open spec fn app_queries(verify: Verify, shape: Shape, apps: Seq<Seq<char>>, n: nat) -> Seq<
    QueryView,
>
    decreases n,
{
    if n == 0 {
        seq![]
    } else {
        app_queries(verify, shape, apps, (n - 1) as nat) + window_queries(
            verify,
            shape,
            n - 1,
            apps[n - 1],
            verify.windows as nat,
        )
    }
}

/// The queries, shape by shape.
pub open spec fn shape_queries(verify: Verify, apps: Seq<Seq<char>>, n: nat) -> Seq<QueryView>
    decreases n,
{
    if n == 0 {
        seq![]
    } else {
        shape_queries(verify, apps, (n - 1) as nat) + app_queries(
            verify,
            SHAPES@[n - 1],
            apps,
            apps.len(),
        )
    }
}

/// Whether the windows of a dataset can be written.
pub open spec fn windows_fit(verify: Verify) -> bool {
    &&& verify.windows > 0
    &&& verify.step_ns >= 0
    &&& verify.rows <= i64::MAX
    &&& verify.windows <= i64::MAX
    &&& verify.rows * verify.step_ns * verify.windows <= i64::MAX
    &&& verify.anchor_ns + verify.rows * verify.step_ns <= i64::MAX
}

/// Whether the windows of a dataset can be written.
pub fn windows_are_writable(verify: &Verify) -> (fits: bool)
    ensures
        fits == windows_fit(*verify),
{
    let ghost span_of = verify.rows * verify.step_ns;
    if verify.windows == 0 || verify.step_ns < 0 || verify.rows as u64 > i64::MAX as u64
        || verify.windows as u64 > i64::MAX as u64 {
        return false;
    }
    let most: i128 = i64::MAX as i128;
    assert(0 <= span_of <= 0x4000_0000_0000_0000_0000_0000_0000_0000) by (nonlinear_arith)
        requires
            span_of == verify.rows * verify.step_ns,
            0 <= verify.rows <= 0x7fff_ffff_ffff_ffff,
            0 <= verify.step_ns <= 0x7fff_ffff_ffff_ffff,
    ;
    let span: i128 = verify.rows as i128 * verify.step_ns as i128;
    if span > most {
        assert(span_of * verify.windows >= span_of) by (nonlinear_arith)
            requires
                span_of >= 0,
                verify.windows >= 1,
        ;
        return false;
    }
    assert(0 <= span_of * verify.windows <= 0x4000_0000_0000_0000_0000_0000_0000_0000)
        by (nonlinear_arith)
        requires
            0 <= span_of <= 0x7fff_ffff_ffff_ffff,
            0 <= verify.windows <= 0x7fff_ffff_ffff_ffff,
    ;
    span * verify.windows as i128 <= most && verify.anchor_ns as i128 + span <= most
}

proof fn window_fits(verify: Verify, window: int)
    requires
        windows_fit(verify),
        0 <= window <= verify.windows,
    ensures
        0 <= verify.rows * verify.step_ns <= i64::MAX,
        0 <= verify.rows * verify.step_ns * window <= i64::MAX,
        0 <= (verify.rows * verify.step_ns * window) / (verify.windows as int) <= verify.rows
            * verify.step_ns,
{
    let span = verify.rows * verify.step_ns;
    let windows = verify.windows as int;
    assert(span >= 0) by (nonlinear_arith)
        requires
            span == verify.rows * verify.step_ns,
            verify.step_ns >= 0,
    ;
    assert(span * window <= span * windows && 0 <= span * window && span <= span * windows)
        by (nonlinear_arith)
        requires
            span >= 0,
            0 <= window <= windows,
            windows > 0,
    ;
    assert(0 <= (span * window) / windows <= span) by (nonlinear_arith)
        requires
            span >= 0,
            0 <= window <= windows,
            windows > 0,
    ;
}

fn start_of_window(verify: &Verify, window: usize) -> (start: i64)
    requires
        windows_fit(*verify),
        window <= verify.windows,
    ensures
        start == window_start(*verify, window as int),
{
    proof {
        window_fits(*verify, window as int);
    }
    let span: i64 = verify.rows as i64 * verify.step_ns;
    verify.anchor_ns + span * window as i64 / verify.windows as i64
}

fn write_expression(shape: Shape, app: &str, variant: usize, range: &str) -> (out: String)
    ensures
        out@ == expression_of(shape, app@, variant as nat, range@),
{
    match shape {
        Shape::LabelOnly => select(app),
        Shape::LineFilter => {
            let phrases = PHRASES;
            select_phrase(app, phrases[variant % 24])
        },
        Shape::JsonField => {
            if variant % 2 == 0 {
                let statuses = STATUSES;
                select_status(app, statuses[variant % 6])
            } else {
                let levels = LEVELS;
                select_level(app, levels[variant % 4])
            }
        },
        Shape::Rate => {
            let mut out = "sum(rate(".to_owned();
            out.append(select(app).as_str());
            out.append("[");
            out.append(range);
            out.append("]))");
            out
        },
    }
}

fn write_query(verify: &Verify, shape: Shape, app_index: usize, app: &str, window: usize) -> (query:
    Query)
    requires
        windows_fit(*verify),
        window < verify.windows,
        app_index * verify.windows + window <= usize::MAX,
    ensures
        query@ == query_of(*verify, shape, app_index as int, app@, window as int),
{
    proof {
        assert(0 <= app_index * verify.windows) by (nonlinear_arith);
    }
    let variant: usize = app_index * verify.windows + window;
    let expression = write_expression(shape, app, variant, verify.range.as_str());
    let start_ns: i64 = start_of_window(verify, window);
    let end_ns: i64 = start_of_window(verify, window + 1);
    let path = range_query(
        expression.as_str(),
        start_ns,
        end_ns,
        verify.step_seconds,
        verify.limit,
        "backward",
    );
    let mut id = shape.name().to_owned();
    id.append("/");
    id.append(app);
    id.append("/w");
    push_decimal(&mut id, window as u64);
    Query { id, shape, expression, start_ns, end_ns, path }
}

fn write_app_queries(verify: &Verify, shape: Shape, apps: &Vec<String>, queries: &mut Vec<Query>)
    requires
        windows_fit(*verify),
        apps@.len() * verify.windows <= usize::MAX,
    ensures
        queries_view(final(queries)@) == queries_view(old(queries)@) + app_queries(
            *verify,
            shape,
            texts_view(apps@),
            apps@.len(),
        ),
{
    let ghost names = texts_view(apps@);
    let ghost start = queries_view(queries@);
    let mut a: usize = 0;
    assert(start + Seq::<QueryView>::empty() =~= start);
    while a < apps.len()
        invariant
            a <= apps@.len(),
            windows_fit(*verify),
            names == texts_view(apps@),
            apps@.len() * verify.windows <= usize::MAX,
            queries_view(queries@) == start + app_queries(*verify, shape, names, a as nat),
        decreases apps@.len() - a,
    {
        let ghost here = queries_view(queries@);
        let app = &apps[a];
        proof {
            assert((a + 1) * verify.windows <= apps@.len() * verify.windows) by (nonlinear_arith)
                requires
                    a + 1 <= apps@.len(),
            ;
            assert((a + 1) * verify.windows == a * verify.windows + verify.windows)
                by (nonlinear_arith);
        }
        let mut w: usize = 0;
        assert(here + window_queries(*verify, shape, a as int, app@, 0) =~= here);
        while w < verify.windows
            invariant
                w <= verify.windows,
                a < apps@.len(),
                windows_fit(*verify),
                a * verify.windows + verify.windows <= usize::MAX,
                queries_view(queries@) == here + window_queries(
                    *verify,
                    shape,
                    a as int,
                    app@,
                    w as nat,
                ),
            decreases verify.windows - w,
        {
            let ghost before = queries@;
            let query = write_query(verify, shape, a, app.as_str(), w);
            let ghost view = query@;
            queries.push(query);
            w = w + 1;
            assert(queries_view(queries@) =~= queries_view(before).push(view));
            assert(window_queries(*verify, shape, a as int, app@, w as nat) =~= window_queries(
                *verify,
                shape,
                a as int,
                app@,
                (w - 1) as nat,
            ).push(view));
            assert(queries_view(queries@) =~= here + window_queries(
                *verify,
                shape,
                a as int,
                app@,
                w as nat,
            ));
        }
        a = a + 1;
        assert(app@ == names[a - 1]);
        assert(queries_view(queries@) =~= start + app_queries(*verify, shape, names, a as nat));
    }
}

/// The queries over the dataset: every shape over every app in every window.
pub fn build_queries(cfg: &Config, corpus: &Corpus) -> (queries: Vec<Query>)
    requires
        windows_fit(cfg.verify),
        queried_apps(*corpus).len() * cfg.verify.windows <= usize::MAX,
    ensures
        queries_view(queries@) == shape_queries(cfg.verify, queried_apps(*corpus), 4),
{
    let apps = list_apps(corpus);
    let ghost names = texts_view(apps@);
    let shapes = SHAPES;
    let mut queries: Vec<Query> = Vec::new();
    let mut s: usize = 0;
    assert(queries_view(queries@) =~= seq![]);
    while s < 4
        invariant
            s <= 4,
            shapes@ == SHAPES@,
            names == texts_view(apps@),
            windows_fit(cfg.verify),
            apps@.len() * cfg.verify.windows <= usize::MAX,
            queries_view(queries@) == shape_queries(cfg.verify, names, s as nat),
        decreases 4 - s,
    {
        write_app_queries(&cfg.verify, shapes[s], &apps, &mut queries);
        s = s + 1;
    }
    queries
}

/// The windows of a dataset follow one another without a gap, from its start to
/// its end.
pub proof fn the_windows_cover_the_dataset(verify: Verify)
    requires
        windows_fit(verify),
    ensures
        window_start(verify, 0) == verify.anchor_ns,
        window_start(verify, verify.windows as int) == verify.anchor_ns + verify.rows
            * verify.step_ns,
        forall|shape: Shape, app_index: int, app: Seq<char>, w: int|
            #![trigger query_of(verify, shape, app_index, app, w)]
            query_of(verify, shape, app_index, app, w).end_ns == query_of(
                verify,
                shape,
                app_index,
                app,
                w + 1,
            ).start_ns,
{
    let span = verify.rows * verify.step_ns;
    let windows = verify.windows as int;
    assert((span * 0) / windows == 0 && (span * windows) / windows == span) by (nonlinear_arith)
        requires
            windows > 0,
    ;
}

// -------------------------------------------------------------------- timings
/// What the issues of one query came to.
pub struct Timing {
    pub cold_ns: u64,
    pub warm_ns: Vec<u64>,
    pub answer: Option<Answer>,
    pub warm_digests_agree: bool,
    pub status: u16,
    pub error: Option<String>,
}

impl Timing {
    /// The first issue of a query. `answer` is what a 200 was reduced to, or why it
    /// could not be; any other status comes with `error`.
    pub fn cold(
        elapsed_ns: u64,
        status: u16,
        answer: Option<Result<Answer, String>>,
        error: Option<String>,
    ) -> (timing: Self)
        requires
            status == 200 <==> answer is Some,
        ensures
            timing.cold_ns == elapsed_ns,
            timing.warm_ns@.len() == 0,
            timing.status == status,
            match answer {
                Some(Ok(answer)) => timing.answer == Some(answer) && timing.error == error
                    && timing.warm_digests_agree,
                Some(Err(reason)) => timing.answer is None && timing.error == Some(reason)
                    && !timing.warm_digests_agree,
                None => timing.answer is None && timing.error == error
                    && timing.warm_digests_agree,
            },
    {
        let (answer, error, warm_digests_agree) = match answer {
            Some(Ok(answer)) => (Some(answer), error, true),
            Some(Err(reason)) => (None, Some(reason), false),
            None => (None, error, true),
        };
        Timing {
            cold_ns: elapsed_ns,
            warm_ns: Vec::new(),
            answer,
            warm_digests_agree,
            status,
            error,
        }
    }

    /// What a repeat of a query changes: whether the answers agree.
    pub open spec fn agrees_after(self, status: u16, digest: Result<Seq<char>, Seq<char>>) -> bool {
        &&& self.warm_digests_agree
        &&& status == 200
        &&& match digest {
            Err(_) => false,
            Ok(digest) => self.answer is Some ==> self.answer->Some_0.digest@ == digest,
        }
    }

    /// The first error among those of the issues of a query.
    pub open spec fn error_after(
        self,
        status: u16,
        error: Option<Seq<char>>,
        digest: Result<Seq<char>, Seq<char>>,
    ) -> Option<Seq<char>> {
        if status != 200 {
            first_error(
                crate::checks::shown(self.error),
                Some(
                    match error {
                        Some(error) => error,
                        None => "warm repeat answered "@ + decimal(status as nat),
                    },
                ),
            )
        } else {
            match digest {
                Err(reason) => first_error(crate::checks::shown(self.error), Some(reason)),
                Ok(_) => crate::checks::shown(self.error),
            }
        }
    }

    /// A repeat of a query. A system that answers the same query over the same
    /// window in another way has something in it that is not deterministic, and
    /// that would be what is measured.
    pub fn warm(
        &mut self,
        elapsed_ns: u64,
        status: u16,
        error: Option<String>,
        digest: Result<String, String>,
    )
        ensures
            ({
                let read = match digest {
                    Ok(digest) => Ok::<Seq<char>, Seq<char>>(digest@),
                    Err(reason) => Err::<Seq<char>, Seq<char>>(reason@),
                };
                &&& final(self).warm_ns@ == old(self).warm_ns@.push(elapsed_ns)
                &&& final(self).cold_ns == old(self).cold_ns
                &&& final(self).answer == old(self).answer
                &&& final(self).status == old(self).status
                &&& final(self).warm_digests_agree == old(self).agrees_after(status, read)
                &&& crate::checks::shown(final(self).error) == old(self).error_after(
                    status,
                    crate::checks::shown(error),
                    read,
                )
            }),
    {
        self.warm_ns.push(elapsed_ns);
        if status != 200 {
            if self.error.is_none() {
                let message = match error {
                    Some(message) => message,
                    None => crate::text::with_number("warm repeat answered ", status as u64, ""),
                };
                proof {
                    reveal_strlit("");
                    assert("warm repeat answered "@ + decimal(status as nat) + ""@
                        =~= "warm repeat answered "@ + decimal(status as nat));
                }
                self.error = Some(message);
            }
            self.warm_digests_agree = false;
            return;
        }
        match digest {
            Err(reason) => {
                if self.error.is_none() {
                    self.error = Some(reason);
                }
                self.warm_digests_agree = false;
            },
            Ok(digest) => {
                if let Some(first) = &self.answer {
                    if !crate::text::same_text(first.digest.as_str(), digest.as_str()) {
                        self.warm_digests_agree = false;
                    }
                }
            },
        }
    }

    /// Whether the timings of a query count: it was answered, and no issue of it
    /// failed.
    pub open spec fn counts(self) -> bool {
        self.error is None && self.answer is Some
    }
}

/// What the queries of one shape came to.
pub struct ShapeTally {
    pub queries: u64,
    pub errors: u64,
    pub rows: u64,
    pub unstable: u64,
    pub cold: Series,
    pub warm: Series,
}

/// What the first `n` queries of a shape came to.
#[verifier::ext_equal]
pub struct TallyView {
    pub queries: nat,
    pub errors: nat,
    pub rows: nat,
    pub unstable: nat,
    pub cold: Seq<u64>,
    pub warm: Seq<u64>,
}

pub open spec fn tally_of(
    queries: Seq<Query>,
    timings: Seq<Timing>,
    shape: Shape,
    n: nat,
) -> TallyView
    decreases n,
{
    if n == 0 {
        TallyView {
            queries: 0,
            errors: 0,
            rows: 0,
            unstable: 0,
            cold: seq![],
            warm: seq![],
        }
    } else {
        let before = tally_of(queries, timings, shape, (n - 1) as nat);
        let timing = timings[n - 1];
        if queries[n - 1].shape != shape {
            before
        } else if !timing.counts() {
            TallyView { queries: before.queries + 1, errors: before.errors + 1, ..before }
        } else {
            TallyView {
                queries: before.queries + 1,
                errors: before.errors,
                rows: before.rows + timing.answer->Some_0.rows as nat,
                unstable: before.unstable + if timing.warm_digests_agree {
                    0nat
                } else {
                    1nat
                },
                cold: before.cold.push(timing.cold_ns),
                warm: before.warm + timing.warm_ns@,
            }
        }
    }
}

proof fn tally_grows(queries: Seq<Query>, timings: Seq<Timing>, shape: Shape, n: nat, m: nat)
    requires
        n <= m,
    ensures
        tally_of(queries, timings, shape, n).rows <= tally_of(queries, timings, shape, m).rows,
        tally_of(queries, timings, shape, n).queries <= n,
        tally_of(queries, timings, shape, n).errors <= n,
        tally_of(queries, timings, shape, n).unstable <= n,
    decreases m,
{
    if m > n {
        tally_grows(queries, timings, shape, n, (m - 1) as nat);
    } else if n > 0 {
        tally_grows(queries, timings, shape, (n - 1) as nat, (n - 1) as nat);
    }
}

/// Sums up the queries of a shape. Queries that failed are counted and their
/// timings are left out.
pub fn tally_shape(queries: &[Query], timings: &[Timing], shape: Shape) -> (out: ShapeTally)
    requires
        queries@.len() == timings@.len(),
        tally_of(queries@, timings@, shape, queries@.len()).rows <= u64::MAX,
    ensures
        (TallyView {
            queries: out.queries as nat,
            errors: out.errors as nat,
            rows: out.rows as nat,
            unstable: out.unstable as nat,
            cold: out.cold.samples@,
            warm: out.warm.samples@,
        }) == tally_of(queries@, timings@, shape, queries@.len()),
{
    let total: usize = queries.len();
    let mut out = ShapeTally {
        queries: 0,
        errors: 0,
        rows: 0,
        unstable: 0,
        cold: Series::new(),
        warm: Series::new(),
    };
    let mut i: usize = 0;
    while i < total
        invariant
            i <= total,
            total == queries@.len(),
            queries@.len() == timings@.len(),
            tally_of(queries@, timings@, shape, total as nat).rows <= u64::MAX,
            (TallyView {
                queries: out.queries as nat,
                errors: out.errors as nat,
                rows: out.rows as nat,
                unstable: out.unstable as nat,
                cold: out.cold.samples@,
                warm: out.warm.samples@,
            }) == tally_of(queries@, timings@, shape, i as nat),
        decreases total - i,
    {
        proof {
            tally_grows(queries@, timings@, shape, (i + 1) as nat, total as nat);
            tally_grows(queries@, timings@, shape, i as nat, total as nat);
        }
        let timing = &timings[i];
        if queries[i].shape == shape {
            out.queries = out.queries + 1;
            match &timing.answer {
                Some(answer) if timing.error.is_none() => {
                    out.rows = out.rows + answer.rows;
                    if !timing.warm_digests_agree {
                        out.unstable = out.unstable + 1;
                    }
                    out.cold.push(timing.cold_ns);
                    let warm = Series { samples: timing.warm_ns.clone() };
                    assert(warm.samples@ =~= timing.warm_ns@);
                    out.warm.extend(&warm);
                },
                _ => {
                    out.errors = out.errors + 1;
                },
            }
        }
        i = i + 1;
    }
    out
}

} // verus!
