//! What a load run came to: the tallies of its workers, and the verdict on them.

use vstd::prelude::*;
use vstd::string::*;

use crate::checks::shown;
use crate::load::queries::QueryShape;
use crate::load::stats::LatencyPair;
use crate::load::tally::{first_error, StatusCounts};
use crate::load::workload::PushBody;
use crate::text::{chars_of, decimal, push_decimal, subslice, text_of};

verus! {

/// The most that a count may be for another answer to be counted.
pub const MAX_COUNT: u64 = 0x7fff_ffff_ffff_ffff;

/// How much of the body of a refusal is kept, in characters.
pub const SHOWN_BODY_CHARS: usize = 200;

pub open spec fn shortened(body: Seq<char>) -> Seq<char> {
    if body.len() <= SHOWN_BODY_CHARS {
        body
    } else {
        body.take(SHOWN_BODY_CHARS as int)
    }
}

fn shorten(body: &str) -> (out: String)
    ensures
        out@ == shortened(body@),
{
    let chars = chars_of(body);
    if chars.len() <= SHOWN_BODY_CHARS {
        return text_of(chars.as_slice());
    }
    let kept = subslice(chars.as_slice(), 0, SHOWN_BODY_CHARS);
    assert(kept@ =~= body@.take(SHOWN_BODY_CHARS as int));
    text_of(kept.as_slice())
}

/// Whether a latency was noted between two states of a pair.
pub open spec fn recorded(
    before: LatencyPair,
    after: LatencyPair,
    queueing: u64,
    service: u64,
) -> bool {
    &&& after.wf()
    &&& after.queueing.samples@ == before.queueing.samples@.push(queueing)
    &&& after.service.samples@ == before.service.samples@.push(service)
}

/// Whether a pair holds what two held, one after the other.
pub open spec fn joined(first: LatencyPair, second: LatencyPair, both: LatencyPair) -> bool {
    &&& both.wf()
    &&& both.queueing.samples@ == first.queueing.samples@ + second.queueing.samples@
    &&& both.service.samples@ == first.service.samples@ + second.service.samples@
}

fn copy_error(error: &Option<String>) -> (copy: Option<String>)
    ensures
        shown(copy) == shown(*error),
{
    match error {
        Some(error) => Some(error.clone()),
        None => None,
    }
}

// --------------------------------------------------------------------- pushes
/// The numbers of a push workload.
#[derive(Clone, Copy, Debug, PartialEq, Eq, Structural)]
pub struct PushCounts {
    pub accepted: u64,
    pub throttled: u64,
    pub errors: u64,
    pub events_accepted: u64,
    pub events_offered: u64,
    pub wire_bytes: u64,
    pub line_bytes: u64,
    pub encoded_bytes: u64,
    pub out_of_order_entries: u64,
    pub max_lateness_ms: u64,
    pub streams_sent: u64,
    pub connects: u64,
}

impl PushCounts {
    /// Whether another push can be counted.
    pub open spec fn has_room(self) -> bool {
        &&& self.accepted <= MAX_COUNT
        &&& self.throttled <= MAX_COUNT
        &&& self.errors <= MAX_COUNT
        &&& self.events_accepted <= MAX_COUNT
        &&& self.events_offered <= MAX_COUNT
        &&& self.wire_bytes <= MAX_COUNT
        &&& self.line_bytes <= MAX_COUNT
        &&& self.encoded_bytes <= MAX_COUNT
        &&& self.out_of_order_entries <= MAX_COUNT
        &&& self.streams_sent <= MAX_COUNT
        &&& self.connects <= MAX_COUNT
    }

    /// With a push that was offered.
    pub open spec fn with_offer(self, push: PushBody) -> PushCounts {
        PushCounts {
            events_offered: (self.events_offered + push.entries) as u64,
            out_of_order_entries: (self.out_of_order_entries + push.out_of_order_entries) as u64,
            max_lateness_ms: if push.max_lateness_ms > self.max_lateness_ms {
                push.max_lateness_ms
            } else {
                self.max_lateness_ms
            },
            streams_sent: (self.streams_sent + push.streams) as u64,
            ..self
        }
    }

    /// With a push that was answered. What was refused for want of capacity is no
    /// error.
    pub open spec fn with_answer(self, push: PushBody, status: u16) -> PushCounts {
        if status == 204 {
            PushCounts {
                accepted: (self.accepted + 1) as u64,
                events_accepted: (self.events_accepted + push.entries) as u64,
                wire_bytes: (self.wire_bytes + push.bytes@.len()) as u64,
                line_bytes: (self.line_bytes + push.line_bytes) as u64,
                encoded_bytes: (self.encoded_bytes + push.encoded_bytes) as u64,
                ..self
            }
        } else if status == 429 {
            PushCounts { throttled: (self.throttled + 1) as u64, ..self }
        } else {
            PushCounts { errors: (self.errors + 1) as u64, ..self }
        }
    }

    pub open spec fn plus(self, other: PushCounts) -> PushCounts {
        PushCounts {
            accepted: (self.accepted + other.accepted) as u64,
            throttled: (self.throttled + other.throttled) as u64,
            errors: (self.errors + other.errors) as u64,
            events_accepted: (self.events_accepted + other.events_accepted) as u64,
            events_offered: (self.events_offered + other.events_offered) as u64,
            wire_bytes: (self.wire_bytes + other.wire_bytes) as u64,
            line_bytes: (self.line_bytes + other.line_bytes) as u64,
            encoded_bytes: (self.encoded_bytes + other.encoded_bytes) as u64,
            out_of_order_entries: (self.out_of_order_entries + other.out_of_order_entries) as u64,
            max_lateness_ms: if other.max_lateness_ms > self.max_lateness_ms {
                other.max_lateness_ms
            } else {
                self.max_lateness_ms
            },
            streams_sent: (self.streams_sent + other.streams_sent) as u64,
            connects: (self.connects + other.connects) as u64,
        }
    }

    /// How many pushes were answered or failed.
    pub open spec fn attempted(self) -> int {
        self.accepted + self.errors + self.throttled
    }
}

/// The error rate as a share: the pushes that failed, among those that the server
/// worked on. A push that was refused for want of capacity is neither.
pub fn error_share(counts: &PushCounts) -> (share: (u64, u64))
    requires
        counts.accepted + counts.errors <= u64::MAX,
    ensures
        share == (counts.errors, (counts.accepted + counts.errors) as u64),
{
    (counts.errors, counts.accepted + counts.errors)
}

/// The throttled rate as a share: the pushes that were refused for want of
/// capacity, among all.
pub fn throttled_share(counts: &PushCounts) -> (share: (u64, u64))
    requires
        counts.attempted() <= u64::MAX,
    ensures
        share == (counts.throttled, counts.attempted() as u64),
{
    (counts.throttled, counts.accepted + counts.errors + counts.throttled)
}

/// The streams of a push on average, as a share: the streams that were sent, among
/// all pushes.
pub fn streams_share(counts: &PushCounts) -> (share: (u64, u64))
    requires
        counts.attempted() <= u64::MAX,
    ensures
        share == (counts.streams_sent, counts.attempted() as u64),
{
    (counts.streams_sent, counts.accepted + counts.errors + counts.throttled)
}

/// Whether a push is of a size that can be counted.
pub open spec fn countable(push: PushBody) -> bool {
    &&& push.entries <= MAX_COUNT
    &&& push.bytes@.len() <= MAX_COUNT
    &&& push.line_bytes <= MAX_COUNT
    &&& push.encoded_bytes <= MAX_COUNT
    &&& push.out_of_order_entries <= MAX_COUNT
    &&& push.streams <= MAX_COUNT
}

/// What a push workload came to.
pub struct PushOutcome {
    pub steady: LatencyPair,
    pub warmup: LatencyPair,
    pub throttled_latency: LatencyPair,
    pub counts: PushCounts,
    pub statuses: StatusCounts,
    pub first_error: Option<String>,
}

impl PushOutcome {
    pub open spec fn wf(&self) -> bool {
        &&& self.steady.wf()
        &&& self.warmup.wf()
        &&& self.throttled_latency.wf()
        &&& self.statuses.wf()
    }

    pub fn new() -> (outcome: Self)
        ensures
            outcome.wf(),
            outcome.counts.has_room(),
            outcome.counts.attempted() == 0,
            outcome.counts.events_accepted == 0,
            outcome.counts.events_offered == 0,
            outcome.counts.wire_bytes == 0,
            outcome.counts.line_bytes == 0,
            outcome.counts.encoded_bytes == 0,
            outcome.counts.out_of_order_entries == 0,
            outcome.counts.max_lateness_ms == 0,
            outcome.counts.streams_sent == 0,
            outcome.counts.connects == 0,
            outcome.steady.service.samples@.len() == 0,
            outcome.warmup.service.samples@.len() == 0,
            outcome.throttled_latency.service.samples@.len() == 0,
            outcome.statuses.counts@ == Seq::<(u16, u64)>::empty(),
            forall|status: u16| #[trigger] outcome.statuses.of(status) == 0,
            outcome.first_error is None,
    {
        PushOutcome {
            steady: LatencyPair::new(),
            warmup: LatencyPair::new(),
            throttled_latency: LatencyPair::new(),
            counts: PushCounts {
                accepted: 0,
                throttled: 0,
                errors: 0,
                events_accepted: 0,
                events_offered: 0,
                wire_bytes: 0,
                line_bytes: 0,
                encoded_bytes: 0,
                out_of_order_entries: 0,
                max_lateness_ms: 0,
                streams_sent: 0,
                connects: 0,
            },
            statuses: StatusCounts::new(),
            first_error: None,
        }
    }

    /// A push is about to go out.
    pub fn offer(&mut self, push: &PushBody)
        requires
            old(self).wf(),
            old(self).counts.has_room(),
            countable(*push),
        ensures
            final(self).wf(),
            final(self).counts == old(self).counts.with_offer(*push),
            final(self).steady == old(self).steady,
            final(self).warmup == old(self).warmup,
            final(self).throttled_latency == old(self).throttled_latency,
            final(self).statuses == old(self).statuses,
            final(self).first_error == old(self).first_error,
    {
        self.counts.events_offered = self.counts.events_offered + push.entries as u64;
        self.counts.out_of_order_entries = self.counts.out_of_order_entries
            + push.out_of_order_entries as u64;
        if push.max_lateness_ms > self.counts.max_lateness_ms {
            self.counts.max_lateness_ms = push.max_lateness_ms;
        }
        self.counts.streams_sent = self.counts.streams_sent + push.streams as u64;
    }

    /// A push was answered: how late it went out, how long the answer took, and
    /// whether it was meant to go out once the run had warmed up. Latencies of
    /// refusals stand apart, since a refusal is not the work.
    pub fn answered(
        &mut self,
        push: &PushBody,
        status: u16,
        queueing: u64,
        service: u64,
        steady: bool,
        body: &str,
    )
        requires
            old(self).wf(),
            old(self).counts.has_room(),
            old(self).statuses.of(status) < u64::MAX,
            countable(*push),
            queueing + service <= u64::MAX,
        ensures
            final(self).wf(),
            final(self).counts == old(self).counts.with_answer(*push, status),
            forall|other: u16|
                #[trigger] final(self).statuses.of(other) == if other == status {
                    old(self).statuses.of(other) + 1
                } else {
                    old(self).statuses.of(other) as int
                },
            if status == 204 && steady {
                recorded(old(self).steady, final(self).steady, queueing, service)
            } else {
                final(self).steady == old(self).steady
            },
            if status == 204 && !steady {
                recorded(old(self).warmup, final(self).warmup, queueing, service)
            } else {
                final(self).warmup == old(self).warmup
            },
            if status == 429 && steady {
                recorded(
                    old(self).throttled_latency,
                    final(self).throttled_latency,
                    queueing,
                    service,
                )
            } else {
                final(self).throttled_latency == old(self).throttled_latency
            },
            shown(final(self).first_error) == if status == 204 || status == 429 {
                shown(old(self).first_error)
            } else {
                first_error(
                    shown(old(self).first_error),
                    Some(decimal(status as nat) + ": "@ + shortened(body@)),
                )
            },
    {
        self.statuses.add(status, 1);
        if status == 204 {
            if steady {
                self.steady.record(queueing, service);
            } else {
                self.warmup.record(queueing, service);
            }
            self.counts.accepted = self.counts.accepted + 1;
            self.counts.events_accepted = self.counts.events_accepted + push.entries as u64;
            self.counts.wire_bytes = self.counts.wire_bytes + push.bytes.len() as u64;
            self.counts.line_bytes = self.counts.line_bytes + push.line_bytes as u64;
            self.counts.encoded_bytes = self.counts.encoded_bytes + push.encoded_bytes as u64;
        } else if status == 429 {
            self.counts.throttled = self.counts.throttled + 1;
            if steady {
                self.throttled_latency.record(queueing, service);
            }
        } else {
            self.counts.errors = self.counts.errors + 1;
            if self.first_error.is_none() {
                let mut message = String::new();
                push_decimal(&mut message, status as u64);
                message.append(": ");
                message.append(shorten(body).as_str());
                assert(message@ =~= decimal(status as nat) + ": "@ + shortened(body@));
                self.first_error = Some(message);
            }
        }
    }

    /// A push was not answered at all.
    pub fn failed(&mut self, error: String)
        requires
            old(self).wf(),
            old(self).counts.has_room(),
        ensures
            final(self).wf(),
            final(self).counts == (PushCounts {
                errors: (old(self).counts.errors + 1) as u64,
                ..old(self).counts
            }),
            shown(final(self).first_error) == first_error(
                shown(old(self).first_error),
                Some(error@),
            ),
            final(self).steady == old(self).steady,
            final(self).warmup == old(self).warmup,
            final(self).throttled_latency == old(self).throttled_latency,
            final(self).statuses == old(self).statuses,
    {
        self.counts.errors = self.counts.errors + 1;
        if self.first_error.is_none() {
            self.first_error = Some(error);
        }
    }

    /// Adds what another worker came to. The first error of the two is kept.
    pub fn merge(&mut self, other: &PushOutcome)
        requires
            old(self).wf(),
            other.wf(),
            old(self).counts.has_room(),
            other.counts.has_room(),
            forall|status: u16|
                #[trigger] old(self).statuses.of(status) + other.statuses.of(status) <= u64::MAX,
        ensures
            final(self).wf(),
            final(self).counts == old(self).counts.plus(other.counts),
            forall|status: u16|
                #[trigger] final(self).statuses.of(status) == old(self).statuses.of(status)
                    + other.statuses.of(status),
            joined(old(self).steady, other.steady, final(self).steady),
            joined(old(self).warmup, other.warmup, final(self).warmup),
            joined(
                old(self).throttled_latency,
                other.throttled_latency,
                final(self).throttled_latency,
            ),
            shown(final(self).first_error) == first_error(
                shown(old(self).first_error),
                shown(other.first_error),
            ),
    {
        self.steady.extend(&other.steady);
        self.warmup.extend(&other.warmup);
        self.throttled_latency.extend(&other.throttled_latency);
        let ours = self.counts;
        let theirs = other.counts;
        self.counts = PushCounts {
            accepted: ours.accepted + theirs.accepted,
            throttled: ours.throttled + theirs.throttled,
            errors: ours.errors + theirs.errors,
            events_accepted: ours.events_accepted + theirs.events_accepted,
            events_offered: ours.events_offered + theirs.events_offered,
            wire_bytes: ours.wire_bytes + theirs.wire_bytes,
            line_bytes: ours.line_bytes + theirs.line_bytes,
            encoded_bytes: ours.encoded_bytes + theirs.encoded_bytes,
            out_of_order_entries: ours.out_of_order_entries + theirs.out_of_order_entries,
            max_lateness_ms: if theirs.max_lateness_ms > ours.max_lateness_ms {
                theirs.max_lateness_ms
            } else {
                ours.max_lateness_ms
            },
            streams_sent: ours.streams_sent + theirs.streams_sent,
            connects: ours.connects + theirs.connects,
        };
        self.statuses.merge(&other.statuses);
        if self.first_error.is_none() {
            self.first_error = copy_error(&other.first_error);
        }
    }
}

// -------------------------------------------------------------------- queries
/// The numbers of a query workload.
#[derive(Clone, Copy, Debug, PartialEq, Eq, Structural)]
pub struct QueryCounts {
    pub answered: u64,
    pub errors: u64,
    pub throttled: u64,
    pub restore_probes: u64,
    pub restore_rows: u64,
    pub restore_probes_with_rows: u64,
    pub rows_returned: u64,
    pub connects: u64,
}

impl QueryCounts {
    pub open spec fn has_room(self) -> bool {
        &&& self.answered <= MAX_COUNT
        &&& self.errors <= MAX_COUNT
        &&& self.throttled <= MAX_COUNT
        &&& self.restore_probes <= MAX_COUNT
        &&& self.restore_rows <= MAX_COUNT
        &&& self.restore_probes_with_rows <= MAX_COUNT
        &&& self.rows_returned <= MAX_COUNT
        &&& self.connects <= MAX_COUNT
    }

    /// With a query that was answered, and the rows of the answer.
    pub open spec fn with_answer(self, shape: QueryShape, status: u16, rows: u64) -> QueryCounts {
        if status == 200 {
            let counted = QueryCounts {
                answered: (self.answered + 1) as u64,
                rows_returned: (self.rows_returned + rows) as u64,
                ..self
            };
            if shape == QueryShape::RestoreProbe {
                QueryCounts {
                    restore_probes: (self.restore_probes + 1) as u64,
                    restore_rows: (self.restore_rows + rows) as u64,
                    restore_probes_with_rows: if rows > 0 {
                        (self.restore_probes_with_rows + 1) as u64
                    } else {
                        self.restore_probes_with_rows
                    },
                    ..counted
                }
            } else {
                counted
            }
        } else if status == 429 {
            QueryCounts { throttled: (self.throttled + 1) as u64, ..self }
        } else {
            QueryCounts { errors: (self.errors + 1) as u64, ..self }
        }
    }

    pub open spec fn plus(self, other: QueryCounts) -> QueryCounts {
        QueryCounts {
            answered: (self.answered + other.answered) as u64,
            errors: (self.errors + other.errors) as u64,
            throttled: (self.throttled + other.throttled) as u64,
            restore_probes: (self.restore_probes + other.restore_probes) as u64,
            restore_rows: (self.restore_rows + other.restore_rows) as u64,
            restore_probes_with_rows: (self.restore_probes_with_rows
                + other.restore_probes_with_rows) as u64,
            rows_returned: (self.rows_returned + other.rows_returned) as u64,
            connects: (self.connects + other.connects) as u64,
        }
    }
}

/// Where a shape stands among the shapes.
pub open spec fn place_of(shape: QueryShape) -> int {
    match shape {
        QueryShape::LabelOnly => 0,
        QueryShape::LineFilter => 1,
        QueryShape::JsonField => 2,
        QueryShape::Rate => 3,
        QueryShape::RestoreProbe => 4,
    }
}

fn place(shape: QueryShape) -> (at: usize)
    ensures
        at == place_of(shape),
        at < 5,
{
    match shape {
        QueryShape::LabelOnly => 0,
        QueryShape::LineFilter => 1,
        QueryShape::JsonField => 2,
        QueryShape::Rate => 3,
        QueryShape::RestoreProbe => 4,
    }
}

/// What a query workload came to. The latencies and the number of queries of a
/// shape stand at its place among the shapes.
pub struct QueryOutcome {
    pub steady: LatencyPair,
    pub per_shape: Vec<LatencyPair>,
    pub issued: Vec<u64>,
    pub counts: QueryCounts,
    pub statuses: StatusCounts,
    pub first_error: Option<String>,
}

/// Why a query with a status that is neither success nor refusal failed.
pub open spec fn query_error(status: u16, expression: Seq<char>, body: Seq<char>) -> Seq<char> {
    decimal(status as nat) + " on "@ + expression + ": "@ + shortened(body)
}

impl QueryOutcome {
    pub open spec fn wf(&self) -> bool {
        &&& self.steady.wf()
        &&& self.per_shape@.len() == 5
        &&& forall|i: int| 0 <= i < 5 ==> (#[trigger] self.per_shape@[i]).wf()
        &&& self.issued@.len() == 5
        &&& self.statuses.wf()
    }

    pub fn new() -> (outcome: Self)
        ensures
            outcome.wf(),
            outcome.counts == (QueryCounts {
                answered: 0,
                errors: 0,
                throttled: 0,
                restore_probes: 0,
                restore_rows: 0,
                restore_probes_with_rows: 0,
                rows_returned: 0,
                connects: 0,
            }),
            outcome.issued@ == seq![0u64, 0u64, 0u64, 0u64, 0u64],
            outcome.steady.service.samples@.len() == 0,
            forall|i: int|
                0 <= i < 5 ==> (#[trigger] outcome.per_shape@[i]).service.samples@.len() == 0,
            outcome.statuses.counts@ == Seq::<(u16, u64)>::empty(),
            forall|status: u16| #[trigger] outcome.statuses.of(status) == 0,
            outcome.first_error is None,
    {
        let mut per_shape: Vec<LatencyPair> = Vec::new();
        let mut issued: Vec<u64> = Vec::new();
        let mut i: usize = 0;
        while i < 5
            invariant
                i <= 5,
                per_shape@.len() == i,
                issued@.len() == i,
                forall|j: int|
                    0 <= j < i ==> (#[trigger] per_shape@[j]).wf()
                        && per_shape@[j].service.samples@.len() == 0,
                forall|j: int| 0 <= j < i ==> #[trigger] issued@[j] == 0,
            decreases 5 - i,
        {
            per_shape.push(LatencyPair::new());
            issued.push(0);
            i = i + 1;
        }
        assert(issued@ =~= seq![0u64, 0u64, 0u64, 0u64, 0u64]);
        QueryOutcome {
            steady: LatencyPair::new(),
            per_shape,
            issued,
            counts: QueryCounts {
                answered: 0,
                errors: 0,
                throttled: 0,
                restore_probes: 0,
                restore_rows: 0,
                restore_probes_with_rows: 0,
                rows_returned: 0,
                connects: 0,
            },
            statuses: StatusCounts::new(),
            first_error: None,
        }
    }

    /// A query is about to go out.
    pub fn issue(&mut self, shape: QueryShape)
        requires
            old(self).wf(),
            old(self).issued@[place_of(shape)] < u64::MAX,
        ensures
            final(self).wf(),
            final(self).issued@ == old(self).issued@.update(
                place_of(shape),
                (old(self).issued@[place_of(shape)] + 1) as u64,
            ),
            final(self).per_shape == old(self).per_shape,
            final(self).steady == old(self).steady,
            final(self).counts == old(self).counts,
            final(self).statuses == old(self).statuses,
            final(self).first_error == old(self).first_error,
    {
        let at: usize = place(shape);
        let n: u64 = self.issued[at] + 1;
        self.issued.set(at, n);
    }

    /// A query was answered: with how many rows, if it was answered in full.
    pub fn answered(
        &mut self,
        shape: QueryShape,
        expression: &str,
        status: u16,
        rows: u64,
        queueing: u64,
        service: u64,
        steady: bool,
        body: &str,
    )
        requires
            old(self).wf(),
            old(self).counts.has_room(),
            old(self).statuses.of(status) < u64::MAX,
            rows <= MAX_COUNT,
            queueing + service <= u64::MAX,
        ensures
            final(self).wf(),
            final(self).counts == old(self).counts.with_answer(shape, status, rows),
            forall|other: u16|
                #[trigger] final(self).statuses.of(other) == if other == status {
                    old(self).statuses.of(other) + 1
                } else {
                    old(self).statuses.of(other) as int
                },
            if status == 200 && steady {
                &&& recorded(old(self).steady, final(self).steady, queueing, service)
                &&& recorded(
                    old(self).per_shape@[place_of(shape)],
                    final(self).per_shape@[place_of(shape)],
                    queueing,
                    service,
                )
                &&& forall|i: int|
                    0 <= i < 5 && i != place_of(shape) ==> #[trigger] final(self).per_shape@[i]
                        == old(self).per_shape@[i]
            } else {
                &&& final(self).steady == old(self).steady
                &&& final(self).per_shape == old(self).per_shape
            },
            final(self).issued == old(self).issued,
            shown(final(self).first_error) == if status == 200 || status == 429 {
                shown(old(self).first_error)
            } else {
                first_error(
                    shown(old(self).first_error),
                    Some(query_error(status, expression@, body@)),
                )
            },
    {
        self.statuses.add(status, 1);
        if status == 200 {
            self.counts.answered = self.counts.answered + 1;
            self.counts.rows_returned = self.counts.rows_returned + rows;
            if shape == QueryShape::RestoreProbe {
                self.counts.restore_probes = self.counts.restore_probes + 1;
                self.counts.restore_rows = self.counts.restore_rows + rows;
                if rows > 0 {
                    self.counts.restore_probes_with_rows = self.counts.restore_probes_with_rows + 1;
                }
            }
            if steady {
                self.steady.record(queueing, service);
                self.per_shape[place(shape)].record(queueing, service);
            }
        } else if status == 429 {
            self.counts.throttled = self.counts.throttled + 1;
        } else {
            self.counts.errors = self.counts.errors + 1;
            if self.first_error.is_none() {
                let mut message = String::new();
                push_decimal(&mut message, status as u64);
                message.append(" on ");
                message.append(expression);
                message.append(": ");
                message.append(shorten(body).as_str());
                assert(message@ =~= query_error(status, expression@, body@));
                self.first_error = Some(message);
            }
        }
    }

    /// A query was not answered at all.
    pub fn failed(&mut self, error: String)
        requires
            old(self).wf(),
            old(self).counts.has_room(),
        ensures
            final(self).wf(),
            final(self).counts == (QueryCounts {
                errors: (old(self).counts.errors + 1) as u64,
                ..old(self).counts
            }),
            shown(final(self).first_error) == first_error(
                shown(old(self).first_error),
                Some(error@),
            ),
            final(self).steady == old(self).steady,
            final(self).per_shape == old(self).per_shape,
            final(self).issued == old(self).issued,
            final(self).statuses == old(self).statuses,
    {
        self.counts.errors = self.counts.errors + 1;
        if self.first_error.is_none() {
            self.first_error = Some(error);
        }
    }

    /// Adds what another worker came to. The first error of the two is kept.
    pub fn merge(&mut self, other: &QueryOutcome)
        requires
            old(self).wf(),
            other.wf(),
            old(self).counts.has_room(),
            other.counts.has_room(),
            forall|i: int|
                0 <= i < 5 ==> #[trigger] old(self).issued@[i] + other.issued@[i] <= u64::MAX,
            forall|status: u16|
                #[trigger] old(self).statuses.of(status) + other.statuses.of(status) <= u64::MAX,
        ensures
            final(self).wf(),
            final(self).counts == old(self).counts.plus(other.counts),
            forall|status: u16|
                #[trigger] final(self).statuses.of(status) == old(self).statuses.of(status)
                    + other.statuses.of(status),
            joined(old(self).steady, other.steady, final(self).steady),
            forall|i: int|
                #![trigger final(self).per_shape@[i]]
                0 <= i < 5 ==> joined(
                    old(self).per_shape@[i],
                    other.per_shape@[i],
                    final(self).per_shape@[i],
                ),
            forall|i: int|
                0 <= i < 5 ==> #[trigger] final(self).issued@[i] == old(self).issued@[i]
                    + other.issued@[i],
            shown(final(self).first_error) == first_error(
                shown(old(self).first_error),
                shown(other.first_error),
            ),
    {
        self.steady.extend(&other.steady);
        let mut at: usize = 0;
        while at < 5
            invariant
                at <= 5,
                self.wf(),
                old(self).wf(),
                other.wf(),
                self.counts == old(self).counts,
                self.statuses == old(self).statuses,
                self.first_error == old(self).first_error,
                joined(old(self).steady, other.steady, self.steady),
                forall|i: int|
                    0 <= i < 5 ==> #[trigger] old(self).issued@[i] + other.issued@[i] <= u64::MAX,
                forall|i: int|
                    #![trigger self.per_shape@[i]]
                    0 <= i < at ==> joined(
                        old(self).per_shape@[i],
                        other.per_shape@[i],
                        self.per_shape@[i],
                    ),
                forall|i: int|
                    at <= i < 5 ==> #[trigger] self.per_shape@[i] == old(self).per_shape@[i],
                forall|i: int|
                    0 <= i < at ==> #[trigger] self.issued@[i] == old(self).issued@[i]
                        + other.issued@[i],
                forall|i: int| at <= i < 5 ==> #[trigger] self.issued@[i] == old(self).issued@[i],
            decreases 5 - at,
        {
            self.per_shape[at].extend(&other.per_shape[at]);
            assert(old(self).issued@[at as int] + other.issued@[at as int] <= u64::MAX);
            let n: u64 = self.issued[at] + other.issued[at];
            self.issued.set(at, n);
            at = at + 1;
        }
        let ours = self.counts;
        let theirs = other.counts;
        self.counts = QueryCounts {
            answered: ours.answered + theirs.answered,
            errors: ours.errors + theirs.errors,
            throttled: ours.throttled + theirs.throttled,
            restore_probes: ours.restore_probes + theirs.restore_probes,
            restore_rows: ours.restore_rows + theirs.restore_rows,
            restore_probes_with_rows: ours.restore_probes_with_rows
                + theirs.restore_probes_with_rows,
            rows_returned: ours.rows_returned + theirs.rows_returned,
            connects: ours.connects + theirs.connects,
        };
        self.statuses.merge(&other.statuses);
        if self.first_error.is_none() {
            self.first_error = copy_error(&other.first_error);
        }
    }
}

} // verus!
