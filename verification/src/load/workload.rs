//! What a load run sends: pushes drawn out of a corpus, and the queries that read
//! them back.

use vstd::prelude::*;
use vstd::string::*;

use crate::corpus::Corpus;
use crate::ingest::byte_len;
use crate::model::{
    copy_pairs, entries_view, first_index, first_index_is, EntryView, Labels, LogEntry,
};
use crate::rng::{advance, nth, nth_below, seeded, Rng};
use crate::snappy::{compressed, decompressed, fits_snappy, snappy_compress};
use crate::tenant::TenantId;

verus! {

// -------------------------------------------------------------------- streams
/// The tenant that a stream belongs to, by its place among the tenants.
pub open spec fn home(corpus: Corpus, stream: int) -> int {
    let names = corpus.tenant_ids@.map_values(|tenant: TenantId| tenant@);
    let at = first_index(names, corpus.streams@[stream].tenant@);
    if at < names.len() {
        at
    } else {
        0
    }
}

/// The streams of a tenant among the first `n`, in order.
pub open spec fn streams_of(corpus: Corpus, tenant: int, n: nat) -> Seq<usize>
    decreases n,
{
    if n == 0 {
        seq![]
    } else {
        let before = streams_of(corpus, tenant, (n - 1) as nat);
        if home(corpus, n - 1) == tenant {
            before.push((n - 1) as usize)
        } else {
            before
        }
    }
}

/// How many tenants there are to draw from.
pub open spec fn tenant_count(corpus: Corpus) -> nat {
    if corpus.tenant_ids@.len() == 0 {
        1
    } else {
        corpus.tenant_ids@.len()
    }
}

proof fn streams_of_are_streams(corpus: Corpus, tenant: int, n: nat)
    requires
        n <= usize::MAX,
    ensures
        streams_of(corpus, tenant, n).len() <= n,
        forall|i: int|
            0 <= i < streams_of(corpus, tenant, n).len() ==> {
                &&& (#[trigger] streams_of(corpus, tenant, n)[i]) < n
                &&& home(corpus, streams_of(corpus, tenant, n)[i] as int) == tenant
            },
    decreases n,
{
    if n > 0 {
        streams_of_are_streams(corpus, tenant, (n - 1) as nat);
        let before = streams_of(corpus, tenant, (n - 1) as nat);
        let all = streams_of(corpus, tenant, n);
        assert forall|i: int| 0 <= i < all.len() implies {
            &&& (#[trigger] all[i]) < n
            &&& home(corpus, all[i] as int) == tenant
        } by {
            if i < before.len() {
                assert(all[i] == before[i]);
            }
        }
    }
}

// -------------------------------------------------------------------- arrival
/// How entries arrive.
#[derive(Clone, Copy, Debug, PartialEq, Eq, Structural)]
pub struct ArrivalOrder {
    /// Milliseconds by which every entry may be early in its batch, which is what
    /// makes a batch unsorted.
    pub spread_ms: u64,
    /// The fraction of entries that come late on top of that, in units of
    /// `2^-53`.
    pub late_units: u64,
    pub late_max_ms: u64,
}

impl ArrivalOrder {
    /// Whether every instant that can be drawn fits a timestamp.
    pub open spec fn fits(self, now_ns: i64) -> bool {
        &&& self.spread_ms < usize::MAX
        &&& self.late_max_ms < usize::MAX
        &&& (self.spread_ms + self.late_max_ms) * 1_000_000 <= i64::MAX
        &&& now_ns - (self.spread_ms + self.late_max_ms) * 1_000_000 >= i64::MIN
    }

    /// How late an entry is, drawn from a state, and the state then.
    pub open spec fn lateness(self, state: u64) -> (int, u64) {
        let spread = nth_below(state, 0, (self.spread_ms + 1) as nat);
        let s1 = advance(state);
        if self.late_units == 0 {
            (spread, s1)
        } else {
            let s2 = advance(s1);
            if (nth(s1, 0) >> 11) < self.late_units {
                (spread + nth_below(s2, 0, (self.late_max_ms + 1) as nat), advance(s2))
            } else {
                (spread, s2)
            }
        }
    }
}

pub proof fn lateness_bounds(arrival: ArrivalOrder, state: u64)
    ensures
        0 <= arrival.lateness(state).0 <= arrival.spread_ms + arrival.late_max_ms,
{
    let s2 = advance(advance(state));
    assert(0 <= nth_below(state, 0, (arrival.spread_ms + 1) as nat) <= arrival.spread_ms);
    assert(0 <= nth_below(s2, 0, (arrival.late_max_ms + 1) as nat) <= arrival.late_max_ms);
}

// -------------------------------------------------------------------- drawing
/// What has been drawn so far.
#[verifier::ext_equal]
pub struct Drawn {
    /// The state of the generator of numbers.
    pub state: u64,
    /// The next entry of each stream.
    pub cursors: Seq<usize>,
    /// The streams of the push that are complete.
    pub batch: Seq<(Seq<(Seq<char>, Seq<char>)>, Seq<EntryView>)>,
    /// The entries of the stream that is being drawn.
    pub current: Seq<EntryView>,
    pub previous: int,
    pub out_of_order: nat,
    pub max_lateness_ms: int,
    pub line_bytes: nat,
}

impl Drawn {
    /// One more entry of a stream: its next one, and after the last the first,
    /// late by what is drawn.
    pub open spec fn with_entry(
        self,
        index: int,
        stream: Seq<EntryView>,
        arrival: ArrivalOrder,
        now_ns: int,
    ) -> Drawn {
        let cursor = self.cursors[index] as int % stream.len() as int;
        let (late, state) = arrival.lateness(self.state);
        let timestamp_ns = now_ns - late * 1_000_000;
        Drawn {
            state,
            cursors: self.cursors.update(index, (cursor + 1) as usize),
            batch: self.batch,
            current: self.current.push(EntryView { timestamp_ns, ..stream[cursor] }),
            previous: timestamp_ns,
            out_of_order: if timestamp_ns < self.previous {
                self.out_of_order + 1
            } else {
                self.out_of_order
            },
            max_lateness_ms: if late > self.max_lateness_ms {
                late
            } else {
                self.max_lateness_ms
            },
            line_bytes: self.line_bytes + byte_len(stream[cursor].line),
        }
    }

    /// `k` more entries of a stream.
    pub open spec fn with_entries(
        self,
        index: int,
        stream: Seq<EntryView>,
        arrival: ArrivalOrder,
        now_ns: int,
        k: nat,
    ) -> Drawn
        decreases k,
    {
        if k == 0 {
            self
        } else {
            self.with_entries(index, stream, arrival, now_ns, (k - 1) as nat).with_entry(
                index,
                stream,
                arrival,
                now_ns,
            )
        }
    }

    /// A whole stream of the push: `share` entries of it. A stream without entries
    /// adds nothing.
    pub open spec fn with_stream(
        self,
        index: int,
        labels: Seq<(Seq<char>, Seq<char>)>,
        stream: Seq<EntryView>,
        arrival: ArrivalOrder,
        now_ns: int,
        share: nat,
    ) -> Drawn {
        if share == 0 || stream.len() == 0 {
            self
        } else {
            let fresh = Drawn { current: seq![], previous: i64::MIN as int, ..self };
            let drawn = fresh.with_entries(index, stream, arrival, now_ns, share);
            Drawn {
                batch: drawn.batch.push((labels, drawn.current)),
                current: seq![],
                previous: i64::MIN as int,
                ..drawn
            }
        }
    }
}

/// How many of the entries of a push the stream at a position gets.
pub open spec fn share_of(entries: nat, streams: nat, position: int) -> nat {
    entries / streams + if position < entries % streams {
        1nat
    } else {
        0nat
    }
}

pub open spec fn shares(entries: nat, streams: nat, n: nat) -> nat
    decreases n,
{
    if n == 0 {
        0
    } else {
        shares(entries, streams, (n - 1) as nat) + share_of(entries, streams, n - 1)
    }
}

proof fn shares_so_far(entries: nat, streams: nat, n: nat)
    requires
        streams > 0,
        n <= streams,
    ensures
        shares(entries, streams, n) == n * (entries / streams) + if n < entries % streams {
            n
        } else {
            entries % streams
        },
    decreases n,
{
    if n > 0 {
        shares_so_far(entries, streams, (n - 1) as nat);
        let q = entries / streams;
        assert(n * q == (n - 1) as nat * q + q) by (nonlinear_arith)
            requires
                n > 0,
        ;
        assert(shares(entries, streams, n) == shares(entries, streams, (n - 1) as nat) + share_of(
            entries,
            streams,
            n - 1,
        ));
    } else {
        assert(n * (entries / streams) == 0) by (nonlinear_arith)
            requires
                n == 0,
        ;
    }
}

/// The streams of a push share its entries without a rest.
pub proof fn shares_add_up(entries: nat, streams: nat)
    requires
        streams > 0,
    ensures
        shares(entries, streams, streams) == entries,
{
    shares_so_far(entries, streams, streams);
    assert(entries == streams * (entries / streams) + entries % streams) by (nonlinear_arith)
        requires
            streams > 0,
    ;
}

proof fn shares_bounded(entries: nat, streams: nat, n: nat)
    requires
        streams > 0,
        n <= streams,
    ensures
        shares(entries, streams, n) <= entries,
    decreases streams - n,
{
    if n < streams {
        shares_bounded(entries, streams, n + 1);
    } else {
        shares_add_up(entries, streams);
    }
}

// --------------------------------------------------------------------- pushes
/// One push before it is encoded.
pub struct PushBatch {
    pub tenant: String,
    pub batch: Vec<(Labels, Vec<LogEntry>)>,
    pub line_bytes: usize,
    pub out_of_order_entries: usize,
    pub max_lateness_ms: u64,
}

/// One push, ready for the wire.
pub struct PushBody {
    pub bytes: Vec<u8>,
    pub tenant: String,
    pub entries: usize,
    pub line_bytes: usize,
    pub encoded_bytes: usize,
    pub streams: usize,
    pub out_of_order_entries: usize,
    pub max_lateness_ms: u64,
}

/// Draws pushes out of a corpus.
pub struct PushGenerator<'a> {
    pub corpus: &'a Corpus,
    pub rng: Rng,
    pub streams_by_tenant: Vec<Vec<usize>>,
    pub cursors: Vec<usize>,
    pub entries_per_push: usize,
    pub streams_per_push: usize,
    pub arrival: ArrivalOrder,
}

/// Running numbers of a push.
struct Tally {
    out_of_order: usize,
    max_lateness_ms: u64,
    line_bytes: usize,
}

/// Whether pushes of so many entries can be drawn from a corpus: every tenant has
/// a stream, and the lines of a push fit in memory.
pub open spec fn drawable(corpus: Corpus, entries_per_push: usize) -> bool {
    &&& corpus.tenant_ids@.len() > 0
    &&& forall|t: int|
        0 <= t < corpus.tenant_ids@.len() ==> (#[trigger] streams_of(
            corpus,
            t,
            corpus.streams@.len(),
        )).len() > 0
    &&& forall|s: int, i: int|
        0 <= s < corpus.streams@.len() && 0 <= i < corpus.streams@[s].entries@.len() ==> byte_len(
            (#[trigger] corpus.streams@[s].entries@[i]).line@,
        ) * entries_per_push <= usize::MAX
}

/// How many streams a push has.
pub open spec fn push_streams(streams_per_push: nat, candidates: nat) -> nat {
    if streams_per_push == 0 {
        1
    } else if streams_per_push < candidates {
        streams_per_push
    } else {
        candidates
    }
}

impl<'a> PushGenerator<'a> {
    pub open spec fn wf(&self) -> bool {
        &&& drawable(*self.corpus, self.entries_per_push)
        &&& self.cursors@.len() == self.corpus.streams@.len()
        &&& self.streams_by_tenant@.len() == self.corpus.tenant_ids@.len()
        &&& forall|t: int|
            0 <= t < self.streams_by_tenant@.len() ==> (#[trigger] self.streams_by_tenant@[t])@
                == streams_of(*self.corpus, t, self.corpus.streams@.len())
    }

    /// Where a push begins.
    pub open spec fn start(&self, state: u64) -> Drawn {
        Drawn {
            state,
            cursors: self.cursors@,
            batch: seq![],
            current: seq![],
            previous: i64::MIN as int,
            out_of_order: 0,
            max_lateness_ms: 0,
            line_bytes: 0,
        }
    }

    /// The first `n` streams of a push of a tenant.
    pub open spec fn drawn_streams(
        &self,
        start: Drawn,
        tenant: int,
        first: int,
        now_ns: int,
        n: nat,
    ) -> Drawn
        decreases n,
    {
        if n == 0 {
            start
        } else {
            let candidates = streams_of(*self.corpus, tenant, self.corpus.streams@.len());
            let count = push_streams(self.streams_per_push as nat, candidates.len());
            let index = candidates[(first + n - 1) % candidates.len() as int] as int;
            let stream = self.corpus.streams@[index];
            self.drawn_streams(start, tenant, first, now_ns, (n - 1) as nat).with_stream(
                index,
                stream.labels@,
                entries_view(stream.entries@),
                self.arrival,
                now_ns,
                share_of(self.entries_per_push as nat, count, n - 1),
            )
        }
    }

    /// The tenant whose push is drawn next.
    pub open spec fn next_tenant(&self) -> int {
        nth_below(self.rng.state(), 0, self.corpus.tenant_ids@.len())
    }

    /// The push that is drawn next: first its tenant, then the first of its
    /// streams, which the others follow, then the entries of each.
    pub open spec fn next_push(&self, now_ns: int) -> Drawn {
        let tenant = self.next_tenant();
        let candidates = streams_of(*self.corpus, tenant, self.corpus.streams@.len());
        let s1 = advance(self.rng.state());
        let first = nth_below(s1, 0, candidates.len());
        let count = push_streams(self.streams_per_push as nat, candidates.len());
        self.drawn_streams(self.start(advance(s1)), tenant, first, now_ns, count)
    }

    pub fn new(
        corpus: &'a Corpus,
        seed: u64,
        entries_per_push: usize,
        streams_per_push: usize,
        arrival: ArrivalOrder,
    ) -> (generator: Self)
        requires
            drawable(*corpus, entries_per_push),
        ensures
            generator.wf(),
            *generator.corpus == *corpus,
            generator.rng.state() == seeded(seed ^ 0x9e37_79b9),
            generator.entries_per_push == entries_per_push,
            generator.streams_per_push == streams_per_push,
            generator.arrival == arrival,
            forall|i: int|
                0 <= i < generator.cursors@.len() ==> #[trigger] generator.cursors@[i] == 0,
    {
        let tenants: usize = corpus.tenant_ids.len();
        let mut streams_by_tenant: Vec<Vec<usize>> = Vec::new();
        let mut t: usize = 0;
        while t < tenants
            invariant
                t <= tenants,
                streams_by_tenant@.len() == t,
                forall|j: int| 0 <= j < t ==> (#[trigger] streams_by_tenant@[j])@.len() == 0,
            decreases tenants - t,
        {
            streams_by_tenant.push(Vec::new());
            t = t + 1;
        }
        let mut cursors: Vec<usize> = Vec::new();
        let mut i: usize = 0;
        while i < corpus.streams.len()
            invariant
                i <= corpus.streams@.len(),
                tenants > 0,
                tenants == corpus.tenant_ids@.len(),
                streams_by_tenant@.len() == tenants,
                cursors@.len() == i,
                forall|j: int| 0 <= j < i ==> #[trigger] cursors@[j] == 0,
                forall|j: int|
                    0 <= j < tenants ==> (#[trigger] streams_by_tenant@[j])@ == streams_of(
                        *corpus,
                        j,
                        i as nat,
                    ),
            decreases corpus.streams@.len() - i,
        {
            let tenant: usize = find_home(corpus, i);
            let ghost before = streams_by_tenant@;
            streams_by_tenant[tenant].push(i);
            cursors.push(0);
            i = i + 1;
            assert forall|j: int| 0 <= j < tenants implies (#[trigger] streams_by_tenant@[j])@
                == streams_of(*corpus, j, i as nat) by {
                assert(before[j]@ == streams_of(*corpus, j, (i - 1) as nat));
            }
        }
        PushGenerator {
            corpus,
            rng: Rng::new(seed ^ 0x9e37_79b9),
            streams_by_tenant,
            cursors,
            entries_per_push,
            streams_per_push,
            arrival,
        }
    }

    spec fn drawn(
        &self,
        tally: Tally,
        batch: Seq<(Seq<(Seq<char>, Seq<char>)>, Seq<EntryView>)>,
        current: Seq<EntryView>,
        previous: int,
    ) -> Drawn {
        Drawn {
            state: self.rng.state(),
            cursors: self.cursors@,
            batch,
            current,
            previous,
            out_of_order: tally.out_of_order as nat,
            max_lateness_ms: tally.max_lateness_ms as int,
            line_bytes: tally.line_bytes as nat,
        }
    }

    spec fn same_but_drawn(&self, before: &Self) -> bool {
        &&& *self.corpus == *before.corpus
        &&& self.streams_by_tenant == before.streams_by_tenant
        &&& self.cursors@.len() == before.cursors@.len()
        &&& self.entries_per_push == before.entries_per_push
        &&& self.streams_per_push == before.streams_per_push
        &&& self.arrival == before.arrival
    }

    fn lateness_ms(&mut self) -> (late: u64)
        requires
            old(self).arrival.spread_ms < usize::MAX,
            old(self).arrival.late_max_ms < usize::MAX,
            old(self).arrival.spread_ms + old(self).arrival.late_max_ms <= u64::MAX,
        ensures
            (late as int, final(self).rng.state()) == old(self).arrival.lateness(
                old(self).rng.state(),
            ),
            final(self).same_but_drawn(old(self)),
            final(self).cursors == old(self).cursors,
    {
        proof {
            lateness_bounds(self.arrival, self.rng.state());
        }
        let spread: usize = self.rng.below(self.arrival.spread_ms as usize + 1);
        if self.arrival.late_units == 0 {
            return spread as u64;
        }
        if self.rng.unit() < self.arrival.late_units {
            let late: usize = self.rng.below(self.arrival.late_max_ms as usize + 1);
            return spread as u64 + late as u64;
        }
        spread as u64
    }

    /// Draws one stream of a push. `used` is how many entries were drawn before.
    fn draw_stream(
        &mut self,
        index: usize,
        share: usize,
        now_ns: i64,
        tally: &mut Tally,
        Ghost(batch): Ghost<Seq<(Seq<(Seq<char>, Seq<char>)>, Seq<EntryView>)>>,
        Ghost(used): Ghost<nat>,
    ) -> (out: Option<Vec<LogEntry>>)
        requires
            old(self).wf(),
            old(self).arrival.fits(now_ns),
            index < old(self).corpus.streams@.len(),
            used + share <= old(self).entries_per_push,
            old(tally).out_of_order <= used,
            old(tally).line_bytes * old(self).entries_per_push <= used * usize::MAX,
        ensures
            final(self).wf(),
            final(self).same_but_drawn(old(self)),
            final(tally).out_of_order <= used + share,
            final(tally).line_bytes * old(self).entries_per_push <= (used + share) * usize::MAX,
            ({
                let stream = old(self).corpus.streams@[index as int];
                let before = old(self).drawn(*old(tally), batch, seq![], i64::MIN as int);
                let after = before.with_stream(
                    index as int,
                    stream.labels@,
                    entries_view(stream.entries@),
                    old(self).arrival,
                    now_ns as int,
                    share as nat,
                );
                match out {
                    None => {
                        &&& share == 0 || stream.entries@.len() == 0
                        &&& final(self).drawn(*final(tally), batch, seq![], i64::MIN as int)
                            == after
                    },
                    Some(entries) => {
                        &&& share > 0 && stream.entries@.len() > 0
                        &&& entries@.len() == share
                        &&& final(self).drawn(
                            *final(tally),
                            batch.push((stream.labels@, entries_view(entries@))),
                            seq![],
                            i64::MIN as int,
                        ) == after
                    },
                }
            }),
    {
        let corpus = self.corpus;
        let stream = &corpus.streams[index];
        if share == 0 || stream.entries.len() == 0 {
            proof {
                assert(used * usize::MAX <= (used + share) * usize::MAX) by (nonlinear_arith);
            }
            return None;
        }
        let ghost views = entries_view(stream.entries@);
        let ghost start = self.drawn(*tally, batch, seq![], i64::MIN as int);
        let ghost per = self.entries_per_push;
        let mut entries: Vec<LogEntry> = Vec::new();
        let mut previous: i64 = i64::MIN;
        let mut k: usize = 0;
        assert(entries_view(entries@) =~= seq![]);
        while k < share
            invariant
                k <= share,
                share > 0,
                *self.corpus == *corpus,
                *stream == corpus.streams@[index as int],
                views == entries_view(stream.entries@),
                stream.entries@.len() > 0,
                index < corpus.streams@.len(),
                self.wf(),
                self.same_but_drawn(old(self)),
                self.arrival.fits(now_ns),
                self.arrival == old(self).arrival,
                per == self.entries_per_push,
                used + share <= per,
                entries@.len() == k,
                tally.out_of_order <= used + k,
                tally.line_bytes * per <= (used + k) * usize::MAX,
                self.drawn(*tally, batch, entries_view(entries@), previous as int)
                    == start.with_entries(
                    index as int,
                    views,
                    self.arrival,
                    now_ns as int,
                    k as nat,
                ),
            decreases share - k,
        {
            let ghost before = self.drawn(*tally, batch, entries_view(entries@), previous as int);
            let ghost listed = entries@;
            let cursor: usize = self.cursors[index] % stream.entries.len();
            self.cursors.set(index, cursor + 1);
            let source = &stream.entries[cursor];
            let ghost state = self.rng.state();
            proof {
                lateness_bounds(self.arrival, state);
            }
            let late: u64 = self.lateness_ms();
            if late > tally.max_lateness_ms {
                tally.max_lateness_ms = late;
            }
            let timestamp_ns: i64 = now_ns - late as i64 * 1_000_000;
            if timestamp_ns < previous {
                tally.out_of_order = tally.out_of_order + 1;
            }
            previous = timestamp_ns;
            let len: usize = source.line.as_str().as_bytes().len();
            proof {
                assert(byte_len(corpus.streams@[index as int].entries@[cursor as int].line@) * per
                    <= usize::MAX);
                room_for_line(tally.line_bytes as int, len as int, per as int, used + k);
            }
            tally.line_bytes = tally.line_bytes + len;
            let entry = LogEntry {
                timestamp_ns,
                line: source.line.clone(),
                structured_metadata: copy_pairs(source.structured_metadata.as_slice()),
            };
            proof {
                assert(views[cursor as int] == source@);
                assert(entry@ == (EntryView {
                    timestamp_ns: timestamp_ns as int,
                    ..views[cursor as int]
                }));
            }
            let ghost view = entry@;
            entries.push(entry);
            k = k + 1;
            proof {
                assert(entries_view(entries@) =~= entries_view(listed).push(view));
                assert(self.drawn(*tally, batch, entries_view(entries@), previous as int)
                    =~= before.with_entry(index as int, views, self.arrival, now_ns as int));
            }
        }
        Some(entries)
    }

    /// Draws the next push. It carries several streams of one tenant: the tenant
    /// is named once for a whole push.
    #[verifier::rlimit(60)]
    pub fn next_batch(&mut self, now_ns: i64) -> (out: PushBatch)
        requires
            old(self).wf(),
            old(self).arrival.fits(now_ns),
        ensures
            final(self).wf(),
            *final(self).corpus == *old(self).corpus,
            final(self).entries_per_push == old(self).entries_per_push,
            final(self).streams_per_push == old(self).streams_per_push,
            final(self).arrival == old(self).arrival,
            ({
                let drawn = old(self).next_push(now_ns as int);
                &&& final(self).rng.state() == drawn.state
                &&& final(self).cursors@ == drawn.cursors
                &&& out.tenant@ == old(self).corpus.tenant_ids@[old(self).next_tenant()]@
                &&& crate::ingest::parsed_view(out.batch@) == drawn.batch
                &&& out.line_bytes == drawn.line_bytes
                &&& out.out_of_order_entries == drawn.out_of_order
                &&& out.max_lateness_ms == drawn.max_lateness_ms
            }),
    {
        let corpus = self.corpus;
        let total: usize = corpus.streams.len();
        let tenant: usize = self.rng.below(self.streams_by_tenant.len());
        let candidates: usize = self.streams_by_tenant[tenant].len();
        proof {
            streams_of_are_streams(*corpus, tenant as int, total as nat);
            assert(self.streams_by_tenant@[tenant as int]@ == streams_of(
                *corpus,
                tenant as int,
                corpus.streams@.len(),
            ));
        }
        let count: usize = if self.streams_per_push == 0 {
            1
        } else if self.streams_per_push < candidates {
            self.streams_per_push
        } else {
            candidates
        };
        let first: usize = self.rng.below(candidates);
        let ghost listed = streams_of(*corpus, tenant as int, corpus.streams@.len());
        let ghost start = self.start(self.rng.state());
        let mut batch: Vec<(Labels, Vec<LogEntry>)> = Vec::new();
        let mut tally = Tally { out_of_order: 0, max_lateness_ms: 0, line_bytes: 0 };
        let mut position: usize = 0;
        let ghost now = now_ns as int;
        assert(crate::ingest::parsed_view(batch@) =~= seq![]);
        assert(self.drawn(tally, seq![], seq![], i64::MIN as int) =~= start);
        while position < count
            invariant
                position <= count,
                0 < count <= candidates,
                first < candidates,
                tenant < corpus.tenant_ids@.len(),
                now == now_ns as int,
                *self.corpus == *corpus,
                self.wf(),
                self.same_but_drawn(old(self)),
                self.arrival.fits(now_ns),
                listed == streams_of(*corpus, tenant as int, corpus.streams@.len()),
                candidates == listed.len(),
                candidates <= corpus.streams@.len(),
                forall|i: int| 0 <= i < listed.len() ==> (#[trigger] listed[i]) < corpus.streams@.len(),
                count == push_streams(self.streams_per_push as nat, listed.len()),
                tally.out_of_order <= shares(
                    self.entries_per_push as nat,
                    count as nat,
                    position as nat,
                ),
                tally.line_bytes * self.entries_per_push <= shares(
                    self.entries_per_push as nat,
                    count as nat,
                    position as nat,
                ) * usize::MAX,
                self.drawn(
                    tally,
                    crate::ingest::parsed_view(batch@),
                    seq![],
                    i64::MIN as int,
                ) == old(self).drawn_streams(
                    start,
                    tenant as int,
                    first as int,
                    now,
                    position as nat,
                ),
            decreases count - position,
        {
            let at: usize = ring(first, position, candidates);
            let index: usize = self.streams_by_tenant[tenant][at];
            let share: usize = share(self.entries_per_push, count, position);
            let ghost before = batch@;
            let ghost used = shares(self.entries_per_push as nat, count as nat, position as nat);
            proof {
                assert(self.streams_by_tenant@[tenant as int]@ == listed);
                shares_bounded(
                    self.entries_per_push as nat,
                    count as nat,
                    (position + 1) as nat,
                );
            }
            let drawn = self.draw_stream(
                index,
                share,
                now_ns,
                &mut tally,
                Ghost(crate::ingest::parsed_view(before)),
                Ghost(used),
            );
            if let Some(entries) = drawn {
                let labels = corpus.streams[index].labels.clone();
                let ghost view = (labels@, entries_view(entries@));
                batch.push((labels, entries));
                assert(crate::ingest::parsed_view(batch@) =~= crate::ingest::parsed_view(
                    before,
                ).push(view));
            }
            position = position + 1;
        }
        PushBatch {
            tenant: corpus.tenant_ids[tenant].as_str().to_owned(),
            batch,
            line_bytes: tally.line_bytes,
            out_of_order_entries: tally.out_of_order,
            max_lateness_ms: tally.max_lateness_ms,
        }
    }
}

fn share(entries: usize, streams: usize, position: usize) -> (n: usize)
    requires
        position < streams,
    ensures
        n == share_of(entries as nat, streams as nat, position as int),
{
    proof {
        shares_bounded(entries as nat, streams as nat, (position + 1) as nat);
    }
    if position < entries % streams {
        entries / streams + 1
    } else {
        entries / streams
    }
}

/// A place in a ring.
fn ring(first: usize, position: usize, len: usize) -> (at: usize)
    requires
        first < len,
        position < len,
    ensures
        at == (first + position) % len as int,
        at < len,
{
    proof {
        if first + position < len {
            vstd::arithmetic::div_mod::lemma_small_mod((first + position) as nat, len as nat);
        } else {
            vstd::arithmetic::div_mod::lemma_small_mod((first + position - len) as nat, len as nat);
            vstd::arithmetic::div_mod::lemma_mod_add_multiples_vanish(
                first + position - len,
                len as int,
            );
        }
    }
    if first < len - position {
        first + position
    } else {
        first - (len - position)
    }
}

proof fn room_for_line(so_far: int, line: int, per: int, used: int)
    requires
        0 <= so_far,
        0 <= line,
        0 <= used < per,
        so_far * per <= used * usize::MAX,
        line * per <= usize::MAX,
    ensures
        so_far + line <= usize::MAX,
        (so_far + line) * per <= (used + 1) * usize::MAX,
{
    assert((so_far + line) * per == so_far * per + line * per) by (nonlinear_arith);
    assert((used + 1) * usize::MAX == used * usize::MAX + usize::MAX) by (nonlinear_arith);
    assert((used + 1) * usize::MAX <= per * usize::MAX) by (nonlinear_arith)
        requires
            used < per,
    ;
    assert(so_far + line <= usize::MAX) by (nonlinear_arith)
        requires
            (so_far + line) * per <= per * usize::MAX,
            per > 0,
    ;
}

fn find_home(corpus: &Corpus, stream: usize) -> (tenant: usize)
    requires
        stream < corpus.streams@.len(),
        corpus.tenant_ids@.len() > 0,
    ensures
        tenant == home(*corpus, stream as int),
        tenant < corpus.tenant_ids@.len(),
{
    let ghost names = corpus.tenant_ids@.map_values(|tenant: TenantId| tenant@);
    let mut t: usize = 0;
    while t < corpus.tenant_ids.len()
        invariant
            t <= corpus.tenant_ids@.len(),
            stream < corpus.streams@.len(),
            names == corpus.tenant_ids@.map_values(|tenant: TenantId| tenant@),
            forall|j: int|
                0 <= j < t ==> #[trigger] names[j] != corpus.streams@[stream as int].tenant@,
        decreases corpus.tenant_ids@.len() - t,
    {
        if corpus.tenant_ids[t].same(&corpus.streams[stream].tenant) {
            proof {
                first_index_is(names, corpus.streams@[stream as int].tenant@, t as int);
            }
            return t;
        }
        t = t + 1;
    }
    proof {
        first_index_is(names, corpus.streams@[stream as int].tenant@, t as int);
    }
    0
}

/// How many entries streams have.
pub open spec fn entries_in(batch: Seq<(Seq<(Seq<char>, Seq<char>)>, Seq<EntryView>)>) -> nat
    decreases batch.len(),
{
    if batch.len() == 0 {
        0
    } else {
        entries_in(batch.drop_last()) + batch.last().1.len()
    }
}

proof fn entries_in_prefix(
    batch: Seq<(Seq<(Seq<char>, Seq<char>)>, Seq<EntryView>)>,
    i: int,
)
    requires
        0 <= i <= batch.len(),
    ensures
        entries_in(batch.take(i)) <= entries_in(batch),
    decreases batch.len() - i,
{
    if i < batch.len() {
        assert(batch.take(i + 1).drop_last() =~= batch.take(i));
        entries_in_prefix(batch, i + 1);
    } else {
        assert(batch.take(i) =~= batch);
    }
}

impl PushBatch {
    /// The push for the wire, given its encoding: the body is compressed.
    pub fn into_body(self, encoded: &[u8]) -> (body: PushBody)
        requires
            fits_snappy(encoded@.len()),
            entries_in(crate::ingest::parsed_view(self.batch@)) <= usize::MAX,
        ensures
            compressed(encoded@) == Ok::<Seq<u8>, Seq<char>>(body.bytes@),
            decompressed(body.bytes@) == Ok::<Seq<u8>, Seq<char>>(encoded@),
            body.tenant == self.tenant,
            body.entries == entries_in(crate::ingest::parsed_view(self.batch@)),
            body.streams == self.batch@.len(),
            body.line_bytes == self.line_bytes,
            body.encoded_bytes == encoded@.len(),
            body.out_of_order_entries == self.out_of_order_entries,
            body.max_lateness_ms == self.max_lateness_ms,
    {
        let bytes = snappy_compress(encoded).unwrap();
        let ghost views = crate::ingest::parsed_view(self.batch@);
        let mut entries: usize = 0;
        let mut i: usize = 0;
        assert(views.take(0) =~= seq![]);
        while i < self.batch.len()
            invariant
                i <= self.batch@.len(),
                views == crate::ingest::parsed_view(self.batch@),
                entries == entries_in(views.take(i as int)),
                entries_in(views) <= usize::MAX,
            decreases self.batch@.len() - i,
        {
            proof {
                assert(views.take(i + 1).drop_last() =~= views.take(i as int));
                assert(views.take(i + 1).last() == views[i as int]);
                entries_in_prefix(views, i + 1);
            }
            entries = entries + self.batch[i].1.len();
            i = i + 1;
        }
        assert(views.take(i as int) =~= views);
        PushBody {
            bytes,
            tenant: self.tenant,
            entries,
            line_bytes: self.line_bytes,
            encoded_bytes: encoded.len(),
            streams: self.batch.len(),
            out_of_order_entries: self.out_of_order_entries,
            max_lateness_ms: self.max_lateness_ms,
        }
    }
}

// ----------------------------------------------------------------------- laws
proof fn drawn_entry_count(
    drawn: Drawn,
    index: int,
    stream: Seq<EntryView>,
    arrival: ArrivalOrder,
    now_ns: int,
    k: nat,
)
    ensures
        ({
            let after = drawn.with_entries(index, stream, arrival, now_ns, k);
            &&& after.current.len() == drawn.current.len() + k
            &&& after.batch == drawn.batch
        }),
    decreases k,
{
    if k > 0 {
        drawn_entry_count(drawn, index, stream, arrival, now_ns, (k - 1) as nat);
    }
}

proof fn drawn_stream_counts(
    generator: PushGenerator<'_>,
    start: Drawn,
    tenant: int,
    first: int,
    now_ns: int,
    n: nat,
)
    requires
        generator.wf(),
        0 <= tenant < generator.corpus.tenant_ids@.len(),
        0 <= first,
        start.batch.len() == 0,
        generator.corpus.streams@.len() <= usize::MAX,
        forall|s: int|
            0 <= s < generator.corpus.streams@.len() ==> (
            #[trigger] generator.corpus.streams@[s]).entries@.len() > 0,
    ensures
        ({
            let candidates = streams_of(
                *generator.corpus,
                tenant,
                generator.corpus.streams@.len(),
            );
            let count = push_streams(generator.streams_per_push as nat, candidates.len());
            let batch = generator.drawn_streams(start, tenant, first, now_ns, n).batch;
            &&& entries_in(batch) == shares(generator.entries_per_push as nat, count, n)
            &&& forall|i: int|
                0 <= i < batch.len() ==> exists|s: int|
                    0 <= s < generator.corpus.streams@.len() && home(*generator.corpus, s) == tenant
                        && (#[trigger] generator.corpus.streams@[s]).labels@ == (
                    #[trigger] batch[i]).0
        }),
    decreases n,
{
    if n > 0 {
        drawn_stream_counts(generator, start, tenant, first, now_ns, (n - 1) as nat);
        let corpus = *generator.corpus;
        let candidates = streams_of(corpus, tenant, corpus.streams@.len());
        let count = push_streams(generator.streams_per_push as nat, candidates.len());
        streams_of_are_streams(corpus, tenant, corpus.streams@.len());
        let place = (first + n - 1) % candidates.len() as int;
        let index = candidates[place] as int;
        let stream = corpus.streams@[index];
        let before = generator.drawn_streams(start, tenant, first, now_ns, (n - 1) as nat);
        let share = share_of(generator.entries_per_push as nat, count, n - 1);
        let fresh = Drawn { current: seq![], previous: i64::MIN as int, ..before };
        drawn_entry_count(
            fresh,
            index,
            entries_view(stream.entries@),
            generator.arrival,
            now_ns,
            share,
        );
        let batch = generator.drawn_streams(start, tenant, first, now_ns, n).batch;
        if share > 0 {
            assert(batch.drop_last() =~= before.batch);
            assert forall|i: int| 0 <= i < batch.len() implies exists|s: int|
                0 <= s < corpus.streams@.len() && home(corpus, s) == tenant && (
                #[trigger] corpus.streams@[s]).labels@ == (#[trigger] batch[i]).0 by {
                if i < before.batch.len() {
                    assert(batch[i] == before.batch[i]);
                } else {
                    assert(corpus.streams@[index].labels@ == batch[i].0);
                }
            }
        }
    }
}

/// A push carries exactly the entries that were asked for, all of them of streams
/// of its tenant, as long as every stream has entries.
pub proof fn a_push_carries_one_tenants_streams_and_the_requested_entries(
    generator: PushGenerator<'_>,
    now_ns: int,
)
    requires
        generator.wf(),
        generator.corpus.streams@.len() <= usize::MAX,
        forall|s: int|
            0 <= s < generator.corpus.streams@.len() ==> (
            #[trigger] generator.corpus.streams@[s]).entries@.len() > 0,
    ensures
        ({
            let batch = generator.next_push(now_ns).batch;
            &&& entries_in(batch) == generator.entries_per_push
            &&& forall|i: int|
                0 <= i < batch.len() ==> exists|s: int|
                    0 <= s < generator.corpus.streams@.len() && home(*generator.corpus, s)
                        == generator.next_tenant() && (
                    #[trigger] generator.corpus.streams@[s]).labels@ == (#[trigger] batch[i]).0
        }),
{
    let tenant = generator.next_tenant();
    let candidates = streams_of(*generator.corpus, tenant, generator.corpus.streams@.len());
    let s1 = advance(generator.rng.state());
    let first = nth_below(s1, 0, candidates.len());
    let count = push_streams(generator.streams_per_push as nat, candidates.len());
    drawn_stream_counts(generator, generator.start(advance(s1)), tenant, first, now_ns, count);
    shares_add_up(generator.entries_per_push as nat, count);
}

proof fn punctual_entries(
    drawn: Drawn,
    index: int,
    stream: Seq<EntryView>,
    arrival: ArrivalOrder,
    now_ns: int,
    k: nat,
)
    requires
        arrival.spread_ms == 0,
        arrival.late_units == 0,
        drawn.previous <= now_ns,
    ensures
        ({
            let after = drawn.with_entries(index, stream, arrival, now_ns, k);
            &&& after.out_of_order == drawn.out_of_order
            &&& after.max_lateness_ms == if k > 0 && drawn.max_lateness_ms < 0 {
                0
            } else {
                drawn.max_lateness_ms
            }
            &&& after.previous <= now_ns
        }),
    decreases k,
{
    if k > 0 {
        punctual_entries(drawn, index, stream, arrival, now_ns, (k - 1) as nat);
        let before = drawn.with_entries(index, stream, arrival, now_ns, (k - 1) as nat);
        assert(nth_below(before.state, 0, 1) == 0);
    }
}

proof fn punctual_streams(
    generator: PushGenerator<'_>,
    start: Drawn,
    tenant: int,
    first: int,
    now_ns: int,
    n: nat,
)
    requires
        generator.arrival.spread_ms == 0,
        generator.arrival.late_units == 0,
        start.out_of_order == 0,
        start.max_lateness_ms == 0,
        now_ns >= i64::MIN,
    ensures
        generator.drawn_streams(start, tenant, first, now_ns, n).out_of_order == 0,
        generator.drawn_streams(start, tenant, first, now_ns, n).max_lateness_ms == 0,
    decreases n,
{
    if n > 0 {
        punctual_streams(generator, start, tenant, first, now_ns, (n - 1) as nat);
        let corpus = *generator.corpus;
        let candidates = streams_of(corpus, tenant, corpus.streams@.len());
        let count = push_streams(generator.streams_per_push as nat, candidates.len());
        let index = candidates[(first + n - 1) % candidates.len() as int] as int;
        let before = generator.drawn_streams(start, tenant, first, now_ns, (n - 1) as nat);
        let fresh = Drawn { current: seq![], previous: i64::MIN as int, ..before };
        punctual_entries(
            fresh,
            index,
            entries_view(corpus.streams@[index].entries@),
            generator.arrival,
            now_ns,
            share_of(generator.entries_per_push as nat, count, n - 1),
        );
    }
}

/// Without a spread and without late entries, a push is in order and nothing in
/// it is late.
pub proof fn without_jitter_nothing_is_late(generator: PushGenerator<'_>, now_ns: int)
    requires
        generator.arrival.spread_ms == 0,
        generator.arrival.late_units == 0,
        now_ns >= i64::MIN,
    ensures
        generator.next_push(now_ns).out_of_order == 0,
        generator.next_push(now_ns).max_lateness_ms == 0,
{
    let tenant = generator.next_tenant();
    let candidates = streams_of(*generator.corpus, tenant, generator.corpus.streams@.len());
    let s1 = advance(generator.rng.state());
    let first = nth_below(s1, 0, candidates.len());
    let count = push_streams(generator.streams_per_push as nat, candidates.len());
    punctual_streams(generator, generator.start(advance(s1)), tenant, first, now_ns, count);
}

} // verus!
