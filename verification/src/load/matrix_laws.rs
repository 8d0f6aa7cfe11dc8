//! What seeding and asking promise: how often a push is sent, which queries are asked, and
//! what a push and a query are made of.

use vstd::prelude::*;
use vstd::string::*;

use crate::corpus::{Corpus, LEVELS, PHRASES, STATUSES};
use crate::ingest::byte_len;
use crate::load::config::Verify;
use crate::load::matrix::{
    app_queries, expression_of, query_of, seed_step_of, shape_queries, SeedReply, SeedStep, Shape,
    Timing, SHAPES,
};
use crate::load::queries::{drawn_expression, QueryShape};
use crate::load::workload::{home, push_streams, ArrivalOrder, Drawn};
use crate::model::{first_index_is, EntryView};
use crate::tenant::TenantId;

verus! {

// -------------------------------------------------------------------- seeding
/// A push that landed is not sent again, one that was refused or failed is, up to sixty
/// times in all, and one that was answered otherwise is given up.
pub proof fn a_push_is_sent_until_it_lands(attempt: usize, reply: SeedReply)
    ensures
        reply matches SeedReply::Status(status) ==> (seed_step_of(attempt, reply) == SeedStep::Done
            <==> status == 204 || status == 200),
        seed_step_of(attempt, reply) == SeedStep::Done ==> reply is Status,
        seed_step_of(attempt, reply) == SeedStep::Retry <==> attempt < 59 && (reply
            == SeedReply::Status(429) || reply is Failed),
{
}

// -------------------------------------------------------------------- queries
proof fn windows_of_an_app(
    verify: Verify,
    shape: Shape,
    apps: Seq<Seq<char>>,
    n: nat,
    app: int,
    window: int,
) -> (at: int)
    requires
        0 <= app < n <= apps.len(),
        0 <= window < verify.windows,
    ensures
        0 <= at < app_queries(verify, shape, apps, n).len(),
        app_queries(verify, shape, apps, n)[at] == query_of(
            verify,
            shape,
            app,
            apps[app],
            window,
        ),
    decreases n,
{
    let before = app_queries(verify, shape, apps, (n - 1) as nat);
    if app == n - 1 {
        before.len() + window
    } else {
        windows_of_an_app(verify, shape, apps, (n - 1) as nat, app, window)
    }
}

proof fn apps_of_a_shape(
    verify: Verify,
    apps: Seq<Seq<char>>,
    n: nat,
    shape: int,
    app: int,
    window: int,
) -> (at: int)
    requires
        0 <= shape < n <= 4,
        0 <= app < apps.len(),
        0 <= window < verify.windows,
    ensures
        0 <= at < shape_queries(verify, apps, n).len(),
        shape_queries(verify, apps, n)[at] == query_of(
            verify,
            SHAPES@[shape],
            app,
            apps[app],
            window,
        ),
    decreases n,
{
    let before = shape_queries(verify, apps, (n - 1) as nat);
    if shape == n - 1 {
        before.len() + windows_of_an_app(verify, SHAPES@[shape], apps, apps.len(), app, window)
    } else {
        apps_of_a_shape(verify, apps, (n - 1) as nat, shape, app, window)
    }
}

/// Every shape is asked of every app in every window.
pub proof fn every_shape_is_asked_of_every_app_in_every_window(
    verify: Verify,
    apps: Seq<Seq<char>>,
    shape: int,
    app: int,
    window: int,
) -> (at: int)
    requires
        0 <= shape < 4,
        0 <= app < apps.len(),
        0 <= window < verify.windows,
    ensures
        0 <= at < shape_queries(verify, apps, 4).len(),
        shape_queries(verify, apps, 4)[at].shape == SHAPES@[shape],
        shape_queries(verify, apps, 4)[at] == query_of(
            verify,
            SHAPES@[shape],
            app,
            apps[app],
            window,
        ),
{
    apps_of_a_shape(verify, apps, 4, shape, app, window)
}

proof fn as_many_as_windows(verify: Verify, shape: Shape, apps: Seq<Seq<char>>, n: nat)
    ensures
        app_queries(verify, shape, apps, n).len() == n * verify.windows,
    decreases n,
{
    if n > 0 {
        as_many_as_windows(verify, shape, apps, (n - 1) as nat);
        assert(n * verify.windows == (n - 1) * verify.windows + verify.windows)
            by (nonlinear_arith);
    } else {
        assert(0 * verify.windows == 0) by (nonlinear_arith);
    }
}

/// Nothing else is asked: there are as many queries as shapes, apps and windows give.
pub proof fn nothing_else_is_asked(verify: Verify, apps: Seq<Seq<char>>)
    ensures
        shape_queries(verify, apps, 4).len() == 4 * (apps.len() * verify.windows),
{
    reveal_with_fuel(shape_queries, 5);
    as_many_as_windows(verify, SHAPES@[0], apps, apps.len());
    as_many_as_windows(verify, SHAPES@[1], apps, apps.len());
    as_many_as_windows(verify, SHAPES@[2], apps, apps.len());
    as_many_as_windows(verify, SHAPES@[3], apps, apps.len());
}

/// A query selects the app that it is about: its expression begins with the selector, or
/// has it inside the rate that it asks for.
pub proof fn a_query_selects_its_app(
    shape: Shape,
    app: Seq<char>,
    variant: nat,
    range: Seq<char>,
)
    ensures
        ({
            let asked = expression_of(shape, app, variant, range);
            let chosen = "{app=\""@ + app + "\"}"@;
            &&& shape == Shape::LabelOnly ==> asked == chosen
            &&& shape == Shape::LineFilter || shape == Shape::JsonField ==> chosen.is_prefix_of(
                asked,
            ) && asked.len() > chosen.len()
            &&& shape == Shape::Rate ==> asked == "sum(rate("@ + chosen + "["@ + range + "]))"@
        }),
{
    let asked = expression_of(shape, app, variant, range);
    let chosen = "{app=\""@ + app + "\"}"@;
    reveal_strlit(" |= \"");
    reveal_strlit(" | json | status=\"");
    reveal_strlit(" | json | level=\"");
    if shape == Shape::LineFilter || shape == Shape::JsonField {
        assert(asked.subrange(0, chosen.len() as int) =~= chosen);
    }
}

/// A query that is drawn selects the app that it is drawn for, and asks for nothing that is
/// not in the lines: its phrase, its status or its level is one of those written.
pub proof fn a_drawn_query_asks_for_what_is_written(shape: QueryShape, app: Seq<char>, state: u64)
    ensures
        ({
            let asked = drawn_expression(shape, app, state).0;
            let chosen = "{app=\""@ + app + "\"}"@;
            &&& shape == QueryShape::LabelOnly || shape == QueryShape::RestoreProbe ==> asked
                == chosen
            &&& shape == QueryShape::LineFilter ==> exists|i: int|
                0 <= i < 24 && asked == chosen + " |= \""@ + (#[trigger] PHRASES@[i])@ + "\""@
            &&& shape == QueryShape::JsonField ==> {
                ||| exists|i: int|
                    0 <= i < 6 && asked == chosen + " | json | status=\""@ + crate::text::decimal(
                        (#[trigger] STATUSES@[i]) as nat,
                    ) + "\""@
                ||| exists|i: int|
                    0 <= i < 4 && asked == chosen + " | json | level=\""@ + (
                    #[trigger] LEVELS@[i])@ + "\""@
            }
            &&& shape == QueryShape::Rate ==> asked == "rate("@ + chosen + "[1m])"@
        }),
{
    let chosen = "{app=\""@ + app + "\"}"@;
    let asked = drawn_expression(shape, app, state).0;
    if shape == QueryShape::LineFilter {
        let i = crate::rng::nth_below(state, 0, 24);
        assert(0 <= i < 24);
        assert(asked == chosen + " |= \""@ + PHRASES@[i]@ + "\""@);
    }
    if shape == QueryShape::JsonField {
        let s1 = crate::rng::advance(state);
        let i = crate::rng::nth_below(s1, 0, 6);
        let j = crate::rng::nth_below(s1, 0, 4);
        assert(0 <= i < 6 && 0 <= j < 4);
        if crate::rng::nth_below(state, 0, 2) == 0 {
            assert(asked == chosen + " | json | status=\""@ + crate::text::decimal(
                STATUSES@[i] as nat,
            ) + "\""@);
        } else {
            assert(asked == chosen + " | json | level=\""@ + LEVELS@[j]@ + "\""@);
        }
    }
}

// -------------------------------------------------------------------- repeats
/// Repeats agree only as long as every one of them was answered, could be read and had the
/// digest of the first answer. Once one does not, none of the later ones makes them agree.
pub proof fn repeats_agree_only_if_each_does(
    timing: Timing,
    status: u16,
    digest: Result<Seq<char>, Seq<char>>,
)
    ensures
        timing.agrees_after(status, digest) ==> timing.warm_digests_agree,
        status != 200 ==> !timing.agrees_after(status, digest),
        digest is Err ==> !timing.agrees_after(status, digest),
        timing.answer is Some && digest is Ok && timing.answer->Some_0.digest@ != digest->Ok_0
            ==> !timing.agrees_after(status, digest),
        timing.warm_digests_agree && status == 200 && digest is Ok && timing.answer is Some
            && timing.answer->Some_0.digest@ == digest->Ok_0 ==> timing.agrees_after(
            status,
            digest,
        ),
{
}

/// The error of a query is the first one that any of its issues met: it is not replaced, and
/// an issue that went well brings none.
pub proof fn the_error_is_the_first_one_met(
    timing: Timing,
    status: u16,
    error: Option<Seq<char>>,
    digest: Result<Seq<char>, Seq<char>>,
)
    ensures
        timing.error is Some ==> timing.error_after(status, error, digest) == Some(
            timing.error->Some_0@,
        ),
        timing.error is None && status == 200 && digest is Ok ==> timing.error_after(
            status,
            error,
            digest,
        ) is None,
        timing.error is None && status != 200 && error is Some ==> timing.error_after(
            status,
            error,
            digest,
        ) == error,
        timing.error is None && (status != 200 || digest is Err) ==> timing.error_after(
            status,
            error,
            digest,
        ) is Some,
{
}

// --------------------------------------------------------------------- pushes
/// An entry of a push is the next one of its stream, with its line and its metadata, at an
/// instant that is not behind now; behind the last entry comes the first.
pub proof fn an_entry_is_sent_as_it_stands_but_for_its_instant(
    drawn: Drawn,
    index: int,
    stream: Seq<EntryView>,
    arrival: ArrivalOrder,
    now_ns: int,
)
    requires
        stream.len() > 0,
        stream.len() < usize::MAX,
        0 <= index < drawn.cursors.len(),
    ensures
        ({
            let after = drawn.with_entry(index, stream, arrival, now_ns);
            let at = drawn.cursors[index] as int % stream.len() as int;
            &&& after.current.len() == drawn.current.len() + 1
            &&& after.current.drop_last() == drawn.current
            &&& after.current.last().line == stream[at].line
            &&& after.current.last().metadata == stream[at].metadata
            &&& now_ns - (arrival.spread_ms + arrival.late_max_ms) * 1_000_000
                <= after.current.last().timestamp_ns <= now_ns
            &&& after.cursors[index] == at + 1
            &&& forall|i: int|
                0 <= i < drawn.cursors.len() && i != index ==> after.cursors[i]
                    == #[trigger] drawn.cursors[i]
            &&& after.previous == after.current.last().timestamp_ns
            &&& after.out_of_order == drawn.out_of_order + if after.previous < drawn.previous {
                1nat
            } else {
                0nat
            }
            &&& after.max_lateness_ms >= drawn.max_lateness_ms
            &&& now_ns - after.max_lateness_ms * 1_000_000 <= after.previous
            &&& after.line_bytes == drawn.line_bytes + byte_len(stream[at].line)
            &&& after.batch == drawn.batch
        }),
{
    crate::load::workload::lateness_bounds(arrival, drawn.state);
    let after = drawn.with_entry(index, stream, arrival, now_ns);
    assert(after.current.drop_last() =~= drawn.current);
    let at = drawn.cursors[index] as int % stream.len() as int;
    assert(0 <= at < stream.len());
}

/// A push has as many streams as asked for, as far as its tenant has them, and one at
/// least.
pub proof fn a_push_has_as_many_streams_as_asked_for(streams_per_push: nat, candidates: nat)
    requires
        candidates > 0,
    ensures
        1 <= push_streams(streams_per_push, candidates) <= candidates,
        1 <= streams_per_push <= candidates ==> push_streams(streams_per_push, candidates)
            == streams_per_push,
        streams_per_push > candidates ==> push_streams(streams_per_push, candidates) == candidates,
{
}

/// A stream is at home with the tenant that it belongs to.
pub proof fn a_stream_is_at_home_with_its_tenant(corpus: Corpus, stream: int, tenant: int)
    requires
        0 <= tenant < corpus.tenant_ids@.len(),
        corpus.tenant_ids@[tenant]@ == corpus.streams@[stream].tenant@,
        forall|i: int|
            0 <= i < tenant ==> (#[trigger] corpus.tenant_ids@[i])@
                != corpus.streams@[stream].tenant@,
    ensures
        home(corpus, stream) == tenant,
{
    let names = corpus.tenant_ids@.map_values(|tenant: TenantId| tenant@);
    assert forall|i: int| 0 <= i < tenant implies names[i] != corpus.streams@[stream].tenant@ by {
        assert(names[i] == corpus.tenant_ids@[i]@);
    }
    first_index_is(names, corpus.streams@[stream].tenant@, tenant);
}

} // verus!
