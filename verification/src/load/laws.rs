//! What the load harness promises: what its percentiles and gauges say, what it counts,
//! and when a run passes.

use vstd::prelude::*;
use vstd::string::*;

use crate::load::answers::without_repeats;
use crate::load::closed_loop::{ends_well, padded, EndState};
use crate::load::queries::{shape_at, weight_sum, QueryShape, QUERY_SHAPES};
use crate::load::report::{PushCounts, QueryCounts};
use crate::load::stats::{
    a_given_percentile_is_not_the_maximum, drains, last_peak, low_after_peak, peak_of, percentile,
    percentile_index, samples_for, trough_of,
};
use crate::load::verdict::{all_met, behaved, has_enough, verdict_of, Evidence, Verdict};
use crate::load::workload::PushBody;
use crate::order::ordered;

verus! {

// ---------------------------------------------------------------- percentiles
/// A percentile needs the fewest samples of which it is not the largest: with so many the
/// sample at its place has another behind it, and with fewer it does not.
pub proof fn a_percentile_needs_the_fewest_samples_that_show_it(percent: nat, count: nat)
    requires
        0 < percent < 100,
        0 < count,
    ensures
        count >= samples_for(percent) <==> percentile_index(count, percent) < count - 1,
        samples_for(percent) >= 1,
{
    let rest = 100 - percent;
    let needed = (200 - percent + rest - 1) / rest;
    assert(needed * rest >= 200 - percent && (needed - 1) * rest < 200 - percent && needed >= 1)
        by (nonlinear_arith)
        requires
            rest > 0,
            rest == 100 - percent,
            needed == (200 - percent + rest - 1) / rest,
    ;
    assert(count >= needed <==> count * rest >= 200 - percent) by (nonlinear_arith)
        requires
            rest > 0,
            needed * rest >= 200 - percent,
            (needed - 1) * rest < 200 - percent,
    ;
    assert(count * rest == 100 * count - (count - 1) * percent - percent) by (nonlinear_arith)
        requires
            rest == 100 - percent,
    ;
}

/// A percentile is given exactly if there are enough samples. It is then the sample, in
/// order, at the place that cuts off the share asked for, rounded up.
pub proof fn a_percentile_is_the_sample_at_its_place(samples: Seq<u64>, percent: nat) -> (at: int)
    requires
        0 < percent < 100,
    ensures
        percentile(samples, percent) is Some <==> samples.len() >= samples_for(percent),
        percentile(samples, percent) is Some ==> {
            &&& 0 <= at < samples.len()
            &&& percentile(samples, percent) == Some(ordered(samples)[at])
            &&& (samples.len() - 1) * percent <= at * 100
            &&& at * 100 < (samples.len() - 1) * percent + 100
        },
{
    let place = percentile_index(samples.len(), percent);
    if percentile(samples, percent) is Some {
        a_given_percentile_is_not_the_maximum(samples, percent);
        a_percentile_needs_the_fewest_samples_that_show_it(percent, 1);
        let product = (samples.len() - 1) * percent;
        assert(product >= 0) by (nonlinear_arith)
            requires
                product == (samples.len() - 1) * percent,
                samples.len() >= 1,
                percent > 0,
        ;
    }
    place
}

// --------------------------------------------------------------------- gauges
/// The peak of a gauge is its largest reading, the last peak the last place that it was
/// read at, and the low after it the smallest reading from there on.
pub proof fn the_peak_is_the_largest_reading(samples: Seq<(u64, u64)>, i: int)
    requires
        0 <= i < samples.len(),
    ensures
        samples[i].1 <= peak_of(samples),
        0 <= last_peak(samples) < samples.len(),
        samples[last_peak(samples)].1 == peak_of(samples),
        i > last_peak(samples) ==> samples[i].1 < peak_of(samples),
    decreases samples.len(),
{
    let rest = samples.drop_last();
    let last = samples.len() - 1;
    assert(samples[last] == samples.last());
    if rest.len() > 0 {
        the_peak_is_the_largest_reading(
            rest,
            if i < last {
                i
            } else {
                0
            },
        );
        if i < last {
            assert(rest[i] == samples[i]);
        }
        assert(rest[last_peak(rest)] == samples[last_peak(rest)]);
    } else {
        assert(peak_of(rest) == 0);
    }
}

/// The low of readings is the smallest of them.
pub proof fn the_low_is_the_smallest_reading(samples: Seq<(u64, u64)>, i: int)
    requires
        0 <= i < samples.len(),
    ensures
        trough_of(samples) <= samples[i].1,
        exists|j: int| 0 <= j < samples.len() && (#[trigger] samples[j]).1 == trough_of(samples),
    decreases samples.len(),
{
    let rest = samples.drop_last();
    let last = samples.len() - 1;
    assert(samples[last] == samples.last());
    if rest.len() > 0 {
        the_low_is_the_smallest_reading(
            rest,
            if i < last {
                i
            } else {
                0
            },
        );
        if i < last {
            assert(rest[i] == samples[i]);
        }
        let j = choose|j: int|
            0 <= j < rest.len() && (#[trigger] rest[j]).1 == trough_of(rest);
        assert(samples[j] == rest[j]);
    }
}

/// No reading at the last peak or behind it is below the low after the peak.
pub proof fn nothing_after_the_peak_is_below_the_low(samples: Seq<(u64, u64)>, i: int)
    requires
        0 <= i < samples.len(),
        last_peak(samples) <= i,
    ensures
        low_after_peak(samples) <= samples[i].1,
        low_after_peak(samples) <= peak_of(samples),
{
    the_peak_is_the_largest_reading(samples, i);
    let behind = samples.skip(last_peak(samples));
    the_low_is_the_smallest_reading(behind, i - last_peak(samples));
    the_low_is_the_smallest_reading(behind, 0);
    assert(behind[i - last_peak(samples)] == samples[i]);
    assert(behind[0] == samples[last_peak(samples)]);
}

/// Too few readings decide nothing. Otherwise a backlog drains exactly if it never passes
/// the ceiling, and stays under sixteen mebibytes, does not rise, or falls to half of its
/// peak after it.
pub proof fn a_backlog_drains_exactly_if_it_comes_down(
    samples: Seq<(u64, u64)>,
    ceiling: u64,
    minimum: nat,
    rising: bool,
)
    ensures
        drains(samples, ceiling, minimum, rising).0 <==> samples.len() >= minimum,
        drains(samples, ceiling, minimum, rising).1 <==> {
            &&& samples.len() >= minimum
            &&& peak_of(samples) <= ceiling
            &&& {
                ||| peak_of(samples) < 16_777_216
                ||| !rising
                ||| low_after_peak(samples) + low_after_peak(samples) <= peak_of(samples)
            }
        },
{
}

// -------------------------------------------------------------------- verdict
/// A run behaves exactly if no push failed in the server, the object store was healthy in
/// at least nineteen of twenty samples, of which there was one, the cache was healthy at
/// the end, and flushes succeeded, more often than they failed, and kept the backlog
/// down.
pub proof fn a_run_behaves_exactly_if_nothing_went_wrong(evidence: Evidence)
    ensures
        behaved(evidence) <==> {
            &&& evidence.ingest_errors == 0
            &&& evidence.health_samples >= 1
            &&& (evidence.health_samples - evidence.health_healthy) * 20 <= evidence.health_samples
            &&& evidence.cache_healthy
            &&& evidence.flush_success >= 1
            &&& evidence.flush_success >= evidence.flush_errors
            &&& evidence.drained
        },
{
}

/// A run passes exactly if it behaves and meets its targets, and fails exactly if it does
/// not behave, whatever its targets say.
pub proof fn a_run_passes_only_if_it_behaves(behavioral: bool, numeric: bool)
    ensures
        verdict_of(behavioral, numeric) == Verdict::Pass <==> behavioral && numeric,
        verdict_of(behavioral, numeric) == Verdict::PassBehavioralOnly <==> behavioral && !numeric,
        verdict_of(behavioral, numeric) == Verdict::Fail <==> !behavioral,
{
}

/// A run has enough exactly if it asked for a number of events and got that many.
pub proof fn a_run_has_enough_once_its_target_is_met(target_events: u64, accepted: u64)
    ensures
        has_enough(target_events, accepted) <==> 0 < target_events <= accepted,
{
}

/// A closed run ends well exactly if nothing failed to be taken in, both stores are
/// healthy, and flushes succeeded, no less often than they failed, with the backlog within
/// its bound.
pub proof fn a_closed_run_ends_well_exactly_if_the_server_is_well(end: EndState)
    ensures
        ends_well(end) <==> {
            &&& end.ingest_errors == 0
            &&& end.remote_healthy
            &&& end.cache_healthy
            &&& end.flush_success >= 1
            &&& end.flush_errors <= end.flush_success
            &&& end.wal_backlog_bytes <= end.wal_backlog_max_bytes
        },
{
}

// --------------------------------------------------------------------- counts
/// A push that is answered counts once: as accepted where it is taken, with its events
/// and its bytes, as throttled where it is refused for want of capacity, and else as an
/// error. Events that were not accepted are not counted as accepted.
pub proof fn an_answered_push_counts_once(counts: PushCounts, push: PushBody, status: u16)
    requires
        counts.has_room(),
        crate::load::report::countable(push),
    ensures
        ({
            let after = counts.with_answer(push, status);
            &&& after.attempted() == counts.attempted() + 1
            &&& after.accepted == counts.accepted + 1 <==> status == 204
            &&& after.throttled == counts.throttled + 1 <==> status == 429
            &&& after.errors == counts.errors + 1 <==> status != 204 && status != 429
            &&& status == 204 ==> {
                &&& after.events_accepted == counts.events_accepted + push.entries
                &&& after.wire_bytes == counts.wire_bytes + push.bytes@.len()
                &&& after.line_bytes == counts.line_bytes + push.line_bytes
                &&& after.encoded_bytes == counts.encoded_bytes + push.encoded_bytes
            }
            &&& status != 204 ==> {
                &&& after.events_accepted == counts.events_accepted
                &&& after.wire_bytes == counts.wire_bytes
                &&& after.line_bytes == counts.line_bytes
                &&& after.encoded_bytes == counts.encoded_bytes
            }
            &&& after.events_offered == counts.events_offered
        }),
        ({
            let after = counts.with_offer(push);
            &&& after.events_offered == counts.events_offered + push.entries
            &&& after.streams_sent == counts.streams_sent + push.streams
            &&& after.out_of_order_entries == counts.out_of_order_entries
                + push.out_of_order_entries
            &&& after.max_lateness_ms >= push.max_lateness_ms
            &&& after.max_lateness_ms >= counts.max_lateness_ms
            &&& after.max_lateness_ms == push.max_lateness_ms || after.max_lateness_ms
                == counts.max_lateness_ms
            &&& after.attempted() == counts.attempted()
            &&& after.events_accepted == counts.events_accepted
        }),
{
}

/// What two workers counted is counted together: every number is the sum of theirs, and
/// the worst lateness is the worse of the two.
pub proof fn counts_of_two_workers_add_up(one: PushCounts, other: PushCounts)
    requires
        one.has_room(),
        other.has_room(),
    ensures
        ({
            let both = one.plus(other);
            &&& both.accepted == one.accepted + other.accepted
            &&& both.throttled == one.throttled + other.throttled
            &&& both.errors == one.errors + other.errors
            &&& both.events_accepted == one.events_accepted + other.events_accepted
            &&& both.events_offered == one.events_offered + other.events_offered
            &&& both.wire_bytes == one.wire_bytes + other.wire_bytes
            &&& both.line_bytes == one.line_bytes + other.line_bytes
            &&& both.encoded_bytes == one.encoded_bytes + other.encoded_bytes
            &&& both.out_of_order_entries == one.out_of_order_entries + other.out_of_order_entries
            &&& both.streams_sent == one.streams_sent + other.streams_sent
            &&& both.connects == one.connects + other.connects
            &&& both.max_lateness_ms >= one.max_lateness_ms
            &&& both.max_lateness_ms >= other.max_lateness_ms
            &&& both.max_lateness_ms == one.max_lateness_ms || both.max_lateness_ms
                == other.max_lateness_ms
        }),
{
}

/// A query that is answered counts once: as answered with its rows, as throttled, or as an
/// error; and only a probe of restored data counts among the probes.
pub proof fn an_answered_query_counts_once(
    counts: QueryCounts,
    shape: QueryShape,
    status: u16,
    rows: u64,
)
    requires
        counts.has_room(),
        rows <= crate::load::report::MAX_COUNT,
    ensures
        ({
            let after = counts.with_answer(shape, status, rows);
            let probe = status == 200 && shape == QueryShape::RestoreProbe;
            &&& after.answered + after.errors + after.throttled == counts.answered + counts.errors
                + counts.throttled + 1
            &&& after.answered == counts.answered + 1 <==> status == 200
            &&& after.throttled == counts.throttled + 1 <==> status == 429
            &&& after.rows_returned == counts.rows_returned + if status == 200 {
                rows as int
            } else {
                0
            }
            &&& after.restore_probes == counts.restore_probes + if probe {
                1int
            } else {
                0
            }
            &&& after.restore_rows == counts.restore_rows + if probe {
                rows as int
            } else {
                0
            }
            &&& after.restore_probes_with_rows == counts.restore_probes_with_rows + if probe && rows
                > 0 {
                1int
            } else {
                0
            }
        }),
{
}

// -------------------------------------------------------------------- queries
proof fn shape_from(weights: Seq<u32>, roll: int, from: int, i: int)
    requires
        weights.len() == 5,
        0 <= from <= i < 5,
        weight_sum(weights, from) - weight_sum(weights, i) <= roll,
        roll < weight_sum(weights, from) - weight_sum(weights, i) + weights[i],
    ensures
        shape_at(weights, roll, from) == QUERY_SHAPES@[i],
    decreases i - from,
{
    if from < i {
        sums_fall(weights, from + 1, i);
        shape_from(weights, roll - weights[from], from + 1, i);
    }
}

proof fn sums_fall(weights: Seq<u32>, from: int, i: int)
    requires
        0 <= from <= i <= weights.len(),
    ensures
        weight_sum(weights, i) <= weight_sum(weights, from),
    decreases i - from,
{
    if from < i {
        sums_fall(weights, from + 1, i);
    }
}

/// A shape is drawn by as many rolls as it weighs: those behind what the shapes in front
/// of it weigh together.
pub proof fn a_shape_is_drawn_as_often_as_it_weighs(weights: Seq<u32>, roll: int, i: int)
    requires
        weights.len() == 5,
        0 <= i < 5,
        weight_sum(weights, 0) - weight_sum(weights, i) <= roll,
        roll < weight_sum(weights, 0) - weight_sum(weights, i) + weights[i],
    ensures
        shape_at(weights, roll, 0) == QUERY_SHAPES@[i],
{
    shape_from(weights, roll, 0, i);
}

// ---------------------------------------------------------------------- lists
/// A list without repeats has what the list has.
pub proof fn nothing_is_lost_with_the_repeats(list: Seq<Seq<char>>, item: Seq<char>)
    ensures
        without_repeats(list).contains(item) <==> list.contains(item),
        without_repeats(list).len() <= list.len(),
        list.len() > 0 ==> without_repeats(list).len() > 0 && without_repeats(list).last()
            == list.last(),
    decreases list.len(),
{
    if list.len() > 1 {
        let rest = list.drop_last();
        let kept = without_repeats(rest);
        nothing_is_lost_with_the_repeats(rest, item);
        assert(list =~= rest.push(list.last()));
        if rest.contains(item) {
            let i = choose|i: int| 0 <= i < rest.len() && rest[i] == item;
            assert(list[i] == item);
        }
        if list.contains(item) {
            let i = choose|i: int| 0 <= i < list.len() && list[i] == item;
            if i < rest.len() {
                assert(rest[i] == item);
            }
        }
        assert(list[list.len() - 1] == list.last());
        if list.last() == list[list.len() - 2] {
            assert(rest[rest.len() - 1] == list.last());
        } else {
            let now = kept.push(list.last());
            if kept.contains(item) {
                let i = choose|i: int| 0 <= i < kept.len() && kept[i] == item;
                assert(now[i] == item);
            }
            if now.contains(item) {
                let i = choose|i: int| 0 <= i < now.len() && now[i] == item;
                if i < kept.len() {
                    assert(kept[i] == item);
                }
            }
            assert(now[kept.len() as int] == list.last());
        }
    }
}

/// A padded line begins with the line, and has the length that was asked for unless the
/// line is longer.
pub proof fn padding_only_adds_behind_a_line(line: Seq<char>, length: nat)
    ensures
        padded(line, length).len() == if line.len() < length {
            length
        } else {
            line.len()
        },
        padded(line, length).take(line.len() as int) == line,
{
    assert(padded(line, length).take(line.len() as int) =~= line);
}

/// What two workers asked is counted together: every number is the sum of theirs.
pub proof fn queries_of_two_workers_add_up(one: QueryCounts, other: QueryCounts)
    requires
        one.has_room(),
        other.has_room(),
    ensures
        ({
            let both = one.plus(other);
            &&& both.answered == one.answered + other.answered
            &&& both.throttled == one.throttled + other.throttled
            &&& both.errors == one.errors + other.errors
            &&& both.rows_returned == one.rows_returned + other.rows_returned
            &&& both.restore_probes == one.restore_probes + other.restore_probes
            &&& both.restore_rows == one.restore_rows + other.restore_rows
            &&& both.restore_probes_with_rows == one.restore_probes_with_rows
                + other.restore_probes_with_rows
            &&& both.connects == one.connects + other.connects
        }),
{
}

/// Every target is met exactly if each of them was measured and met.
pub proof fn a_target_that_was_not_measured_is_not_met(rows: Seq<Option<bool>>, i: int)
    ensures
        0 <= i < rows.len() && rows[i] != Some(true) ==> !all_met(rows),
        all_met(rows) ==> forall|j: int|
            0 <= j < rows.len() ==> #[trigger] rows[j] is Some && rows[j]->Some_0,
        (forall|j: int| 0 <= j < rows.len() ==> #[trigger] rows[j] is Some && rows[j]->Some_0)
            ==> all_met(rows),
{
}

} // verus!
