//! Latencies, percentiles that refuse to be computed, and whether a backlog
//! drains.

use vstd::prelude::*;
use vstd::string::*;

use crate::order::{ordered, ordered_is_sorted, sort, texts_view};
use crate::text::{decimal, push_decimal, with_number};

verus! {

// ---------------------------------------------------------------- percentiles
/// How many samples a percentile needs: enough that at least one of them is
/// above it, so that it is no maximum under another name.
pub open spec fn samples_for(percent: nat) -> nat {
    if percent == 0 || percent >= 100 {
        1
    } else {
        ((200 - percent + (100 - percent) - 1) / (100 - percent)) as nat
    }
}

/// How many samples a percentile needs.
pub fn min_samples_for(percent: u32) -> (n: usize)
    ensures
        n == samples_for(percent as nat),
{
    if percent == 0 || percent >= 100 {
        return 1;
    }
    let rest: u32 = 100 - percent;
    assert((200 - percent + rest - 1) / rest as int <= 300) by (nonlinear_arith)
        requires
            rest == 100 - percent,
            0 < percent < 100,
    ;
    ((200 - percent + rest - 1) / rest) as usize
}

/// Which of so many samples in order a percentile is.
pub open spec fn percentile_index(count: nat, percent: nat) -> int {
    ((count - 1) * percent + 99) / 100
}

/// A percentile of samples, if there are enough.
pub open spec fn percentile(samples: Seq<u64>, percent: nat) -> Option<u64> {
    if samples.len() < samples_for(percent) {
        None
    } else if percentile_index(samples.len(), percent) < samples.len() {
        Some(ordered(samples)[percentile_index(samples.len(), percent)])
    } else {
        Some(ordered(samples).last())
    }
}

/// Measurements of one kind.
pub struct Series {
    pub samples: Vec<u64>,
}

/// What a series comes to. A percentile that the count cannot support is absent,
/// and why is said beside it.
pub struct Summary {
    pub count: usize,
    pub p50: Option<u64>,
    pub p95: Option<u64>,
    pub p99: Option<u64>,
    pub min: Option<u64>,
    pub max: Option<u64>,
    pub unsupported: Vec<String>,
}

/// Why a percentile is absent.
pub open spec fn unsupported_text(name: Seq<char>, percent: nat, count: nat) -> Seq<char> {
    name + " needs "@ + decimal(samples_for(percent)) + " samples, has "@ + decimal(count)
}

/// Why a percentile is absent, if it is.
pub open spec fn unsupported_one(samples: Seq<u64>, name: Seq<char>, percent: nat) -> Seq<
    Seq<char>,
> {
    if percentile(samples, percent) is None {
        seq![unsupported_text(name, percent, samples.len())]
    } else {
        seq![]
    }
}

impl Series {
    pub fn new() -> (series: Self)
        ensures
            series.samples@ == Seq::<u64>::empty(),
    {
        Series { samples: Vec::new() }
    }

    pub fn push(&mut self, value: u64)
        ensures
            final(self).samples@ == old(self).samples@.push(value),
    {
        self.samples.push(value);
    }

    pub fn extend(&mut self, other: &Series)
        ensures
            final(self).samples@ == old(self).samples@ + other.samples@,
    {
        let ghost before = self.samples@;
        let mut i: usize = 0;
        assert(before + other.samples@.take(0) =~= before);
        while i < other.samples.len()
            invariant
                i <= other.samples@.len(),
                self.samples@ == before + other.samples@.take(i as int),
            decreases other.samples@.len() - i,
        {
            self.samples.push(other.samples[i]);
            i = i + 1;
            assert(other.samples@.take(i as int) =~= other.samples@.take(i - 1).push(
                other.samples@[i - 1],
            ));
        }
        assert(other.samples@.take(i as int) =~= other.samples@);
    }

    /// A percentile, if there are enough samples for it.
    pub fn quantile(&self, percent: u32) -> (out: Option<u64>)
        requires
            self.samples.len() * percent + 99 <= u64::MAX,
        ensures
            out == percentile(self.samples@, percent as nat),
    {
        let count: usize = self.samples.len();
        if count < min_samples_for(percent) {
            return None;
        }
        let mut list = self.samples.clone();
        assert(list@ =~= self.samples@);
        sort(&mut list);
        proof {
            ordered_is_sorted(self.samples@);
        }
        quantile_of(&list, percent, Ghost(self.samples@))
    }

    /// What the series comes to.
    pub fn summary(&self) -> (out: Summary)
        requires
            self.samples.len() * 99 + 99 <= u64::MAX,
        ensures
            out.count == self.samples@.len(),
            out.p50 == percentile(self.samples@, 50),
            out.p95 == percentile(self.samples@, 95),
            out.p99 == percentile(self.samples@, 99),
            self.samples@.len() == 0 ==> out.min is None && out.max is None,
            self.samples@.len() > 0 ==> out.min == Some(ordered(self.samples@)[0]) && out.max
                == Some(ordered(self.samples@).last()),
            texts_view(out.unsupported@) == unsupported_one(self.samples@, "p50"@, 50)
                + unsupported_one(self.samples@, "p95"@, 95) + unsupported_one(
                self.samples@,
                "p99"@,
                99,
            ),
    {
        let count: usize = self.samples.len();
        let p50 = self.quantile(50);
        let p95 = self.quantile(95);
        let p99 = self.quantile(99);
        let mut unsupported: Vec<String> = Vec::new();
        assert(texts_view(unsupported@) =~= seq![]);
        note_unsupported(&mut unsupported, p50, "p50", 50, count);
        note_unsupported(&mut unsupported, p95, "p95", 95, count);
        note_unsupported(&mut unsupported, p99, "p99", 99, count);
        let mut list = self.samples.clone();
        assert(list@ =~= self.samples@);
        sort(&mut list);
        proof {
            ordered_is_sorted(self.samples@);
        }
        let (min, max): (Option<u64>, Option<u64>) = if count == 0 {
            (None, None)
        } else {
            (Some(list[0]), Some(list[count - 1]))
        };
        assert(texts_view(unsupported@) =~= unsupported_one(self.samples@, "p50"@, 50)
            + unsupported_one(self.samples@, "p95"@, 95) + unsupported_one(
            self.samples@,
            "p99"@,
            99,
        ));
        Summary { count, p50, p95, p99, min, max, unsupported }
    }
}

fn note_unsupported(
    list: &mut Vec<String>,
    value: Option<u64>,
    name: &str,
    percent: u32,
    count: usize,
)
    ensures
        texts_view(final(list)@) == texts_view(old(list)@) + if value is None {
            seq![unsupported_text(name@, percent as nat, count as nat)]
        } else {
            seq![]
        },
{
    let ghost before = list@;
    if value.is_none() {
        let mut message = name.to_owned();
        message.append(" needs ");
        push_decimal(&mut message, min_samples_for(percent) as u64);
        message.append(" samples, has ");
        push_decimal(&mut message, count as u64);
        let ghost text = message@;
        list.push(message);
        assert(texts_view(list@) =~= texts_view(before) + seq![text]);
    } else {
        assert(texts_view(list@) =~= texts_view(before) + Seq::<Seq<char>>::empty());
    }
}

fn quantile_of(list: &Vec<u64>, percent: u32, Ghost(samples): Ghost<Seq<u64>>) -> (out: Option<u64>)
    requires
        list@ == ordered(samples),
        samples.len() >= samples_for(percent as nat),
        list.len() * percent + 99 <= u64::MAX,
    ensures
        out == percentile(samples, percent as nat),
{
    proof {
        ordered_is_sorted(samples);
        assert(samples_for(percent as nat) >= 1) by (nonlinear_arith)
            requires
                samples_for(percent as nat) == if percent == 0 || percent >= 100 {
                    1
                } else {
                    ((200 - percent + (100 - percent) - 1) / (100 - percent)) as nat
                },
        ;
        assert((list@.len() - 1) * percent <= list@.len() * percent) by (nonlinear_arith)
            requires
                list@.len() >= 1,
        ;
    }
    let index: u64 = ((list.len() - 1) as u64 * percent as u64 + 99) / 100;
    if index < list.len() as u64 {
        Some(list[index as usize])
    } else {
        Some(list[list.len() - 1])
    }
}

/// A percentile that is given is no maximum under another name: at least one
/// sample stands above its place.
pub proof fn a_given_percentile_is_not_the_maximum(samples: Seq<u64>, percent: nat)
    requires
        0 < percent < 100,
        percentile(samples, percent) is Some,
    ensures
        percentile_index(samples.len(), percent) < samples.len() - 1,
{
    let n = samples.len() as int;
    let p = percent as int;
    let rest = 100 - p;
    let needed = (200 - p + rest - 1) / rest;
    assert(n >= needed);
    assert(needed * rest >= 200 - p) by (nonlinear_arith)
        requires
            rest > 0,
            needed == (200 - p + rest - 1) / rest,
    ;
    assert(n * rest >= 200 - p) by (nonlinear_arith)
        requires
            n >= needed,
            rest > 0,
            needed * rest >= 200 - p,
    ;
    assert((n - 1) * p + 99 < (n - 1) * 100) by (nonlinear_arith)
        requires
            n * rest >= 200 - p,
            rest == 100 - p,
    ;
}

/// A latency for each request, three ways: `service` starts when the request went
/// out, `response` when it was meant to, and `queueing` is the time between.
pub struct LatencyPair {
    pub service: Series,
    pub response: Series,
    pub queueing: Series,
}

impl LatencyPair {
    pub open spec fn wf(&self) -> bool {
        &&& self.service.samples@.len() == self.response.samples@.len()
        &&& self.service.samples@.len() == self.queueing.samples@.len()
        &&& forall|i: int|
            0 <= i < self.response.samples@.len() ==> #[trigger] self.response.samples@[i]
                == self.queueing.samples@[i] + self.service.samples@[i]
    }

    pub fn new() -> (pair: Self)
        ensures
            pair.wf(),
            pair.service.samples@.len() == 0,
    {
        LatencyPair { service: Series::new(), response: Series::new(), queueing: Series::new() }
    }

    /// Notes a request: how long after its intended send it went out, and how
    /// long it took from there.
    pub fn record(&mut self, queueing: u64, service: u64)
        requires
            old(self).wf(),
            queueing + service <= u64::MAX,
        ensures
            final(self).wf(),
            final(self).queueing.samples@ == old(self).queueing.samples@.push(queueing),
            final(self).service.samples@ == old(self).service.samples@.push(service),
            final(self).response.samples@ == old(self).response.samples@.push(
                (queueing + service) as u64,
            ),
    {
        self.queueing.push(queueing);
        self.service.push(service);
        self.response.push(queueing + service);
    }

    pub fn extend(&mut self, other: &LatencyPair)
        requires
            old(self).wf(),
            other.wf(),
        ensures
            final(self).wf(),
            final(self).queueing.samples@ == old(self).queueing.samples@ + other.queueing.samples@,
            final(self).service.samples@ == old(self).service.samples@ + other.service.samples@,
            final(self).response.samples@ == old(self).response.samples@ + other.response.samples@,
    {
        self.queueing.extend(&other.queueing);
        self.service.extend(&other.service);
        self.response.extend(&other.response);
    }
}

// --------------------------------------------------------------------- gauges
/// A gauge as it was sampled: when, and what it read.
pub struct GaugeSeries {
    pub samples: Vec<(u64, u64)>,
}

/// The largest reading, zero if there is none.
pub open spec fn peak_of(samples: Seq<(u64, u64)>) -> u64
    decreases samples.len(),
{
    if samples.len() == 0 {
        0
    } else {
        let before = peak_of(samples.drop_last());
        if samples.last().1 > before {
            samples.last().1
        } else {
            before
        }
    }
}

/// The smallest reading, zero if there is none.
pub open spec fn trough_of(samples: Seq<(u64, u64)>) -> u64
    decreases samples.len(),
{
    if samples.len() == 0 {
        0
    } else if samples.len() == 1 {
        samples[0].1
    } else {
        let before = trough_of(samples.drop_last());
        if samples.last().1 < before {
            samples.last().1
        } else {
            before
        }
    }
}

/// Where the largest reading is, the last of them if it was read more than once.
pub open spec fn last_peak(samples: Seq<(u64, u64)>) -> int
    decreases samples.len(),
{
    if samples.len() <= 1 {
        0
    } else {
        let before = last_peak(samples.drop_last());
        if samples.last().1 >= samples[before].1 {
            samples.len() - 1
        } else {
            before
        }
    }
}

/// The smallest reading at or after the peak.
pub open spec fn low_after_peak(samples: Seq<(u64, u64)>) -> u64 {
    if samples.len() == 0 {
        0
    } else {
        trough_of(samples.skip(last_peak(samples)))
    }
}

impl GaugeSeries {
    pub fn new() -> (series: Self)
        ensures
            series.samples@ == Seq::<(u64, u64)>::empty(),
    {
        GaugeSeries { samples: Vec::new() }
    }

    pub fn push(&mut self, elapsed: u64, value: u64)
        ensures
            final(self).samples@ == old(self).samples@.push((elapsed, value)),
    {
        self.samples.push((elapsed, value));
    }

    pub fn peak(&self) -> (out: u64)
        ensures
            out == peak_of(self.samples@),
    {
        let mut out: u64 = 0;
        let mut i: usize = 0;
        assert(self.samples@.take(0) =~= seq![]);
        while i < self.samples.len()
            invariant
                i <= self.samples@.len(),
                out == peak_of(self.samples@.take(i as int)),
            decreases self.samples@.len() - i,
        {
            assert(self.samples@.take(i + 1).drop_last() =~= self.samples@.take(i as int));
            if self.samples[i].1 > out {
                out = self.samples[i].1;
            }
            i = i + 1;
        }
        assert(self.samples@.take(i as int) =~= self.samples@);
        out
    }

    pub fn trough(&self) -> (out: u64)
        ensures
            out == trough_of(self.samples@),
    {
        if self.samples.len() == 0 {
            return 0;
        }
        assert(self.samples@.skip(0) =~= self.samples@);
        self.trough_from(0)
    }

    fn trough_from(&self, start: usize) -> (out: u64)
        requires
            start < self.samples.len(),
        ensures
            out == trough_of(self.samples@.skip(start as int)),
    {
        let ghost rest = self.samples@.skip(start as int);
        let mut out: u64 = self.samples[start].1;
        let mut i: usize = start + 1;
        assert(rest.take(1).len() == 1 && rest.take(1)[0] == self.samples@[start as int]);
        while i < self.samples.len()
            invariant
                start < i <= self.samples@.len(),
                rest == self.samples@.skip(start as int),
                out == trough_of(rest.take(i - start)),
            decreases self.samples@.len() - i,
        {
            assert(rest.take(i + 1 - start).drop_last() =~= rest.take(i - start));
            assert(rest.take(i + 1 - start).last() == self.samples@[i as int]);
            if self.samples[i].1 < out {
                out = self.samples[i].1;
            }
            i = i + 1;
        }
        assert(rest.take(i - start) =~= rest);
        out
    }

    /// The smallest reading at or after the peak.
    pub fn post_peak_min(&self) -> (out: u64)
        ensures
            out == low_after_peak(self.samples@),
    {
        if self.samples.len() == 0 {
            return 0;
        }
        let mut peak: usize = 0;
        let mut i: usize = 1;
        assert(self.samples@.take(1).len() == 1);
        while i < self.samples.len()
            invariant
                1 <= i <= self.samples@.len(),
                peak < i,
                peak == last_peak(self.samples@.take(i as int)),
            decreases self.samples@.len() - i,
        {
            assert(self.samples@.take(i + 1).drop_last() =~= self.samples@.take(i as int));
            if self.samples[i].1 >= self.samples[peak].1 {
                peak = i;
            }
            i = i + 1;
        }
        assert(self.samples@.take(i as int) =~= self.samples@);
        self.trough_from(peak)
    }
}

// --------------------------------------------------------------------- drains
/// The trend of a backlog: whether it rises, and the slope as it is shown.
pub struct Slope {
    pub rising: bool,
    pub shown: String,
}

pub struct DrainVerdict {
    pub decided: bool,
    pub drained: bool,
    pub reason: String,
}

/// A backlog that never was this large belongs to a flush loop that never fell
/// behind.
pub const TRIVIALLY_HEALTHY_BYTES: u64 = 16_777_216;

/// Whether a backlog is drained, and whether that can be said: it is judged over
/// time, since a backlog has to come down after it went up.
pub open spec fn drains(
    samples: Seq<(u64, u64)>,
    ceiling: u64,
    minimum: nat,
    rising: bool,
) -> (bool, bool) {
    if samples.len() < minimum {
        (false, false)
    } else if peak_of(samples) > ceiling {
        (true, false)
    } else if peak_of(samples) < TRIVIALLY_HEALTHY_BYTES {
        (true, true)
    } else {
        (true, !rising || 2 * low_after_peak(samples) <= peak_of(samples))
    }
}

/// Why.
pub open spec fn drain_reason(
    samples: Seq<(u64, u64)>,
    ceiling: u64,
    minimum: nat,
    rising: bool,
    slope: Seq<char>,
) -> Seq<char> {
    let peak = decimal(peak_of(samples) as nat);
    let low = decimal(low_after_peak(samples) as nat);
    if samples.len() < minimum {
        decimal(samples.len()) + " backlog samples is too few to read a trend from; "@ + decimal(
            minimum,
        ) + " required"@
    } else if peak_of(samples) > ceiling {
        "backlog peaked at "@ + peak + " bytes, past the engine's own "@ + decimal(ceiling as nat)
    } else if peak_of(samples) < TRIVIALLY_HEALTHY_BYTES {
        "backlog never exceeded "@ + peak
            + " bytes, below the 16777216-byte floor a falling-behind flush would dwarf"@
    } else if !rising {
        "backlog trend is "@ + slope + " bytes/s over the run"@
    } else if 2 * low_after_peak(samples) <= peak_of(samples) {
        "backlog is still ramping ("@ + slope + " bytes/s) but fell to "@ + low
            + " after its peak of "@ + peak
    } else {
        "backlog rises at "@ + slope + " bytes/s and never fell below half its peak of "@ + peak
            + " after reaching it"@
    }
}

/// Whether flush drains the log.
pub fn wal_backlog_drains(
    series: &GaugeSeries,
    ceiling_bytes: u64,
    minimum_samples: usize,
    slope: &Slope,
) -> (verdict: DrainVerdict)
    ensures
        (verdict.decided, verdict.drained) == drains(
            series.samples@,
            ceiling_bytes,
            minimum_samples as nat,
            slope.rising,
        ),
        verdict.reason@ == drain_reason(
            series.samples@,
            ceiling_bytes,
            minimum_samples as nat,
            slope.rising,
            slope.shown@,
        ),
{
    if series.samples.len() < minimum_samples {
        let mut reason = String::new();
        push_decimal(&mut reason, series.samples.len() as u64);
        reason.append(" backlog samples is too few to read a trend from; ");
        push_decimal(&mut reason, minimum_samples as u64);
        reason.append(" required");
        assert(reason@ =~= drain_reason(
            series.samples@,
            ceiling_bytes,
            minimum_samples as nat,
            slope.rising,
            slope.shown@,
        ));
        return DrainVerdict { decided: false, drained: false, reason };
    }
    let peak: u64 = series.peak();
    if peak > ceiling_bytes {
        let mut reason = with_number(
            "backlog peaked at ",
            peak,
            " bytes, past the engine's own ",
        );
        push_decimal(&mut reason, ceiling_bytes);
        return DrainVerdict { decided: true, drained: false, reason };
    }
    if peak < TRIVIALLY_HEALTHY_BYTES {
        let reason = with_number(
            "backlog never exceeded ",
            peak,
            " bytes, below the 16777216-byte floor a falling-behind flush would dwarf",
        );
        return DrainVerdict { decided: true, drained: true, reason };
    }
    let low: u64 = series.post_peak_min();
    if !slope.rising {
        let mut reason = "backlog trend is ".to_owned();
        reason.append(slope.shown.as_str());
        reason.append(" bytes/s over the run");
        DrainVerdict { decided: true, drained: true, reason }
    } else if low <= peak / 2 {
        let mut reason = "backlog is still ramping (".to_owned();
        reason.append(slope.shown.as_str());
        reason.append(" bytes/s) but fell to ");
        push_decimal(&mut reason, low);
        reason.append(" after its peak of ");
        push_decimal(&mut reason, peak);
        DrainVerdict { decided: true, drained: true, reason }
    } else {
        let mut reason = "backlog rises at ".to_owned();
        reason.append(slope.shown.as_str());
        reason.append(" bytes/s and never fell below half its peak of ");
        push_decimal(&mut reason, peak);
        reason.append(" after reaching it");
        DrainVerdict { decided: true, drained: false, reason }
    }
}

/// Where the readings only grow, the smallest at or after the peak is the last
/// one, which is the peak: such a backlog drains only if it is small or its trend
/// does not rise.
pub proof fn a_backlog_that_only_grows_does_not_drain(
    samples: Seq<(u64, u64)>,
    ceiling: u64,
    minimum: nat,
)
    requires
        samples.len() > 0,
        forall|i: int, j: int|
            0 <= i <= j < samples.len() ==> (#[trigger] samples[i]).1 <= (#[trigger] samples[j]).1,
        peak_of(samples) >= TRIVIALLY_HEALTHY_BYTES,
    ensures
        !drains(samples, ceiling, minimum, true).1,
{
    growing_peak(samples);
    let rest = samples.skip(last_peak(samples));
    assert(rest =~= seq![samples.last()]);
}

proof fn growing_peak(samples: Seq<(u64, u64)>)
    requires
        samples.len() > 0,
        forall|i: int, j: int|
            0 <= i <= j < samples.len() ==> (#[trigger] samples[i]).1 <= (#[trigger] samples[j]).1,
    ensures
        last_peak(samples) == samples.len() - 1,
        peak_of(samples) == samples.last().1,
    decreases samples.len(),
{
    if samples.len() > 1 {
        let before = samples.drop_last();
        assert forall|i: int, j: int| 0 <= i <= j < before.len() implies (#[trigger] before[i]).1
            <= (#[trigger] before[j]).1 by {
            assert(before[i] == samples[i] && before[j] == samples[j]);
        }
        growing_peak(before);
        assert(before.last() == samples[samples.len() - 2]);
    } else {
        reveal_with_fuel(peak_of, 2);
        assert(samples.drop_last() =~= seq![]);
    }
}

// -------------------------------------------------------------------- targets
/// A measured value against its ceiling. What was not measured neither passes nor
/// fails.
#[derive(Clone, Copy, Debug, PartialEq, Eq, Structural)]
pub struct TargetRow {
    pub measured: Option<u64>,
    pub target: u64,
    pub pass: Option<bool>,
}

pub fn target_row(measured: Option<u64>, target: u64) -> (row: TargetRow)
    ensures
        row == (TargetRow {
            measured,
            target,
            pass: match measured {
                Some(value) => Some(value <= target),
                None => None,
            },
        }),
{
    let pass: Option<bool> = match measured {
        Some(value) => Some(value <= target),
        None => None,
    };
    TargetRow { measured, target, pass }
}

} // verus!
