//! What was sampled of the server while a load run went on, and the verdict on
//! the run.

use vstd::prelude::*;
use vstd::string::*;

use crate::checks::shown;
use crate::load::probe::Memory;
use crate::load::stats::{GaugeSeries, TargetRow};
use crate::load::tally::first_error;

verus! {

// -------------------------------------------------------------------- samples
/// What was sampled.
pub struct SampleOutcome {
    pub wal_backlog: GaugeSeries,
    pub memtable_bytes: GaugeSeries,
    pub part_count: GaugeSeries,
    pub rss: GaugeSeries,
    pub anon: GaugeSeries,
    pub health_samples: u64,
    pub health_healthy: u64,
    pub scrape_errors: u64,
    pub vm_hwm_bytes: Option<u64>,
    pub anon_peak_bytes: Option<u64>,
    pub file_bytes_end: Option<u64>,
    pub rss_error: Option<String>,
}

/// The larger of a value and what was seen before.
pub open spec fn highest(before: Option<u64>, value: u64) -> Option<u64> {
    match before {
        Some(before) => if value > before {
            Some(value)
        } else {
            Some(before)
        },
        None => Some(value),
    }
}

fn raise(before: Option<u64>, value: u64) -> (out: Option<u64>)
    ensures
        out == highest(before, value),
{
    match before {
        Some(before) => {
            if value > before {
                Some(value)
            } else {
                Some(before)
            }
        },
        None => Some(value),
    }
}

/// The peak that is known once a reading may have been taken.
pub open spec fn highest_if_read(before: Option<u64>, value: Option<u64>) -> Option<u64> {
    match value {
        Some(value) => highest(before, value),
        None => before,
    }
}

impl SampleOutcome {
    pub fn new() -> (outcome: Self)
        ensures
            outcome.wal_backlog.samples@.len() == 0,
            outcome.memtable_bytes.samples@.len() == 0,
            outcome.part_count.samples@.len() == 0,
            outcome.rss.samples@.len() == 0,
            outcome.anon.samples@.len() == 0,
            outcome.health_samples == 0,
            outcome.health_healthy == 0,
            outcome.scrape_errors == 0,
            outcome.vm_hwm_bytes is None,
            outcome.anon_peak_bytes is None,
            outcome.file_bytes_end is None,
            outcome.rss_error is None,
    {
        SampleOutcome {
            wal_backlog: GaugeSeries::new(),
            memtable_bytes: GaugeSeries::new(),
            part_count: GaugeSeries::new(),
            rss: GaugeSeries::new(),
            anon: GaugeSeries::new(),
            health_samples: 0,
            health_healthy: 0,
            scrape_errors: 0,
            vm_hwm_bytes: None,
            anon_peak_bytes: None,
            file_bytes_end: None,
            rss_error: None,
        }
    }

    /// Whether nothing but the memory readings differs between two states.
    pub open spec fn same_gauges(&self, other: &SampleOutcome) -> bool {
        &&& self.wal_backlog == other.wal_backlog
        &&& self.memtable_bytes == other.memtable_bytes
        &&& self.part_count == other.part_count
        &&& self.health_samples == other.health_samples
        &&& self.health_healthy == other.health_healthy
        &&& self.scrape_errors == other.scrape_errors
    }

    /// Whether nothing but the gauges differs between two states.
    pub open spec fn same_memory(&self, other: &SampleOutcome) -> bool {
        &&& self.rss == other.rss
        &&& self.anon == other.anon
        &&& self.vm_hwm_bytes == other.vm_hwm_bytes
        &&& self.anon_peak_bytes == other.anon_peak_bytes
        &&& self.file_bytes_end == other.file_bytes_end
        &&& self.rss_error == other.rss_error
    }

    /// Notes a reading of the server's memory.
    pub fn note_memory(
        &mut self,
        elapsed: u64,
        memory: &Memory,
        anon_bytes: Option<u64>,
        file_bytes: Option<u64>,
    )
        ensures
            final(self).same_gauges(old(self)),
            final(self).rss.samples@ == old(self).rss.samples@.push((elapsed, memory.vm_rss_bytes)),
            final(self).anon.samples@ == match anon_bytes {
                Some(anon) => old(self).anon.samples@.push((elapsed, anon)),
                None => old(self).anon.samples@,
            },
            final(self).vm_hwm_bytes == highest(old(self).vm_hwm_bytes, memory.vm_hwm_bytes),
            final(self).anon_peak_bytes == highest_if_read(old(self).anon_peak_bytes, anon_bytes),
            final(self).file_bytes_end == file_bytes,
            final(self).rss_error == old(self).rss_error,
    {
        self.rss.push(elapsed, memory.vm_rss_bytes);
        self.vm_hwm_bytes = raise(self.vm_hwm_bytes, memory.vm_hwm_bytes);
        if let Some(anon) = anon_bytes {
            self.anon.push(elapsed, anon);
            self.anon_peak_bytes = raise(self.anon_peak_bytes, anon);
        }
        self.file_bytes_end = file_bytes;
    }

    /// Notes the reading that is taken once the workload has stopped. The peaks
    /// are high-water marks, so it alone covers the whole run.
    pub fn note_last_memory(
        &mut self,
        memory: &Memory,
        anon_bytes: Option<u64>,
        file_bytes: Option<u64>,
    )
        ensures
            final(self).same_gauges(old(self)),
            final(self).rss == old(self).rss,
            final(self).anon == old(self).anon,
            final(self).vm_hwm_bytes == highest(old(self).vm_hwm_bytes, memory.vm_hwm_bytes),
            final(self).anon_peak_bytes == highest_if_read(old(self).anon_peak_bytes, anon_bytes),
            final(self).file_bytes_end == match file_bytes {
                Some(bytes) => Some(bytes),
                None => old(self).file_bytes_end,
            },
            final(self).rss_error == old(self).rss_error,
    {
        self.vm_hwm_bytes = raise(self.vm_hwm_bytes, memory.vm_hwm_bytes);
        if let Some(anon) = anon_bytes {
            self.anon_peak_bytes = raise(self.anon_peak_bytes, anon);
        }
        if file_bytes.is_some() {
            self.file_bytes_end = file_bytes;
        }
    }

    /// Notes why the memory could not be read. The first reason is kept.
    pub fn note_memory_error(&mut self, error: String)
        ensures
            final(self).same_gauges(old(self)),
            final(self).rss == old(self).rss,
            final(self).anon == old(self).anon,
            final(self).vm_hwm_bytes == old(self).vm_hwm_bytes,
            final(self).anon_peak_bytes == old(self).anon_peak_bytes,
            final(self).file_bytes_end == old(self).file_bytes_end,
            shown(final(self).rss_error) == first_error(shown(old(self).rss_error), Some(error@)),
    {
        if self.rss_error.is_none() {
            self.rss_error = Some(error);
        }
    }

    /// Notes what is held in memory, and in how many parts the rest is.
    pub fn note_gauges(&mut self, elapsed: u64, memtable_bytes: u64, part_count: u64)
        ensures
            final(self).same_memory(old(self)),
            final(self).memtable_bytes.samples@ == old(self).memtable_bytes.samples@.push(
                (elapsed, memtable_bytes),
            ),
            final(self).part_count.samples@ == old(self).part_count.samples@.push(
                (elapsed, part_count),
            ),
            final(self).wal_backlog == old(self).wal_backlog,
            final(self).health_samples == old(self).health_samples,
            final(self).health_healthy == old(self).health_healthy,
            final(self).scrape_errors == old(self).scrape_errors,
    {
        self.memtable_bytes.push(elapsed, memtable_bytes);
        self.part_count.push(elapsed, part_count);
    }

    /// Notes the backlog of the log, and whether the object store is healthy where
    /// that is published.
    pub fn note_backlog(&mut self, elapsed: u64, wal_backlog_bytes: u64, healthy: Option<bool>)
        requires
            old(self).health_samples < u64::MAX,
            old(self).health_healthy <= old(self).health_samples,
        ensures
            final(self).same_memory(old(self)),
            final(self).wal_backlog.samples@ == old(self).wal_backlog.samples@.push(
                (elapsed, wal_backlog_bytes),
            ),
            final(self).health_samples == if healthy is Some {
                old(self).health_samples + 1
            } else {
                old(self).health_samples as int
            },
            final(self).health_healthy == if healthy == Some(true) {
                old(self).health_healthy + 1
            } else {
                old(self).health_healthy as int
            },
            final(self).health_healthy <= final(self).health_samples,
            final(self).memtable_bytes == old(self).memtable_bytes,
            final(self).part_count == old(self).part_count,
            final(self).scrape_errors == old(self).scrape_errors,
    {
        self.wal_backlog.push(elapsed, wal_backlog_bytes);
        if let Some(healthy) = healthy {
            self.health_samples = self.health_samples + 1;
            if healthy {
                self.health_healthy = self.health_healthy + 1;
            }
        }
    }

    /// Notes that the published series could not be read.
    pub fn note_scrape_error(&mut self)
        requires
            old(self).scrape_errors < u64::MAX,
        ensures
            final(self).same_memory(old(self)),
            final(self).scrape_errors == old(self).scrape_errors + 1,
            final(self).wal_backlog == old(self).wal_backlog,
            final(self).memtable_bytes == old(self).memtable_bytes,
            final(self).part_count == old(self).part_count,
            final(self).health_samples == old(self).health_samples,
            final(self).health_healthy == old(self).health_healthy,
    {
        self.scrape_errors = self.scrape_errors + 1;
    }
}

// ----------------------------------------------------------------------- stop
/// Why a run is over.
#[derive(Clone, Copy, Debug, PartialEq, Eq, Structural)]
pub enum End {
    EventTarget,
    DurationCap,
}

/// Whether enough events were accepted. Without a target there never are.
pub open spec fn has_enough(target_events: u64, accepted: u64) -> bool {
    target_events > 0 && accepted >= target_events
}

/// Whether a run is over: it has gone on for long enough, or enough was accepted.
pub fn is_over(past_deadline: bool, target_events: u64, accepted: u64) -> (over: bool)
    ensures
        over == (past_deadline || has_enough(target_events, accepted)),
{
    past_deadline || (target_events > 0 && accepted >= target_events)
}

/// Why a run was over.
pub fn ended_on(target_events: u64, accepted: u64) -> (end: End)
    ensures
        end == if has_enough(target_events, accepted) {
            End::EventTarget
        } else {
            End::DurationCap
        },
{
    if target_events > 0 && accepted >= target_events {
        End::EventTarget
    } else {
        End::DurationCap
    }
}

impl End {
    pub fn name(self) -> (name: &'static str)
        ensures
            name@ == match self {
                End::EventTarget => "event_target"@,
                End::DurationCap => "duration_cap"@,
            },
    {
        match self {
            End::EventTarget => "event_target",
            End::DurationCap => "duration_cap",
        }
    }
}

// -------------------------------------------------------------------- verdict
/// What the run showed of a server that publishes how it flushes.
#[derive(Clone, Copy, Debug, PartialEq, Eq, Structural)]
pub struct Evidence {
    pub ingest_errors: u64,
    pub health_samples: u64,
    pub health_healthy: u64,
    pub cache_healthy: bool,
    pub flush_success: u64,
    pub flush_errors: u64,
    pub drained: bool,
}

/// Whether the flush loop makes progress. One that is stuck fails at about every
/// tick, so that its errors outnumber its successes.
pub open spec fn flush_progresses(evidence: Evidence) -> bool {
    &&& evidence.flush_success > 0
    &&& evidence.flush_errors <= evidence.flush_success
    &&& evidence.drained
}

/// Whether the object store was healthy in at least nineteen samples of twenty.
/// Where there was no sample it was not.
pub open spec fn remote_healthy(samples: u64, healthy: u64) -> bool {
    samples > 0 && healthy * 20 >= samples * 19
}

/// Whether the server behaved.
pub open spec fn behaved(evidence: Evidence) -> bool {
    &&& evidence.ingest_errors == 0
    &&& remote_healthy(evidence.health_samples, evidence.health_healthy)
    &&& evidence.cache_healthy
    &&& flush_progresses(evidence)
}

pub fn flush_progressing(evidence: &Evidence) -> (ok: bool)
    ensures
        ok == flush_progresses(*evidence),
{
    evidence.flush_success > 0 && evidence.flush_errors <= evidence.flush_success
        && evidence.drained
}

pub fn behavioral_pass(evidence: &Evidence) -> (pass: bool)
    ensures
        pass == behaved(*evidence),
{
    evidence.ingest_errors == 0 && evidence.health_samples > 0 && evidence.health_healthy as u128
        * 20 >= evidence.health_samples as u128 * 19 && evidence.cache_healthy
        && flush_progressing(evidence)
}

/// Whether another system took what it was sent: something arrived, and nothing
/// was dropped.
pub fn intake_pass(received: u64, discarded: u64) -> (pass: bool)
    ensures
        pass == (received > 0 && discarded == 0),
{
    received > 0 && discarded == 0
}

/// Whether every target was measured and met.
pub open spec fn all_met(rows: Seq<Option<bool>>) -> bool {
    forall|i: int| 0 <= i < rows.len() ==> #[trigger] rows[i] == Some(true)
}

/// Whether every target passes. One that was not measured does not.
pub fn numeric_pass(rows: &[Option<bool>]) -> (pass: bool)
    ensures
        pass == all_met(rows@),
{
    let mut i: usize = 0;
    while i < rows.len()
        invariant
            i <= rows@.len(),
            forall|j: int| 0 <= j < i ==> #[trigger] rows@[j] == Some(true),
        decreases rows@.len() - i,
    {
        match rows[i] {
            Some(true) => {},
            _ => {
                assert(rows@[i as int] != Some(true));
                return false;
            },
        }
        i = i + 1;
    }
    true
}

#[derive(Clone, Copy, Debug, PartialEq, Eq, Structural)]
pub enum Verdict {
    Pass,
    PassBehavioralOnly,
    Fail,
}

/// The verdict on a run.
pub open spec fn verdict_of(behavioral: bool, numeric: bool) -> Verdict {
    if behavioral && numeric {
        Verdict::Pass
    } else if behavioral {
        Verdict::PassBehavioralOnly
    } else {
        Verdict::Fail
    }
}

impl Verdict {
    pub fn of(behavioral: bool, numeric: bool) -> (verdict: Verdict)
        ensures
            verdict == verdict_of(behavioral, numeric),
    {
        if behavioral && numeric {
            Verdict::Pass
        } else if behavioral {
            Verdict::PassBehavioralOnly
        } else {
            Verdict::Fail
        }
    }

    pub fn name(self) -> (name: &'static str)
        ensures
            name@ == match self {
                Verdict::Pass => "PASS"@,
                Verdict::PassBehavioralOnly => "PASS_BEHAVIORAL_ONLY"@,
                Verdict::Fail => "FAIL"@,
            },
    {
        match self {
            Verdict::Pass => "PASS",
            Verdict::PassBehavioralOnly => "PASS_BEHAVIORAL_ONLY",
            Verdict::Fail => "FAIL",
        }
    }

    /// What a run with this verdict exits with.
    pub fn exit_code(self) -> (code: i32)
        ensures
            code == if self == Verdict::Pass {
                0int
            } else {
                2int
            },
    {
        match self {
            Verdict::Pass => 0,
            _ => 2,
        }
    }
}

/// A run with a target that was not measured does not pass, whatever the rest of
/// it shows.
pub proof fn a_missing_measurement_does_not_pass(
    rows: Seq<TargetRow>,
    i: int,
    behavioral: bool,
)
    requires
        0 <= i < rows.len(),
        rows[i].pass is None,
    ensures
        verdict_of(behavioral, all_met(rows.map_values(|row: TargetRow| row.pass)))
            != Verdict::Pass,
{
    let passes = rows.map_values(|row: TargetRow| row.pass);
    assert(passes[i] == rows[i].pass);
}

} // verus!
