//! Moving the tables into parts: when to, in which steps, and what to undo when
//! a step fails.

use vstd::prelude::*;
use vstd::string::*;

use crate::config::Config;
use crate::time::Duration;

verus! {

// ----------------------------------------------------------------------- when
/// Whether the tables are flushed now: there is something in them, and it has
/// reached the size or waited the interval that calls for it.
pub open spec fn is_due(
    logs_empty: bool,
    traces_empty: bool,
    size: nat,
    elapsed: Duration,
    config: Config,
) -> bool {
    &&& !(logs_empty && traces_empty)
    &&& size >= config.flush_max_bytes || elapsed.nanos >= config.flush_max_interval.nanos
}

/// Whether to flush.
pub fn should_flush(
    logs_empty: bool,
    traces_empty: bool,
    log_bytes: usize,
    trace_bytes: usize,
    elapsed: Duration,
    config: &Config,
) -> (due: bool)
    ensures
        due == is_due(
            logs_empty,
            traces_empty,
            if log_bytes + trace_bytes > usize::MAX {
                usize::MAX as nat
            } else {
                (log_bytes + trace_bytes) as nat
            },
            elapsed,
            *config,
        ),
        logs_empty && traces_empty ==> !due,
        (!logs_empty || !traces_empty) && log_bytes + trace_bytes <= usize::MAX ==> due == (log_bytes
            + trace_bytes >= config.flush_max_bytes || elapsed.nanos
            >= config.flush_max_interval.nanos),
{
    if logs_empty && traces_empty {
        return false;
    }
    let size: usize = log_bytes.saturating_add(trace_bytes);
    size as u64 >= config.flush_max_bytes || elapsed.nanos >= config.flush_max_interval.nanos
}

// ---------------------------------------------------------------------- steps
/// One step of a flush.
#[derive(Clone, Copy, Debug, PartialEq, Eq, Structural)]
pub enum FlushStep {
    /// Make the directory of the parts.
    CreateDirectory,
    /// Write the log parts and the trace parts.
    WriteParts,
    /// Read the checkpoint that is in force.
    ReadCheckpoint,
    /// Settle a flush transaction that an earlier flush left.
    Reconcile,
    /// Record this flush as a transaction.
    RecordTransaction,
    /// Publish the log parts to the object store.
    PublishLogs,
    /// Publish the trace parts to the object store.
    PublishTraces,
    /// Show the log parts to queries.
    RegisterLogs,
    /// Show the trace parts to queries.
    RegisterTraces,
    /// Move the checkpoint behind what was flushed.
    AdvanceCheckpoint,
    /// Drop the record of the transaction. The checkpoint is what commits it, so
    /// a record that stays is harmless and no failure.
    ClearTransaction,
}

/// The steps of a flush of nothing.
pub const EMPTY_LOCAL: [FlushStep; 1] = [FlushStep::AdvanceCheckpoint];

/// The steps of a flush of nothing, with an object store.
pub const EMPTY_REMOTE: [FlushStep; 2] = [FlushStep::AdvanceCheckpoint, FlushStep::ClearTransaction];

/// The steps of a flush.
pub const LOCAL: [FlushStep; 5] = [
    FlushStep::CreateDirectory,
    FlushStep::WriteParts,
    FlushStep::RegisterLogs,
    FlushStep::RegisterTraces,
    FlushStep::AdvanceCheckpoint,
];

/// The steps of a flush with an object store.
pub const REMOTE: [FlushStep; 11] = [
    FlushStep::CreateDirectory,
    FlushStep::WriteParts,
    FlushStep::ReadCheckpoint,
    FlushStep::Reconcile,
    FlushStep::RecordTransaction,
    FlushStep::PublishLogs,
    FlushStep::PublishTraces,
    FlushStep::RegisterLogs,
    FlushStep::RegisterTraces,
    FlushStep::AdvanceCheckpoint,
    FlushStep::ClearTransaction,
];

/// A flush that has taken its snapshot.
#[derive(Clone, Copy, Debug, PartialEq, Eq, Structural)]
pub struct Flush {
    /// Where the log stood when the snapshot was taken.
    pub offset: u64,
    /// Whether parts are published to an object store.
    pub remote: bool,
    /// Whether the snapshot holds nothing.
    pub empty: bool,
}

/// What becomes of the snapshot that the tables still hold.
#[derive(Clone, Copy, Debug, PartialEq, Eq, Structural)]
pub enum Snapshot {
    /// It is dropped: parts show it now.
    Commit,
    /// It goes back into the tables.
    Abort,
}

/// What to undo when a step fails, in this order.
#[derive(Clone, Copy, Debug, PartialEq, Eq, Structural)]
pub struct Undo {
    /// Count a failure of the object store.
    pub record_remote_failure: bool,
    /// Take the log parts away from queries.
    pub unregister_logs: bool,
    /// Roll the transaction back in the object store.
    pub roll_back: bool,
    /// Remove the part directories.
    pub remove_parts: bool,
    pub snapshot: Snapshot,
    /// Keep the offset, so that the checkpoint is advanced before any later
    /// flush.
    pub keep_offset: bool,
}

impl Flush {
    /// The steps, in order.
    pub open spec fn steps(self) -> Seq<FlushStep> {
        match (self.empty, self.remote) {
            (true, false) => EMPTY_LOCAL@,
            (true, true) => EMPTY_REMOTE@,
            (false, false) => LOCAL@,
            (false, true) => REMOTE@,
        }
    }

    /// The step that follows a number of steps, if there is one.
    pub fn step(&self, done: usize) -> (step: Option<FlushStep>)
        ensures
            step == if done < self.steps().len() {
                Some(self.steps()[done as int])
            } else {
                None
            },
    {
        if self.empty {
            if self.remote {
                let steps = EMPTY_REMOTE;
                if done < steps.len() {
                    return Some(steps[done]);
                }
            } else {
                let steps = EMPTY_LOCAL;
                if done < steps.len() {
                    return Some(steps[done]);
                }
            }
        } else if self.remote {
            let steps = REMOTE;
            if done < steps.len() {
                return Some(steps[done]);
            }
        } else {
            let steps = LOCAL;
            if done < steps.len() {
                return Some(steps[done]);
            }
        }
        None
    }

    /// What is undone when a step fails. Parts that are not shown yet are
    /// removed and the snapshot goes back; parts that a remote manifest has made
    /// visible stay. A checkpoint that could not be advanced is ambiguous, since
    /// it may be durable all the same: the parts stay and the snapshot goes.
    pub open spec fn undo_of(self, step: FlushStep) -> Undo {
        let none = Undo {
            record_remote_failure: false,
            unregister_logs: false,
            roll_back: false,
            remove_parts: false,
            snapshot: Snapshot::Abort,
            keep_offset: false,
        };
        match step {
            FlushStep::CreateDirectory | FlushStep::WriteParts => none,
            FlushStep::ReadCheckpoint | FlushStep::Reconcile | FlushStep::RecordTransaction => Undo {
                remove_parts: true,
                ..none
            },
            FlushStep::PublishLogs | FlushStep::PublishTraces => Undo {
                record_remote_failure: true,
                roll_back: true,
                remove_parts: true,
                ..none
            },
            FlushStep::RegisterLogs => Undo { remove_parts: !self.remote, ..none },
            FlushStep::RegisterTraces => Undo {
                unregister_logs: true,
                remove_parts: !self.remote,
                ..none
            },
            FlushStep::AdvanceCheckpoint => Undo {
                snapshot: Snapshot::Commit,
                keep_offset: true,
                ..none
            },
            FlushStep::ClearTransaction => Undo { snapshot: Snapshot::Commit, ..none },
        }
    }

    /// What to undo when a step fails.
    pub fn undo(&self, step: FlushStep) -> (undo: Undo)
        ensures
            undo == self.undo_of(step),
    {
        let mut undo = Undo {
            record_remote_failure: false,
            unregister_logs: false,
            roll_back: false,
            remove_parts: false,
            snapshot: Snapshot::Abort,
            keep_offset: false,
        };
        match step {
            FlushStep::CreateDirectory | FlushStep::WriteParts => {},
            FlushStep::ReadCheckpoint | FlushStep::Reconcile | FlushStep::RecordTransaction => {
                undo.remove_parts = true;
            },
            FlushStep::PublishLogs | FlushStep::PublishTraces => {
                undo.record_remote_failure = true;
                undo.roll_back = true;
                undo.remove_parts = true;
            },
            FlushStep::RegisterLogs => {
                undo.remove_parts = !self.remote;
            },
            FlushStep::RegisterTraces => {
                undo.unregister_logs = true;
                undo.remove_parts = !self.remote;
            },
            FlushStep::AdvanceCheckpoint => {
                undo.snapshot = Snapshot::Commit;
                undo.keep_offset = true;
            },
            FlushStep::ClearTransaction => {
                undo.snapshot = Snapshot::Commit;
            },
        }
        undo
    }

    /// What a failed step is reported as, given what went wrong with undoing it.
    pub open spec fn failure_text(
        self,
        step: FlushStep,
        error: Seq<char>,
        roll_back_error: Option<Seq<char>>,
        remove_error: Option<Seq<char>>,
    ) -> Seq<char> {
        match step {
            FlushStep::Reconcile => "failed to reconcile flush transaction: "@ + error,
            FlushStep::RecordTransaction => "failed to record flush transaction: "@ + error,
            FlushStep::PublishLogs => published_text(
                "object-store publish failed: "@,
                error,
                roll_back_error,
                remove_error,
            ),
            FlushStep::PublishTraces => published_text(
                "trace object-store publish failed: "@,
                error,
                roll_back_error,
                remove_error,
            ),
            FlushStep::RegisterLogs | FlushStep::RegisterTraces => match remove_error {
                Some(remove_error) if !self.remote => error
                    + "; failed to clean rejected parts: "@ + remove_error,
                _ => error,
            },
            FlushStep::AdvanceCheckpoint => if self.empty {
                error
            } else {
                "parts were committed but journal checkpoint could not be advanced: "@ + error
            },
            _ => error,
        }
    }

    /// The message of a failed step.
    pub fn failure(
        &self,
        step: FlushStep,
        error: &str,
        roll_back_error: Option<&str>,
        remove_error: Option<&str>,
    ) -> (message: String)
        ensures
            message@ == self.failure_text(
                step,
                error@,
                shown_error(roll_back_error),
                shown_error(remove_error),
            ),
    {
        match step {
            FlushStep::Reconcile => joined("failed to reconcile flush transaction: ", error),
            FlushStep::RecordTransaction => joined("failed to record flush transaction: ", error),
            FlushStep::PublishLogs => published_message(
                "object-store publish failed: ",
                error,
                roll_back_error,
                remove_error,
            ),
            FlushStep::PublishTraces => published_message(
                "trace object-store publish failed: ",
                error,
                roll_back_error,
                remove_error,
            ),
            FlushStep::RegisterLogs | FlushStep::RegisterTraces => {
                let mut message = error.to_owned();
                if !self.remote {
                    if let Some(remove_error) = remove_error {
                        message.append("; failed to clean rejected parts: ");
                        message.append(remove_error);
                    }
                }
                message
            },
            FlushStep::AdvanceCheckpoint => {
                if self.empty {
                    error.to_owned()
                } else {
                    joined(
                        "parts were committed but journal checkpoint could not be advanced: ",
                        error,
                    )
                }
            },
            _ => error.to_owned(),
        }
    }
}

pub open spec fn shown_error(error: Option<&str>) -> Option<Seq<char>> {
    match error {
        Some(error) => Some(error@),
        None => None,
    }
}

/// What a failed publish is reported as: a failure to remove the parts comes
/// before a failure to roll back.
pub open spec fn published_text(
    prefix: Seq<char>,
    error: Seq<char>,
    roll_back_error: Option<Seq<char>>,
    remove_error: Option<Seq<char>>,
) -> Seq<char> {
    match (remove_error, roll_back_error) {
        (Some(remove_error), _) => prefix + error + "; failed to clean local parts: "@
            + remove_error,
        (None, Some(roll_back_error)) => prefix + error + "; rollback failed: "@ + roll_back_error,
        (None, None) => prefix + error,
    }
}

fn joined(prefix: &str, error: &str) -> (message: String)
    ensures
        message@ == prefix@ + error@,
{
    let mut message = prefix.to_owned();
    message.append(error);
    message
}

fn published_message(
    prefix: &str,
    error: &str,
    roll_back_error: Option<&str>,
    remove_error: Option<&str>,
) -> (message: String)
    ensures
        message@ == published_text(
            prefix@,
            error@,
            shown_error(roll_back_error),
            shown_error(remove_error),
        ),
{
    let mut message = joined(prefix, error);
    match remove_error {
        Some(remove_error) => {
            message.append("; failed to clean local parts: ");
            message.append(remove_error);
        },
        None => match roll_back_error {
            Some(roll_back_error) => {
                message.append("; rollback failed: ");
                message.append(roll_back_error);
            },
            None => {},
        },
    }
    message
}

/// What a failure to write the trace parts is reported as: the log parts that
/// were written before it are removed, which may fail too.
pub fn trace_write_failure(error: &str, remove_error: Option<&str>) -> (message: String)
    ensures
        message@ == match remove_error {
            None => "trace flush failed: "@ + error@,
            Some(remove_error) => "trace flush failed: "@ + error@
                + "; log-part rollback failed: "@ + remove_error@,
        },
{
    let mut message = joined("trace flush failed: ", error);
    if let Some(remove_error) = remove_error {
        message.append("; log-part rollback failed: ");
        message.append(remove_error);
    }
    message
}

// ----------------------------------------------------------------------- loop
/// How the checkpoint is moved: with an object store the log is compacted,
/// without one the checkpoint is written.
#[derive(Clone, Copy, Debug, PartialEq, Eq, Structural)]
pub enum Advance {
    Compact { offset: u64 },
    SetCheckpoint { offset: u64 },
}

/// How to move the checkpoint.
pub fn advance_checkpoint(offset: u64, compact: bool) -> (advance: Advance)
    ensures
        advance == if compact {
            Advance::Compact { offset }
        } else {
            Advance::SetCheckpoint { offset }
        },
{
    if compact {
        Advance::Compact { offset }
    } else {
        Advance::SetCheckpoint { offset }
    }
}

/// What the flush loop remembers between flushes.
#[derive(Clone, Copy, Debug, PartialEq, Eq, Structural)]
pub struct FlushLoop {
    /// A checkpoint that could not be advanced.
    pub pending_checkpoint: Option<u64>,
    pub healthy: bool,
    pub flush_success: u64,
    pub flush_errors: u64,
}

impl FlushLoop {
    pub fn new() -> (state: Self)
        ensures
            state == (FlushLoop {
                pending_checkpoint: None,
                healthy: true,
                flush_success: 0,
                flush_errors: 0,
            }),
    {
        FlushLoop { pending_checkpoint: None, healthy: true, flush_success: 0, flush_errors: 0 }
    }

    /// The checkpoint to advance before anything else.
    pub fn retry_pending_checkpoint(&self, compact: bool) -> (out: Result<Advance, String>)
        ensures
            match (self.pending_checkpoint, out) {
                (Some(offset), Ok(advance)) => advance == if compact {
                    Advance::Compact { offset }
                } else {
                    Advance::SetCheckpoint { offset }
                },
                (None, Err(message)) => message@ == "no journal checkpoint is pending"@,
                _ => false,
            },
    {
        match self.pending_checkpoint {
            Some(offset) => Ok(advance_checkpoint(offset, compact)),
            None => Err("no journal checkpoint is pending".to_owned()),
        }
    }

    /// What follows the retry of a checkpoint. The answer is whether the loop
    /// goes on to a flush: it waits first if the retry failed.
    pub fn retried(&mut self, ok: bool) -> (goes_on: bool)
        requires
            old(self).pending_checkpoint is Some,
            old(self).flush_success < u64::MAX,
            old(self).flush_errors < u64::MAX,
        ensures
            goes_on == ok,
            *final(self) == if ok {
                FlushLoop {
                    pending_checkpoint: None,
                    healthy: true,
                    flush_success: (old(self).flush_success + 1) as u64,
                    ..*old(self)
                }
            } else {
                FlushLoop {
                    healthy: false,
                    flush_errors: (old(self).flush_errors + 1) as u64,
                    ..*old(self)
                }
            },
    {
        if ok {
            self.pending_checkpoint = None;
            self.healthy = true;
            self.flush_success = self.flush_success + 1;
        } else {
            self.healthy = false;
            self.flush_errors = self.flush_errors + 1;
        }
        ok
    }

    /// What follows a flush that could not even take its snapshot.
    pub fn snapshot_failed(&mut self)
        requires
            old(self).flush_errors < u64::MAX,
        ensures
            *final(self) == (FlushLoop {
                healthy: false,
                flush_errors: (old(self).flush_errors + 1) as u64,
                ..*old(self)
            }),
    {
        self.healthy = false;
        self.flush_errors = self.flush_errors + 1;
    }

    /// What follows a flush: `failed` is the step it failed in, if it failed.
    pub fn flushed(&mut self, flush: &Flush, failed: Option<FlushStep>)
        requires
            old(self).pending_checkpoint is None,
            old(self).flush_success < u64::MAX,
            old(self).flush_errors < u64::MAX,
        ensures
            *final(self) == match failed {
                None => FlushLoop {
                    healthy: true,
                    flush_success: (old(self).flush_success + 1) as u64,
                    ..*old(self)
                },
                Some(step) => FlushLoop {
                    healthy: false,
                    flush_errors: (old(self).flush_errors + 1) as u64,
                    pending_checkpoint: if flush.undo_of(step).keep_offset {
                        Some(flush.offset)
                    } else {
                        None
                    },
                    ..*old(self)
                },
            },
    {
        match failed {
            None => {
                self.healthy = true;
                self.flush_success = self.flush_success + 1;
            },
            Some(step) => {
                self.healthy = false;
                self.flush_errors = self.flush_errors + 1;
                if flush.undo(step).keep_offset {
                    self.pending_checkpoint = Some(flush.offset);
                }
            },
        }
    }

    /// Whether nothing is left to flush.
    pub fn drained(&self, logs_empty: bool, traces_empty: bool) -> (done: bool)
        ensures
            done == (logs_empty && traces_empty && self.pending_checkpoint is None),
    {
        logs_empty && traces_empty && self.pending_checkpoint.is_none()
    }
}

// ----------------------------------------------------------------------- rows
/// Where the rows of a snapshot are.
pub struct Rows {
    /// The tables hold them.
    pub held: bool,
    /// Queries see the log rows in parts.
    pub logs_registered: bool,
    /// Queries see the trace rows in parts.
    pub traces_registered: bool,
    /// The parts are on disk.
    pub on_disk: bool,
    /// Replay of the log would bring them back.
    pub logged: bool,
}

/// Where the rows are when a flush begins.
pub open spec fn rows_before() -> Rows {
    Rows {
        held: true,
        logs_registered: false,
        traces_registered: false,
        on_disk: false,
        logged: true,
    }
}

impl Rows {
    /// Where the rows are after a step that succeeds.
    pub open spec fn after(self, step: FlushStep) -> Rows {
        match step {
            FlushStep::WriteParts => Rows { on_disk: true, ..self },
            FlushStep::RegisterLogs => Rows { logs_registered: true, ..self },
            FlushStep::RegisterTraces => Rows { traces_registered: true, ..self },
            FlushStep::AdvanceCheckpoint => Rows { logged: false, ..self },
            _ => self,
        }
    }

    /// Where the rows are after the first steps of a flush.
    pub open spec fn after_steps(self, steps: Seq<FlushStep>, n: nat) -> Rows
        decreases n,
    {
        if n == 0 {
            self
        } else {
            self.after_steps(steps, (n - 1) as nat).after(steps[n - 1])
        }
    }

    /// Where the rows are after a step was undone. `advanced` says whether a
    /// checkpoint that failed to advance is in force all the same.
    pub open spec fn undone(self, step: FlushStep, undo: Undo, advanced: bool) -> Rows {
        Rows {
            held: undo.snapshot == Snapshot::Abort,
            logs_registered: self.logs_registered && !undo.unregister_logs,
            on_disk: self.on_disk && !undo.remove_parts,
            logged: self.logged && !(step == FlushStep::AdvanceCheckpoint && advanced),
            ..self
        }
    }

    /// Where the rows are after a flush that succeeds.
    pub open spec fn flushed(self) -> Rows {
        Rows { held: false, ..self }
    }

    /// Whether a query sees every row, and none of them twice.
    pub open spec fn seen_once(self) -> bool {
        (self.held != self.logs_registered) && (self.held != self.traces_registered)
    }

    /// Whether the rows are there after a restart.
    pub open spec fn survives(self) -> bool {
        self.logged || self.on_disk
    }
}

/// A flush that succeeds leaves every row in parts and nowhere else.
pub proof fn a_flush_moves_the_rows(flush: Flush)
    requires
        !flush.empty,
    ensures
        rows_before().after_steps(flush.steps(), flush.steps().len()).flushed() == (Rows {
            held: false,
            logs_registered: true,
            traces_registered: true,
            on_disk: true,
            logged: false,
        }),
{
    reveal_with_fuel(Rows::after_steps, 12);
}

/// A flush that fails in any step loses no row and shows none twice, whether or
/// not a checkpoint that failed to advance is in force.
pub proof fn a_failed_flush_keeps_the_rows(flush: Flush, n: nat, advanced: bool)
    requires
        !flush.empty,
        n < flush.steps().len(),
    ensures
        ({
            let step = flush.steps()[n as int];
            let rows = rows_before().after_steps(flush.steps(), n).undone(
                step,
                flush.undo_of(step),
                advanced,
            );
            rows.seen_once() && rows.survives()
        }),
{
    reveal_with_fuel(Rows::after_steps, 12);
}

/// A flush is due exactly if either table holds something, and what they hold together
/// has reached the size or has waited the interval that calls for a flush. So two empty
/// tables are never flushed, and a table that holds something is flushed in the end
/// whatever the other one holds.
pub proof fn a_flush_is_due_as_soon_as_something_calls_for_it(
    logs_empty: bool,
    traces_empty: bool,
    size: nat,
    elapsed: Duration,
    config: Config,
)
    ensures
        logs_empty && traces_empty ==> !is_due(logs_empty, traces_empty, size, elapsed, config),
        !logs_empty && size >= config.flush_max_bytes ==> is_due(
            logs_empty,
            traces_empty,
            size,
            elapsed,
            config,
        ),
        !traces_empty && size >= config.flush_max_bytes ==> is_due(
            logs_empty,
            traces_empty,
            size,
            elapsed,
            config,
        ),
        !logs_empty && elapsed.nanos >= config.flush_max_interval.nanos ==> is_due(
            logs_empty,
            traces_empty,
            size,
            elapsed,
            config,
        ),
        !traces_empty && elapsed.nanos >= config.flush_max_interval.nanos ==> is_due(
            logs_empty,
            traces_empty,
            size,
            elapsed,
            config,
        ),
        size < config.flush_max_bytes && elapsed.nanos < config.flush_max_interval.nanos
            ==> !is_due(logs_empty, traces_empty, size, elapsed, config),
{
}

/// A flush that is due stays due as the tables fill and as time passes.
pub proof fn a_flush_that_is_due_stays_due(
    logs_empty: bool,
    traces_empty: bool,
    size: nat,
    more: nat,
    elapsed: Duration,
    later: Duration,
    config: Config,
)
    requires
        is_due(logs_empty, traces_empty, size, elapsed, config),
        size <= more,
        elapsed.nanos <= later.nanos,
    ensures
        is_due(logs_empty, traces_empty, more, later, config),
        is_due(false, traces_empty, more, later, config),
        is_due(logs_empty, false, more, later, config),
{
}

/// The steps of a flush of something: every part is written, and then shown to
/// queries, and only then does the checkpoint move. With an object store, what an
/// earlier flush left is settled before the transaction is recorded, the transaction is
/// recorded before anything is published, everything is published before anything is
/// shown, and the record goes last. Without one nothing is published. No step is taken
/// twice.
pub proof fn the_steps_of_a_flush_are_in_order(flush: Flush, i: int, j: int)
    requires
        !flush.empty,
        0 <= i < flush.steps().len(),
        0 <= j < flush.steps().len(),
    ensures
        flush.steps().contains(FlushStep::CreateDirectory),
        flush.steps().contains(FlushStep::WriteParts),
        flush.steps().contains(FlushStep::RegisterLogs),
        flush.steps().contains(FlushStep::RegisterTraces),
        flush.steps().contains(FlushStep::AdvanceCheckpoint),
        flush.remote <==> flush.steps().contains(FlushStep::ReadCheckpoint),
        flush.remote <==> flush.steps().contains(FlushStep::Reconcile),
        flush.remote <==> flush.steps().contains(FlushStep::RecordTransaction),
        flush.remote <==> flush.steps().contains(FlushStep::PublishLogs),
        flush.remote <==> flush.steps().contains(FlushStep::PublishTraces),
        flush.remote <==> flush.steps().contains(FlushStep::ClearTransaction),
        i != j ==> flush.steps()[i] != flush.steps()[j],
        flush.steps()[i] == FlushStep::CreateDirectory && i != j ==> i < j,
        flush.steps()[i] == FlushStep::WriteParts && flush.steps()[j]
            != FlushStep::CreateDirectory ==> i <= j,
        flush.steps()[i] == FlushStep::ReadCheckpoint && flush.steps()[j]
            == FlushStep::RecordTransaction ==> i < j,
        flush.steps()[i] == FlushStep::Reconcile && flush.steps()[j]
            == FlushStep::RecordTransaction ==> i < j,
        flush.steps()[i] == FlushStep::RecordTransaction && (flush.steps()[j]
            == FlushStep::PublishLogs || flush.steps()[j] == FlushStep::PublishTraces) ==> i < j,
        (flush.steps()[i] == FlushStep::PublishLogs || flush.steps()[i]
            == FlushStep::PublishTraces) && (flush.steps()[j] == FlushStep::RegisterLogs
            || flush.steps()[j] == FlushStep::RegisterTraces) ==> i < j,
        (flush.steps()[i] == FlushStep::RegisterLogs || flush.steps()[i]
            == FlushStep::RegisterTraces) && flush.steps()[j] == FlushStep::AdvanceCheckpoint ==> i
            < j,
        flush.steps()[i] == FlushStep::ClearTransaction && i != j ==> j < i,
{
    let steps = flush.steps();
    assert(steps[0] == FlushStep::CreateDirectory);
    assert(steps[1] == FlushStep::WriteParts);
    if flush.remote {
        assert(steps.len() == 11);
        assert(steps[2] == FlushStep::ReadCheckpoint);
        assert(steps[3] == FlushStep::Reconcile);
        assert(steps[4] == FlushStep::RecordTransaction);
        assert(steps[5] == FlushStep::PublishLogs);
        assert(steps[6] == FlushStep::PublishTraces);
        assert(steps[7] == FlushStep::RegisterLogs);
        assert(steps[8] == FlushStep::RegisterTraces);
        assert(steps[9] == FlushStep::AdvanceCheckpoint);
        assert(steps[10] == FlushStep::ClearTransaction);
    } else {
        assert(steps.len() == 5);
        assert(steps[2] == FlushStep::RegisterLogs);
        assert(steps[3] == FlushStep::RegisterTraces);
        assert(steps[4] == FlushStep::AdvanceCheckpoint);
    }
}

/// A flush of nothing still moves the checkpoint, writes and shows nothing, and drops
/// the record of a transaction exactly if there is an object store.
pub proof fn a_flush_of_nothing_moves_the_checkpoint(flush: Flush, i: int)
    requires
        flush.empty,
        0 <= i < flush.steps().len(),
    ensures
        flush.steps()[0] == FlushStep::AdvanceCheckpoint,
        i > 0 ==> flush.remote && flush.steps()[i] == FlushStep::ClearTransaction,
        flush.steps().len() == if flush.remote {
            2int
        } else {
            1
        },
{
}

/// A flush that gives its snapshot back leaves no parts on disk, unless a remote
/// manifest shows them already; and no parts are removed that queries or a manifest
/// show. What was published is rolled back exactly if publishing failed.
pub proof fn a_failed_flush_leaves_no_stray_parts(flush: Flush, n: nat, advanced: bool)
    requires
        !flush.empty,
        n < flush.steps().len(),
    ensures
        ({
            let step = flush.steps()[n as int];
            let undo = flush.undo_of(step);
            let before = rows_before().after_steps(flush.steps(), n);
            let rows = before.undone(step, undo, advanced);
            let published = flush.remote && (step == FlushStep::RegisterLogs || step
                == FlushStep::RegisterTraces);
            &&& rows.held && rows.on_disk ==> published
            &&& published ==> rows.on_disk && !undo.roll_back
            &&& undo.remove_parts ==> rows.held && rows.logged && !rows.logs_registered
            &&& undo.roll_back == (step == FlushStep::PublishLogs || step
                == FlushStep::PublishTraces)
            &&& undo.record_remote_failure == undo.roll_back
            &&& undo.unregister_logs == (before.logs_registered && !before.traces_registered)
            &&& rows.held == (step != FlushStep::AdvanceCheckpoint && step
                != FlushStep::ClearTransaction)
        }),
{
    reveal_with_fuel(Rows::after_steps, 12);
}

/// Whatever else a failed step is reported as, the report holds the error as it is,
/// and what went wrong with undoing a publish.
pub proof fn the_report_of_a_failure_holds_the_error(
    flush: Flush,
    step: FlushStep,
    error: Seq<char>,
    roll_back_error: Option<Seq<char>>,
    remove_error: Option<Seq<char>>,
)
    ensures
        exists|before: Seq<char>, behind: Seq<char>|
            flush.failure_text(step, error, roll_back_error, remove_error) == #[trigger] (before
                + error + behind),
        (step == FlushStep::PublishLogs || step == FlushStep::PublishTraces) && remove_error
            is Some ==> exists|before: Seq<char>|
            flush.failure_text(step, error, roll_back_error, remove_error) == #[trigger] (before
                + remove_error->Some_0),
        (step == FlushStep::PublishLogs || step == FlushStep::PublishTraces) && remove_error
            is None && roll_back_error is Some ==> exists|before: Seq<char>|
            flush.failure_text(step, error, roll_back_error, remove_error) == #[trigger] (before
                + roll_back_error->Some_0),
{
    let text = flush.failure_text(step, error, roll_back_error, remove_error);
    let none = Seq::<char>::empty();
    match step {
        FlushStep::Reconcile => {
            assert(text =~= "failed to reconcile flush transaction: "@ + error + none);
        },
        FlushStep::RecordTransaction => {
            assert(text =~= "failed to record flush transaction: "@ + error + none);
        },
        FlushStep::PublishLogs | FlushStep::PublishTraces => {
            let prefix = if step == FlushStep::PublishLogs {
                "object-store publish failed: "@
            } else {
                "trace object-store publish failed: "@
            };
            match (remove_error, roll_back_error) {
                (Some(other), _) => {
                    let said = "; failed to clean local parts: "@;
                    assert(text =~= prefix + error + (said + other));
                    assert(text =~= (prefix + error + said) + other);
                },
                (None, Some(other)) => {
                    let said = "; rollback failed: "@;
                    assert(text =~= prefix + error + (said + other));
                    assert(text =~= (prefix + error + said) + other);
                },
                (None, None) => {
                    assert(text =~= prefix + error + none);
                },
            }
        },
        FlushStep::RegisterLogs | FlushStep::RegisterTraces => {
            match remove_error {
                Some(other) if !flush.remote => {
                    assert(text =~= none + error + ("; failed to clean rejected parts: "@ + other));
                },
                _ => {
                    assert(text =~= none + error + none);
                },
            }
        },
        FlushStep::AdvanceCheckpoint => {
            if flush.empty {
                assert(text =~= none + error + none);
            } else {
                assert(text
                    =~= "parts were committed but journal checkpoint could not be advanced: "@
                    + error + none);
            }
        },
        _ => {
            assert(text =~= none + error + none);
        },
    }
}

/// The tables give a snapshot up only once parts show it, and an offset is kept
/// for another try exactly if it was the checkpoint that failed.
pub proof fn only_a_failed_checkpoint_is_kept(flush: Flush, step: FlushStep)
    ensures
        flush.undo_of(step).keep_offset == (step == FlushStep::AdvanceCheckpoint),
        flush.undo_of(step).keep_offset ==> flush.undo_of(step).snapshot == Snapshot::Commit,
{
}

} // verus!
