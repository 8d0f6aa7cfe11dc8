//! Dropping the part of the log that a flush has retired.
//!
//! The bytes behind the checkpoint are copied aside, an intent record says so
//! durably, the checkpoint is reset, and the copy takes the place of the log. A
//! crash between any two of these steps leaves the files in a state that
//! recovery, or the next attempt, can tell apart and finish.

use vstd::prelude::*;
use vstd::string::*;

use crate::bytes::{le_bytes, le_round_trip, le_value, push_le, read_le, span_values};
use crate::text::{decimal, push_decimal, with_number};

verus! {

pub const COMPACTION_STATE_FILE: &'static str = "journal.wal.compact.state";

/// The first byte of an intent record.
pub const COMPACTION_STATE_VERSION: u8 = 1;

/// The second byte of an intent record: the replacement may not have happened.
pub const PHASE_INTENT: u8 = 1;

/// What a second byte of two says: the replacement has happened.
pub const PHASE_REPLACED: u8 = 2;

// --------------------------------------------------------------------- errors
/// What kind of failure a message is about.
#[derive(Clone, Copy, Debug, PartialEq, Eq, Structural)]
pub enum FailureKind {
    InvalidInput,
    InvalidData,
    UnexpectedEof,
}

/// Why a compaction cannot go on.
pub struct CompactionFailure {
    pub kind: FailureKind,
    pub message: String,
}

fn failure(kind: FailureKind, message: &str) -> (out: CompactionFailure)
    ensures
        out.kind == kind,
        out.message@ == message@,
{
    CompactionFailure { kind, message: message.to_owned() }
}

// ---------------------------------------------------------------------- intent
/// What an intent record holds.
#[derive(Clone, Copy, Debug, PartialEq, Eq, Structural)]
pub struct CompactionState {
    /// Where the log is cut.
    pub offset: u64,
    /// How long the log was.
    pub source_len: u64,
    /// How long the copy is.
    pub retained_len: u64,
}

/// The bytes of an intent record.
pub open spec fn state_bytes(state: CompactionState) -> Seq<u8> {
    seq![COMPACTION_STATE_VERSION, PHASE_INTENT] + le_bytes(state.offset as nat, 8) + le_bytes(
        state.source_len as nat,
        8,
    ) + le_bytes(state.retained_len as nat, 8)
}

/// What the bytes of an intent record say.
pub open spec fn state_of(bytes: Seq<u8>) -> Option<CompactionState> {
    if bytes.len() == 26 && bytes[0] == COMPACTION_STATE_VERSION && (bytes[1] == PHASE_INTENT
        || bytes[1] == PHASE_REPLACED) {
        Some(
            CompactionState {
                offset: le_value(bytes.subrange(2, 10)) as u64,
                source_len: le_value(bytes.subrange(10, 18)) as u64,
                retained_len: le_value(bytes.subrange(18, 26)) as u64,
            },
        )
    } else {
        None
    }
}

/// Writes an intent record.
pub fn write_compaction_state(state: &CompactionState) -> (out: Vec<u8>)
    ensures
        out@ == state_bytes(*state),
{
    let mut out: Vec<u8> = Vec::new();
    out.push(COMPACTION_STATE_VERSION);
    out.push(PHASE_INTENT);
    push_le(&mut out, state.offset, 8);
    push_le(&mut out, state.source_len, 8);
    push_le(&mut out, state.retained_len, 8);
    assert(out@ =~= state_bytes(*state));
    out
}

/// Reads an intent record, if there is one.
pub fn read_compaction_state(file: Option<&[u8]>) -> (out: Result<
    Option<CompactionState>,
    CompactionFailure,
>)
    ensures
        match (file, out) {
            (None, out) => out matches Ok(None),
            (Some(bytes), Ok(state)) => state is Some && state_of(bytes@) == state,
            (Some(bytes), Err(error)) => {
                &&& state_of(bytes@) is None
                &&& error.kind == FailureKind::InvalidData
                &&& error.message@ == "invalid WAL compaction state"@
            },
        },
{
    match file {
        None => Ok(None),
        Some(bytes) => {
            if bytes.len() == 26 && bytes[0] == COMPACTION_STATE_VERSION && (bytes[1]
                == PHASE_INTENT || bytes[1] == PHASE_REPLACED) {
                Ok(
                    Some(
                        CompactionState {
                            offset: read_le(bytes, 2, 8),
                            source_len: read_le(bytes, 10, 8),
                            retained_len: read_le(bytes, 18, 8),
                        },
                    ),
                )
            } else {
                Err(failure(FailureKind::InvalidData, "invalid WAL compaction state"))
            }
        },
    }
}

/// Reading an intent record that was written gives it back.
pub proof fn state_round_trip(state: CompactionState)
    ensures
        state_of(state_bytes(state)) == Some(state),
{
    span_values();
    le_round_trip(state.offset as nat, 8);
    le_round_trip(state.source_len as nat, 8);
    le_round_trip(state.retained_len as nat, 8);
    let bytes = state_bytes(state);
    assert(bytes.subrange(2, 10) =~= le_bytes(state.offset as nat, 8));
    assert(bytes.subrange(10, 18) =~= le_bytes(state.source_len as nat, 8));
    assert(bytes.subrange(18, 26) =~= le_bytes(state.retained_len as nat, 8));
}

// ----------------------------------------------------------------------- plan
/// What an attempt to compact has to do, given what an earlier one left.
#[derive(Clone, Copy, Debug, PartialEq, Eq, Structural)]
pub enum Plan {
    /// Nothing is left over: take the steps, with this intent.
    Steps(CompactionState),
    /// The earlier attempt did not replace the log. Set the checkpoint, drop the
    /// copy, then the intent record, and plan again on the log as it is.
    RollBack { checkpoint: u64 },
    /// The earlier attempt did replace the log. Make that durable, drop the
    /// intent record and open the log again: its offset must never be applied to
    /// the replacement, whose live records it would cut away.
    Settle,
}

/// Why a fresh attempt is refused.
pub open spec fn beyond_log(offset: nat, good_len: nat) -> Seq<char> {
    "WAL compaction offset "@ + decimal(offset) + " exceeds durable length "@ + decimal(good_len)
}

/// What an attempt has to do, or why it is refused. `wal_len` is how long the log
/// is, `good_len` how long it is up to its last acknowledged record.
pub open spec fn planned(
    state: Option<CompactionState>,
    wal_len: nat,
    copy_exists: bool,
    offset: u64,
    good_len: u64,
) -> Result<Plan, (FailureKind, Seq<char>)> {
    match state {
        Some(state) => if copy_exists {
            if wal_len < state.source_len {
                Err(
                    (
                        FailureKind::InvalidData,
                        "source WAL is shorter than its recorded compaction length"@,
                    ),
                )
            } else {
                Ok(Plan::RollBack { checkpoint: state.offset })
            }
        } else {
            if wal_len < state.retained_len {
                Err(
                    (
                        FailureKind::InvalidData,
                        "replacement WAL is shorter than its recorded suffix"@,
                    ),
                )
            } else {
                Ok(Plan::Settle)
            }
        },
        None => if offset > good_len {
            Err((FailureKind::InvalidInput, beyond_log(offset as nat, good_len as nat)))
        } else {
            Ok(
                Plan::Steps(
                    CompactionState {
                        offset,
                        source_len: good_len,
                        retained_len: (good_len - offset) as u64,
                    },
                ),
            )
        },
    }
}

/// Plans an attempt to drop the log up to an offset.
pub fn plan_compaction(
    state: Option<CompactionState>,
    wal_len: u64,
    copy_exists: bool,
    offset: u64,
    good_len: u64,
) -> (out: Result<Plan, CompactionFailure>)
    ensures
        match out {
            Ok(plan) => planned(state, wal_len as nat, copy_exists, offset, good_len) == Ok::<
                Plan,
                (FailureKind, Seq<char>),
            >(plan),
            Err(error) => planned(state, wal_len as nat, copy_exists, offset, good_len) == Err::<
                Plan,
                (FailureKind, Seq<char>),
            >((error.kind, error.message@)),
        },
{
    match state {
        Some(state) => {
            if copy_exists {
                if wal_len < state.source_len {
                    return Err(
                        failure(
                            FailureKind::InvalidData,
                            "source WAL is shorter than its recorded compaction length",
                        ),
                    );
                }
                Ok(Plan::RollBack { checkpoint: state.offset })
            } else {
                if wal_len < state.retained_len {
                    return Err(
                        failure(
                            FailureKind::InvalidData,
                            "replacement WAL is shorter than its recorded suffix",
                        ),
                    );
                }
                Ok(Plan::Settle)
            }
        },
        None => {
            if offset > good_len {
                let mut message = with_number(
                    "WAL compaction offset ",
                    offset,
                    " exceeds durable length ",
                );
                push_decimal(&mut message, good_len);
                return Err(CompactionFailure { kind: FailureKind::InvalidInput, message });
            }
            Ok(
                Plan::Steps(
                    CompactionState {
                        offset,
                        source_len: good_len,
                        retained_len: good_len - offset,
                    },
                ),
            )
        },
    }
}

/// Refuses a copy that is not as long as it has to be.
pub fn check_copied(copied: u64, retained_len: u64) -> (out: Result<(), CompactionFailure>)
    ensures
        match out {
            Ok(_) => copied == retained_len,
            Err(error) => {
                &&& copied != retained_len
                &&& error.kind == FailureKind::UnexpectedEof
                &&& error.message@ == "copied "@ + decimal(copied as nat) + " of "@ + decimal(
                    retained_len as nat,
                ) + " WAL bytes during compaction"@
            },
        },
{
    if copied != retained_len {
        let mut message = with_number("copied ", copied, " of ");
        push_decimal(&mut message, retained_len);
        message.append(" WAL bytes during compaction");
        return Err(CompactionFailure { kind: FailureKind::UnexpectedEof, message });
    }
    Ok(())
}

/// What startup has to do about an attempt that did not finish.
#[derive(Clone, Copy, Debug, PartialEq, Eq, Structural)]
pub enum Recovery {
    Nothing,
    /// The log was replaced: only the intent record is left to drop.
    DropIntent,
    /// The log was not replaced, but the checkpoint may be zero already. Set it
    /// again before replay, then drop the copy and the intent record.
    RollBack { checkpoint: u64 },
}

pub open spec fn recovery_of(state: Option<CompactionState>, copy_exists: bool) -> Recovery {
    match state {
        None => Recovery::Nothing,
        Some(state) => if copy_exists {
            Recovery::RollBack { checkpoint: state.offset }
        } else {
            Recovery::DropIntent
        },
    }
}

/// Plans what startup does before replay.
pub fn recover_unfinished_compaction(state: Option<CompactionState>, copy_exists: bool) -> (out:
    Recovery)
    ensures
        out == recovery_of(state, copy_exists),
{
    match state {
        None => Recovery::Nothing,
        Some(state) => {
            if copy_exists {
                Recovery::RollBack { checkpoint: state.offset }
            } else {
                Recovery::DropIntent
            }
        },
    }
}

// ---------------------------------------------------------------------- steps
/// One durable step of a compaction.
#[derive(Clone, Copy, Debug, PartialEq, Eq, Structural)]
pub enum CompactionStep {
    /// Make the log durable.
    SyncLog,
    /// Copy the bytes behind the offset aside.
    CopyRest,
    /// Make the copy durable.
    SyncCopy,
    /// Write the intent record, durably.
    WriteIntent,
    /// Set the checkpoint to zero, durably.
    ResetCheckpoint,
    /// Put the copy in the place of the log.
    Replace,
    /// Make that durable.
    SyncDirectory,
    /// Open the log again.
    Reopen,
    /// Drop the intent record.
    DropIntent,
}

/// The steps of a compaction, in order. The checkpoint is reset before the log
/// is replaced: a crash between the two replays too much and never too little.
pub const COMPACTION_STEPS: [CompactionStep; 9] = [
    CompactionStep::SyncLog,
    CompactionStep::CopyRest,
    CompactionStep::SyncCopy,
    CompactionStep::WriteIntent,
    CompactionStep::ResetCheckpoint,
    CompactionStep::Replace,
    CompactionStep::SyncDirectory,
    CompactionStep::Reopen,
    CompactionStep::DropIntent,
];

/// The step that follows a number of steps, if there is one.
pub fn compaction_step(done: usize) -> (step: Option<CompactionStep>)
    ensures
        step == if done < COMPACTION_STEPS@.len() {
            Some(COMPACTION_STEPS@[done as int])
        } else {
            None
        },
{
    let steps = COMPACTION_STEPS;
    if done < steps.len() {
        Some(steps[done])
    } else {
        None
    }
}

// ----------------------------------------------------------------------- files
/// The files that a compaction works on: what they hold once they are durable.
#[verifier::ext_equal]
pub struct Files {
    pub log: Seq<u8>,
    pub copy: Option<Seq<u8>>,
    pub intent: Option<CompactionState>,
    pub checkpoint: nat,
}

impl Files {
    /// The bytes that replay reads.
    pub open spec fn live(self) -> Seq<u8> {
        self.log.skip(self.checkpoint as int)
    }

    /// The files after a step.
    pub open spec fn after(self, step: CompactionStep, state: CompactionState) -> Files {
        match step {
            CompactionStep::CopyRest => Files {
                copy: Some(self.log.skip(state.offset as int)),
                ..self
            },
            CompactionStep::WriteIntent => Files { intent: Some(state), ..self },
            CompactionStep::ResetCheckpoint => Files { checkpoint: 0, ..self },
            CompactionStep::Replace => Files { log: self.copy->Some_0, copy: None, ..self },
            CompactionStep::DropIntent => Files { intent: None, ..self },
            _ => self,
        }
    }

    /// The files after the first steps.
    pub open spec fn after_steps(self, state: CompactionState, n: nat) -> Files
        decreases n,
    {
        if n == 0 {
            self
        } else {
            self.after_steps(state, (n - 1) as nat).after(COMPACTION_STEPS@[n - 1], state)
        }
    }

    /// The files after the recovery that startup does.
    pub open spec fn recovered(self) -> Files {
        match recovery_of(self.intent, self.copy is Some) {
            Recovery::Nothing => self,
            Recovery::DropIntent => Files { intent: None, ..self },
            Recovery::RollBack { checkpoint } => Files {
                checkpoint: checkpoint as nat,
                copy: None,
                intent: None,
                ..self
            },
        }
    }

    /// The files after records were appended.
    pub open spec fn appended(self, more: Seq<u8>) -> Files {
        Files { log: self.log + more, ..self }
    }

    /// The files after an attempt that succeeds.
    pub open spec fn compacted(self, offset: u64) -> Files {
        let len = self.log.len() as u64;
        match planned(self.intent, self.log.len(), self.copy is Some, offset, len) {
            Ok(Plan::Steps(state)) => self.after_steps(state, COMPACTION_STEPS@.len()),
            Ok(Plan::Settle) => Files { intent: None, ..self },
            Ok(Plan::RollBack { checkpoint }) => {
                let back = Files {
                    checkpoint: checkpoint as nat,
                    copy: None,
                    intent: None,
                    ..self
                };
                match planned(None, self.log.len(), false, offset, len) {
                    Ok(Plan::Steps(state)) => back.after_steps(state, COMPACTION_STEPS@.len()),
                    _ => back,
                }
            },
            Err(_) => self,
        }
    }

    /// Files that no compaction has left anything in but, it may be, a copy that
    /// no intent record speaks of.
    pub open spec fn is_settled(self) -> bool {
        &&& self.intent is None
        &&& self.checkpoint <= self.log.len()
        &&& self.log.len() <= u64::MAX
    }
}

/// The intent of an attempt on settled files.
pub open spec fn intent_for(files: Files, offset: u64) -> CompactionState {
    CompactionState {
        offset,
        source_len: files.log.len() as u64,
        retained_len: (files.log.len() - offset) as u64,
    }
}

/// The files after each number of steps.
proof fn steps_taken(files: Files, state: CompactionState)
    ensures
        ({
            let copied = Files { copy: Some(files.log.skip(state.offset as int)), ..files };
            let meant = Files { intent: Some(state), ..copied };
            let reset = Files { checkpoint: 0, ..meant };
            let replaced = Files {
                log: files.log.skip(state.offset as int),
                copy: None,
                intent: Some(state),
                checkpoint: 0,
            };
            &&& files.after_steps(state, 0) == files
            &&& files.after_steps(state, 1) == files
            &&& files.after_steps(state, 2) == copied
            &&& files.after_steps(state, 3) == copied
            &&& files.after_steps(state, 4) == meant
            &&& files.after_steps(state, 5) == reset
            &&& files.after_steps(state, 6) == replaced
            &&& files.after_steps(state, 7) == replaced
            &&& files.after_steps(state, 8) == replaced
            &&& files.after_steps(state, 9) == Files { intent: None, ..replaced }
        }),
{
    reveal_with_fuel(Files::after_steps, 10);
}

/// A compaction leaves a log that holds the bytes behind the offset and nothing
/// else, with the checkpoint zero.
pub proof fn compaction_keeps_the_rest(files: Files, offset: u64)
    requires
        files.is_settled(),
        offset <= files.log.len(),
    ensures
        files.compacted(offset) == (Files {
            log: files.log.skip(offset as int),
            copy: None,
            intent: None,
            checkpoint: 0,
        }),
        files.compacted(offset).live() == files.log.skip(offset as int),
{
    steps_taken(files, intent_for(files, offset));
    assert(files.log.skip(offset as int).skip(0) =~= files.log.skip(offset as int));
}

/// A crash after any number of steps loses no byte behind the offset: after
/// recovery replay reads from the old checkpoint if the intent was not written
/// yet, and from the offset if it was. Nothing is left to recover then.
pub proof fn a_crash_keeps_the_rest(files: Files, offset: u64, n: nat)
    requires
        files.is_settled(),
        files.checkpoint <= offset <= files.log.len(),
        n <= COMPACTION_STEPS@.len(),
    ensures
        ({
            let found = files.after_steps(intent_for(files, offset), n).recovered();
            &&& found.is_settled()
            &&& n < 4 ==> found.live() == files.live()
            &&& n >= 4 ==> found.live() == files.log.skip(offset as int)
        }),
{
    steps_taken(files, intent_for(files, offset));
    let rest = files.log.skip(offset as int);
    assert(rest.skip(0) =~= rest);
}

/// An attempt that failed after any number of steps can be made again with the
/// same offset, whatever was appended in between: what it leaves alive is the
/// bytes that were behind the offset and the bytes that were appended.
pub proof fn a_retry_keeps_what_came_between(files: Files, offset: u64, n: nat, more: Seq<u8>)
    requires
        files.is_settled(),
        offset <= files.log.len(),
        files.log.len() + more.len() <= u64::MAX,
        n < COMPACTION_STEPS@.len(),
    ensures
        ({
            let left = files.after_steps(intent_for(files, offset), n).appended(more);
            let done = left.compacted(offset);
            &&& done.is_settled()
            &&& done.checkpoint == 0
            &&& done.live() == files.log.skip(offset as int) + more
        }),
{
    let state = intent_for(files, offset);
    steps_taken(files, state);
    let left = files.after_steps(state, n).appended(more);
    let rest = files.log.skip(offset as int);
    assert((files.log + more).skip(offset as int) =~= rest + more);
    assert((rest + more).skip(0) =~= rest + more);
    steps_taken(left, intent_for(left, offset));
    let back = Files { checkpoint: offset as nat, copy: None, intent: None, ..left };
    steps_taken(back, intent_for(back, offset));
}

/// Each step of a compaction is durable before one that relies on it is taken: the log
/// before it is copied, the copy before the intent record speaks of it, the intent record
/// before the checkpoint is reset, the checkpoint before the log is replaced, and the
/// replacement before the log is opened again and the intent record goes. No step is
/// taken twice.
pub proof fn each_step_is_durable_before_the_next(i: int, j: int)
    requires
        0 <= i < j < COMPACTION_STEPS@.len(),
    ensures
        COMPACTION_STEPS@.len() == 9,
        COMPACTION_STEPS@[i] != COMPACTION_STEPS@[j],
        COMPACTION_STEPS@[j] != CompactionStep::SyncLog,
        COMPACTION_STEPS@[j] == CompactionStep::CopyRest ==> COMPACTION_STEPS@[i]
            == CompactionStep::SyncLog,
        COMPACTION_STEPS@[i] == CompactionStep::WriteIntent ==> COMPACTION_STEPS@[j]
            != CompactionStep::CopyRest && COMPACTION_STEPS@[j] != CompactionStep::SyncCopy,
        COMPACTION_STEPS@[i] == CompactionStep::SyncCopy ==> COMPACTION_STEPS@[j]
            != CompactionStep::CopyRest,
        COMPACTION_STEPS@[i] == CompactionStep::ResetCheckpoint ==> COMPACTION_STEPS@[j]
            != CompactionStep::WriteIntent,
        COMPACTION_STEPS@[i] == CompactionStep::Replace ==> COMPACTION_STEPS@[j]
            != CompactionStep::ResetCheckpoint,
        COMPACTION_STEPS@[i] == CompactionStep::SyncDirectory ==> COMPACTION_STEPS@[j]
            != CompactionStep::Replace,
        COMPACTION_STEPS@[i] == CompactionStep::Reopen ==> COMPACTION_STEPS@[j]
            != CompactionStep::SyncDirectory,
        COMPACTION_STEPS@[i] != CompactionStep::DropIntent,
{
    let steps = COMPACTION_STEPS@;
    assert(steps[0] == CompactionStep::SyncLog);
    assert(steps[1] == CompactionStep::CopyRest);
    assert(steps[2] == CompactionStep::SyncCopy);
    assert(steps[3] == CompactionStep::WriteIntent);
    assert(steps[4] == CompactionStep::ResetCheckpoint);
    assert(steps[5] == CompactionStep::Replace);
    assert(steps[6] == CompactionStep::SyncDirectory);
    assert(steps[7] == CompactionStep::Reopen);
    assert(steps[8] == CompactionStep::DropIntent);
}

/// A fresh attempt is refused exactly if its offset lies behind what is durable. An
/// earlier attempt is undone if its copy is still there, and settled if it is not, and
/// what it recorded is refused exactly if the log is too short for it. The offset of the
/// new attempt is never applied to a log that an earlier one replaced.
pub proof fn an_earlier_attempt_is_dealt_with_first(
    state: Option<CompactionState>,
    wal_len: nat,
    copy_exists: bool,
    offset: u64,
    good_len: u64,
)
    ensures
        ({
            let plan = planned(state, wal_len, copy_exists, offset, good_len);
            match state {
                None => {
                    &&& plan is Ok <==> offset <= good_len
                    &&& plan matches Ok(plan) ==> plan == Plan::Steps(
                        CompactionState {
                            offset,
                            source_len: good_len,
                            retained_len: (good_len - offset) as u64,
                        },
                    )
                },
                Some(left) => {
                    &&& copy_exists ==> (plan is Ok <==> wal_len >= left.source_len)
                    &&& !copy_exists ==> (plan is Ok <==> wal_len >= left.retained_len)
                    &&& plan matches Ok(plan) ==> plan == if copy_exists {
                        Plan::RollBack { checkpoint: left.offset }
                    } else {
                        Plan::Settle
                    }
                },
            }
        }),
{
}

/// Startup does nothing where no compaction was under way. Where one was, it sets the
/// checkpoint back exactly if the copy is still there, to the offset that the compaction
/// began with, and else only drops the record of it.
pub proof fn startup_sets_back_exactly_what_was_not_replaced(
    state: Option<CompactionState>,
    copy_exists: bool,
)
    ensures
        recovery_of(state, copy_exists) is Nothing <==> state is None,
        recovery_of(state, copy_exists) is RollBack <==> state is Some && copy_exists,
        state is Some && copy_exists ==> recovery_of(state, copy_exists)->checkpoint
            == state->Some_0.offset,
        recovery_of(state, copy_exists) is DropIntent <==> state is Some && !copy_exists,
{
}

} // verus!
