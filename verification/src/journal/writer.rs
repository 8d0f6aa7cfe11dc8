//! The one writer of the log: what it gathers into a write, and what it does
//! when a write fails.

use vstd::prelude::*;
use vstd::string::*;

use crate::journal::record::{
    check_record_len, frame_tenant_record, framed, framed_record_len, log_of, push_record,
    too_large, MAX_RECORD_BYTES,
};
use crate::tenant::TenantId;

verus! {

// -------------------------------------------------------------------- backlog
/// Durable log bytes that no flush has retired yet.
#[derive(Clone, Copy, Debug, PartialEq, Eq, Structural)]
pub struct WalBacklog {
    pub wal_bytes: u64,
    pub checkpoint_bytes: u64,
}

impl Default for WalBacklog {
    fn default() -> (backlog: Self)
        ensures
            backlog == (WalBacklog { wal_bytes: 0, checkpoint_bytes: 0 }),
    {
        WalBacklog { wal_bytes: 0, checkpoint_bytes: 0 }
    }
}

impl WalBacklog {
    pub fn set_wal_bytes(&mut self, bytes: u64)
        ensures
            *final(self) == (WalBacklog { wal_bytes: bytes, ..*old(self) }),
    {
        self.wal_bytes = bytes;
    }

    pub fn set_checkpoint_bytes(&mut self, bytes: u64)
        ensures
            *final(self) == (WalBacklog { checkpoint_bytes: bytes, ..*old(self) }),
    {
        self.checkpoint_bytes = bytes;
    }

    /// The bytes behind the checkpoint. The two numbers are set one after the
    /// other, so a checkpoint may for a moment lie behind the length it is of:
    /// there is no backlog then.
    pub fn bytes(&self) -> (bytes: u64)
        ensures
            bytes == if self.wal_bytes >= self.checkpoint_bytes {
                self.wal_bytes - self.checkpoint_bytes
            } else {
                0
            },
    {
        self.wal_bytes.saturating_sub(self.checkpoint_bytes)
    }

    /// The length of the log, with what the checkpoint has retired.
    pub fn wal_bytes(&self) -> (bytes: u64)
        ensures
            bytes == self.wal_bytes,
    {
        self.wal_bytes
    }
}

// -------------------------------------------------------------------- appends
/// A payload on its way into the log.
pub struct Append {
    pub kind: u8,
    pub tenant: TenantId,
    pub payload: Vec<u8>,
}

impl Append {
    /// The frame that is written for it.
    pub open spec fn frame(&self) -> Seq<u8> {
        framed(self.tenant@, self.kind, self.payload@)
    }

    pub open spec fn wf(&self) -> bool {
        self.tenant.wf() && self.frame().len() <= MAX_RECORD_BYTES
    }

    /// Refuses a payload whose frame is too long for a record.
    pub fn new(kind: u8, tenant: TenantId, payload: Vec<u8>) -> (out: Result<Append, String>)
        requires
            tenant.wf(),
            payload.len() + crate::tenant::MAX_TENANT_BYTES
                + crate::journal::record::TENANT_RECORD_PREFIX_SIZE <= usize::MAX,
        ensures
            ({
                let frame = framed(tenant@, kind, payload@);
                match out {
                    Ok(append) => frame.len() <= MAX_RECORD_BYTES && append == (Append {
                        kind,
                        tenant,
                        payload,
                    }) && append.wf(),
                    Err(message) => frame.len() > MAX_RECORD_BYTES && message@ == too_large(
                        frame.len(),
                    ),
                }
            }),
    {
        let len: usize = framed_record_len(&tenant, payload.as_slice());
        assert(len == framed(tenant@, kind, payload@).len());
        match check_record_len(len) {
            Err(message) => Err(message),
            Ok(_) => Ok(Append { kind, tenant, payload }),
        }
    }
}

pub open spec fn frames_of(appends: Seq<Append>) -> Seq<Seq<u8>> {
    appends.map_values(|append: Append| append.frame())
}

/// How many bytes of frames there are.
pub open spec fn frame_bytes(appends: Seq<Append>) -> nat
    decreases appends.len(),
{
    if appends.len() == 0 {
        0
    } else {
        frame_bytes(appends.drop_last()) + appends.last().frame().len()
    }
}

/// What the writer is asked to do.
pub enum Command {
    Append(Append),
    Checkpoint,
    Compact { offset: u64 },
}

/// What the channel has for the writer.
pub enum Arrival {
    Command(Command),
    /// Every sender is gone.
    Closed,
    /// Nothing is there, or nothing came in time.
    Nothing,
}

/// What the writer does in one round: it writes the appends, then serves the
/// command that ended the gathering, and stops if the channel is closed.
pub struct Batch {
    pub appends: Vec<Append>,
    pub bytes: usize,
    pub checkpoint: bool,
    pub compact: Option<u64>,
    pub closed: bool,
}

impl Batch {
    pub open spec fn wf(&self) -> bool {
        &&& self.bytes == frame_bytes(self.appends@)
        &&& forall|i: int| 0 <= i < self.appends@.len() ==> (#[trigger] self.appends@[i]).wf()
    }

    /// Whether a command other than an append has ended the gathering.
    pub open spec fn is_ended(&self) -> bool {
        self.checkpoint || self.compact is Some || self.closed
    }

    /// A round that begins with a command.
    pub fn begin(first: Command) -> (batch: Batch)
        requires
            first matches Command::Append(append) ==> append.wf(),
        ensures
            batch.wf(),
            !batch.closed,
            match first {
                Command::Append(append) => batch.appends@ == seq![append] && !batch.is_ended(),
                Command::Checkpoint => batch.appends@.len() == 0 && batch.checkpoint
                    && batch.compact is None,
                Command::Compact { offset } => batch.appends@.len() == 0 && !batch.checkpoint
                    && batch.compact == Some(offset),
            },
    {
        let mut batch = Batch {
            appends: Vec::new(),
            bytes: 0,
            checkpoint: false,
            compact: None,
            closed: false,
        };
        match first {
            Command::Append(append) => {
                batch.push(append);
                assert(batch.appends@ =~= seq![append]);
            },
            Command::Checkpoint => {
                batch.checkpoint = true;
            },
            Command::Compact { offset } => {
                batch.compact = Some(offset);
            },
        }
        batch
    }

    fn push(&mut self, append: Append)
        requires
            old(self).wf(),
            append.wf(),
            old(self).bytes + append.frame().len() <= usize::MAX,
        ensures
            final(self).wf(),
            final(self).appends@ == old(self).appends@.push(append),
            final(self).checkpoint == old(self).checkpoint,
            final(self).compact == old(self).compact,
            final(self).closed == old(self).closed,
    {
        let len: usize = framed_record_len(&append.tenant, append.payload.as_slice());
        assert(len == append.frame().len());
        self.bytes = self.bytes + len;
        self.appends.push(append);
        assert(self.appends@.drop_last() =~= old(self).appends@);
    }

    /// Whether the writer looks for more to put into the round: only a round of
    /// appends grows, while it is under the limit and nothing has ended it.
    pub fn wants_more(&self, max_batch_bytes: usize) -> (more: bool)
        ensures
            more == (self.appends@.len() > 0 && !self.is_ended() && self.bytes < max_batch_bytes),
    {
        self.appends.len() > 0 && !self.checkpoint && self.compact.is_none() && !self.closed
            && self.bytes < max_batch_bytes
    }

    /// Takes what the channel has. The answer is whether to look again.
    pub fn take(&mut self, next: Arrival) -> (more: bool)
        requires
            old(self).wf(),
            next matches Arrival::Command(Command::Append(append)) ==> append.wf() && old(
                self,
            ).bytes + append.frame().len() <= usize::MAX,
        ensures
            final(self).wf(),
            match next {
                Arrival::Command(Command::Append(append)) => {
                    &&& more
                    &&& final(self).appends@ == old(self).appends@.push(append)
                    &&& final(self).checkpoint == old(self).checkpoint
                    &&& final(self).compact == old(self).compact
                    &&& final(self).closed == old(self).closed
                },
                Arrival::Command(Command::Checkpoint) => !more && *final(self) == (Batch {
                    checkpoint: true,
                    ..*old(self)
                }),
                Arrival::Command(Command::Compact { offset }) => !more && *final(self) == (Batch {
                    compact: Some(offset),
                    ..*old(self)
                }),
                Arrival::Closed => !more && *final(self) == (Batch { closed: true, ..*old(self) }),
                Arrival::Nothing => !more && *final(self) == *old(self),
            },
    {
        match next {
            Arrival::Command(Command::Append(append)) => {
                self.push(append);
                true
            },
            Arrival::Command(Command::Checkpoint) => {
                self.checkpoint = true;
                false
            },
            Arrival::Command(Command::Compact { offset }) => {
                self.compact = Some(offset);
                false
            },
            Arrival::Closed => {
                self.closed = true;
                false
            },
            Arrival::Nothing => false,
        }
    }

    /// The bytes to write: a record for each append, in order.
    pub fn encode(&self) -> (out: Vec<u8>)
        requires
            self.wf(),
        ensures
            out@ == log_of(frames_of(self.appends@)),
    {
        let ghost frames = frames_of(self.appends@);
        let mut out: Vec<u8> = Vec::new();
        let mut i: usize = 0;
        assert(frames.take(0) =~= seq![]);
        while i < self.appends.len()
            invariant
                i <= self.appends@.len(),
                self.wf(),
                frames == frames_of(self.appends@),
                out@ == log_of(frames.take(i as int)),
            decreases self.appends.len() - i,
        {
            let append = &self.appends[i];
            assert(append.wf());
            let frame = frame_tenant_record(&append.tenant, append.kind, append.payload.as_slice());
            push_record(&mut out, frame.as_slice());
            assert(frames.take(i + 1).drop_last() =~= frames.take(i as int));
            assert(frames.take(i + 1).last() == self.appends@[i as int].frame());
            i = i + 1;
        }
        assert(frames.take(i as int) =~= frames);
        out
    }
}

// --------------------------------------------------------------------- writer
/// What a write leads to.
#[derive(Clone, Copy, Debug, PartialEq, Eq, Structural)]
pub enum AfterWrite {
    /// The appends are durable: put them into the tables and acknowledge them.
    Acknowledge,
    /// The write failed: refuse the appends and cut the log back to a length. A
    /// log that cannot be cut back may hold part of a record, so the writer
    /// stops then.
    Truncate { len: u64 },
}

/// What the writer knows of the log.
#[derive(Clone, Copy, Debug, PartialEq, Eq, Structural)]
pub struct WriterState {
    /// How long the log is up to its last acknowledged record.
    pub good_len: u64,
    pub backlog: WalBacklog,
}

impl WriterState {
    pub open spec fn wf(&self) -> bool {
        self.backlog.wal_bytes == self.good_len
    }

    /// The state on a log that was just opened.
    pub fn open(len: u64, checkpoint: u64) -> (state: Self)
        ensures
            state == (WriterState {
                good_len: len,
                backlog: WalBacklog { wal_bytes: len, checkpoint_bytes: checkpoint },
            }),
            state.wf(),
    {
        WriterState {
            good_len: len,
            backlog: WalBacklog { wal_bytes: len, checkpoint_bytes: checkpoint },
        }
    }

    /// What follows a write of so many bytes. The backlog counts them before
    /// anyone is told: a client that sees its push accepted is counted against
    /// the next one.
    pub fn wrote(&mut self, ok: bool, bytes: u64) -> (next: AfterWrite)
        requires
            old(self).wf(),
            old(self).good_len + bytes <= u64::MAX,
        ensures
            final(self).wf(),
            ok ==> next == AfterWrite::Acknowledge && final(self).good_len == old(self).good_len
                + bytes && final(self).backlog.checkpoint_bytes == old(
                self,
            ).backlog.checkpoint_bytes,
            !ok ==> next == (AfterWrite::Truncate { len: old(self).good_len }) && *final(self)
                == *old(self),
    {
        if ok {
            self.good_len = self.good_len + bytes;
            self.backlog.wal_bytes = self.good_len;
            AfterWrite::Acknowledge
        } else {
            AfterWrite::Truncate { len: self.good_len }
        }
    }

    /// The offset of a checkpoint: everything up to it is in the snapshot. There
    /// is none, and the writer stops, if the log could not be made durable.
    pub fn checkpoint(&self, synced: bool) -> (offset: Option<u64>)
        ensures
            offset == if synced {
                Some(self.good_len)
            } else {
                None
            },
    {
        if synced {
            Some(self.good_len)
        } else {
            None
        }
    }

    /// What follows a compaction that left a log of so many bytes: the
    /// checkpoint is zero.
    pub fn compacted(&mut self, good_len: u64)
        ensures
            final(self).wf(),
            *final(self) == (WriterState {
                good_len,
                backlog: WalBacklog { wal_bytes: good_len, checkpoint_bytes: 0 },
            }),
    {
        self.good_len = good_len;
        self.backlog = WalBacklog { wal_bytes: good_len, checkpoint_bytes: 0 };
    }

    /// What follows a compaction that failed: it may have failed before or after
    /// it replaced the log, so the log is opened again and its length and
    /// checkpoint are read anew. An unreadable checkpoint counts as zero. The
    /// answer is whether the writer goes on: it stops if the log does not open.
    pub fn reopened(&mut self, len: Option<u64>, checkpoint: Option<u64>) -> (goes_on: bool)
        requires
            old(self).wf(),
        ensures
            final(self).wf(),
            goes_on == (len is Some),
            match len {
                Some(len) => *final(self) == (WriterState {
                    good_len: len,
                    backlog: WalBacklog {
                        wal_bytes: len,
                        checkpoint_bytes: match checkpoint {
                            Some(offset) => offset,
                            None => 0,
                        },
                    },
                }),
                None => *final(self) == *old(self),
            },
    {
        match len {
            None => false,
            Some(len) => {
                let offset: u64 = match checkpoint {
                    Some(offset) => offset,
                    None => 0,
                };
                self.good_len = len;
                self.backlog = WalBacklog { wal_bytes: len, checkpoint_bytes: offset };
                true
            },
        }
    }
}

} // verus!
