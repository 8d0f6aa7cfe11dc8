//! Reading the log back after a restart.

use std::collections::VecDeque;

use vstd::prelude::*;
use vstd::slice::slice_subrange;
use vstd::string::*;

use crate::bytes::{le_value, read_le};
use crate::journal::record::{
    crc32, crc32_of, decode_tenant_record, unframed, MAX_RECORD_BYTES, RECORD_HEADER_SIZE,
    TENANT_RECORD_KIND_LOGS, TENANT_RECORD_KIND_OTLP_LOGS, TENANT_RECORD_KIND_TRACES,
};
use crate::model::{entries_view, with_stream, EntryView, Labels, LogEntry, MemTableSnapshot};
use crate::push::{pushed_entries, read_entries, PushedStream};
use crate::tenant::TenantId;
use crate::text::{decimal, push_decimal, with_number};

verus! {

/// What the payload of a record is.
#[derive(Clone, Copy, Debug, PartialEq, Eq, Structural)]
pub enum RecordKind {
    Logs,
    Traces,
    OtlpLogs,
}

/// A record as replay finds it.
pub struct WalRecord {
    pub offset: u64,
    pub tenant: TenantId,
    pub kind: RecordKind,
    pub payload: Vec<u8>,
}

#[verifier::ext_equal]
pub struct RecordView {
    pub offset: nat,
    pub tenant: Seq<char>,
    pub kind: RecordKind,
    pub payload: Seq<u8>,
}

impl View for WalRecord {
    type V = RecordView;

    open spec fn view(&self) -> RecordView {
        RecordView {
            offset: self.offset as nat,
            tenant: self.tenant@,
            kind: self.kind,
            payload: self.payload@,
        }
    }
}

pub open spec fn records_view(records: Seq<WalRecord>) -> Seq<RecordView> {
    records.map_values(|record: WalRecord| record@)
}

// --------------------------------------------------------------------- header
/// What the header of a record announces.
pub struct Header {
    pub len: usize,
    pub crc: u32,
    /// Where the record ends.
    pub end: u64,
}

/// Where a record ends whose header stands at an offset.
pub open spec fn record_end(header: Seq<u8>, offset: nat) -> nat {
    offset + RECORD_HEADER_SIZE as nat + le_value(header.take(4))
}

pub open spec fn at_offset(message: Seq<char>, offset: nat) -> Seq<char> {
    message + " at offset "@ + decimal(offset)
}

fn offset_message(message: &str, offset: u64) -> (out: String)
    ensures
        out@ == at_offset(message@, offset as nat),
{
    let mut out = message.to_owned();
    out.append(" at offset ");
    push_decimal(&mut out, offset);
    out
}

/// A message about an offset, with what caused it.
pub open spec fn caused_at_offset(message: Seq<char>, offset: nat, cause: Seq<char>) -> Seq<char> {
    at_offset(message, offset) + ": "@ + cause
}

fn cause_message(message: &str, offset: u64, cause: &str) -> (out: String)
    ensures
        out@ == caused_at_offset(message@, offset as nat, cause@),
{
    let mut out = offset_message(message, offset);
    out.append(": ");
    out.append(cause);
    out
}

/// What is wrong with the record that a header announces, if it is wrong:
/// it ends behind the largest offset, or it has more data than a record can
/// have. A record that ends behind the log is a torn tail, and nothing is
/// asked of it.
pub open spec fn header_problem(header: Seq<u8>, offset: nat, file_len: nat) -> Option<Seq<char>> {
    let len = le_value(header.take(4));
    if record_end(header, offset) > u64::MAX {
        Some(at_offset("journal record length overflows"@, offset))
    } else if record_end(header, offset) <= file_len && len > MAX_RECORD_BYTES {
        Some(
            "journal record at offset "@ + decimal(offset) + " is too large: "@ + decimal(len)
                + " bytes (maximum 268435456)"@,
        )
    } else {
        None
    }
}

/// Reads a header. Nothing comes back where the record runs past the end of the
/// log: it is a torn tail, and replay stops before it.
pub fn read_header(header: &[u8], offset: u64, file_len: u64) -> (out: Result<
    Option<Header>,
    String,
>)
    requires
        header@.len() == RECORD_HEADER_SIZE,
    ensures
        match out {
            Err(message) => header_problem(header@, offset as nat, file_len as nat) == Some(
                message@,
            ),
            Ok(None) => header_problem(header@, offset as nat, file_len as nat) is None
                && record_end(header@, offset as nat) > file_len,
            Ok(Some(read)) => {
                &&& header_problem(header@, offset as nat, file_len as nat) is None
                &&& record_end(header@, offset as nat) <= file_len
                &&& read.end == record_end(header@, offset as nat)
                &&& read.len == le_value(header@.take(4))
                &&& read.crc == le_value(header@.skip(4))
            },
        },
{
    proof {
        crate::bytes::span_values();
        assert(header@.subrange(0, 4) =~= header@.take(4));
        assert(header@.subrange(4, 8) =~= header@.skip(4));
    }
    let len: u64 = read_le(header, 0, 4);
    let crc: u64 = read_le(header, 4, 4);
    let end: Option<u64> = match offset.checked_add(RECORD_HEADER_SIZE as u64) {
        Some(start) => start.checked_add(len),
        None => None,
    };
    match end {
        None => {
            Err(offset_message("journal record length overflows", offset))
        },
        Some(end) => {
            if end > file_len {
                Ok(None)
            } else if len > MAX_RECORD_BYTES as u64 {
                let mut message = with_number("journal record at offset ", offset, " is too large: ");
                push_decimal(&mut message, len);
                message.append(" bytes (maximum 268435456)");
                Err(message)
            } else {
                Ok(Some(Header { len: len as usize, crc: crc as u32, end }))
            }
        },
    }
}

// ----------------------------------------------------------------------- data
pub open spec fn kind_of(kind: u8) -> Option<RecordKind> {
    if kind == TENANT_RECORD_KIND_LOGS {
        Some(RecordKind::Logs)
    } else if kind == TENANT_RECORD_KIND_TRACES {
        Some(RecordKind::Traces)
    } else if kind == TENANT_RECORD_KIND_OTLP_LOGS {
        Some(RecordKind::OtlpLogs)
    } else {
        None
    }
}

/// The record that sound data holds. Data without a frame is from before there
/// were tenants: it is a log push of the default tenant.
pub open spec fn opened(data: Seq<u8>, offset: nat, default_tenant: Seq<char>) -> Result<
    RecordView,
    Seq<char>,
> {
    match unframed(data) {
        Err(error) => Err(caused_at_offset("journal record invalid"@, offset, error)),
        Ok(None) => Ok(
            RecordView { offset, tenant: default_tenant, kind: RecordKind::Logs, payload: data },
        ),
        Ok(Some((tenant, kind, payload))) => match kind_of(kind) {
            Some(kind) => Ok(RecordView { offset, tenant, kind, payload }),
            None => Err(
                at_offset(
                    "unsupported tenant journal record kind "@ + decimal(kind as nat),
                    offset,
                ),
            ),
        },
    }
}

/// Opens the data of a record. Nothing comes back where the checksum of the
/// last record is wrong: it is a torn tail, and replay stops before it.
/// Anywhere else a wrong checksum is an error.
pub fn open_record(
    data: &[u8],
    crc: u32,
    offset: u64,
    end: u64,
    file_len: u64,
    default_tenant: &TenantId,
) -> (out: Result<Option<WalRecord>, String>)
    requires
        default_tenant.wf(),
    ensures
        match out {
            Ok(None) => crc32_of(data@) != crc && end == file_len,
            Ok(Some(record)) => crc32_of(data@) == crc && record.tenant.wf() && opened(
                data@,
                offset as nat,
                default_tenant@,
            ) == Ok::<RecordView, Seq<char>>(record@),
            Err(message) => if crc32_of(data@) != crc {
                end != file_len && message@ == at_offset(
                    "journal record crc mismatch"@,
                    offset as nat,
                )
            } else {
                opened(data@, offset as nat, default_tenant@) == Err::<RecordView, Seq<char>>(
                    message@,
                )
            },
        },
{
    if crc32(data) != crc {
        if end == file_len {
            return Ok(None);
        }
        return Err(offset_message("journal record crc mismatch", offset));
    }
    match decode_tenant_record(data) {
        Err(error) => Err(cause_message("journal record invalid", offset, error.as_str())),
        Ok(None) => {
            let payload = crate::bytes::slice_bytes(data, 0, data.len());
            assert(payload@ =~= data@);
            Ok(
                Some(
                    WalRecord {
                        offset,
                        tenant: default_tenant.clone(),
                        kind: RecordKind::Logs,
                        payload,
                    },
                ),
            )
        },
        Ok(Some((tenant, byte, rest))) => {
            let kind = if byte == TENANT_RECORD_KIND_LOGS {
                RecordKind::Logs
            } else if byte == TENANT_RECORD_KIND_TRACES {
                RecordKind::Traces
            } else if byte == TENANT_RECORD_KIND_OTLP_LOGS {
                RecordKind::OtlpLogs
            } else {
                let message = with_number(
                    "unsupported tenant journal record kind ",
                    byte as u64,
                    "",
                );
                assert(message@ =~= "unsupported tenant journal record kind "@ + decimal(
                    byte as nat,
                )) by {
                    reveal_strlit("");
                }
                return Err(offset_message(message.as_str(), offset));
            };
            let payload = crate::bytes::slice_bytes(rest, 0, rest.len());
            assert(payload@ =~= rest@);
            Ok(Some(WalRecord { offset, tenant, kind, payload }))
        },
    }
}

// ----------------------------------------------------------------------- scan
/// What a scan of a log finds: its records, and where they end or what stopped
/// it.
pub struct ScanView {
    pub records: Seq<RecordView>,
    pub end: Result<nat, Seq<char>>,
}

/// The records of a log from an offset on. A torn tail ends them: fewer bytes
/// than a header, a record that runs past the end of the log, or a wrong
/// checksum in the last record.
pub open spec fn scanned(wal: Seq<u8>, offset: nat, default_tenant: Seq<char>) -> ScanView
    decreases wal.len() - offset,
{
    if offset + RECORD_HEADER_SIZE > wal.len() {
        ScanView { records: seq![], end: Ok(offset) }
    } else {
        let header = wal.subrange(offset as int, offset + RECORD_HEADER_SIZE);
        let end = record_end(header, offset);
        match header_problem(header, offset, wal.len()) {
            Some(message) => ScanView { records: seq![], end: Err(message) },
            None => if end > wal.len() {
                ScanView { records: seq![], end: Ok(offset) }
            } else {
                let data = wal.subrange(offset + RECORD_HEADER_SIZE, end as int);
                if crc32_of(data) != le_value(header.skip(4)) {
                    if end == wal.len() {
                        ScanView { records: seq![], end: Ok(offset) }
                    } else {
                        ScanView {
                            records: seq![],
                            end: Err(at_offset("journal record crc mismatch"@, offset)),
                        }
                    }
                } else {
                    match opened(data, offset, default_tenant) {
                        Err(message) => ScanView { records: seq![], end: Err(message) },
                        Ok(record) => {
                            let rest = scanned(wal, end, default_tenant);
                            ScanView { records: seq![record] + rest.records, end: rest.end }
                        },
                    }
                }
            },
        }
    }
}

/// The records of a log, and where they end or what stopped the scan.
pub struct ScannedLog {
    pub records: Vec<WalRecord>,
    pub end: Result<u64, String>,
}

impl View for ScannedLog {
    type V = ScanView;

    open spec fn view(&self) -> ScanView {
        ScanView {
            records: records_view(self.records@),
            end: match self.end {
                Ok(offset) => Ok(offset as nat),
                Err(message) => Err(message@),
            },
        }
    }
}

/// Scans a log that is in memory.
pub fn scan_wal(wal: &[u8], from: u64, default_tenant: &TenantId) -> (log: ScannedLog)
    requires
        default_tenant.wf(),
        from <= wal.len(),
    ensures
        log@ == scanned(wal@, from as nat, default_tenant@),
        forall|i: int| 0 <= i < log.records@.len() ==> (#[trigger] log.records@[i]).tenant.wf(),
{
    let file_len: usize = wal.len();
    let mut records: Vec<WalRecord> = Vec::new();
    let mut offset: usize = from as usize;
    let ghost whole = scanned(wal@, from as nat, default_tenant@);
    assert(records_view(records@) =~= seq![]);
    assert(whole.records =~= seq![] + whole.records);
    loop
        invariant
            default_tenant.wf(),
            file_len == wal@.len(),
            offset <= file_len,
            whole == scanned(wal@, from as nat, default_tenant@),
            whole.records == records_view(records@) + scanned(
                wal@,
                offset as nat,
                default_tenant@,
            ).records,
            whole.end == scanned(wal@, offset as nat, default_tenant@).end,
            forall|i: int| 0 <= i < records@.len() ==> (#[trigger] records@[i]).tenant.wf(),
        decreases file_len - offset,
    {
        let ghost rest = scanned(wal@, offset as nat, default_tenant@);
        if file_len - offset < RECORD_HEADER_SIZE {
            assert(whole.records =~= records_view(records@));
            return ScannedLog { records, end: Ok(offset as u64) };
        }
        let header = slice_subrange(wal, offset, offset + RECORD_HEADER_SIZE);
        match read_header(header, offset as u64, file_len as u64) {
            Err(message) => {
                assert(whole.records =~= records_view(records@));
                return ScannedLog { records, end: Err(message) };
            },
            Ok(None) => {
                assert(whole.records =~= records_view(records@));
                return ScannedLog { records, end: Ok(offset as u64) };
            },
            Ok(Some(read)) => {
                let data = slice_subrange(wal, offset + RECORD_HEADER_SIZE, read.end as usize);
                match open_record(
                    data,
                    read.crc,
                    offset as u64,
                    read.end,
                    file_len as u64,
                    default_tenant,
                ) {
                    Err(message) => {
                        assert(whole.records =~= records_view(records@));
                        return ScannedLog { records, end: Err(message) };
                    },
                    Ok(None) => {
                        assert(whole.records =~= records_view(records@));
                        return ScannedLog { records, end: Ok(offset as u64) };
                    },
                    Ok(Some(record)) => {
                        let ghost before = records@;
                        let ghost view = record@;
                        records.push(record);
                        offset = read.end as usize;
                        assert(records_view(records@) =~= records_view(before).push(view));
                        assert(whole.records =~= records_view(records@) + scanned(
                            wal@,
                            offset as nat,
                            default_tenant@,
                        ).records);
                    },
                }
            },
        }
    }
}

// ----------------------------------------------------------------- checkpoint
/// Why a checkpoint and a log do not go together, if they do not. A log that is
/// missing goes with the checkpoint zero alone.
pub open spec fn checkpoint_problem(
    wal_len: Option<nat>,
    wal_name: Seq<char>,
    checkpoint: nat,
) -> Option<Seq<char>> {
    match wal_len {
        None => if checkpoint == 0 {
            None
        } else {
            Some(
                "journal checkpoint "@ + decimal(checkpoint) + " exists but WAL "@ + wal_name
                    + " is missing"@,
            )
        },
        Some(len) => if checkpoint > len {
            Some(
                "journal checkpoint "@ + decimal(checkpoint) + " is beyond WAL length "@ + decimal(
                    len,
                ),
            )
        } else {
            None
        },
    }
}

/// Refuses a checkpoint that does not go with the log.
pub fn check_checkpoint(wal_len: Option<u64>, wal_name: &str, checkpoint: u64) -> (out: Result<
    (),
    String,
>)
    ensures
        ({
            let len = match wal_len {
                Some(len) => Some(len as nat),
                None => None,
            };
            match out {
                Ok(_) => checkpoint_problem(len, wal_name@, checkpoint as nat) is None,
                Err(message) => checkpoint_problem(len, wal_name@, checkpoint as nat) == Some(
                    message@,
                ),
            }
        }),
{
    match wal_len {
        None => {
            if checkpoint == 0 {
                Ok(())
            } else {
                let mut message = with_number("journal checkpoint ", checkpoint, " exists but WAL ");
                message.append(wal_name);
                message.append(" is missing");
                Err(message)
            }
        },
        Some(len) => {
            if checkpoint > len {
                let mut message = with_number(
                    "journal checkpoint ",
                    checkpoint,
                    " is beyond WAL length ",
                );
                push_decimal(&mut message, len);
                Err(message)
            } else {
                Ok(())
            }
        },
    }
}

/// What replay finds in a log from a checkpoint on.
pub open spec fn replayed(
    wal: Option<Seq<u8>>,
    wal_name: Seq<char>,
    checkpoint: nat,
    default_tenant: Seq<char>,
) -> ScanView {
    let len = match wal {
        Some(bytes) => Some(bytes.len()),
        None => None,
    };
    match checkpoint_problem(len, wal_name, checkpoint) {
        Some(message) => ScanView { records: seq![], end: Err(message) },
        None => match wal {
            None => ScanView { records: seq![], end: Ok(0) },
            Some(bytes) => scanned(bytes, checkpoint, default_tenant),
        },
    }
}

/// The records of a log from a checkpoint on.
pub fn replay_from(
    wal: Option<&[u8]>,
    wal_name: &str,
    checkpoint: u64,
    default_tenant: &TenantId,
) -> (log: ScannedLog)
    requires
        default_tenant.wf(),
    ensures
        log@ == replayed(
            match wal {
                Some(bytes) => Some(bytes@),
                None => None,
            },
            wal_name@,
            checkpoint as nat,
            default_tenant@,
        ),
        forall|i: int| 0 <= i < log.records@.len() ==> (#[trigger] log.records@[i]).tenant.wf(),
{
    let len: Option<u64> = match wal {
        Some(bytes) => Some(bytes.len() as u64),
        None => None,
    };
    if let Err(message) = check_checkpoint(len, wal_name, checkpoint) {
        let log = ScannedLog { records: Vec::new(), end: Err(message) };
        assert(log@.records =~= seq![]);
        return log;
    }
    match wal {
        None => {
            let log = ScannedLog { records: Vec::new(), end: Ok(0) };
            assert(log@.records =~= seq![]);
            log
        },
        Some(bytes) => scan_wal(bytes, checkpoint, default_tenant),
    }
}

// -------------------------------------------------------------------- records
/// What tables hold: the streams of each tenant.
pub type TablesView = Seq<(Seq<char>, Seq<(Seq<(Seq<char>, Seq<char>)>, Seq<EntryView>)>)>;

/// Putting the streams of a log push back: what the tables hold then, and how
/// many entries were put back or what is wrong. The streams in front of a bad
/// one are put back.
pub open spec fn streams_put_back(
    tables: TablesView,
    tenant: Seq<char>,
    streams: Seq<PushedStream>,
    offset: nat,
) -> (TablesView, Result<nat, Seq<char>>)
    decreases streams.len(),
{
    if streams.len() == 0 {
        (tables, Ok(0))
    } else {
        let before = streams_put_back(tables, tenant, streams.drop_last(), offset);
        match before.1 {
            Err(_) => before,
            Ok(count) => match streams.last().labels {
                Err(error) => (
                    before.0,
                    Err(caused_at_offset("journal record has invalid labels"@, offset, error@)),
                ),
                Ok(labels) => match pushed_entries(streams.last().entries@) {
                    Err(error) => (
                        before.0,
                        Err(
                            caused_at_offset(
                                "journal record has invalid timestamp"@,
                                offset,
                                error,
                            ),
                        ),
                    ),
                    Ok(entries) => (
                        with_stream(before.0, tenant, labels@, entries),
                        Ok(count + entries.len()),
                    ),
                },
            },
        }
    }
}

proof fn put_back_failed(
    tables: TablesView,
    tenant: Seq<char>,
    streams: Seq<PushedStream>,
    offset: nat,
    i: int,
)
    requires
        0 <= i <= streams.len(),
        streams_put_back(tables, tenant, streams.take(i), offset).1 is Err,
    ensures
        streams_put_back(tables, tenant, streams, offset) == streams_put_back(
            tables,
            tenant,
            streams.take(i),
            offset,
        ),
    decreases streams.len() - i,
{
    if i < streams.len() {
        assert(streams.take(i + 1).drop_last() =~= streams.take(i));
        put_back_failed(tables, tenant, streams, offset, i + 1);
    } else {
        assert(streams.take(i) =~= streams);
    }
}

/// How many entries a list of streams has.
pub open spec fn pushed_count(streams: Seq<PushedStream>) -> nat
    decreases streams.len(),
{
    if streams.len() == 0 {
        0
    } else {
        pushed_count(streams.drop_last()) + streams.last().entries@.len()
    }
}

pub proof fn pushed_count_prefix(streams: Seq<PushedStream>, i: int)
    requires
        0 <= i <= streams.len(),
    ensures
        pushed_count(streams.take(i)) <= pushed_count(streams),
    decreases streams.len() - i,
{
    if i < streams.len() {
        assert(streams.take(i + 1).drop_last() =~= streams.take(i));
        pushed_count_prefix(streams, i + 1);
    } else {
        assert(streams.take(i) =~= streams);
    }
}

/// Puts the streams of a log push back.
fn put_streams_back(
    tenant: &TenantId,
    streams: &[PushedStream],
    offset: u64,
    memtable: &mut MemTableSnapshot,
) -> (out: Result<u64, String>)
    requires
        pushed_count(streams@) <= u64::MAX,
    ensures
        final(memtable)@ == streams_put_back(
            old(memtable)@,
            tenant@,
            streams@,
            offset as nat,
        ).0,
        match out {
            Ok(count) => streams_put_back(old(memtable)@, tenant@, streams@, offset as nat).1
                == Ok::<nat, Seq<char>>(count as nat),
            Err(message) => streams_put_back(old(memtable)@, tenant@, streams@, offset as nat).1
                == Err::<nat, Seq<char>>(message@),
        },
{
    let mut count: u64 = 0;
    let mut i: usize = 0;
    let ghost before = memtable@;
    assert(streams@.take(0) =~= seq![]);
    while i < streams.len()
        invariant
            i <= streams@.len(),
            before == old(memtable)@,
            pushed_count(streams@) <= u64::MAX,
            count == pushed_count(streams@.take(i as int)),
            streams_put_back(before, tenant@, streams@.take(i as int), offset as nat) == (
                memtable@,
                Ok::<nat, Seq<char>>(count as nat),
            ),
        decreases streams.len() - i,
    {
        assert(streams@.take(i + 1).drop_last() =~= streams@.take(i as int));
        assert(streams@.take(i + 1).last() == streams@[i as int]);
        proof {
            pushed_count_prefix(streams@, i + 1);
        }
        let labels = match &streams[i].labels {
            Err(error) => {
                proof {
                    put_back_failed(before, tenant@, streams@, offset as nat, i + 1);
                }
                return Err(
                    cause_message("journal record has invalid labels", offset, error.as_str()),
                );
            },
            Ok(labels) => labels,
        };
        match read_entries(streams[i].entries.as_slice()) {
            Err(error) => {
                proof {
                    put_back_failed(before, tenant@, streams@, offset as nat, i + 1);
                }
                return Err(
                    cause_message("journal record has invalid timestamp", offset, error.as_str()),
                );
            },
            Ok(entries) => {
                proof {
                    pushed_entries_len(streams@[i as int].entries@);
                }
                memtable.extend(tenant, labels, entries.as_slice());
                count = count + entries.len() as u64;
            },
        }
        i = i + 1;
    }
    assert(streams@.take(i as int) =~= streams@);
    Ok(count)
}

/// Puts a log push back. `decoded` is what the payload decodes to, or what the
/// decoder objects to.
pub fn replay_log_record(
    tenant: &TenantId,
    decoded: Result<Vec<PushedStream>, String>,
    offset: u64,
    memtable: &mut MemTableSnapshot,
) -> (out: Result<u64, String>)
    requires
        decoded matches Ok(streams) ==> pushed_count(streams@) <= u64::MAX,
    ensures
        match decoded {
            Err(error) => {
                &&& final(memtable)@ == old(memtable)@
                &&& out is Err
                &&& out->Err_0@ == caused_at_offset(
                    "journal protobuf decode failed"@,
                    offset as nat,
                    error@,
                )
            },
            Ok(streams) => {
                let put = streams_put_back(old(memtable)@, tenant@, streams@, offset as nat);
                &&& final(memtable)@ == put.0
                &&& match out {
                    Ok(count) => put.1 == Ok::<nat, Seq<char>>(count as nat),
                    Err(message) => put.1 == Err::<nat, Seq<char>>(message@),
                }
            },
        },
{
    match decoded {
        Err(error) => Err(
            cause_message("journal protobuf decode failed", offset, error.as_str()),
        ),
        Ok(streams) => put_streams_back(tenant, streams.as_slice(), offset, memtable),
    }
}

proof fn pushed_entries_len(entries: Seq<crate::push::PushedEntry>)
    ensures
        pushed_entries(entries) matches Ok(list) ==> list.len() == entries.len(),
    decreases entries.len(),
{
    if entries.len() > 0 {
        pushed_entries_len(entries.drop_last());
    }
}

/// What an OTLP export normalizes to.
pub enum Normalized {
    Streams(Vec<(Labels, Vec<LogEntry>)>),
    /// The export has no records.
    EmptyRequest,
    Invalid(String),
}

pub open spec fn normalized_count(streams: Seq<(Labels, Vec<LogEntry>)>) -> nat
    decreases streams.len(),
{
    if streams.len() == 0 {
        0
    } else {
        normalized_count(streams.drop_last()) + streams.last().1@.len()
    }
}

proof fn normalized_count_prefix(streams: Seq<(Labels, Vec<LogEntry>)>, i: int)
    requires
        0 <= i <= streams.len(),
    ensures
        normalized_count(streams.take(i)) <= normalized_count(streams),
    decreases streams.len() - i,
{
    if i < streams.len() {
        assert(streams.take(i + 1).drop_last() =~= streams.take(i));
        normalized_count_prefix(streams, i + 1);
    } else {
        assert(streams.take(i) =~= streams);
    }
}

/// What tables hold once streams are inserted.
pub open spec fn with_streams(
    tables: TablesView,
    tenant: Seq<char>,
    streams: Seq<(Labels, Vec<LogEntry>)>,
) -> TablesView
    decreases streams.len(),
{
    if streams.len() == 0 {
        tables
    } else {
        with_stream(
            with_streams(tables, tenant, streams.drop_last()),
            tenant,
            streams.last().0@,
            entries_view(streams.last().1@),
        )
    }
}

/// Inserts the streams of one tenant.
pub fn insert_streams(
    memtable: &mut MemTableSnapshot,
    tenant: &TenantId,
    streams: &[(Labels, Vec<LogEntry>)],
)
    ensures
        final(memtable)@ == with_streams(old(memtable)@, tenant@, streams@),
{
    let ghost before = memtable@;
    let mut i: usize = 0;
    assert(streams@.take(0) =~= seq![]);
    while i < streams.len()
        invariant
            i <= streams@.len(),
            memtable@ == with_streams(before, tenant@, streams@.take(i as int)),
        decreases streams.len() - i,
    {
        assert(streams@.take(i + 1).drop_last() =~= streams@.take(i as int));
        assert(streams@.take(i + 1).last() == streams@[i as int]);
        memtable.extend(tenant, &streams[i].0, streams[i].1.as_slice());
        i = i + 1;
    }
    assert(streams@.take(i as int) =~= streams@);
}

/// Puts an OTLP log export back. `decoded` is what the payload decodes and then
/// normalizes to, or what the decoder objects to. An export without records is
/// passed over: none was ever appended, so it is no reason to refuse to start.
pub fn replay_otlp_log_record(
    tenant: &TenantId,
    decoded: Result<Normalized, String>,
    offset: u64,
    memtable: &mut MemTableSnapshot,
) -> (out: Result<u64, String>)
    requires
        decoded matches Ok(Normalized::Streams(streams)) ==> normalized_count(streams@) <= u64::MAX,
    ensures
        match decoded {
            Err(error) => {
                &&& final(memtable)@ == old(memtable)@
                &&& out is Err
                &&& out->Err_0@ == caused_at_offset(
                    "OTLP log protobuf decode failed"@,
                    offset as nat,
                    error@,
                )
            },
            Ok(Normalized::Invalid(error)) => {
                &&& final(memtable)@ == old(memtable)@
                &&& out is Err
                &&& out->Err_0@ == caused_at_offset(
                    "OTLP log record invalid"@,
                    offset as nat,
                    error@,
                )
            },
            Ok(Normalized::EmptyRequest) => final(memtable)@ == old(memtable)@ && out == Ok::<
                u64,
                String,
            >(0),
            Ok(Normalized::Streams(streams)) => {
                &&& final(memtable)@ == with_streams(old(memtable)@, tenant@, streams@)
                &&& out is Ok
                &&& out->Ok_0 == normalized_count(streams@)
            },
        },
{
    match decoded {
        Err(error) => Err(
            cause_message("OTLP log protobuf decode failed", offset, error.as_str()),
        ),
        Ok(Normalized::Invalid(error)) => Err(
            cause_message("OTLP log record invalid", offset, error.as_str()),
        ),
        Ok(Normalized::EmptyRequest) => Ok(0),
        Ok(Normalized::Streams(streams)) => {
            insert_streams(memtable, tenant, streams.as_slice());
            let mut count: u64 = 0;
            let mut i: usize = 0;
            assert(streams@.take(0) =~= seq![]);
            while i < streams.len()
                invariant
                    i <= streams@.len(),
                    normalized_count(streams@) <= u64::MAX,
                    count == normalized_count(streams@.take(i as int)),
                decreases streams.len() - i,
            {
                assert(streams@.take(i + 1).drop_last() =~= streams@.take(i as int));
                proof {
                    normalized_count_prefix(streams@, i + 1);
                }
                count = count + streams[i].1.len() as u64;
                i = i + 1;
            }
            assert(streams@.take(i as int) =~= streams@);
            Ok(count)
        },
    }
}

/// What the payload of a trace record comes to.
pub enum TraceOutcome {
    Inserted,
    Undecodable(String),
    Invalid(String),
}

/// What replay makes of a trace record.
pub fn replay_trace_record(outcome: TraceOutcome, offset: u64) -> (out: Result<(), String>)
    ensures
        match outcome {
            TraceOutcome::Inserted => out is Ok,
            TraceOutcome::Undecodable(error) => out is Err && out->Err_0@ == caused_at_offset(
                "trace protobuf decode failed"@,
                offset as nat,
                error@,
            ),
            TraceOutcome::Invalid(error) => out is Err && out->Err_0@ == caused_at_offset(
                "trace record invalid"@,
                offset as nat,
                error@,
            ),
        },
{
    match outcome {
        TraceOutcome::Inserted => Ok(()),
        TraceOutcome::Undecodable(error) => Err(
            cause_message("trace protobuf decode failed", offset, error.as_str()),
        ),
        TraceOutcome::Invalid(error) => Err(
            cause_message("trace record invalid", offset, error.as_str()),
        ),
    }
}

/// What a replay put back, so that a restart can be told from a clean start.
#[derive(Clone, Copy, Debug, PartialEq, Eq, Structural)]
pub struct ReplayReport {
    pub checkpoint: u64,
    pub end_offset: u64,
    pub records: u64,
    pub entries: u64,
}

impl ReplayReport {
    /// The report of a replay that begins at a checkpoint.
    pub fn starting_at(checkpoint: u64) -> (report: Self)
        ensures
            report == (ReplayReport { checkpoint, end_offset: 0, records: 0, entries: 0 }),
    {
        ReplayReport { checkpoint, end_offset: 0, records: 0, entries: 0 }
    }

    /// Counts a record and the entries it put back.
    pub fn add_record(&mut self, entries: u64)
        requires
            old(self).records < u64::MAX,
            old(self).entries + entries <= u64::MAX,
        ensures
            *final(self) == (ReplayReport {
                records: (old(self).records + 1) as u64,
                entries: (old(self).entries + entries) as u64,
                ..*old(self)
            }),
    {
        self.records = self.records + 1;
        self.entries = self.entries + entries;
    }

    /// Closes the report where the records end.
    pub fn ending_at(&mut self, offset: u64)
        ensures
            *final(self) == (ReplayReport { end_offset: offset, ..*old(self) }),
    {
        self.end_offset = offset;
    }
}

/// What the payload of a record decodes to.
pub enum Decoded {
    Logs(Result<Vec<PushedStream>, String>),
    OtlpLogs(Result<Normalized, String>),
    Traces(TraceOutcome),
}

impl Decoded {
    /// How many entries it can put back at most.
    pub open spec fn count(&self) -> nat {
        match self {
            Decoded::Logs(Ok(streams)) => pushed_count(streams@),
            Decoded::OtlpLogs(Ok(Normalized::Streams(streams))) => normalized_count(streams@),
            _ => 0,
        }
    }

    /// Putting it back: what the tables hold then, and how many entries were
    /// put back or what is wrong.
    pub open spec fn put_back(&self, tables: TablesView, tenant: Seq<char>, offset: nat) -> (
        TablesView,
        Result<nat, Seq<char>>,
    ) {
        match self {
            Decoded::Logs(Err(error)) => (
                tables,
                Err(caused_at_offset("journal protobuf decode failed"@, offset, error@)),
            ),
            Decoded::Logs(Ok(streams)) => streams_put_back(tables, tenant, streams@, offset),
            Decoded::OtlpLogs(Err(error)) => (
                tables,
                Err(caused_at_offset("OTLP log protobuf decode failed"@, offset, error@)),
            ),
            Decoded::OtlpLogs(Ok(Normalized::Invalid(error))) => (
                tables,
                Err(caused_at_offset("OTLP log record invalid"@, offset, error@)),
            ),
            Decoded::OtlpLogs(Ok(Normalized::EmptyRequest)) => (tables, Ok(0)),
            Decoded::OtlpLogs(Ok(Normalized::Streams(streams))) => (
                with_streams(tables, tenant, streams@),
                Ok(normalized_count(streams@)),
            ),
            Decoded::Traces(TraceOutcome::Inserted) => (tables, Ok(0)),
            Decoded::Traces(TraceOutcome::Undecodable(error)) => (
                tables,
                Err(caused_at_offset("trace protobuf decode failed"@, offset, error@)),
            ),
            Decoded::Traces(TraceOutcome::Invalid(error)) => (
                tables,
                Err(caused_at_offset("trace record invalid"@, offset, error@)),
            ),
        }
    }
}

/// Puts one record back and counts it.
pub fn replay_record(
    tenant: &TenantId,
    decoded: Decoded,
    offset: u64,
    memtable: &mut MemTableSnapshot,
    report: &mut ReplayReport,
) -> (out: Result<(), String>)
    requires
        old(report).records < u64::MAX,
        old(report).entries + decoded.count() <= u64::MAX,
    ensures
        ({
            let put = decoded.put_back(old(memtable)@, tenant@, offset as nat);
            &&& final(memtable)@ == put.0
            &&& match (out, put.1) {
                (Ok(_), Ok(count)) => *final(report) == (ReplayReport {
                    records: (old(report).records + 1) as u64,
                    entries: (old(report).entries + count) as u64,
                    ..*old(report)
                }),
                (Err(message), Err(problem)) => message@ == problem && *final(report) == *old(
                    report,
                ),
                _ => false,
            }
        }),
{
    proof {
        if let Decoded::Logs(Ok(streams)) = &decoded {
            put_back_count(memtable@, tenant@, streams@, offset as nat);
        }
    }
    let outcome = match decoded {
        Decoded::Logs(decoded) => replay_log_record(tenant, decoded, offset, memtable),
        Decoded::OtlpLogs(decoded) => replay_otlp_log_record(tenant, decoded, offset, memtable),
        Decoded::Traces(outcome) => match replay_trace_record(outcome, offset) {
            Ok(_) => Ok(0),
            Err(message) => Err(message),
        },
    };
    match outcome {
        Ok(entries) => {
            report.add_record(entries);
            Ok(())
        },
        Err(message) => Err(message),
    }
}

proof fn put_back_count(
    tables: TablesView,
    tenant: Seq<char>,
    streams: Seq<PushedStream>,
    offset: nat,
)
    ensures
        streams_put_back(tables, tenant, streams, offset).1 matches Ok(count) ==> count
            == pushed_count(streams),
    decreases streams.len(),
{
    if streams.len() > 0 {
        put_back_count(tables, tenant, streams.drop_last(), offset);
        pushed_entries_len(streams.last().entries@);
    }
}

/// Whether what a payload decodes to goes with the kind of its record.
pub open spec fn goes_with(kind: RecordKind, decoded: Decoded) -> bool {
    match kind {
        RecordKind::Logs => decoded is Logs,
        RecordKind::OtlpLogs => decoded is OtlpLogs,
        RecordKind::Traces => decoded is Traces,
    }
}

/// How many entries records can put back at most.
pub open spec fn decoded_count(decoded: Seq<Decoded>) -> nat
    decreases decoded.len(),
{
    if decoded.len() == 0 {
        0
    } else {
        decoded_count(decoded.drop_last()) + decoded.last().count()
    }
}

/// Putting records back in turn, up to the first that cannot be: what the tables
/// hold then, and how many entries were put back or what is wrong.
pub open spec fn all_put_back(
    tables: TablesView,
    records: Seq<RecordView>,
    decoded: Seq<Decoded>,
) -> (TablesView, Result<nat, Seq<char>>)
    decreases decoded.len(),
{
    if decoded.len() == 0 {
        (tables, Ok(0))
    } else {
        let before = all_put_back(tables, records.drop_last(), decoded.drop_last());
        match before.1 {
            Err(_) => before,
            Ok(count) => {
                let record = records.last();
                let put = decoded.last().put_back(before.0, record.tenant, record.offset);
                (
                    put.0,
                    match put.1 {
                        Ok(more) => Ok(count + more),
                        Err(problem) => Err(problem),
                    },
                )
            },
        }
    }
}

proof fn put_back_bound(tables: TablesView, records: Seq<RecordView>, decoded: Seq<Decoded>)
    ensures
        all_put_back(tables, records, decoded).1 matches Ok(count) ==> count <= decoded_count(
            decoded,
        ),
    decreases decoded.len(),
{
    if decoded.len() > 0 {
        put_back_bound(tables, records.drop_last(), decoded.drop_last());
        let before = all_put_back(tables, records.drop_last(), decoded.drop_last());
        if let Decoded::Logs(Ok(streams)) = decoded.last() {
            put_back_count(before.0, records.last().tenant, streams@, records.last().offset);
        }
    }
}

/// What stops putting records back stops it however many follow.
proof fn put_back_stops(
    tables: TablesView,
    records: Seq<RecordView>,
    decoded: Seq<Decoded>,
    n: int,
)
    requires
        0 <= n <= decoded.len() == records.len(),
        all_put_back(tables, records.take(n), decoded.take(n)).1 is Err,
    ensures
        all_put_back(tables, records, decoded) == all_put_back(
            tables,
            records.take(n),
            decoded.take(n),
        ),
    decreases decoded.len(),
{
    if n < decoded.len() {
        assert(records.drop_last().take(n) =~= records.take(n));
        assert(decoded.drop_last().take(n) =~= decoded.take(n));
        put_back_stops(tables, records.drop_last(), decoded.drop_last(), n);
    } else {
        assert(records.take(n) =~= records);
        assert(decoded.take(n) =~= decoded);
    }
}

proof fn decoded_count_prefix(decoded: Seq<Decoded>, n: int)
    requires
        0 <= n <= decoded.len(),
    ensures
        decoded_count(decoded.take(n)) <= decoded_count(decoded),
    decreases decoded.len(),
{
    if n < decoded.len() {
        assert(decoded.drop_last().take(n) =~= decoded.take(n));
        decoded_count_prefix(decoded.drop_last(), n);
    } else {
        assert(decoded.take(n) =~= decoded);
    }
}

/// Puts the records of a log back, in order, and reports what was put back.
/// `decoded` is what their payloads decode to. The first record that cannot be
/// put back is an error, and so is what stopped the scan of the log, once the
/// records in front of it are back.
pub fn replay_reporting(
    checkpoint: u64,
    log: ScannedLog,
    decoded: VecDeque<Decoded>,
    memtable: &mut MemTableSnapshot,
) -> (out: Result<ReplayReport, String>)
    requires
        decoded@.len() == log.records@.len(),
        forall|i: int|
            0 <= i < decoded@.len() ==> goes_with(
                log.records@[i].kind,
                #[trigger] decoded@[i],
            ),
        decoded_count(decoded@) <= u64::MAX,
    ensures
        ({
            let put = all_put_back(old(memtable)@, log@.records, decoded@);
            &&& final(memtable)@ == put.0
            &&& match (out, put.1, log@.end) {
                (Err(message), Err(problem), _) => message@ == problem,
                (Err(message), Ok(_), Err(problem)) => message@ == problem,
                (Ok(report), Ok(count), Ok(end)) => report == (ReplayReport {
                    checkpoint,
                    end_offset: end as u64,
                    records: log@.records.len() as u64,
                    entries: count as u64,
                }) && count <= u64::MAX,
                _ => false,
            }
        }),
{
    let mut report = ReplayReport::starting_at(checkpoint);
    let ghost views = log@.records;
    let ghost all = decoded@;
    let ghost tables = memtable@;
    let mut rest = decoded;
    let mut i: usize = 0;
    while i < log.records.len()
        invariant
            i <= log.records@.len() == all.len(),
            all == decoded@,
            views == log@.records,
            views.len() == all.len(),
            rest@ == all.skip(i as int),
            decoded_count(all) <= u64::MAX,
            tables == old(memtable)@,
            memtable@ == all_put_back(tables, views.take(i as int), all.take(i as int)).0,
            all_put_back(tables, views.take(i as int), all.take(i as int)).1 == Ok::<nat, Seq<char>>(
                report.entries as nat,
            ),
            report.checkpoint == checkpoint,
            report.records == i,
        decreases log.records.len() - i,
    {
        let ghost n = i as int;
        let record = &log.records[i];
        let next = rest.pop_front().unwrap();
        proof {
            assert(next == all[n]);
            assert(rest@ =~= all.skip(n + 1));
            assert(views.take(n + 1).drop_last() =~= views.take(n));
            assert(all.take(n + 1).drop_last() =~= all.take(n));
            assert(views[n] == record@);
            put_back_bound(tables, views.take(n), all.take(n));
            put_back_bound(tables, views.take(n + 1), all.take(n + 1));
            decoded_count_prefix(all, n + 1);
        }
        let outcome = replay_record(&record.tenant, next, record.offset, memtable, &mut report);
        if let Err(message) = outcome {
            proof {
                put_back_stops(tables, views, all, n + 1);
            }
            return Err(message);
        }
        i = i + 1;
    }
    proof {
        assert(views.take(i as int) =~= views);
        assert(all.take(i as int) =~= all);
    }
    match log.end {
        Err(message) => Err(message),
        Ok(end) => {
            report.ending_at(end);
            Ok(report)
        },
    }
}

/// As [`replay_reporting`], with only where the replay began and where it ended.
pub fn replay_with_traces(
    checkpoint: u64,
    log: ScannedLog,
    decoded: VecDeque<Decoded>,
    memtable: &mut MemTableSnapshot,
) -> (out: Result<(u64, u64), String>)
    requires
        decoded@.len() == log.records@.len(),
        forall|i: int|
            0 <= i < decoded@.len() ==> goes_with(
                log.records@[i].kind,
                #[trigger] decoded@[i],
            ),
        decoded_count(decoded@) <= u64::MAX,
    ensures
        ({
            let put = all_put_back(old(memtable)@, log@.records, decoded@);
            &&& final(memtable)@ == put.0
            &&& match (out, put.1, log@.end) {
                (Err(message), Err(problem), _) => message@ == problem,
                (Err(message), Ok(_), Err(problem)) => message@ == problem,
                (Ok(ends), Ok(_), Ok(end)) => ends.0 == checkpoint && ends.1 == end,
                _ => false,
            }
        }),
{
    match replay_reporting(checkpoint, log, decoded, memtable) {
        Ok(report) => Ok((report.checkpoint, report.end_offset)),
        Err(message) => Err(message),
    }
}

/// Where replay begins and what it finds, given the bytes of the two files.
pub fn replay(
    wal: Option<&[u8]>,
    wal_name: &str,
    checkpoint_file: Option<&[u8]>,
    default_tenant: &TenantId,
) -> (out: Result<(u64, ScannedLog), String>)
    requires
        default_tenant.wf(),
    ensures
        match (checkpoint_file, out) {
            (Some(bytes), Err(message)) => bytes@.len() != 8 && message@
                == crate::journal::record::bad_checkpoint(bytes@.len()),
            (None, Err(_)) => false,
            (file, Ok((checkpoint, log))) => {
                &&& match file {
                    Some(bytes) => bytes@.len() == 8 && checkpoint == le_value(bytes@),
                    None => checkpoint == 0,
                }
                &&& log@ == replayed(
                    match wal {
                        Some(bytes) => Some(bytes@),
                        None => None,
                    },
                    wal_name@,
                    checkpoint as nat,
                    default_tenant@,
                )
                &&& forall|i: int|
                    0 <= i < log.records@.len() ==> (#[trigger] log.records@[i]).tenant.wf()
            },
        },
{
    match crate::journal::record::read_checkpoint(checkpoint_file) {
        Err(message) => Err(message),
        Ok(checkpoint) => Ok((checkpoint, replay_from(wal, wal_name, checkpoint, default_tenant))),
    }
}

} // verus!
