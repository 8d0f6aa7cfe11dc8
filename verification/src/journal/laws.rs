//! What the log promises.

use vstd::prelude::*;
use vstd::utf8::*;

use crate::bytes::{le_bytes, le_round_trip, le_value, span_values};
use crate::journal::record::{
    crc32_of, framed, log_of, record, record_len, unframe_undoes_frame, unframed, MAX_RECORD_BYTES,
    RECORD_HEADER_SIZE,
};
use crate::journal::replay::{
    at_offset, checkpoint_problem, header_problem, kind_of, opened, record_end, scanned, RecordKind,
    RecordView, ScanView,
};
use crate::tenant::is_tenant;

verus! {

/// Whether replay can open data: it is no frame, or a sound frame of a kind
/// that there is.
pub open spec fn opens(data: Seq<u8>) -> bool {
    &&& data.len() <= MAX_RECORD_BYTES
    &&& match unframed(data) {
        Ok(None) => true,
        Ok(Some(parts)) => kind_of(parts.1) is Some,
        Err(_) => false,
    }
}

/// Where a record stands in a log.
pub open spec fn offset_of(datas: Seq<Seq<u8>>, i: int) -> nat {
    log_of(datas.take(i)).len()
}

/// The records that replay should find in a log.
pub open spec fn held_records(datas: Seq<Seq<u8>>, default_tenant: Seq<char>) -> Seq<RecordView> {
    Seq::new(datas.len(), |i: int| opened(datas[i], offset_of(datas, i), default_tenant)->Ok_0)
}

/// Whether bytes behind the last record are a torn tail: too few for a header,
/// a record that runs past them, or a last record with a wrong checksum.
pub open spec fn is_torn(tail: Seq<u8>) -> bool {
    let header = tail.take(RECORD_HEADER_SIZE as int);
    ||| tail.len() < RECORD_HEADER_SIZE
    ||| record_end(header, 0) > tail.len()
    ||| {
        &&& record_end(header, 0) == tail.len()
        &&& le_value(header.take(4)) <= MAX_RECORD_BYTES
        &&& crc32_of(tail.skip(RECORD_HEADER_SIZE as int)) != le_value(header.skip(4))
    }
}

/// Whether offsets in a log of so many bytes, with a record behind it, fit.
pub open spec fn offsets_fit(len: nat) -> bool {
    len + 0x1_0000_0008 <= u64::MAX
}

proof fn log_splits(datas: Seq<Seq<u8>>, k: int)
    requires
        0 <= k <= datas.len(),
    ensures
        log_of(datas) == log_of(datas.take(k)) + log_of(datas.skip(k)),
    decreases datas.len(),
{
    if k == datas.len() {
        assert(datas.take(k) =~= datas);
        assert(datas.skip(k) =~= seq![]);
        assert(log_of(datas) =~= log_of(datas) + log_of(datas.skip(k)));
    } else {
        let before = datas.drop_last();
        log_splits(before, k);
        assert(before.take(k) =~= datas.take(k));
        assert(datas.skip(k).drop_last() =~= before.skip(k));
        assert(datas.skip(k).last() == datas.last());
        assert(log_of(datas) =~= log_of(datas.take(k)) + log_of(datas.skip(k)));
    }
}

/// A record begins where the one before it ends, eight bytes and its data further on, and
/// the first one begins the log.
pub proof fn records_stand_one_behind_the_other(datas: Seq<Seq<u8>>, k: int)
    requires
        0 <= k < datas.len(),
    ensures
        offset_of(datas, 0) == 0,
        offset_of(datas, k + 1) == offset_of(datas, k) + 8 + datas[k].len(),
        log_of(datas).len() >= offset_of(datas, k + 1),
        forall|n: int|
            0 <= n < datas[k].len() ==> #[trigger] log_of(datas)[offset_of(datas, k) + 8 + n]
                == datas[k][n],
{
    assert(datas.take(0) =~= seq![]);
    log_next(datas, k);
    log_splits(datas, k + 1);
    record_len(datas[k]);
    assert forall|n: int| 0 <= n < datas[k].len() implies #[trigger] log_of(datas)[offset_of(
        datas,
        k,
    ) + 8 + n] == datas[k][n] by {
        crate::bytes::le_bytes_len(datas[k].len(), 4);
        crate::bytes::le_bytes_len(crc32_of(datas[k]) as nat, 4);
        assert(record(datas[k])[8 + n] == datas[k][n]);
    }
}

proof fn log_next(datas: Seq<Seq<u8>>, k: int)
    requires
        0 <= k < datas.len(),
    ensures
        log_of(datas.take(k + 1)) == log_of(datas.take(k)) + record(datas[k]),
        offset_of(datas, k + 1) == offset_of(datas, k) + RECORD_HEADER_SIZE + datas[k].len(),
{
    assert(datas.take(k + 1).drop_last() =~= datas.take(k));
    record_len(datas[k]);
}

/// What stands in the header of a record.
proof fn header_of_record(data: Seq<u8>)
    requires
        data.len() <= MAX_RECORD_BYTES,
    ensures
        ({
            let header = record(data).take(RECORD_HEADER_SIZE as int);
            &&& le_value(header.take(4)) == data.len()
            &&& le_value(header.skip(4)) == crc32_of(data)
        }),
        record(data).skip(RECORD_HEADER_SIZE as int) == data,
{
    span_values();
    record_len(data);
    le_round_trip(data.len(), 4);
    le_round_trip(crc32_of(data) as nat, 4);
    let header = record(data).take(RECORD_HEADER_SIZE as int);
    assert(header.take(4) =~= le_bytes(data.len(), 4));
    assert(header.skip(4) =~= le_bytes(crc32_of(data) as nat, 4));
    assert(record(data).skip(RECORD_HEADER_SIZE as int) =~= data);
}

proof fn torn_tail_stops(wal: Seq<u8>, tail: Seq<u8>, default_tenant: Seq<char>)
    requires
        is_torn(tail),
        offsets_fit(wal.len() + tail.len()),
    ensures
        scanned(wal + tail, wal.len(), default_tenant) == (ScanView {
            records: seq![],
            end: Ok(wal.len()),
        }),
{
    let whole = wal + tail;
    if tail.len() >= RECORD_HEADER_SIZE {
        let header = whole.subrange(wal.len() as int, wal.len() + RECORD_HEADER_SIZE);
        assert(header =~= tail.take(RECORD_HEADER_SIZE as int));
        span_values();
        assert(header.take(4).len() == 4);
        crate::bytes::le_value_bound(header.take(4));
        if record_end(header, 0) <= tail.len() {
            assert(whole.subrange(wal.len() + RECORD_HEADER_SIZE, whole.len() as int)
                =~= tail.skip(RECORD_HEADER_SIZE as int));
        }
    }
}

/// A scan finds the sound records in front of whatever follows them, and goes on
/// behind them.
proof fn sound_records_are_found(
    datas: Seq<Seq<u8>>,
    behind: Seq<u8>,
    k: int,
    default_tenant: Seq<char>,
)
    requires
        forall|i: int| 0 <= i < datas.len() ==> opens(#[trigger] datas[i]),
        offsets_fit(log_of(datas).len() + behind.len()),
        0 <= k <= datas.len(),
    ensures
        ({
            let whole = log_of(datas) + behind;
            let rest = scanned(whole, log_of(datas).len(), default_tenant);
            scanned(whole, offset_of(datas, k), default_tenant) == (ScanView {
                records: held_records(datas, default_tenant).skip(k) + rest.records,
                end: rest.end,
            })
        }),
    decreases datas.len() - k,
{
    let whole = log_of(datas) + behind;
    let held = held_records(datas, default_tenant);
    let rest = scanned(whole, log_of(datas).len(), default_tenant);
    if k == datas.len() {
        assert(datas.take(k) =~= datas);
        assert(held.skip(k) + rest.records =~= rest.records);
    } else {
        sound_records_are_found(datas, behind, k + 1, default_tenant);
        log_next(datas, k);
        log_splits(datas, k + 1);
        header_of_record(datas[k]);
        record_len(datas[k]);
        let offset = offset_of(datas, k);
        let data = datas[k];
        assert(opens(data));
        let end = offset + RECORD_HEADER_SIZE + data.len();
        let header = whole.subrange(offset as int, offset + RECORD_HEADER_SIZE);
        assert(whole.subrange(offset as int, end as int) =~= record(data));
        assert(header =~= record(data).take(RECORD_HEADER_SIZE as int));
        assert(whole.subrange(offset + RECORD_HEADER_SIZE, end as int) =~= data);
        assert(record_end(header, offset) == end);
        assert(opened(data, offset, default_tenant) == Ok::<RecordView, Seq<char>>(held[k]));
        assert(held.skip(k) + rest.records =~= seq![held[k]] + (held.skip(k + 1) + rest.records));
    }
}

/// A log gives back every record that was written to it, in order, each with
/// its tenant, its kind and its payload, and ends where they end. It does so
/// from the place of any record on, and whatever torn tail a crash left behind
/// the last record.
pub proof fn replay_undoes_append(
    datas: Seq<Seq<u8>>,
    tail: Seq<u8>,
    k: int,
    default_tenant: Seq<char>,
)
    requires
        forall|i: int| 0 <= i < datas.len() ==> opens(#[trigger] datas[i]),
        is_torn(tail),
        offsets_fit(log_of(datas).len() + tail.len()),
        0 <= k <= datas.len(),
    ensures
        scanned(log_of(datas) + tail, offset_of(datas, k), default_tenant) == (ScanView {
            records: held_records(datas, default_tenant).skip(k),
            end: Ok(log_of(datas).len()),
        }),
{
    let held = held_records(datas, default_tenant);
    sound_records_are_found(datas, tail, k, default_tenant);
    torn_tail_stops(log_of(datas), tail, default_tenant);
    assert(held.skip(k) + Seq::<RecordView>::empty() =~= held.skip(k));
}

/// A record that a crash cut short is a torn tail, wherever it was cut.
pub proof fn a_cut_record_is_torn(data: Seq<u8>, n: int)
    requires
        data.len() <= MAX_RECORD_BYTES,
        0 <= n < record(data).len(),
    ensures
        is_torn(record(data).take(n)),
{
    record_len(data);
    header_of_record(data);
    if n >= RECORD_HEADER_SIZE {
        assert(record(data).take(n).take(RECORD_HEADER_SIZE as int) =~= record(data).take(
            RECORD_HEADER_SIZE as int,
        ));
    }
}

/// A frame that was appended is found again with its tenant, kind and payload.
pub proof fn an_appended_frame_is_found(
    datas: Seq<Seq<u8>>,
    k: int,
    tenant: Seq<char>,
    kind: RecordKind,
    byte: u8,
    payload: Seq<u8>,
    default_tenant: Seq<char>,
)
    requires
        0 <= k < datas.len(),
        is_tenant(tenant),
        kind_of(byte) == Some(kind),
        framed(tenant, byte, payload).len() <= MAX_RECORD_BYTES,
        datas[k] == framed(tenant, byte, payload),
    ensures
        opens(datas[k]),
        held_records(datas, default_tenant)[k] == (RecordView {
            offset: offset_of(datas, k),
            tenant,
            kind,
            payload,
        }),
{
    unframe_undoes_frame(tenant, byte, payload);
}

/// A wrong checksum that is not in the last record is refused, from the place of
/// any record in front of it on, and not taken for a torn tail: what stands
/// behind it would be lost.
pub proof fn interior_corruption_is_refused(
    datas: Seq<Seq<u8>>,
    bad: Seq<u8>,
    rest: Seq<u8>,
    k: int,
    default_tenant: Seq<char>,
)
    requires
        forall|i: int| 0 <= i < datas.len() ==> opens(#[trigger] datas[i]),
        0 <= k <= datas.len(),
        rest.len() > 0,
        bad.len() >= RECORD_HEADER_SIZE,
        record_end(bad.take(RECORD_HEADER_SIZE as int), 0) == bad.len(),
        bad.len() <= RECORD_HEADER_SIZE + MAX_RECORD_BYTES,
        crc32_of(bad.skip(RECORD_HEADER_SIZE as int)) != le_value(
            bad.take(RECORD_HEADER_SIZE as int).skip(4),
        ),
        offsets_fit(log_of(datas).len() + bad.len() + rest.len()),
    ensures
        scanned(log_of(datas) + (bad + rest), offset_of(datas, k), default_tenant) == (ScanView {
            records: held_records(datas, default_tenant).skip(k),
            end: Err(at_offset("journal record crc mismatch"@, log_of(datas).len())),
        }),
{
    let start = log_of(datas).len();
    let whole = log_of(datas) + (bad + rest);
    let held = held_records(datas, default_tenant);
    let header = whole.subrange(start as int, start + RECORD_HEADER_SIZE);
    assert(header =~= bad.take(RECORD_HEADER_SIZE as int));
    assert(whole.subrange(start + RECORD_HEADER_SIZE, (start + bad.len()) as int) =~= bad.skip(
        RECORD_HEADER_SIZE as int,
    ));
    sound_records_are_found(datas, bad + rest, k, default_tenant);
    assert(held.skip(k) + Seq::<RecordView>::empty() =~= held.skip(k));
}

/// A record moved to another place.
pub open spec fn moved(record: RecordView, by: nat) -> RecordView {
    RecordView { offset: (record.offset - by) as nat, ..record }
}

/// Dropping the bytes in front of an offset drops no record behind it: a scan
/// of what is left from its beginning finds the records that a scan of the
/// whole log finds from the offset on, each at its new place, and comes to an
/// end exactly if that one does.
pub proof fn dropping_a_prefix_keeps_the_rest(
    wal: Seq<u8>,
    cut: nat,
    offset: nat,
    default_tenant: Seq<char>,
)
    requires
        cut <= offset <= wal.len(),
        offsets_fit(wal.len()),
    ensures
        ({
            let before = scanned(wal, offset, default_tenant);
            let after = scanned(wal.skip(cut as int), (offset - cut) as nat, default_tenant);
            &&& after.records == before.records.map_values(|record: RecordView| moved(record, cut))
            &&& match (before.end, after.end) {
                (Ok(b), Ok(a)) => a == b - cut,
                (Err(_), Err(_)) => true,
                _ => false,
            }
        }),
    decreases wal.len() - offset,
{
    let short = wal.skip(cut as int);
    let at = (offset - cut) as nat;
    let before = scanned(wal, offset, default_tenant);
    let after = scanned(short, at, default_tenant);
    let shift = |record: RecordView| moved(record, cut);
    if offset + RECORD_HEADER_SIZE > wal.len() {
        assert(after.records =~= before.records.map_values(shift));
    } else {
        let header = wal.subrange(offset as int, offset + RECORD_HEADER_SIZE);
        assert(header =~= short.subrange(at as int, at + RECORD_HEADER_SIZE));
        span_values();
        assert(header.take(4).len() == 4);
        crate::bytes::le_value_bound(header.take(4));
        let end = record_end(header, offset);
        if header_problem(header, offset, wal.len()) is Some || end > wal.len() {
            assert(after.records =~= before.records.map_values(shift));
        } else {
            let data = wal.subrange(offset + RECORD_HEADER_SIZE, end as int);
            assert(data =~= short.subrange(at + RECORD_HEADER_SIZE, end - cut));
            if crc32_of(data) != le_value(header.skip(4)) {
                assert(after.records =~= before.records.map_values(shift));
            } else {
                match opened(data, offset, default_tenant) {
                    Err(_) => {
                        assert(after.records =~= before.records.map_values(shift));
                    },
                    Ok(record) => {
                        dropping_a_prefix_keeps_the_rest(wal, cut, end, default_tenant);
                        assert(after.records =~= before.records.map_values(shift));
                    },
                }
            }
        }
    }
}

/// What became of a write.
pub enum Write {
    /// It succeeded: records were appended and acknowledged.
    Succeeded(Seq<Seq<u8>>),
    /// It failed and left bytes behind the log, which was then cut back.
    Failed(Seq<u8>),
}

/// The log after writes.
pub open spec fn log_after(writes: Seq<Write>) -> Seq<u8>
    decreases writes.len(),
{
    if writes.len() == 0 {
        seq![]
    } else {
        let before = log_after(writes.drop_last());
        match writes.last() {
            Write::Succeeded(datas) => before + log_of(datas),
            Write::Failed(left) => (before + left).take(before.len() as int),
        }
    }
}

/// The records that were acknowledged.
pub open spec fn acknowledged(writes: Seq<Write>) -> Seq<Seq<u8>>
    decreases writes.len(),
{
    if writes.len() == 0 {
        seq![]
    } else {
        let before = acknowledged(writes.drop_last());
        match writes.last() {
            Write::Succeeded(datas) => before + datas,
            Write::Failed(_) => before,
        }
    }
}

/// However writes succeed and fail, the log holds the acknowledged records and
/// nothing else.
pub proof fn the_log_is_what_was_acknowledged(writes: Seq<Write>)
    ensures
        log_after(writes) == log_of(acknowledged(writes)),
    decreases writes.len(),
{
    if writes.len() > 0 {
        the_log_is_what_was_acknowledged(writes.drop_last());
        let before = acknowledged(writes.drop_last());
        match writes.last() {
            Write::Succeeded(datas) => {
                let all = before + datas;
                log_splits(all, before.len() as int);
                assert(all.take(before.len() as int) =~= before);
                assert(all.skip(before.len() as int) =~= datas);
            },
            Write::Failed(left) => {
                assert((log_of(before) + left).take(log_of(before).len() as int) =~= log_of(
                    before,
                ));
            },
        }
    }
}

/// A wrong checksum in the last record ends the log in front of it, from the place of any
/// record before it on: the records in front are all found, and it is no error.
pub proof fn a_last_record_with_a_wrong_checksum_is_left_out(
    datas: Seq<Seq<u8>>,
    bad: Seq<u8>,
    k: int,
    default_tenant: Seq<char>,
)
    requires
        forall|i: int| 0 <= i < datas.len() ==> opens(#[trigger] datas[i]),
        0 <= k <= datas.len(),
        8 <= bad.len() <= 8 + MAX_RECORD_BYTES,
        le_value(bad.take(4)) == bad.len() - 8,
        crc32_of(bad.skip(8)) != le_value(bad.subrange(4, 8)),
        offsets_fit(log_of(datas).len() + bad.len()),
    ensures
        scanned(log_of(datas) + bad, offset_of(datas, k), default_tenant).end == Ok::<
            nat,
            Seq<char>,
        >(log_of(datas).len()),
        scanned(log_of(datas) + bad, offset_of(datas, k), default_tenant).records.len()
            == datas.len() - k,
{
    let header = bad.take(RECORD_HEADER_SIZE as int);
    assert(header.take(4) =~= bad.take(4));
    assert(header.skip(4) =~= bad.subrange(4, 8));
    assert(is_torn(bad));
    replay_undoes_append(datas, bad, k, default_tenant);
}

/// Fewer bytes than a header, or fewer bytes than a header announces, end the log in
/// front of them, and it is no error.
pub proof fn a_record_that_is_not_whole_is_left_out(
    datas: Seq<Seq<u8>>,
    tail: Seq<u8>,
    k: int,
    default_tenant: Seq<char>,
)
    requires
        forall|i: int| 0 <= i < datas.len() ==> opens(#[trigger] datas[i]),
        0 <= k <= datas.len(),
        tail.len() < 8 || tail.len() < 8 + le_value(tail.take(4)),
        offsets_fit(log_of(datas).len() + tail.len()),
    ensures
        scanned(log_of(datas) + tail, offset_of(datas, k), default_tenant).end == Ok::<
            nat,
            Seq<char>,
        >(log_of(datas).len()),
        scanned(log_of(datas) + tail, offset_of(datas, k), default_tenant).records.len()
            == datas.len() - k,
{
    if tail.len() >= 8 {
        assert(tail.take(RECORD_HEADER_SIZE as int).take(4) =~= tail.take(4));
    }
    assert(is_torn(tail));
    replay_undoes_append(datas, tail, k, default_tenant);
}

/// Data that does not begin as a frame does is the payload of a log push of the default
/// tenant, all of it.
pub proof fn a_bare_payload_is_the_default_tenants(
    data: Seq<u8>,
    offset: nat,
    default_tenant: Seq<char>,
)
    requires
        data.len() <= MAX_RECORD_BYTES,
        data.len() < 4 || data[0] != 0x4c || data[1] != 0x47 || data[2] != 0x59 || data[3] != 0x33,
    ensures
        opens(data),
        opened(data, offset, default_tenant) == Ok::<RecordView, Seq<char>>(
            RecordView { offset, tenant: default_tenant, kind: RecordKind::Logs, payload: data },
        ),
{
    if data.len() >= 4 {
        let magic = crate::journal::record::TENANT_RECORD_MAGIC@;
        assert(magic[0] == 0x4c && magic[1] == 0x47 && magic[2] == 0x59 && magic[3] == 0x33);
        let first = data.take(4);
        assert(first[0] == data[0] && first[1] == data[1] && first[2] == data[2] && first[3]
            == data[3]);
    }
}

/// A framed push comes back as a log push, framed spans as traces and a framed export as
/// an export, each under the tenant and with the payload that were framed; a frame of any
/// other kind is refused.
pub proof fn a_frame_comes_back_as_what_it_is(
    tenant: Seq<char>,
    byte: u8,
    payload: Seq<u8>,
    offset: nat,
    default_tenant: Seq<char>,
)
    requires
        is_tenant(tenant),
    ensures
        ({
            let found = opened(framed(tenant, byte, payload), offset, default_tenant);
            &&& found is Ok <==> byte <= 2
            &&& found matches Ok(record) ==> {
                &&& record.offset == offset
                &&& record.tenant == tenant
                &&& record.payload == payload
                &&& record.kind == RecordKind::Logs <==> byte == 0
                &&& record.kind == RecordKind::Traces <==> byte == 1
                &&& record.kind == RecordKind::OtlpLogs <==> byte == 2
            }
        }),
{
    unframe_undoes_frame(tenant, byte, payload);
}

/// Replay reads a log from its checkpoint on, exactly if the checkpoint lies within it. A
/// log that is missing holds nothing, and goes with the checkpoint zero alone.
pub proof fn replay_begins_at_a_checkpoint_within_the_log(
    wal: Option<Seq<u8>>,
    wal_name: Seq<char>,
    checkpoint: nat,
    default_tenant: Seq<char>,
)
    ensures
        ({
            let found = crate::journal::replay::replayed(wal, wal_name, checkpoint, default_tenant);
            match wal {
                Some(bytes) => if checkpoint <= bytes.len() {
                    found == scanned(bytes, checkpoint, default_tenant)
                } else {
                    found.records.len() == 0 && found.end is Err
                },
                None => found.records.len() == 0 && (found.end is Ok <==> checkpoint == 0),
            }
        }),
{
}

/// A frame that is too short for what it announces, or whose tenant is no text or no
/// tenant, is refused: it is not taken for a record of the default tenant.
pub proof fn a_broken_frame_is_refused(data: Seq<u8>, offset: nat, default_tenant: Seq<char>)
    requires
        data.len() >= 4,
        data[0] == 0x4c && data[1] == 0x47 && data[2] == 0x59 && data[3] == 0x33,
        data.len() < 6 || data.len() < 6 + data[5] || data[5] == 0 || !valid_utf8(
            data.subrange(6, 6 + data[5]),
        ),
    ensures
        opened(data, offset, default_tenant) is Err,
{
    broadcast use encode_utf8_decode_utf8;

    assert(data.take(4) =~= crate::journal::record::TENANT_RECORD_MAGIC@);
    if data.len() >= 6 && data.len() >= 6 + data[5] {
        let name = data.subrange(6, 6 + data[5]);
        if valid_utf8(name) {
            decode_utf8_encode_utf8(name);
        }
    }
}

/// A record that is whole but announces more data than a record can have is refused, from
/// the place of any record in front of it on.
pub proof fn a_record_that_is_too_large_is_refused(
    datas: Seq<Seq<u8>>,
    large: Seq<u8>,
    k: int,
    default_tenant: Seq<char>,
)
    requires
        forall|i: int| 0 <= i < datas.len() ==> opens(#[trigger] datas[i]),
        0 <= k <= datas.len(),
        large.len() >= 8,
        le_value(large.take(4)) > 268_435_456,
        large.len() >= 8 + le_value(large.take(4)),
        offsets_fit(log_of(datas).len() + large.len()),
    ensures
        scanned(log_of(datas) + large, offset_of(datas, k), default_tenant).end is Err,
        scanned(log_of(datas) + large, offset_of(datas, k), default_tenant).records.len()
            == datas.len() - k,
{
    let start = log_of(datas).len();
    let whole = log_of(datas) + large;
    let header = whole.subrange(start as int, start + RECORD_HEADER_SIZE);
    assert(header.take(4) =~= large.take(4));
    sound_records_are_found(datas, large, k, default_tenant);
}

/// A checkpoint goes with a log exactly if it is not behind its end, and with no log exactly
/// if it is zero.
pub proof fn a_checkpoint_goes_with_a_log_that_reaches_it(
    wal_len: Option<nat>,
    wal_name: Seq<char>,
    checkpoint: nat,
)
    ensures
        checkpoint_problem(wal_len, wal_name, checkpoint) is None <==> match wal_len {
            Some(len) => checkpoint <= len,
            None => checkpoint == 0,
        },
{
}

/// A header announces a record that can be read exactly if the record ends within what an
/// offset can say, and has no more data than a record can have unless it is cut off.
pub proof fn a_header_is_refused_for_what_it_announces(
    header: Seq<u8>,
    offset: nat,
    file_len: nat,
)
    ensures
        ({
            let end = offset + 8 + le_value(header.take(4));
            header_problem(header, offset, file_len) is None <==> end <= u64::MAX && (end
                > file_len || le_value(header.take(4)) <= 268_435_456)
        }),
{
}

} // verus!
