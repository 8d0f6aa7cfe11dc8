//! The bytes of the write-ahead log.
//!
//! A record is its length, its checksum and its data, both numbers in four
//! little-endian bytes. The data is a frame, `LGY3 | kind | tenant length |
//! tenant | payload`, or the bare payload of a log that knew no tenants.

use vstd::prelude::*;
use vstd::slice::slice_subrange;
use vstd::string::*;
use vstd::utf8::*;

use crate::bytes::{le_bytes, le_value, push_bytes, push_le, read_le};
use crate::tenant::{is_tenant, tenant_problem, TenantId};
use crate::text::{decimal, push_decimal, with_number};

verus! {

/// How many bytes stand before the data of a record.
pub const RECORD_HEADER_SIZE: usize = 8;

/// The most bytes the data of a record can have.
pub const MAX_RECORD_BYTES: usize = 0x1000_0000;

pub const WAL_FILE: &'static str = "journal.wal";

pub const CKPT_FILE: &'static str = "journal.ckpt";

/// How a frame begins.
pub const TENANT_RECORD_MAGIC: [u8; 4] = [0x4c, 0x47, 0x59, 0x33];

pub const TENANT_RECORD_KIND_LOGS: u8 = 0;

pub const TENANT_RECORD_KIND_TRACES: u8 = 1;

/// The payload is an OTLP log export as it arrived: replay normalizes it again,
/// so that the write path needs no second message.
pub const TENANT_RECORD_KIND_OTLP_LOGS: u8 = 2;

/// How many bytes stand before the tenant of a frame.
pub const TENANT_RECORD_PREFIX_SIZE: usize = 6;

// ------------------------------------------------------------------- checksum
/// What `crc32fast::hash` returns.
pub uninterp spec fn crc32_of(data: Seq<u8>) -> u32;

/// `crc32fast::hash`: the CRC-32 checksum of bytes. It depends on the bytes
/// alone; which number it is, is left to the name.
#[verifier::external_body]
pub(crate) fn crc32(data: &[u8]) -> (sum: u32)
    ensures
        sum == crc32_of(data@),
{
    crc32fast::hash(data)
}

// ---------------------------------------------------------------------- UTF-8
/// How `std::str::Utf8Error` describes what is wrong with bytes.
pub uninterp spec fn utf8_error(bytes: Seq<u8>) -> Seq<char>;

/// `std::str::from_utf8`: the text that bytes encode, or what is wrong with
/// them. It succeeds on valid UTF-8 alone, and the text encodes to the bytes.
/// The wording of the error is left to the name.
#[verifier::external_body]
pub(crate) fn utf8_text(bytes: &[u8]) -> (out: Result<&str, String>)
    ensures
        match out {
            Ok(text) => valid_utf8(bytes@) && encode_utf8(text@) == bytes@,
            Err(message) => !valid_utf8(bytes@) && message@ == utf8_error(bytes@),
        },
{
    std::str::from_utf8(bytes).map_err(|error| error.to_string())
}

// --------------------------------------------------------------------- frames
/// The bytes of a frame.
pub open spec fn framed(tenant: Seq<char>, kind: u8, payload: Seq<u8>) -> Seq<u8> {
    TENANT_RECORD_MAGIC@ + seq![kind, encode_utf8(tenant).len() as u8] + encode_utf8(tenant)
        + payload
}

/// How long a frame is.
pub fn framed_record_len(tenant: &TenantId, payload: &[u8]) -> (n: usize)
    requires
        TENANT_RECORD_PREFIX_SIZE + crate::tenant::MAX_TENANT_BYTES + payload@.len() <= usize::MAX,
        tenant.wf(),
    ensures
        n == framed(tenant@, 0, payload@).len(),
        forall|kind: u8| n == #[trigger] framed(tenant@, kind, payload@).len(),
{
    TENANT_RECORD_PREFIX_SIZE + tenant.as_str().as_bytes().len() + payload.len()
}

/// Frames a payload, so that replay can recover whose it is.
pub fn frame_tenant_record(tenant: &TenantId, kind: u8, payload: &[u8]) -> (out: Vec<u8>)
    requires
        tenant.wf(),
    ensures
        out@ == framed(tenant@, kind, payload@),
{
    let name = tenant.as_str().as_bytes();
    let mut out: Vec<u8> = Vec::new();
    let magic = TENANT_RECORD_MAGIC;
    push_bytes(&mut out, magic.as_slice());
    out.push(kind);
    out.push(name.len() as u8);
    push_bytes(&mut out, name);
    push_bytes(&mut out, payload);
    assert(out@ =~= framed(tenant@, kind, payload@));
    out
}

/// Whether data begins as a frame does.
pub open spec fn has_magic(data: Seq<u8>) -> bool {
    data.len() >= 4 && data.take(4) == TENANT_RECORD_MAGIC@
}

/// Where the payload of a frame begins, as its prefix says.
pub open spec fn payload_start(data: Seq<u8>) -> int {
    TENANT_RECORD_PREFIX_SIZE + data[5]
}

/// The tenant, the kind and the payload of data: nothing if it is no frame.
pub open spec fn unframed(data: Seq<u8>) -> Result<
    Option<(Seq<char>, u8, Seq<u8>)>,
    Seq<char>,
> {
    if !has_magic(data) {
        Ok(None)
    } else if data.len() < TENANT_RECORD_PREFIX_SIZE || data.len() < payload_start(data) {
        Err("tenant journal record is truncated"@)
    } else {
        let name = data.subrange(TENANT_RECORD_PREFIX_SIZE as int, payload_start(data));
        if !valid_utf8(name) {
            Err("tenant journal record has a non-UTF-8 tenant: "@ + utf8_error(name))
        } else if !is_tenant(decode_utf8(name)) {
            Err(tenant_problem(decode_utf8(name)))
        } else {
            Ok(Some((decode_utf8(name), data[4], data.skip(payload_start(data)))))
        }
    }
}

/// Takes a frame apart.
pub fn decode_tenant_record(data: &[u8]) -> (out: Result<Option<(TenantId, u8, &[u8])>, String>)
    ensures
        match out {
            Ok(None) => unframed(data@) == Ok::<
                Option<(Seq<char>, u8, Seq<u8>)>,
                Seq<char>,
            >(None),
            Ok(Some(parts)) => parts.0.wf() && unframed(data@) == Ok::<
                Option<(Seq<char>, u8, Seq<u8>)>,
                Seq<char>,
            >(Some((parts.0@, parts.1, parts.2@))),
            Err(message) => unframed(data@) == Err::<
                Option<(Seq<char>, u8, Seq<u8>)>,
                Seq<char>,
            >(message@),
        },
{
    broadcast use encode_utf8_decode_utf8;

    let magic = TENANT_RECORD_MAGIC;
    if data.len() < 4 {
        return Ok(None);
    }
    if data[0] != magic[0] || data[1] != magic[1] || data[2] != magic[2] || data[3] != magic[3] {
        assert(data@.take(4)[0] == data@[0] && data@.take(4)[1] == data@[1] && data@.take(4)[2]
            == data@[2] && data@.take(4)[3] == data@[3]);
        return Ok(None);
    }
    assert(data@.take(4) =~= TENANT_RECORD_MAGIC@);
    if data.len() < TENANT_RECORD_PREFIX_SIZE {
        return Err("tenant journal record is truncated".to_owned());
    }
    let kind: u8 = data[4];
    let end: usize = TENANT_RECORD_PREFIX_SIZE + data[5] as usize;
    if data.len() < end {
        return Err("tenant journal record is truncated".to_owned());
    }
    let name = slice_subrange(data, TENANT_RECORD_PREFIX_SIZE, end);
    match utf8_text(name) {
        Err(error) => {
            let mut message = "tenant journal record has a non-UTF-8 tenant: ".to_owned();
            message.append(error.as_str());
            Err(message)
        },
        Ok(text) => {
            assert(decode_utf8(name@) == text@);
            match TenantId::parse(text) {
                Err(message) => Err(message),
                Ok(tenant) => {
                    let payload = slice_subrange(data, end, data.len());
                    assert(payload@ =~= data@.skip(end as int));
                    Ok(Some((tenant, kind, payload)))
                },
            }
        },
    }
}

/// A frame comes apart into what it was made of.
pub proof fn unframe_undoes_frame(tenant: Seq<char>, kind: u8, payload: Seq<u8>)
    requires
        is_tenant(tenant),
    ensures
        unframed(framed(tenant, kind, payload)) == Ok::<
            Option<(Seq<char>, u8, Seq<u8>)>,
            Seq<char>,
        >(Some((tenant, kind, payload))),
{
    broadcast use {encode_utf8_decode_utf8, encode_utf8_valid_utf8};

    let data = framed(tenant, kind, payload);
    let name = encode_utf8(tenant);
    assert(data.take(4) =~= TENANT_RECORD_MAGIC@);
    assert(data[4] == kind);
    assert(data[5] == name.len());
    assert(data.subrange(TENANT_RECORD_PREFIX_SIZE as int, payload_start(data)) =~= name);
    assert(data.skip(payload_start(data)) =~= payload);
}

/// A frame is the four bytes `LGY3`, its kind, how many bytes the tenant takes, the tenant
/// and the payload.
pub proof fn a_frame_is_laid_out_in_order(tenant: Seq<char>, kind: u8, payload: Seq<u8>)
    requires
        is_tenant(tenant),
    ensures
        ({
            let name = encode_utf8(tenant);
            let data = framed(tenant, kind, payload);
            &&& data.len() == 6 + name.len() + payload.len()
            &&& data[0] == 0x4c && data[1] == 0x47 && data[2] == 0x59 && data[3] == 0x33
            &&& data[4] == kind
            &&& data[5] == name.len()
            &&& forall|i: int| 0 <= i < name.len() ==> #[trigger] name[i] == data[6 + i]
            &&& forall|i: int|
                0 <= i < payload.len() ==> #[trigger] payload[i] == data[6 + name.len() + i]
        }),
{
    let magic = TENANT_RECORD_MAGIC@;
    assert(magic[0] == 0x4c && magic[1] == 0x47 && magic[2] == 0x59 && magic[3] == 0x33);
}

// -------------------------------------------------------------------- records
/// The bytes of a record.
pub open spec fn record(data: Seq<u8>) -> Seq<u8> {
    le_bytes(data.len(), 4) + le_bytes(crc32_of(data) as nat, 4) + data
}

/// The bytes of a log that holds records.
pub open spec fn log_of(datas: Seq<Seq<u8>>) -> Seq<u8>
    decreases datas.len(),
{
    if datas.len() == 0 {
        seq![]
    } else {
        log_of(datas.drop_last()) + record(datas.last())
    }
}

/// What is wrong with data that is too long for a record.
pub open spec fn too_large(len: nat) -> Seq<char> {
    "journal record is too large: "@ + decimal(len) + " bytes (maximum 268435456)"@
}

/// Refuses data that is too long for a record.
pub fn check_record_len(len: usize) -> (out: Result<(), String>)
    ensures
        out is Ok <==> len <= 268_435_456,
        match out {
            Ok(_) => len <= MAX_RECORD_BYTES,
            Err(message) => len > MAX_RECORD_BYTES && message@ == too_large(len as nat),
        },
{
    if len > MAX_RECORD_BYTES {
        Err(with_number("journal record is too large: ", len as u64, " bytes (maximum 268435456)"))
    } else {
        Ok(())
    }
}

/// Appends a record.
pub fn push_record(out: &mut Vec<u8>, data: &[u8])
    ensures
        final(out)@ == old(out)@ + record(data@),
{
    push_le(out, data.len() as u64, 4);
    push_le(out, crc32(data) as u64, 4);
    push_bytes(out, data);
    assert(out@ =~= old(out)@ + record(data@));
}

pub proof fn record_len(data: Seq<u8>)
    ensures
        record(data).len() == RECORD_HEADER_SIZE + data.len(),
{
    crate::bytes::le_bytes_len(data.len(), 4);
    crate::bytes::le_bytes_len(crc32_of(data) as nat, 4);
}

/// A record is the length of its data, its checksum and its data, the two numbers with
/// their least byte first.
pub proof fn a_record_is_laid_out_in_order(data: Seq<u8>)
    requires
        data.len() <= MAX_RECORD_BYTES,
    ensures
        ({
            let out = record(data);
            let sum = crc32_of(data) as nat;
            &&& out.len() == 8 + data.len()
            &&& out[0] + 256 * out[1] + 65536 * out[2] + 16777216 * out[3] == data.len()
            &&& out[4] + 256 * out[5] + 65536 * out[6] + 16777216 * out[7] == sum
            &&& forall|i: int| 0 <= i < data.len() ==> #[trigger] data[i] == out[8 + i]
        }),
{
    record_len(data);
    crate::bytes::the_least_byte_comes_first(data.len());
    crate::bytes::the_least_byte_comes_first(crc32_of(data) as nat);
    let out = record(data);
    let len = le_bytes(data.len(), 4);
    let sum = le_bytes(crc32_of(data) as nat, 4);
    assert(out[0] == len[0] && out[1] == len[1] && out[2] == len[2] && out[3] == len[3]);
    assert(out[4] == sum[0] && out[5] == sum[1] && out[6] == sum[2] && out[7] == sum[3]);
}

// ----------------------------------------------------------------- checkpoint
/// What is wrong with a checkpoint of so many bytes.
pub open spec fn bad_checkpoint(len: nat) -> Seq<char> {
    "journal checkpoint must be exactly 8 bytes, got "@ + decimal(len)
}

/// The offset that a checkpoint file holds: zero if there is none.
pub fn read_checkpoint(file: Option<&[u8]>) -> (out: Result<u64, String>)
    ensures
        match (file, out) {
            (None, out) => out == Ok::<u64, String>(0),
            (Some(bytes), Ok(offset)) => bytes@.len() == 8 && offset == le_value(bytes@),
            (Some(bytes), Err(message)) => bytes@.len() != 8 && message@ == bad_checkpoint(
                bytes@.len(),
            ),
        },
{
    match file {
        None => Ok(0),
        Some(bytes) => {
            if bytes.len() != 8 {
                let mut message = "journal checkpoint must be exactly 8 bytes, got ".to_owned();
                push_decimal(&mut message, bytes.len() as u64);
                return Err(message);
            }
            assert(bytes@.subrange(0, 8) =~= bytes@);
            Ok(read_le(bytes, 0, 8))
        },
    }
}

/// The bytes of a checkpoint file.
pub fn write_checkpoint(offset: u64) -> (out: Vec<u8>)
    ensures
        out@ == le_bytes(offset as nat, 8),
{
    let mut out: Vec<u8> = Vec::new();
    push_le(&mut out, offset, 8);
    assert(out@ =~= le_bytes(offset as nat, 8));
    out
}

/// Reading a checkpoint that was written gives its offset back.
pub proof fn checkpoint_round_trip(offset: u64)
    ensures
        le_bytes(offset as nat, 8).len() == 8,
        le_value(le_bytes(offset as nat, 8)) == offset,
{
    crate::bytes::span_values();
    crate::bytes::le_round_trip(offset as nat, 8);
}

} // verus!
