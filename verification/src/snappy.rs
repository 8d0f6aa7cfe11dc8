//! The body compression of a push.

use vstd::prelude::*;

verus! {

/// What `snap::raw::decompress_len` returns: a length, or what is wrong with the
/// header.
pub uninterp spec fn declared_len(body: Seq<u8>) -> Result<nat, Seq<char>>;

/// What `snap::raw::Decoder::decompress_vec` returns: bytes, or what is wrong
/// with the body.
pub uninterp spec fn decompressed(body: Seq<u8>) -> Result<Seq<u8>, Seq<char>>;

/// What `snap::raw::Encoder::compress_vec` returns: bytes, or what is wrong with
/// the input.
pub uninterp spec fn compressed(bytes: Seq<u8>) -> Result<Seq<u8>, Seq<char>>;

/// `snap::raw::decompress_len`: the length that the header of a body declares.
/// How the header writes it, and the wording of the error, are left to the name.
#[verifier::external_body]
pub(crate) fn snappy_len(body: &[u8]) -> (out: Result<usize, String>)
    ensures
        match out {
            Ok(len) => declared_len(body@) == Ok::<nat, Seq<char>>(len as nat),
            Err(error) => declared_len(body@) == Err::<nat, Seq<char>>(error@),
        },
{
    snap::raw::decompress_len(body).map_err(|error| error.to_string())
}

/// `snap::raw::Decoder::decompress_vec`: the bytes of a body. They are as many
/// as the header declares; which they are, and the wording of the error, is left
/// to the name.
#[verifier::external_body]
pub(crate) fn snappy_decompress(body: &[u8]) -> (out: Result<Vec<u8>, String>)
    ensures
        match out {
            Ok(bytes) => decompressed(body@) == Ok::<Seq<u8>, Seq<char>>(bytes@) && declared_len(
                body@,
            ) == Ok::<nat, Seq<char>>(bytes@.len()),
            Err(error) => decompressed(body@) == Err::<Seq<u8>, Seq<char>>(error@),
        },
{
    snap::raw::Decoder::new().decompress_vec(body).map_err(|error| error.to_string())
}

/// Whether bytes are few enough to be compressed.
pub open spec fn fits_snappy(len: nat) -> bool {
    32 + len + len / 6 <= 0xffff_ffff
}

/// `snap::raw::Encoder::compress_vec` on a new encoder: a body for bytes. It
/// succeeds exactly where the largest size that the body could have is below
/// `2^32`, and decompressing the body gives the bytes back. Which body it is,
/// and the wording of the error, is left to the name.
#[verifier::external_body]
pub(crate) fn snappy_compress(bytes: &[u8]) -> (out: Result<Vec<u8>, String>)
    ensures
        match out {
            Ok(body) => {
                &&& fits_snappy(bytes@.len())
                &&& compressed(bytes@) == Ok::<Seq<u8>, Seq<char>>(body@)
                &&& declared_len(body@) == Ok::<nat, Seq<char>>(bytes@.len())
                &&& decompressed(body@) == Ok::<Seq<u8>, Seq<char>>(bytes@)
            },
            Err(error) => !fits_snappy(bytes@.len()) && compressed(bytes@) == Err::<
                Seq<u8>,
                Seq<char>,
            >(error@),
        },
{
    snap::raw::Encoder::new().compress_vec(bytes).map_err(|error| error.to_string())
}

} // verus!
