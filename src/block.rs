//! The Snappy block codec, which this library calls and does not implement.

use vstd::prelude::*;

verus! {

#[verifier::external_type_specification]
#[verifier::external_body]
pub struct ExEncoder(snap::raw::Encoder);

#[verifier::external_type_specification]
#[verifier::external_body]
pub struct ExDecoder(snap::raw::Decoder);

#[verifier::external_type_specification]
#[verifier::external_body]
pub struct ExError(snap::Error);

/// The Snappy block encoding of a plain byte sequence.
pub uninterp spec fn snappy_encode(plain: Seq<u8>) -> Seq<u8>;

/// The plain bytes that a Snappy block decodes to, or `None` where the
/// block decoder rejects it.
pub uninterp spec fn snappy_decode(block: Seq<u8>) -> Option<Seq<u8>>;

/// The worst-case encoded size of `n` plain bytes, or 0 where `n` is too big
/// to encode.
pub open spec fn max_compress_spec(n: nat) -> nat {
    if n > 0xffff_ffff || 32 + n + n / 6 > 0xffff_ffff {
        0
    } else {
        32 + n + n / 6
    }
}

/// Relies on `snap::raw::Encoder::new`.
#[verifier::external_body]
pub(crate) fn new_encoder() -> (r: snap::raw::Encoder) {
    snap::raw::Encoder::new()
}

/// Relies on `snap::raw::Decoder::new`.
#[verifier::external_body]
pub(crate) fn new_decoder() -> (r: snap::raw::Decoder) {
    snap::raw::Decoder::new()
}

/// Relies on `snap::raw::max_compress_len`: `32 + n + n / 6`, or 0 past
/// 2^32 - 1.
#[verifier::external_body]
pub(crate) fn max_compress_len(n: usize) -> (r: usize)
    ensures
        r as nat == max_compress_spec(n as nat),
{
    snap::raw::max_compress_len(n)
}

/// Relies on `snap::raw::Encoder::compress`: it fails only where the input
/// is too big or `output` is shorter than `max_compress_len(input.len())`;
/// otherwise it writes the encoding at the front of `output` and returns its
/// length.
#[verifier::external_body]
pub(crate) fn compress_into(
    enc: &mut snap::raw::Encoder,
    input: &[u8],
    output: &mut Vec<u8>,
) -> (r: Result<usize, snap::Error>)
    ensures
        final(output)@.len() == old(output)@.len(),
        r is Ok <==> (max_compress_spec(input@.len()) != 0 && old(output)@.len()
            >= max_compress_spec(input@.len())),
        r matches Ok(n) ==> n <= final(output)@.len() && final(output)@.take(n as int)
            == snappy_encode(input@),
{
    enc.compress(input, output.as_mut_slice())
}

/// Relies on `snap::raw::Decoder::decompress_vec`: the plain bytes of a
/// Snappy block, or an error where the block is malformed.
#[verifier::external_body]
pub(crate) fn decompress_vec(dec: &mut snap::raw::Decoder, input: &[u8]) -> (r: Result<
    Vec<u8>,
    snap::Error,
>)
    ensures
        match r {
            Ok(v) => snappy_decode(input@) == Some(v@),
            Err(_) => snappy_decode(input@) is None,
        },
{
    dec.decompress_vec(input)
}

} // verus!
