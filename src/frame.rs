//! The wire layout shared by both halves of the codec: frame types, the
//! masked CRC-32C, and the little-endian integer encodings of a frame header.

use vstd::prelude::*;

verus! {

/// Largest plain payload carried by one data frame.
pub const MAX_BLOCK_SIZE: usize = 65536;

/// The four frame types that carry a meaning of their own.
#[derive(Clone, Copy, Debug, PartialEq, Eq, Structural)]
pub enum FrameType {
    Stream,
    Compressed,
    Uncompressed,
    Padding,
}

impl FrameType {
    /// The type byte that stands for this frame type on the wire.
    pub open spec fn spec_byte(self) -> u8 {
        match self {
            FrameType::Stream => 0xff,
            FrameType::Compressed => 0x00,
            FrameType::Uncompressed => 0x01,
            FrameType::Padding => 0xfe,
        }
    }

    /// Reads a type byte; a byte of no known type is handed back as the error.
    pub fn try_from(b: u8) -> (r: Result<FrameType, u8>)
        ensures
            match r {
                Ok(t) => t.spec_byte() == b,
                Err(e) => e == b && b != 0x00 && b != 0x01 && b != 0xfe && b != 0xff,
            },
    {
        match b {
            0x00 => Ok(FrameType::Compressed),
            0x01 => Ok(FrameType::Uncompressed),
            0xfe => Ok(FrameType::Padding),
            0xff => Ok(FrameType::Stream),
            _ => Err(b),
        }
    }

    pub fn to_byte(self) -> (r: u8)
        ensures
            r == self.spec_byte(),
    {
        match self {
            FrameType::Stream => 0xff,
            FrameType::Compressed => 0x00,
            FrameType::Uncompressed => 0x01,
            FrameType::Padding => 0xfe,
        }
    }
}

/// The CRC-32C (Castagnoli) checksum of a byte sequence.
pub uninterp spec fn crc32c(s: Seq<u8>) -> u32;

/// Relies on crc's `Crc::<u32>::checksum` under the `CRC_32_ISCSI`
/// parameters, which is CRC-32C: a function of the bytes alone.
#[verifier::external_body]
fn crc32c_checksum(buf: &[u8]) -> (r: u32)
    ensures
        r == crc32c(buf@),
{
    crc::Crc::<u32>::new(&crc::CRC_32_ISCSI).checksum(buf)
}

/// Rotates a 32-bit value right by 15 bits.
pub open spec fn rotate_right_15(c: u32) -> u32 {
    ((c >> 15u32) | (c << 17u32)) as u32
}

/// The masking applied to a raw CRC: rotate right by 15, then add
/// `0xa282ead8` modulo 2^32.
pub open spec fn mask_crc(c: u32) -> u32 {
    ((rotate_right_15(c) as int + 0xa282ead8int) % 0x1_0000_0000int) as u32
}

/// The masked CRC-32C of a plain payload, as stored in a data frame.
pub open spec fn masked_crc(s: Seq<u8>) -> u32 {
    mask_crc(crc32c(s))
}

/// Computes the masked CRC-32C of `buf`.
pub fn crc32c_masked(buf: &[u8]) -> (r: u32)
    ensures
        r == masked_crc(buf@),
{
    let sum = crc32c_checksum(buf);
    let rot: u32 = (sum >> 15u32) | (sum << 17u32);
    rot.wrapping_add(0xa282ead8u32)
}

/// Three bytes holding `n` little-endian.
pub open spec fn u24_le(n: nat) -> Seq<u8> {
    seq![(n % 256) as u8, ((n / 256) % 256) as u8, ((n / 65536) % 256) as u8]
}

/// Four bytes holding `n` little-endian.
pub open spec fn u32_le(n: u32) -> Seq<u8> {
    seq![
        (n as nat % 256) as u8,
        ((n as nat / 256) % 256) as u8,
        ((n as nat / 65536) % 256) as u8,
        ((n as nat / 16777216) % 256) as u8,
    ]
}

/// The value of three little-endian bytes.
pub open spec fn read_u24(b: Seq<u8>) -> nat {
    b[0] as nat + b[1] as nat * 256 + b[2] as nat * 65536
}

/// The value of four little-endian bytes.
pub open spec fn read_u32(b: Seq<u8>) -> u32 {
    (b[0] as nat + b[1] as nat * 256 + b[2] as nat * 65536 + b[3] as nat * 16777216) as u32
}

/// A whole frame: type byte, three-byte body length, then the body.
pub open spec fn frame_bytes(ty: u8, body: Seq<u8>) -> Seq<u8> {
    seq![ty] + u24_le(body.len()) + body
}

/// The body of the stream frame: `sNaPpY`.
pub open spec fn magic_body() -> Seq<u8> {
    seq![0x73u8, 0x4eu8, 0x61u8, 0x50u8, 0x70u8, 0x59u8]
}

/// The stream frame that opens every compressed stream.
pub open spec fn magic_frame() -> Seq<u8> {
    frame_bytes(0xff, magic_body())
}

pub proof fn lemma_u24_round_trip(n: nat)
    requires
        n < 0x100_0000,
    ensures
        read_u24(u24_le(n)) == n,
        u24_le(n).len() == 3,
{
    assert(read_u24(u24_le(n)) == n) by (nonlinear_arith)
        requires
            n < 0x100_0000,
    {
    }
}

pub proof fn lemma_u32_round_trip(n: u32)
    ensures
        read_u32(u32_le(n)) == n,
        u32_le(n).len() == 4,
{
    let m = n as nat;
    assert(m % 256 + ((m / 256) % 256) * 256 + ((m / 65536) % 256) * 65536 + ((m / 16777216)
        % 256) * 16777216 == m) by (nonlinear_arith)
        requires
            m < 0x1_0000_0000,
    {
    }
}

/// Reads a little-endian three-byte length.
pub fn decode_u24(b0: u8, b1: u8, b2: u8) -> (r: usize)
    ensures
        r as nat == read_u24(seq![b0, b1, b2]),
        r < 0x100_0000,
{
    b0 as usize + (b1 as usize) * 256 + (b2 as usize) * 65536
}

/// Reads a little-endian four-byte value.
pub fn decode_u32(b0: u8, b1: u8, b2: u8, b3: u8) -> (r: u32)
    ensures
        r == read_u32(seq![b0, b1, b2, b3]),
{
    b0 as u32 + (b1 as u32) * 256 + (b2 as u32) * 65536 + (b3 as u32) * 16777216
}

/// Appends `n` as three little-endian bytes.
pub fn push_u24(out: &mut Vec<u8>, n: usize)
    requires
        n < 0x100_0000,
    ensures
        final(out)@ == old(out)@ + u24_le(n as nat),
{
    out.push((n % 256) as u8);
    out.push(((n / 256) % 256) as u8);
    out.push(((n / 65536) % 256) as u8);
    assert(final(out)@ =~= old(out)@ + u24_le(n as nat));
}

/// Appends `n` as four little-endian bytes.
pub fn push_u32(out: &mut Vec<u8>, n: u32)
    ensures
        final(out)@ == old(out)@ + u32_le(n),
{
    out.push((n % 256) as u8);
    out.push(((n / 256) % 256) as u8);
    out.push(((n / 65536) % 256) as u8);
    out.push(((n / 16777216) % 256) as u8);
    assert(final(out)@ =~= old(out)@ + u32_le(n));
}

} // verus!
