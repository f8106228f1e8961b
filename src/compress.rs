//! The compressor: a pull-driven state machine that opens the stream with the
//! stream frame, then turns each plain chunk into one or more data frames of
//! at most `MAX_BLOCK_SIZE` plain bytes each.
//!
//! The caller runs the loop: it asks `poll_output` for the next frame, and
//! whenever the answer is `None` it hands the next upstream chunk to
//! `push_input` (or, at the end of upstream, the output ends too).

use vstd::prelude::*;

use crate::block::{compress_into, max_compress_len, max_compress_spec, new_encoder, snappy_encode};
use crate::frame::{
    crc32c_masked, frame_bytes, lemma_u32_round_trip, magic_frame, masked_crc, push_u24,
    push_u32, read_u32, u32_le, FrameType, MAX_BLOCK_SIZE,
};

verus! {

/// Why a frame could not be produced.
#[derive(Clone, Copy, Debug, PartialEq, Eq, Structural)]
pub enum CompressError {
    /// The Snappy block encoder rejected the input.
    Encode,
}

/// The frame emitted for one block of at most `MAX_BLOCK_SIZE` plain bytes:
/// an uncompressed frame where Snappy saves less than an eighth, else a
/// compressed one; either way with the masked CRC-32C of the plain bytes.
pub open spec fn block_frame(block: Seq<u8>) -> Seq<u8> {
    let enc = snappy_encode(block);
    let crc = u32_le(masked_crc(block));
    if enc.len() >= block.len() - block.len() / 8 {
        frame_bytes(0x01, crc + block)
    } else {
        frame_bytes(0x00, crc + enc)
    }
}

/// The block taken from the front of a chunk for the next frame.
pub open spec fn first_block(b: Seq<u8>) -> Seq<u8> {
    if b.len() > MAX_BLOCK_SIZE {
        b.take(MAX_BLOCK_SIZE as int)
    } else {
        b
    }
}

/// What is left of a chunk once its first block is framed.
pub open spec fn block_rest(b: Seq<u8>) -> Option<Seq<u8>> {
    if b.len() > MAX_BLOCK_SIZE {
        Some(b.skip(MAX_BLOCK_SIZE as int))
    } else {
        None
    }
}

/// The state of a compressor: whether the stream frame went out, and the
/// part of a chunk not yet framed.
pub struct CompressorModel {
    pub sent_magic: bool,
    pub carryover: Option<Seq<u8>>,
}

/// One pull of the compressor: the stream frame first; then a frame for the
/// next block of the carried chunk; `None` when a chunk is needed.
pub open spec fn compress_poll_spec(m: CompressorModel) -> (Option<Seq<u8>>, CompressorModel) {
    if !m.sent_magic {
        (Some(magic_frame()), CompressorModel { sent_magic: true, ..m })
    } else {
        match m.carryover {
            None => (None, m),
            Some(b) => (
                Some(block_frame(first_block(b))),
                CompressorModel { carryover: block_rest(b), ..m },
            ),
        }
    }
}

/// Whatever chunk it holds, a compressor that has not yet emitted anything
/// emits first the ten bytes `ff 06 00 00 73 4e 61 50 70 59`.
pub proof fn lemma_magic_first(m: CompressorModel)
    requires
        !m.sent_magic,
    ensures
        compress_poll_spec(m).0 == Some(
            seq![0xffu8, 0x06u8, 0x00u8, 0x00u8, 0x73u8, 0x4eu8, 0x61u8, 0x50u8, 0x70u8, 0x59u8],
        ),
        compress_poll_spec(m).1 == (CompressorModel { sent_magic: true, ..m }),
{
    assert(magic_frame() =~= seq![
        0xffu8,
        0x06u8,
        0x00u8,
        0x00u8,
        0x73u8,
        0x4eu8,
        0x61u8,
        0x50u8,
        0x70u8,
        0x59u8,
    ]);
}

/// Every data frame the compressor emits frames at most `MAX_BLOCK_SIZE`
/// plain bytes, taken from the front of the current chunk; what is left of
/// the chunk is kept for the next pull, so no byte is lost or reordered.
pub proof fn lemma_block_size_cap(m: CompressorModel)
    requires
        m.sent_magic,
        m.carryover is Some,
    ensures
        ({
            let b = m.carryover->Some_0;
            let p = first_block(b);
            &&& p.len() <= MAX_BLOCK_SIZE
            &&& compress_poll_spec(m).0 == Some(block_frame(p))
            &&& match compress_poll_spec(m).1.carryover {
                Some(rest) => p.len() == MAX_BLOCK_SIZE && b == p + rest,
                None => p == b,
            }
        }),
{
    let b = m.carryover->Some_0;
    if b.len() > MAX_BLOCK_SIZE {
        assert(b =~= b.take(MAX_BLOCK_SIZE as int) + b.skip(MAX_BLOCK_SIZE as int));
    }
}

/// A block whose Snappy encoding is at least seven eighths of its length goes
/// out as an uncompressed frame: checksum, then the plain bytes.
pub proof fn lemma_unprofitable_is_uncompressed(p: Seq<u8>)
    requires
        8 * snappy_encode(p).len() >= 7 * p.len(),
    ensures
        block_frame(p)[0] == 0x01,
        block_frame(p) == frame_bytes(0x01, u32_le(masked_crc(p)) + p),
{
    let n = p.len();
    let e = snappy_encode(p).len();
    assert(e >= n - n / 8) by (nonlinear_arith)
        requires
            8 * e >= 7 * n,
    ;
}

/// The checksum field of every data frame the compressor emits, bytes four
/// to eight, holds the masked CRC-32C of the block's plain bytes.
pub proof fn lemma_frame_crc(p: Seq<u8>)
    ensures
        block_frame(p).len() >= 8,
        read_u32(block_frame(p).subrange(4, 8)) == masked_crc(p),
{
    lemma_u32_round_trip(masked_crc(p));
    let f = block_frame(p);
    assert(f.subrange(4, 8) =~= u32_le(masked_crc(p)));
}

/// Size of the scratch buffer that receives Snappy's output for one block.
pub open spec fn scratch_len() -> nat {
    max_compress_spec(MAX_BLOCK_SIZE as nat)
}

/// Compresses plain chunks into a framed Snappy stream.
pub struct SnappyCompress {
    encoder: snap::raw::Encoder,
    current_buffer: Option<Vec<u8>>,
    output_buffer: Vec<u8>,
    sent_magic: bool,
}

impl SnappyCompress {
    pub closed spec fn model(&self) -> CompressorModel {
        CompressorModel {
            sent_magic: self.sent_magic,
            carryover: match self.current_buffer {
                Some(b) => Some(b@),
                None => None,
            },
        }
    }

    pub closed spec fn wf(&self) -> bool {
        self.output_buffer@.len() == scratch_len()
    }

    pub fn new() -> (r: SnappyCompress)
        ensures
            r.wf(),
            r.model() == (CompressorModel { sent_magic: false, carryover: None }),
    {
        let size = max_compress_len(MAX_BLOCK_SIZE);
        SnappyCompress {
            encoder: new_encoder(),
            current_buffer: None,
            output_buffer: vec![0u8; size],
            sent_magic: false,
        }
    }

    /// Whether the next pull needs a chunk from upstream first.
    pub fn needs_input(&self) -> (r: bool)
        ensures
            r == (self.model().sent_magic && self.model().carryover is None),
    {
        self.sent_magic && self.current_buffer.is_none()
    }

    /// Hands the compressor the next upstream chunk.
    pub fn push_input(&mut self, data: Vec<u8>)
        requires
            old(self).model().carryover is None,
        ensures
            final(self).wf() == old(self).wf(),
            final(self).model() == (CompressorModel {
                carryover: Some(data@),
                ..old(self).model()
            }),
    {
        self.current_buffer = Some(data);
    }

    /// Encodes one block as a frame.
    fn encode_frame(&mut self, data: Vec<u8>) -> (r: Result<Vec<u8>, CompressError>)
        requires
            old(self).wf(),
            data@.len() <= MAX_BLOCK_SIZE,
        ensures
            final(self).wf(),
            final(self).model() == old(self).model(),
            r matches Ok(f) && f@ == block_frame(data@),
    {
        let crc = crc32c_masked(data.as_slice());
        assert(max_compress_spec(data@.len()) != 0 && max_compress_spec(data@.len())
            <= scratch_len()) by {
            let n = data@.len();
            assert(n / 6 <= 65536nat / 6) by (nonlinear_arith)
                requires
                    n <= 65536,
            ;
        }
        let length = match compress_into(&mut self.encoder, data.as_slice(), &mut self.output_buffer) {
            Ok(n) => n,
            Err(_) => {
                return Err(CompressError::Encode);
            },
        };
        let ghost enc = snappy_encode(data@);
        let mut data = data;
        if length >= data.len() - data.len() / 8 {
            let mut out: Vec<u8> = Vec::with_capacity(data.len() + 8);
            out.push(FrameType::Uncompressed.to_byte());
            push_u24(&mut out, data.len() + 4);
            push_u32(&mut out, crc);
            let ghost plain = data@;
            out.append(&mut data);
            assert(out@ =~= frame_bytes(0x01, u32_le(crc) + plain));
            Ok(out)
        } else {
            let mut out: Vec<u8> = Vec::with_capacity(length + 8);
            out.push(FrameType::Compressed.to_byte());
            push_u24(&mut out, length + 4);
            push_u32(&mut out, crc);
            let ghost head = out@;
            let mut i: usize = 0;
            while i < length
                invariant
                    i <= length,
                    length <= self.output_buffer@.len(),
                    self.output_buffer@.take(length as int) == enc,
                    out@ == head + enc.take(i as int),
                decreases length - i,
            {
                out.push(self.output_buffer[i]);
                i = i + 1;
                assert(out@ =~= head + enc.take(i as int));
            }
            assert(enc.take(length as int) =~= enc);
            assert(out@ =~= frame_bytes(0x00, u32_le(crc) + enc));
            Ok(out)
        }
    }

    /// Pulls the next frame: the stream frame on the first pull, then a
    /// frame for the next block of the current chunk, or `None` where a
    /// chunk must first be pushed.
    pub fn poll_output(&mut self) -> (r: Option<Result<Vec<u8>, CompressError>>)
        requires
            old(self).wf(),
        ensures
            final(self).wf(),
            final(self).model() == compress_poll_spec(old(self).model()).1,
            match compress_poll_spec(old(self).model()).0 {
                None => r is None,
                Some(f) => r matches Some(Ok(v)) && v@ == f,
            },
    {
        if !self.sent_magic {
            self.sent_magic = true;
            let v: Vec<u8> = vec![0xffu8, 0x06u8, 0x00u8, 0x00u8, 0x73u8, 0x4eu8, 0x61u8, 0x50u8, 0x70u8, 0x59u8];
            assert(v@ =~= magic_frame());
            return Some(Ok(v));
        }
        let mut buffer = match self.current_buffer.take() {
            None => {
                return None;
            },
            Some(b) => b,
        };
        if buffer.len() > MAX_BLOCK_SIZE {
            let tail = buffer.split_off(MAX_BLOCK_SIZE);
            self.current_buffer = Some(tail);
        }
        Some(self.encode_frame(buffer))
    }
}

} // verus!
