//! Whole streams: what the decompressor makes of a sequence of upstream
//! chunks, and what the compressor makes of one.

use vstd::prelude::*;

use crate::block::{snappy_decode, snappy_encode};
use crate::compress::{block_frame, compress_poll_spec, CompressorModel};
use crate::frame::{
    frame_bytes, lemma_u24_round_trip, lemma_u32_round_trip, magic_body, magic_frame, masked_crc,
    read_u24, u32_le, MAX_BLOCK_SIZE,
};
use crate::uncompress::{
    finish_spec, frame_result, initial_model, poll_spec, step_measure, DecoderModel, SpecStep,
    State,
};

verus! {

/// A pull that gives a payload leaves less to decode.
pub proof fn lemma_poll_progress(m: DecoderModel)
    ensures
        poll_spec(m).0 is Frame ==> step_measure(poll_spec(m).1) < step_measure(m),
        step_measure(poll_spec(m).1) <= step_measure(m),
    decreases step_measure(m),
{
    if m.failure is None {
        match m.state {
            State::Header => {
                if m.pending.len() >= 4 {
                    let next = DecoderModel {
                        state: State::Body {
                            frame_type: m.pending[0],
                            length: crate::frame::read_u24(m.pending.subrange(1, 4)) as usize,
                        },
                        pending: m.pending.skip(4),
                        ..m
                    };
                    lemma_poll_progress(next);
                }
            },
            State::Body { frame_type, length } => {
                if m.pending.len() >= length {
                    let rest = m.pending.skip(length as int);
                    let next = DecoderModel {
                        state: State::Header,
                        pending: rest,
                        seen_magic: m.seen_magic || frame_type == 0xff,
                        ..m
                    };
                    lemma_poll_progress(next);
                }
            },
        }
    }
}

/// Pulls from the decompressor until a pull gives no payload: the payloads'
/// bytes, the last pull's answer, and the state it leaves.
pub open spec fn decode_all(m: DecoderModel) -> (Seq<u8>, SpecStep, DecoderModel)
    decreases step_measure(m),
    via decode_all_decreases
{
    let (s, m2) = poll_spec(m);
    match s {
        SpecStep::Frame(p) => {
            let (o, last, m3) = decode_all(m2);
            (p + o, last, m3)
        },
        _ => (seq![], s, m2),
    }
}

#[via_fn]
proof fn decode_all_decreases(m: DecoderModel) {
    lemma_poll_progress(m);
}

/// The state after a chunk is fed.
pub open spec fn fed(m: DecoderModel, chunk: Seq<u8>) -> DecoderModel {
    DecoderModel { pending: m.pending + chunk, ..m }
}

/// Drives a decompressor over upstream chunks as a caller does: pull until
/// more input is needed, feed the next chunk, and so on; it stops early at a
/// failure. The result holds the payload bytes, the last answer, and the
/// state at which upstream ran out (or the failure came).
pub open spec fn run(m: DecoderModel, chunks: Seq<Seq<u8>>) -> (Seq<u8>, SpecStep, DecoderModel)
    decreases chunks.len(),
{
    let (o, s, m2) = decode_all(m);
    if chunks.len() == 0 || !(s is NeedInput) {
        (o, s, m2)
    } else {
        let (o2, s2, m3) = run(fed(m2, chunks[0]), chunks.drop_first());
        (o + o2, s2, m3)
    }
}

/// Bytes fed after a pull do not change what the pull gave: a payload or
/// failure stays the same, and a pull that needed input continues from
/// where it stopped.
pub proof fn lemma_poll_fed(m: DecoderModel, q: Seq<u8>)
    ensures
        ({
            let (s, m2) = poll_spec(m);
            if s is NeedInput {
                poll_spec(fed(m, q)) == poll_spec(fed(m2, q))
            } else {
                poll_spec(fed(m, q)) == (s, fed(m2, q))
            }
        }),
    decreases step_measure(m),
{
    if m.failure is None {
        match m.state {
            State::Header => {
                if m.pending.len() >= 4 {
                    let p = m.pending + q;
                    let next = DecoderModel {
                        state: State::Body {
                            frame_type: m.pending[0],
                            length: crate::frame::read_u24(m.pending.subrange(1, 4)) as usize,
                        },
                        pending: m.pending.skip(4),
                        ..m
                    };
                    assert(p.subrange(1, 4) =~= m.pending.subrange(1, 4));
                    assert(p.skip(4) =~= m.pending.skip(4) + q);
                    assert(p[0] == m.pending[0]);
                    lemma_poll_fed(next, q);
                }
            },
            State::Body { frame_type, length } => {
                if m.pending.len() >= length {
                    let p = m.pending + q;
                    let rest = m.pending.skip(length as int);
                    assert(p.take(length as int) =~= m.pending.take(length as int));
                    assert(p.skip(length as int) =~= rest + q);
                    let next = DecoderModel {
                        state: State::Header,
                        pending: rest,
                        seen_magic: m.seen_magic || frame_type == 0xff,
                        ..m
                    };
                    lemma_poll_fed(next, q);
                }
            },
        }
    }
}

/// `decode_all` after more bytes are fed: where it had stopped for input it
/// goes on from there; where it had failed it fails the same way.
pub proof fn lemma_decode_all_fed(m: DecoderModel, q: Seq<u8>)
    ensures
        ({
            let (o, s, m2) = decode_all(m);
            let (o3, s3, m3) = decode_all(fed(m2, q));
            !(s is Frame) && if s is NeedInput {
                decode_all(fed(m, q)) == (o + o3, s3, m3)
            } else {
                decode_all(fed(m, q)) == (o, s, fed(m2, q))
            }
        }),
    decreases step_measure(m),
{
    let (s1, m1) = poll_spec(m);
    lemma_poll_fed(m, q);
    lemma_poll_progress(m);
    match s1 {
        SpecStep::Frame(p) => {
            lemma_decode_all_fed(m1, q);
            let (o, s, m2) = decode_all(m1);
            let (o3, s3, m3) = decode_all(fed(m2, q));
            if s is NeedInput {
                assert(p + (o + o3) =~= (p + o) + o3);
            }
        },
        SpecStep::NeedInput => {
            assert(decode_all(fed(m, q)) == decode_all(fed(m1, q)));
            let (o3, s3, m3) = decode_all(fed(m1, q));
            assert(seq![] + o3 =~= o3);
        },
        SpecStep::Failed(e) => {},
    }
}

/// Running over chunks gives what one pull-until-input over the whole of
/// their bytes gives; where input was needed at the end, the state is the
/// same too.
pub proof fn lemma_run_flat(m: DecoderModel, chunks: Seq<Seq<u8>>)
    ensures
        ({
            let (o, s, m2) = run(m, chunks);
            let (o1, s1, m1) = decode_all(fed(m, chunks.flatten()));
            &&& o == o1
            &&& s == s1
            &&& s is NeedInput ==> m2 == m1
        }),
    decreases chunks.len(),
{
    if chunks.len() == 0 {
        assert(fed(m, chunks.flatten()) == m) by {
            assert(m.pending + chunks.flatten() =~= m.pending);
        }
        lemma_decode_all_fed(m, seq![]);
    } else {
        let c = chunks[0];
        let rest = chunks.drop_first();
        let (o, s, m2) = decode_all(m);
        assert(chunks.flatten() == c + rest.flatten());
        lemma_decode_all_fed(m, chunks.flatten());
        if s is NeedInput {
            lemma_run_flat(fed(m2, c), rest);
            assert(fed(fed(m2, c), rest.flatten()) == fed(m2, chunks.flatten())) by {
                assert(m2.pending + c + rest.flatten() =~= m2.pending + (c + rest.flatten()));
            }
            let (o2, s2, m4) = run(fed(m2, c), rest);
            let (o3, s3, m3) = decode_all(fed(m2, chunks.flatten()));
            assert(o + o2 == o + o3);
        }
    }
}

/// What the decompressor hands out depends only on the bytes upstream
/// delivers, not on how they are split into chunks: two chunkings of the
/// same bytes give the same payload bytes and the same last answer, and
/// where both ran out of input, the same state (so the same end of stream).
pub proof fn lemma_chunk_invariance(m: DecoderModel, a: Seq<Seq<u8>>, b: Seq<Seq<u8>>)
    requires
        a.flatten() == b.flatten(),
    ensures
        run(m, a).0 == run(m, b).0,
        run(m, a).1 == run(m, b).1,
        run(m, a).1 is NeedInput ==> run(m, a).2 == run(m, b).2,
{
    lemma_run_flat(m, a);
    lemma_run_flat(m, b);
}

/// The frames the compressor emits for one chunk: one per block of at most
/// `MAX_BLOCK_SIZE` bytes, front to back.
pub open spec fn chunk_frames(b: Seq<u8>) -> Seq<u8>
    decreases b.len(),
{
    if b.len() > MAX_BLOCK_SIZE {
        block_frame(b.take(MAX_BLOCK_SIZE as int)) + chunk_frames(b.skip(MAX_BLOCK_SIZE as int))
    } else {
        block_frame(b)
    }
}

/// The frames the compressor emits for a sequence of chunks.
pub open spec fn stream_frames(chunks: Seq<Seq<u8>>) -> Seq<u8>
    decreases chunks.len(),
{
    if chunks.len() == 0 {
        seq![]
    } else {
        chunk_frames(chunks[0]) + stream_frames(chunks.drop_first())
    }
}

/// The whole output of the compressor for a sequence of chunks.
pub open spec fn compressed_stream(chunks: Seq<Seq<u8>>) -> Seq<u8> {
    magic_frame() + stream_frames(chunks)
}

/// Pulls from the compressor until it needs a chunk: the bytes emitted, and
/// the state then.
pub open spec fn compress_drain(m: CompressorModel) -> (Seq<u8>, CompressorModel)
    decreases
            (if m.sent_magic {
                0nat
            } else {
                1nat
            }) + match m.carryover {
                Some(b) => b.len() + 1,
                None => 0,
            },
{
    let (f, m2) = compress_poll_spec(m);
    match f {
        None => (seq![], m2),
        Some(bytes) => {
            let (o, m3) = compress_drain(m2);
            (bytes + o, m3)
        },
    }
}

/// Drives a compressor over upstream chunks as a caller does: pull until a
/// chunk is needed, push the next chunk, and so on; the bytes it emits.
pub open spec fn compress_run(m: CompressorModel, chunks: Seq<Seq<u8>>) -> Seq<u8>
    decreases chunks.len(),
{
    let (o, m2) = compress_drain(m);
    if chunks.len() == 0 {
        o
    } else {
        o + compress_run(
            CompressorModel { carryover: Some(chunks[0]), ..m2 },
            chunks.drop_first(),
        )
    }
}

proof fn lemma_compress_drain_chunk(b: Seq<u8>)
    ensures
        compress_drain(CompressorModel { sent_magic: true, carryover: Some(b) }) == (
            chunk_frames(b),
            CompressorModel { sent_magic: true, carryover: None },
        ),
    decreases b.len(),
{
    let m = CompressorModel { sent_magic: true, carryover: Some(b) };
    let done = CompressorModel { sent_magic: true, carryover: None };
    assert(compress_drain(done) == (Seq::<u8>::empty(), done));
    if b.len() > MAX_BLOCK_SIZE {
        let tail = b.skip(MAX_BLOCK_SIZE as int);
        lemma_compress_drain_chunk(tail);
    } else {
        assert(block_frame(b) + Seq::<u8>::empty() =~= block_frame(b));
    }
}

proof fn lemma_compress_run_chunks(chunks: Seq<Seq<u8>>)
    ensures
        compress_run(CompressorModel { sent_magic: true, carryover: None }, chunks)
            == stream_frames(chunks),
    decreases chunks.len(),
{
    let done = CompressorModel { sent_magic: true, carryover: None };
    assert(compress_drain(done) == (Seq::<u8>::empty(), done));
    if chunks.len() > 0 {
        lemma_compress_drain_chunk(chunks[0]);
        lemma_compress_run_chunks(chunks.drop_first());
        let next = CompressorModel { carryover: Some(chunks[0]), ..done };
        assert(compress_run(next, chunks.drop_first()) == chunk_frames(chunks[0])
            + stream_frames(chunks.drop_first()));
        assert(Seq::<u8>::empty() + stream_frames(chunks) =~= stream_frames(chunks));
    } else {
        assert(stream_frames(chunks) == Seq::<u8>::empty());
    }
}

/// A fresh compressor, driven over any chunks, emits `compressed_stream`.
pub proof fn lemma_compress_run(chunks: Seq<Seq<u8>>)
    ensures
        compress_run(CompressorModel { sent_magic: false, carryover: None }, chunks)
            == compressed_stream(chunks),
{
    let fresh = CompressorModel { sent_magic: false, carryover: None };
    let done = CompressorModel { sent_magic: true, carryover: None };
    assert(compress_drain(done) == (Seq::<u8>::empty(), done));
    assert(compress_drain(fresh) == (magic_frame() + Seq::<u8>::empty(), done));
    assert(magic_frame() + Seq::<u8>::empty() =~= magic_frame());
    lemma_compress_run_chunks(chunks);
    if chunks.len() == 0 {
        assert(compress_run(done, chunks) == Seq::<u8>::empty());
        assert(magic_frame() =~= magic_frame() + Seq::<u8>::empty());
    } else {
        let next = CompressorModel { carryover: Some(chunks[0]), ..done };
        lemma_compress_drain_chunk(chunks[0]);
        assert(compress_run(done, chunks) == Seq::<u8>::empty() + compress_run(
            next,
            chunks.drop_first(),
        ));
        assert(Seq::<u8>::empty() + compress_run(next, chunks.drop_first()) =~= compress_run(
            next,
            chunks.drop_first(),
        ));
    }
}

/// The Snappy block codec gives back every block it encoded.
pub open spec fn block_codec_inverts() -> bool {
    forall|p: Seq<u8>|
        p.len() <= MAX_BLOCK_SIZE ==> #[trigger] snappy_decode(snappy_encode(p)) == Some(p)
}

/// A decompressor between frames, past the stream frame, decodes the frame
/// of a block back to the block.
proof fn lemma_decode_block(m: DecoderModel, p: Seq<u8>, rest: Seq<u8>)
    requires
        block_codec_inverts(),
        m.failure is None,
        m.state == State::Header,
        m.seen_magic,
        m.pending == block_frame(p) + rest,
        p.len() <= MAX_BLOCK_SIZE,
    ensures
        poll_spec(m) == (SpecStep::Frame(p), DecoderModel { pending: rest, ..m }),
{
    let enc = snappy_encode(p);
    let crc = u32_le(masked_crc(p));
    let ty: u8 = if enc.len() >= p.len() - p.len() / 8 {
        0x01
    } else {
        0x00
    };
    let payload = if ty == 0x01 {
        p
    } else {
        enc
    };
    let body = crc + payload;
    assert(block_frame(p) == frame_bytes(ty, body));
    lemma_u32_round_trip(masked_crc(p));
    lemma_u24_round_trip(body.len());
    let pend = m.pending;
    assert(pend[0] == ty);
    assert(pend.subrange(1, 4) =~= crate::frame::u24_le(body.len()));
    let next = DecoderModel {
        state: State::Body { frame_type: ty, length: body.len() as usize },
        pending: pend.skip(4),
        ..m
    };
    assert(read_u24(pend.subrange(1, 4)) == body.len());
    assert(poll_spec(m) == poll_spec(next));
    assert(pend.skip(4) =~= body + rest);
    assert(pend.skip(4).take(body.len() as int) =~= body);
    assert(pend.skip(4).skip(body.len() as int) =~= rest);
    assert(body.take(4) =~= crc);
    assert(body.skip(4) =~= payload);
    if ty == 0x00 {
        assert(snappy_decode(snappy_encode(p)) == Some(p));
    }
    assert(frame_result(ty, body, true) == Ok::<Option<Seq<u8>>, crate::uncompress::DecodeError>(
        Some(p),
    ));
}

/// A decompressor between frames, past the stream frame, decodes the frames
/// of a chunk back to the chunk.
proof fn lemma_decode_chunk(m: DecoderModel, b: Seq<u8>, rest: Seq<u8>)
    requires
        block_codec_inverts(),
        m.failure is None,
        m.state == State::Header,
        m.seen_magic,
        m.pending == chunk_frames(b) + rest,
    ensures
        ({
            let (o, s, m2) = decode_all(DecoderModel { pending: rest, ..m });
            decode_all(m) == (b + o, s, m2)
        }),
    decreases b.len(),
{
    let mr = DecoderModel { pending: rest, ..m };
    if b.len() > MAX_BLOCK_SIZE {
        let head = b.take(MAX_BLOCK_SIZE as int);
        let tail = b.skip(MAX_BLOCK_SIZE as int);
        let m1 = DecoderModel { pending: chunk_frames(tail) + rest, ..m };
        assert(m.pending =~= block_frame(head) + (chunk_frames(tail) + rest));
        lemma_decode_block(m, head, chunk_frames(tail) + rest);
        lemma_decode_chunk(m1, tail, rest);
        let (o, s, m2) = decode_all(mr);
        assert(head + (tail + o) =~= b + o);
    } else {
        lemma_decode_block(m, b, rest);
    }
}

/// The same for the frames of a sequence of chunks.
proof fn lemma_decode_chunks(m: DecoderModel, chunks: Seq<Seq<u8>>, rest: Seq<u8>)
    requires
        block_codec_inverts(),
        m.failure is None,
        m.state == State::Header,
        m.seen_magic,
        m.pending == stream_frames(chunks) + rest,
    ensures
        ({
            let (o, s, m2) = decode_all(DecoderModel { pending: rest, ..m });
            decode_all(m) == (chunks.flatten() + o, s, m2)
        }),
    decreases chunks.len(),
{
    let mr = DecoderModel { pending: rest, ..m };
    if chunks.len() == 0 {
        assert(m.pending =~= rest);
        assert(m == mr);
        let (o, s, m2) = decode_all(mr);
        assert(chunks.flatten() + o =~= o);
    } else {
        let c = chunks[0];
        let more = chunks.drop_first();
        let m1 = DecoderModel { pending: stream_frames(more) + rest, ..m };
        assert(m.pending =~= chunk_frames(c) + (stream_frames(more) + rest));
        lemma_decode_chunk(m, c, stream_frames(more) + rest);
        lemma_decode_chunks(m1, more, rest);
        let (o, s, m2) = decode_all(mr);
        assert(c + (more.flatten() + o) =~= chunks.flatten() + o);
    }
}

/// Decompressing what a fresh compressor made of any chunks gives back their
/// bytes, however the compressed stream is split on its way, and the stream
/// then ends cleanly. This rests on the Snappy block codec decoding each
/// block it encoded.
pub proof fn lemma_round_trip(chunks: Seq<Seq<u8>>, delivery: Seq<Seq<u8>>)
    requires
        block_codec_inverts(),
        delivery.flatten() == compress_run(
            CompressorModel { sent_magic: false, carryover: None },
            chunks,
        ),
    ensures
        run(initial_model(), delivery).0 == chunks.flatten(),
        run(initial_model(), delivery).1 is NeedInput,
        finish_spec(run(initial_model(), delivery).2) == Ok::<(), crate::uncompress::DecodeError>(
            (),
        ),
{
    lemma_compress_run(chunks);
    let whole = compressed_stream(chunks);
    let one = seq![whole];
    assert(one.flatten() == whole) by {
        assert(one.drop_first().len() == 0);
        assert(one.drop_first().flatten() =~= Seq::<u8>::empty());
        assert(one.first() == whole);
        assert(one.flatten() == one.first() + one.drop_first().flatten());
        assert(whole + Seq::<u8>::empty() =~= whole);
    }
    lemma_chunk_invariance(initial_model(), delivery, one);
    let m0 = initial_model();
    assert(decode_all(m0) == (Seq::<u8>::empty(), SpecStep::NeedInput, m0));
    let start = fed(m0, whole);
    assert(start.pending =~= whole);
    // the stream frame is checked and skipped
    lemma_u24_round_trip(6);
    let frames = stream_frames(chunks);
    assert(start.pending[0] == 0xff);
    assert(start.pending.subrange(1, 4) =~= crate::frame::u24_le(6));
    let in_body = DecoderModel {
        state: State::Body { frame_type: 0xff, length: 6 },
        pending: start.pending.skip(4),
        ..start
    };
    assert(poll_spec(start) == poll_spec(in_body));
    assert(start.pending.skip(4).take(6) =~= magic_body());
    assert(start.pending.skip(4).skip(6) =~= frames);
    let m1 = DecoderModel { state: State::Header, pending: frames, seen_magic: true, ..start };
    assert(poll_spec(in_body) == poll_spec(m1));
    assert(decode_all(start) == decode_all(m1));
    assert(frames =~= frames + Seq::<u8>::empty());
    lemma_decode_chunks(m1, chunks, Seq::<u8>::empty());
    let m_end = DecoderModel { pending: Seq::<u8>::empty(), ..m1 };
    assert(decode_all(m_end) == (Seq::<u8>::empty(), SpecStep::NeedInput, m_end));
    assert(chunks.flatten() + Seq::<u8>::empty() =~= chunks.flatten());
    assert(decode_all(m1) == (chunks.flatten(), SpecStep::NeedInput, m_end));
    assert(one.drop_first() =~= Seq::<Seq<u8>>::empty());
    assert(run(start, one.drop_first()) == decode_all(start));
    assert(Seq::<u8>::empty() + chunks.flatten() =~= chunks.flatten());
    assert(run(m0, one) == (chunks.flatten(), SpecStep::NeedInput, m_end));
}

} // verus!
