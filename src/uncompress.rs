//! The decompressor: a pull-driven state machine that collects frame headers
//! and bodies from arbitrarily chunked input and hands back plain payloads.
//!
//! The caller runs the loop: it asks `poll_frame` for the next payload, and
//! whenever the answer is `NeedInput` it either `feed`s the next upstream
//! chunk or, at the end of upstream, calls `finish`.

use std::collections::VecDeque;
use vstd::prelude::*;

use crate::block::{decompress_vec, new_decoder, snappy_decode};
use crate::frame::{
    crc32c_masked, decode_u24, decode_u32, magic_body, masked_crc, read_u24, read_u32, FrameType,
};

verus! {

/// Why a framed stream could not be decoded.
#[derive(Clone, Copy, Debug, PartialEq, Eq, Structural)]
pub enum DecodeError {
    /// Upstream ended inside a frame header or body, or a data frame was
    /// too short to hold its checksum.
    Truncated,
    /// The first frame was not the stream frame.
    MissingMagic,
    /// A stream frame's body was not `sNaPpY`.
    MangledMagic,
    /// A frame type in the reserved range `0x02..=0x7f`.
    UnknownFrameType(u8),
    /// The checksum stored in a frame differs from that of its payload.
    CrcMismatch { expected: u32, actual: u32 },
    /// The Snappy block decoder rejected a compressed payload.
    Corrupt,
}

/// Where the decompressor stands between two frames.
#[derive(Clone, Copy, Debug, PartialEq, Eq, Structural)]
pub enum State {
    /// Collecting the four bytes of a frame header.
    Header,
    /// Collecting `length` bytes of the body of a frame of type `frame_type`.
    Body { frame_type: u8, length: usize },
}

/// What one pull of the decompressor gives.
#[derive(Debug)]
pub enum DecodeStep {
    /// The plain payload of the next data frame.
    Frame(Vec<u8>),
    /// No whole frame is buffered: feed the next chunk, or finish.
    NeedInput,
    /// Decoding failed; the decompressor stays failed.
    Failed(DecodeError),
}

/// `DecodeStep` with the payload as a sequence.
pub enum SpecStep {
    Frame(Seq<u8>),
    NeedInput,
    Failed(DecodeError),
}

/// The state of a decompressor, with its buffered chunks as one sequence.
pub struct DecoderModel {
    pub state: State,
    pub seen_magic: bool,
    pub pending: Seq<u8>,
    pub failure: Option<DecodeError>,
}

/// The model of a fresh decompressor.
pub open spec fn initial_model() -> DecoderModel {
    DecoderModel { state: State::Header, seen_magic: false, pending: seq![], failure: None }
}

/// The bytes of a sequence of buffers, front to back.
pub open spec fn concat(bufs: Seq<Vec<u8>>) -> Seq<u8>
    decreases bufs.len(),
{
    if bufs.len() == 0 {
        seq![]
    } else {
        bufs[0]@ + concat(bufs.drop_first())
    }
}

pub proof fn lemma_concat_push(bufs: Seq<Vec<u8>>, b: Vec<u8>)
    ensures
        concat(bufs.push(b)) =~= concat(bufs) + b@,
    decreases bufs.len(),
{
    if bufs.len() > 0 {
        assert(bufs.push(b).drop_first() =~= bufs.drop_first().push(b));
        lemma_concat_push(bufs.drop_first(), b);
        assert(concat(bufs.push(b)) == bufs[0]@ + concat(bufs.drop_first().push(b)));
    } else {
        assert(bufs.push(b).drop_first() =~= bufs);
        assert(concat(bufs.push(b)) == b@ + concat(bufs));
    }
}

/// The outcome of one frame: an error, nothing to hand on, or a payload.
pub open spec fn frame_result(ty: u8, body: Seq<u8>, seen_magic: bool) -> Result<
    Option<Seq<u8>>,
    DecodeError,
> {
    if !seen_magic && ty != 0xff {
        Err(DecodeError::MissingMagic)
    } else if ty == 0xff {
        if body == magic_body() {
            Ok(None)
        } else {
            Err(DecodeError::MangledMagic)
        }
    } else if ty == 0x01 || ty == 0x00 {
        if body.len() < 4 {
            Err(DecodeError::Truncated)
        } else {
            let expected = read_u32(body.take(4));
            let payload = body.skip(4);
            let plain = if ty == 0x01 {
                Some(payload)
            } else {
                snappy_decode(payload)
            };
            match plain {
                None => Err(DecodeError::Corrupt),
                Some(p) => if masked_crc(p) != expected {
                    Err(DecodeError::CrcMismatch { expected, actual: masked_crc(p) })
                } else {
                    Ok(Some(p))
                },
            }
        }
    } else if 0x02 <= ty && ty <= 0x7f {
        Err(DecodeError::UnknownFrameType(ty))
    } else {
        Ok(None)
    }
}

pub open spec fn result_view(r: Result<Option<Vec<u8>>, DecodeError>) -> Result<
    Option<Seq<u8>>,
    DecodeError,
> {
    match r {
        Ok(Some(v)) => Ok(Some(v@)),
        Ok(None) => Ok(None),
        Err(e) => Err(e),
    }
}

pub open spec fn step_view(s: DecodeStep) -> SpecStep {
    match s {
        DecodeStep::Frame(v) => SpecStep::Frame(v@),
        DecodeStep::NeedInput => SpecStep::NeedInput,
        DecodeStep::Failed(e) => SpecStep::Failed(e),
    }
}

/// A measure that every pass of the decoding loop lowers.
pub open spec fn step_measure(m: DecoderModel) -> nat {
    3 * m.pending.len() + if m.state is Body {
        1nat
    } else {
        0nat
    }
}

/// One pull of the decompressor: it decodes whole buffered frames until one
/// yields a payload, one fails, or the next frame is not wholly buffered.
pub open spec fn poll_spec(m: DecoderModel) -> (SpecStep, DecoderModel)
    decreases step_measure(m),
{
    match m.failure {
        Some(e) => (SpecStep::Failed(e), m),
        None => match m.state {
            State::Header => if m.pending.len() < 4 {
                (SpecStep::NeedInput, m)
            } else {
                poll_spec(
                    DecoderModel {
                        state: State::Body {
                            frame_type: m.pending[0],
                            length: read_u24(m.pending.subrange(1, 4)) as usize,
                        },
                        pending: m.pending.skip(4),
                        ..m
                    },
                )
            },
            State::Body { frame_type, length } => if m.pending.len() < length {
                (SpecStep::NeedInput, m)
            } else {
                let rest = m.pending.skip(length as int);
                match frame_result(frame_type, m.pending.take(length as int), m.seen_magic) {
                    Err(e) => (
                        SpecStep::Failed(e),
                        DecoderModel { state: State::Header, pending: rest, failure: Some(e), ..m },
                    ),
                    Ok(None) => poll_spec(
                        DecoderModel {
                            state: State::Header,
                            pending: rest,
                            seen_magic: m.seen_magic || frame_type == 0xff,
                            ..m
                        },
                    ),
                    Ok(Some(p)) => (
                        SpecStep::Frame(p),
                        DecoderModel { state: State::Header, pending: rest, ..m },
                    ),
                }
            },
        },
    }
}

/// What the end of upstream means: a clean end only between frames with
/// nothing buffered.
pub open spec fn finish_spec(m: DecoderModel) -> Result<(), DecodeError> {
    match m.failure {
        Some(e) => Err(e),
        None => if m.state == State::Header && m.pending.len() == 0 {
            Ok(())
        } else {
            Err(DecodeError::Truncated)
        },
    }
}

/// Whether a stream frame's body is `sNaPpY`.
fn is_magic(data: &Vec<u8>) -> (r: bool)
    ensures
        r == (data@ == magic_body()),
{
    let ok = data.len() == 6 && data[0] == 0x73 && data[1] == 0x4e && data[2] == 0x61 && data[3]
        == 0x50 && data[4] == 0x70 && data[5] == 0x59;
    if ok {
        assert(data@ =~= magic_body());
    }
    ok
}

/// Decodes a framed Snappy stream delivered in chunks of any size.
pub struct SnappyUncompress {
    decoder: snap::raw::Decoder,
    state: State,
    saved: VecDeque<Vec<u8>>,
    saved_length: usize,
    seen_magic: bool,
    failure: Option<DecodeError>,
}

impl SnappyUncompress {
    pub closed spec fn model(&self) -> DecoderModel {
        DecoderModel {
            state: self.state,
            seen_magic: self.seen_magic,
            pending: concat(self.saved@),
            failure: self.failure,
        }
    }

    pub closed spec fn wf(&self) -> bool {
        self.saved_length == concat(self.saved@).len()
    }

    pub fn new() -> (r: SnappyUncompress)
        ensures
            r.wf(),
            r.model() == initial_model(),
    {
        let r = SnappyUncompress {
            decoder: new_decoder(),
            state: State::Header,
            saved: VecDeque::new(),
            saved_length: 0,
            seen_magic: false,
            failure: None,
        };
        assert(r.model().pending =~= seq![]);
        r
    }

    /// How many bytes are buffered and not yet decoded.
    pub fn buffered_len(&self) -> (r: usize)
        requires
            self.wf(),
        ensures
            r == self.model().pending.len(),
    {
        self.saved_length
    }

    /// Buffers a chunk from upstream.
    pub fn feed(&mut self, data: Vec<u8>)
        requires
            old(self).wf(),
            old(self).model().pending.len() + data@.len() <= usize::MAX,
        ensures
            final(self).wf(),
            final(self).model() == (DecoderModel {
                pending: old(self).model().pending + data@,
                ..old(self).model()
            }),
    {
        proof {
            lemma_concat_push(self.saved@, data);
        }
        self.saved_length = self.saved_length + data.len();
        self.saved.push_back(data);
    }

    /// Takes exactly `count` bytes off the front of the buffered chunks, as
    /// one buffer. Only the chunk that straddles the boundary is split; its
    /// tail goes back to the front of the queue.
    fn drain(&mut self, count: usize) -> (r: Vec<u8>)
        requires
            old(self).wf(),
            count <= old(self).model().pending.len(),
        ensures
            final(self).wf(),
            r@ == old(self).model().pending.take(count as int),
            final(self).model() == (DecoderModel {
                pending: old(self).model().pending.skip(count as int),
                ..old(self).model()
            }),
    {
        let ghost all = concat(self.saved@);
        let mut out: Vec<u8> = Vec::new();
        while out.len() < count
            invariant
                self.saved_length == concat(self.saved@).len(),
                out@ + concat(self.saved@) == all,
                out@.len() <= count,
                count <= all.len(),
                self.state == old(self).state,
                self.seen_magic == old(self).seen_magic,
                self.failure == old(self).failure,
            decreases count - out@.len() + self.saved@.len(),
        {
            assert(self.saved@.len() > 0);
            let ghost before = self.saved@;
            let mut b = self.saved.pop_front().unwrap();
            assert(concat(before) == b@ + concat(self.saved@)) by {
                assert(before.drop_first() =~= self.saved@);
            }
            let need = count - out.len();
            if b.len() <= need {
                self.saved_length = self.saved_length - b.len();
                if out.len() == 0 {
                    assert(out@ + b@ =~= b@);
                    out = b;
                } else {
                    let ghost prev = out@;
                    out.append(&mut b);
                    assert(out@ + concat(self.saved@) =~= prev + concat(before));
                }
            } else {
                let tail = b.split_off(need);
                self.saved_length = self.saved_length - need;
                let ghost prev = out@;
                out.append(&mut b);
                let ghost rest = self.saved@;
                self.saved.push_front(tail);
                assert(self.saved@.drop_first() =~= rest);
                assert(concat(self.saved@) == tail@ + concat(rest));
                assert(out@ + concat(self.saved@) =~= prev + concat(before));
            }
        }
        assert(out@ =~= all.take(count as int));
        assert(concat(self.saved@) =~= all.skip(count as int));
        out
    }

    /// Decodes one frame, given its type byte and its whole body.
    fn process_frame(&mut self, frame_type: u8, data: Vec<u8>) -> (r: Result<
        Option<Vec<u8>>,
        DecodeError,
    >)
        requires
            old(self).wf(),
        ensures
            final(self).wf(),
            result_view(r) == frame_result(frame_type, data@, old(self).seen_magic),
            final(self).model() == (DecoderModel {
                seen_magic: old(self).seen_magic || (frame_type == 0xff && r is Ok),
                ..old(self).model()
            }),
    {
        let kind = FrameType::try_from(frame_type);
        if !self.seen_magic && !matches!(kind, Ok(FrameType::Stream)) {
            return Err(DecodeError::MissingMagic);
        }
        match kind {
            Err(b) => {
                if 0x02 <= b && b <= 0x7f {
                    Err(DecodeError::UnknownFrameType(b))
                } else {
                    Ok(None)
                }
            },
            Ok(FrameType::Stream) => {
                if !is_magic(&data) {
                    return Err(DecodeError::MangledMagic);
                }
                self.seen_magic = true;
                Ok(None)
            },
            Ok(FrameType::Padding) => Ok(None),
            Ok(t) => {
                if data.len() < 4 {
                    return Err(DecodeError::Truncated);
                }
                let expected = decode_u32(data[0], data[1], data[2], data[3]);
                assert(read_u32(data@.take(4)) == read_u32(
                    seq![data@[0], data@[1], data@[2], data@[3]],
                ));
                let mut data = data;
                let payload = data.split_off(4);
                let plain = if t == FrameType::Uncompressed {
                    payload
                } else {
                    match decompress_vec(&mut self.decoder, payload.as_slice()) {
                        Ok(p) => p,
                        Err(_) => {
                            return Err(DecodeError::Corrupt);
                        },
                    }
                };
                let actual = crc32c_masked(plain.as_slice());
                if actual != expected {
                    return Err(DecodeError::CrcMismatch { expected, actual });
                }
                Ok(Some(plain))
            },
        }
    }

    /// Pulls the next plain payload out of what is buffered.
    pub fn poll_frame(&mut self) -> (r: DecodeStep)
        requires
            old(self).wf(),
        ensures
            final(self).wf(),
            (step_view(r), final(self).model()) == poll_spec(old(self).model()),
    {
        if let Some(e) = self.failure {
            return DecodeStep::Failed(e);
        }
        loop
            invariant
                self.wf(),
                self.failure is None,
                poll_spec(self.model()) == poll_spec(old(self).model()),
            decreases step_measure(self.model()),
        {
            match self.state {
                State::Header => {
                    if self.saved_length < 4 {
                        return DecodeStep::NeedInput;
                    }
                    let ghost m = self.model();
                    let header = self.drain(4);
                    let length = decode_u24(header[1], header[2], header[3]);
                    assert(read_u24(m.pending.subrange(1, 4)) == read_u24(
                        seq![header@[1], header@[2], header@[3]],
                    ));
                    self.state = State::Body { frame_type: header[0], length };
                },
                State::Body { frame_type, length } => {
                    if self.saved_length < length {
                        return DecodeStep::NeedInput;
                    }
                    let data = self.drain(length);
                    let r = self.process_frame(frame_type, data);
                    self.state = State::Header;
                    match r {
                        Err(e) => {
                            self.failure = Some(e);
                            return DecodeStep::Failed(e);
                        },
                        Ok(None) => {},
                        Ok(Some(p)) => {
                            return DecodeStep::Frame(p);
                        },
                    }
                },
            }
        }
    }

    /// Reports how the stream ends once upstream has ended.
    pub fn finish(&mut self) -> (r: Result<(), DecodeError>)
        requires
            old(self).wf(),
        ensures
            final(self).wf(),
            r == finish_spec(old(self).model()),
            final(self).model() == (DecoderModel {
                failure: if r is Err {
                    Some(r->Err_0)
                } else {
                    None
                },
                ..old(self).model()
            }),
    {
        if let Some(e) = self.failure {
            return Err(e);
        }
        if self.state == State::Header && self.saved_length == 0 {
            Ok(())
        } else {
            self.failure = Some(DecodeError::Truncated);
            Err(DecodeError::Truncated)
        }
    }
}

} // verus!
