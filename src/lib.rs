//! Streaming codec for the Snappy framing format: a compressor that turns
//! plain byte chunks into checksummed frames, and a decompressor that turns a
//! framed stream, chunked arbitrarily, back into plain bytes.

pub mod block;
pub mod compress;
pub mod frame;
pub mod stream;
pub mod uncompress;

pub use compress::SnappyCompress;
pub use uncompress::SnappyUncompress;
