//! Compression of payloads, with Zstandard.

use std::io::Write;

use vstd::prelude::*;

use crate::protocol::errors::{io_error_text, MlinkError, Result};
use crate::protocol::wire::{copy_range, push_bytes};

verus! {

/// Payloads of at least this many bytes are compressed.
pub const COMPRESS_THRESHOLD: usize = 256;

/// The compression level of payloads.
pub const DEFAULT_LEVEL: i32 = 3;

/// The Zstandard frame that `zstd::encode_all` makes of `data` at `level`; `None` where it
/// fails.
pub uninterp spec fn zstd_frame(data: Seq<u8>, level: i32) -> Option<Seq<u8>>;

/// What `zstd::decode_all` makes of `data`; `None` where it fails.
pub uninterp spec fn zstd_content(data: Seq<u8>) -> Option<Seq<u8>>;

/// `zstd::encode_all`: the result is the named frame, and decoding that frame gives the data
/// back.
#[verifier::external_body]
fn zstd_encode(data: &[u8], level: i32) -> (r: std::result::Result<Vec<u8>, std::io::Error>)
    ensures
        match r {
            Ok(out) => zstd_frame(data@, level) == Some(out@) && zstd_content(out@) == Some(data@),
            Err(_) => zstd_frame(data@, level) is None,
        },
{
    zstd::encode_all(data, level)
}

/// `zstd::decode_all`: the result is the named content.
#[verifier::external_body]
fn zstd_decode(data: &[u8]) -> (r: std::result::Result<Vec<u8>, std::io::Error>)
    ensures
        match r {
            Ok(out) => zstd_content(data@) == Some(out@),
            Err(_) => zstd_content(data@) is None,
        },
{
    zstd::decode_all(data)
}

/// Compresses `data`.
pub fn compress(data: &[u8]) -> (r: Result<Vec<u8>>)
    ensures
        match r {
            Ok(out) => zstd_frame(data@, DEFAULT_LEVEL) == Some(out@) && zstd_content(out@) == Some(
                data@,
            ),
            Err(e) => e is CompressError && zstd_frame(data@, DEFAULT_LEVEL) is None,
        },
{
    match zstd_encode(data, DEFAULT_LEVEL) {
        Ok(out) => Ok(out),
        Err(e) => Err(MlinkError::CompressError(io_error_text(&e))),
    }
}

/// Decompresses `data`.
pub fn decompress(data: &[u8]) -> (r: Result<Vec<u8>>)
    ensures
        match r {
            Ok(out) => zstd_content(data@) == Some(out@),
            Err(e) => e is CompressError && zstd_content(data@) is None,
        },
{
    match zstd_decode(data) {
        Ok(out) => Ok(out),
        Err(e) => Err(MlinkError::CompressError(io_error_text(&e))),
    }
}

/// Whether a payload is worth compressing.
pub fn should_compress(data: &[u8]) -> (r: bool)
    ensures
        r == (data@.len() >= COMPRESS_THRESHOLD),
        r == (data@.len() >= 256),
{
    data.len() >= COMPRESS_THRESHOLD
}

/// The `zstd` crate's streaming encoder, which collects its output in a vector.
#[verifier::external_body]
pub struct ZstdEncoder {
    inner: zstd::stream::Encoder<'static, Vec<u8>>,
}

/// The bytes that have been written into an encoder.
pub uninterp spec fn encoder_input(e: ZstdEncoder) -> Seq<u8>;

/// The compressed bytes that an encoder has handed to the vector it writes to.
pub uninterp spec fn encoder_output(e: ZstdEncoder) -> Seq<u8>;

/// Whether no call on an encoder has failed.
pub uninterp spec fn encoder_sound(e: ZstdEncoder) -> bool;

/// Whether bytes have been written into an encoder since it was last flushed.
pub uninterp spec fn encoder_unflushed(e: ZstdEncoder) -> bool;

/// `zstd::stream::Encoder::new`, over an empty vector. Every level will do: one that is out of
/// range counts as the nearest that is not.
#[verifier::external_body]
fn encoder_new(level: i32) -> (r: std::result::Result<ZstdEncoder, std::io::Error>)
    ensures
        r is Ok,
        r matches Ok(e) ==> encoder_sound(e) && encoder_input(e).len() == 0 && encoder_output(
            e,
        ).len() == 0,
{
    zstd::stream::Encoder::new(Vec::new(), level).map(|inner| ZstdEncoder { inner })
}

/// `write_all` on the encoder: all of `data` goes in, and output is only ever appended. The
/// vector takes whatever it is given, so a call fails only after another one has. (That memory
/// runs out is not considered, here or below.)
#[verifier::external_body]
fn encoder_write(e: &mut ZstdEncoder, data: &[u8]) -> (r: std::result::Result<(), std::io::Error>)
    ensures
        encoder_sound(*old(e)) ==> r is Ok && encoder_sound(*final(e)),
        r is Ok ==> encoder_input(*final(e)) == encoder_input(*old(e)) + data@,
        r is Ok && data@.len() > 0 ==> encoder_unflushed(*final(e)),
        encoder_output(*old(e)).is_prefix_of(encoder_output(*final(e))),
{
    e.inner.write_all(data)
}

/// `flush` on the encoder: nothing goes in, and output is only ever appended. Where bytes have
/// been written since the last flush, they come out as at least one block. It fails only after
/// another call has.
#[verifier::external_body]
fn encoder_flush(e: &mut ZstdEncoder) -> (r: std::result::Result<(), std::io::Error>)
    ensures
        encoder_sound(*old(e)) ==> r is Ok && encoder_sound(*final(e)),
        r is Ok ==> encoder_input(*final(e)) == encoder_input(*old(e)),
        r is Ok && encoder_unflushed(*old(e)) ==> encoder_output(*old(e)).len() < encoder_output(
            *final(e),
        ).len(),
        encoder_output(*old(e)).is_prefix_of(encoder_output(*final(e))),
{
    e.inner.flush()
}

/// `zstd::stream::Encoder::get_ref`: the vector that the encoder writes to.
#[verifier::external_body]
fn encoder_bytes(e: &ZstdEncoder) -> (r: &Vec<u8>)
    ensures
        r@ == encoder_output(*e),
{
    e.inner.get_ref()
}

/// `zstd::stream::Encoder::finish`: the vector, with the end of the frame appended. It holds a
/// whole frame, which decodes to everything that was written in. It fails only after another call
/// has.
#[verifier::external_body]
fn encoder_finish(e: ZstdEncoder) -> (r: std::result::Result<Vec<u8>, std::io::Error>)
    ensures
        encoder_sound(e) ==> r is Ok,
        r matches Ok(all) ==> encoder_output(e).is_prefix_of(all@) && zstd_content(all@) == Some(
            encoder_input(e),
        ),
{
    e.inner.finish()
}

/// Compresses a stream chunk by chunk.
pub struct StreamCompressor {
    encoder: ZstdEncoder,
    sent: usize,
}

impl StreamCompressor {
    /// Everything handed out is output of the encoder.
    pub closed spec fn wf(&self) -> bool {
        self.sent <= encoder_output(self.encoder).len()
    }

    /// The bytes that have been written.
    pub closed spec fn input(&self) -> Seq<u8> {
        encoder_input(self.encoder)
    }

    /// The compressed bytes that have been handed out.
    pub closed spec fn handed_out(&self) -> Seq<u8> {
        encoder_output(self.encoder).take(self.sent as int)
    }

    /// Whether no call has failed.
    pub closed spec fn sound(&self) -> bool {
        encoder_sound(self.encoder)
    }

    pub fn new(level: i32) -> (r: Result<Self>)
        ensures
            r matches Ok(c) && c.wf() && c.sound() && c.input().len() == 0 && c.handed_out().len()
                == 0,
    {
        match encoder_new(level) {
            Ok(encoder) => {
                Ok(StreamCompressor { encoder, sent: 0 })
            },
            Err(e) => Err(MlinkError::CompressError(io_error_text(&e))),
        }
    }

    /// Compresses one more chunk, and hands out what has come of it: nothing is kept back, so
    /// that a chunk gives a part.
    pub fn write_chunk(&mut self, data: &[u8]) -> (r: Result<Vec<u8>>)
        requires
            old(self).wf(),
        ensures
            final(self).wf(),
            match r {
                Ok(part) => {
                    &&& final(self).input() == old(self).input() + data@
                    &&& final(self).handed_out() == old(self).handed_out() + part@
                    &&& data@.len() > 0 ==> part@.len() > 0
                },
                Err(e) => e is CompressError && final(self).handed_out() == old(self).handed_out(),
            },
            old(self).sound() ==> r is Ok && final(self).sound(),
    {
        let ghost start = encoder_output(self.encoder);
        let ghost from = self.sent as int;
        let written = encoder_write(&mut self.encoder, data);
        let ghost mid = encoder_output(self.encoder);
        proof {
            assert(start =~= mid.take(start.len() as int));
            assert(mid.take(from) =~= start.take(from));
        }
        match written {
            Ok(()) => {},
            Err(e) => {
                return Err(MlinkError::CompressError(io_error_text(&e)));
            },
        }
        let flushed = encoder_flush(&mut self.encoder);
        proof {
            let end = encoder_output(self.encoder);
            assert(mid =~= end.take(mid.len() as int));
            assert(end.take(from) =~= start.take(from));
        }
        match flushed {
            Ok(()) => {},
            Err(e) => {
                return Err(MlinkError::CompressError(io_error_text(&e)));
            },
        }
        let all = encoder_bytes(&self.encoder);
        let n: usize = all.len();
        assert(start.len() <= mid.len() <= all@.len());
        let part = copy_range(all.as_slice(), self.sent, n);
        self.sent = n;
        proof {
            let end = encoder_output(self.encoder);
            assert(end.take(n as int) =~= start.take(from) + end.subrange(from, n as int));
        }
        Ok(part)
    }

    /// Ends the stream, and hands out the rest of the frame. Everything handed out, this tail
    /// last, is one frame that decompresses to everything written.
    pub fn finish(self) -> (r: Result<Vec<u8>>)
        requires
            self.wf(),
        ensures
            match r {
                Ok(tail) => zstd_content(self.handed_out() + tail@) == Some(self.input()),
                Err(e) => e is CompressError,
            },
            self.sound() ==> r is Ok,
    {
        let sent: usize = self.sent;
        let ghost before = encoder_output(self.encoder);
        match encoder_finish(self.encoder) {
            Ok(all) => {
                let tail = copy_range(all.as_slice(), sent, all.len());
                proof {
                    assert(before =~= all@.take(before.len() as int));
                    assert(all@ =~= before.take(sent as int) + tail@);
                }
                Ok(tail)
            },
            Err(e) => Err(MlinkError::CompressError(io_error_text(&e))),
        }
    }
}

/// Decompresses a stream that arrives in chunks.
pub struct StreamDecompressor {
    buffer: Vec<u8>,
}

impl StreamDecompressor {
    /// The bytes that have not been decompressed yet.
    pub closed spec fn pending(&self) -> Seq<u8> {
        self.buffer@
    }

    pub fn new() -> (r: Result<Self>)
        ensures
            r matches Ok(d) && d.pending() == Seq::<u8>::empty(),
    {
        Ok(StreamDecompressor { buffer: Vec::new() })
    }

    /// Decompresses what is pending together with `data`. On failure the bytes stay pending.
    pub fn read_chunk(&mut self, data: &[u8]) -> (r: Result<Vec<u8>>)
        ensures
            match r {
                Ok(out) => {
                    &&& zstd_content(old(self).pending() + data@) == Some(out@)
                    &&& final(self).pending() == Seq::<u8>::empty()
                },
                Err(e) => {
                    &&& e is CompressError
                    &&& zstd_content(old(self).pending() + data@) is None
                    &&& final(self).pending() == old(self).pending() + data@
                },
            },
    {
        push_bytes(&mut self.buffer, data);
        match zstd_decode(self.buffer.as_slice()) {
            Ok(out) => {
                self.buffer.clear();
                Ok(out)
            },
            Err(e) => Err(MlinkError::CompressError(io_error_text(&e))),
        }
    }
}

} // verus!
