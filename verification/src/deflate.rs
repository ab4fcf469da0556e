//! Streaming compression behind trusted wrappers around `flate2::Compress`.
//!
//! The compressor is driven with plain writes and one final flush, at a fixed
//! compression level and without a wrapper header, so the bytes it produces
//! are a function of the bytes fed in alone; that whole stream is given the
//! name `deflate_of` rather than spelled out.

use vstd::prelude::*;

verus! {

/// The deflate stream that the compressor produces for `data`: the raw
/// compressed form of `data`, at the compressor's default level, finished
/// with a single final flush. A function of `data` alone.
pub uninterp spec fn deflate_of(data: Seq<u8>) -> Seq<u8>;

/// The compressor's block-complete output after consuming exactly `data`,
/// before the final flush: every block it has formed for `data` is
/// included, output for symbols still buffered is not. Where the blocks
/// are cut depends on the byte stream alone, not on how it was handed
/// over, so this is a function of `data`; the final flush extends it to
/// `deflate_of(data)`.
pub uninterp spec fn deflate_partial(data: Seq<u8>) -> Seq<u8>;

/// The bytes fed so far into a live compressor value.
pub uninterp spec fn deflater_fed(c: flate2::Compress) -> Seq<u8>;

/// The bytes the compressor has handed back so far.
pub uninterp spec fn deflater_out(c: flate2::Compress) -> Seq<u8>;

#[verifier::external_type_specification]
#[verifier::external_body]
pub struct ExCompress(flate2::Compress);

/// Relies on flate2::Compress::new: a fresh raw-deflate compressor (no
/// wrapper header) at the default level, with nothing fed and nothing
/// produced yet -- so what it has handed back is exactly the pre-flush
/// output for what it has consumed.
#[verifier::external_body]
pub(crate) fn deflater_new() -> (c: flate2::Compress)
    ensures
        deflater_fed(c) == Seq::<u8>::empty(),
        deflater_out(c) == Seq::<u8>::empty(),
        deflater_out(c) == deflate_partial(deflater_fed(c)),
{
    flate2::Compress::new(flate2::Compression::default(), false)
}

/// Relies on flate2::Compress::compress_vec with FlushCompress::None: it
/// consumes input (total_in advances by what was taken) and writes ready
/// output into the spare capacity, a formed block's unwritten rest staying
/// parked inside until a later round offers space. The loop therefore goes
/// on until a round neither consumes input nor writes output: everything
/// the compressor has formed is handed out before the call returns. That
/// draining is what makes the last clause true -- the total handed back
/// after consuming a byte prefix is the block-complete output for that
/// prefix, a function of the prefix alone and not of how it was split into
/// calls. With a valid flush value the rust backend reports only success
/// or a full output buffer, so the unwrap cannot fire.
#[verifier::external_body]
pub(crate) fn deflater_feed(c: &mut flate2::Compress, chunk: &[u8]) -> (out: Vec<u8>)
    ensures
        deflater_fed(*final(c)) == deflater_fed(*old(c)) + chunk@,
        deflater_out(*final(c)) == deflater_out(*old(c)) + out@,
        deflater_out(*old(c)) == deflate_partial(deflater_fed(*old(c))) ==> deflater_out(
            *final(c),
        ) == deflate_partial(deflater_fed(*final(c))),
{
    let mut out: Vec<u8> = Vec::new();
    let mut pos: usize = 0;
    loop {
        out.reserve(chunk.len() - pos + 128);
        let (in0, out0) = (c.total_in(), c.total_out());
        c.compress_vec(&chunk[pos..], &mut out, flate2::FlushCompress::None).unwrap();
        pos += (c.total_in() - in0) as usize;
        if pos == chunk.len() && c.total_out() == out0 {
            return out;
        }
    }
}

/// Relies on flate2::Compress::compress_vec with FlushCompress::Finish: once
/// it reports StreamEnd, everything the compressor will ever produce for the
/// bytes fed has been handed out, so the output seen so far plus this tail is
/// the whole compressed stream for the bytes fed.
#[verifier::external_body]
pub(crate) fn deflater_finish(c: flate2::Compress) -> (out: Vec<u8>)
    ensures
        deflater_out(c) + out@ == deflate_of(deflater_fed(c)),
{
    let mut c = c;
    let mut out: Vec<u8> = Vec::new();
    loop {
        out.reserve(128);
        let status = c.compress_vec(&[], &mut out, flate2::FlushCompress::Finish).unwrap();
        if let flate2::Status::StreamEnd = status {
            return out;
        }
    }
}

} // verus!
