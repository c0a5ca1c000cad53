//! Buffering for pull-based byte sources.
//!
//! A foreign source hands out chunks of any size, and a consumer asks for
//! bytes into a buffer of its own size. The types here decide what goes
//! into the buffer and what is kept for the next read. Fetching a chunk is
//! the caller's part: `begin` says when one is needed, and `accept` takes
//! what the source handed back.

pub mod file_like;
pub mod generator;
pub mod pending;

use crate::reader::pending::PendingBytes;
use vstd::prelude::*;

verus! {

/// Why a source of bytes failed.
#[derive(Debug, PartialEq, Eq)]
pub enum AdapterError<E> {
    /// The call into the source failed; the source's own error is kept as
    /// it came.
    Source(E),
    /// The source handed back a value of a type that holds no bytes; the
    /// text is the name of that type.
    UnsupportedChunk(String),
    /// The source handed back nothing where a chunk was due.
    AbsentChunk,
}

/// What a read does next.
#[derive(Clone, Copy, Debug, PartialEq, Eq)]
pub enum ReadStep {
    /// The read is over: so many bytes stand at the start of the buffer.
    /// None means the end of the input, or an empty buffer.
    Done(usize),
    /// A chunk of up to so many bytes must be fetched from the source and
    /// handed to `accept`.
    Fetch(usize),
}

/// The smaller of two lengths.
pub open spec fn min_len(a: int, b: int) -> int {
    if a <= b {
        a
    } else {
        b
    }
}

/// Copies the start of `bytes` into the start of `out`, as far as `out`
/// has room, and keeps the rest of `bytes` in `pending`. Where all of
/// `bytes` fits, `pending` stays as it is.
pub fn deliver(pending: &mut PendingBytes, bytes: &[u8], out: &mut [u8]) -> (n: usize)
    ensures
        n == min_len(bytes@.len() as int, old(out)@.len() as int),
        final(out)@ == bytes@.take(n as int) + old(out)@.skip(n as int),
        final(pending)@ == if bytes@.len() <= old(out)@.len() {
            old(pending)@
        } else {
            bytes@.skip(n as int)
        },
{
    let n = if bytes.len() <= out.len() {
        bytes.len()
    } else {
        out.len()
    };
    let mut i: usize = 0;
    while i < n
        invariant
            i <= n,
            n <= bytes@.len(),
            n <= out@.len(),
            out@.len() == old(out)@.len(),
            out@ == bytes@.take(i as int) + old(out)@.skip(i as int),
        decreases n - i,
    {
        out[i] = bytes[i];
        i += 1;
    }
    if n < bytes.len() {
        let rest = vstd::slice::slice_subrange(bytes, n, bytes.len());
        pending.fill_from_slice(rest);
    }
    n
}

} // verus!
