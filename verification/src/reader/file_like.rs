use crate::reader::pending::PendingBytes;
use crate::reader::{deliver, min_len, AdapterError, ReadStep};
use vstd::prelude::*;

verus! {

/// What a source with a bounded `read` handed back.
#[derive(Debug, PartialEq, Eq)]
pub enum FileChunk<E> {
    /// Bytes; none at the end of the input.
    Bytes(Vec<u8>),
    /// A value of another type, with the name of that type.
    Unsupported(String),
    /// The call failed.
    Failed(E),
}

/// Reads from a source with a bounded `read`, which may still hand back
/// more than was asked for.
pub struct FileLikeRead {
    pending: PendingBytes,
}

impl View for FileLikeRead {
    type V = Seq<u8>;

    /// The bytes that the source delivered and no read has handed out yet.
    closed spec fn view(&self) -> Seq<u8> {
        self.pending@
    }
}

impl FileLikeRead {
    /// A reader that holds no bytes.
    pub fn new() -> (r: Self)
        ensures
            r@ == Seq::<u8>::empty(),
    {
        let mut pending = PendingBytes::default();
        pending.clear();
        FileLikeRead { pending }
    }

    /// How many bytes are kept for the next read.
    pub fn buffered(&self) -> (n: usize)
        ensures
            n == self@.len(),
    {
        self.pending.remaining()
    }

    /// Begins a read into `out`. A read into an empty buffer is over at
    /// once. Bytes that are kept from an earlier chunk are handed out
    /// first, as many as fit. Otherwise a chunk of the size of `out` must
    /// be fetched.
    pub fn begin(&mut self, out: &mut [u8]) -> (r: ReadStep)
        ensures
            r == if old(out)@.len() == 0 {
                ReadStep::Done(0)
            } else if old(self)@.len() > 0 {
                ReadStep::Done(min_len(old(self)@.len() as int, old(out)@.len() as int) as usize)
            } else {
                ReadStep::Fetch(old(out)@.len() as usize)
            },
            r matches ReadStep::Done(n) ==> final(out)@ == old(self)@.take(n as int)
                + old(out)@.skip(n as int) && final(self)@ == old(self)@.skip(n as int),
            r is Fetch ==> final(out)@ == old(out)@ && final(self)@ == old(self)@,
    {
        if out.len() == 0 {
            return ReadStep::Done(0);
        }
        if !self.pending.is_empty() {
            return ReadStep::Done(self.pending.copy_into(out));
        }
        ReadStep::Fetch(out.len())
    }

    /// Ends a read with what the source handed back. Bytes go into the
    /// start of `out` as far as they fit, and the rest is kept; no bytes
    /// mean the end of the input. A value of another type and a failed
    /// call are errors, and change nothing.
    pub fn accept<E>(&mut self, chunk: FileChunk<E>, out: &mut [u8]) -> (r: Result<
        usize,
        AdapterError<E>,
    >)
        requires
            old(self)@.len() == 0,
        ensures
            match chunk {
                FileChunk::Bytes(bytes) => r == Ok::<usize, AdapterError<E>>(
                    min_len(bytes@.len() as int, old(out)@.len() as int) as usize,
                ) && final(out)@ == bytes@.take(r->Ok_0 as int) + old(out)@.skip(r->Ok_0 as int)
                    && final(self)@ == bytes@.skip(r->Ok_0 as int),
                FileChunk::Unsupported(name) => r == Err::<usize, AdapterError<E>>(
                    AdapterError::UnsupportedChunk(name),
                ) && final(out)@ == old(out)@ && final(self)@ == old(self)@,
                FileChunk::Failed(e) => r == Err::<usize, AdapterError<E>>(AdapterError::Source(e))
                    && final(out)@ == old(out)@ && final(self)@ == old(self)@,
            },
    {
        match chunk {
            FileChunk::Bytes(bytes) => {
                let n = deliver(&mut self.pending, bytes.as_slice(), out);
                Ok(n)
            },
            FileChunk::Unsupported(name) => Err(AdapterError::UnsupportedChunk(name)),
            FileChunk::Failed(e) => Err(AdapterError::Source(e)),
        }
    }
}

} // verus!
