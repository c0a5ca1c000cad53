use crate::reader::pending::PendingBytes;
use crate::reader::{deliver, min_len, AdapterError, ReadStep};
use vstd::prelude::*;

verus! {

/// What a source of successive chunks handed back.
#[derive(Debug, PartialEq, Eq)]
pub enum GeneratorChunk<E> {
    /// A chunk of bytes.
    Bytes(Vec<u8>),
    /// A chunk of text, which stands for its bytes in UTF-8.
    Text(String),
    /// Nothing, where a chunk was due.
    Absent,
    /// A value of another type, with the name of that type.
    Unsupported(String),
    /// The source has no more chunks.
    Exhausted,
    /// The call failed.
    Failed(E),
}

/// Mathematical model of a [`GeneratorRead`].
pub struct GeneratorState {
    /// The bytes that the source delivered and no read has handed out yet.
    pub pending: Seq<u8>,
    /// Whether the source has said that it has no more chunks.
    pub done: bool,
}

/// Reads from a source that yields chunks of its own size until it is
/// exhausted.
pub struct GeneratorRead {
    pending: PendingBytes,
    done: bool,
}

impl View for GeneratorRead {
    type V = GeneratorState;

    closed spec fn view(&self) -> GeneratorState {
        GeneratorState { pending: self.pending@, done: self.done }
    }
}

/// The bytes of a chunk, where it holds any.
pub open spec fn chunk_bytes<E>(chunk: GeneratorChunk<E>) -> Option<Seq<u8>> {
    match chunk {
        GeneratorChunk::Bytes(bytes) => Some(bytes@),
        GeneratorChunk::Text(text) => Some(vstd::utf8::encode_utf8(text@)),
        _ => None,
    }
}

impl GeneratorRead {
    /// A reader that holds no bytes, over a source that is not exhausted.
    pub fn new() -> (r: Self)
        ensures
            r@ == (GeneratorState { pending: Seq::empty(), done: false }),
    {
        let mut pending = PendingBytes::default();
        pending.clear();
        GeneratorRead { pending, done: false }
    }

    /// How many bytes are kept for the next read.
    pub fn buffered(&self) -> (n: usize)
        ensures
            n == self@.pending.len(),
    {
        self.pending.remaining()
    }

    /// Whether the source has said that it has no more chunks.
    pub fn is_done(&self) -> (b: bool)
        ensures
            b == self@.done,
    {
        self.done
    }

    /// Begins a read into `out`. A read into an empty buffer is over at
    /// once. Bytes that are kept from an earlier chunk are handed out
    /// first, as many as fit. Once the source is exhausted, every read is
    /// over with no bytes. Otherwise the next chunk must be fetched.
    pub fn begin(&mut self, out: &mut [u8]) -> (r: ReadStep)
        ensures
            r == if old(out)@.len() == 0 {
                ReadStep::Done(0)
            } else if old(self)@.pending.len() > 0 {
                ReadStep::Done(
                    min_len(old(self)@.pending.len() as int, old(out)@.len() as int) as usize,
                )
            } else if old(self)@.done {
                ReadStep::Done(0)
            } else {
                ReadStep::Fetch(old(out)@.len() as usize)
            },
            final(self)@.done == old(self)@.done,
            r matches ReadStep::Done(n) ==> final(out)@ == old(self)@.pending.take(n as int)
                + old(out)@.skip(n as int) && final(self)@.pending == old(self)@.pending.skip(
                n as int,
            ),
            r is Fetch ==> final(out)@ == old(out)@ && final(self)@ == old(self)@,
    {
        if out.len() == 0 {
            return ReadStep::Done(0);
        }
        if !self.pending.is_empty() {
            return ReadStep::Done(self.pending.copy_into(out));
        }
        if self.done {
            return ReadStep::Done(0);
        }
        ReadStep::Fetch(out.len())
    }

    /// Goes on with a read, with what the source handed back. A chunk that
    /// holds bytes goes into the start of `out` as far as it fits, and the
    /// rest is kept. An empty chunk is passed over: the next one must be
    /// fetched. When the source is exhausted the read is over with no
    /// bytes, and so is every later read. Nothing where a chunk was due, a
    /// value of another type and a failed call are errors, and change
    /// nothing.
    pub fn accept<E>(&mut self, chunk: GeneratorChunk<E>, out: &mut [u8]) -> (r: Result<
        ReadStep,
        AdapterError<E>,
    >)
        requires
            old(self)@.pending.len() == 0,
            !old(self)@.done,
            old(out)@.len() > 0,
        ensures
            match chunk_bytes(chunk) {
                Some(bytes) => if bytes.len() == 0 {
                    r == Ok::<ReadStep, AdapterError<E>>(ReadStep::Fetch(old(out)@.len() as usize))
                        && final(out)@ == old(out)@ && final(self)@ == old(self)@
                } else {
                    let n = min_len(bytes.len() as int, old(out)@.len() as int);
                    r == Ok::<ReadStep, AdapterError<E>>(ReadStep::Done(n as usize)) && final(out)@
                        == bytes.take(n) + old(out)@.skip(n) && final(self)@ == (GeneratorState {
                        pending: bytes.skip(n),
                        done: false,
                    })
                },
                None => final(out)@ == old(out)@ && match chunk {
                    GeneratorChunk::Exhausted => r == Ok::<ReadStep, AdapterError<E>>(
                        ReadStep::Done(0),
                    ) && final(self)@ == (GeneratorState { pending: Seq::empty(), done: true }),
                    GeneratorChunk::Absent => r == Err::<ReadStep, AdapterError<E>>(
                        AdapterError::AbsentChunk,
                    ) && final(self)@ == old(self)@,
                    GeneratorChunk::Unsupported(name) => r == Err::<ReadStep, AdapterError<E>>(
                        AdapterError::UnsupportedChunk(name),
                    ) && final(self)@ == old(self)@,
                    GeneratorChunk::Failed(e) => r == Err::<ReadStep, AdapterError<E>>(
                        AdapterError::Source(e),
                    ) && final(self)@ == old(self)@,
                    _ => true,
                },
            },
    {
        match chunk {
            GeneratorChunk::Bytes(bytes) => Ok(self.take_bytes(bytes.as_slice(), out)),
            GeneratorChunk::Text(text) => Ok(self.take_bytes(text.as_str().as_bytes(), out)),
            GeneratorChunk::Exhausted => {
                self.done = true;
                assert(self@.pending =~= Seq::empty());
                Ok(ReadStep::Done(0))
            },
            GeneratorChunk::Absent => Err(AdapterError::AbsentChunk),
            GeneratorChunk::Unsupported(name) => Err(AdapterError::UnsupportedChunk(name)),
            GeneratorChunk::Failed(e) => Err(AdapterError::Source(e)),
        }
    }

    /// Hands out the bytes of a chunk, or asks for the next chunk where
    /// this one is empty.
    fn take_bytes(&mut self, bytes: &[u8], out: &mut [u8]) -> (r: ReadStep)
        requires
            old(self)@.pending.len() == 0,
            !old(self)@.done,
        ensures
            if bytes@.len() == 0 {
                r == ReadStep::Fetch(old(out)@.len() as usize) && final(out)@ == old(out)@
                    && final(self)@ == old(self)@
            } else {
                let n = min_len(bytes@.len() as int, old(out)@.len() as int);
                r == ReadStep::Done(n as usize) && final(out)@ == bytes@.take(n) + old(out)@.skip(n)
                    && final(self)@ == (GeneratorState { pending: bytes@.skip(n), done: false })
            },
    {
        if bytes.len() == 0 {
            return ReadStep::Fetch(out.len());
        }
        let n = deliver(&mut self.pending, bytes, out);
        assert(self@.pending =~= bytes@.skip(n as int));
        ReadStep::Done(n)
    }
}

} // verus!
