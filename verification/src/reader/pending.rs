use vstd::prelude::*;

verus! {

/// Bytes that a source delivered beyond what its consumer asked for, kept
/// until the next read.
pub struct PendingBytes {
    buf: Vec<u8>,
    offset: usize,
}

impl View for PendingBytes {
    type V = Seq<u8>;

    /// The bytes that have not been handed out yet, in order.
    closed spec fn view(&self) -> Seq<u8> {
        if self.offset <= self.buf@.len() {
            self.buf@.skip(self.offset as int)
        } else {
            Seq::empty()
        }
    }
}

impl Default for PendingBytes {
    /// A buffer that holds no bytes.
    fn default() -> (r: Self)
        ensures
            r@ == Seq::<u8>::empty(),
    {
        PendingBytes { buf: Vec::new(), offset: 0 }
    }
}

impl PendingBytes {
    /// Number of bytes still waiting.
    pub fn remaining(&self) -> (n: usize)
        ensures
            n == self@.len(),
    {
        self.buf.len().saturating_sub(self.offset)
    }

    pub fn is_empty(&self) -> (b: bool)
        ensures
            b == (self@.len() == 0),
    {
        self.remaining() == 0
    }

    pub fn clear(&mut self)
        ensures
            final(self)@ == Seq::<u8>::empty(),
    {
        self.buf.clear();
        self.offset = 0;
    }

    pub fn fill_from_slice(&mut self, bytes: &[u8])
        ensures
            final(self)@ == bytes@,
    {
        self.buf.clear();
        self.buf.extend_from_slice(bytes);
        self.offset = 0;
    }

    pub fn copy_into(&mut self, out: &mut [u8]) -> (n: usize)
        ensures
            n == if old(self)@.len() <= old(out)@.len() { old(self)@.len() } else { old(out)@.len() },
            final(out)@ == old(self)@.take(n as int) + old(out)@.skip(n as int),
            final(self)@ == old(self)@.skip(n as int),
    {
        let avail = self.remaining();
        if avail == 0 {
            self.clear();
            return 0;
        }
        let to_copy = if avail <= out.len() { avail } else { out.len() };
        let len = self.buf.len();
        let mut i: usize = 0;
        while i < to_copy
            invariant
                i <= to_copy,
                len == self.buf@.len(),
                to_copy <= out@.len(),
                out@.len() == old(out)@.len(),
                self.offset + to_copy <= self.buf@.len(),
                *self == *old(self),
                out@ == old(self)@.take(i as int) + old(out)@.skip(i as int),
            decreases to_copy - i,
        {
            out[i] = self.buf[self.offset + i];
            i += 1;
        }
        self.offset = self.offset + to_copy;
        if self.offset >= self.buf.len() {
            self.clear();
        }
        to_copy
    }
}

} // verus!
