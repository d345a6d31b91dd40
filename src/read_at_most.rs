use vstd::prelude::*;

verus! {

/// Fills a caller's buffer from a stream until it is full or the stream ends.
pub struct ReadAtMost {
    buf: Vec<u8>,
    pos: usize,
}

impl ReadAtMost {
    /// The bytes read so far.
    pub closed spec fn read(&self) -> Seq<u8> {
        self.buf@.subrange(0, self.pos as int)
    }

    /// The capacity of the buffer.
    pub closed spec fn capacity(&self) -> nat {
        self.buf@.len()
    }

    pub closed spec fn wf(&self) -> bool {
        self.pos <= self.buf@.len()
    }

    /// Room left in the buffer; zero once it is full.
    pub fn remaining(&self) -> (r: usize)
        requires
            self.wf(),
        ensures
            r == self.capacity() - self.read().len(),
    {
        self.buf.len() - self.pos
    }

    /// Takes in the bytes of one read (empty where the stream ended). Returns
    /// the number of bytes read in all once the stream ended or the buffer is
    /// full, and `None` while there is room for more.
    pub fn push(&mut self, data: &[u8]) -> (r: Option<usize>)
        requires
            old(self).wf(),
            data@.len() <= old(self).capacity() - old(self).read().len(),
        ensures
            final(self).wf(),
            final(self).capacity() == old(self).capacity(),
            final(self).read() == old(self).read() + data@,
            r == (if data@.len() == 0 || final(self).read().len() == final(self).capacity() {
                Some(final(self).read().len() as usize)
            } else {
                None
            }),
    {
        let ghost before = self.read();
        let start = self.pos;
        let n = data.len();
        let cap = self.buf.len();
        assert(before.len() == start);
        let mut j: usize = 0;
        while j < n
            invariant
                j <= n,
                n == data@.len(),
                start + n <= cap,
                cap == self.buf@.len(),
                self.pos == start,
                self.buf@.subrange(0, start as int) == before,
                forall|k: int| 0 <= k < j ==> self.buf@[start + k] == data@[k],
            decreases n - j,
        {
            self.buf.set(start + j, data[j]);
            j = j + 1;
        }
        self.pos = start + n;
        assert(self.read() =~= before + data@);
        if n == 0 || self.pos == cap {
            Some(self.pos)
        } else {
            None
        }
    }

    /// Hands the buffer back, cut to the bytes read.
    pub fn into_buffer(self) -> (r: Vec<u8>)
        requires
            self.wf(),
        ensures
            r@ == self.read(),
    {
        let mut buf = self.buf;
        buf.truncate(self.pos);
        buf
    }
}

/// Starts filling `buf`, whose length is the most that will be read.
pub fn read_at_most(buf: Vec<u8>) -> (r: ReadAtMost)
    ensures
        r.wf(),
        r.read() == Seq::<u8>::empty(),
        r.capacity() == buf@.len(),
{
    let r = ReadAtMost { buf, pos: 0 };
    assert(r.read() =~= Seq::<u8>::empty());
    r
}

} // verus!
