use vstd::prelude::*;

verus! {

/// The end-of-head sentinel `CR LF CR LF` starts at index `i` of `s`.
pub open spec fn sentinel_at(s: Seq<u8>, i: int) -> bool {
    &&& 0 <= i
    &&& i + 4 <= s.len()
    &&& s[i] == 13u8
    &&& s[i + 1] == 10u8
    &&& s[i + 2] == 13u8
    &&& s[i + 3] == 10u8
}

/// No sentinel starts before index `k` of `s`.
pub open spec fn no_sentinel_before(s: Seq<u8>, k: int) -> bool {
    forall|i: int| 0 <= i < k ==> !#[trigger] sentinel_at(s, i)
}

/// `s` holds a sentinel somewhere.
pub open spec fn has_sentinel(s: Seq<u8>) -> bool {
    exists|i: int| #[trigger] sentinel_at(s, i)
}

/// `e` is the index just past the first sentinel of `s`.
pub open spec fn is_head_end(s: Seq<u8>, e: int) -> bool {
    &&& sentinel_at(s, e - 4)
    &&& no_sentinel_before(s, e - 4)
}

/// The end of the head is fixed by the bytes alone: two readers that took in
/// the same bytes, however the reads cut them, report the same end.
pub proof fn lemma_head_end_unique(s: Seq<u8>, e1: int, e2: int)
    requires
        is_head_end(s, e1),
        is_head_end(s, e2),
    ensures
        e1 == e2,
{
    if e1 < e2 {
        assert(!sentinel_at(s, e1 - 4));
    } else if e2 < e1 {
        assert(!sentinel_at(s, e2 - 4));
    }
}

/// Bytes that arrive after the head do not move its end.
pub proof fn lemma_head_end_extends(s: Seq<u8>, t: Seq<u8>, e: int)
    requires
        is_head_end(s, e),
    ensures
        is_head_end(s + t, e),
{
    let u = s + t;
    assert(sentinel_at(u, e - 4)) by {
        assert(u[e - 4] == s[e - 4] && u[e - 3] == s[e - 3] && u[e - 2] == s[e - 2] && u[e - 1]
            == s[e - 1]);
    }
    assert forall|i: int| 0 <= i < e - 4 implies !#[trigger] sentinel_at(u, i) by {
        if sentinel_at(u, i) {
            assert(u[i] == s[i] && u[i + 1] == s[i + 1] && u[i + 2] == s[i + 2] && u[i + 3] == s[i
                + 3]);
            assert(sentinel_at(s, i));
        }
    }
}

/// Why reading a request head failed.
#[derive(Debug, Clone, Copy, PartialEq, Eq, Structural)]
pub enum HeadError {
    /// The peer closed its side before the sentinel arrived.
    UnexpectedEof,
    /// The buffer filled up before the sentinel arrived.
    HeaderTooLarge,
}

/// What one read did to a head reader.
#[derive(Debug, Clone, Copy, PartialEq, Eq, Structural)]
pub enum HeadStep {
    /// No sentinel yet, and room for more bytes.
    Pending,
    /// The head is complete: `total` bytes were read, the head is `[0, split)`.
    Complete { total: usize, split: usize },
    /// The head cannot be read.
    Failed(HeadError),
}

/// A bounded reader of an HTTP request head. It is fed the chunks that the
/// stream yields, writes them into the caller's buffer in place, and finds
/// the first `CR LF CR LF` even where it is split over two reads.
pub struct ReadHttpHeader {
    buf: Vec<u8>,
    pos: usize,
    done: bool,
}

impl ReadHttpHeader {
    /// The bytes read so far.
    pub closed spec fn read(&self) -> Seq<u8> {
        self.buf@.subrange(0, self.pos as int)
    }

    /// The capacity of the buffer.
    pub closed spec fn capacity(&self) -> nat {
        self.buf@.len()
    }

    /// A reader has stopped once a read completed or failed.
    pub closed spec fn finished(&self) -> bool {
        self.done
    }

    pub closed spec fn wf(&self) -> bool {
        &&& self.pos <= self.buf@.len()
        &&& !self.done ==> no_sentinel_before(self.read(), self.pos as int)
        &&& !self.done ==> self.pos < self.buf@.len() || self.buf@.len() == 0
    }

    /// Room left in the buffer.
    pub fn remaining(&self) -> (r: usize)
        requires
            self.wf(),
        ensures
            r == self.capacity() - self.read().len(),
    {
        self.buf.len() - self.pos
    }

    /// The bytes read so far, without giving up the buffer.
    pub fn bytes(&self) -> (r: &[u8])
        requires
            self.wf(),
        ensures
            r@ == self.read(),
    {
        vstd::slice::slice_subrange(self.buf.as_slice(), 0, self.pos)
    }

    /// Hands the buffer back, cut to the bytes read.
    pub fn into_buffer(self) -> (r: Vec<u8>)
        requires
            self.wf(),
        ensures
            r@ == self.read(),
    {
        let mut buf = self.buf;
        buf.truncate(self.pos);
        buf
    }

    /// Takes in the bytes of one read of the stream (empty where the peer
    /// closed its side) and says whether the head is complete, needs more,
    /// or cannot be read. Only the last three bytes of what came before are
    /// scanned again, so a sentinel split across reads is found.
    pub fn push(&mut self, data: &[u8]) -> (r: HeadStep)
        requires
            old(self).wf(),
            !old(self).finished(),
            data@.len() <= old(self).capacity() - old(self).read().len(),
        ensures
            final(self).wf(),
            final(self).capacity() == old(self).capacity(),
            final(self).read() == old(self).read() + data@,
            final(self).finished() <==> !(r is Pending),
            match r {
                HeadStep::Complete { total, split } => {
                    &&& total == final(self).read().len()
                    &&& is_head_end(final(self).read(), split as int)
                },
                HeadStep::Failed(HeadError::UnexpectedEof) => {
                    &&& !has_sentinel(final(self).read())
                    &&& data@.len() == 0
                },
                HeadStep::Failed(HeadError::HeaderTooLarge) => {
                    &&& !has_sentinel(final(self).read())
                    &&& data@.len() > 0
                    &&& final(self).read().len() == final(self).capacity()
                },
                HeadStep::Pending => {
                    &&& !has_sentinel(final(self).read())
                    &&& data@.len() > 0
                    &&& final(self).read().len() < final(self).capacity()
                },
            },
    {
        let ghost before = self.read();
        let start = self.pos;
        let backup: usize = if start < 3 {
            0
        } else {
            start - 3
        };
        let n = data.len();
        let cap = self.buf.len();
        assert(before.len() == start);
        assert(start + n <= cap);
        let mut j: usize = 0;
        while j < n
            invariant
                j <= n,
                n == data@.len(),
                start + n <= cap,
                cap == self.buf@.len(),
                self.pos == start,
                self.buf@.len() == old(self).buf@.len(),
                self.buf@.subrange(0, start as int) == before,
                forall|k: int| 0 <= k < j ==> self.buf@[start + k] == data@[k],
                self.done == old(self).done,
            decreases n - j,
        {
            self.buf.set(start + j, data[j]);
            j = j + 1;
        }
        self.pos = start + n;
        let ghost now = self.read();
        assert(now == before + data@) by {
            assert(now =~= before + data@);
        }
        assert(no_sentinel_before(now, backup as int)) by {
            assert forall|k: int| 0 <= k < backup implies !#[trigger] sentinel_at(now, k) by {
                if sentinel_at(now, k) {
                    assert(sentinel_at(before, k));
                }
            }
        }
        let mut i: usize = backup;
        let mut found = false;
        while i < self.pos && self.pos - i >= 4
            invariant_except_break
                !found,
            invariant
                backup <= i <= self.pos,
                self.pos <= self.buf@.len(),
                now == self.read(),
                no_sentinel_before(now, i as int),
            ensures
                i <= self.pos,
                now == self.read(),
                no_sentinel_before(now, i as int),
                found ==> sentinel_at(now, i as int),
                !found ==> self.pos - i < 4,
            decreases self.pos - i,
        {
            if self.buf[i] == 13u8 && self.buf[i + 1] == 10u8 && self.buf[i + 2] == 13u8
                && self.buf[i + 3] == 10u8 {
                found = true;
                break;
            }
            i = i + 1;
        }
        if found {
            self.done = true;
            return HeadStep::Complete { total: self.pos, split: i + 4 };
        }
        assert(!has_sentinel(now)) by {
            if has_sentinel(now) {
                let k = choose|k: int| #[trigger] sentinel_at(now, k);
                assert(k < i);
            }
        }
        if n == 0 {
            self.done = true;
            HeadStep::Failed(HeadError::UnexpectedEof)
        } else if self.pos == self.buf.len() {
            self.done = true;
            HeadStep::Failed(HeadError::HeaderTooLarge)
        } else {
            HeadStep::Pending
        }
    }
}

/// Starts reading a request head into `buf`, whose length is the ceiling.
pub fn read_http_header(buf: Vec<u8>) -> (r: ReadHttpHeader)
    ensures
        r.wf(),
        !r.finished(),
        r.read() == Seq::<u8>::empty(),
        r.capacity() == buf@.len(),
{
    let r = ReadHttpHeader { buf, pos: 0, done: false };
    assert(r.read() =~= Seq::<u8>::empty());
    r
}

} // verus!
