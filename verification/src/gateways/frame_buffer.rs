//! Fixed buffer that collects the chunks of a message.

use vstd::prelude::*;

verus! {

broadcast use vstd::array::group_array_axioms;

/// Buffer of `N` bytes, followed by `P` bytes of padding.
#[derive(Debug)]
pub struct FrameBuffer<const N: usize, const P: usize> {
    /// Bytes; those from `len` on are not used.
    pub data: [u8; N],
    /// Number of bytes held.
    pub len: usize,
    /// Fills the cache line.
    pub pad: [u8; P],
}

impl<const N: usize, const P: usize> FrameBuffer<N, P> {
    /// The bytes held fit.
    pub open spec fn wf(&self) -> bool {
        self.len <= N
    }

    /// Bytes held.
    pub open spec fn content(&self) -> Seq<u8> {
        self.data@.take(self.len as int)
    }

    /// Empty buffer.
    pub fn new() -> (r: Self)
        ensures
            r.wf(),
            r.len == 0,
            r.content() == Seq::<u8>::empty(),
    {
        FrameBuffer {
            data: vstd::array::array_fill_for_copy_types(0u8),
            len: 0,
            pad: vstd::array::array_fill_for_copy_types(0u8),
        }
    }

    /// Drop all bytes.
    pub fn clear(&mut self)
        ensures
            *final(self) == (FrameBuffer { len: 0, ..*old(self) }),
            final(self).content() == Seq::<u8>::empty(),
    {
        self.len = 0;
    }

    /// Append a chunk. Gives `false`, changing nothing, if it does not fit.
    pub fn write(&mut self, chunk: &[u8]) -> (r: bool)
        requires
            old(self).wf(),
        ensures
            final(self).wf(),
            r == (old(self).len + chunk@.len() <= N),
            r ==> final(self).content() == old(self).content() + chunk@,
            r ==> final(self).len == old(self).len + chunk@.len(),
            !r ==> *final(self) == *old(self),
    {
        let n: usize = chunk.len();
        if n > N - self.len {
            return false;
        }
        let start: usize = self.len;
        let mut i: usize = 0;
        while i < n
            invariant
                i <= n == chunk@.len(),
                start == old(self).len,
                start + n <= N,
                *self == (FrameBuffer { data: self.data, ..*old(self) }),
                self.data@.take(start + i) == old(self).content() + chunk@.take(i as int),
            decreases n - i,
        {
            let ghost before = self.data@.take(start + i);
            self.data[start + i] = chunk[i];
            assert forall|j: int| 0 <= j < start + i implies self.data@[j] == before[j] by {}
            assert(self.data@.take(start + i + 1) =~= before.push(chunk@[i as int]));
            assert(old(self).content() + chunk@.take(i + 1) =~= before.push(chunk@[i as int]));
            i = i + 1;
        }
        self.len = start + n;
        assert(chunk@.take(n as int) =~= chunk@);
        true
    }

    /// Append a chunk, dropping what is held if the chunk does not fit behind it. A
    /// chunk larger than the buffer leaves it empty.
    pub fn receive(&mut self, chunk: &[u8])
        requires
            old(self).wf(),
        ensures
            final(self).wf(),
            final(self).content() == if old(self).len + chunk@.len() <= N {
                old(self).content() + chunk@
            } else if chunk@.len() <= N {
                chunk@
            } else {
                Seq::empty()
            },
    {
        if !self.write(chunk) {
            self.clear();
            let done = self.write(chunk);
            assert(Seq::<u8>::empty() + chunk@ =~= chunk@);
        }
    }

    /// Bytes held.
    pub fn as_slice(&self) -> (r: &[u8])
        requires
            self.wf(),
        ensures
            r@ == self.content(),
    {
        vstd::slice::slice_subrange(self.data.as_slice(), 0, self.len)
    }
}

} // verus!
