//! Page-aligned write buffers and their pool.
use vstd::prelude::*;

verus! {

/// The most buffers a pool keeps for reuse.
pub const POOL_LIMIT: usize = 16;

/// A requested capacity rounded up to a whole number of pages, at least one.
pub open spec fn aligned_capacity(capacity: usize) -> int {
    let c = if capacity >= 1 { capacity as int } else { 1 };
    (c + 4095) / 4096 * 4096
}

/// A zero-filled buffer whose capacity is a multiple of 4096 bytes, with a
/// count of the bytes in use.
pub struct AlignedBuffer {
    data: Vec<u8>,
    len: usize,
}

impl AlignedBuffer {
    /// The buffer's bytes, all of its capacity.
    pub closed spec fn content(&self) -> Seq<u8> {
        self.data@
    }

    /// The number of bytes in use.
    pub closed spec fn filled(&self) -> nat {
        self.len as nat
    }

    /// A buffer of `aligned_capacity(capacity)` zero bytes, none in use.
    pub fn new(capacity: usize) -> (r: Self)
        requires
            capacity <= usize::MAX - 4095,
        ensures
            r.content().len() == aligned_capacity(capacity),
            forall|i: int| 0 <= i < r.content().len() ==> #[trigger] r.content()[i] == 0,
            r.filled() == 0,
    {
        let c = if capacity >= 1 { capacity } else { 1 };
        let aligned = (c + 4095) / 4096 * 4096;
        let mut data: Vec<u8> = Vec::new();
        let mut i: usize = 0;
        while i < aligned
            invariant
                i <= aligned,
                data@.len() == i,
                forall|k: int| 0 <= k < i ==> #[trigger] data@[k] == 0,
            decreases aligned - i,
        {
            data.push(0u8);
            i += 1;
        }
        AlignedBuffer { data, len: 0 }
    }

    /// All of the buffer, for writing into.
    pub fn as_mut_slice(&mut self) -> (r: &mut [u8])
        ensures
            r@ == old(self).content(),
            final(self).content() == final(r)@,
            final(self).filled() == old(self).filled(),
    {
        self.data.as_mut_slice()
    }

    /// The bytes in use.
    pub fn as_slice(&self) -> (r: &[u8])
        requires
            self.filled() <= self.content().len(),
        ensures
            r@ == self.content().take(self.filled() as int),
    {
        vstd::slice::slice_subrange(self.data.as_slice(), 0, self.len)
    }

    /// Sets the number of bytes in use.
    pub fn set_len(&mut self, len: usize)
        ensures
            final(self).content() == old(self).content(),
            final(self).filled() == len,
    {
        self.len = len;
    }

    /// The capacity in bytes.
    pub fn capacity(&self) -> (r: usize)
        ensures
            r == self.content().len(),
    {
        self.data.len()
    }

    /// Whether the bytes in use reach the capacity.
    pub fn is_full(&self) -> (r: bool)
        ensures
            r == (self.filled() >= self.content().len()),
    {
        self.len >= self.data.len()
    }

    /// The capacity not in use.
    pub fn remaining(&self) -> (r: usize)
        requires
            self.filled() <= self.content().len(),
        ensures
            r == self.content().len() - self.filled(),
    {
        self.data.len() - self.len
    }

    /// Marks no byte as in use.
    pub fn clear(&mut self)
        ensures
            final(self).content() == old(self).content(),
            final(self).filled() == 0,
    {
        self.len = 0;
    }
}

/// A pool of buffers for reuse: at most 16, all cleared.
pub struct AlignedBufferPool {
    pool: Vec<AlignedBuffer>,
    buf_size: usize,
}

impl AlignedBufferPool {
    #[verifier::type_invariant]
    spec fn inv(self) -> bool {
        &&& self.pool@.len() <= POOL_LIMIT
        &&& forall|i: int| 0 <= i < self.pool@.len() ==> (#[trigger] self.pool@[i]).filled() == 0
    }

    /// The buffers held for reuse; the last is handed out first.
    pub closed spec fn buffers(&self) -> Seq<AlignedBuffer> {
        self.pool@
    }

    /// The capacity requested for new buffers.
    pub closed spec fn buffer_size(&self) -> usize {
        self.buf_size
    }

    /// An empty pool for buffers of `buf_size` bytes.
    pub fn new(buf_size: usize) -> (r: Self)
        ensures
            r.buffers() == Seq::<AlignedBuffer>::empty(),
            r.buffer_size() == buf_size,
    {
        AlignedBufferPool { pool: Vec::new(), buf_size }
    }

    /// The number of buffers held for reuse.
    pub fn pooled(&self) -> (r: usize)
        ensures
            r == self.buffers().len(),
    {
        self.pool.len()
    }

    /// Hands out the most recently returned buffer, or a new one when the
    /// pool is empty. The buffer has no byte in use.
    pub fn acquire(&mut self) -> (r: AlignedBuffer)
        requires
            old(self).buffers().len() == 0 ==> old(self).buffer_size() <= usize::MAX - 4095,
        ensures
            final(self).buffer_size() == old(self).buffer_size(),
            r.filled() == 0,
            old(self).buffers().len() > 0 ==> {
                &&& r == old(self).buffers().last()
                &&& final(self).buffers() == old(self).buffers().drop_last()
            },
            old(self).buffers().len() == 0 ==> {
                &&& r.content().len() == aligned_capacity(old(self).buffer_size())
                &&& forall|i: int| 0 <= i < r.content().len() ==> #[trigger] r.content()[i] == 0
                &&& final(self).buffers() == old(self).buffers()
            },
    {
        proof {
            use_type_invariant(&*self);
        }
        let mut pool = Vec::new();
        std::mem::swap(&mut pool, &mut self.pool);
        let got = pool.pop();
        self.pool = pool;
        match got {
            Some(buf) => buf,
            None => AlignedBuffer::new(self.buf_size),
        }
    }

    /// Takes a buffer back: clears it and keeps it when the pool holds fewer
    /// than 16 buffers; otherwise drops it.
    pub fn release(&mut self, buf: AlignedBuffer)
        ensures
            final(self).buffer_size() == old(self).buffer_size(),
            old(self).buffers().len() < POOL_LIMIT ==> {
                &&& final(self).buffers().len() == old(self).buffers().len() + 1
                &&& final(self).buffers().drop_last() == old(self).buffers()
                &&& final(self).buffers().last().content() == buf.content()
                &&& final(self).buffers().last().filled() == 0
            },
            old(self).buffers().len() >= POOL_LIMIT ==> final(self).buffers() == old(self).buffers(),
            final(self).buffers().len() <= POOL_LIMIT,
            forall|i: int| 0 <= i < final(self).buffers().len() ==> (#[trigger] final(self).buffers()[i]).filled() == 0,
    {
        proof {
            use_type_invariant(&*self);
        }
        let mut buf = buf;
        buf.clear();
        if self.pool.len() < POOL_LIMIT {
            let mut pool = Vec::new();
            std::mem::swap(&mut pool, &mut self.pool);
            pool.push(buf);
            proof {
                assert(pool@.drop_last() =~= old(self).pool@);
            }
            self.pool = pool;
        }
    }
}

} // verus!
