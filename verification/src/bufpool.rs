//! Reusable canvas byte buffers.
//!
//! A `CanvasPool` keeps a bounded list of spare buffers so that repeated
//! renders do not pay for a fresh allocation each time. Every buffer handed
//! out is zeroed to exactly the requested size, whether it came from the
//! pool or fresh from the allocator.

use vstd::prelude::*;

verus! {

/// How many spare buffers a pool retains at most.
pub const MAX_POOLED: usize = 8;

/// A bounded list of reusable canvas buffers.
pub struct CanvasPool {
    buffers: Vec<Vec<u8>>,
}

/// A zeroed byte sequence of the given length.
pub open spec fn zeroed(n: nat) -> Seq<u8> {
    Seq::new(n, |i: int| 0u8)
}

impl CanvasPool {
    /// How many spare buffers the pool currently holds.
    pub closed spec fn spec_pooled(&self) -> nat {
        self.buffers@.len()
    }

    /// Create an empty pool.
    pub fn new() -> (p: CanvasPool)
        ensures
            p.spec_pooled() == 0,
    {
        CanvasPool { buffers: Vec::new() }
    }

    /// Get a buffer of exactly the requested size, zeroed, reusing a pooled
    /// buffer when one is available.
    pub fn get(&mut self, size: usize) -> (r: Vec<u8>)
        ensures
            r@ == zeroed(size as nat),
            final(self).spec_pooled() == if old(self).spec_pooled() > 0 {
                old(self).spec_pooled() - 1
            } else {
                0int
            },
    {
        let mut buf = match self.buffers.pop() {
            Some(b) => b,
            None => Vec::new(),
        };
        buf.clear();
        let mut i: usize = 0;
        while i < size
            invariant
                i <= size,
                buf@ == zeroed(i as nat),
            decreases size - i,
        {
            buf.push(0);
            proof {
                assert(buf@ =~= zeroed(i as nat + 1));
            }
            i = i + 1;
        }
        proof {
            assert(buf@ =~= zeroed(size as nat));
        }
        buf
    }

    /// Return a buffer to the pool for reuse; the buffer is cleared, and
    /// dropped instead when the pool is full.
    pub fn put(&mut self, buf: Vec<u8>)
        ensures
            final(self).spec_pooled() == if old(self).spec_pooled() < MAX_POOLED {
                old(self).spec_pooled() + 1
            } else {
                old(self).spec_pooled()
            },
    {
        let mut buf = buf;
        if self.buffers.len() < MAX_POOLED {
            buf.clear();
            self.buffers.push(buf);
        }
    }
}

/// Get a zeroed canvas buffer of the given size from a pool.
pub fn get_canvas_buffer(pool: &mut CanvasPool, size: usize) -> (r: Vec<u8>)
    ensures
        r@ == zeroed(size as nat),
{
    pool.get(size)
}

/// Return a canvas buffer to a pool for reuse.
pub fn return_canvas_buffer(pool: &mut CanvasPool, buf: Vec<u8>)
    ensures
        final(pool).spec_pooled() == if old(pool).spec_pooled() < MAX_POOLED {
            old(pool).spec_pooled() + 1
        } else {
            old(pool).spec_pooled()
        },
{
    pool.put(buf)
}

/// A canvas buffer handed out for one render. Taking the buffer out keeps
/// it from returning to a pool; releasing it hands it back explicitly.
pub struct PooledBuffer {
    buf: Option<Vec<u8>>,
}

impl PooledBuffer {
    /// Whether the buffer is still held (not yet taken).
    pub closed spec fn is_held(&self) -> bool {
        self.buf is Some
    }

    /// The held bytes.
    pub closed spec fn spec_buf(&self) -> Seq<u8> {
        self.buf->0@
    }

    /// Allocate a fresh zeroed buffer of the given size.
    pub fn new(size: usize) -> (r: PooledBuffer)
        ensures
            r.is_held(),
            r.spec_buf() == zeroed(size as nat),
    {
        let mut buf: Vec<u8> = Vec::new();
        let mut i: usize = 0;
        while i < size
            invariant
                i <= size,
                buf@ == zeroed(i as nat),
            decreases size - i,
        {
            buf.push(0);
            proof {
                assert(buf@ =~= zeroed(i as nat + 1));
            }
            i = i + 1;
        }
        proof {
            assert(buf@ =~= zeroed(size as nat));
        }
        PooledBuffer { buf: Some(buf) }
    }

    /// Take a zeroed buffer out of a pool.
    pub fn from_pool(pool: &mut CanvasPool, size: usize) -> (r: PooledBuffer)
        ensures
            r.is_held(),
            r.spec_buf() == zeroed(size as nat),
    {
        PooledBuffer { buf: Some(pool.get(size)) }
    }

    /// Mutable access to the held buffer.
    pub fn as_mut(&mut self) -> (r: &mut Vec<u8>)
        requires
            old(self).is_held(),
        ensures
            r@ == old(self).spec_buf(),
            final(self).is_held(),
            final(self).spec_buf() == final(r)@,
    {
        match &mut self.buf {
            Some(b) => b,
            None => {
                proof {
                    assert(false);
                }
                vstd::pervasive::unreached()
            },
        }
    }

    /// Shared access to the held buffer.
    pub fn as_ref(&self) -> (r: &Vec<u8>)
        requires
            self.is_held(),
        ensures
            r@ == self.spec_buf(),
    {
        match &self.buf {
            Some(b) => b,
            None => {
                proof {
                    assert(false);
                }
                vstd::pervasive::unreached()
            },
        }
    }

    /// Take ownership of the buffer, preventing any return to a pool.
    pub fn take(self) -> (r: Vec<u8>)
        requires
            self.is_held(),
        ensures
            r@ == self.spec_buf(),
    {
        match self.buf {
            Some(b) => b,
            None => {
                proof {
                    assert(false);
                }
                vstd::pervasive::unreached()
            },
        }
    }

    /// Hand the buffer back to a pool. A buffer already taken is gone and
    /// nothing is returned.
    pub fn release(self, pool: &mut CanvasPool) {
        match self.buf {
            Some(b) => pool.put(b),
            None => {},
        }
    }
}

} // verus!
