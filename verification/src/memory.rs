//! Memory accounting for batch processing.
//!
//! A `MemoryTracker` counts bytes in flight against a hard limit and keeps a
//! high-water mark; pools and the batch processor size their work from it.
//! Sharing across workers is the caller's concern: the tracker itself is a
//! plain value mutated through exclusive references.

use vstd::prelude::*;
use vstd::string::StringExecFns;

use crate::errors::Error;
use crate::strutil::{append_decimal, decimal_chars};

verus! {

/// Memory accounting: current usage, high-water mark, and a hard limit, all
/// in bytes.
pub struct MemoryTracker {
    current: usize,
    peak: usize,
    limit: usize,
}

impl MemoryTracker {
    /// Bytes currently accounted for.
    pub closed spec fn spec_current(&self) -> usize {
        self.current
    }

    /// The high-water mark.
    pub closed spec fn spec_peak(&self) -> usize {
        self.peak
    }

    /// The hard limit in bytes.
    pub closed spec fn spec_limit(&self) -> usize {
        self.limit
    }

    /// The tracker never accounts for more than its limit, and the peak
    /// never falls below the current usage.
    pub open spec fn wf(&self) -> bool {
        &&& self.spec_current() <= self.spec_limit()
        &&& self.spec_current() <= self.spec_peak()
    }

    /// Create a tracker with a limit given in whole mebibytes.
    pub fn new(limit_mb: usize) -> (t: MemoryTracker)
        requires
            limit_mb * 1024 * 1024 <= usize::MAX,
        ensures
            t.wf(),
            t.spec_current() == 0,
            t.spec_peak() == 0,
            t.spec_limit() == limit_mb * 1024 * 1024,
    {
        MemoryTracker { current: 0, peak: 0, limit: limit_mb * 1024 * 1024 }
    }

    /// Account for an allocation. Accepted exactly when the new total stays
    /// within the limit; on rejection nothing changes.
    pub fn allocate(&mut self, bytes: usize) -> (r: Result<(), Error>)
        requires
            old(self).wf(),
        ensures
            final(self).wf(),
            final(self).spec_limit() == old(self).spec_limit(),
            r.is_ok() <==> old(self).spec_current() + bytes <= old(self).spec_limit(),
            r.is_ok() ==> final(self).spec_current() == old(self).spec_current() + bytes
                && final(self).spec_peak() == if old(self).spec_current() + bytes > old(
                self,
            ).spec_peak() {
                old(self).spec_current() + bytes
            } else {
                old(self).spec_peak() as int
            },
            r.is_err() ==> *final(self) == *old(self) && r->Err_0 is Internal,
    {
        if bytes > self.limit - self.current {
            return Err(Error::Internal { reason: String::from_str("Memory limit exceeded") });
        }
        self.current = self.current + bytes;
        if self.current > self.peak {
            self.peak = self.current;
        }
        Ok(())
    }

    /// Account for a deallocation; usage never goes below zero.
    pub fn deallocate(&mut self, bytes: usize)
        requires
            old(self).wf(),
        ensures
            final(self).wf(),
            final(self).spec_limit() == old(self).spec_limit(),
            final(self).spec_peak() == old(self).spec_peak(),
            final(self).spec_current() == if bytes <= old(self).spec_current() {
                old(self).spec_current() - bytes
            } else {
                0int
            },
    {
        if bytes <= self.current {
            self.current = self.current - bytes;
        } else {
            self.current = 0;
        }
    }

    /// Bytes currently accounted for.
    pub fn current_usage(&self) -> (r: usize)
        ensures
            r == self.spec_current(),
    {
        self.current
    }

    /// The high-water mark since construction or the last reset.
    pub fn peak_usage(&self) -> (r: usize)
        ensures
            r == self.spec_peak(),
    {
        self.peak
    }

    /// The hard limit in bytes.
    pub fn limit(&self) -> (r: usize)
        ensures
            r == self.spec_limit(),
    {
        self.limit
    }

    /// A human-readable summary: current, limit, and peak in whole
    /// mebibytes.
    pub fn stats(&self) -> (r: String)
        ensures
            r@ == "Memory: "@ + decimal_chars(self.spec_current() as int / (1024int * 1024)) + " MB / "@
                + decimal_chars(self.spec_limit() as int / (1024int * 1024)) + " MB (peak: "@
                + decimal_chars(self.spec_peak() as int / (1024int * 1024)) + " MB)"@,
    {
        let mut s = String::from_str("Memory: ");
        append_decimal((self.current / (1024 * 1024)) as u64, &mut s);
        s.append(" MB / ");
        append_decimal((self.limit / (1024 * 1024)) as u64, &mut s);
        s.append(" MB (peak: ");
        append_decimal((self.peak / (1024 * 1024)) as u64, &mut s);
        s.append(" MB)");
        s
    }

    /// Reset the high-water mark to the current usage.
    pub fn reset_peak(&mut self)
        requires
            old(self).wf(),
        ensures
            final(self).wf(),
            final(self).spec_peak() == old(self).spec_current(),
            final(self).spec_current() == old(self).spec_current(),
            final(self).spec_limit() == old(self).spec_limit(),
    {
        self.peak = self.current;
    }
}

/// A scoped allocation: registering it accounts for the bytes, releasing it
/// gives them back.
pub struct MemoryGuard {
    /// Bytes this guard accounts for.
    pub bytes: usize,
}

impl MemoryGuard {
    /// Register an allocation with the tracker. Accepted exactly when the
    /// tracker accepts the bytes.
    pub fn new(tracker: &mut MemoryTracker, bytes: usize) -> (r: Result<MemoryGuard, Error>)
        requires
            old(tracker).wf(),
        ensures
            final(tracker).wf(),
            r.is_ok() <==> old(tracker).spec_current() + bytes <= old(tracker).spec_limit(),
            r matches Ok(g) ==> g.bytes == bytes && final(tracker).spec_current() == old(
                tracker,
            ).spec_current() + bytes,
            r.is_err() ==> *final(tracker) == *old(tracker),
    {
        match tracker.allocate(bytes) {
            Ok(()) => Ok(MemoryGuard { bytes }),
            Err(e) => Err(e),
        }
    }

    /// Release the guarded bytes back to the tracker.
    pub fn release(self, tracker: &mut MemoryTracker)
        requires
            old(tracker).wf(),
        ensures
            final(tracker).wf(),
            final(tracker).spec_current() == if self.bytes <= old(tracker).spec_current() {
                old(tracker).spec_current() - self.bytes
            } else {
                0int
            },
    {
        tracker.deallocate(self.bytes);
    }
}

/// A pool of equally sized zeroed chunks, accounted against a tracker.
pub struct MemoryPool {
    chunk_size: usize,
    free_chunks: Vec<Vec<u8>>,
}

impl MemoryPool {
    /// The chunk size this pool serves.
    pub closed spec fn spec_chunk_size(&self) -> usize {
        self.chunk_size
    }

    /// How many spare chunks the pool holds.
    pub closed spec fn spec_free(&self) -> nat {
        self.free_chunks@.len()
    }

    /// The spare chunks, each as its byte sequence.
    pub closed spec fn spec_chunks(&self) -> Seq<Seq<u8>> {
        self.free_chunks@.map_values(|c: Vec<u8>| c@)
    }

    /// Every spare chunk is zeroed at the pool's chunk size.
    pub open spec fn wf(&self) -> bool {
        forall|i: int|
            0 <= i < self.spec_chunks().len() ==> #[trigger] self.spec_chunks()[i]
                == crate::bufpool::zeroed(self.spec_chunk_size() as nat)
    }

    /// Create an empty pool serving chunks of the given size.
    pub fn new(chunk_size: usize) -> (p: MemoryPool)
        ensures
            p.wf(),
            p.spec_chunk_size() == chunk_size,
            p.spec_free() == 0,
    {
        MemoryPool { chunk_size, free_chunks: Vec::new() }
    }

    /// Take a zeroed chunk, reusing a spare one or accounting for a fresh
    /// allocation with the tracker. Fails exactly when a fresh allocation is
    /// needed and the tracker rejects it.
    pub fn allocate(&mut self, tracker: &mut MemoryTracker) -> (r: Result<Vec<u8>, Error>)
        requires
            old(self).wf(),
            old(tracker).wf(),
        ensures
            final(self).wf(),
            final(tracker).wf(),
            final(self).spec_chunk_size() == old(self).spec_chunk_size(),
            r matches Ok(c) ==> c@ == crate::bufpool::zeroed(old(self).spec_chunk_size() as nat),
            r.is_ok() <==> (old(self).spec_free() > 0 || old(tracker).spec_current() + old(
                self,
            ).spec_chunk_size() <= old(tracker).spec_limit()),
            old(self).spec_free() > 0 ==> *final(tracker) == *old(tracker),
    {
        match self.free_chunks.pop() {
            Some(chunk) => {
                proof {
                    assert(old(self).spec_chunks()[old(self).spec_chunks().len() - 1]
                        == crate::bufpool::zeroed(old(self).spec_chunk_size() as nat));
                    assert(chunk@ == old(self).spec_chunks()[old(self).spec_chunks().len() - 1]);
                    assert(self.spec_chunks() =~= old(self).spec_chunks().drop_last());
                    assert forall|i: int|
                        0 <= i < self.spec_chunks().len() implies #[trigger] self.spec_chunks()[i]
                        == crate::bufpool::zeroed(self.spec_chunk_size() as nat) by {
                        assert(self.spec_chunks()[i] == old(self).spec_chunks()[i]);
                    }
                }
                Ok(chunk)
            },
            None => {
                match tracker.allocate(self.chunk_size) {
                    Ok(()) => {
                        let mut buf: Vec<u8> = Vec::new();
                        let size = self.chunk_size;
                        let mut i: usize = 0;
                        while i < size
                            invariant
                                i <= size,
                                buf@ == crate::bufpool::zeroed(i as nat),
                            decreases size - i,
                        {
                            buf.push(0);
                            proof {
                                assert(buf@ =~= crate::bufpool::zeroed(i as nat + 1));
                            }
                            i = i + 1;
                        }
                        proof {
                            assert(buf@ =~= crate::bufpool::zeroed(size as nat));
                        }
                        Ok(buf)
                    },
                    Err(e) => Err(e),
                }
            },
        }
    }

    /// Return a chunk to the pool, re-zeroed at the chunk size.
    pub fn deallocate(&mut self, chunk: Vec<u8>)
        requires
            old(self).wf(),
        ensures
            final(self).wf(),
            final(self).spec_chunk_size() == old(self).spec_chunk_size(),
            final(self).spec_free() == old(self).spec_free() + 1,
    {
        let mut chunk = chunk;
        chunk.clear();
        let size = self.chunk_size;
        let mut i: usize = 0;
        while i < size
            invariant
                i <= size,
                chunk@ == crate::bufpool::zeroed(i as nat),
            decreases size - i,
        {
            chunk.push(0);
            proof {
                assert(chunk@ =~= crate::bufpool::zeroed(i as nat + 1));
            }
            i = i + 1;
        }
        proof {
            assert(chunk@ =~= crate::bufpool::zeroed(size as nat));
        }
        self.free_chunks.push(chunk);
        proof {
            assert(self.spec_chunks() =~= old(self).spec_chunks().push(
                crate::bufpool::zeroed(old(self).spec_chunk_size() as nat),
            ));
            assert forall|i: int|
                0 <= i < self.spec_chunks().len() implies #[trigger] self.spec_chunks()[i]
                == crate::bufpool::zeroed(self.spec_chunk_size() as nat) by {
                if i < self.spec_chunks().len() - 1 {
                    assert(self.spec_chunks()[i] == old(self).spec_chunks()[i]);
                }
            }
        }
    }

    /// Drop every spare chunk and give its bytes back to the tracker.
    pub fn clear(&mut self, tracker: &mut MemoryTracker)
        requires
            old(self).wf(),
            old(tracker).wf(),
        ensures
            final(self).wf(),
            final(tracker).wf(),
            final(self).spec_free() == 0,
            final(self).spec_chunk_size() == old(self).spec_chunk_size(),
    {
        loop
            invariant
                self.wf(),
                tracker.wf(),
                self.spec_chunk_size() == old(self).spec_chunk_size(),
            ensures
                self.spec_free() == 0,
            decreases self.spec_free(),
        {
            let ghost pre = self.spec_chunks();
            match self.free_chunks.pop() {
                Some(_) => {
                    tracker.deallocate(self.chunk_size);
                    proof {
                        assert(self.spec_chunks() =~= pre.drop_last());
                        assert forall|i: int|
                            0 <= i < self.spec_chunks().len() implies #[trigger] self.spec_chunks()[i]
                            == crate::bufpool::zeroed(self.spec_chunk_size() as nat) by {
                            assert(self.spec_chunks()[i] == pre[i]);
                        }
                    }
                },
                None => {
                    break ;
                },
            }
        }
    }
}

/// Relies on num_cpus::get, which reports the number of logical CPUs and is
/// documented to return at least one.
#[verifier::external_body]
fn cpu_count() -> (n: usize)
    ensures
        n >= 1,
{
    num_cpus::get()
}

/// Sizes batches of work against the tracker's headroom.
pub struct BatchProcessor {
    batch_size: usize,
    max_concurrent: usize,
}

impl BatchProcessor {
    /// The configured batch size cap.
    pub closed spec fn spec_batch_size(&self) -> usize {
        self.batch_size
    }

    /// The worker ceiling derived from the machine's CPU count.
    pub closed spec fn spec_max_concurrent(&self) -> usize {
        self.max_concurrent
    }

    /// Create a processor with a batch-size cap; the worker ceiling is the
    /// CPU count, capped at eight.
    pub fn new(batch_size: usize) -> (p: BatchProcessor)
        ensures
            p.spec_batch_size() == batch_size,
            1 <= p.spec_max_concurrent() <= 8,
    {
        let cpus = cpu_count();
        let max_concurrent = if cpus < 8 {
            cpus
        } else {
            8
        };
        BatchProcessor { batch_size, max_concurrent }
    }

    /// The largest batch that fits in the tracker's remaining headroom, given
    /// an estimated size per item, capped at the configured batch size.
    pub fn optimal_batch_size(&self, tracker: &MemoryTracker, item_size_estimate: usize) -> (r:
        usize)
        requires
            tracker.wf(),
            item_size_estimate > 0,
        ensures
            r == vstd::math::min(
                (tracker.spec_limit() - tracker.spec_current()) as int / item_size_estimate as int,
                self.spec_batch_size() as int,
            ),
    {
        let available = tracker.limit() - tracker.current_usage();
        let max_items = available / item_size_estimate;
        if max_items < self.batch_size {
            max_items
        } else {
            self.batch_size
        }
    }

    /// Whether the next batch fits while keeping a twenty percent headroom
    /// under the limit.
    pub fn can_process_batch(&self, tracker: &MemoryTracker, estimated_size: usize) -> (r: bool)
        requires
            tracker.wf(),
        ensures
            r == (tracker.spec_current() + estimated_size < (tracker.spec_limit() as int * 80)
                / 100),
    {
        let current = tracker.current_usage() as u128;
        let limit = tracker.limit() as u128;
        let threshold = limit * 80 / 100;
        current + (estimated_size as u128) < threshold
    }

    /// How many workers to run given memory pressure: everything below half
    /// usage, half the workers below seventy percent, one otherwise.
    pub fn concurrent_workers(&self, tracker: &MemoryTracker) -> (r: usize)
        requires
            tracker.wf(),
        ensures
            r == if 2 * tracker.spec_current() < tracker.spec_limit() {
                self.spec_max_concurrent() as int
            } else if 10 * tracker.spec_current() < 7 * tracker.spec_limit() {
                self.spec_max_concurrent() as int / 2
            } else {
                1int
            },
    {
        let current = tracker.current_usage() as u128;
        let limit = tracker.limit() as u128;
        if 2 * current < limit {
            self.max_concurrent
        } else if 10 * current < 7 * limit {
            self.max_concurrent / 2
        } else {
            1
        }
    }
}

} // verus!
