//! The memory subsystem's rules: owned byte blocks, the tier table of the
//! reusable decompression buffers, and the accounting that warns on
//! crossing the soft memory cap. Mapping files and parking buffers in
//! pools happen outside; sizes and tier choices are decided here.

use vstd::prelude::*;
use crate::parser::{sat_add, usize_sat_add};

verus! {

/// An owned byte block with shared read access.
#[derive(Debug)]
pub struct MemoryBlock {
    /// The bytes.
    data: Vec<u8>,
}

impl MemoryBlock {
    /// The block's bytes.
    pub closed spec fn view(&self) -> Seq<u8> {
        self.data@
    }

    /// Wraps bytes in a block.
    pub fn new(data: Vec<u8>) -> (r: MemoryBlock)
        ensures
            r.view() == data@,
    {
        MemoryBlock { data }
    }

    /// The bytes, read-only.
    pub fn as_slice(&self) -> (r: &[u8])
        ensures
            r@ == self.view(),
    {
        self.data.as_slice()
    }

    /// The bytes and their length, as a slice view and a count.
    pub fn as_ptr_and_len(&self) -> (r: (&[u8], usize))
        ensures
            r.0@ == self.view(),
            r.1 == self.view().len(),
    {
        (self.data.as_slice(), self.data.len())
    }

    /// How many bytes the block holds.
    pub fn len(&self) -> (r: usize)
        ensures
            r == self.view().len(),
    {
        self.data.len()
    }

    /// Whether the block is empty.
    pub fn is_empty(&self) -> (r: bool)
        ensures
            r == (self.view().len() == 0),
    {
        self.data.is_empty()
    }

    /// Writes one byte of the block.
    pub fn set(&mut self, i: usize, b: u8)
        requires
            i < old(self).view().len(),
        ensures
            final(self).view() == old(self).view().update(i as int, b),
    {
        self.data.set(i, b);
    }

    /// Appends bytes to the block.
    pub fn put_slice(&mut self, src: &[u8])
        ensures
            final(self).view() == old(self).view() + src@,
    {
        let mut i: usize = 0;
        while i < src.len()
            invariant
                i <= src@.len(),
                self.view() == old(self).view() + src@.subrange(0, i as int),
            decreases src@.len() - i,
        {
            self.data.push(src[i]);
            proof {
                assert(old(self).view() + src@.subrange(0, i as int) + seq![src@[i as int]]
                    =~= old(self).view() + src@.subrange(0, i + 1));
            }
            i = i + 1;
        }
        proof {
            assert(src@.subrange(0, src@.len() as int) =~= src@);
        }
    }

    /// Empties the block.
    pub fn clear(&mut self)
        ensures
            final(self).view() == Seq::<u8>::empty(),
    {
        self.data.clear();
    }
}

/// A window into a shared file mapping: an offset and a length that always
/// lie within the mapping. The mapping's bytes live outside; the window is
/// the arithmetic the sharing relies on.
#[derive(Clone, Copy, Debug, PartialEq, Eq)]
pub struct FileWindow {
    /// Offset of the window in the mapping.
    pub offset: usize,
    /// Length of the window.
    pub length: usize,
    /// Length of the whole mapping.
    pub mapping_len: usize,
}

impl FileWindow {
    /// A window never reaches past its mapping.
    pub open spec fn wf(self) -> bool {
        self.offset + self.length <= self.mapping_len
    }

    /// The window over a whole mapping.
    pub fn whole(mapping_len: usize) -> (r: FileWindow)
        ensures
            r.wf(),
            r.offset == 0,
            r.length == mapping_len,
            r.mapping_len == mapping_len,
    {
        FileWindow { offset: 0, length: mapping_len, mapping_len }
    }

    /// A sub-window over the same mapping; slicing out of range is refused.
    pub fn sub(&self, offset: usize, length: usize) -> (r: Option<FileWindow>)
        requires
            self.wf(),
        ensures
            offset + length <= self.length ==> (r matches Some(w) && w.wf() && w.offset
                == self.offset + offset && w.length == length && w.mapping_len
                == self.mapping_len),
            offset + length > self.length ==> r is None,
    {
        if length > self.length || offset > self.length - length {
            return None;
        }
        Some(
            FileWindow {
                offset: self.offset + offset,
                length,
                mapping_len: self.mapping_len,
            },
        )
    }

    /// How many bytes the window covers.
    pub fn len(&self) -> (r: usize)
        ensures
            r == self.length,
    {
        self.length
    }

    /// Whether the window is empty.
    pub fn is_empty(&self) -> (r: bool)
        ensures
            r == (self.length == 0),
    {
        self.length == 0
    }
}

/// Memory-pool configuration.
#[derive(Clone, Debug)]
pub struct MemoryPoolConfig {
    /// Tier capacities of the decompression buffers, ascending.
    pub decompress_buffer_sizes: Vec<usize>,
    /// Soft cap on mapped bytes; crossing it warns, never fails.
    pub max_memory_usage: usize,
    /// How often each tier is touched at startup.
    pub prewarm_per_tier: usize,
}

impl MemoryPoolConfig {
    /// A well-formed configuration lists its tiers in ascending order.
    pub open spec fn wf(self) -> bool {
        forall|i: int, j: int|
            0 <= i < j < self.decompress_buffer_sizes@.len()
                ==> self.decompress_buffer_sizes@[i] <= self.decompress_buffer_sizes@[j]
    }
}

impl Default for MemoryPoolConfig {
    /// The default tiers: 16 KiB, 64 KiB, 256 KiB and 1 MiB buffers under a
    /// 2 GiB soft cap, without prewarming.
    fn default() -> (r: MemoryPoolConfig)
        ensures
            r.decompress_buffer_sizes@.len() == 4,
            r.decompress_buffer_sizes@[0] == 0x4000,
            r.decompress_buffer_sizes@[1] == 0x10000,
            r.decompress_buffer_sizes@[2] == 0x40000,
            r.decompress_buffer_sizes@[3] == 0x100000,
            r.max_memory_usage == 0x80000000,
            r.prewarm_per_tier == 0,
            r.wf(),
    {
        let mut sizes: Vec<usize> = Vec::new();
        sizes.push(0x4000);
        sizes.push(0x10000);
        sizes.push(0x40000);
        sizes.push(0x100000);
        let r = MemoryPoolConfig {
            decompress_buffer_sizes: sizes,
            max_memory_usage: 0x80000000,
            prewarm_per_tier: 0,
        };
        proof {
            assert(r.wf());
        }
        r
    }
}

/// Picks the tier for a requested size: the smallest tier that fits, or the
/// largest where none fits.
pub fn select_tier(tiers: &Vec<usize>, size: usize) -> (r: Option<usize>)
    ensures
        tiers@.len() == 0 ==> r is None,
        tiers@.len() > 0 ==> (r matches Some(i) && i < tiers@.len() && ({
            ||| (tiers@[i as int] >= size && forall|j: int| 0 <= j < i ==> tiers@[j] < size)
            ||| (i == tiers@.len() - 1 && forall|j: int|
                0 <= j < tiers@.len() ==> tiers@[j] < size)
        })),
{
    if tiers.len() == 0 {
        return None;
    }
    let mut i: usize = 0;
    while i < tiers.len()
        invariant
            i <= tiers@.len(),
            forall|j: int| 0 <= j < i ==> tiers@[j] < size,
        decreases tiers@.len() - i,
    {
        if tiers[i] >= size {
            return Some(i);
        }
        i = i + 1;
    }
    Some(tiers.len() - 1)
}

/// Where a handed-out buffer came from: a tier's slot, or an owned
/// allocation where no tier exists.
#[derive(Clone, Copy, Debug, PartialEq, Eq)]
pub enum BufferOrigin {
    /// Borrowed from the tier with this index; returned there on recycling.
    Pooled(usize),
    /// Owned outright; dropped on recycling.
    Owned,
}

/// One buffer tier: its capacity class and its parked buffers.
pub struct BufferTier {
    /// The capacity this tier serves up to.
    pub capacity: usize,
    /// Buffers parked for reuse, each empty.
    pub free: Vec<Vec<u8>>,
}

/// The tiered pool of reusable decompression buffers: requests take the
/// smallest tier whose capacity reaches the requested size (the largest
/// where none does), every handed-out buffer is empty with its capacity
/// grown to the request as far as the allocator allows, and recycling parks
/// the buffer back at its tier, cleared. The slot waiting of a busy tier is
/// the runtime's business; the pool model hands out a fresh buffer when a
/// tier's parked list is empty.
pub struct BufferPool {
    /// The tiers, capacities ascending.
    pub tiers: Vec<BufferTier>,
}

impl BufferPool {
    /// Every parked buffer of every tier is empty.
    pub open spec fn wf(self) -> bool {
        forall|i: int, j: int|
            0 <= i < self.tiers@.len() && 0 <= j < self.tiers@[i].free@.len()
                ==> (#[trigger] self.tiers@[i].free@[j])@.len() == 0
    }

    /// A pool with one tier per configured capacity, each prewarmed with
    /// the configured number of parked buffers.
    pub fn new(config: &MemoryPoolConfig) -> (r: BufferPool)
        ensures
            r.wf(),
            r.tiers@.len() == config.decompress_buffer_sizes@.len(),
            forall|i: int|
                0 <= i < r.tiers@.len() ==> (#[trigger] r.tiers@[i]).capacity
                    == config.decompress_buffer_sizes@[i] && r.tiers@[i].free@.len()
                    == config.prewarm_per_tier,
    {
        let mut tiers: Vec<BufferTier> = Vec::new();
        let mut i: usize = 0;
        while i < config.decompress_buffer_sizes.len()
            invariant
                i <= config.decompress_buffer_sizes@.len(),
                tiers@.len() == i,
                forall|k: int|
                    0 <= k < i ==> (#[trigger] tiers@[k]).capacity
                        == config.decompress_buffer_sizes@[k] && tiers@[k].free@.len()
                        == config.prewarm_per_tier,
                forall|k: int, j: int|
                    0 <= k < tiers@.len() && 0 <= j < tiers@[k].free@.len()
                        ==> (#[trigger] tiers@[k].free@[j])@.len() == 0,
            decreases config.decompress_buffer_sizes@.len() - i,
        {
            let capacity = config.decompress_buffer_sizes[i];
            let mut free: Vec<Vec<u8>> = Vec::new();
            let mut p: usize = 0;
            while p < config.prewarm_per_tier
                invariant
                    p <= config.prewarm_per_tier,
                    free@.len() == p,
                    forall|j: int| 0 <= j < p ==> (#[trigger] free@[j])@.len() == 0,
                decreases config.prewarm_per_tier - p,
            {
                let mut parked: Vec<u8> = Vec::new();
                let _grown = parked.try_reserve(capacity);
                free.push(parked);
                p = p + 1;
            }
            tiers.push(BufferTier { capacity, free });
            i = i + 1;
        }
        BufferPool { tiers }
    }

    /// Hands out a buffer for a request: empty, its capacity grown toward
    /// the requested size, taken from the smallest tier whose capacity
    /// reaches the size (the largest where none does), or owned where no
    /// tier exists. The chosen tier loses one parked buffer where it had
    /// any.
    pub fn get_decompress_buffer(&mut self, estimated_size: usize) -> (r: (Vec<u8>, BufferOrigin))
        ensures
            r.0@.len() == 0,
            old(self).tiers@.len() == 0 ==> (r.1 == BufferOrigin::Owned && *final(self) == *old(self)),
            old(self).tiers@.len() > 0 ==> (r.1 matches BufferOrigin::Pooled(i) && i < old(self).tiers@.len() && ({
                ||| (old(self).tiers@[i as int].capacity >= estimated_size && forall|j: int|
                    0 <= j < i ==> old(self).tiers@[j].capacity < estimated_size)
                ||| (i == old(self).tiers@.len() - 1 && forall|j: int|
                    0 <= j < old(self).tiers@.len() ==> old(self).tiers@[j].capacity
                        < estimated_size)
            }) && final(self).tiers@.len() == old(self).tiers@.len() && final(self).tiers@[i as int].capacity == old(self).tiers@[i as int].capacity && final(self).tiers@[i as int].free@.len() == (if old(self).tiers@[i as int].free@.len() > 0 {
                old(self).tiers@[i as int].free@.len() - 1
            } else {
                0int
            }) && forall|j: int|
                0 <= j < old(self).tiers@.len() && j != i ==> final(self).tiers@[j] == old(self).tiers@[j]),
    {
        if self.tiers.len() == 0 {
            let mut buffer: Vec<u8> = Vec::new();
            let _grown = buffer.try_reserve(estimated_size);
            return (buffer, BufferOrigin::Owned);
        }
        let mut i: usize = 0;
        let mut chosen: usize = self.tiers.len() - 1;
        let mut found = false;
        while i < self.tiers.len() && !found
            invariant
                i <= self.tiers@.len(),
                self.tiers@.len() > 0,
                chosen < self.tiers@.len(),
                !found ==> chosen == self.tiers@.len() - 1,
                forall|j: int| 0 <= j < i ==> self.tiers@[j].capacity < estimated_size,
                found ==> i < self.tiers@.len() && chosen == i
                    && self.tiers@[chosen as int].capacity >= estimated_size,
            decreases self.tiers@.len() - i + (if found {
                0int
            } else {
                1int
            }),
        {
            if self.tiers[i].capacity >= estimated_size {
                chosen = i;
                found = true;
            } else {
                i = i + 1;
            }
        }
        let ghost before = self.tiers@;
        let mut tier = self.tiers.remove(chosen);
        let mut buffer = match tier.free.pop() {
            Some(parked) => parked,
            None => Vec::new(),
        };
        buffer.clear();
        let _grown = buffer.try_reserve(estimated_size);
        self.tiers.insert(chosen, tier);
        proof {
            assert(self.tiers@.len() == before.len());
            assert forall|j: int|
                0 <= j < self.tiers@.len() && j != chosen implies self.tiers@[j] == before[j] by {
                if j < chosen {
                    assert(self.tiers@[j] == before.remove(chosen as int)[j]);
                } else {
                    assert(self.tiers@[j] == before.remove(chosen as int)[j - 1]);
                    assert(before.remove(chosen as int)[j - 1] == before[j]);
                }
            }
        }
        (buffer, BufferOrigin::Pooled(chosen))
    }

    /// Takes a buffer back: a pooled buffer is cleared and parked at its
    /// tier again; an owned buffer, or one naming a tier that does not
    /// exist, is dropped and the pool is unchanged.
    pub fn recycle_decompress_buffer(&mut self, origin: BufferOrigin, buffer: Vec<u8>)
        ensures
            ({
                match origin {
                    BufferOrigin::Pooled(i) => if i < old(self).tiers@.len() {
                        final(self).tiers@.len() == old(self).tiers@.len() && final(self).tiers@[i as int].capacity == old(self).tiers@[i as int].capacity && final(self).tiers@[i as int].free@.len() == old(self).tiers@[i as int].free@.len() + 1
                            && forall|j: int|
                            0 <= j < old(self).tiers@.len() && j != i ==> final(self).tiers@[j]
                                == old(self).tiers@[j]
                    } else {
                        *final(self) == *old(self)
                    },
                    BufferOrigin::Owned => *final(self) == *old(self),
                }
            }),
    {
        match origin {
            BufferOrigin::Pooled(i) => {
                if i < self.tiers.len() {
                    let ghost before = self.tiers@;
                    let mut tier = self.tiers.remove(i);
                    let mut buffer = buffer;
                    buffer.clear();
                    tier.free.push(buffer);
                    self.tiers.insert(i, tier);
                    proof {
                        assert(self.tiers@.len() == before.len());
                        assert forall|j: int|
                            0 <= j < self.tiers@.len() && j != i implies self.tiers@[j]
                            == before[j] by {
                            if j < i {
                                assert(self.tiers@[j] == before.remove(i as int)[j]);
                            } else {
                                assert(self.tiers@[j] == before.remove(i as int)[j - 1]);
                                assert(before.remove(i as int)[j - 1] == before[j]);
                            }
                        }
                    }
                }
            },
            BufferOrigin::Owned => {},
        }
    }
}

/// Accounting of mapped bytes against the soft cap.
pub struct MemoryUsage {
    /// Bytes currently accounted.
    pub used: usize,
    /// The soft cap.
    pub max_memory_usage: usize,
}

impl MemoryUsage {
    /// Fresh accounting with nothing used.
    pub fn new(max_memory_usage: usize) -> (r: MemoryUsage)
        ensures
            r.used == 0,
            r.max_memory_usage == max_memory_usage,
    {
        MemoryUsage { used: 0, max_memory_usage }
    }

    /// Accounts newly mapped bytes and says whether the soft cap is now
    /// crossed; crossing warns, it never fails the mapping.
    pub fn record_mapping(&mut self, bytes: usize) -> (over: bool)
        ensures
            final(self).max_memory_usage == old(self).max_memory_usage,
            final(self).used == sat_add(old(self).used as int, bytes as int),
            over == (final(self).used > final(self).max_memory_usage),
    {
        self.used = usize_sat_add(self.used, bytes);
        self.used > self.max_memory_usage
    }

    /// Releases accounted bytes; releasing more than is accounted leaves
    /// zero.
    pub fn release(&mut self, bytes: usize)
        ensures
            final(self).max_memory_usage == old(self).max_memory_usage,
            final(self).used == if bytes <= old(self).used {
                old(self).used - bytes
            } else {
                0int
            },
    {
        if bytes <= self.used {
            self.used = self.used - bytes;
        } else {
            self.used = 0;
        }
    }
}

/// The initial capacity of a decompression buffer for a compressed payload:
/// four times the compressed length, at least 8 KiB, saturating.
pub fn decompress_estimate(compressed_len: usize) -> (r: usize)
    ensures
        r == if sat_add(
            sat_add(sat_add(compressed_len as int, compressed_len as int), compressed_len as int),
            compressed_len as int,
        ) > 0x2000 {
            sat_add(
                sat_add(
                    sat_add(compressed_len as int, compressed_len as int),
                    compressed_len as int,
                ),
                compressed_len as int,
            )
        } else {
            0x2000int
        },
{
    let x = usize_sat_add(
        usize_sat_add(usize_sat_add(compressed_len, compressed_len), compressed_len),
        compressed_len,
    );
    if x > 0x2000 {
        x
    } else {
        0x2000
    }
}

} // verus!
