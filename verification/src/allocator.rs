//! The kernel heap's bookkeeping: which block size a request falls under,
//! and which free blocks are kept for reuse.

use vstd::prelude::*;

verus! {

/// The number of block sizes.
pub const BLOCK_COUNT: usize = 8;

/// The most free blocks of one size that are kept once a block is returned
/// to a list that is not empty.
pub const KEPT_BLOCKS: usize = 16;

/// The block sizes, in ascending order.
pub open spec fn block_sizes() -> Seq<usize> {
    seq![8, 16, 32, 64, 128, 512, 1024, 2048]
}

/// The size of the blocks of the list `index`.
pub fn block_size(index: usize) -> (size: usize)
    requires
        index < BLOCK_COUNT,
    ensures
        size == block_sizes()[index as int],
{
    if index == 0 {
        8
    } else if index == 1 {
        16
    } else if index == 2 {
        32
    } else if index == 3 {
        64
    } else if index == 4 {
        128
    } else if index == 5 {
        512
    } else if index == 6 {
        1024
    } else {
        2048
    }
}

/// Whether `addr` is a multiple of `align`, for an `align` that is a power
/// of two.
pub open spec fn is_aligned(addr: u64, align: u64) -> bool {
    addr & ((align - 1) as u64) == 0
}

/// Whether `align` is a power of two.
pub open spec fn is_power_of_two(align: u64) -> bool {
    align > 0 && align & ((align - 1) as u64) == 0
}

/// The least multiple of `align` that is not below `addr`.
pub fn align_up(addr: u64, align: u64) -> (aligned: u64)
    requires
        is_power_of_two(align),
        addr + align <= u64::MAX,
    ensures
        is_aligned(aligned, align),
        addr <= aligned,
        aligned - addr < align,
{
    assert(({
        let aligned = ((addr + align - 1) as u64) & !((align - 1) as u64);
        &&& aligned & ((align - 1) as u64) == 0
        &&& addr <= aligned
        &&& aligned - addr < align
    })) by (bit_vector)
        requires
            align > 0,
            align & ((align - 1) as u64) == 0,
            addr + align <= u64::MAX,
    ;
    (addr + align - 1) & !(align - 1)
}

/// The block size that a request of `size` bytes aligned to `align` needs:
/// the greater of the two.
pub open spec fn required_block_size(size: usize, align: usize) -> usize {
    if size >= align {
        size
    } else {
        align
    }
}

/// The list that serves a request: the first whose blocks are large enough,
/// `None` if even the largest blocks are too small.
pub fn list_index(size: usize, align: usize) -> (index: Option<usize>)
    ensures
        index.is_some() <==> required_block_size(size, align) <= 2048,
        index.is_some() ==> {
            &&& index.unwrap() < BLOCK_COUNT
            &&& block_sizes()[index.unwrap() as int] >= required_block_size(size, align)
            &&& forall|j: int|
                0 <= j < index.unwrap() ==> block_sizes()[j] < required_block_size(size, align)
        },
{
    let required = if size >= align {
        size
    } else {
        align
    };
    let mut i: usize = 0;
    while i < BLOCK_COUNT
        invariant
            i <= BLOCK_COUNT,
            required == required_block_size(size, align),
            forall|j: int| 0 <= j < i ==> block_sizes()[j] < required,
        decreases BLOCK_COUNT - i,
    {
        if block_size(i) >= required {
            return Some(i);
        }
        i = i + 1;
    }
    assert(block_sizes()[7] == 2048);
    None
}

/// What to do for a request for memory.
#[derive(Debug, Clone, Copy, PartialEq, Eq, Structural)]
pub enum AllocAction {
    /// Hand out the free block at this address.
    Reuse(usize),
    /// Ask the fallback allocator for a block of this size, aligned to it.
    FallbackBlock(usize),
    /// Ask the fallback allocator for what was requested.
    Fallback,
}

/// What to do with memory that is returned.
#[derive(Debug, Clone, Copy, PartialEq, Eq, Structural)]
pub enum DeallocAction {
    /// The block was put on its free list.
    Kept,
    /// Hand the memory to the fallback allocator.
    Fallback,
}

/// The free blocks of each size, the block returned last first in hand.
pub struct FixedSizeBlockAllocator {
    list_heads: Vec<Vec<usize>>,
}

impl FixedSizeBlockAllocator {
    /// The free blocks of each list; the last of a list is handed out next.
    pub closed spec fn lists(&self) -> Seq<Seq<usize>> {
        Seq::new(self.list_heads@.len(), |i: int| self.list_heads@[i]@)
    }

    /// There is one list for each block size.
    pub open spec fn wf(&self) -> bool {
        self.lists().len() == BLOCK_COUNT
    }

    /// An allocator with no free block.
    pub fn new() -> (allocator: Self)
        ensures
            allocator.wf(),
            forall|i: int| 0 <= i < BLOCK_COUNT ==> allocator.lists()[i] == Seq::<usize>::empty(),
    {
        let mut list_heads: Vec<Vec<usize>> = Vec::new();
        let mut i: usize = 0;
        while i < BLOCK_COUNT
            invariant
                i <= BLOCK_COUNT,
                list_heads@.len() == i,
                forall|j: int| 0 <= j < i ==> list_heads@[j]@ == Seq::<usize>::empty(),
            decreases BLOCK_COUNT - i,
        {
            list_heads.push(Vec::new());
            i = i + 1;
        }
        FixedSizeBlockAllocator { list_heads }
    }

    /// The number of free blocks of the list `index`.
    pub fn length(&self, index: usize) -> (n: usize)
        requires
            self.wf(),
            index < BLOCK_COUNT,
        ensures
            n == self.lists()[index as int].len(),
    {
        self.list_heads[index].len()
    }

    /// Decides how to serve a request of `size` bytes aligned to `align`. A
    /// request that a block size covers takes the free block of that size
    /// that was returned last; without a free block the fallback allocator
    /// is asked for a whole block. Other requests go to the fallback
    /// allocator as they are.
    pub fn allocate(&mut self, size: usize, align: usize) -> (action: AllocAction)
        requires
            old(self).wf(),
        ensures
            final(self).wf(),
            required_block_size(size, align) > 2048 ==> action == AllocAction::Fallback && final(self).lists() == old(self).lists(),
            required_block_size(size, align) <= 2048 ==> ({
                let index = served_by(size, align);
                let list = old(self).lists()[index];
                &&& 0 <= index < BLOCK_COUNT
                &&& list.len() == 0 ==> action == AllocAction::FallbackBlock(block_sizes()[index])
                    && final(self).lists() == old(self).lists()
                &&& list.len() > 0 ==> action == AllocAction::Reuse(list.last()) && final(self).lists() == old(self).lists().update(index, list.drop_last())
            }),
    {
        match list_index(size, align) {
            Some(index) => {
                proof {
                    lemma_served_by(size, align, index as int);
                }
                match self.list_heads[index].pop() {
                    Some(block) => {
                        assert(self.lists() =~= old(self).lists().update(
                            index as int,
                            old(self).lists()[index as int].drop_last(),
                        ));
                        AllocAction::Reuse(block)
                    },
                    None => {
                        assert(self.lists() =~= old(self).lists());
                        AllocAction::FallbackBlock(block_size(index))
                    },
                }
            },
            None => AllocAction::Fallback,
        }
    }

    /// Decides what becomes of the memory at `ptr` that was requested with
    /// `size` and `align`. A block of one of the block sizes goes onto its
    /// free list, unless the list holds more than [`KEPT_BLOCKS`] blocks
    /// already; then, and for other memory, the fallback allocator gets it.
    pub fn deallocate(&mut self, ptr: usize, size: usize, align: usize) -> (action: DeallocAction)
        requires
            old(self).wf(),
        ensures
            final(self).wf(),
            required_block_size(size, align) > 2048 ==> action == DeallocAction::Fallback && final(self).lists() == old(self).lists(),
            required_block_size(size, align) <= 2048 ==> ({
                let index = served_by(size, align);
                let list = old(self).lists()[index];
                &&& 0 <= index < BLOCK_COUNT
                &&& list.len() > KEPT_BLOCKS ==> action == DeallocAction::Fallback && final(self).lists() == old(self).lists()
                &&& list.len() <= KEPT_BLOCKS ==> action == DeallocAction::Kept && final(self).lists() == old(self).lists().update(index, list.push(ptr))
            }),
    {
        match list_index(size, align) {
            Some(index) => {
                proof {
                    lemma_served_by(size, align, index as int);
                }
                if self.list_heads[index].len() > KEPT_BLOCKS {
                    DeallocAction::Fallback
                } else {
                    self.list_heads[index].push(ptr);
                    assert(self.lists() =~= old(self).lists().update(
                        index as int,
                        old(self).lists()[index as int].push(ptr),
                    ));
                    DeallocAction::Kept
                }
            },
            None => DeallocAction::Fallback,
        }
    }
}

/// The number of the first block size that covers a request of `size` bytes
/// aligned to `align`, or the number of block sizes if none does.
pub open spec fn served_by(size: usize, align: usize) -> int {
    first_covering(required_block_size(size, align), 0)
}

/// The number of the first block size from `from` on that is at least
/// `required`, or the number of block sizes if none is.
pub open spec fn first_covering(required: usize, from: int) -> int
    decreases BLOCK_COUNT - from,
{
    if from < 0 || from >= BLOCK_COUNT {
        BLOCK_COUNT as int
    } else if block_sizes()[from] >= required {
        from
    } else {
        first_covering(required, from + 1)
    }
}

proof fn lemma_first_covering(required: usize, from: int, index: int)
    requires
        0 <= from <= index < BLOCK_COUNT,
        block_sizes()[index] >= required,
        forall|j: int| from <= j < index ==> block_sizes()[j] < required,
    ensures
        first_covering(required, from) == index,
    decreases index - from,
{
    if from < index {
        lemma_first_covering(required, from + 1, index);
    }
}

proof fn lemma_served_by(size: usize, align: usize, index: int)
    requires
        0 <= index < BLOCK_COUNT,
        block_sizes()[index] >= required_block_size(size, align),
        forall|j: int| 0 <= j < index ==> block_sizes()[j] < required_block_size(size, align),
    ensures
        served_by(size, align) == index,
{
    lemma_first_covering(required_block_size(size, align), 0, index);
}

} // verus!
