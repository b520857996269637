//! The multi-pool allocator.
//!
//! A `MemoryPoolAllocator` owns a fixed, ordered collection of memory
//! pools: strictly ascending slot sizes, and each pool's id equal to its
//! position. An allocation request is dispatched to the smallest pool
//! whose slots fit; a pool that is merely full is skipped in favour of the
//! next larger one. A free request is routed by the pool id embedded in
//! the slot pointer, after validating that the id names a configured pool.

use vstd::prelude::*;

use crate::memory_pool::{slot_word, MemoryPool};
use crate::slot_pointer::SlotPointer;
use crate::slot_pointer::spec_tag_succ;

verus! {

#[derive(Debug, PartialEq, Eq, Structural)]
pub enum AllocationError {
    NullAllocation,
    NoMemoryAvailable,
    NoSlotLargeEnough,
}

pub type AllocationResult = Result<SlotPointer, AllocationError>;

#[derive(Debug, PartialEq, Eq, Structural)]
pub enum FreeError {
    InvalidSlotIndex,
    InvalidMemoryPoolId,
}

pub type FreeResult = Result<(), FreeError>;

/// The smallest position at or after `i` of a pool whose slot size fits
/// `size` and whose free list is not empty; -1 when there is none.
pub open spec fn spec_first_fit(pools: Seq<MemoryPool>, size: int, i: int) -> int
    decreases pools.len() - i,
{
    if i < 0 || pools.len() <= i {
        -1
    } else if size <= pools[i].slot_size_bytes() && 0 < pools[i].free_slots().len() {
        i
    } else {
        spec_first_fit(pools, size, i + 1)
    }
}

/// What `spec_first_fit` finds is the first fit: every pool before it is
/// too small or empty, and -1 means they all are.
pub proof fn lemma_first_fit_minimal(pools: Seq<MemoryPool>, size: int, i: int)
    requires
        0 <= i <= pools.len(),
    ensures
        spec_first_fit(pools, size, i) == -1 ==> forall|j: int|
            i <= j < pools.len() ==> !(size <= #[trigger] pools[j].slot_size_bytes() && 0
                < pools[j].free_slots().len()),
        spec_first_fit(pools, size, i) != -1 ==> ({
            let f = spec_first_fit(pools, size, i);
            &&& i <= f < pools.len()
            &&& size <= pools[f].slot_size_bytes()
            &&& 0 < pools[f].free_slots().len()
            &&& forall|j: int|
                i <= j < f ==> !(size <= #[trigger] pools[j].slot_size_bytes() && 0
                    < pools[j].free_slots().len())
        }),
    decreases pools.len() - i,
{
    if i < pools.len() {
        if !(size <= pools[i].slot_size_bytes() && 0 < pools[i].free_slots().len()) {
            lemma_first_fit_minimal(pools, size, i + 1);
        }
    }
}

/// Tier selection: when the pool at position `i` could serve the request,
/// the allocator's choice is the smallest pool that fits and has a free
/// slot — at or before `i`, never a larger pool merely because it is also
/// eligible.
pub proof fn lemma_tier_selection(pools: Seq<MemoryPool>, size: int, i: int)
    requires
        0 <= i < pools.len(),
        size <= pools[i].slot_size_bytes(),
        0 < pools[i].free_slots().len(),
    ensures
        ({
            let f = spec_first_fit(pools, size, 0);
            &&& 0 <= f <= i
            &&& size <= pools[f].slot_size_bytes()
            &&& 0 < pools[f].free_slots().len()
            &&& forall|j: int|
                0 <= j < f ==> !(size <= #[trigger] pools[j].slot_size_bytes() && 0
                    < pools[j].free_slots().len())
        }),
{
    lemma_first_fit_minimal(pools, size, 0);
}

/// An ordered, fixed collection of memory pools; all mutable state lives
/// inside the pools themselves.
pub struct MemoryPoolAllocator {
    memory_pool_array: Vec<MemoryPool>,
}

impl MemoryPoolAllocator {
    /// The pools, in dispatch order.
    pub closed spec fn pools(&self) -> Seq<MemoryPool> {
        self.memory_pool_array@
    }

    /// The construction-time topology demand: pools listed in strictly
    /// ascending slot-size order, each pool's id its position.
    pub open spec fn check_memory_pools_order(pools: Seq<MemoryPool>) -> bool {
        &&& forall|i: int| 0 <= i < pools.len() ==> #[trigger] pools[i].pool_id() as int == i
        &&& forall|i: int|
            0 <= i < pools.len() - 1 ==> #[trigger] pools[i].slot_size_bytes() < pools[
                i + 1
            ].slot_size_bytes()
    }

    pub open spec fn wf(&self) -> bool {
        &&& 1 <= self.pools().len() <= 256
        &&& forall|i: int| 0 <= i < self.pools().len() ==> #[trigger] self.pools()[i].wf()
        &&& Self::check_memory_pools_order(self.pools())
    }

    /// The pool an allocation of `size` bytes is dispatched to.
    pub open spec fn chosen_pool(&self, size: int) -> int {
        spec_first_fit(self.pools(), size, 0)
    }

    /// Builds the allocator. The topology demands are preconditions: a
    /// violation is a build-time misconfiguration, and the system must not
    /// start from one.
    pub fn new(memory_pool_array: Vec<MemoryPool>) -> (r: MemoryPoolAllocator)
        requires
            1 <= memory_pool_array@.len() <= 256,
            forall|i: int|
                0 <= i < memory_pool_array@.len() ==> #[trigger] memory_pool_array@[i].wf(),
            Self::check_memory_pools_order(memory_pool_array@),
        ensures
            r.wf(),
            r.pools() == memory_pool_array@,
    {
        MemoryPoolAllocator { memory_pool_array }
    }

    /// Dispatches the request to the smallest pool whose slot size fits.
    /// A zero-size request is rejected outright; one too large for every
    /// pool as well. A pool that is merely full is skipped in favour of
    /// the next larger one: only once every pool that fits is exhausted
    /// does the allocator report that no memory is available.
    pub fn allocate(&mut self, size: usize) -> (r: AllocationResult)
        requires
            old(self).wf(),
        ensures
            final(self).wf(),
            size == 0 ==> (final(self).pools() == old(self).pools() && r == Err::<
                SlotPointer,
                AllocationError,
            >(AllocationError::NullAllocation)),
            0 < size && old(self).pools().last().slot_size_bytes() < size ==> (final(self).pools()
                == old(self).pools() && r == Err::<
                SlotPointer,
                AllocationError,
            >(AllocationError::NoSlotLargeEnough)),
            0 < size && size <= old(self).pools().last().slot_size_bytes() && old(
                self,
            ).chosen_pool(size as int) == -1 ==> (final(self).pools() == old(self).pools() && r
                == Err::<SlotPointer, AllocationError>(AllocationError::NoMemoryAvailable)),
            0 < size && size <= old(self).pools().last().slot_size_bytes() && old(
                self,
            ).chosen_pool(size as int) != -1 ==> ({
                let f = old(self).chosen_pool(size as int);
                let p0 = old(self).pools()[f];
                &&& r matches Ok(p)
                &&& p.pool_id() as int == f
                &&& p.index() as int == p0.free_slots()[0]
                &&& p.tag() == spec_tag_succ(p0.head_tag())
                &&& final(self).pools().len() == old(self).pools().len()
                &&& forall|q: int|
                    0 <= q < old(self).pools().len() && q != f ==> final(self).pools()[q] == old(
                        self,
                    ).pools()[q]
                &&& final(self).pools()[f].free_slots() == p0.free_slots().subrange(
                    1,
                    p0.free_slots().len() as int,
                )
                &&& final(self).pools()[f].words() == p0.words()
                &&& final(self).pools()[f].pool_id() == p0.pool_id()
                &&& final(self).pools()[f].words_per_slot() == p0.words_per_slot()
                &&& final(self).pools()[f].num_slots() == p0.num_slots()
                &&& final(self).pools()[f].head_raw() == slot_word(
                    p0.words(),
                    p0.words_per_slot(),
                    p0.free_slots()[0],
                )
            }),
    {
        if size == 0 {
            return Err(AllocationError::NullAllocation);
        }
        let n_pools: usize = self.memory_pool_array.len();
        if size > self.memory_pool_array[n_pools - 1].get_slot_size() {
            return Err(AllocationError::NoSlotLargeEnough);
        }
        let mut i: usize = 0;
        while i < n_pools
            invariant
                self.pools() == old(self).pools(),
                old(self).wf(),
                0 < size,
                n_pools == old(self).pools().len(),
                size <= old(self).pools().last().slot_size_bytes(),
                0 <= i <= n_pools,
                old(self).chosen_pool(size as int) == spec_first_fit(
                    old(self).pools(),
                    size as int,
                    i as int,
                ),
            decreases n_pools - i,
        {
            let ghost pools0: Seq<MemoryPool> = self.memory_pool_array@;
            let memory_pool = &mut self.memory_pool_array[i];
            match memory_pool.allocate(size) {
                Ok(slot_pointer) => {
                    proof {
                        lemma_pools_update_keeps_wf(
                            pools0,
                            self.memory_pool_array@,
                            i as int,
                        );
                    }
                    return Ok(slot_pointer);
                },
                Err(_) => {
                    proof {
                        assert(self.memory_pool_array@ =~= pools0);
                    }
                },
            }
            i = i + 1;
        }
        Err(AllocationError::NoMemoryAvailable)
    }

    /// Routes a free request to the pool named by the pointer's embedded
    /// pool id. An id that names no configured pool is rejected, as is an
    /// index outside the addressed pool's slot range; in both cases
    /// nothing changes. Freeing a slot that is already free is a caller
    /// error, ruled out by precondition.
    pub fn free(&mut self, slot_pointer: SlotPointer) -> (r: FreeResult)
        requires
            old(self).wf(),
            (slot_pointer.pool_id() as int) < old(self).pools().len()
                && (slot_pointer.index() as int) < old(self).pools()[
                slot_pointer.pool_id() as int
            ].num_slots() ==> !old(self).pools()[slot_pointer.pool_id() as int].is_free(
                slot_pointer.index() as int,
            ),
        ensures
            final(self).wf(),
            old(self).pools().len() <= slot_pointer.pool_id() as int ==> (final(self).pools()
                == old(self).pools() && r == Err::<(), FreeError>(FreeError::InvalidMemoryPoolId)),
            (slot_pointer.pool_id() as int) < old(self).pools().len() && old(self).pools()[
                slot_pointer.pool_id() as int
            ].num_slots() <= slot_pointer.index() ==> (final(self).pools() == old(self).pools()
                && r == Err::<(), FreeError>(FreeError::InvalidSlotIndex)),
            (slot_pointer.pool_id() as int) < old(self).pools().len() && (
            slot_pointer.index() as int) < old(self).pools()[
                slot_pointer.pool_id() as int
            ].num_slots() ==> ({
                let pid = slot_pointer.pool_id() as int;
                let p0 = old(self).pools()[pid];
                &&& r == Ok::<(), FreeError>(())
                &&& final(self).pools().len() == old(self).pools().len()
                &&& forall|q: int|
                    0 <= q < old(self).pools().len() && q != pid ==> final(self).pools()[q] == old(
                        self,
                    ).pools()[q]
                &&& final(self).pools()[pid].free_slots() == seq![slot_pointer.index() as int]
                    + p0.free_slots()
                &&& final(self).pools()[pid].head_raw() == slot_pointer@
                &&& final(self).pools()[pid].pool_id() == p0.pool_id()
                &&& final(self).pools()[pid].words_per_slot() == p0.words_per_slot()
                &&& final(self).pools()[pid].num_slots() == p0.num_slots()
                &&& forall|s: int|
                    0 <= s < p0.num_slots() && s != slot_pointer.index() as int
                        ==> #[trigger] final(self).pools()[pid].payload(s) == p0.payload(s)
            }),
    {
        let memory_pool_index: usize = slot_pointer.get_mem_pool_id() as usize;
        if memory_pool_index >= self.memory_pool_array.len() {
            return Err(FreeError::InvalidMemoryPoolId);
        }
        let ghost pools0: Seq<MemoryPool> = self.memory_pool_array@;
        let memory_pool = &mut self.memory_pool_array[memory_pool_index];
        match memory_pool.free(slot_pointer) {
            Err(_) => {
                proof {
                    assert(self.memory_pool_array@ =~= pools0);
                }
                Err(FreeError::InvalidSlotIndex)
            },
            Ok(()) => {
                proof {
                    lemma_pools_update_keeps_wf(
                        pools0,
                        self.memory_pool_array@,
                        memory_pool_index as int,
                    );
                }
                Ok(())
            },
        }
    }

    /// Resolves a pointer to the position of its slot's first word within
    /// the addressed pool's storage, routed by the embedded pool id. The
    /// id must name a configured pool.
    pub fn get_slot_mut(&self, slot_pointer: &SlotPointer) -> (r: Result<usize, ()>)
        requires
            self.wf(),
            (slot_pointer.pool_id() as int) < self.pools().len(),
        ensures
            (slot_pointer.index() as int) < self.pools()[
                slot_pointer.pool_id() as int
            ].num_slots() ==> (r matches Ok(a) && a == slot_pointer.index() * self.pools()[
                slot_pointer.pool_id() as int
            ].words_per_slot()),
            self.pools()[slot_pointer.pool_id() as int].num_slots() <= slot_pointer.index() ==> r
                == Err::<usize, ()>(()),
    {
        proof {
            crate::slot_pointer::lemma_field_ranges(slot_pointer@);
        }
        let memory_pool_id: usize = slot_pointer.get_mem_pool_id() as usize;
        match self.memory_pool_array[memory_pool_id].get_slot_address(slot_pointer) {
            Ok(a) => Ok(a),
            Err(_) => Err(()),
        }
    }

    /// Reads one payload word of a live slot, routed by the pointer's
    /// embedded pool id.
    pub fn read_word(&self, slot_pointer: &SlotPointer, offset: usize) -> (r: u64)
        requires
            self.wf(),
            (slot_pointer.pool_id() as int) < self.pools().len(),
            (slot_pointer.index() as int) < self.pools()[
                slot_pointer.pool_id() as int
            ].num_slots(),
            offset < self.pools()[slot_pointer.pool_id() as int].words_per_slot(),
        ensures
            r == self.pools()[slot_pointer.pool_id() as int].payload(slot_pointer.index() as int)[
                offset as int
            ],
    {
        self.memory_pool_array[slot_pointer.get_mem_pool_id() as usize].read_word(
            slot_pointer,
            offset,
        )
    }

    /// Writes one payload word of a live slot, routed by the pointer's
    /// embedded pool id. Every other slot of every pool keeps its payload,
    /// and no free list moves.
    pub fn write_word(&mut self, slot_pointer: &SlotPointer, offset: usize, value: u64)
        requires
            old(self).wf(),
            (slot_pointer.pool_id() as int) < old(self).pools().len(),
            (slot_pointer.index() as int) < old(self).pools()[
                slot_pointer.pool_id() as int
            ].num_slots(),
            !old(self).pools()[slot_pointer.pool_id() as int].is_free(
                slot_pointer.index() as int,
            ),
            offset < old(self).pools()[slot_pointer.pool_id() as int].words_per_slot(),
        ensures
            final(self).wf(),
            ({
                let pid = slot_pointer.pool_id() as int;
                let p0 = old(self).pools()[pid];
                &&& final(self).pools().len() == old(self).pools().len()
                &&& forall|q: int|
                    0 <= q < old(self).pools().len() && q != pid ==> final(self).pools()[q] == old(
                        self,
                    ).pools()[q]
                &&& final(self).pools()[pid].free_slots() == p0.free_slots()
                &&& final(self).pools()[pid].head_raw() == p0.head_raw()
                &&& final(self).pools()[pid].pool_id() == p0.pool_id()
                &&& final(self).pools()[pid].words_per_slot() == p0.words_per_slot()
                &&& final(self).pools()[pid].num_slots() == p0.num_slots()
                &&& final(self).pools()[pid].payload(slot_pointer.index() as int) == p0.payload(
                    slot_pointer.index() as int,
                ).update(offset as int, value)
                &&& forall|s: int|
                    0 <= s < p0.num_slots() && s != slot_pointer.index() as int
                        ==> #[trigger] final(self).pools()[pid].payload(s) == p0.payload(s)
            }),
    {
        let ghost pools0: Seq<MemoryPool> = self.memory_pool_array@;
        let memory_pool_index: usize = slot_pointer.get_mem_pool_id() as usize;
        let memory_pool = &mut self.memory_pool_array[memory_pool_index];
        memory_pool.write_word(slot_pointer, offset, value);
        proof {
            lemma_pools_update_keeps_wf(pools0, self.memory_pool_array@, memory_pool_index as int);
        }
    }
}

impl crate::MemoryAccessor<SlotPointer> for MemoryPoolAllocator {
    open spec fn accessor_ok(&self, slot_pointer: SlotPointer) -> bool {
        self.wf() && (slot_pointer.pool_id() as int) < self.pools().len()
    }

    open spec fn spec_get_slot(&self, slot_pointer: SlotPointer) -> Result<usize, ()> {
        let pool = self.pools()[slot_pointer.pool_id() as int];
        if slot_pointer.index() < pool.num_slots() {
            Ok((slot_pointer.index() * pool.words_per_slot()) as usize)
        } else {
            Err(())
        }
    }

    fn get_slot_mut(&self, slot_pointer: &SlotPointer) -> Result<usize, ()> {
        proof {
            let pool = self.pools()[slot_pointer.pool_id() as int];
            assert(pool.wf());
            if (slot_pointer.index() as int) < pool.num_slots() {
                assert(slot_pointer.index() * pool.words_per_slot() + pool.words_per_slot()
                    <= pool.num_slots() * pool.words_per_slot()) by (nonlinear_arith)
                    requires
                        0 < pool.words_per_slot(),
                        0 <= slot_pointer.index() as int,
                        (slot_pointer.index() as int) < pool.num_slots(),
                ;
            }
        }
        MemoryPoolAllocator::get_slot_mut(self, slot_pointer)
    }
}

/// Replacing one pool by another with the same id and slot size keeps the
/// collection well-formed: the topology looks only at those two fields.
proof fn lemma_pools_update_keeps_wf(pools0: Seq<MemoryPool>, pools1: Seq<MemoryPool>, j: int)
    requires
        forall|i: int| 0 <= i < pools0.len() ==> #[trigger] pools0[i].wf(),
        MemoryPoolAllocator::check_memory_pools_order(pools0),
        pools1.len() == pools0.len(),
        0 <= j < pools0.len(),
        forall|q: int| 0 <= q < pools0.len() && q != j ==> #[trigger] pools1[q] == pools0[q],
        pools1[j].wf(),
        pools1[j].pool_id() == pools0[j].pool_id(),
        pools1[j].words_per_slot() == pools0[j].words_per_slot(),
    ensures
        forall|i: int| 0 <= i < pools1.len() ==> #[trigger] pools1[i].wf(),
        MemoryPoolAllocator::check_memory_pools_order(pools1),
{
    assert forall|i: int| 0 <= i < pools1.len() implies #[trigger] pools1[i].wf() by {
        if i != j {
            assert(pools1[i] == pools0[i]);
        }
    }
    assert forall|i: int| 0 <= i < pools1.len() implies #[trigger] pools1[i].pool_id() as int
        == i by {
        if i != j {
            assert(pools1[i] == pools0[i]);
        }
    }
    assert forall|i: int| 0 <= i < pools1.len() - 1 implies #[trigger] pools1[i].slot_size_bytes()
        < pools1[i + 1].slot_size_bytes() by {
        assert(pools0[i].slot_size_bytes() < pools0[i + 1].slot_size_bytes());
        assert(pools1[j].slot_size_bytes() == pools0[j].slot_size_bytes());
        if i != j {
            assert(pools1[i] == pools0[i]);
        }
        if i + 1 != j {
            assert(pools1[i + 1] == pools0[i + 1]);
        }
    }
}

} // verus!
