//! Memory-management core of a small real-time kernel: fixed-size slot pools,
//! a bit-packed slot-pointer encoding with an ABA-guard tag, per-pool free
//! lists manipulated through an atomic head word, and a multi-pool allocator
//! that dispatches each request to the smallest pool whose slots fit.

use vstd::prelude::*;

pub mod allocator;
mod atomic;
pub mod memory_pool;
pub mod slot_pointer;
pub mod std_lib_port;
pub mod sync;

verus! {

/// Anything that resolves a slot pointer to the location of its slot's
/// payload: a single pool, or an allocator routing among several.
pub trait MemoryAccessor<PointerType> {
    /// When the accessor accepts this pointer for resolution.
    spec fn accessor_ok(&self, slot_pointer: PointerType) -> bool;

    /// The resolution: position of the slot's first word within the
    /// addressed pool's storage, or a unit error for a pointer that
    /// denotes no slot of it.
    spec fn spec_get_slot(&self, slot_pointer: PointerType) -> Result<usize, ()>;

    fn get_slot_mut(&self, slot_pointer: &PointerType) -> (r: Result<usize, ()>)
        requires
            self.accessor_ok(*slot_pointer),
        ensures
            r == self.spec_get_slot(*slot_pointer),
    ;
}

} // verus!
