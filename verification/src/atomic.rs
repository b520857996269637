//! The atomic head word of a pool's free list.
//!
//! The head is kept in a `portable_atomic::AtomicU64` and changed only
//! through compare-and-exchange, as the lock-free protocol demands. Verus
//! cannot look inside the atomic cell, so the cell's content is given a
//! name, `atomic_u64_value`, and the three operations the pool logic uses
//! are trusted wrappers whose contracts state how each call relates to that
//! name. Every access goes through an exclusive borrow, which is what makes
//! the load and compare-exchange contracts exact.

use vstd::prelude::*;

use crate::slot_pointer::{
    MemPoolId, SlotIndex, SlotPointer, MP_SLOT_IDX_NEXT_NONE, MP_TAG_MIN_VALUE, spec_pack,
};

verus! {

#[verifier::external_type_specification]
#[verifier::external_body]
pub struct ExAtomicU64(portable_atomic::AtomicU64);

/// The value a `portable_atomic::AtomicU64` cell holds.
pub uninterp spec fn atomic_u64_value(a: portable_atomic::AtomicU64) -> u64;

/// Relies on portable_atomic::AtomicU64::new: the fresh cell holds `v`.
#[verifier::external_body]
fn atomic_u64_new(v: u64) -> (r: portable_atomic::AtomicU64)
    ensures
        atomic_u64_value(r) == v,
{
    portable_atomic::AtomicU64::new(v)
}

/// Relies on portable_atomic::AtomicU64::load (acquire): returns the value
/// the cell holds. The exclusive borrow rules out a concurrent store.
#[verifier::external_body]
fn atomic_u64_load(a: &mut portable_atomic::AtomicU64) -> (r: u64)
    ensures
        r == atomic_u64_value(*old(a)),
        *final(a) == *old(a),
{
    a.load(portable_atomic::Ordering::Acquire)
}

/// Relies on portable_atomic::AtomicU64::compare_exchange (release on
/// success, relaxed on failure): when the cell holds `current` the call
/// stores `new` and returns Ok of the previous value; otherwise it stores
/// nothing and returns Err of the held value.
#[verifier::external_body]
fn atomic_u64_compare_exchange(
    a: &mut portable_atomic::AtomicU64,
    current: u64,
    new: u64,
) -> (r: Result<u64, u64>)
    ensures
        r == (if atomic_u64_value(*old(a)) == current {
            Ok::<u64, u64>(current)
        } else {
            Err::<u64, u64>(atomic_u64_value(*old(a)))
        }),
        atomic_u64_value(*final(a)) == (if atomic_u64_value(*old(a)) == current {
            new
        } else {
            atomic_u64_value(*old(a))
        }),
{
    a.compare_exchange(
        current,
        new,
        portable_atomic::Ordering::Release,
        portable_atomic::Ordering::Relaxed,
    )
}

/// A slot pointer kept in an atomic word: the head of a pool's free list.
pub struct AtomicSlotPointer {
    inner: portable_atomic::AtomicU64,
}

impl AtomicSlotPointer {
    /// The packed slot-pointer word the atomic cell holds.
    pub closed spec fn value(&self) -> u64 {
        atomic_u64_value(self.inner)
    }

    pub fn new(pool_id: MemPoolId, index: Option<SlotIndex>) -> (r: AtomicSlotPointer)
        requires
            index matches Some(i) ==> i <= MP_SLOT_IDX_NEXT_NONE,
        ensures
            r.value() == spec_pack(
                pool_id,
                MP_TAG_MIN_VALUE,
                match index {
                    Some(i) => i,
                    None => MP_SLOT_IDX_NEXT_NONE,
                },
            ),
    {
        let new_index: SlotIndex = if let Some(index) = index {
            index
        } else {
            MP_SLOT_IDX_NEXT_NONE
        };
        let slot_pointer = SlotPointer::pack(pool_id, MP_TAG_MIN_VALUE, new_index);
        AtomicSlotPointer { inner: atomic_u64_new(slot_pointer.raw()) }
    }

    pub fn from(slot_pointer: SlotPointer) -> (r: AtomicSlotPointer)
        ensures
            r.value() == slot_pointer@,
    {
        AtomicSlotPointer { inner: atomic_u64_new(slot_pointer.raw()) }
    }

    pub fn load(&mut self) -> (r: SlotPointer)
        ensures
            r@ == old(self).value(),
            *final(self) == *old(self),
    {
        let raw: u64 = atomic_u64_load(&mut self.inner);
        SlotPointer::from(raw)
    }

    /// Swaps the held pointer from `current` to `new` if and only if it
    /// still equals `current`; Err returns the pointer actually held.
    pub fn compare_exchange(&mut self, current: SlotPointer, new: SlotPointer) -> (r: Result<
        SlotPointer,
        SlotPointer,
    >)
        ensures
            old(self).value() == current@ ==> (r matches Ok(p) && p@ == current@
                && final(self).value() == new@),
            old(self).value() != current@ ==> (r matches Err(p) && p@ == old(self).value()
                && final(self).value() == old(self).value()),
    {
        match atomic_u64_compare_exchange(&mut self.inner, current.raw(), new.raw()) {
            Ok(prev) => Ok(SlotPointer::from(prev)),
            Err(held) => Err(SlotPointer::from(held)),
        }
    }
}

} // verus!
