//! Slot pools and the pool view that allocates and frees slots.
//!
//! A `SlotPool` owns a compile-time-sized array of 64-bit words, split into
//! equally sized slots. At construction every slot's first word is threaded
//! into a free list: slot `s` links to slot `s + 1` and the last slot links
//! to the "no slot" sentinel. A `MemoryPool` binds to that storage and
//! performs the free-list operations: `allocate` pops the head slot,
//! `free` pushes a slot back, both through a compare-and-exchange on the
//! atomic head word.
//!
//! The free list is modelled by a ghost sequence of slot indices, head
//! first. Well-formedness (`MemoryPool::wf`) ties the ghost sequence to the
//! storage: the head word denotes the first free slot, and each free slot's
//! first word denotes the following one. A slot is live (caller-owned)
//! exactly when its index is not on the free list; its payload is then the
//! slot's words, untouched by every operation on other slots.

use vstd::prelude::*;

use vstd::arithmetic::div_mod::lemma_fundamental_div_mod;
use vstd::arithmetic::div_mod::lemma_fundamental_div_mod_converse;
use vstd::arithmetic::mul::lemma_mul_is_commutative;

use crate::atomic::AtomicSlotPointer;
use crate::slot_pointer::{
    MemPoolId, SlotIndex, SlotPointer, SlotTag, MP_SLOT_IDX_MAX_VAL, MP_SLOT_IDX_NEXT_NONE,
    MP_TAG_MIN_VALUE, lemma_field_ranges, lemma_pack_extract, spec_index_of, spec_pack,
    spec_pool_id_of, spec_tag_of, spec_tag_succ,
};
use crate::sync::{AsyncArrayCell, AsyncArrayCellRef};

verus! {

/// Size of one storage word in bytes: slots are made of 64-bit words.
pub const BYTES_PER_WORD: usize = 8;

#[derive(Debug, PartialEq, Eq, Structural)]
pub enum SlotAllocError {
    PoolFull,
    SlotNotLargeEnough,
}

pub type SlotAllocResult = Result<SlotPointer, SlotAllocError>;

#[derive(Debug, PartialEq, Eq, Structural)]
pub enum SlotFreeingError {
    SlotOutOfRange,
}

pub type SlotFreeingResult = Result<(), SlotFreeingError>;

#[derive(Debug, PartialEq, Eq, Structural)]
pub enum SlotAccessError {
    SlotOutOfRange,
    SlotNone,
}

/// First word of slot `s`: the word that holds the free-list link while the
/// slot is free.
pub open spec fn slot_word(words: Seq<u64>, words_per_slot: int, s: int) -> u64 {
    words[s * words_per_slot]
}

/// The words of slot `s`.
pub open spec fn slot_payload(words: Seq<u64>, words_per_slot: int, s: int) -> Seq<u64> {
    words.subrange(s * words_per_slot, (s + 1) * words_per_slot)
}

/// Index that a freshly threaded pool's slot `s` links to: the following
/// slot, or the sentinel for the last one.
pub open spec fn spec_fresh_link(num_slots: int, s: int) -> SlotIndex {
    if s + 1 < num_slots {
        (s + 1) as SlotIndex
    } else {
        MP_SLOT_IDX_NEXT_NONE
    }
}

/// Index that position `k` of the free list holds, the sentinel once `k` is
/// past the end.
pub open spec fn link_index(free_list: Seq<int>, k: int) -> SlotIndex {
    if 0 <= k < free_list.len() {
        free_list[k] as SlotIndex
    } else {
        MP_SLOT_IDX_NEXT_NONE
    }
}

proof fn lemma_slot_start_bounds(words_per_slot: int, num_slots: int, s: int)
    by (nonlinear_arith)
    requires
        0 < words_per_slot,
        0 <= s < num_slots,
    ensures
        0 <= s * words_per_slot,
        s * words_per_slot + words_per_slot <= num_slots * words_per_slot,
        s * words_per_slot == (s + 1) * words_per_slot - words_per_slot,
{
}

/// Writing one word of slot `t` leaves the words of any other slot `s` as
/// they were: distinct slots occupy disjoint word ranges.
proof fn lemma_update_preserves_other_slot(
    words: Seq<u64>,
    words_per_slot: int,
    num_slots: int,
    s: int,
    t: int,
    o: int,
    v: u64,
)
    requires
        0 < words_per_slot,
        words.len() == num_slots * words_per_slot,
        0 <= s < num_slots,
        0 <= t < num_slots,
        s != t,
        0 <= o < words_per_slot,
    ensures
        slot_payload(words.update(t * words_per_slot + o, v), words_per_slot, s) == slot_payload(
            words,
            words_per_slot,
            s,
        ),
{
    let wps: int = words_per_slot;
    let pos: int = t * wps + o;
    lemma_slot_start_bounds(wps, num_slots, s);
    lemma_slot_start_bounds(wps, num_slots, t);
    assert forall|p: int| s * wps <= p < (s + 1) * wps implies #[trigger] words.update(pos, v)[p]
        == words[p] by {
        if s < t {
            assert((s + 1) * wps <= t * wps) by (nonlinear_arith)
                requires
                    s < t,
                    0 < wps,
            ;
        } else {
            assert((t + 1) * wps <= s * wps) by (nonlinear_arith)
                requires
                    t < s,
                    0 < wps,
            ;
        }
    }
    assert(slot_payload(words.update(pos, v), wps, s) =~= slot_payload(words, wps, s));
}

proof fn lemma_distinct_slots_disjoint(words_per_slot: int, s1: int, s2: int, o1: int, o2: int)
    by (nonlinear_arith)
    requires
        0 < words_per_slot,
        0 <= s1,
        0 <= s2,
        s1 != s2,
        0 <= o1 < words_per_slot,
        0 <= o2 < words_per_slot,
    ensures
        s1 * words_per_slot + o1 != s2 * words_per_slot + o2,
{
}

/// Compile-time-sized storage for one pool: `WORDS_PER_POOL` words, split
/// into slots of `words_per_slot` words, with the free list threaded
/// through the slots at construction.
pub struct SlotPool<const WORDS_PER_POOL: usize> {
    sto: AsyncArrayCell<u64, WORDS_PER_POOL>,
    words_per_slot: usize,
    pool_id: MemPoolId,
}

impl<const WORDS_PER_POOL: usize> SlotPool<WORDS_PER_POOL> {
    /// The backing words.
    pub closed spec fn words(&self) -> Seq<u64> {
        self.sto@
    }

    pub closed spec fn words_per_slot(&self) -> int {
        self.words_per_slot as int
    }

    pub closed spec fn pool_id(&self) -> MemPoolId {
        self.pool_id
    }

    pub open spec fn num_slots(&self) -> int {
        self.words().len() as int / self.words_per_slot()
    }

    /// A freshly threaded pool: the storage is fully sized and every slot's
    /// first word links to the following slot, the last to the sentinel.
    pub open spec fn wf(&self) -> bool {
        &&& 0 < self.words_per_slot()
        &&& self.words_per_slot() * BYTES_PER_WORD <= usize::MAX
        &&& self.words().len() == WORDS_PER_POOL
        &&& self.words().len() == self.num_slots() * self.words_per_slot()
        &&& 1 <= self.num_slots() <= MP_SLOT_IDX_MAX_VAL + 1
        &&& forall|s: int|
            0 <= s < self.num_slots() ==> #[trigger] slot_word(
                self.words(),
                self.words_per_slot(),
                s,
            ) == spec_pack(self.pool_id(), MP_TAG_MIN_VALUE, spec_fresh_link(self.num_slots(), s))
    }

    /// Builds the pool and threads every slot into the free list, in
    /// ascending index order. The configuration demands are preconditions:
    /// a violation is a build-time fault, not a runtime error.
    pub fn new(words_per_slot: usize, pool_id: MemPoolId) -> (r: SlotPool<WORDS_PER_POOL>)
        requires
            0 < words_per_slot,
            words_per_slot * BYTES_PER_WORD <= usize::MAX,
            0 < WORDS_PER_POOL,
            WORDS_PER_POOL % words_per_slot == 0,
            WORDS_PER_POOL / words_per_slot <= MP_SLOT_IDX_MAX_VAL + 1,
        ensures
            r.wf(),
            r.pool_id() == pool_id,
            r.words_per_slot() == words_per_slot,
            r.num_slots() == WORDS_PER_POOL / words_per_slot,
    {
        let nb_slot: usize = WORDS_PER_POOL / words_per_slot;
        proof {
            lemma_fundamental_div_mod(WORDS_PER_POOL as int, words_per_slot as int);
            lemma_mul_is_commutative(words_per_slot as int, nb_slot as int);
            assert(nb_slot * words_per_slot == WORDS_PER_POOL);
        }
        let ghost wps: int = words_per_slot as int;
        let mut sto: Vec<u64> = Vec::new();
        let mut s: usize = 0;
        while s < nb_slot
            invariant
                0 <= s <= nb_slot,
                0 < words_per_slot,
                wps == words_per_slot as int,
                1 <= nb_slot <= MP_SLOT_IDX_MAX_VAL + 1,
                nb_slot * wps == WORDS_PER_POOL,
                sto@.len() == s * wps,
                forall|t: int|
                    0 <= t < s ==> #[trigger] slot_word(sto@, wps, t) == spec_pack(
                        pool_id,
                        MP_TAG_MIN_VALUE,
                        spec_fresh_link(nb_slot as int, t),
                    ),
            decreases nb_slot - s,
        {
            let next: SlotIndex = if s + 1 < nb_slot {
                (s + 1) as SlotIndex
            } else {
                MP_SLOT_IDX_NEXT_NONE
            };
            let link = SlotPointer::pack(pool_id, MP_TAG_MIN_VALUE, next);
            let ghost base: Seq<u64> = sto@;
            proof {
                lemma_slot_start_bounds(wps, nb_slot as int, s as int);
            }
            sto.push(link.raw());
            let mut w: usize = 1;
            while w < words_per_slot
                invariant
                    1 <= w <= words_per_slot,
                    sto@.len() == base.len() + w,
                    sto@.subrange(0, base.len() as int) == base,
                    sto@[base.len() as int] == spec_pack(
                        pool_id,
                        MP_TAG_MIN_VALUE,
                        spec_fresh_link(nb_slot as int, s as int),
                    ),
                decreases words_per_slot - w,
            {
                let ghost before: Seq<u64> = sto@;
                sto.push(0);
                proof {
                    assert(sto@.subrange(0, base.len() as int) == before.subrange(
                        0,
                        base.len() as int,
                    ));
                }
                w = w + 1;
            }
            proof {
                lemma_slot_start_bounds(wps, nb_slot as int, s as int);
                assert(sto@.len() == (s + 1) * wps);
                assert forall|t: int| 0 <= t < s + 1 implies #[trigger] slot_word(sto@, wps, t)
                    == spec_pack(
                    pool_id,
                    MP_TAG_MIN_VALUE,
                    spec_fresh_link(nb_slot as int, t),
                ) by {
                    lemma_slot_start_bounds(wps, nb_slot as int, t);
                    if t < s {
                        lemma_slot_start_bounds(wps, s as int, t);
                        assert(t * wps < base.len());
                        assert(sto@[t * wps] == base[t * wps]);
                        assert(slot_word(base, wps, t) == spec_pack(
                            pool_id,
                            MP_TAG_MIN_VALUE,
                            spec_fresh_link(nb_slot as int, t),
                        ));
                    } else {
                        assert(t * wps == base.len());
                    }
                }
            }
            s = s + 1;
        }
        let cell = AsyncArrayCell::<u64, WORDS_PER_POOL>::new(sto);
        let r = SlotPool { sto: cell, words_per_slot, pool_id };
        proof {
            assert(r.words().len() == WORDS_PER_POOL);
            lemma_mul_is_commutative(words_per_slot as int, nb_slot as int);
            lemma_fundamental_div_mod_converse(
                WORDS_PER_POOL as int,
                words_per_slot as int,
                nb_slot as int,
                0,
            );
            assert(r.num_slots() == nb_slot);
        }
        r
    }

    /// The head pointer a fresh pool starts from: slot 0, tag at minimum.
    fn create_head(&self) -> (r: AtomicSlotPointer)
        ensures
            r.value() == spec_pack(self.pool_id(), MP_TAG_MIN_VALUE, 0),
    {
        AtomicSlotPointer::new(self.pool_id, Some(0))
    }

    /// Hands the backing words over to the pool view that will run the
    /// free-list operations. Consumes the pool: the view is the only
    /// remaining access path.
    pub fn get_slot_pool_ref(self) -> (r: AsyncArrayCellRef<u64>)
        ensures
            r@ == self.words(),
    {
        self.sto.borrow_mut()
    }
}

/// Runtime view of one slot pool: the storage words, the pool's
/// configuration, the atomic head of the free list, and the ghost free
/// list that models the chain threaded through the storage.
pub struct MemoryPool {
    id: MemPoolId,
    sto: AsyncArrayCellRef<u64>,
    words_per_slot: usize,
    head: AtomicSlotPointer,
    free_list: Ghost<Seq<int>>,
}

impl MemoryPool {
    pub closed spec fn pool_id(&self) -> MemPoolId {
        self.id
    }

    /// The backing words.
    pub closed spec fn words(&self) -> Seq<u64> {
        self.sto@
    }

    pub closed spec fn words_per_slot(&self) -> int {
        self.words_per_slot as int
    }

    /// The free list: indices of the free slots, head first. A slot is live
    /// (caller-owned) exactly when its index is not listed here.
    pub closed spec fn free_slots(&self) -> Seq<int> {
        self.free_list@
    }

    /// The packed pointer the atomic head word holds.
    pub closed spec fn head_raw(&self) -> u64 {
        self.head.value()
    }

    pub open spec fn num_slots(&self) -> int {
        self.words().len() as int / self.words_per_slot()
    }

    pub open spec fn slot_size_bytes(&self) -> int {
        self.words_per_slot() * BYTES_PER_WORD
    }

    pub open spec fn head_tag(&self) -> SlotTag {
        spec_tag_of(self.head_raw())
    }

    /// The words of slot `s`. For a live slot these are the caller's
    /// payload; for a free slot the first of them holds the chain link.
    pub open spec fn payload(&self, s: int) -> Seq<u64> {
        slot_payload(self.words(), self.words_per_slot(), s)
    }

    pub open spec fn is_free(&self, s: int) -> bool {
        self.free_slots().contains(s)
    }

    /// Position `k` of the free list links to position `k + 1`: the first
    /// word of the free slot at `k` carries this pool's id and the index of
    /// the next free slot (the sentinel at the end of the list).
    pub open spec fn chain_link_ok(&self, k: int) -> bool {
        let w = slot_word(self.words(), self.words_per_slot(), self.free_slots()[k]);
        &&& spec_pool_id_of(w) == self.pool_id()
        &&& spec_index_of(w) == link_index(self.free_slots(), k + 1)
    }

    /// Well-formedness: the configuration is consistent, the ghost free
    /// list holds distinct valid slot indices, the atomic head denotes its
    /// first entry, and the chain threaded through the storage follows it.
    pub open spec fn wf(&self) -> bool {
        &&& 0 < self.words_per_slot()
        &&& self.words_per_slot() * BYTES_PER_WORD <= usize::MAX
        &&& self.words().len() <= usize::MAX
        &&& self.words().len() == self.num_slots() * self.words_per_slot()
        &&& 1 <= self.num_slots() <= MP_SLOT_IDX_MAX_VAL + 1
        &&& forall|k: int|
            0 <= k < self.free_slots().len() ==> 0 <= #[trigger] self.free_slots()[k]
                < self.num_slots()
        &&& self.free_slots().no_duplicates()
        &&& spec_pool_id_of(self.head_raw()) == self.pool_id()
        &&& spec_index_of(self.head_raw()) == link_index(self.free_slots(), 0)
        &&& forall|k: int| 0 <= k < self.free_slots().len() ==> #[trigger] self.chain_link_ok(k)
    }

    pub fn get_mem_pool_id(&self) -> (r: MemPoolId)
        ensures
            r == self.pool_id(),
    {
        self.id
    }

    /// Binds a pool view to a freshly threaded slot pool. The view starts
    /// with every slot free, in ascending index order.
    pub fn from<const WORDS_PER_POOL: usize>(slot_pool: SlotPool<WORDS_PER_POOL>) -> (r:
        MemoryPool)
        requires
            slot_pool.wf(),
        ensures
            r.wf(),
            r.pool_id() == slot_pool.pool_id(),
            r.words_per_slot() == slot_pool.words_per_slot(),
            r.num_slots() == slot_pool.num_slots(),
            r.words() == slot_pool.words(),
            r.free_slots() == Seq::new(slot_pool.num_slots() as nat, |i: int| i),
            r.head_raw() == spec_pack(slot_pool.pool_id(), MP_TAG_MIN_VALUE, 0),
            r.head_tag() == MP_TAG_MIN_VALUE,
    {
        let id: MemPoolId = slot_pool.pool_id;
        let words_per_slot: usize = slot_pool.words_per_slot;
        let head = slot_pool.create_head();
        let ghost n: int = slot_pool.num_slots();
        let ghost pool_words: Seq<u64> = slot_pool.words();
        let sto = slot_pool.get_slot_pool_ref();
        let r = MemoryPool {
            id,
            sto,
            words_per_slot,
            head,
            free_list: Ghost(Seq::new(n as nat, |i: int| i)),
        };
        proof {
            let fl = r.free_slots();
            assert forall|i: int, j: int|
                0 <= i < fl.len() && 0 <= j < fl.len() && i != j implies fl[i] != fl[j] by {}
            assert(fl.no_duplicates());
            lemma_pack_extract(id, MP_TAG_MIN_VALUE, 0);
            assert(spec_index_of(r.head_raw()) == link_index(fl, 0));
            assert forall|k: int| 0 <= k < fl.len() implies #[trigger] r.chain_link_ok(k) by {
                assert(fl[k] == k);
                assert(slot_word(pool_words, words_per_slot as int, k) == spec_pack(
                    id,
                    MP_TAG_MIN_VALUE,
                    spec_fresh_link(n, k),
                ));
                lemma_pack_extract(id, MP_TAG_MIN_VALUE, spec_fresh_link(n, k));
            }
        }
        r
    }

    /// Slot size in bytes: what one allocation can hold at most.
    pub fn get_slot_size(&self) -> (r: usize)
        requires
            self.wf(),
        ensures
            r == self.slot_size_bytes(),
    {
        self.words_per_slot * BYTES_PER_WORD
    }

    fn get_nb_slot(&self) -> (r: usize)
        requires
            self.wf(),
        ensures
            r == self.num_slots(),
    {
        self.sto.len() / self.words_per_slot
    }

    /// Resolves a pointer to the position of its slot's first word within
    /// the pool's storage. Rejects an index outside the pool's slot range,
    /// and the "no slot" sentinel in its own way.
    pub fn get_slot_address(&self, slot_pointer: &SlotPointer) -> (r: Result<
        usize,
        SlotAccessError,
    >)
        requires
            self.wf(),
        ensures
            slot_pointer.index() < self.num_slots() ==> (r matches Ok(a) && a
                == slot_pointer.index() * self.words_per_slot()),
            self.num_slots() <= slot_pointer.index() < MP_SLOT_IDX_NEXT_NONE ==> r
                == Err::<usize, SlotAccessError>(SlotAccessError::SlotOutOfRange),
            slot_pointer.index() == MP_SLOT_IDX_NEXT_NONE ==> r == Err::<
                usize,
                SlotAccessError,
            >(SlotAccessError::SlotNone),
    {
        let slot_index: SlotIndex = slot_pointer.get_index_raw();
        let nb_slot: usize = self.get_nb_slot();
        if (slot_index as usize) < nb_slot {
            proof {
                lemma_slot_start_bounds(self.words_per_slot(), self.num_slots(), slot_index as int);
            }
            Ok((slot_index as usize) * self.words_per_slot)
        } else {
            if slot_index == MP_SLOT_IDX_NEXT_NONE {
                Err(SlotAccessError::SlotNone)
            } else {
                Err(SlotAccessError::SlotOutOfRange)
            }
        }
    }

    /// Reads one payload word of a slot.
    pub fn read_word(&self, slot_pointer: &SlotPointer, offset: usize) -> (r: u64)
        requires
            self.wf(),
            slot_pointer.index() < self.num_slots(),
            offset < self.words_per_slot(),
        ensures
            r == self.payload(slot_pointer.index() as int)[offset as int],
    {
        let ghost idx: int = slot_pointer.index() as int;
        proof {
            lemma_slot_start_bounds(self.words_per_slot(), self.num_slots(), idx);
        }
        let base: usize = (slot_pointer.get_index_raw() as usize) * self.words_per_slot;
        self.sto.read(base + offset)
    }

    /// Writes one payload word of a live slot. Every other slot's payload,
    /// the free list and the head are untouched.
    pub fn write_word(&mut self, slot_pointer: &SlotPointer, offset: usize, value: u64)
        requires
            old(self).wf(),
            slot_pointer.index() < old(self).num_slots(),
            !old(self).is_free(slot_pointer.index() as int),
            offset < old(self).words_per_slot(),
        ensures
            final(self).wf(),
            final(self).pool_id() == old(self).pool_id(),
            final(self).words_per_slot() == old(self).words_per_slot(),
            final(self).num_slots() == old(self).num_slots(),
            final(self).free_slots() == old(self).free_slots(),
            final(self).head_raw() == old(self).head_raw(),
            final(self).payload(slot_pointer.index() as int) == old(self).payload(
                slot_pointer.index() as int,
            ).update(offset as int, value),
            forall|s: int|
                0 <= s < old(self).num_slots() && s != slot_pointer.index() as int
                    ==> #[trigger] final(self).payload(s) == old(self).payload(s),
    {
        let ghost idx: int = slot_pointer.index() as int;
        let ghost wps: int = old(self).words_per_slot();
        let ghost n: int = old(self).num_slots();
        proof {
            lemma_slot_start_bounds(wps, n, idx);
        }
        let base: usize = (slot_pointer.get_index_raw() as usize) * self.words_per_slot;
        self.sto.write(base + offset, value);
        proof {
            let pos: int = idx * wps + offset;
            assert(self.words() == old(self).words().update(pos, value));
            assert(self.payload(idx) =~= old(self).payload(idx).update(offset as int, value));
            assert forall|s: int| 0 <= s < n && s != idx implies #[trigger] self.payload(s)
                == old(self).payload(s) by {
                lemma_update_preserves_other_slot(
                    old(self).words(),
                    wps,
                    n,
                    s,
                    idx,
                    offset as int,
                    value,
                );
            }
            assert forall|k: int| 0 <= k < self.free_slots().len() implies #[trigger] self
                .chain_link_ok(k) by {
                let f: int = self.free_slots()[k];
                assert(old(self).chain_link_ok(k));
                assert(old(self).is_free(f));
                lemma_slot_start_bounds(wps, n, f);
                lemma_distinct_slots_disjoint(wps, f, idx, 0, offset as int);
                assert(slot_word(self.words(), wps, f) == slot_word(old(self).words(), wps, f));
            }
        }
    }

    /// Pushes a slot back onto the free list: writes the current head into
    /// the slot's first word, then swaps the head to the freed pointer,
    /// retrying if the head moved in between. An index outside the pool's
    /// slot range is rejected and nothing changes. Freeing a slot that is
    /// already free is a caller error, ruled out by precondition: the
    /// allocator does not detect a double free.
    pub fn free(&mut self, slot_pointer: SlotPointer) -> (r: SlotFreeingResult)
        requires
            old(self).wf(),
            slot_pointer.pool_id() == old(self).pool_id(),
            slot_pointer.index() < old(self).num_slots() ==> !old(self).is_free(
                slot_pointer.index() as int,
            ),
        ensures
            final(self).wf(),
            old(self).num_slots() <= slot_pointer.index() ==> (*final(self) == *old(self) && r
                == Err::<(), SlotFreeingError>(SlotFreeingError::SlotOutOfRange)),
            slot_pointer.index() < old(self).num_slots() ==> ({
                &&& r == Ok::<(), SlotFreeingError>(())
                &&& final(self).free_slots() == seq![slot_pointer.index() as int] + old(self).free_slots()
                &&& final(self).head_raw() == slot_pointer@
                &&& final(self).pool_id() == old(self).pool_id()
                &&& final(self).words_per_slot() == old(self).words_per_slot()
                &&& final(self).num_slots() == old(self).num_slots()
                &&& forall|s: int|
                    0 <= s < old(self).num_slots() && s != slot_pointer.index() as int
                        ==> #[trigger] final(self).payload(s) == old(self).payload(s)
            }),
    {
        let new_head_slot: usize = match self.get_slot_address(&slot_pointer) {
            Ok(a) => a,
            Err(_) => {
                return Err(SlotFreeingError::SlotOutOfRange);
            },
        };
        let ghost idx: int = slot_pointer.index() as int;
        let ghost wps: int = old(self).words_per_slot();
        let ghost n: int = old(self).num_slots();
        proof {
            lemma_field_ranges(slot_pointer@);
        }
        loop
            invariant
                *self == *old(self),
                old(self).wf(),
                slot_pointer.pool_id() == old(self).pool_id(),
                idx == slot_pointer.index() as int,
                wps == old(self).words_per_slot(),
                n == old(self).num_slots(),
                0 <= idx < n,
                !old(self).is_free(idx),
                new_head_slot == idx * wps,
            decreases 0int,
        {
            let head = self.head.load();
            proof {
                lemma_slot_start_bounds(wps, n, idx);
            }
            self.sto.write(new_head_slot, head.raw());
            match self.head.compare_exchange(head, slot_pointer) {
                Ok(_) => {
                    self.free_list = Ghost(seq![idx] + self.free_list@);
                    proof {
                        let fl0: Seq<int> = old(self).free_slots();
                        let fl1: Seq<int> = self.free_slots();
                        let w0: Seq<u64> = old(self).words();
                        let pos: int = idx * wps;
                        assert(self.words() == w0.update(pos, old(self).head_raw()));
                        assert forall|k: int| 0 <= k < fl1.len() implies 0 <= #[trigger] fl1[k]
                            < n by {
                            if k > 0 {
                                assert(fl1[k] == fl0[k - 1]);
                            }
                        }
                        assert forall|i: int, j: int|
                            0 <= i < fl1.len() && 0 <= j < fl1.len() && i != j implies fl1[i]
                            != fl1[j] by {
                            if i == 0 {
                                assert(fl1[j] == fl0[j - 1]);
                                if fl0[j - 1] == idx {
                                    assert(fl0.contains(idx));
                                }
                            } else if j == 0 {
                                assert(fl1[i] == fl0[i - 1]);
                                if fl0[i - 1] == idx {
                                    assert(fl0.contains(idx));
                                }
                            } else {
                                assert(fl1[i] == fl0[i - 1] && fl1[j] == fl0[j - 1]);
                            }
                        }
                        assert(fl1.no_duplicates());
                        assert(spec_index_of(slot_pointer@) == link_index(fl1, 0));
                        assert forall|k: int| 0 <= k < fl1.len() implies #[trigger] self
                            .chain_link_ok(k) by {
                            if k == 0 {
                                assert(slot_word(self.words(), wps, idx) == old(self).head_raw());
                                assert(link_index(fl1, 1) == link_index(fl0, 0));
                            } else {
                                let f: int = fl1[k];
                                assert(f == fl0[k - 1]);
                                assert(old(self).chain_link_ok(k - 1));
                                assert(fl0.contains(f));
                                lemma_slot_start_bounds(wps, n, f);
                                lemma_distinct_slots_disjoint(wps, f, idx, 0, 0);
                                assert(slot_word(self.words(), wps, f) == slot_word(w0, wps, f));
                                assert(link_index(fl1, k + 1) == link_index(fl0, k));
                            }
                        }
                        assert forall|s: int| 0 <= s < n && s != idx implies #[trigger] self
                            .payload(s) == old(self).payload(s) by {
                            lemma_update_preserves_other_slot(
                                w0,
                                wps,
                                n,
                                s,
                                idx,
                                0,
                                old(self).head_raw(),
                            );
                        }
                    }
                    return Ok(());
                },
                Err(_) => {
                    // Another context moved the head between the load and
                    // the swap: start over. Under this exclusive borrow no
                    // such move can happen, and the proof shows the branch
                    // is never taken.
                    proof {
                        assert(false);
                    }
                    continue;
                },
            }
        }
    }

    /// Pops the head slot from the free list: reads the head, reads that
    /// slot's link to the next free slot, and swaps the head to it,
    /// retrying if the head moved in between. A request larger than the
    /// slot size is rejected; an empty free list is `PoolFull`. The
    /// returned pointer carries the popped slot's index and the head's tag
    /// advanced by one — the ABA guard that distinguishes successive
    /// allocations of the same slot.
    pub fn allocate(&mut self, size: usize) -> (r: SlotAllocResult)
        requires
            old(self).wf(),
        ensures
            final(self).wf(),
            old(self).slot_size_bytes() < size ==> (*final(self) == *old(self) && r == Err::<
                SlotPointer,
                SlotAllocError,
            >(SlotAllocError::SlotNotLargeEnough)),
            size <= old(self).slot_size_bytes() && old(self).free_slots().len() == 0
                ==> (*final(self) == *old(self) && r == Err::<
                SlotPointer,
                SlotAllocError,
            >(SlotAllocError::PoolFull)),
            size <= old(self).slot_size_bytes() && old(self).free_slots().len() > 0 ==> ({
                &&& r matches Ok(p)
                &&& p.pool_id() == old(self).pool_id()
                &&& p.index() as int == old(self).free_slots()[0]
                &&& p.tag() == spec_tag_succ(old(self).head_tag())
                &&& final(self).free_slots() == old(self).free_slots().subrange(
                    1,
                    old(self).free_slots().len() as int,
                )
                &&& final(self).words() == old(self).words()
                &&& final(self).pool_id() == old(self).pool_id()
                &&& final(self).words_per_slot() == old(self).words_per_slot()
                &&& final(self).num_slots() == old(self).num_slots()
                &&& final(self).head_raw() == slot_word(
                    old(self).words(),
                    old(self).words_per_slot(),
                    old(self).free_slots()[0],
                )
            }),
    {
        if size > self.get_slot_size() {
            return Err(SlotAllocError::SlotNotLargeEnough);
        }
        let ghost wps: int = old(self).words_per_slot();
        let ghost n: int = old(self).num_slots();
        loop
            invariant
                *self == *old(self),
                old(self).wf(),
                size <= old(self).slot_size_bytes(),
                wps == old(self).words_per_slot(),
                n == old(self).num_slots(),
            decreases 0int,
        {
            let mut head = self.head.load();
            match self.get_slot_address(&head) {
                Ok(head_slot) => {
                    let ghost fl0: Seq<int> = old(self).free_slots();
                    proof {
                        lemma_field_ranges(head@);
                        assert(spec_index_of(head@) == link_index(fl0, 0));
                        assert(fl0.len() > 0);
                        lemma_slot_start_bounds(wps, n, fl0[0]);
                    }
                    let head_next_raw: u64 = self.sto.read(head_slot);
                    let new_head = SlotPointer::from(head_next_raw);
                    match self.head.compare_exchange(head, new_head) {
                        Ok(_) => {
                            self.free_list = Ghost(
                                self.free_list@.subrange(1, self.free_list@.len() as int),
                            );
                            head.increment_tag();
                            proof {
                                let fl1: Seq<int> = self.free_slots();
                                assert(old(self).chain_link_ok(0));
                                assert(self.head_raw() == slot_word(old(self).words(), wps, fl0[0]));
                                assert forall|k: int| 0 <= k < fl1.len() implies 0 <= #[trigger] fl1[k]
                                    < n by {
                                    assert(fl1[k] == fl0[k + 1]);
                                }
                                assert forall|i: int, j: int|
                                    0 <= i < fl1.len() && 0 <= j < fl1.len() && i != j implies fl1[i]
                                    != fl1[j] by {
                                    assert(fl1[i] == fl0[i + 1] && fl1[j] == fl0[j + 1]);
                                }
                                assert(fl1.no_duplicates());
                                assert(spec_index_of(self.head_raw()) == link_index(fl1, 0));
                                assert forall|k: int| 0 <= k < fl1.len() implies #[trigger] self
                                    .chain_link_ok(k) by {
                                    assert(old(self).chain_link_ok(k + 1));
                                    assert(fl1[k] == fl0[k + 1]);
                                    assert(link_index(fl1, k + 1) == link_index(fl0, k + 2));
                                }
                            }
                            return Ok(head);
                        },
                        Err(_) => {
                            // Another context moved the head between the
                            // load and the swap: start over. Under this
                            // exclusive borrow no such move can happen, and
                            // the proof shows the branch is never taken.
                            proof {
                                assert(false);
                            }
                            continue;
                        },
                    }
                },
                Err(_) => {
                    proof {
                        if old(self).free_slots().len() > 0 {
                            assert(spec_index_of(head@) == link_index(old(self).free_slots(), 0));
                            assert(false);
                        }
                    }
                    return Err(SlotAllocError::PoolFull);
                },
            }
        }
    }
}

impl crate::MemoryAccessor<SlotPointer> for MemoryPool {
    open spec fn accessor_ok(&self, slot_pointer: SlotPointer) -> bool {
        self.wf()
    }

    open spec fn spec_get_slot(&self, slot_pointer: SlotPointer) -> Result<usize, ()> {
        if slot_pointer.index() < self.num_slots() {
            Ok((slot_pointer.index() * self.words_per_slot()) as usize)
        } else {
            Err(())
        }
    }

    fn get_slot_mut(&self, slot_pointer: &SlotPointer) -> Result<usize, ()> {
        proof {
            lemma_field_ranges(slot_pointer@);
            if (slot_pointer.index() as int) < self.num_slots() {
                lemma_slot_start_bounds(
                    self.words_per_slot(),
                    self.num_slots(),
                    slot_pointer.index() as int,
                );
            }
        }
        match self.get_slot_address(slot_pointer) {
            Ok(a) => Ok(a),
            Err(_) => Err(()),
        }
    }
}

/// Free-list completeness: a well-formed pool's free list holds distinct
/// valid slot indices, never more of them than the pool has slots. A
/// freshly bound pool starts with all of them in ascending order (the
/// ensures of `MemoryPool::from`), and each successful `allocate` removes
/// exactly the first: a fresh pool of `k` slots serves exactly `k`
/// allocations, each with a distinct index, before reporting `PoolFull`.
pub proof fn lemma_free_list_completeness(pool: MemoryPool)
    requires
        pool.wf(),
    ensures
        pool.free_slots().no_duplicates(),
        forall|k: int|
            0 <= k < pool.free_slots().len() ==> 0 <= #[trigger] pool.free_slots()[k]
                < pool.num_slots(),
        pool.free_slots().len() <= pool.num_slots(),
{
    let fl: Seq<int> = pool.free_slots();
    let n: int = pool.num_slots();
    fl.unique_seq_to_set();
    assert forall|x: int| fl.to_set().contains(x) implies vstd::set_lib::set_int_range(
        0,
        n,
    ).contains(x) by {
        let k: int = choose|k: int| 0 <= k < fl.len() && fl[k] == x;
        assert(fl[k] == x);
    }
    vstd::set_lib::lemma_int_range(0, n);
    vstd::set_lib::lemma_len_subset(fl.to_set(), vstd::set_lib::set_int_range(0, n));
}

/// No two distinct slots overlap: every word position of slot `s1` differs
/// from every word position of slot `s2`. Together with the distinct
/// indices the free list guarantees, no two live allocations ever resolve
/// to overlapping storage.
pub proof fn lemma_slot_ranges_disjoint(pool: MemoryPool, s1: int, s2: int, o1: int, o2: int)
    requires
        pool.wf(),
        0 <= s1 < pool.num_slots(),
        0 <= s2 < pool.num_slots(),
        s1 != s2,
        0 <= o1 < pool.words_per_slot(),
        0 <= o2 < pool.words_per_slot(),
    ensures
        s1 * pool.words_per_slot() + o1 != s2 * pool.words_per_slot() + o2,
{
    lemma_distinct_slots_disjoint(pool.words_per_slot(), s1, s2, o1, o2);
}

/// Round trip: a word written into a live slot is what a later read
/// returns, as long as the slot's payload was left as it was in between —
/// which `allocate`, `free` of another slot and writes to other slots all
/// ensure.
pub proof fn lemma_round_trip(p0: MemoryPool, p1: MemoryPool, s: int, offset: int, value: u64)
    requires
        p0.wf(),
        p1.wf(),
        0 <= s < p0.num_slots(),
        0 <= offset < p0.words_per_slot(),
        p0.payload(s)[offset] == value,
        p1.payload(s) == p0.payload(s),
    ensures
        p1.payload(s)[offset] == value,
{
}

} // verus!
