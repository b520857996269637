//! The packed slot-pointer encoding.
//!
//! A slot pointer identifies one slot of one memory pool and carries an
//! ABA-guard tag. All three fields are packed into a single `u64` word so
//! that the whole pointer can be swapped atomically:
//!
//! - bits 56..64: memory-pool id,
//! - bits 20..56: tag, a counter that wraps at its maximum value,
//! - bits 0..20: slot index, with the highest value reserved as the
//!   "no slot" sentinel that terminates a free list.

use vstd::prelude::*;

verus! {

/// Slot index within a pool. Only the low 20 bits of the packed word are used.
pub type SlotIndex = u32;
/// Identifier of a memory pool within an allocator.
pub type MemPoolId = u8;
/// ABA-guard tag carried by every slot pointer.
pub type SlotTag = u64;

pub const MP_ID_SH: u64 = 56;
pub const MP_ID_MSK: u64 = 0xff00_0000_0000_0000;
pub const MP_TAG_SH: u64 = 20;
pub const MP_TAG_MSK: u64 = 0x00ff_ffff_fff0_0000;
pub const MP_TAG_MAX_VALUE: SlotTag = 0xf_ffff_ffff;
pub const MP_TAG_MIN_VALUE: SlotTag = 0;
pub const MP_SLOT_IDX_MSK: u64 = 0x000f_ffff;
pub const MP_SLOT_IDX_MAX_VAL: SlotIndex = 0xf_fffe;
pub const MP_SLOT_IDX_MIN_VAL: SlotIndex = 0;
pub const MP_SLOT_IDX_NEXT_NONE: SlotIndex = 0xf_ffff;

/// Pool id stored in a packed slot-pointer word.
pub open spec fn spec_pool_id_of(raw: u64) -> MemPoolId {
    ((raw & MP_ID_MSK) >> MP_ID_SH) as u8
}

/// Tag stored in a packed slot-pointer word.
pub open spec fn spec_tag_of(raw: u64) -> SlotTag {
    (raw & MP_TAG_MSK) >> MP_TAG_SH
}

/// Slot index stored in a packed slot-pointer word, sentinel included.
pub open spec fn spec_index_of(raw: u64) -> SlotIndex {
    (raw & MP_SLOT_IDX_MSK) as u32
}

/// The unique packed word holding the given pool id, tag and index.
pub open spec fn spec_pack(pool_id: MemPoolId, tag: SlotTag, index: SlotIndex) -> u64 {
    ((pool_id as u64) << MP_ID_SH) | ((tag as u64) << MP_TAG_SH) | (index as u64)
}

/// The tag that follows `tag`: one more, wrapping at the maximum back to the
/// minimum.
pub open spec fn spec_tag_succ(tag: SlotTag) -> SlotTag {
    if tag == MP_TAG_MAX_VALUE {
        MP_TAG_MIN_VALUE
    } else {
        (tag + 1) as SlotTag
    }
}

/// Every field extracted from a packed word lies within its field's range.
pub proof fn lemma_field_ranges(raw: u64)
    by (bit_vector)
    ensures
        spec_tag_of(raw) <= MP_TAG_MAX_VALUE,
        spec_index_of(raw) <= MP_SLOT_IDX_NEXT_NONE,
{
}

/// Packing three in-range fields and extracting them again gives the fields
/// back: the encoding loses nothing.
pub proof fn lemma_pack_extract(pool_id: MemPoolId, tag: SlotTag, index: SlotIndex)
    by (bit_vector)
    requires
        tag <= MP_TAG_MAX_VALUE,
        index <= MP_SLOT_IDX_NEXT_NONE,
    ensures
        spec_pool_id_of(spec_pack(pool_id, tag, index)) == pool_id,
        spec_tag_of(spec_pack(pool_id, tag, index)) == tag,
        spec_index_of(spec_pack(pool_id, tag, index)) == index,
{
}

/// Extracting the three fields of a word and packing them again gives the
/// word back: the three fields cover all 64 bits, so the encoding is
/// collision-free — two words that agree on all three fields are equal.
pub proof fn lemma_extract_pack(raw: u64)
    by (bit_vector)
    ensures
        spec_pack(spec_pool_id_of(raw), spec_tag_of(raw), spec_index_of(raw)) == raw,
{
}

/// A packed integer encoding {memory-pool id, ABA-guard tag, slot index}.
/// Pure value type: created by a successful allocation, consumed by a free.
#[derive(Clone, Copy, PartialEq, Eq, Structural, Debug)]
pub struct SlotPointer {
    inner: u64,
}

impl View for SlotPointer {
    type V = u64;

    closed spec fn view(&self) -> u64 {
        self.inner
    }
}

impl SlotPointer {
    /// Pool id field of this pointer.
    pub open spec fn pool_id(&self) -> MemPoolId {
        spec_pool_id_of(self@)
    }

    /// Tag field of this pointer.
    pub open spec fn tag(&self) -> SlotTag {
        spec_tag_of(self@)
    }

    /// Index field of this pointer, sentinel included.
    pub open spec fn index(&self) -> SlotIndex {
        spec_index_of(self@)
    }

    pub fn from(raw_slot_pointer: u64) -> (r: SlotPointer)
        ensures
            r@ == raw_slot_pointer,
    {
        SlotPointer { inner: raw_slot_pointer }
    }

    /// The packed word itself.
    pub(crate) fn raw(&self) -> (r: u64)
        ensures
            r == self@,
    {
        self.inner
    }

    /// Builds the pointer holding the given fields.
    pub fn pack(pool_id: MemPoolId, tag: SlotTag, index: SlotIndex) -> (r: SlotPointer)
        requires
            tag <= MP_TAG_MAX_VALUE,
            index <= MP_SLOT_IDX_NEXT_NONE,
        ensures
            r@ == spec_pack(pool_id, tag, index),
            r.pool_id() == pool_id,
            r.tag() == tag,
            r.index() == index,
    {
        proof {
            lemma_pack_extract(pool_id, tag, index);
        }
        SlotPointer { inner: ((pool_id as u64) << MP_ID_SH) | ((tag as u64) << MP_TAG_SH) | (index as u64) }
    }

    pub fn get_mem_pool_id(&self) -> (r: MemPoolId)
        ensures
            r == self.pool_id(),
    {
        ((self.inner & MP_ID_MSK) >> MP_ID_SH) as u8
    }

    /// Advances the ABA-guard tag, wrapping from its maximum value back to
    /// the minimum; pool id and index are untouched.
    pub fn increment_tag(&mut self)
        ensures
            final(self).pool_id() == old(self).pool_id(),
            final(self).index() == old(self).index(),
            final(self).tag() == spec_tag_succ(old(self).tag()),
    {
        let mem_pool_id: MemPoolId = ((self.inner & MP_ID_MSK) >> MP_ID_SH) as u8;
        let mut tag: SlotTag = (self.inner & MP_TAG_MSK) >> MP_TAG_SH;
        let index: SlotIndex = (self.inner & MP_SLOT_IDX_MSK) as u32;
        proof {
            lemma_field_ranges(self.inner);
        }
        if tag == MP_TAG_MAX_VALUE {
            tag = MP_TAG_MIN_VALUE;
        } else {
            tag = tag + 1;
        }
        let ghost raw: u64 = self.inner;
        self.inner = ((mem_pool_id as u64) << MP_ID_SH) | ((tag as u64) << MP_TAG_SH) | (index as u64);
        proof {
            lemma_field_ranges(raw);
            lemma_pack_extract(
                spec_pool_id_of(raw),
                spec_tag_succ(spec_tag_of(raw)),
                spec_index_of(raw),
            );
            assert(mem_pool_id == spec_pool_id_of(raw) && index == spec_index_of(raw)
                && tag == spec_tag_succ(spec_tag_of(raw)));
        }
    }

    pub fn get_index_raw(&self) -> (r: SlotIndex)
        ensures
            r == self.index(),
    {
        (self.inner & MP_SLOT_IDX_MSK) as u32
    }

    /// The slot index this pointer denotes, or `None` for the "no slot"
    /// sentinel that ends a free list.
    pub fn get_index(&self) -> (r: Option<SlotIndex>)
        ensures
            self.index() == MP_SLOT_IDX_NEXT_NONE ==> r == Option::<SlotIndex>::None,
            self.index() != MP_SLOT_IDX_NEXT_NONE ==> r == Some(self.index()),
    {
        let index: SlotIndex = (self.inner & MP_SLOT_IDX_MSK) as u32;
        if index != MP_SLOT_IDX_NEXT_NONE {
            Some(index)
        } else {
            None
        }
    }
}

/// The encoding is collision-free: two pointers that agree on pool id, tag
/// and index are the same pointer.
pub proof fn lemma_encoding_injective(a: SlotPointer, b: SlotPointer)
    requires
        a.pool_id() == b.pool_id(),
        a.tag() == b.tag(),
        a.index() == b.index(),
    ensures
        a == b,
{
    lemma_extract_pack(a@);
    lemma_extract_pack(b@);
}

} // verus!
