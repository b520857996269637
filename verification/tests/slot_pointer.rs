use kaori_rtos::slot_pointer::{
    SlotPointer, MP_ID_SH, MP_SLOT_IDX_NEXT_NONE, MP_TAG_MAX_VALUE, MP_TAG_SH,
};

fn raw(pool_id: u8, tag: u64, index: u32) -> u64 {
    ((pool_id as u64) << MP_ID_SH) | (tag << MP_TAG_SH) | (index as u64)
}

#[test]
fn pointer_field_round_trip() {
    let p = SlotPointer::from(raw(3, 5, 7));
    assert_eq!(p.get_mem_pool_id(), 3);
    assert_eq!(p.get_index_raw(), 7);
    assert_eq!(p.get_index(), Some(7));
}

#[test]
fn pointer_none_sentinel() {
    let p = SlotPointer::from(raw(0, 0, MP_SLOT_IDX_NEXT_NONE));
    assert_eq!(p.get_index_raw(), MP_SLOT_IDX_NEXT_NONE);
    assert_eq!(p.get_index(), None);
}

#[test]
fn tag_increment_keeps_fields() {
    let mut p = SlotPointer::from(raw(2, 5, 9));
    p.increment_tag();
    assert_eq!(p, SlotPointer::from(raw(2, 6, 9)));
    assert_eq!(p.get_mem_pool_id(), 2);
    assert_eq!(p.get_index_raw(), 9);
}

#[test]
fn tag_wraparound_at_max() {
    let mut p = SlotPointer::from(raw(2, MP_TAG_MAX_VALUE, 9));
    p.increment_tag();
    assert_eq!(p, SlotPointer::from(raw(2, 0, 9)));
    assert_eq!(p.get_mem_pool_id(), 2);
    assert_eq!(p.get_index_raw(), 9);
}
