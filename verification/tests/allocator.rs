use kaori_rtos::allocator::{AllocationError, FreeError, MemoryPoolAllocator};
use kaori_rtos::memory_pool::{MemoryPool, SlotPool};
use kaori_rtos::slot_pointer::{SlotPointer, MP_ID_SH};
use rand::Rng;

fn single_pool_allocator() -> MemoryPoolAllocator {
    const POOL0_WORDS_PER_SLOT: usize = 1;
    const POOL0_SLOTS_PER_POOL: usize = 2;
    const POOL0_WORDS_PER_POOL: usize = POOL0_SLOTS_PER_POOL * POOL0_WORDS_PER_SLOT;
    let slot_pool = SlotPool::<POOL0_WORDS_PER_POOL>::new(POOL0_WORDS_PER_SLOT, 0);
    MemoryPoolAllocator::new(vec![MemoryPool::from(slot_pool)])
}

// Three tiers: 8-byte, 24-byte and 64-byte slots, ids 0, 1 and 2.
fn three_tier_allocator() -> MemoryPoolAllocator {
    let slot_pool_0 = SlotPool::<10>::new(1, 0);
    let slot_pool_1 = SlotPool::<24>::new(3, 1);
    let slot_pool_2 = SlotPool::<32>::new(8, 2);
    MemoryPoolAllocator::new(vec![
        MemoryPool::from(slot_pool_0),
        MemoryPool::from(slot_pool_1),
        MemoryPool::from(slot_pool_2),
    ])
}

#[test]
fn mem_pool_allocator_test_0() {
    let mut allocator = single_pool_allocator();
    for _ in 0..4 {
        let res0 = allocator.allocate(core::mem::size_of::<usize>());
        let res0 = res0.unwrap();
        allocator.write_word(&res0, 0, u64::MAX);

        let res1 = allocator.allocate(core::mem::size_of::<usize>());
        let res1 = res1.unwrap();
        allocator.write_word(&res1, 0, u64::MIN);

        let res2 = allocator.allocate(core::mem::size_of::<usize>());
        assert_eq!(res2, Err(AllocationError::NoMemoryAvailable));

        let res5 = allocator.allocate(0);
        assert_eq!(res5, Err(AllocationError::NullAllocation));

        assert_eq!(allocator.read_word(&res0, 0), u64::MAX);
        assert_eq!(allocator.read_word(&res1, 0), u64::MIN);

        let res1 = allocator.free(res1);
        assert_eq!(res1, Ok(()));
        assert_eq!(allocator.read_word(&res0, 0), u64::MAX);

        let res0 = allocator.free(res0);
        assert_eq!(res0, Ok(()));
    }
}

#[test]
fn global_allocator_test() {}

// Tier selection: a request that outgrows the small pool is served by the
// smallest larger pool, even while the small pool has free slots; and the
// smallest pool keeps serving what fits it.
#[test]
fn tier_selection() {
    let mut allocator = three_tier_allocator();
    let mid = allocator.allocate(12).unwrap();
    assert_eq!(mid.get_mem_pool_id(), 1);
    let small = allocator.allocate(4).unwrap();
    assert_eq!(small.get_mem_pool_id(), 0);
    let large = allocator.allocate(25).unwrap();
    assert_eq!(large.get_mem_pool_id(), 2);
    let exact = allocator.allocate(8).unwrap();
    assert_eq!(exact.get_mem_pool_id(), 0);
}

// A full small pool is skipped in favour of the next larger pool; the
// request fails only once every pool that fits is exhausted.
#[test]
fn tier_overflow_to_larger_pool() {
    let slot_pool_0 = SlotPool::<1>::new(1, 0);
    let slot_pool_1 = SlotPool::<2>::new(2, 1);
    let mut allocator = MemoryPoolAllocator::new(vec![
        MemoryPool::from(slot_pool_0),
        MemoryPool::from(slot_pool_1),
    ]);
    let first = allocator.allocate(8).unwrap();
    assert_eq!(first.get_mem_pool_id(), 0);
    let second = allocator.allocate(8).unwrap();
    assert_eq!(second.get_mem_pool_id(), 1);
    assert_eq!(allocator.allocate(8), Err(AllocationError::NoMemoryAvailable));
}

// A request larger than every slot size is rejected as such, even though
// every pool still has free capacity.
#[test]
fn no_slot_large_enough() {
    let mut allocator = three_tier_allocator();
    assert_eq!(allocator.allocate(65), Err(AllocationError::NoSlotLargeEnough));
}

// A zero-size request is rejected whatever the pool state.
#[test]
fn zero_size_rejected() {
    let mut allocator = three_tier_allocator();
    assert_eq!(allocator.allocate(0), Err(AllocationError::NullAllocation));
    let _ = allocator.allocate(8).unwrap();
    assert_eq!(allocator.allocate(0), Err(AllocationError::NullAllocation));
}

// Bounds checking on free: a pool id beyond the configured pools, and a
// slot index beyond the addressed pool's slot count.
#[test]
fn free_bounds_checked() {
    let mut allocator = three_tier_allocator();
    let bad_pool = SlotPointer::from(7u64 << MP_ID_SH);
    assert_eq!(allocator.free(bad_pool), Err(FreeError::InvalidMemoryPoolId));
    let bad_index = SlotPointer::from(10);
    assert_eq!(allocator.free(bad_index), Err(FreeError::InvalidSlotIndex));
}

struct PoolTestParams {
    max_n_elements: usize,
    max_element_size: usize,
    n_initial_elements: usize,
}

struct Tester<'a> {
    allocator: &'a mut MemoryPoolAllocator,
    reference_allocator: Vec<Vec<(Vec<u64>, SlotPointer)>>,
}

impl<'a> Tester<'a> {
    fn new(allocator: &'a mut MemoryPoolAllocator) -> Tester<'a> {
        Tester { allocator, reference_allocator: Vec::new() }
    }

    fn allocate(&mut self, rng: &mut impl Rng, pool_idx: usize, size: usize) {
        let pointer = self.allocator.allocate(size).unwrap();
        let n_words = size.div_ceil(8);
        let mut element: Vec<u64> = Vec::new();
        for offset in 0..n_words {
            let word: u64 = rng.random();
            self.allocator.write_word(&pointer, offset, word);
            element.push(word);
        }
        self.reference_allocator[pool_idx].push((element, pointer));
    }

    fn free(&mut self, pool_idx: usize, element_index: usize) {
        let (_, pointer) = self.reference_allocator[pool_idx].remove(element_index);
        self.allocator.free(pointer).unwrap();
    }

    fn run_integrity_check(&self) {
        for reference_pool in self.reference_allocator.iter() {
            for (element, pointer) in reference_pool {
                for (offset, word) in element.iter().enumerate() {
                    assert!(self.allocator.read_word(pointer, offset) == *word);
                }
            }
        }
    }

    fn get_previous_pool_max_element_size(&self, index: usize, params: &[PoolTestParams]) -> usize {
        if index == 0 {
            1
        } else {
            params[index - 1].max_element_size + 1
        }
    }

    fn run(&mut self, params: &[PoolTestParams], n_iterations: usize) {
        let mut rng = rand::rng();
        for (pool_idx, pool_param) in params.iter().enumerate() {
            self.reference_allocator.push(Vec::new());
            let min_element_size = self.get_previous_pool_max_element_size(pool_idx, params);
            for _ in 0..pool_param.n_initial_elements {
                let size = rng.random_range(min_element_size..pool_param.max_element_size);
                self.allocate(&mut rng, pool_idx, size);
            }
        }
        self.run_integrity_check();
        for _ in 0..n_iterations {
            let picked = rng.random_range(0..params.len());
            let n_elements_allocated = self.reference_allocator[picked].len();
            let should_allocate = if n_elements_allocated == params[picked].max_n_elements {
                false
            } else if n_elements_allocated == 0 {
                true
            } else {
                rng.random_bool(0.5)
            };
            if should_allocate {
                let min_element_size = self.get_previous_pool_max_element_size(picked, params);
                let size = rng.random_range(min_element_size..params[picked].max_element_size);
                self.allocate(&mut rng, picked, size);
            } else {
                let element_index = rng.random_range(0..n_elements_allocated);
                self.free(picked, element_index);
            }
        }
        self.run_integrity_check();
    }
}

#[test]
fn allocator_single_thread_randomized() {
    const POOL0_WORDS_PER_SLOT: usize = 1;
    const POOL0_SLOTS_PER_POOL: usize = 10;
    const POOL1_WORDS_PER_SLOT: usize = 3;
    const POOL1_SLOTS_PER_POOL: usize = 8;
    const POOL2_WORDS_PER_SLOT: usize = 8;
    const POOL2_SLOTS_PER_POOL: usize = 4;
    let slot_pool_0 =
        SlotPool::<{ POOL0_SLOTS_PER_POOL * POOL0_WORDS_PER_SLOT }>::new(POOL0_WORDS_PER_SLOT, 0);
    let slot_pool_1 =
        SlotPool::<{ POOL1_SLOTS_PER_POOL * POOL1_WORDS_PER_SLOT }>::new(POOL1_WORDS_PER_SLOT, 1);
    let slot_pool_2 =
        SlotPool::<{ POOL2_SLOTS_PER_POOL * POOL2_WORDS_PER_SLOT }>::new(POOL2_WORDS_PER_SLOT, 2);
    let mut allocator = MemoryPoolAllocator::new(vec![
        MemoryPool::from(slot_pool_0),
        MemoryPool::from(slot_pool_1),
        MemoryPool::from(slot_pool_2),
    ]);

    let pool_test_params = [
        PoolTestParams {
            max_n_elements: POOL0_SLOTS_PER_POOL,
            max_element_size: POOL0_WORDS_PER_SLOT * core::mem::size_of::<usize>(),
            n_initial_elements: 5,
        },
        PoolTestParams {
            max_n_elements: POOL1_SLOTS_PER_POOL,
            max_element_size: POOL1_WORDS_PER_SLOT * core::mem::size_of::<usize>(),
            n_initial_elements: 4,
        },
        PoolTestParams {
            max_n_elements: POOL2_SLOTS_PER_POOL,
            max_element_size: POOL2_WORDS_PER_SLOT * core::mem::size_of::<usize>(),
            n_initial_elements: 2,
        },
    ];

    let mut tester = Tester::new(&mut allocator);
    tester.run(&pool_test_params, 10000);
}
