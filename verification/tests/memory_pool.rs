use kaori_rtos::memory_pool::{
    MemoryPool, SlotAccessError, SlotAllocError, SlotFreeingError, SlotPool,
};
use kaori_rtos::slot_pointer::SlotPointer;
use rand::Rng;

const POOL0_ID: u8 = 0;
const POOL0_WORDS_PER_SLOT: usize = 1;
const POOL0_SLOTS_PER_POOL: usize = 2;
const POOL0_WORDS_PER_POOL: usize = POOL0_SLOTS_PER_POOL * POOL0_WORDS_PER_SLOT;

fn basic_pool() -> MemoryPool {
    let slot_pool = SlotPool::<POOL0_WORDS_PER_POOL>::new(POOL0_WORDS_PER_SLOT, POOL0_ID);
    MemoryPool::from(slot_pool)
}

#[test]
fn mem_pool_test_0() {
    let mut pool = basic_pool();

    let res0 = pool.allocate(core::mem::size_of::<usize>());
    let res0 = res0.unwrap();
    pool.write_word(&res0, 0, u64::MAX);

    let res1 = pool.allocate(core::mem::size_of::<usize>());
    let res1 = res1.unwrap();
    pool.write_word(&res1, 0, u64::MIN);

    let res2 = pool.allocate(core::mem::size_of::<usize>());
    assert_eq!(res2, Err(SlotAllocError::PoolFull));

    assert_eq!(pool.read_word(&res0, 0), u64::MAX);
    assert_eq!(pool.read_word(&res1, 0), u64::MIN);

    pool.free(res1).unwrap();
    assert_eq!(pool.read_word(&res0, 0), u64::MAX);

    let res3 = SlotPointer::from((res1.get_index_raw() + 1) as u64);
    let res3 = pool.free(res3);
    assert_eq!(res3, Err(SlotFreeingError::SlotOutOfRange));

    let res2 = pool.allocate(2 * core::mem::size_of::<usize>());
    assert_eq!(res2, Err(SlotAllocError::SlotNotLargeEnough));

    let res4 = pool.allocate(core::mem::size_of::<usize>());
    let res4 = res4.unwrap();
    pool.write_word(&res4, 0, 0xAAAAAAAAAAAAAAAA);

    assert_eq!(pool.read_word(&res0, 0), u64::MAX);

    let res0 = pool.free(res0);
    assert_eq!(res0, Ok(()));

    assert_eq!(pool.read_word(&res4, 0), 0xAAAAAAAAAAAAAAAA);
    let res4 = pool.free(res4);
    res4.unwrap();
}

// The concrete scenario of a single pool with two slots of eight bytes.
#[test]
fn two_slot_scenario() {
    let mut pool = basic_pool();
    assert_eq!(pool.get_slot_size(), 8);

    let first = pool.allocate(8).unwrap();
    let second = pool.allocate(8).unwrap();
    assert_eq!(pool.allocate(8), Err(SlotAllocError::PoolFull));

    assert_eq!(pool.free(second), Ok(()));
    let again = pool.allocate(8).unwrap();
    assert_eq!(again.get_index_raw(), second.get_index_raw());

    assert_eq!(pool.free(first), Ok(()));
    assert_eq!(pool.free(again), Ok(()));
}

// Free-list completeness: a fresh pool of k slots serves exactly k
// allocations, with k distinct indices, before reporting it is full.
#[test]
fn free_list_completeness() {
    const SLOTS: usize = 12;
    let slot_pool = SlotPool::<SLOTS>::new(1, 0);
    let mut pool = MemoryPool::from(slot_pool);
    let mut seen = [false; SLOTS];
    for _ in 0..SLOTS {
        let ptr = pool.allocate(8).unwrap();
        let index = ptr.get_index_raw() as usize;
        assert!(index < SLOTS);
        assert!(!seen[index]);
        seen[index] = true;
    }
    assert_eq!(pool.allocate(8), Err(SlotAllocError::PoolFull));
}

// The freshly threaded free list hands slots out in ascending index order.
#[test]
fn fresh_pool_ascending_order() {
    const SLOTS: usize = 6;
    let slot_pool = SlotPool::<SLOTS>::new(1, 0);
    let mut pool = MemoryPool::from(slot_pool);
    for expected in 0..SLOTS {
        let ptr = pool.allocate(8).unwrap();
        assert_eq!(ptr.get_index_raw() as usize, expected);
    }
}

// Construction threads the slots in place: each slot's first word links to
// the following slot, and the last slot links to the "no slot" sentinel.
#[test]
fn fresh_pool_threading() {
    let slot_pool = SlotPool::<3>::new(1, 0);
    let sto = slot_pool.get_slot_pool_ref();
    assert_eq!(sto.read(0), 1);
    assert_eq!(sto.read(1), 2);
    assert_eq!(sto.read(2), 0xf_ffff);
}

#[test]
fn get_slot_address_checks() {
    let slot_pool = SlotPool::<8>::new(2, 0);
    let pool = MemoryPool::from(slot_pool);
    let inside = SlotPointer::from(3);
    assert_eq!(pool.get_slot_address(&inside), Ok(6));
    let outside = SlotPointer::from(4);
    assert_eq!(pool.get_slot_address(&outside), Err(SlotAccessError::SlotOutOfRange));
    let none = SlotPointer::from(0xf_ffff);
    assert_eq!(pool.get_slot_address(&none), Err(SlotAccessError::SlotNone));
}

// Round trip: payload words written into allocated slots read back
// unchanged, also after allocate and free traffic on other slots.
#[test]
fn payload_round_trip() {
    let slot_pool = SlotPool::<12>::new(4, 0);
    let mut pool = MemoryPool::from(slot_pool);
    let a = pool.allocate(32).unwrap();
    let b = pool.allocate(32).unwrap();
    for offset in 0..4 {
        pool.write_word(&a, offset, 0x1111_0000 + offset as u64);
        pool.write_word(&b, offset, 0x2222_0000 + offset as u64);
    }
    pool.free(b).unwrap();
    let c = pool.allocate(32).unwrap();
    for offset in 0..4 {
        pool.write_word(&c, offset, 0x3333_0000 + offset as u64);
    }
    for offset in 0..4 {
        assert_eq!(pool.read_word(&a, offset), 0x1111_0000 + offset as u64);
        assert_eq!(pool.read_word(&c, offset), 0x3333_0000 + offset as u64);
    }
}

struct PoolTestParams {
    max_n_elements: usize,
    max_element_size: usize,
    n_initial_elements: usize,
}

struct Tester<'a> {
    pool: &'a mut MemoryPool,
    reference_allocator: Vec<(Vec<u64>, SlotPointer)>,
}

impl<'a> Tester<'a> {
    fn new(pool: &'a mut MemoryPool) -> Tester<'a> {
        Tester { pool, reference_allocator: Vec::new() }
    }

    fn allocate(&mut self, rng: &mut impl Rng, size: usize) {
        let pointer = self.pool.allocate(size).unwrap();
        let n_words = size.div_ceil(8);
        let mut element: Vec<u64> = Vec::new();
        for offset in 0..n_words {
            let word: u64 = rng.random();
            self.pool.write_word(&pointer, offset, word);
            element.push(word);
        }
        self.reference_allocator.push((element, pointer));
    }

    fn free(&mut self, element_index: usize) {
        let (_, pointer) = self.reference_allocator.remove(element_index);
        self.pool.free(pointer).unwrap();
    }

    fn run_integrity_check(&self) {
        for (element, pointer) in self.reference_allocator.iter() {
            for (offset, word) in element.iter().enumerate() {
                assert!(self.pool.read_word(pointer, offset) == *word);
            }
        }
    }

    fn run(&mut self, tp: &PoolTestParams, n_iterations: usize) {
        let mut rng = rand::rng();
        for _ in 0..tp.n_initial_elements {
            let size = rng.random_range(1..tp.max_element_size);
            self.allocate(&mut rng, size);
        }
        self.run_integrity_check();
        for _ in 0..n_iterations {
            let n_elements_allocated = self.reference_allocator.len();
            let should_allocate = if n_elements_allocated == tp.max_n_elements {
                false
            } else if n_elements_allocated == 0 {
                true
            } else {
                rng.random_bool(0.5)
            };
            if should_allocate {
                let size = rng.random_range(1..tp.max_element_size);
                self.allocate(&mut rng, size);
            } else {
                let element_index = rng.random_range(0..n_elements_allocated);
                self.free(element_index);
            }
        }
        self.run_integrity_check();
    }
}

#[test]
fn memory_pool_single_thread_randomized() {
    const WORDS_PER_SLOT: usize = 8;
    const SLOTS_PER_POOL: usize = 30;
    const WORDS_PER_POOL: usize = SLOTS_PER_POOL * WORDS_PER_SLOT;
    let slot_pool = SlotPool::<WORDS_PER_POOL>::new(WORDS_PER_SLOT, 0);
    let mut pool = MemoryPool::from(slot_pool);

    let pool_test_params = PoolTestParams {
        max_n_elements: SLOTS_PER_POOL,
        max_element_size: WORDS_PER_SLOT * core::mem::size_of::<usize>(),
        n_initial_elements: 10,
    };

    let mut tester = Tester::new(&mut pool);
    tester.run(&pool_test_params, 10000);
}
