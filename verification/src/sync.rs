//! The storage-cell layer.
//!
//! A pool's backing words are declared once and then handed to the runtime
//! pool view that performs all later reads and writes. `AsyncArrayCell` owns
//! the words; `borrow_mut` hands the whole storage over as an
//! `AsyncArrayCellRef`, the single place through which the words are read
//! and written afterwards. Exclusive access is what makes the hand-over
//! sound, so the cell is consumed: the coordination that the original
//! lock-free design performs through its atomic head is expressed here
//! through ownership.

use vstd::prelude::*;

verus! {

/// Fixed-size word storage for one slot pool, sized by the `SIZE` parameter.
pub struct AsyncArrayCell<T, const SIZE: usize> {
    inner: Vec<T>,
}

impl<T, const SIZE: usize> View for AsyncArrayCell<T, SIZE> {
    type V = Seq<T>;

    closed spec fn view(&self) -> Seq<T> {
        self.inner@
    }
}

impl<T, const SIZE: usize> AsyncArrayCell<T, SIZE> {
    pub fn new(inner: Vec<T>) -> (r: AsyncArrayCell<T, SIZE>)
        requires
            inner@.len() == SIZE,
        ensures
            r@ == inner@,
            r@.len() == SIZE,
    {
        AsyncArrayCell { inner }
    }

    /// Read-only view of the backing words.
    pub fn get(&self) -> (r: &Vec<T>)
        ensures
            r@ == self@,
    {
        &self.inner
    }

    /// Hands the backing words over for reading and writing. The cell is
    /// consumed: afterwards the returned reference is the only access path.
    pub fn borrow_mut(self) -> (r: AsyncArrayCellRef<T>)
        ensures
            r@ == self@,
    {
        AsyncArrayCellRef { inner: self.inner }
    }
}

/// Exclusive access to a pool's backing words, obtained once from the
/// owning `AsyncArrayCell`.
pub struct AsyncArrayCellRef<T> {
    inner: Vec<T>,
}

impl<T> View for AsyncArrayCellRef<T> {
    type V = Seq<T>;

    closed spec fn view(&self) -> Seq<T> {
        self.inner@
    }
}

impl<T> AsyncArrayCellRef<T> {
    pub fn len(&self) -> (r: usize)
        ensures
            r == self@.len(),
    {
        self.inner.len()
    }

    /// Read-only view of the words.
    pub fn deref(&self) -> (r: &Vec<T>)
        ensures
            r@ == self@,
    {
        &self.inner
    }
}

impl<T: Copy> AsyncArrayCellRef<T> {
    pub fn read(&self, i: usize) -> (r: T)
        requires
            i < self@.len(),
        ensures
            r == self@[i as int],
    {
        self.inner[i]
    }

    pub fn write(&mut self, i: usize, value: T)
        requires
            i < old(self)@.len(),
        ensures
            final(self)@ == old(self)@.update(i as int, value),
    {
        self.inner[i] = value;
    }
}

} // verus!
