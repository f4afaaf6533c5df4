//! A growable, indexable collection supporting per-index read-modify-write
//! ("inspect") without whole-structure locking, plus end-append and
//! end-remove. Every operation is one atomic step with respect to the
//! cooperative scheduler: a worker never suspends inside an operation.

use vstd::prelude::*;

verus! {

/// Error raised when an index-based operation names a slot that does not
/// exist at the time of the call.
#[derive(Clone, Copy, Debug, PartialEq, Eq, Structural)]
pub enum IndexError {
    OutOfBounds,
}

/// An ordered, 0-indexed sequence of independently mutable slots.
pub struct ConcurrentArray<T> {
    slots: Vec<T>,
}

impl<T> ConcurrentArray<T> {
    /// The mathematical contents, in index order.
    pub closed spec fn view(&self) -> Seq<T> {
        self.slots@
    }

    /// Creates an empty array.
    pub fn new() -> (r: Self)
        ensures
            r@ == Seq::<T>::empty(),
    {
        ConcurrentArray { slots: Vec::new() }
    }

    /// Appends a value at the end; the new slot becomes index `len - 1`.
    pub fn push(&mut self, value: T)
        ensures
            final(self)@ == old(self)@.push(value),
    {
        self.slots.push(value);
    }

    /// Removes and returns the last element, or `None` when the array is
    /// empty at the moment of the attempt.
    pub fn pop(&mut self) -> (r: Option<T>)
        ensures
            old(self)@.len() == 0 ==> r is None && final(self)@ == old(self)@,
            old(self)@.len() > 0 ==> r == Some(old(self)@.last())
                && final(self)@ == old(self)@.drop_last(),
    {
        self.slots.pop()
    }

    /// Returns the current element count. Under concurrent mutation the
    /// value is a snapshot of a moving target and may be stale by the time
    /// the caller acts on it.
    pub fn len(&self) -> (r: usize)
        ensures
            r == self@.len(),
    {
        self.slots.len()
    }
}

impl<T: Copy> ConcurrentArray<T> {
    /// Reads the value at `index`, or reports `OutOfBounds` when no such
    /// slot exists at the time of the call.
    pub fn read_element(&self, index: usize) -> (r: Result<T, IndexError>)
        ensures
            index < self@.len() ==> r == Ok::<T, IndexError>(self@[index as int]),
            index >= self@.len() ==> r == Err::<T, IndexError>(IndexError::OutOfBounds),
    {
        if index < self.slots.len() {
            Ok(self.slots[index])
        } else {
            Err(IndexError::OutOfBounds)
        }
    }

    /// Atomically reads, applies `mutator` to, and writes back the value at
    /// `index`, as a single indivisible step with respect to other
    /// operations on the same index; operations on distinct indices never
    /// serialize against each other. Fails with `OutOfBounds` when
    /// `index >= len()` at the time of the call, in which case `mutator` is
    /// never applied and the contents are unchanged.
    pub fn inspect_element<F: Fn(T) -> T>(&mut self, index: usize, mutator: F) -> (r: Result<
        (),
        IndexError,
    >)
        requires
            index < old(self)@.len() ==> call_requires(mutator, (old(self)@[index as int],)),
        ensures
            index < old(self)@.len() ==> r == Ok::<(), IndexError>(()) && exists|v: T|
                #[trigger] call_ensures(mutator, (old(self)@[index as int],), v) && final(self)@
                    == old(self)@.update(index as int, v),
            index >= old(self)@.len() ==> r == Err::<(), IndexError>(IndexError::OutOfBounds)
                && final(self)@ == old(self)@,
    {
        if index < self.slots.len() {
            let current = self.slots[index];
            let updated = mutator(current);
            self.slots[index] = updated;
            Ok(())
        } else {
            Err(IndexError::OutOfBounds)
        }
    }
}

} // verus!
