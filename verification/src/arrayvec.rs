//! A vector with a fixed capacity given as a type parameter, used to hold
//! small evaluation stacks without reallocation.

use vstd::prelude::*;

verus! {

/// A growable collection holding at most `N` items.
pub struct ArrayVec<T, const N: usize> {
    data: Vec<T>,
}

impl<T, const N: usize> View for ArrayVec<T, N> {
    type V = Seq<T>;

    closed spec fn view(&self) -> Seq<T> {
        self.data@
    }
}

impl<T, const N: usize> ArrayVec<T, N> {
    /// The capacity invariant: never more than `N` items.
    pub open spec fn wf(self) -> bool {
        self@.len() <= N
    }

    /// An empty collection.
    pub fn new() -> (r: ArrayVec<T, N>)
        ensures
            r@ == Seq::<T>::empty(),
            r.wf(),
    {
        ArrayVec { data: Vec::new() }
    }

    /// How many items are held.
    pub fn len(&self) -> (r: usize)
        ensures
            r == self@.len(),
    {
        self.data.len()
    }

    /// The fixed capacity.
    pub fn capacity(&self) -> (r: usize)
        ensures
            r == N,
    {
        N
    }

    /// Remove and return the most recently pushed item.
    pub fn pop(&mut self) -> (r: T)
        requires
            old(self)@.len() > 0,
        ensures
            final(self)@ == old(self)@.drop_last(),
            r == old(self)@.last(),
            old(self).wf() ==> final(self).wf(),
    {
        let r = self.data.pop();
        match r {
            Some(v) => v,
            None => {
                proof {
                    assert(false);
                }
                unreached()
            },
        }
    }

    /// Append an item; the capacity must not be exhausted.
    pub fn push(&mut self, item: T)
        requires
            old(self)@.len() < N,
            old(self).wf(),
        ensures
            final(self)@ == old(self)@.push(item),
            final(self).wf(),
    {
        self.data.push(item);
    }
}

} // verus!
