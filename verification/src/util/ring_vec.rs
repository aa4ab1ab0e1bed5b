//! A fixed-capacity history ring: pushing beyond the capacity drops the
//! oldest entries.

use vstd::prelude::*;
use std::collections::VecDeque;
use crate::samples::min2;

verus! {

/// Holds the `SZ` most recent items, most recent first.
pub struct Ring<T, const SZ: usize> {
    items: VecDeque<T>,
}

impl<T, const SZ: usize> View for Ring<T, SZ> {
    type V = Seq<T>;

    /// The kept items, most recent first.
    closed spec fn view(&self) -> Seq<T> {
        self.items@
    }
}

impl<T, const SZ: usize> Ring<T, SZ> {
    /// Never more than the capacity is kept.
    pub closed spec fn wf(&self) -> bool {
        self.items@.len() <= SZ
    }

    /// An empty ring.
    pub fn new() -> (r: Self)
        ensures
            r.wf(),
            r@ == Seq::<T>::empty(),
    {
        Ring { items: VecDeque::with_capacity(SZ) }
    }

    /// Adds the newest item in front; if the ring is full, the oldest
    /// item falls out.
    pub fn push(&mut self, item: T)
        ensures
            final(self).wf(),
            final(self)@ == old(self)@.insert(0, item).take(
                min2(SZ as int, old(self)@.len() as int + 1),
            ),
    {
        self.items.push_front(item);
        self.items.truncate(SZ);
        proof {
            assert(self@ =~= old(self)@.insert(0, item).take(
                min2(SZ as int, old(self)@.len() as int + 1),
            ));
        }
    }

    /// The kept items, oldest first.
    pub fn iter(&self) -> (r: Vec<T>) where T: Clone
        ensures
            r@.len() == self@.len(),
            forall|i: int|
                0 <= i < r@.len() ==> vstd::pervasive::cloned::<T>(
                    self@[self@.len() - 1 - i],
                    #[trigger] r@[i],
                ),
    {
        let n = self.items.len();
        let mut r: Vec<T> = Vec::new();
        let mut i: usize = 0;
        while i < n
            invariant
                n == self.items@.len(),
                i <= n,
                r@.len() == i,
                forall|j: int|
                    0 <= j < i ==> vstd::pervasive::cloned::<T>(
                        self.items@[n - 1 - j],
                        #[trigger] r@[j],
                    ),
            decreases n - i,
        {
            let item = self.items[n - 1 - i].clone();
            r.push(item);
            i = i + 1;
        }
        r
    }

    /// Forgets everything.
    pub fn clear(&mut self)
        ensures
            final(self).wf(),
            final(self)@ == Seq::<T>::empty(),
    {
        self.items.clear()
    }
}

} // verus!
