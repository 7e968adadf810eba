use std::collections::VecDeque;
use vstd::prelude::*;

verus! {

/// A buffer that remembers the last `capacity` items pushed into it while
/// still counting, and indexing by, every item ever pushed.
pub struct CycleBuffer<T> {
    data: VecDeque<T>,
    shift: usize,
    capacity: usize,
}

impl<T> CycleBuffer<T> {
    /// The items still held, oldest first.
    pub closed spec fn window(&self) -> Seq<T> {
        self.data@
    }

    /// How many items were dropped from the front so far.
    pub closed spec fn dropped(&self) -> nat {
        self.shift as nat
    }

    /// The most items held at once.
    pub closed spec fn cap(&self) -> nat {
        self.capacity as nat
    }

    /// Number of items ever pushed.
    pub open spec fn total(&self) -> nat {
        self.dropped() + self.window().len()
    }

    pub closed spec fn wf(&self) -> bool {
        &&& self.capacity > 0
        &&& self.data@.len() <= self.capacity
        &&& self.shift + self.data@.len() <= usize::MAX
    }

    /// Makes an empty buffer; with `None` it holds up to `u32::MAX` items.
    pub fn new(capacity: Option<usize>) -> (r: Self)
        requires
            capacity matches Some(c) ==> c > 0,
        ensures
            r.wf(),
            r.window() == Seq::<T>::empty(),
            r.dropped() == 0,
            r.cap() == match capacity {
                Some(c) => c as nat,
                None => u32::MAX as nat,
            },
    {
        Self {
            data: VecDeque::new(),
            shift: 0,
            capacity: match capacity {
                Some(c) => c,
                None => u32::MAX as usize,
            },
        }
    }

    /// Appends `item`; when the buffer is full its oldest item is dropped.
    pub fn push(&mut self, item: T)
        requires
            old(self).wf(),
            old(self).total() < usize::MAX,
        ensures
            final(self).wf(),
            final(self).cap() == old(self).cap(),
            final(self).total() == old(self).total() + 1,
            old(self).window().len() == old(self).cap() ==> {
                &&& final(self).dropped() == old(self).dropped() + 1
                &&& final(self).window() == old(self).window().drop_first().push(item)
            },
            old(self).window().len() < old(self).cap() ==> {
                &&& final(self).dropped() == old(self).dropped()
                &&& final(self).window() == old(self).window().push(item)
            },
    {
        if self.data.len() == self.capacity {
            self.shift += 1;
            self.data.pop_front();
        }
        self.data.push_back(item);
    }

    /// Number of items ever pushed.
    pub fn len(&self) -> (r: usize)
        requires
            self.wf(),
        ensures
            r == self.total(),
    {
        self.shift + self.data.len()
    }

    /// The item pushed as the `index`-th (counting from 0), which must still be held.
    pub fn index(&self, index: usize) -> (r: &T)
        requires
            self.wf(),
            self.dropped() <= index < self.total(),
        ensures
            *r == self.window()[index - self.dropped()],
    {
        &self.data[index - self.shift]
    }
}

} // verus!
