//! Fixed-capacity first-in first-out queue of slot indices.

use vstd::prelude::*;

verus! {

/// Ring buffer of slot indices.
pub struct IndexQueue<const CAPACITY: usize> {
    entries: [usize; CAPACITY],
    head: usize,
    length: usize,
}

/// The ring position that lies `offset` places behind `head`.
spec fn ring_position(head: int, offset: int, capacity: int) -> int {
    if head + offset < capacity {
        head + offset
    } else {
        head + offset - capacity
    }
}

impl<const CAPACITY: usize> View for IndexQueue<CAPACITY> {
    type V = Seq<int>;

    closed spec fn view(&self) -> Seq<int> {
        Seq::new(
            self.length as nat,
            |i: int| self.entries@[ring_position(self.head as int, i, CAPACITY as int)] as int,
        )
    }
}

impl<const CAPACITY: usize> IndexQueue<CAPACITY> {
    /// What every queue keeps.
    pub closed spec fn well_formed(&self) -> bool {
        &&& self.length <= CAPACITY
        &&& self.head < CAPACITY || CAPACITY == 0 && self.head == 0
    }

    /// Creates an empty queue.
    pub fn new() -> (queue: IndexQueue<CAPACITY>)
        ensures
            queue.well_formed(),
            queue@ == Seq::<int>::empty(),
    {
        let queue = IndexQueue { entries: [0usize; CAPACITY], head: 0, length: 0 };
        assert(queue@ =~= Seq::<int>::empty());
        queue
    }

    /// Creates a queue of all indices in ascending order.
    pub fn with_all_indices() -> (queue: IndexQueue<CAPACITY>)
        ensures
            queue.well_formed(),
            queue@ == Seq::new(CAPACITY as nat, |i: int| i),
    {
        let mut entries: [usize; CAPACITY] = [0usize; CAPACITY];
        let mut index: usize = 0;
        while index < CAPACITY
            invariant
                index <= CAPACITY,
                forall|i: int| 0 <= i < index ==> entries@[i] == i,
            decreases CAPACITY - index,
        {
            entries[index] = index;
            index = index + 1;
        }
        let queue = IndexQueue { entries, head: 0, length: CAPACITY };
        assert(queue@ =~= Seq::new(CAPACITY as nat, |i: int| i));
        queue
    }

    /// Appends an index unless the queue is full.
    pub fn push(&mut self, value: usize) -> (pushed: bool)
        requires
            old(self).well_formed(),
        ensures
            final(self).well_formed(),
            pushed == (old(self)@.len() < CAPACITY),
            final(self)@ == if pushed {
                old(self)@.push(value as int)
            } else {
                old(self)@
            },
    {
        if self.length == CAPACITY || CAPACITY == 0 {
            return false;
        }
        let tail: usize = if self.head < CAPACITY - self.length {
            self.head + self.length
        } else {
            self.length - (CAPACITY - self.head)
        };
        self.entries[tail] = value;
        self.length = self.length + 1;
        assert(self@ =~= old(self)@.push(value as int));
        true
    }

    /// Takes the oldest index.
    pub fn pop(&mut self) -> (value: Option<usize>)
        requires
            old(self).well_formed(),
        ensures
            final(self).well_formed(),
            match value {
                Some(value) => {
                    &&& old(self)@.len() > 0
                    &&& value == old(self)@[0]
                    &&& final(self)@ == old(self)@.skip(1)
                },
                None => old(self)@.len() == 0 && final(self)@ == old(self)@,
            },
    {
        if self.length == 0 || CAPACITY == 0 {
            return None;
        }
        let value: usize = self.entries[self.head];
        self.head =
        if self.head + 1 == CAPACITY {
            0
        } else {
            self.head + 1
        };
        self.length = self.length - 1;
        assert(self@ =~= old(self)@.skip(1));
        Some(value)
    }

    /// Returns the number of queued indices.
    pub fn len(&self) -> (length: usize)
        ensures
            length == self@.len(),
    {
        self.length
    }
}

} // verus!
