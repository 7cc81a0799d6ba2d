//! A double ended queue of work items.
use vstd::prelude::*;
use std::collections::VecDeque;

verus! {

/// Work items that can be added and dropped at either end.
pub struct WorkQueue<T> {
    queue: VecDeque<T>,
}

impl<T> View for WorkQueue<T> {
    type V = Seq<T>;

    closed spec fn view(&self) -> Seq<T> {
        self.queue@
    }
}

impl<T> WorkQueue<T> {
    /// Adds `data` in front of every item.
    pub fn push_front(&mut self, data: T)
        ensures
            final(self)@ == seq![data] + old(self)@,
    {
        self.queue.push_front(data);
    }

    /// Adds `data` behind every item.
    pub fn push_back(&mut self, data: T)
        ensures
            final(self)@ == old(self)@.push(data),
    {
        self.queue.push_back(data);
    }

    /// Drops the first item, if there is one.
    pub fn pop_front(&mut self)
        ensures
            old(self)@.len() == 0 ==> final(self)@ == old(self)@,
            old(self)@.len() > 0 ==> final(self)@ == old(self)@.drop_first(),
    {
        let _ = self.queue.pop_front();
    }

    /// Drops the last item, if there is one.
    pub fn pop_back(&mut self)
        ensures
            old(self)@.len() == 0 ==> final(self)@ == old(self)@,
            old(self)@.len() > 0 ==> final(self)@ == old(self)@.drop_last(),
    {
        let _ = self.queue.pop_back();
    }

    /// An empty queue.
    pub fn new() -> (r: WorkQueue<T>)
        ensures
            r@ == Seq::<T>::empty(),
    {
        WorkQueue { queue: VecDeque::new() }
    }

    /// The number of items.
    pub fn len(&self) -> (r: usize)
        ensures
            r == self@.len(),
    {
        self.queue.len()
    }
}

} // verus!
