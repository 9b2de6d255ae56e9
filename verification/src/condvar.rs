//! A condition variable with a FIFO queue of waiting tasks.
use vstd::prelude::*;
use std::collections::VecDeque;
use crate::mutex::AnyMutex;
use crate::mutex::Mutex;
use crate::mutex::unlocks_to;

verus! {

pub struct CondvarInner {
    pub wait_queue: VecDeque<usize>,
}

pub struct Condvar {
    pub inner: CondvarInner,
}

impl Condvar {
    pub open spec fn waiters(&self) -> Seq<usize> {
        self.inner.wait_queue@
    }

    pub fn new() -> (c: Self)
        ensures
            c.waiters() == Seq::<usize>::empty(),
    {
        Condvar { inner: CondvarInner { wait_queue: VecDeque::new() } }
    }

    /// Takes the longest waiting task off the queue and returns it, to be woken.
    pub fn signal(&mut self) -> (woken: Option<usize>)
        ensures
            old(self).waiters().len() > 0 ==> woken == Some(old(self).waiters()[0])
                && final(self).waiters() == old(self).waiters().skip(1),
            old(self).waiters().len() == 0 ==> woken is None && final(self).waiters()
                == old(self).waiters(),
    {
        self.inner.wait_queue.pop_front()
    }

    /// The first half of a wait by task `current`: releases `mutex` (returning
    /// the task the release wakes) and queues `current`. The caller then blocks
    /// and, once signalled, takes `mutex` again.
    pub fn wait(&mut self, mutex: &mut AnyMutex, current: usize) -> (woken: Option<usize>)
        requires
            old(mutex).unlock_allowed(),
        ensures
            final(self).waiters() == old(self).waiters().push(current),
            unlocks_to(*old(mutex), *final(mutex), woken),
    {
        let woken = mutex.unlock();
        self.inner.wait_queue.push_back(current);
        woken
    }
}

} // verus!
