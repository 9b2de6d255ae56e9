//! A counting semaphore with a FIFO wait queue.
//!
//! A negative count is minus the number of waiting tasks. `down` tells its
//! caller whether to block; `up` names the task to wake.
use vstd::prelude::*;
use std::collections::VecDeque;
use crate::mutex::copy_queue;

verus! {

/// The state of a semaphore.
pub struct SemaphoreInner {
    pub count: isize,
    pub wait_queue: VecDeque<usize>,
}

pub struct Semaphore {
    pub inner: SemaphoreInner,
}

/// The abstract state of a semaphore: its count and its queue of waiting tasks.
pub struct SemState {
    pub count: int,
    pub waiters: Seq<usize>,
}

impl SemState {
    /// The queue holds exactly as many tasks as the count is below zero.
    pub open spec fn balanced(self) -> bool {
        self.waiters.len() == if self.count < 0 {
            -self.count
        } else {
            0
        }
    }

    /// The state after an `up`, and the task it wakes.
    pub open spec fn after_up(self) -> (SemState, Option<usize>) {
        let count = self.count + 1;
        if count <= 0 && self.waiters.len() > 0 {
            (SemState { count, waiters: self.waiters.skip(1) }, Some(self.waiters[0]))
        } else {
            (SemState { count, waiters: self.waiters }, None)
        }
    }

    /// The state after a `down` by task `current`, and whether it blocks.
    pub open spec fn after_down(self, current: usize) -> (SemState, bool) {
        let count = self.count - 1;
        if count < 0 {
            (SemState { count, waiters: self.waiters.push(current) }, true)
        } else {
            (SemState { count, waiters: self.waiters }, false)
        }
    }
}

impl View for Semaphore {
    type V = SemState;

    open spec fn view(&self) -> SemState {
        SemState { count: self.inner.count as int, waiters: self.inner.wait_queue@ }
    }
}

impl Semaphore {
    /// A semaphore with `res_count` units (converted to `isize` as by `as`) and no waiters.
    pub fn new(res_count: usize) -> (s: Self)
        ensures
            s.inner.count == res_count as isize,
            s@.waiters == Seq::<usize>::empty(),
            res_count <= isize::MAX ==> s@.balanced(),
    {
        Semaphore { inner: SemaphoreInner { count: res_count as isize, wait_queue: VecDeque::new() } }
    }

    /// Gives back one unit. When the count is still not positive afterwards,
    /// the longest waiting task is taken off the queue and returned, to be woken.
    pub fn up(&mut self) -> (woken: Option<usize>)
        requires
            old(self)@.count < isize::MAX,
        ensures
            (final(self)@, woken) == old(self)@.after_up(),
    {
        self.inner.count = self.inner.count + 1;
        if self.inner.count <= 0 {
            if let Some(task) = self.inner.wait_queue.pop_front() {
                return Some(task);
            }
        }
        None
    }

    /// Takes one unit for task `current`; when none was left, queues `current`
    /// and answers `true`: the caller must block until an `up` wakes it.
    pub fn down(&mut self, current: usize) -> (must_block: bool)
        requires
            old(self)@.count > isize::MIN,
        ensures
            (final(self)@, must_block) == old(self)@.after_down(current),
    {
        self.inner.count = self.inner.count - 1;
        if self.inner.count < 0 {
            self.inner.wait_queue.push_back(current);
            true
        } else {
            false
        }
    }

    /// The units at hand (zero when the count is negative) and the waiting tasks.
    pub fn wait_queue(&self) -> (r: (usize, VecDeque<usize>))
        ensures
            r.0 == if self@.count >= 0 {
                self@.count
            } else {
                0
            },
            r.1@ == self@.waiters,
    {
        let available: usize = if self.inner.count >= 0 {
            self.inner.count as usize
        } else {
            0
        };
        (available, copy_queue(&self.inner.wait_queue))
    }

    /// Whether a `down` would succeed without blocking.
    pub fn can_down(&self) -> (r: bool)
        ensures
            r == (self@.count >= 1),
    {
        self.inner.count >= 1
    }

    /// The raw count.
    pub fn countxxx(&self) -> (r: isize)
        ensures
            r == self.inner.count,
    {
        self.inner.count
    }
}

/// Every `up` and every `down` keeps the queue length equal to how far the
/// count is below zero.
pub proof fn law_balance_kept(st: SemState, current: usize)
    requires
        st.balanced(),
    ensures
        st.after_up().0.balanced(),
        st.after_down(current).0.balanced(),
{
}

/// On a balanced semaphore, a `down` followed by an `up` restores the count;
/// the `up` wakes nobody if units were at hand, wakes the longest waiter if
/// tasks were waiting, and wakes the `down`'s own task if the count was zero.
pub proof fn law_down_then_up(st: SemState, current: usize)
    requires
        st.balanced(),
    ensures
        ({
            let (mid, blocked) = st.after_down(current);
            let (fin, woken) = mid.after_up();
            &&& fin.count == st.count
            &&& st.count >= 1 ==> !blocked && woken is None && fin.waiters == st.waiters
            &&& st.count == 0 ==> blocked && woken == Some(current) && fin.waiters == st.waiters
            &&& st.count < 0 ==> blocked && woken == Some(st.waiters[0]) && fin.waiters
                == st.waiters.skip(1).push(current)
        }),
{
    let (mid, blocked) = st.after_down(current);
    if st.count < 0 {
        assert(mid.waiters.skip(1) =~= st.waiters.skip(1).push(current));
    }
    if st.count == 0 {
        assert(mid.waiters.skip(1) =~= st.waiters);
    }
}

/// Tasks are woken in the order they blocked: an `up` on a balanced semaphore
/// with waiters wakes the one that has waited longest and keeps the others in order.
pub proof fn law_fifo_wakeups(st: SemState)
    requires
        st.balanced(),
        st.count < 0,
    ensures
        st.after_up().1 == Some(st.waiters[0]),
        st.after_up().0.waiters == st.waiters.skip(1),
{
}

} // verus!
