//! Mutexes: a spinning one and a blocking one with a FIFO wait queue.
//!
//! Tasks are named by their thread id. Neither mutex runs the scheduler
//! itself: `lock` reports whether the caller got the lock, must yield and try
//! again, or was queued and must block; `unlock` reports the task to wake.
use vstd::prelude::*;
use std::collections::VecDeque;

verus! {

/// What the caller of `lock` does next.
#[derive(PartialEq, Eq, Structural, Clone, Copy, Debug)]
pub enum LockStep {
    /// The lock is now the caller's.
    Acquired,
    /// The lock is taken: yield the processor, then call `lock` again.
    Retry,
    /// The caller was queued: block it until an `unlock` hands the lock over.
    Blocked,
}

/// `after` is `before` locked for task `current`, with `step` telling the caller what to do:
/// a free lock is taken; a taken spinning lock is left alone; a taken blocking
/// lock queues `current` last.
pub open spec fn locks_to<M: Mutex>(before: M, after: M, current: usize, step: LockStep) -> bool {
    &&& after.spins() == before.spins()
    &&& !before.locked() ==> step == LockStep::Acquired && after.locked() && after.waiters()
        == before.waiters()
    &&& before.locked() && before.spins() ==> step == LockStep::Retry && after.locked()
        && after.waiters() == before.waiters()
    &&& before.locked() && !before.spins() ==> step == LockStep::Blocked && after.locked()
        && after.waiters() == before.waiters().push(current)
}

/// `after` is `before` unlocked: the first waiter, `woken`, gets the lock, or
/// the lock is freed when nobody waits.
pub open spec fn unlocks_to<M: Mutex>(before: M, after: M, woken: Option<usize>) -> bool {
    &&& after.spins() == before.spins()
    &&& before.waiters().len() > 0 ==> woken == Some(before.waiters()[0]) && after.locked()
        && after.waiters() == before.waiters().skip(1)
    &&& before.waiters().len() == 0 ==> woken is None && !after.locked() && after.waiters()
        == before.waiters()
}

/// A mutual-exclusion lock.
pub trait Mutex: Sized {
    /// The lock is held.
    spec fn locked(&self) -> bool;

    /// Tasks waiting for the lock, first to be woken first.
    spec fn waiters(&self) -> Seq<usize>;

    /// A taken lock makes callers spin rather than queue.
    spec fn spins(&self) -> bool;

    /// What `can_lock` reports.
    spec fn lockable(&self) -> bool;

    /// `unlock` may be called in this state.
    spec fn unlock_allowed(&self) -> bool;

    /// Takes the lock for task `current`, or tells it to retry or block.
    fn lock(&mut self, current: usize) -> (step: LockStep)
        ensures
            final(self).spins() == old(self).spins(),
            (old(self).waiters().len() > 0 ==> old(self).locked()) ==> (final(self).waiters().len()
                > 0 ==> final(self).locked()),
            !old(self).locked() ==> step == LockStep::Acquired && final(self).locked()
                && final(self).waiters() == old(self).waiters(),
            old(self).locked() && old(self).spins() ==> step == LockStep::Retry
                && final(self).locked() && final(self).waiters() == old(self).waiters(),
            old(self).locked() && !old(self).spins() ==> step == LockStep::Blocked
                && final(self).locked() && final(self).waiters() == old(self).waiters().push(
                current,
            ),
    ;

    /// Releases the lock: hands it to the first waiter, which is returned to
    /// be woken, or frees it when nobody waits.
    fn unlock(&mut self) -> (woken: Option<usize>)
        requires
            old(self).unlock_allowed(),
        ensures
            final(self).spins() == old(self).spins(),
            (old(self).waiters().len() > 0 ==> old(self).locked()) ==> (final(self).waiters().len()
                > 0 ==> final(self).locked()),
            old(self).waiters().len() > 0 ==> woken == Some(old(self).waiters()[0])
                && final(self).locked() && final(self).waiters() == old(self).waiters().skip(1),
            old(self).waiters().len() == 0 ==> woken is None && !final(self).locked()
                && final(self).waiters() == old(self).waiters(),
    ;

    /// Whether a `lock` would succeed at once, and the queued tasks if there are any.
    fn wait_queue(&self) -> (r: (bool, Option<VecDeque<usize>>))
        ensures
            r.0 == self.lockable(),
            match r.1 {
                Some(q) => q@ == self.waiters() && q@.len() > 0,
                None => self.waiters().len() == 0,
            },
    ;

    /// Whether the lock reads as free.
    fn can_lock(&self) -> (r: bool)
        ensures
            r == self.lockable(),
    ;
}

/// A lock that makes contenders yield and retry.
pub struct MutexSpin {
    pub locked: bool,
}

impl MutexSpin {
    pub fn new() -> (m: Self)
        ensures
            !m.locked,
    {
        MutexSpin { locked: false }
    }
}

impl Mutex for MutexSpin {
    open spec fn locked(&self) -> bool {
        self.locked
    }

    open spec fn waiters(&self) -> Seq<usize> {
        Seq::empty()
    }

    open spec fn spins(&self) -> bool {
        true
    }

    /// `can_lock` answers `true` even while a spinning lock is held: a
    /// contender never sleeps on it, so it never waits in a deadlock.
    open spec fn lockable(&self) -> bool {
        true
    }

    open spec fn unlock_allowed(&self) -> bool {
        true
    }

    fn lock(&mut self, current: usize) -> (step: LockStep) {
        if self.locked {
            LockStep::Retry
        } else {
            self.locked = true;
            LockStep::Acquired
        }
    }

    fn unlock(&mut self) -> (woken: Option<usize>) {
        self.locked = false;
        None
    }

    fn wait_queue(&self) -> (r: (bool, Option<VecDeque<usize>>)) {
        (true, None)
    }

    fn can_lock(&self) -> (r: bool) {
        true
    }
}

/// The state of a blocking mutex.
pub struct MutexBlockingInner {
    pub locked: bool,
    pub wait_queue: VecDeque<usize>,
}

/// A lock whose contenders queue up and sleep; `unlock` hands the lock to the
/// longest waiting one.
pub struct MutexBlocking {
    pub inner: MutexBlockingInner,
}

impl MutexBlocking {
    pub fn new() -> (m: Self)
        ensures
            !m.locked(),
            m.waiters() == Seq::<usize>::empty(),
    {
        MutexBlocking { inner: MutexBlockingInner { locked: false, wait_queue: VecDeque::new() } }
    }
}

impl Mutex for MutexBlocking {
    open spec fn locked(&self) -> bool {
        self.inner.locked
    }

    open spec fn waiters(&self) -> Seq<usize> {
        self.inner.wait_queue@
    }

    open spec fn spins(&self) -> bool {
        false
    }

    open spec fn lockable(&self) -> bool {
        !self.inner.locked
    }

    open spec fn unlock_allowed(&self) -> bool {
        self.inner.locked
    }

    fn lock(&mut self, current: usize) -> (step: LockStep) {
        if self.inner.locked {
            self.inner.wait_queue.push_back(current);
            LockStep::Blocked
        } else {
            self.inner.locked = true;
            LockStep::Acquired
        }
    }

    fn unlock(&mut self) -> (woken: Option<usize>) {
        match self.inner.wait_queue.pop_front() {
            Some(task) => Some(task),
            None => {
                self.inner.locked = false;
                None
            },
        }
    }

    fn wait_queue(&self) -> (r: (bool, Option<VecDeque<usize>>)) {
        if self.inner.wait_queue.len() == 0 {
            (!self.inner.locked, None)
        } else {
            let q = copy_queue(&self.inner.wait_queue);
            (!self.inner.locked, Some(q))
        }
    }

    fn can_lock(&self) -> (r: bool) {
        !self.inner.locked
    }
}

/// A copy of a queue of task ids.
pub(crate) fn copy_queue(q: &VecDeque<usize>) -> (c: VecDeque<usize>)
    ensures
        c@ == q@,
{
    let mut c: VecDeque<usize> = VecDeque::new();
    let mut i: usize = 0;
    while i < q.len()
        invariant
            i <= q@.len(),
            c@ == q@.take(i as int),
        decreases q@.len() - i,
    {
        c.push_back(q[i]);
        i = i + 1;
        assert(c@ =~= q@.take(i as int));
    }
    assert(c@ =~= q@);
    c
}

/// Either kind of mutex, as a process keeps them in its mutex table.
pub enum AnyMutex {
    Spin(MutexSpin),
    Blocking(MutexBlocking),
}

impl AnyMutex {
    /// A new, free mutex: a blocking one if `blocking`, else a spinning one.
    pub fn create(blocking: bool) -> (m: Self)
        ensures
            !m.locked(),
            m.waiters() == Seq::<usize>::empty(),
            m.spins() == !blocking,
    {
        if !blocking {
            AnyMutex::Spin(MutexSpin::new())
        } else {
            AnyMutex::Blocking(MutexBlocking::new())
        }
    }
}

impl AnyMutex {
    /// Whether the lock is held.
    pub fn is_locked(&self) -> (r: bool)
        ensures
            r == self.locked(),
    {
        match self {
            AnyMutex::Spin(m) => m.locked,
            AnyMutex::Blocking(m) => m.inner.locked,
        }
    }
}

impl Mutex for AnyMutex {
    open spec fn locked(&self) -> bool {
        match self {
            AnyMutex::Spin(m) => m.locked(),
            AnyMutex::Blocking(m) => m.locked(),
        }
    }

    open spec fn waiters(&self) -> Seq<usize> {
        match self {
            AnyMutex::Spin(m) => m.waiters(),
            AnyMutex::Blocking(m) => m.waiters(),
        }
    }

    open spec fn spins(&self) -> bool {
        match self {
            AnyMutex::Spin(m) => m.spins(),
            AnyMutex::Blocking(m) => m.spins(),
        }
    }

    open spec fn lockable(&self) -> bool {
        match self {
            AnyMutex::Spin(m) => m.lockable(),
            AnyMutex::Blocking(m) => m.lockable(),
        }
    }

    open spec fn unlock_allowed(&self) -> bool {
        match self {
            AnyMutex::Spin(m) => m.unlock_allowed(),
            AnyMutex::Blocking(m) => m.unlock_allowed(),
        }
    }

    fn lock(&mut self, current: usize) -> (step: LockStep) {
        match self {
            AnyMutex::Spin(m) => m.lock(current),
            AnyMutex::Blocking(m) => m.lock(current),
        }
    }

    fn unlock(&mut self) -> (woken: Option<usize>) {
        match self {
            AnyMutex::Spin(m) => m.unlock(),
            AnyMutex::Blocking(m) => m.unlock(),
        }
    }

    fn wait_queue(&self) -> (r: (bool, Option<VecDeque<usize>>)) {
        match self {
            AnyMutex::Spin(m) => m.wait_queue(),
            AnyMutex::Blocking(m) => m.wait_queue(),
        }
    }

    fn can_lock(&self) -> (r: bool) {
        match self {
            AnyMutex::Spin(m) => m.can_lock(),
            AnyMutex::Blocking(m) => m.can_lock(),
        }
    }
}

} // verus!
