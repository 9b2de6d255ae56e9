//! The synchronisation system calls of a process.
//!
//! Each call computes its answer and the change to the process state; what
//! the scheduler must do next (wake a task, yield, block, sleep) is returned
//! in a `SyscallOutcome` for the kernel to carry out. The calling thread is
//! named by `tid`.
use vstd::prelude::*;
use crate::condvar::Condvar;
use crate::detector::mutex_dead_lock_test;
use crate::detector::semaphore_dead_lock_test;
use crate::mutex::AnyMutex;
use crate::mutex::LockStep;
use crate::mutex::Mutex;
use crate::mutex::locks_to;
use crate::mutex::unlocks_to;
use crate::process::ProcessControlBlockInner;
use crate::process::first_free;
use crate::process::install;
use crate::semaphore::Semaphore;
use crate::task::without;

verus! {

/// The answer to a lock request that would deadlock.
pub const DEADLOCK: isize = -0xdead;

/// What the scheduler does once a system call has been computed.
#[derive(PartialEq, Eq, Structural, Clone, Copy, Debug)]
pub enum Next {
    /// Return to the caller.
    Return,
    /// Yield the processor, then call `relock` for the same mutex.
    YieldThenRelock,
    /// Block the caller until another task wakes it.
    Block,
    /// Block the caller; once woken, call `relock` for the mutex it waited with.
    BlockThenRelock,
    /// Put the caller to sleep until the given time, in milliseconds.
    SleepUntil(usize),
}

/// The result of a system call: the value returned to the caller, a task to
/// wake, and what happens to the caller next.
pub struct SyscallOutcome {
    pub ret: isize,
    pub wake: Option<usize>,
    pub next: Next,
}

/// What the caller of a `lock` that answered `step` does next.
pub open spec fn next_after(step: LockStep) -> Next {
    match step {
        LockStep::Acquired => Next::Return,
        LockStep::Retry => Next::YieldThenRelock,
        LockStep::Blocked => Next::Block,
    }
}

/// The answer `lock` gives on mutex `m`.
pub open spec fn lock_step(m: AnyMutex) -> LockStep {
    if !m.locked() {
        LockStep::Acquired
    } else if m.spins() {
        LockStep::Retry
    } else {
        LockStep::Blocked
    }
}

fn next_for(step: LockStep) -> (next: Next)
    ensures
        next == next_after(step),
{
    match step {
        LockStep::Acquired => Next::Return,
        LockStep::Retry => Next::YieldThenRelock,
        LockStep::Blocked => Next::Block,
    }
}

/// Only the mutex in slot `id` changed between `before` and `after`.
pub open spec fn only_mutex_changed(before: &ProcessControlBlockInner, after: &ProcessControlBlockInner, id: int) -> bool {
    &&& after.mutex_list@.len() == before.mutex_list@.len()
    &&& forall|k: int| 0 <= k < before.mutex_list@.len() && k != id ==> #[trigger] after.mutex_list@[k] == before.mutex_list@[k]
    &&& after.mutex_list@[id] is Some
    &&& after.semaphore_list == before.semaphore_list
    &&& after.condvar_list == before.condvar_list
    &&& after.enable_deadlock_detect == before.enable_deadlock_detect
}

/// Only the semaphore in slot `id` changed between `before` and `after`.
pub open spec fn only_semaphore_changed(before: &ProcessControlBlockInner, after: &ProcessControlBlockInner, id: int) -> bool {
    &&& after.semaphore_list@.len() == before.semaphore_list@.len()
    &&& forall|k: int| 0 <= k < before.semaphore_list@.len() && k != id ==> #[trigger] after.semaphore_list@[k] == before.semaphore_list@[k]
    &&& after.semaphore_list@[id] is Some
    &&& after.mutex_list == before.mutex_list
    &&& after.condvar_list == before.condvar_list
    &&& after.enable_deadlock_detect == before.enable_deadlock_detect
}

/// Locks mutex `mutex_id` of `p` for thread `tid`, putting it back in its slot.
fn lock_slot(p: &mut ProcessControlBlockInner, tid: usize, mutex_id: usize) -> (step: LockStep)
    requires
        mutex_id < old(p).mutex_list@.len(),
        old(p).mutex_list@[mutex_id as int] is Some,
    ensures
        final(p).tasks == old(p).tasks,
        only_mutex_changed(&*old(p), &*final(p), mutex_id as int),
        step == lock_step(old(p).mutex_list@[mutex_id as int].unwrap()),
        locks_to(old(p).mutex_list@[mutex_id as int].unwrap(), final(p).mutex_list@[mutex_id as int].unwrap(), tid, step),
{
    let mut m = p.mutex_list[mutex_id].take().unwrap();
    let step = m.lock(tid);
    p.mutex_list.set(mutex_id, Some(m));
    step
}

/// Sleeps the caller for `ms` milliseconds from `now_ms`.
pub fn sys_sleep(now_ms: usize, ms: usize) -> (out: SyscallOutcome)
    requires
        now_ms + ms <= usize::MAX,
    ensures
        out.ret == 0,
        out.wake is None,
        out.next == Next::SleepUntil((now_ms + ms) as usize),
{
    let expire_ms = now_ms + ms;
    SyscallOutcome { ret: 0, wake: None, next: Next::SleepUntil(expire_ms) }
}

/// Creates a free mutex, blocking or spinning, in the lowest free slot of the
/// mutex table (or a new one at its end) and returns the slot.
pub fn sys_mutex_create(p: &mut ProcessControlBlockInner, blocking: bool) -> (id: isize)
    ensures
        ({
            let i = first_free(old(p).mutex_list@);
            &&& id == i as isize
            &&& final(p).mutex_list@.len() == if i < old(p).mutex_list@.len() {
                old(p).mutex_list@.len() as int
            } else {
                old(p).mutex_list@.len() + 1int
            }
            &&& forall|k: int| 0 <= k < old(p).mutex_list@.len() && k != i ==> #[trigger] final(p).mutex_list@[k] == old(p).mutex_list@[k]
            &&& final(p).mutex_list@[i] is Some
            &&& !final(p).mutex_list@[i].unwrap().locked()
            &&& final(p).mutex_list@[i].unwrap().waiters().len() == 0
            &&& final(p).mutex_list@[i].unwrap().spins() == !blocking
        }),
        final(p).tasks == old(p).tasks,
        final(p).semaphore_list == old(p).semaphore_list,
        final(p).condvar_list == old(p).condvar_list,
        final(p).enable_deadlock_detect == old(p).enable_deadlock_detect,
{
    let mutex = AnyMutex::create(blocking);
    let id = install(&mut p.mutex_list, mutex);
    id as isize
}

/// Thread `tid` locks mutex `mutex_id`.
///
/// With detection on, a request that finds the mutex taken and the process's
/// resource state unsafe is refused with `DEADLOCK` and changes nothing.
/// Otherwise the lock is taken (and recorded against `tid`), or the caller is
/// told to yield and retry, or it is queued to block until an unlock hands
/// the lock over.
pub fn sys_mutex_lock(p: &mut ProcessControlBlockInner, tid: usize, mutex_id: usize) -> (out: SyscallOutcome)
    requires
        mutex_id < old(p).mutex_list@.len(),
        old(p).mutex_list@[mutex_id as int] is Some,
        old(p).enable_deadlock_detect && !old(p).mutex_list@[mutex_id as int].unwrap().lockable()
            ==> tid < old(p).tasks@.len() && old(p).ready_for_mutex_check(),
        !old(p).mutex_list@[mutex_id as int].unwrap().locked() ==> old(p).has_res(tid as int),
    ensures
        ({
            let m0 = old(p).mutex_list@[mutex_id as int].unwrap();
            let refused = old(p).enable_deadlock_detect && !m0.lockable() && !old(p).mutex_state(
                tid as int,
                mutex_id as int,
            ).is_safe();
            &&& refused ==> out.ret == DEADLOCK && out.wake is None && out.next == Next::Return
                && *final(p) == *old(p)
            &&& !refused ==> {
                &&& out.ret == 0
                &&& out.wake is None
                &&& out.next == next_after(lock_step(m0))
                &&& only_mutex_changed(&*old(p), &*final(p), mutex_id as int)
                &&& locks_to(m0, final(p).mutex_list@[mutex_id as int].unwrap(), tid, lock_step(m0))
                &&& acquire_recorded(&*old(p), &*final(p), tid, mutex_id, lock_step(m0))
            }
        }),
{
    if p.enable_deadlock_detect {
        let deadlock = match &p.mutex_list[mutex_id] {
            Some(m) => mutex_dead_lock_test(p, m, mutex_id, tid),
            None => false,
        };
        if deadlock {
            return SyscallOutcome { ret: DEADLOCK, wake: None, next: Next::Return };
        }
    }
    let step = lock_and_record(p, tid, mutex_id);
    SyscallOutcome { ret: 0, wake: None, next: next_for(step) }
}

/// A lock that answered `step` is recorded against `tid` exactly when `tid` got it.
pub open spec fn acquire_recorded(
    before: &ProcessControlBlockInner,
    after: &ProcessControlBlockInner,
    tid: usize,
    mutex_id: usize,
    step: LockStep,
) -> bool {
    &&& step == LockStep::Acquired ==> ProcessControlBlockInner::record_changed(
        before,
        after,
        tid as int,
        before.res_of(tid as int).hold_mutex_list@.push(mutex_id),
        before.res_of(tid as int).hold_semaphore_list@,
    )
    &&& step != LockStep::Acquired ==> after.tasks == before.tasks
}

/// Locks mutex `mutex_id` for thread `tid` and, when `tid` got it, records it.
fn lock_and_record(p: &mut ProcessControlBlockInner, tid: usize, mutex_id: usize) -> (step: LockStep)
    requires
        mutex_id < old(p).mutex_list@.len(),
        old(p).mutex_list@[mutex_id as int] is Some,
        !old(p).mutex_list@[mutex_id as int].unwrap().locked() ==> old(p).has_res(tid as int),
    ensures
        only_mutex_changed(&*old(p), &*final(p), mutex_id as int),
        step == lock_step(old(p).mutex_list@[mutex_id as int].unwrap()),
        locks_to(old(p).mutex_list@[mutex_id as int].unwrap(), final(p).mutex_list@[mutex_id as int].unwrap(), tid, step),
        acquire_recorded(&*old(p), &*final(p), tid, mutex_id, step),
{
    let step = lock_slot(p, tid, mutex_id);
    match step {
        LockStep::Acquired => {
            p.record_mutex_hold(tid, mutex_id);
        },
        _ => {},
    }
    step
}

/// Takes mutex `mutex_id` again for thread `tid`: after a yield on a spinning
/// mutex, or after a wait on a condition variable. A lock taken is recorded
/// against `tid`.
pub fn relock(p: &mut ProcessControlBlockInner, tid: usize, mutex_id: usize) -> (next: Next)
    requires
        mutex_id < old(p).mutex_list@.len(),
        old(p).mutex_list@[mutex_id as int] is Some,
        !old(p).mutex_list@[mutex_id as int].unwrap().locked() ==> old(p).has_res(tid as int),
    ensures
        only_mutex_changed(&*old(p), &*final(p), mutex_id as int),
        next == next_after(lock_step(old(p).mutex_list@[mutex_id as int].unwrap())),
        locks_to(
            old(p).mutex_list@[mutex_id as int].unwrap(),
            final(p).mutex_list@[mutex_id as int].unwrap(),
            tid,
            lock_step(old(p).mutex_list@[mutex_id as int].unwrap()),
        ),
        acquire_recorded(&*old(p), &*final(p), tid, mutex_id, lock_step(old(p).mutex_list@[mutex_id as int].unwrap())),
{
    let step = lock_and_record(p, tid, mutex_id);
    next_for(step)
}

/// Thread `t`'s mutex list once mutex `id` is released and passed to `woken`:
/// every entry of `id` goes, and the thread that gets the lock gains one.
pub open spec fn passed_mutex_list(list: Seq<usize>, id: usize, woken: Option<usize>, t: int) -> Seq<usize> {
    if woken matches Some(w) && w == t {
        without(list, id).push(id)
    } else {
        without(list, id)
    }
}

/// The records of `after` are those of `before` once mutex `id` was released
/// and passed to `woken`; threads without a record are untouched.
pub open spec fn records_after_mutex_release(
    before: &ProcessControlBlockInner,
    after: &ProcessControlBlockInner,
    id: usize,
    woken: Option<usize>,
) -> bool {
    &&& after.tasks@.len() == before.tasks@.len()
    &&& forall|t: int| #[trigger] before.has_res(t) ==> {
        &&& after.has_res(t)
        &&& after.res_of(t).tid == before.res_of(t).tid
        &&& after.res_of(t).hold_mutex_list@ == passed_mutex_list(before.res_of(t).hold_mutex_list@, id, woken, t)
        &&& after.res_of(t).hold_semaphore_list@ == before.res_of(t).hold_semaphore_list@
    }
    &&& forall|t: int| 0 <= t < before.tasks@.len() && !before.has_res(t) ==> #[trigger] after.tasks@[t] == before.tasks@[t]
}

/// Every record forgets mutex `mutex_id`, then `woken`, if it has a record,
/// is recorded as holding it.
fn pass_mutex_records(p: &mut ProcessControlBlockInner, mutex_id: usize, woken: Option<usize>)
    ensures
        records_after_mutex_release(&*old(p), &*final(p), mutex_id, woken),
        ProcessControlBlockInner::same_objects(&*old(p), &*final(p)),
{
    let ghost start = *p;
    let mut t: usize = 0;
    while t < p.tasks.len()
        invariant
            t <= p.tasks@.len(),
            p.tasks@.len() == start.tasks@.len(),
            ProcessControlBlockInner::same_objects(&start, &*p),
            forall|s: int| 0 <= s < t && #[trigger] start.has_res(s) ==> {
                &&& p.has_res(s)
                &&& p.res_of(s).tid == start.res_of(s).tid
                &&& p.res_of(s).hold_mutex_list@ == without(start.res_of(s).hold_mutex_list@, mutex_id)
                &&& p.res_of(s).hold_semaphore_list@ == start.res_of(s).hold_semaphore_list@
            },
            forall|s: int| 0 <= s < start.tasks@.len() && (s >= t || !start.has_res(s)) ==> #[trigger] p.tasks@[s] == start.tasks@[s],
        decreases start.tasks@.len() - t,
    {
        if p.has_record(t) {
            p.forget_mutex_hold(t, mutex_id);
        }
        t = t + 1;
    }
    proof {
        assert forall|s: int| #[trigger] start.has_res(s) implies p.has_res(s) by {
            assert(0 <= s < t);
        }
    }
    let ghost mid = *p;
    if let Some(w) = woken {
        if p.has_record(w) {
            p.record_mutex_hold(w, mutex_id);
            proof {
                assert(start.has_res(w as int)) by {
                    if !start.has_res(w as int) {
                        assert(mid.tasks@[w as int] == start.tasks@[w as int]);
                    }
                }
                assert forall|s: int| #[trigger] start.has_res(s) implies p.has_res(s) && p.res_of(s).tid == start.res_of(s).tid
                    && p.res_of(s).hold_mutex_list@ == passed_mutex_list(start.res_of(s).hold_mutex_list@, mutex_id, woken, s)
                    && p.res_of(s).hold_semaphore_list@ == start.res_of(s).hold_semaphore_list@ by {
                    if s != w {
                        assert(p.tasks@[s] == mid.tasks@[s]);
                    }
                }
                assert forall|s: int| 0 <= s < start.tasks@.len() && !start.has_res(s) implies #[trigger] p.tasks@[s] == start.tasks@[s] by {
                    assert(s != w);
                    assert(p.tasks@[s] == mid.tasks@[s]);
                }
            }
        } else {
            proof {
                assert forall|s: int| #[trigger] start.has_res(s) implies s != w by {
                    assert(mid.has_res(s));
                }
            }
        }
    }
}

/// Unlocks mutex `mutex_id`: every thread's record of it is dropped, and the
/// lock passes to its first waiter (returned to be woken, and recorded as the
/// holder) or becomes free.
pub fn sys_mutex_unlock(p: &mut ProcessControlBlockInner, mutex_id: usize) -> (out: SyscallOutcome)
    requires
        mutex_id < old(p).mutex_list@.len(),
        old(p).mutex_list@[mutex_id as int] is Some,
        old(p).mutex_list@[mutex_id as int].unwrap().unlock_allowed(),
    ensures
        out.ret == 0,
        out.next == Next::Return,
        only_mutex_changed(&*old(p), &*final(p), mutex_id as int),
        unlocks_to(old(p).mutex_list@[mutex_id as int].unwrap(), final(p).mutex_list@[mutex_id as int].unwrap(), out.wake),
        records_after_mutex_release(&*old(p), &*final(p), mutex_id, out.wake),
{
    let mut m = p.mutex_list[mutex_id].take().unwrap();
    let woken = m.unlock();
    p.mutex_list.set(mutex_id, Some(m));
    let ghost mid = *p;
    assert(mid.tasks == old(p).tasks);
    pass_mutex_records(p, mutex_id, woken);
    proof {
        assert forall|t: int| #[trigger] old(p).has_res(t) implies mid.has_res(t) && mid.res_of(t) == old(p).res_of(t) by {}
        assert forall|t: int| #[trigger] mid.has_res(t) implies old(p).has_res(t) by {}
    }
    SyscallOutcome { ret: 0, wake: woken, next: Next::Return }
}

/// Creates a semaphore with `res_count` units in the lowest free slot of the
/// semaphore table (or a new one at its end) and returns the slot.
pub fn sys_semaphore_create(p: &mut ProcessControlBlockInner, res_count: usize) -> (id: isize)
    ensures
        ({
            let i = first_free(old(p).semaphore_list@);
            &&& id == i as isize
            &&& final(p).semaphore_list@.len() == if i < old(p).semaphore_list@.len() {
                old(p).semaphore_list@.len() as int
            } else {
                old(p).semaphore_list@.len() + 1int
            }
            &&& forall|k: int| 0 <= k < old(p).semaphore_list@.len() && k != i ==> #[trigger] final(p).semaphore_list@[k] == old(p).semaphore_list@[k]
            &&& final(p).semaphore_list@[i] is Some
            &&& final(p).semaphore_list@[i].unwrap().inner.count == res_count as isize
            &&& final(p).semaphore_list@[i].unwrap()@.waiters.len() == 0
        }),
        final(p).tasks == old(p).tasks,
        final(p).mutex_list == old(p).mutex_list,
        final(p).condvar_list == old(p).condvar_list,
        final(p).enable_deadlock_detect == old(p).enable_deadlock_detect,
{
    let sem = Semaphore::new(res_count);
    let id = install(&mut p.semaphore_list, sem);
    id as isize
}

/// Thread `t` is the first, in thread order, whose record holds a unit of semaphore `sem_id`.
pub open spec fn first_holder(p: &ProcessControlBlockInner, sem_id: usize, t: int) -> bool {
    &&& p.has_res(t)
    &&& p.res_of(t).hold_semaphore_list@.contains(sem_id)
    &&& forall|s: int| 0 <= s < t && #[trigger] p.has_res(s) ==> !p.res_of(s).hold_semaphore_list@.contains(sem_id)
}

/// Thread `t`'s semaphore list after an `up` of semaphore `sem_id` that woke
/// `woken`: the first holder gives back its earliest unit, and the woken
/// thread gains the unit handed to it.
pub open spec fn upped_semaphore_list(before: &ProcessControlBlockInner, sem_id: usize, woken: Option<usize>, t: int) -> Seq<usize> {
    let list = if first_holder(before, sem_id, t) {
        before.res_of(t).hold_semaphore_list@.remove_value(sem_id)
    } else {
        before.res_of(t).hold_semaphore_list@
    };
    if woken matches Some(w) && w == t {
        list.push(sem_id)
    } else {
        list
    }
}

/// The records of `after` are those of `before` after an `up` of semaphore
/// `sem_id` that woke `woken`; threads without a record are untouched.
pub open spec fn records_after_semaphore_up(
    before: &ProcessControlBlockInner,
    after: &ProcessControlBlockInner,
    sem_id: usize,
    woken: Option<usize>,
) -> bool {
    &&& after.tasks@.len() == before.tasks@.len()
    &&& forall|t: int| #[trigger] before.has_res(t) ==> {
        &&& after.has_res(t)
        &&& after.res_of(t).tid == before.res_of(t).tid
        &&& after.res_of(t).hold_mutex_list@ == before.res_of(t).hold_mutex_list@
        &&& after.res_of(t).hold_semaphore_list@ == upped_semaphore_list(before, sem_id, woken, t)
    }
    &&& forall|t: int| 0 <= t < before.tasks@.len() && !before.has_res(t) ==> #[trigger] after.tasks@[t] == before.tasks@[t]
}

/// Gives back a unit of semaphore `sem_id`: the first thread (in thread order)
/// whose record holds a unit of it loses one, and the semaphore's `up` may
/// name a task to wake, which is recorded as holding the unit handed to it.
pub fn sys_semaphore_up(p: &mut ProcessControlBlockInner, sem_id: usize) -> (out: SyscallOutcome)
    requires
        sem_id < old(p).semaphore_list@.len(),
        old(p).semaphore_list@[sem_id as int] is Some,
        old(p).semaphore_list@[sem_id as int].unwrap()@.count < isize::MAX,
    ensures
        out.ret == 0,
        out.next == Next::Return,
        only_semaphore_changed(&*old(p), &*final(p), sem_id as int),
        (final(p).semaphore_list@[sem_id as int].unwrap()@, out.wake) == old(p).semaphore_list@[sem_id as int].unwrap()@.after_up(),
        records_after_semaphore_up(&*old(p), &*final(p), sem_id, out.wake),
{
    let ghost start = *p;
    let mut t: usize = 0;
    let mut released = false;
    while !released && t < p.tasks.len()
        invariant
            t <= p.tasks@.len(),
            p.tasks@.len() == start.tasks@.len(),
            ProcessControlBlockInner::same_objects(&start, &*p),
            !released ==> p.tasks@ == start.tasks@,
            !released ==> forall|s: int| 0 <= s < t && #[trigger] start.has_res(s) ==> !start.res_of(s).hold_semaphore_list@.contains(sem_id),
            released ==> 0 < t && first_holder(&start, sem_id, t - 1) && ProcessControlBlockInner::record_changed(
                &start,
                &*p,
                t - 1,
                start.res_of(t - 1).hold_mutex_list@,
                start.res_of(t - 1).hold_semaphore_list@.remove_value(sem_id),
            ),
        decreases start.tasks@.len() - t,
    {
        if p.has_record(t) {
            released = p.forget_semaphore_hold(t, sem_id);
        }
        t = t + 1;
    }
    proof {
        if released {
            assert forall|u: int| first_holder(&start, sem_id, u) implies u == t - 1 by {
                if u < t - 1 {
                    assert(start.has_res(u));
                } else if u > t - 1 {
                    assert(start.has_res(t - 1));
                }
            }
        } else {
            assert forall|u: int| !first_holder(&start, sem_id, u) by {
                if first_holder(&start, sem_id, u) {
                    assert(start.has_res(u));
                }
            }
        }
        assert(records_after_semaphore_up(&start, &*p, sem_id, None)) by {
            assert forall|u: int| #[trigger] start.has_res(u) implies p.has_res(u)
                && p.res_of(u).tid == start.res_of(u).tid
                && p.res_of(u).hold_mutex_list@ == start.res_of(u).hold_mutex_list@
                && p.res_of(u).hold_semaphore_list@ == upped_semaphore_list(&start, sem_id, None, u) by {
                if released && u != t - 1 {
                    assert(p.tasks@[u] == start.tasks@[u]);
                }
            }
            assert forall|u: int| 0 <= u < start.tasks@.len() && !start.has_res(u) implies #[trigger] p.tasks@[u] == start.tasks@[u] by {
                if released {
                    assert(u != t - 1);
                }
            }
        }
    }
    let mut sem = p.semaphore_list[sem_id].take().unwrap();
    let woken = sem.up();
    p.semaphore_list.set(sem_id, Some(sem));
    let ghost mid = *p;
    assert(records_after_semaphore_up(&start, &mid, sem_id, None));
    if let Some(w) = woken {
        if p.has_record(w) {
            p.record_semaphore_hold(w, sem_id);
            proof {
                assert(start.has_res(w as int)) by {
                    if !start.has_res(w as int) {
                        assert(mid.tasks@[w as int] == start.tasks@[w as int]);
                    }
                }
                assert forall|u: int| #[trigger] start.has_res(u) implies p.has_res(u)
                    && p.res_of(u).tid == start.res_of(u).tid
                    && p.res_of(u).hold_mutex_list@ == start.res_of(u).hold_mutex_list@
                    && p.res_of(u).hold_semaphore_list@ == upped_semaphore_list(&start, sem_id, woken, u) by {
                    assert(mid.has_res(u));
                    assert(mid.res_of(u).hold_semaphore_list@ == upped_semaphore_list(&start, sem_id, None, u));
                    assert(0 <= u < start.tasks@.len());
                    if u != w {
                        assert(p.tasks@[u] == mid.tasks@[u]);
                    }
                }
                assert forall|u: int| 0 <= u < start.tasks@.len() && !start.has_res(u) implies #[trigger] p.tasks@[u] == start.tasks@[u] by {
                    assert(u != w);
                    assert(p.tasks@[u] == mid.tasks@[u]);
                }
            }
        } else {
            proof {
                assert forall|u: int| #[trigger] start.has_res(u) implies u != w by {
                    assert(mid.has_res(u));
                }
                assert forall|u: int| #[trigger] start.has_res(u) implies upped_semaphore_list(&start, sem_id, woken, u)
                    == upped_semaphore_list(&start, sem_id, None, u) by {
                }
            }
        }
    }
    SyscallOutcome { ret: 0, wake: woken, next: Next::Return }
}

/// Thread `tid` takes a unit of semaphore `sem_id`.
///
/// With detection on, a request that finds no unit at hand and the process's
/// resource state unsafe is refused with `DEADLOCK` and changes nothing.
/// Otherwise, if a unit is at hand, it is recorded against `tid`; then the
/// semaphore's `down` decides whether the caller blocks.
pub fn sys_semaphore_down(p: &mut ProcessControlBlockInner, tid: usize, sem_id: usize) -> (out: SyscallOutcome)
    requires
        sem_id < old(p).semaphore_list@.len(),
        old(p).semaphore_list@[sem_id as int] is Some,
        old(p).semaphore_list@[sem_id as int].unwrap()@.count > isize::MIN,
        old(p).enable_deadlock_detect && !(old(p).semaphore_list@[sem_id as int].unwrap()@.count >= 1)
            ==> tid < old(p).tasks@.len() && old(p).ready_for_semaphore_check(),
        old(p).semaphore_list@[sem_id as int].unwrap()@.count >= 1 ==> old(p).has_res(tid as int),
    ensures
        ({
            let s0 = old(p).semaphore_list@[sem_id as int].unwrap()@;
            let refused = old(p).enable_deadlock_detect && !(s0.count >= 1) && !old(p).semaphore_state(
                tid as int,
                sem_id as int,
            ).is_safe();
            &&& refused ==> out.ret == DEADLOCK && out.wake is None && out.next == Next::Return
                && *final(p) == *old(p)
            &&& !refused ==> {
                &&& out.ret == 0
                &&& out.wake is None
                &&& only_semaphore_changed(&*old(p), &*final(p), sem_id as int)
                &&& (final(p).semaphore_list@[sem_id as int].unwrap()@, out.next == Next::Block)
                    == s0.after_down(tid)
                &&& out.next == Next::Block || out.next == Next::Return
                &&& s0.count >= 1 ==> ProcessControlBlockInner::record_changed(
                    &*old(p),
                    &*final(p),
                    tid as int,
                    old(p).res_of(tid as int).hold_mutex_list@,
                    old(p).res_of(tid as int).hold_semaphore_list@.push(sem_id),
                )
                &&& !(s0.count >= 1) ==> final(p).tasks == old(p).tasks
            }
        }),
{
    if p.enable_deadlock_detect {
        let deadlock = match &p.semaphore_list[sem_id] {
            Some(sem) => semaphore_dead_lock_test(p, sem, sem_id, tid),
            None => false,
        };
        if deadlock {
            return SyscallOutcome { ret: DEADLOCK, wake: None, next: Next::Return };
        }
    }
    let can_down = match &p.semaphore_list[sem_id] {
        Some(sem) => sem.can_down(),
        None => false,
    };
    if can_down {
        p.record_semaphore_hold(tid, sem_id);
    }
    let mut sem = p.semaphore_list[sem_id].take().unwrap();
    let must_block = sem.down(tid);
    p.semaphore_list.set(sem_id, Some(sem));
    let next = if must_block {
        Next::Block
    } else {
        Next::Return
    };
    SyscallOutcome { ret: 0, wake: None, next }
}

/// Creates a condition variable in the lowest free slot of the condition
/// variable table (or a new one at its end) and returns the slot.
pub fn sys_condvar_create(p: &mut ProcessControlBlockInner, _arg: usize) -> (id: isize)
    ensures
        ({
            let i = first_free(old(p).condvar_list@);
            &&& id == i as isize
            &&& final(p).condvar_list@.len() == if i < old(p).condvar_list@.len() {
                old(p).condvar_list@.len() as int
            } else {
                old(p).condvar_list@.len() + 1int
            }
            &&& forall|k: int| 0 <= k < old(p).condvar_list@.len() && k != i ==> #[trigger] final(p).condvar_list@[k] == old(p).condvar_list@[k]
            &&& final(p).condvar_list@[i] is Some
            &&& final(p).condvar_list@[i].unwrap().waiters().len() == 0
        }),
        final(p).tasks == old(p).tasks,
        final(p).mutex_list == old(p).mutex_list,
        final(p).semaphore_list == old(p).semaphore_list,
        final(p).enable_deadlock_detect == old(p).enable_deadlock_detect,
{
    let condvar = Condvar::new();
    let id = install(&mut p.condvar_list, condvar);
    id as isize
}

/// Signals condition variable `condvar_id`: its longest waiting task, if any,
/// is taken off its queue and returned, to be woken.
pub fn sys_condvar_signal(p: &mut ProcessControlBlockInner, condvar_id: usize) -> (out: SyscallOutcome)
    requires
        condvar_id < old(p).condvar_list@.len(),
        old(p).condvar_list@[condvar_id as int] is Some,
    ensures
        ({
            let q0 = old(p).condvar_list@[condvar_id as int].unwrap().waiters();
            let q1 = final(p).condvar_list@[condvar_id as int].unwrap().waiters();
            &&& out.ret == 0
            &&& out.next == Next::Return
            &&& q0.len() > 0 ==> out.wake == Some(q0[0]) && q1 == q0.skip(1)
            &&& q0.len() == 0 ==> out.wake is None && q1 == q0
        }),
        final(p).condvar_list@.len() == old(p).condvar_list@.len(),
        final(p).condvar_list@[condvar_id as int] is Some,
        forall|k: int| 0 <= k < old(p).condvar_list@.len() && k != condvar_id ==> #[trigger] final(p).condvar_list@[k] == old(p).condvar_list@[k],
        final(p).tasks == old(p).tasks,
        final(p).mutex_list == old(p).mutex_list,
        final(p).semaphore_list == old(p).semaphore_list,
        final(p).enable_deadlock_detect == old(p).enable_deadlock_detect,
{
    let mut condvar = p.condvar_list[condvar_id].take().unwrap();
    let woken = condvar.signal();
    p.condvar_list.set(condvar_id, Some(condvar));
    SyscallOutcome { ret: 0, wake: woken, next: Next::Return }
}

/// Thread `tid` waits on condition variable `condvar_id` with mutex
/// `mutex_id`: the mutex is unlocked as by `sys_mutex_unlock` (its first
/// waiter, if any, gets it and is returned to be woken), `tid` joins the
/// condition variable's queue and blocks, and once woken it takes the mutex
/// again through `relock`.
pub fn sys_condvar_wait(p: &mut ProcessControlBlockInner, tid: usize, condvar_id: usize, mutex_id: usize) -> (out: SyscallOutcome)
    requires
        condvar_id < old(p).condvar_list@.len(),
        old(p).condvar_list@[condvar_id as int] is Some,
        mutex_id < old(p).mutex_list@.len(),
        old(p).mutex_list@[mutex_id as int] is Some,
        old(p).mutex_list@[mutex_id as int].unwrap().unlock_allowed(),
    ensures
        out.ret == 0,
        out.next == Next::BlockThenRelock,
        unlocks_to(old(p).mutex_list@[mutex_id as int].unwrap(), final(p).mutex_list@[mutex_id as int].unwrap(), out.wake),
        final(p).mutex_list@.len() == old(p).mutex_list@.len(),
        final(p).mutex_list@[mutex_id as int] is Some,
        forall|k: int| 0 <= k < old(p).mutex_list@.len() && k != mutex_id ==> #[trigger] final(p).mutex_list@[k] == old(p).mutex_list@[k],
        final(p).condvar_list@.len() == old(p).condvar_list@.len(),
        final(p).condvar_list@[condvar_id as int] is Some,
        final(p).condvar_list@[condvar_id as int].unwrap().waiters() == old(p).condvar_list@[condvar_id as int].unwrap().waiters().push(tid),
        forall|k: int| 0 <= k < old(p).condvar_list@.len() && k != condvar_id ==> #[trigger] final(p).condvar_list@[k] == old(p).condvar_list@[k],
        records_after_mutex_release(&*old(p), &*final(p), mutex_id, out.wake),
        final(p).semaphore_list == old(p).semaphore_list,
        final(p).enable_deadlock_detect == old(p).enable_deadlock_detect,
{
    let mut condvar = p.condvar_list[condvar_id].take().unwrap();
    let mut mutex = p.mutex_list[mutex_id].take().unwrap();
    let woken = condvar.wait(&mut mutex, tid);
    p.mutex_list.set(mutex_id, Some(mutex));
    p.condvar_list.set(condvar_id, Some(condvar));
    let ghost mid = *p;
    assert(mid.tasks == old(p).tasks);
    pass_mutex_records(p, mutex_id, woken);
    proof {
        assert forall|t: int| #[trigger] old(p).has_res(t) implies mid.has_res(t) && mid.res_of(t) == old(p).res_of(t) by {}
        assert forall|t: int| #[trigger] mid.has_res(t) implies old(p).has_res(t) by {}
    }
    SyscallOutcome { ret: 0, wake: woken, next: Next::BlockThenRelock }
}

/// Turns deadlock detection on for the process, whatever the argument.
pub fn sys_enable_deadlock_detect(p: &mut ProcessControlBlockInner, _enabled: usize) -> (ret: isize)
    ensures
        ret == 0,
        final(p).enable_deadlock_detect,
        final(p).tasks == old(p).tasks,
        final(p).mutex_list == old(p).mutex_list,
        final(p).semaphore_list == old(p).semaphore_list,
        final(p).condvar_list == old(p).condvar_list,
{
    p.enable_deadlock_detect = true;
    0
}

} // verus!
