//! The synchronisation state of a process, and the resource states that
//! deadlock detection reads off it.
use vstd::prelude::*;
use crate::banker::ResourceState;
use crate::condvar::Condvar;
use crate::mutex::AnyMutex;
use crate::mutex::Mutex;
use crate::semaphore::Semaphore;
use crate::task::TaskControlBlock;
use crate::task::TaskUserRes;
use crate::task::occurrences;
use crate::task::without;

verus! {

/// `i` is the lowest free slot of `s`, or `s.len()` when every slot is taken.
pub open spec fn free_slot<T>(s: Seq<Option<T>>, i: int) -> bool {
    &&& 0 <= i <= s.len()
    &&& i < s.len() ==> s[i] is None
    &&& forall|k: int| 0 <= k < i ==> #[trigger] s[k] is Some
}

/// The slot a new object goes to: the lowest free one, else a new one at the end.
pub open spec fn first_free<T>(s: Seq<Option<T>>) -> int {
    choose|i: int| free_slot(s, i)
}

/// Every table has exactly one slot where a new object goes.
pub proof fn law_free_slot_unique<T>(s: Seq<Option<T>>, i: int, j: int)
    requires
        free_slot(s, i),
        free_slot(s, j),
    ensures
        i == j,
{
    if i < j {
        assert(s[i] is Some);
    } else if j < i {
        assert(s[j] is Some);
    }
}

/// The lowest free slot.
pub fn find_free<T>(list: &Vec<Option<T>>) -> (i: usize)
    ensures
        free_slot(list@, i as int),
        i == first_free(list@),
{
    let mut i: usize = 0;
    while i < list.len()
        invariant
            i <= list@.len(),
            forall|k: int| 0 <= k < i ==> #[trigger] list@[k] is Some,
        decreases list@.len() - i,
    {
        if list[i].is_none() {
            proof {
                assert(free_slot(list@, i as int));
                law_free_slot_unique(list@, i as int, first_free(list@));
            }
            return i;
        }
        i = i + 1;
    }
    proof {
        assert(free_slot(list@, i as int));
        law_free_slot_unique(list@, i as int, first_free(list@));
    }
    i
}

/// Puts `obj` in the lowest free slot of `list`, or at its end, and returns the slot.
pub fn install<T>(list: &mut Vec<Option<T>>, obj: T) -> (id: usize)
    ensures
        id == first_free(old(list)@),
        free_slot(old(list)@, id as int),
        id < old(list)@.len() ==> final(list)@ == old(list)@.update(id as int, Some(obj)),
        id == old(list)@.len() ==> final(list)@ == old(list)@.push(Some(obj)),
{
    let id = find_free(list);
    if id < list.len() {
        list.set(id, Some(obj));
        id
    } else {
        list.push(Some(obj));
        list.len() - 1
    }
}

/// The part of a process that its synchronisation system calls read and change.
/// Threads, mutexes, semaphores and condition variables are named by their
/// index in the tables; a `None` entry is a free slot.
pub struct ProcessControlBlockInner {
    pub tasks: Vec<Option<TaskControlBlock>>,
    pub mutex_list: Vec<Option<AnyMutex>>,
    pub semaphore_list: Vec<Option<Semaphore>>,
    pub condvar_list: Vec<Option<Condvar>>,
    pub enable_deadlock_detect: bool,
}

impl ProcessControlBlockInner {
    /// A process with the given threads and no synchronisation objects.
    pub fn new(tasks: Vec<Option<TaskControlBlock>>) -> (p: Self)
        ensures
            p.tasks == tasks,
            p.mutex_list@.len() == 0,
            p.semaphore_list@.len() == 0,
            p.condvar_list@.len() == 0,
            !p.enable_deadlock_detect,
    {
        ProcessControlBlockInner {
            tasks,
            mutex_list: Vec::new(),
            semaphore_list: Vec::new(),
            condvar_list: Vec::new(),
            enable_deadlock_detect: false,
        }
    }

    /// The threads of `after` are those of `before`, but for the record of
    /// thread `t`, which now lists `mutexes` and `semaphores`.
    pub open spec fn record_changed(before: &Self, after: &Self, t: int, mutexes: Seq<usize>, semaphores: Seq<usize>) -> bool {
        &&& after.tasks@.len() == before.tasks@.len()
        &&& forall|s: int| 0 <= s < before.tasks@.len() && s != t ==> #[trigger] after.tasks@[s] == before.tasks@[s]
        &&& after.has_res(t)
        &&& after.res_of(t).tid == before.res_of(t).tid
        &&& after.res_of(t).hold_mutex_list@ == mutexes
        &&& after.res_of(t).hold_semaphore_list@ == semaphores
    }

    /// `after` has the same mutexes, semaphores, condition variables and
    /// detection switch as `before`.
    pub open spec fn same_objects(before: &Self, after: &Self) -> bool {
        &&& after.mutex_list == before.mutex_list
        &&& after.semaphore_list == before.semaphore_list
        &&& after.condvar_list == before.condvar_list
        &&& after.enable_deadlock_detect == before.enable_deadlock_detect
    }

    /// Whether thread `t` has its record.
    pub fn has_record(&self, t: usize) -> (r: bool)
        ensures
            r == self.has_res(t as int),
    {
        if t < self.tasks.len() {
            match &self.tasks[t] {
                Some(task) => task.res.is_some(),
                None => false,
            }
        } else {
            false
        }
    }

    /// Takes thread `t`'s record out, leaving the thread without one.
    fn take_record(&mut self, t: usize) -> (r: TaskUserRes)
        requires
            old(self).has_res(t as int),
        ensures
            r == old(self).res_of(t as int),
            final(self).tasks@ == old(self).tasks@.update(t as int, Some(TaskControlBlock { res: None })),
            final(self).mutex_list == old(self).mutex_list,
            final(self).semaphore_list == old(self).semaphore_list,
            final(self).condvar_list == old(self).condvar_list,
            final(self).enable_deadlock_detect == old(self).enable_deadlock_detect,
    {
        let mut task = self.tasks[t].take().unwrap();
        let r = task.res.take().unwrap();
        self.tasks.set(t, Some(task));
        r
    }

    /// Gives thread `t` the record `r`.
    fn put_record(&mut self, t: usize, r: TaskUserRes)
        requires
            t < old(self).tasks@.len(),
        ensures
            final(self).tasks@ == old(self).tasks@.update(t as int, Some(TaskControlBlock { res: Some(r) })),
            final(self).mutex_list == old(self).mutex_list,
            final(self).semaphore_list == old(self).semaphore_list,
            final(self).condvar_list == old(self).condvar_list,
            final(self).enable_deadlock_detect == old(self).enable_deadlock_detect,
    {
        self.tasks.set(t, Some(TaskControlBlock { res: Some(r) }));
    }

    /// Records that thread `t` took mutex `mutex_id`.
    pub fn record_mutex_hold(&mut self, t: usize, mutex_id: usize)
        requires
            old(self).has_res(t as int),
        ensures
            Self::record_changed(&*old(self), &*final(self), t as int,
                old(self).res_of(t as int).hold_mutex_list@.push(mutex_id),
                old(self).res_of(t as int).hold_semaphore_list@),
            Self::same_objects(&*old(self), &*final(self)),
    {
        let mut r = self.take_record(t);
        r.hold_mutex(mutex_id);
        self.put_record(t, r);
    }

    /// Records that thread `t` took a unit of semaphore `sem_id`.
    pub fn record_semaphore_hold(&mut self, t: usize, sem_id: usize)
        requires
            old(self).has_res(t as int),
        ensures
            Self::record_changed(&*old(self), &*final(self), t as int,
                old(self).res_of(t as int).hold_mutex_list@,
                old(self).res_of(t as int).hold_semaphore_list@.push(sem_id)),
            Self::same_objects(&*old(self), &*final(self)),
    {
        let mut r = self.take_record(t);
        r.hold_semaphore(sem_id);
        self.put_record(t, r);
    }

    /// Forgets every record of mutex `mutex_id` against thread `t`.
    pub fn forget_mutex_hold(&mut self, t: usize, mutex_id: usize)
        requires
            old(self).has_res(t as int),
        ensures
            Self::record_changed(&*old(self), &*final(self), t as int,
                without(old(self).res_of(t as int).hold_mutex_list@, mutex_id),
                old(self).res_of(t as int).hold_semaphore_list@),
            Self::same_objects(&*old(self), &*final(self)),
    {
        let mut r = self.take_record(t);
        r.release_mutex(mutex_id);
        self.put_record(t, r);
    }

    /// Forgets the earliest unit of semaphore `sem_id` recorded against thread
    /// `t`, telling whether there was one.
    pub fn forget_semaphore_hold(&mut self, t: usize, sem_id: usize) -> (found: bool)
        requires
            old(self).has_res(t as int),
        ensures
            found == old(self).res_of(t as int).hold_semaphore_list@.contains(sem_id),
            !found ==> final(self).tasks@ == old(self).tasks@,
            Self::record_changed(&*old(self), &*final(self), t as int,
                old(self).res_of(t as int).hold_mutex_list@,
                old(self).res_of(t as int).hold_semaphore_list@.remove_value(sem_id)),
            Self::same_objects(&*old(self), &*final(self)),
    {
        let mut r = self.take_record(t);
        let found = r.release_semaphore(sem_id);
        self.put_record(t, r);
        proof {
            if !found {
                assert(self.tasks@ =~= old(self).tasks@);
            }
        }
        found
    }

    /// Thread `t` exists and still has its resource record.
    pub open spec fn has_res(&self, t: int) -> bool {
        &&& 0 <= t < self.tasks@.len()
        &&& self.tasks@[t] is Some
        &&& self.tasks@[t].unwrap().res is Some
    }

    pub open spec fn res_of(&self, t: int) -> TaskUserRes {
        self.tasks@[t].unwrap().res.unwrap()
    }

    /// What building a mutex detector needs: every thread has its record,
    /// filed under its own id, naming only mutexes of the table, and no wait
    /// queue is long enough to overflow an `i32` count.
    pub open spec fn ready_for_mutex_check(&self) -> bool {
        &&& forall|t: int|
            0 <= t < self.tasks@.len() && #[trigger] self.tasks@[t] is Some ==> self.has_res(t)
                && self.res_of(t).tid == t && forall|k: int|
                0 <= k < self.res_of(t).hold_mutex_list@.len() ==> #[trigger] self.res_of(
                    t,
                ).hold_mutex_list@[k] < self.mutex_list@.len()
        &&& forall|id: int|
            0 <= id < self.mutex_list@.len() && #[trigger] self.mutex_list@[id] is Some
                ==> self.mutex_list@[id].unwrap().waiters().len() < i32::MAX
    }

    /// What building a semaphore detector needs: every record is filed under its
    /// thread's id, names only semaphores of the table, and no count can
    /// overflow an `i32`.
    pub open spec fn ready_for_semaphore_check(&self) -> bool {
        &&& forall|t: int|
            #[trigger] self.has_res(t) ==> self.res_of(t).tid == t
                && self.res_of(t).hold_semaphore_list@.len() <= i32::MAX && forall|k: int|
                0 <= k < self.res_of(t).hold_semaphore_list@.len() ==> #[trigger] self.res_of(
                    t,
                ).hold_semaphore_list@[k] < self.semaphore_list@.len()
        &&& forall|id: int|
            0 <= id < self.semaphore_list@.len() && #[trigger] self.semaphore_list@[id] is Some
                ==> self.semaphore_list@[id].unwrap()@.waiters.len() < i32::MAX
    }

    /// Thread `tid`'s request for mutex `mutex_id` as a need.
    pub open spec fn request(tid: int, res_id: int, t: int, id: int) -> int {
        if t == tid && id == res_id {
            1
        } else {
            0
        }
    }

    /// Mutex `id` counts as one free unit when nobody holds it.
    pub open spec fn mutex_available(&self, id: int) -> int {
        match self.mutex_list@[id] {
            Some(m) => if m.locked() {
                0
            } else {
                1
            },
            None => 0,
        }
    }

    /// Thread `t` holds mutex `id` when its record names it.
    pub open spec fn mutex_allocation(&self, t: int, id: int) -> int {
        if self.has_res(t) && self.res_of(t).hold_mutex_list@.contains(id as usize) {
            1
        } else {
            0
        }
    }

    /// How often thread `t` waits in the queue of mutex `id`, counted only
    /// while the mutex is held.
    pub open spec fn mutex_waiting(&self, t: int, id: int) -> int {
        match self.mutex_list@[id] {
            Some(m) => if m.locked() && self.has_res(t) {
                occurrences(m.waiters(), t as usize)
            } else {
                0
            },
            None => 0,
        }
    }

    /// The resource state seen when thread `tid` asks for mutex `mutex_id`.
    pub open spec fn mutex_state(&self, tid: int, mutex_id: int) -> ResourceState {
        let n = self.tasks@.len();
        let m = self.mutex_list@.len();
        ResourceState {
            available: Seq::new(m, |id: int| self.mutex_available(id)),
            allocation: Seq::new(n, |t: int| Seq::new(m, |id: int| self.mutex_allocation(t, id))),
            need: Seq::new(
                n,
                |t: int|
                    Seq::new(
                        m,
                        |id: int| Self::request(tid, mutex_id, t, id) + self.mutex_waiting(t, id),
                    ),
            ),
        }
    }

    /// A semaphore that can be taken offers its count (as an `i32`); any other offers nothing.
    pub open spec fn semaphore_available(&self, id: int) -> int {
        match self.semaphore_list@[id] {
            Some(s) => if s@.count >= 1 {
                (s.inner.count as i32) as int
            } else {
                0
            },
            None => 0,
        }
    }

    /// Units of semaphore `id` recorded against thread `t`.
    pub open spec fn semaphore_allocation(&self, t: int, id: int) -> int {
        if self.has_res(t) {
            occurrences(self.res_of(t).hold_semaphore_list@, id as usize)
        } else {
            0
        }
    }

    /// How often thread `t` waits in the queue of semaphore `id`, counted only
    /// when the semaphore cannot be taken.
    pub open spec fn semaphore_waiting(&self, t: int, id: int) -> int {
        match self.semaphore_list@[id] {
            Some(s) => if !(s@.count >= 1) && self.has_res(t) {
                occurrences(s@.waiters, t as usize)
            } else {
                0
            },
            None => 0,
        }
    }

    /// The resource state seen when thread `tid` asks for semaphore `sem_id`.
    pub open spec fn semaphore_state(&self, tid: int, sem_id: int) -> ResourceState {
        let n = self.tasks@.len();
        let m = self.semaphore_list@.len();
        ResourceState {
            available: Seq::new(m, |id: int| self.semaphore_available(id)),
            allocation: Seq::new(n, |t: int| Seq::new(m, |id: int| self.semaphore_allocation(t, id))),
            need: Seq::new(
                n,
                |t: int|
                    Seq::new(
                        m,
                        |id: int| Self::request(tid, sem_id, t, id) + self.semaphore_waiting(t, id),
                    ),
            ),
        }
    }
}

} // verus!
