//! What a thread holds: the mutexes and semaphore units recorded against it.
use vstd::prelude::*;

verus! {

/// How many times `x` occurs in `s`.
pub open spec fn occurrences(s: Seq<usize>, x: usize) -> int
    decreases s.len(),
{
    if s.len() == 0 {
        0
    } else {
        occurrences(s.drop_last(), x) + if s.last() == x {
            1int
        } else {
            0
        }
    }
}

/// `s` with every occurrence of `x` taken out, the rest in order.
pub open spec fn without(s: Seq<usize>, x: usize) -> Seq<usize>
    decreases s.len(),
{
    if s.len() == 0 {
        s
    } else if s.last() == x {
        without(s.drop_last(), x)
    } else {
        without(s.drop_last(), x).push(s.last())
    }
}

pub proof fn lemma_occurrences_bounded(s: Seq<usize>, x: usize)
    ensures
        0 <= occurrences(s, x) <= s.len(),
    decreases s.len(),
{
    if s.len() > 0 {
        lemma_occurrences_bounded(s.drop_last(), x);
    }
}

pub proof fn lemma_occurrences_step(s: Seq<usize>, k: int, x: usize)
    requires
        0 <= k < s.len(),
    ensures
        occurrences(s.take(k + 1), x) == occurrences(s.take(k), x) + if s[k] == x {
            1int
        } else {
            0
        },
{
    assert(s.take(k + 1).drop_last() =~= s.take(k));
}

/// `occurrences` is the multiplicity of `x` in `s` taken as a multiset.
pub proof fn lemma_occurrences_is_count(s: Seq<usize>, x: usize)
    ensures
        occurrences(s, x) == s.to_multiset().count(x),
    decreases s.len(),
{
    broadcast use vstd::seq_lib::group_to_multiset_ensures;
    broadcast use vstd::multiset::group_multiset_axioms;

    if s.len() == 0 {
        assert(!s.contains(x));
    } else {
        lemma_occurrences_is_count(s.drop_last(), x);
        assert(s.drop_last().push(s.last()) =~= s);
    }
}

/// A thread with no occurrences of `x` in `s` does not appear in `s`.
pub proof fn lemma_occurrences_contains(s: Seq<usize>, x: usize)
    ensures
        (occurrences(s, x) > 0) == s.contains(x),
    decreases s.len(),
{
    if s.len() > 0 {
        lemma_occurrences_contains(s.drop_last(), x);
        lemma_occurrences_bounded(s.drop_last(), x);
        if s.last() == x {
            assert(s[s.len() - 1] == x);
        }
        if s.drop_last().contains(x) {
            let i = choose|i: int| 0 <= i < s.drop_last().len() && s.drop_last()[i] == x;
            assert(s[i] == x);
        }
        if s.contains(x) && s.last() != x {
            let i = choose|i: int| 0 <= i < s.len() && s[i] == x;
            assert(s.drop_last()[i] == x);
        }
    }
}

/// The resources recorded against one thread.
pub struct TaskUserRes {
    pub tid: usize,
    /// Mutexes the thread took, by id.
    pub hold_mutex_list: Vec<usize>,
    /// Semaphore units the thread took, one entry per unit, by semaphore id.
    pub hold_semaphore_list: Vec<usize>,
}

impl TaskUserRes {
    /// A thread with id `tid` that holds nothing.
    pub fn new(tid: usize) -> (r: Self)
        ensures
            r.tid == tid,
            r.hold_mutex_list@ == Seq::<usize>::empty(),
            r.hold_semaphore_list@ == Seq::<usize>::empty(),
    {
        TaskUserRes { tid, hold_mutex_list: Vec::new(), hold_semaphore_list: Vec::new() }
    }

    /// Records that the thread took mutex `mutex_id`.
    pub fn hold_mutex(&mut self, mutex_id: usize)
        ensures
            final(self).tid == old(self).tid,
            final(self).hold_mutex_list@ == old(self).hold_mutex_list@.push(mutex_id),
            final(self).hold_semaphore_list@ == old(self).hold_semaphore_list@,
    {
        self.hold_mutex_list.push(mutex_id);
    }

    /// Forgets every record of mutex `mutex_id`.
    pub fn release_mutex(&mut self, mutex_id: usize)
        ensures
            final(self).tid == old(self).tid,
            final(self).hold_mutex_list@ == without(old(self).hold_mutex_list@, mutex_id),
            final(self).hold_semaphore_list@ == old(self).hold_semaphore_list@,
    {
        let mut kept: Vec<usize> = Vec::new();
        let mut i: usize = 0;
        while i < self.hold_mutex_list.len()
            invariant
                i <= self.hold_mutex_list@.len(),
                kept@ == without(self.hold_mutex_list@.take(i as int), mutex_id),
            decreases self.hold_mutex_list@.len() - i,
        {
            let x = self.hold_mutex_list[i];
            if x != mutex_id {
                kept.push(x);
            }
            proof {
                assert(self.hold_mutex_list@.take(i + 1).drop_last() =~= self.hold_mutex_list@.take(
                    i as int,
                ));
            }
            i = i + 1;
        }
        assert(self.hold_mutex_list@.take(i as int) =~= self.hold_mutex_list@);
        self.hold_mutex_list = kept;
    }

    /// Records that the thread took one unit of semaphore `sem_id`.
    pub fn hold_semaphore(&mut self, sem_id: usize)
        ensures
            final(self).tid == old(self).tid,
            final(self).hold_mutex_list@ == old(self).hold_mutex_list@,
            final(self).hold_semaphore_list@ == old(self).hold_semaphore_list@.push(sem_id),
    {
        self.hold_semaphore_list.push(sem_id);
    }

    /// Forgets one unit of semaphore `sem_id`, the earliest recorded, and tells
    /// whether there was one.
    pub fn release_semaphore(&mut self, sem_id: usize) -> (released: bool)
        ensures
            released == old(self).hold_semaphore_list@.contains(sem_id),
            !released ==> *final(self) == *old(self),
            final(self).tid == old(self).tid,
            final(self).hold_mutex_list@ == old(self).hold_mutex_list@,
            final(self).hold_semaphore_list@ == old(self).hold_semaphore_list@.remove_value(sem_id),
    {
        let ghost list = self.hold_semaphore_list@;
        let mut i: usize = 0;
        while i < self.hold_semaphore_list.len()
            invariant
                i <= list.len(),
                list == old(self).hold_semaphore_list@,
                *self == *old(self),
                self.hold_semaphore_list@ == list,
                self.tid == old(self).tid,
                self.hold_mutex_list@ == old(self).hold_mutex_list@,
                forall|k: int| 0 <= k < i ==> list[k] != sem_id,
            decreases list.len() - i,
        {
            if self.hold_semaphore_list[i] == sem_id {
                proof {
                    list.index_of_first_ensures(sem_id);
                    let first = list.index_of_first(sem_id).unwrap();
                    assert(first == i);
                    assert(list[i as int] == sem_id);
                }
                self.hold_semaphore_list.remove(i);
                return true;
            }
            i = i + 1;
        }
        proof {
            list.index_of_first_ensures(sem_id);
        }
        false
    }
}

/// A thread of a process; `res` is gone once the thread has exited.
pub struct TaskControlBlock {
    pub res: Option<TaskUserRes>,
}

} // verus!
