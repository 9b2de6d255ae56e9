//! Deadlock detection by the banker's safety check.
use vstd::prelude::*;
use crate::banker::ResourceState;
use crate::banker::released;
use crate::banker::lemma_released_insert;
use crate::banker::lemma_released_bounds;
use crate::banker::lemma_order_shorter;
use crate::banker::lemma_stuck_is_unsafe;
use crate::mutex::AnyMutex;
use crate::mutex::Mutex;
use crate::semaphore::Semaphore;
use crate::process::ProcessControlBlockInner;
use crate::task::occurrences;
use crate::task::lemma_occurrences_bounded;
use crate::task::lemma_occurrences_step;
use crate::task::lemma_occurrences_is_count;

verus! {

/// The resource matrices of one process at the moment a thread asks for a lock.
pub struct DeadLockDetector {
    /// `available[j]`: units of resource `j` that are free.
    pub available: Vec<i32>,
    /// `allocation[i][j]`: units of resource `j` thread `i` holds.
    pub allocation: Vec<Vec<i32>>,
    /// `need[i][j]`: units of resource `j` thread `i` still waits for.
    pub need: Vec<Vec<i32>>,
    pub thread_count: usize,
}

impl View for DeadLockDetector {
    type V = ResourceState;

    open spec fn view(&self) -> ResourceState {
        ResourceState {
            available: Seq::new(self.available@.len(), |j: int| self.available@[j] as int),
            allocation: Seq::new(
                self.allocation@.len(),
                |t: int| Seq::new(self.allocation@[t]@.len(), |j: int| self.allocation@[t]@[j] as int),
            ),
            need: Seq::new(
                self.need@.len(),
                |t: int| Seq::new(self.need@[t]@.len(), |j: int| self.need@[t]@[j] as int),
            ),
        }
    }
}

/// A row of `m` zeros.
fn zero_row(m: usize) -> (row: Vec<i32>)
    ensures
        row@.len() == m,
        forall|j: int| 0 <= j < m ==> row@[j] == 0,
{
    let mut row: Vec<i32> = Vec::new();
    let mut j: usize = 0;
    while j < m
        invariant
            j <= m,
            row@.len() == j,
            forall|k: int| 0 <= k < j ==> row@[k] == 0,
        decreases m - j,
    {
        row.push(0);
        j = j + 1;
    }
    row
}

/// An `n x m` matrix of zeros.
fn zero_matrix(n: usize, m: usize) -> (mat: Vec<Vec<i32>>)
    ensures
        mat@.len() == n,
        forall|t: int| 0 <= t < n ==> (#[trigger] mat@[t])@.len() == m,
        forall|t: int, j: int| 0 <= t < n && 0 <= j < m ==> #[trigger] mat@[t]@[j] == 0,
{
    let mut mat: Vec<Vec<i32>> = Vec::new();
    let mut t: usize = 0;
    while t < n
        invariant
            t <= n,
            mat@.len() == t,
            forall|s: int| 0 <= s < t ==> (#[trigger] mat@[s])@.len() == m,
            forall|s: int, j: int| 0 <= s < t && 0 <= j < m ==> #[trigger] mat@[s]@[j] == 0,
        decreases n - t,
    {
        mat.push(zero_row(m));
        t = t + 1;
    }
    mat
}

impl DeadLockDetector {
    /// The matrices have the shape the detector was made with: `thread_count`
    /// rows of `available.len()` columns.
    pub open spec fn wf(&self) -> bool {
        &&& self.need@.len() == self.thread_count
        &&& self@.well_shaped()
    }

    /// A detector for `thread_count` threads and `resource_count` resources,
    /// with nothing available, allocated or needed.
    pub fn new(thread_count: usize, resource_count: usize) -> (d: Self)
        ensures
            d.wf(),
            d.thread_count == thread_count,
            d.available@.len() == resource_count,
            d.need@.len() == thread_count,
            d.allocation@.len() == thread_count,
            forall|j: int| 0 <= j < resource_count ==> #[trigger] d.available@[j] == 0,
            forall|t: int| 0 <= t < thread_count ==> (#[trigger] d.need@[t])@.len() == resource_count,
            forall|t: int| 0 <= t < thread_count ==> (#[trigger] d.allocation@[t])@.len() == resource_count,
            forall|t: int, j: int| 0 <= t < thread_count && 0 <= j < resource_count ==> #[trigger] d.need@[t]@[j] == 0,
            forall|t: int, j: int| 0 <= t < thread_count && 0 <= j < resource_count ==> #[trigger] d.allocation@[t]@[j] == 0,
            d@.threads() == thread_count,
            d@.resources() == resource_count,
            forall|j: int| 0 <= j < resource_count ==> #[trigger] d@.available[j] == 0,
            forall|t: int, j: int|
                0 <= t < thread_count && 0 <= j < resource_count ==> #[trigger] d@.allocation[t][j]
                    == 0 && d@.need[t][j] == 0,
    {
        let d = DeadLockDetector {
            available: zero_row(resource_count),
            allocation: zero_matrix(thread_count, resource_count),
            need: zero_matrix(thread_count, resource_count),
            thread_count,
        };
        assert(d@.well_shaped());
        d
    }

    /// Whether thread `tid` could finish with `work` at hand.
    fn fits(&self, tid: usize, work: &Vec<i128>) -> (r: bool)
        requires
            self.wf(),
            tid < self.thread_count,
            work@.len() == self.available@.len(),
        ensures
            r == forall|j: int| 0 <= j < work@.len() ==> self@.need[tid as int][j] <= #[trigger] work@[j],
    {
        let row = &self.need[tid];
        assert(self@.need[tid as int].len() == self@.resources());
        let mut j: usize = 0;
        while j < row.len()
            invariant
                self.wf(),
                tid < self.thread_count,
                j <= row@.len(),
                row@.len() == work@.len(),
                *row == self.need@[tid as int],
                forall|k: int| 0 <= k < j ==> self@.need[tid as int][k] <= #[trigger] work@[k],
            decreases row@.len() - j,
        {
            assert(self@.need[tid as int][j as int] == row@[j as int] as int);
            if (row[j] as i128) > work[j] {
                return false;
            }
            j = j + 1;
        }
        true
    }

    /// Thread `tid` finishes: what it holds goes back to `work`.
    fn release_row(&self, tid: usize, work: &mut Vec<i128>, Ghost(done): Ghost<Set<int>>)
        requires
            self.wf(),
            tid < self.thread_count,
            !done.contains(tid as int),
            old(work)@.len() == self.available@.len(),
            forall|j: int|
                0 <= j < self.available@.len() ==> #[trigger] old(work)@[j] == self@.work_after(
                    done,
                    j,
                ),
        ensures
            final(work)@.len() == self.available@.len(),
            forall|j: int|
                0 <= j < self.available@.len() ==> #[trigger] final(work)@[j] == self@.work_after(
                    done.insert(tid as int),
                    j,
                ),
    {
        let m = self.available.len();
        let ghost n = self.thread_count as int;
        let ghost s = self@;
        let row = &self.allocation[tid];
        assert(s.allocation[tid as int].len() == m);
        let mut j: usize = 0;
        while j < m
            invariant
                s == self@,
                n == self.thread_count,
                self.wf(),
                tid < n,
                !done.contains(tid as int),
                *row == self.allocation@[tid as int],
                row@.len() == m,
                m == self.available@.len(),
                work@.len() == m,
                j <= m,
                forall|k: int| 0 <= k < j ==> #[trigger] work@[k] == s.work_after(done.insert(tid as int), k),
                forall|k: int| j <= k < m ==> #[trigger] work@[k] == s.work_after(done, k),
            decreases m - j,
        {
            proof {
                lemma_released_insert(s.allocation, done, tid as int, j as int, n);
                assert forall|x: int| 0 <= x < n implies -0x8000_0000 <= #[trigger] s.allocation[x][j as int]
                    < 0x8000_0000 by {
                    assert(s.allocation[x].len() == m);
                }
                lemma_released_bounds(s.allocation, done.insert(tid as int), j as int, n);
                assert(n * 0x8000_0000 <= 0x1_0000_0000_0000_0000 * 0x8000_0000) by (nonlinear_arith)
                    requires
                        0 <= n <= 0x1_0000_0000_0000_0000,
                ;
                assert(s.allocation[tid as int][j as int] == row@[j as int] as int);
            }
            let cur = work[j];
            work.set(j, cur + row[j] as i128);
            j = j + 1;
        }
    }

    /// Whether every entry of `finish` is set.
    fn all_finished(finish: &Vec<bool>) -> (r: bool)
        ensures
            r == forall|t: int| 0 <= t < finish@.len() ==> #[trigger] finish@[t],
    {
        let mut t: usize = 0;
        while t < finish.len()
            invariant
                t <= finish@.len(),
                forall|k: int| 0 <= k < t ==> #[trigger] finish@[k],
            decreases finish@.len() - t,
        {
            if !finish[t] {
                return false;
            }
            t = t + 1;
        }
        true
    }

    /// Runs the banker's safety check: repeatedly picks the first unfinished
    /// thread whose need fits in the work vector and lets it finish.
    ///
    /// It answers `true` only if all threads can finish in some order; with
    /// allocations that are counts (never negative), it answers `true` exactly
    /// when such an order exists.
    ///
    /// The detector must have the shape of its definition: `need` and
    /// `allocation` are `thread_count x available.len()` matrices, as every
    /// detector built from a process is.
    pub fn try_alloc(&self) -> (r: bool)
        requires
            self.wf(),
        ensures
            r ==> self@.is_safe(),
            self@.counts_nonnegative() ==> (r == self@.is_safe()),
    {
        let n = self.thread_count;
        let m = self.available.len();
        let ghost s = self@;
        let ghost nn = n as int;
        let mut finish: Vec<bool> = Vec::new();
        let mut t: usize = 0;
        while t < n
            invariant
                t <= n,
                finish@.len() == t,
                forall|k: int| 0 <= k < t ==> !(#[trigger] finish@[k]),
            decreases n - t,
        {
            finish.push(false);
            t = t + 1;
        }
        let mut work: Vec<i128> = Vec::new();
        let mut j: usize = 0;
        while j < m
            invariant
                j <= m,
                m == self.available@.len(),
                s == self@,
                work@.len() == j,
                forall|k: int| 0 <= k < j ==> #[trigger] work@[k] == s.work_after(Set::empty(), k),
            decreases m - j,
        {
            proof {
                crate::banker::lemma_released_agree(
                    s.allocation,
                    Set::<int>::empty(),
                    Set::<int>::empty(),
                    j as int,
                    0,
                );
                lemma_released_zero(s.allocation, j as int, s.threads());
            }
            work.push(self.available[j] as i128);
            j = j + 1;
        }
        let ghost mut order: Seq<int> = Seq::empty();
        proof {
            assert(order.to_set() =~= Set::<int>::empty());
        }
        loop
            invariant
                s == self@,
                nn == n,
                n == self.thread_count,
                m == self.available@.len(),
                self.wf(),
                finish@.len() == n,
                work@.len() == m,
                order.no_duplicates(),
                order.len() <= n,
                forall|k: int| 0 <= k < order.len() ==> 0 <= #[trigger] order[k] < n,
                forall|k: int| 0 <= k < n ==> (#[trigger] finish@[k] <==> order.contains(k)),
                forall|k: int| 0 <= k < m ==> #[trigger] work@[k] == s.work_after(order.to_set(), k),
                forall|k: int|
                    #![trigger order[k]]
                    0 <= k < order.len() ==> s.can_finish(order[k], order.take(k).to_set()),
            decreases n - order.len(),
        {
            let ghost before = order;
            let mut found = false;
            let mut tid: usize = 0;
            while !found && tid < n
                invariant
                    s == self@,
                    nn == n,
                    n == self.thread_count,
                    m == self.available@.len(),
                    self.wf(),
                    finish@.len() == n,
                    work@.len() == m,
                    tid <= n,
                    order.no_duplicates(),
                    forall|k: int| 0 <= k < order.len() ==> 0 <= #[trigger] order[k] < n,
                    forall|k: int| 0 <= k < n ==> (#[trigger] finish@[k] <==> order.contains(k)),
                    forall|k: int| 0 <= k < m ==> #[trigger] work@[k] == s.work_after(order.to_set(), k),
                    forall|k: int|
                        #![trigger order[k]]
                        0 <= k < order.len() ==> s.can_finish(order[k], order.take(k).to_set()),
                    found ==> order.len() == before.len() + 1,
                    found ==> order.len() <= n,
                    !found ==> order == before,
                    !found ==> forall|u: int|
                        0 <= u < tid && !(#[trigger] finish@[u]) ==> !s.can_finish(u, order.to_set()),
                    before.len() <= n,
                decreases n - tid,
            {
                if !finish[tid] {
                    let ok = self.fits(tid, &work);
                    proof {
                        if ok {
                            assert forall|k: int| 0 <= k < s.resources() implies s.need[tid as int][k]
                                <= #[trigger] s.work_after(order.to_set(), k) by {
                                assert(work@[k] == s.work_after(order.to_set(), k));
                            }
                        } else {
                            let k = choose|k: int| 0 <= k < work@.len() && !(s.need[tid as int][k] <= #[trigger] work@[k]);
                            assert(work@[k] == s.work_after(order.to_set(), k));
                        }
                        assert(ok == s.can_finish(tid as int, order.to_set()));
                    }
                    if ok {
                        proof {
                            assert(!order.contains(tid as int));
                            lemma_order_shorter(order, nn, tid as int);
                        }
                        found = true;
                        finish.set(tid, true);
                        self.release_row(tid, &mut work, Ghost(order.to_set()));
                        proof {
                            let old_order = order;
                            order = order.push(tid as int);
                            assert forall|x: int| order.to_set().contains(x) <==> old_order.to_set().insert(tid as int).contains(x) by {
                                if old_order.contains(x) {
                                    let i = choose|i: int| 0 <= i < old_order.len() && old_order[i] == x;
                                    assert(order[i] == x);
                                }
                                if x == tid {
                                    assert(order[old_order.len() as int] == x);
                                }
                                if order.contains(x) {
                                    let i = choose|i: int| 0 <= i < order.len() && order[i] == x;
                                    if i < old_order.len() {
                                        assert(old_order[i] == x);
                                    }
                                }
                            }
                            assert(order.to_set() =~= old_order.to_set().insert(tid as int));
                            assert(order.take(old_order.len() as int) =~= old_order);
                            assert forall|k: int|
                                #![trigger order[k]]
                                0 <= k < order.len() implies s.can_finish(
                                order[k],
                                order.take(k).to_set(),
                            ) by {
                                if k < old_order.len() {
                                    assert(order.take(k) =~= old_order.take(k));
                                    assert(old_order[k] == order[k]);
                                }
                            }
                            assert forall|k: int| 0 <= k < n implies (#[trigger] finish@[k]
                                <==> order.contains(k)) by {
                                if k == tid {
                                    assert(order[old_order.len() as int] == k);
                                } else if old_order.contains(k) {
                                    let i = choose|i: int| 0 <= i < old_order.len() && old_order[i] == k;
                                    assert(order[i] == k);
                                } else if order.contains(k) {
                                    let i = choose|i: int| 0 <= i < order.len() && order[i] == k;
                                    assert(old_order[i] == k);
                                }
                            }
                        }
                    }
                }
                tid = tid + 1;
            }
            if Self::all_finished(&finish) {
                proof {
                    assert forall|k: int| 0 <= k < nn implies #[trigger] order.contains(k) by {
                        assert(finish@[k]);
                    }
                    assert(s.completes_in_order(order));
                }
                return true;
            }
            if !found {
                proof {
                    if s.counts_nonnegative() {
                        let u = choose|u: int| 0 <= u < nn && !(#[trigger] finish@[u]);
                        assert forall|x: int|
                            0 <= x < s.threads() && !order.to_set().contains(x) implies !s.can_finish(
                            x,
                            order.to_set(),
                        ) by {
                            assert(!finish@[x]);
                        }
                        lemma_stuck_is_unsafe(s, order.to_set(), u);
                    }
                }
                return false;
            }
        }
    }
}

impl DeadLockDetector {
    /// The detector for thread `tid` asking for mutex `mutex_id` of process `p`.
    ///
    /// A mutex nobody holds offers one unit; thread `t` holds one unit of
    /// each mutex its record names, needs one unit of each held mutex for
    /// each time it waits in that mutex's queue, and `tid` needs one more unit of
    /// `mutex_id`.
    pub fn build_mutex_detector(p: &ProcessControlBlockInner, tid: usize, mutex_id: usize) -> (d: Self)
        requires
            tid < p.tasks@.len(),
            mutex_id < p.mutex_list@.len(),
            p.ready_for_mutex_check(),
        ensures
            d.wf(),
            d.thread_count == p.tasks@.len(),
            d@ == p.mutex_state(tid as int, mutex_id as int),
    {
        let n = p.tasks.len();
        let m = p.mutex_list.len();
        let mut detector = DeadLockDetector::new(n, m);
        proof {
            detector.lemma_view_entries();
        }
        detector.need[tid][mutex_id] = 1;
        let mut id: usize = 0;
        while id < m
            invariant
                n == p.tasks@.len(),
                m == p.mutex_list@.len(),
                tid < n,
                mutex_id < m,
                p.ready_for_mutex_check(),
                id <= m,
                detector.thread_count == n,
                detector.available@.len() == m,
                detector.need@.len() == n,
                detector.allocation@.len() == n,
                forall|t: int| 0 <= t < n ==> (#[trigger] detector.need@[t])@.len() == m,
                forall|t: int| 0 <= t < n ==> (#[trigger] detector.allocation@[t])@.len() == m,
                forall|t: int, j: int| 0 <= t < n && 0 <= j < m ==> #[trigger] detector.allocation@[t]@[j] == 0,
                forall|j: int| 0 <= j < id ==> #[trigger] detector.available@[j] as int == p.mutex_available(j),
                forall|t: int, j: int|
                    0 <= t < n && 0 <= j < m ==> #[trigger] detector.need@[t]@[j] as int == ProcessControlBlockInner::request(tid as int, mutex_id as int, t, j) + if j < id {
                        p.mutex_waiting(t, j)
                    } else {
                        0
                    },
            decreases m - id,
        {
            if let Some(mx) = &p.mutex_list[id] {
                if !mx.is_locked() {
                    detector.available.set(id, 1);
                } else {
                    detector.available.set(id, 0);
                    let (_, wait_queue) = mx.wait_queue();
                    if let Some(q) = wait_queue {
                        let mut k: usize = 0;
                        while k < q.len()
                            invariant
                                n == p.tasks@.len(),
                                m == p.mutex_list@.len(),
                                p.ready_for_mutex_check(),
                                id < m,
                                p.mutex_list@[id as int] == Some(*mx),
                                q@ == mx.waiters(),
                                k <= q@.len(),
                                detector.thread_count == n,
                                detector.available@.len() == m,
                                detector.need@.len() == n,
                                detector.allocation@.len() == n,
                                forall|t: int| 0 <= t < n ==> (#[trigger] detector.need@[t])@.len() == m,
                                forall|t: int| 0 <= t < n ==> (#[trigger] detector.allocation@[t])@.len() == m,
                                forall|t: int, j: int| 0 <= t < n && 0 <= j < m ==> #[trigger] detector.allocation@[t]@[j] == 0,
                                forall|j: int| 0 <= j <= id ==> #[trigger] detector.available@[j] as int == p.mutex_available(j),
                                forall|t: int, j: int|
                                    0 <= t < n && 0 <= j < m && j != id ==> #[trigger] detector.need@[t]@[j] as int == ProcessControlBlockInner::request(tid as int, mutex_id as int, t, j) + if j < id {
                                        p.mutex_waiting(t, j)
                                    } else {
                                        0
                                    },
                                forall|t: int|
                                    0 <= t < n ==> #[trigger] detector.need@[t]@[id as int] as int == ProcessControlBlockInner::request(tid as int, mutex_id as int, t, id as int) + if p.has_res(t) {
                                        occurrences(q@.take(k as int), t as usize)
                                    } else {
                                        0
                                    },
                            decreases q@.len() - k,
                        {
                            let w = q[k];
                            proof {
                                assert forall|t: int| 0 <= t < n implies #[trigger] occurrences(q@.take(k + 1), t as usize)
                                    == occurrences(q@.take(k as int), t as usize) + if q@[k as int] == t as usize {
                                    1int
                                } else {
                                    0
                                } by {
                                    lemma_occurrences_step(q@, k as int, t as usize);
                                }
                            }
                            if w < n {
                                if let Some(task) = &p.tasks[w] {
                                    if let Some(res) = &task.res {
                                        proof {
                                            assert(p.has_res(w as int));
                                            assert(*res == p.res_of(w as int));
                                            assert(p.res_of(w as int).tid == w);
                                            lemma_occurrences_bounded(q@.take(k as int), w);
                                            assert(p.mutex_list@[id as int] is Some);
                                            assert(q@.len() < i32::MAX);
                                        }
                                        let cur = detector.need[res.tid][id];
                                        proof {
                                            assert(cur as int == ProcessControlBlockInner::request(tid as int, mutex_id as int, w as int, id as int) + occurrences(q@.take(k as int), w));
                                            assert(ProcessControlBlockInner::request(tid as int, mutex_id as int, w as int, id as int) <= 1);
                                        }
                                        detector.need[res.tid].set(id, cur + 1);
                                    }
                                }
                            }
                            k = k + 1;
                        }
                        assert(q@.take(k as int) =~= q@);
                    }
                }
            } else {
                detector.available.set(id, 0);
            }
            id = id + 1;
        }
        let mut t: usize = 0;
        while t < n
            invariant
                n == p.tasks@.len(),
                m == p.mutex_list@.len(),
                p.ready_for_mutex_check(),
                t <= n,
                detector.thread_count == n,
                detector.available@.len() == m,
                detector.need@.len() == n,
                detector.allocation@.len() == n,
                forall|s: int| 0 <= s < n ==> (#[trigger] detector.need@[s])@.len() == m,
                forall|s: int| 0 <= s < n ==> (#[trigger] detector.allocation@[s])@.len() == m,
                forall|j: int| 0 <= j < m ==> #[trigger] detector.available@[j] as int == p.mutex_available(j),
                forall|s: int, j: int|
                    0 <= s < n && 0 <= j < m ==> #[trigger] detector.need@[s]@[j] as int == ProcessControlBlockInner::request(tid as int, mutex_id as int, s, j) + p.mutex_waiting(s, j),
                forall|s: int, j: int|
                    0 <= s < n && 0 <= j < m ==> #[trigger] detector.allocation@[s]@[j] as int == if s < t {
                        p.mutex_allocation(s, j)
                    } else {
                        0
                    },
            decreases n - t,
        {
            if let Some(task) = &p.tasks[t] {
                if let Some(res) = &task.res {
                    proof {
                        assert(p.has_res(t as int));
                        assert(p.res_of(t as int) == *res);
                    }
                    let mut k: usize = 0;
                    while k < res.hold_mutex_list.len()
                        invariant
                            n == p.tasks@.len(),
                            m == p.mutex_list@.len(),
                            p.ready_for_mutex_check(),
                            t < n,
                            p.has_res(t as int),
                            p.res_of(t as int) == *res,
                            k <= res.hold_mutex_list@.len(),
                            detector.thread_count == n,
                            detector.available@.len() == m,
                            detector.need@.len() == n,
                            detector.allocation@.len() == n,
                            forall|s: int| 0 <= s < n ==> (#[trigger] detector.need@[s])@.len() == m,
                            forall|s: int| 0 <= s < n ==> (#[trigger] detector.allocation@[s])@.len() == m,
                            forall|j: int| 0 <= j < m ==> #[trigger] detector.available@[j] as int == p.mutex_available(j),
                            forall|s: int, j: int|
                                0 <= s < n && 0 <= j < m ==> #[trigger] detector.need@[s]@[j] as int == ProcessControlBlockInner::request(tid as int, mutex_id as int, s, j) + p.mutex_waiting(s, j),
                            forall|s: int, j: int|
                                0 <= s < n && 0 <= j < m && s != t ==> #[trigger] detector.allocation@[s]@[j] as int == if s < t {
                                    p.mutex_allocation(s, j)
                                } else {
                                    0
                                },
                            forall|j: int|
                                0 <= j < m ==> #[trigger] detector.allocation@[t as int]@[j] as int == if res.hold_mutex_list@.take(k as int).contains(j as usize) {
                                    1int
                                } else {
                                    0
                                },
                        decreases res.hold_mutex_list@.len() - k,
                    {
                        let held = res.hold_mutex_list[k];
                        proof {
                            assert(p.res_of(t as int).hold_mutex_list@[k as int] < m);
                            let before = res.hold_mutex_list@.take(k as int);
                            let after = res.hold_mutex_list@.take(k + 1);
                            assert forall|x: usize| after.contains(x) <==> (before.contains(x) || x == held) by {
                                if after.contains(x) {
                                    let i = choose|i: int| 0 <= i < after.len() && after[i] == x;
                                    if i < k {
                                        assert(before[i] == x);
                                    }
                                }
                                if before.contains(x) {
                                    let i = choose|i: int| 0 <= i < before.len() && before[i] == x;
                                    assert(after[i] == x);
                                }
                                if x == held {
                                    assert(after[k as int] == x);
                                }
                            }
                        }
                        detector.allocation[t].set(held, 1);
                        k = k + 1;
                    }
                    assert(res.hold_mutex_list@.take(k as int) =~= res.hold_mutex_list@);
                }
            }
            t = t + 1;
        }
        proof {
            detector.lemma_view_entries();
            let spec = p.mutex_state(tid as int, mutex_id as int);
            assert(detector@.available =~= spec.available);
            assert forall|s: int| 0 <= s < n implies #[trigger] detector@.allocation[s] =~= spec.allocation[s] by {}
            assert forall|s: int| 0 <= s < n implies #[trigger] detector@.need[s] =~= spec.need[s] by {}
            assert(detector@.allocation =~= spec.allocation);
            assert(detector@.need =~= spec.need);
            assert(detector@.well_shaped());
        }
        detector
    }
}

impl DeadLockDetector {
    /// The detector for thread `tid` asking for a unit of semaphore `sem_id` of process `p`.
    ///
    /// A semaphore that can be taken offers its count; thread `t` holds one
    /// unit per entry of its record, needs one unit of each exhausted semaphore
    /// for each time it waits in that semaphore's queue, and `tid` needs one
    /// more unit of `sem_id`.
    pub fn build_semaphore_detector(p: &ProcessControlBlockInner, tid: usize, sem_id: usize) -> (d: Self)
        requires
            tid < p.tasks@.len(),
            sem_id < p.semaphore_list@.len(),
            p.ready_for_semaphore_check(),
        ensures
            d.wf(),
            d.thread_count == p.tasks@.len(),
            d@ == p.semaphore_state(tid as int, sem_id as int),
    {
        let n = p.tasks.len();
        let m = p.semaphore_list.len();
        let mut detector = DeadLockDetector::new(n, m);
        proof {
            detector.lemma_view_entries();
        }
        detector.need[tid][sem_id] = 1;
        let mut id: usize = 0;
        while id < m
            invariant
                n == p.tasks@.len(),
                m == p.semaphore_list@.len(),
                tid < n,
                sem_id < m,
                p.ready_for_semaphore_check(),
                id <= m,
                detector.thread_count == n,
                detector.available@.len() == m,
                detector.need@.len() == n,
                detector.allocation@.len() == n,
                forall|t: int| 0 <= t < n ==> (#[trigger] detector.need@[t])@.len() == m,
                forall|t: int| 0 <= t < n ==> (#[trigger] detector.allocation@[t])@.len() == m,
                forall|t: int, j: int| 0 <= t < n && 0 <= j < m ==> #[trigger] detector.allocation@[t]@[j] == 0,
                forall|j: int| 0 <= j < id ==> #[trigger] detector.available@[j] as int == p.semaphore_available(j),
                forall|t: int, j: int|
                    0 <= t < n && 0 <= j < m ==> #[trigger] detector.need@[t]@[j] as int == ProcessControlBlockInner::request(tid as int, sem_id as int, t, j) + if j < id {
                        p.semaphore_waiting(t, j)
                    } else {
                        0
                    },
            decreases m - id,
        {
            if let Some(mx) = &p.semaphore_list[id] {
                if mx.can_down() {
                    detector.available.set(id, mx.countxxx() as i32);
                } else {
                    detector.available.set(id, 0);
                    let (_, q) = mx.wait_queue();
                    let mut k: usize = 0;
                    while k < q.len()
                        invariant
                            n == p.tasks@.len(),
                            m == p.semaphore_list@.len(),
                            p.ready_for_semaphore_check(),
                            id < m,
                            p.semaphore_list@[id as int] == Some(*mx),
                            q@ == mx@.waiters,
                            k <= q@.len(),
                            detector.thread_count == n,
                            detector.available@.len() == m,
                            detector.need@.len() == n,
                            detector.allocation@.len() == n,
                            forall|t: int| 0 <= t < n ==> (#[trigger] detector.need@[t])@.len() == m,
                            forall|t: int| 0 <= t < n ==> (#[trigger] detector.allocation@[t])@.len() == m,
                            forall|t: int, j: int| 0 <= t < n && 0 <= j < m ==> #[trigger] detector.allocation@[t]@[j] == 0,
                            forall|j: int| 0 <= j <= id ==> #[trigger] detector.available@[j] as int == p.semaphore_available(j),
                            forall|t: int, j: int|
                                0 <= t < n && 0 <= j < m && j != id ==> #[trigger] detector.need@[t]@[j] as int == ProcessControlBlockInner::request(tid as int, sem_id as int, t, j) + if j < id {
                                    p.semaphore_waiting(t, j)
                                } else {
                                    0
                                },
                            forall|t: int|
                                0 <= t < n ==> #[trigger] detector.need@[t]@[id as int] as int == ProcessControlBlockInner::request(tid as int, sem_id as int, t, id as int) + if p.has_res(t) {
                                    occurrences(q@.take(k as int), t as usize)
                                } else {
                                    0
                                },
                        decreases q@.len() - k,
                    {
                        let w = q[k];
                        proof {
                            assert forall|t: int| 0 <= t < n implies #[trigger] occurrences(q@.take(k + 1), t as usize)
                                == occurrences(q@.take(k as int), t as usize) + if q@[k as int] == t as usize {
                                1int
                            } else {
                                0
                            } by {
                                lemma_occurrences_step(q@, k as int, t as usize);
                            }
                        }
                        if w < n {
                            if let Some(task) = &p.tasks[w] {
                                if let Some(res) = &task.res {
                                    proof {
                                        assert(p.has_res(w as int));
                                        assert(*res == p.res_of(w as int));
                                        assert(p.res_of(w as int).tid == w);
                                        lemma_occurrences_bounded(q@.take(k as int), w);
                                        assert(p.semaphore_list@[id as int] is Some);
                                        assert(q@.len() < i32::MAX);
                                    }
                                    let cur = detector.need[res.tid][id];
                                    proof {
                                        assert(cur as int == ProcessControlBlockInner::request(tid as int, sem_id as int, w as int, id as int) + occurrences(q@.take(k as int), w));
                                        assert(ProcessControlBlockInner::request(tid as int, sem_id as int, w as int, id as int) <= 1);
                                    }
                                    detector.need[res.tid].set(id, cur + 1);
                                }
                            }
                        }
                        k = k + 1;
                    }
                    assert(q@.take(k as int) =~= q@);
                }
            } else {
                detector.available.set(id, 0);
            }
            id = id + 1;
        }
        let mut t: usize = 0;
        while t < n
            invariant
                n == p.tasks@.len(),
                m == p.semaphore_list@.len(),
                p.ready_for_semaphore_check(),
                t <= n,
                detector.thread_count == n,
                detector.available@.len() == m,
                detector.need@.len() == n,
                detector.allocation@.len() == n,
                forall|s: int| 0 <= s < n ==> (#[trigger] detector.need@[s])@.len() == m,
                forall|s: int| 0 <= s < n ==> (#[trigger] detector.allocation@[s])@.len() == m,
                forall|j: int| 0 <= j < m ==> #[trigger] detector.available@[j] as int == p.semaphore_available(j),
                forall|s: int, j: int|
                    0 <= s < n && 0 <= j < m ==> #[trigger] detector.need@[s]@[j] as int == ProcessControlBlockInner::request(tid as int, sem_id as int, s, j) + p.semaphore_waiting(s, j),
                forall|s: int, j: int|
                    0 <= s < n && 0 <= j < m ==> #[trigger] detector.allocation@[s]@[j] as int == if s < t {
                        p.semaphore_allocation(s, j)
                    } else {
                        0
                    },
            decreases n - t,
        {
            if let Some(task) = &p.tasks[t] {
                if let Some(res) = &task.res {
                    proof {
                        assert(p.has_res(t as int));
                        assert(p.res_of(t as int) == *res);
                    }
                    let mut k: usize = 0;
                    while k < res.hold_semaphore_list.len()
                        invariant
                            n == p.tasks@.len(),
                            m == p.semaphore_list@.len(),
                            p.ready_for_semaphore_check(),
                            t < n,
                            p.has_res(t as int),
                            p.res_of(t as int) == *res,
                            k <= res.hold_semaphore_list@.len(),
                            detector.thread_count == n,
                            detector.available@.len() == m,
                            detector.need@.len() == n,
                            detector.allocation@.len() == n,
                            forall|s: int| 0 <= s < n ==> (#[trigger] detector.need@[s])@.len() == m,
                            forall|s: int| 0 <= s < n ==> (#[trigger] detector.allocation@[s])@.len() == m,
                            forall|j: int| 0 <= j < m ==> #[trigger] detector.available@[j] as int == p.semaphore_available(j),
                            forall|s: int, j: int|
                                0 <= s < n && 0 <= j < m ==> #[trigger] detector.need@[s]@[j] as int == ProcessControlBlockInner::request(tid as int, sem_id as int, s, j) + p.semaphore_waiting(s, j),
                            forall|s: int, j: int|
                                0 <= s < n && 0 <= j < m && s != t ==> #[trigger] detector.allocation@[s]@[j] as int == if s < t {
                                    p.semaphore_allocation(s, j)
                                } else {
                                    0
                                },
                            forall|j: int|
                                0 <= j < m ==> #[trigger] detector.allocation@[t as int]@[j] as int == occurrences(res.hold_semaphore_list@.take(k as int), j as usize),
                        decreases res.hold_semaphore_list@.len() - k,
                    {
                        let held = res.hold_semaphore_list[k];
                        proof {
                            assert(p.res_of(t as int).hold_semaphore_list@[k as int] < m);
                            assert forall|j: int| 0 <= j < m implies #[trigger] occurrences(res.hold_semaphore_list@.take(k + 1), j as usize)
                                == occurrences(res.hold_semaphore_list@.take(k as int), j as usize) + if held == j as usize {
                                1int
                            } else {
                                0
                            } by {
                                lemma_occurrences_step(res.hold_semaphore_list@, k as int, j as usize);
                            }
                            lemma_occurrences_bounded(res.hold_semaphore_list@.take(k as int), held);
                        }
                        let cur = detector.allocation[t][held];
                        detector.allocation[t].set(held, cur + 1);
                        k = k + 1;
                    }
                    assert(res.hold_semaphore_list@.take(k as int) =~= res.hold_semaphore_list@);
                }
            }
            t = t + 1;
        }
        proof {
            detector.lemma_view_entries();
            let spec = p.semaphore_state(tid as int, sem_id as int);
            assert(detector@.available =~= spec.available);
            assert forall|s: int| 0 <= s < n implies #[trigger] detector@.allocation[s] =~= spec.allocation[s] by {}
            assert forall|s: int| 0 <= s < n implies #[trigger] detector@.need[s] =~= spec.need[s] by {}
            assert(detector@.allocation =~= spec.allocation);
            assert(detector@.need =~= spec.need);
            assert(detector@.well_shaped());
        }
        detector
    }
}

impl DeadLockDetector {
    /// The view lists the same entries as the vectors.
    proof fn lemma_view_entries(&self)
        ensures
            self@.available.len() == self.available@.len(),
            self@.need.len() == self.need@.len(),
            self@.allocation.len() == self.allocation@.len(),
            forall|j: int| 0 <= j < self.available@.len() ==> #[trigger] self@.available[j] == self.available@[j] as int,
            forall|t: int| 0 <= t < self.need@.len() ==> (#[trigger] self@.need[t]).len() == self.need@[t]@.len(),
            forall|t: int| 0 <= t < self.allocation@.len() ==> (#[trigger] self@.allocation[t]).len() == self.allocation@[t]@.len(),
            forall|t: int, j: int|
                0 <= t < self.need@.len() && 0 <= j < self.need@[t]@.len() ==> #[trigger] self@.need[t][j] == self.need@[t]@[j] as int,
            forall|t: int, j: int|
                0 <= t < self.allocation@.len() && 0 <= j < self.allocation@[t]@.len() ==> #[trigger] self@.allocation[t][j] == self.allocation@[t]@[j] as int,
    {
    }
}

/// What the mutex detector of thread `tid` asking for mutex `mutex_id` reads
/// off a process, in terms of the process itself:
/// - a mutex offers one unit exactly when it exists and nobody holds it;
/// - thread `t` holds one unit of mutex `id` exactly when its record names `id`;
/// - thread `t` needs as many units of a held blocking mutex as it has entries
///   in that mutex's whole wait queue (counted only for a thread with a
///   record), plus the one unit `tid` asks for.
pub proof fn law_mutex_detector_matrices(p: ProcessControlBlockInner, tid: usize, mutex_id: usize)
    ensures
        ({
            let st = p.mutex_state(tid as int, mutex_id as int);
            &&& st.threads() == p.tasks@.len()
            &&& st.resources() == p.mutex_list@.len()
            &&& forall|id: int|
                0 <= id < p.mutex_list@.len() ==> #[trigger] st.available[id] == match p.mutex_list@[id] {
                    Some(AnyMutex::Spin(sm)) => if sm.locked {
                        0int
                    } else {
                        1
                    },
                    Some(AnyMutex::Blocking(bm)) => if bm.inner.locked {
                        0int
                    } else {
                        1
                    },
                    None => 0,
                }
            &&& forall|t: int, id: int|
                0 <= t < p.tasks@.len() && 0 <= id < p.mutex_list@.len() ==> #[trigger] st.allocation[t][id]
                    == if p.tasks@[t] is Some && p.tasks@[t].unwrap().res is Some
                    && p.tasks@[t].unwrap().res.unwrap().hold_mutex_list@.contains(id as usize) {
                    1int
                } else {
                    0
                }
            &&& forall|t: int, id: int|
                0 <= t < p.tasks@.len() && 0 <= id < p.mutex_list@.len() ==> #[trigger] st.need[t][id]
                    == (if t == tid && id == mutex_id {
                    1int
                } else {
                    0
                }) + match p.mutex_list@[id] {
                    Some(AnyMutex::Blocking(bm)) => if bm.inner.locked && (p.tasks@[t] is Some && p.tasks@[t].unwrap().res is Some) {
                        bm.inner.wait_queue@.to_multiset().count(t as usize) as int
                    } else {
                        0
                    },
                    _ => 0,
                }
        }),
{
    let st = p.mutex_state(tid as int, mutex_id as int);
    assert forall|t: int, id: int|
        0 <= t < p.tasks@.len() && 0 <= id < p.mutex_list@.len() implies #[trigger] st.need[t][id]
        == (if t == tid && id == mutex_id {
        1int
    } else {
        0
    }) + match p.mutex_list@[id] {
        Some(AnyMutex::Blocking(bm)) => if bm.inner.locked && (p.tasks@[t] is Some && p.tasks@[t].unwrap().res is Some) {
            bm.inner.wait_queue@.to_multiset().count(t as usize) as int
        } else {
            0
        },
        _ => 0,
    } by {
        if let Some(AnyMutex::Blocking(bm)) = p.mutex_list@[id] {
            lemma_occurrences_is_count(bm.inner.wait_queue@, t as usize);
        }
    }
}

/// What the semaphore detector of thread `tid` asking for semaphore `sem_id`
/// reads off a process, in terms of the process itself:
/// - a semaphore with a unit at hand offers its count (as an `i32`), so
///   exactly its count when that fits; any other offers nothing;
/// - thread `t` holds as many units of semaphore `id` as its own record lists,
///   whatever other threads hold;
/// - thread `t` needs as many units of an exhausted semaphore as it has
///   entries in that semaphore's whole wait queue (counted only for a thread
///   with a record), plus the one unit `tid` asks for.
pub proof fn law_semaphore_detector_matrices(p: ProcessControlBlockInner, tid: usize, sem_id: usize)
    ensures
        ({
            let st = p.semaphore_state(tid as int, sem_id as int);
            &&& st.threads() == p.tasks@.len()
            &&& st.resources() == p.semaphore_list@.len()
            &&& forall|id: int|
                0 <= id < p.semaphore_list@.len() ==> #[trigger] st.available[id] == match p.semaphore_list@[id] {
                    Some(sm) => if sm.inner.count >= 1 {
                        (sm.inner.count as i32) as int
                    } else {
                        0
                    },
                    None => 0,
                }
            &&& forall|id: int|
                0 <= id < p.semaphore_list@.len() && p.semaphore_list@[id] is Some && 1
                    <= p.semaphore_list@[id].unwrap().inner.count <= i32::MAX ==> #[trigger] st.available[id]
                    == p.semaphore_list@[id].unwrap().inner.count
            &&& forall|t: int, id: int|
                0 <= t < p.tasks@.len() && 0 <= id < p.semaphore_list@.len() ==> #[trigger] st.allocation[t][id]
                    == if p.tasks@[t] is Some && p.tasks@[t].unwrap().res is Some {
                    p.tasks@[t].unwrap().res.unwrap().hold_semaphore_list@.to_multiset().count(id as usize) as int
                } else {
                    0
                }
            &&& forall|t: int, id: int|
                0 <= t < p.tasks@.len() && 0 <= id < p.semaphore_list@.len() ==> #[trigger] st.need[t][id]
                    == (if t == tid && id == sem_id {
                    1int
                } else {
                    0
                }) + match p.semaphore_list@[id] {
                    Some(sm) => if sm.inner.count < 1 && (p.tasks@[t] is Some && p.tasks@[t].unwrap().res is Some) {
                        sm.inner.wait_queue@.to_multiset().count(t as usize) as int
                    } else {
                        0
                    },
                    None => 0,
                }
        }),
{
    let st = p.semaphore_state(tid as int, sem_id as int);
    assert forall|id: int|
        0 <= id < p.semaphore_list@.len() && p.semaphore_list@[id] is Some && 1
            <= p.semaphore_list@[id].unwrap().inner.count <= i32::MAX implies #[trigger] st.available[id] == p.semaphore_list@[id].unwrap().inner.count by {
        let c = p.semaphore_list@[id].unwrap().inner.count;
        assert((c as i32) as int == c as int);
    }
    assert forall|t: int, id: int|
        0 <= t < p.tasks@.len() && 0 <= id < p.semaphore_list@.len() implies #[trigger] st.allocation[t][id]
        == if p.tasks@[t] is Some && p.tasks@[t].unwrap().res is Some {
        p.tasks@[t].unwrap().res.unwrap().hold_semaphore_list@.to_multiset().count(id as usize) as int
    } else {
        0
    } by {
        if p.has_res(t) {
            lemma_occurrences_is_count(p.res_of(t).hold_semaphore_list@, id as usize);
        }
    }
    assert forall|t: int, id: int|
        0 <= t < p.tasks@.len() && 0 <= id < p.semaphore_list@.len() implies #[trigger] st.need[t][id]
        == (if t == tid && id == sem_id {
        1int
    } else {
        0
    }) + match p.semaphore_list@[id] {
        Some(sm) => if sm.inner.count < 1 && (p.tasks@[t] is Some && p.tasks@[t].unwrap().res is Some) {
            sm.inner.wait_queue@.to_multiset().count(t as usize) as int
        } else {
            0
        },
        None => 0,
    } by {
        if let Some(sm) = p.semaphore_list@[id] {
            lemma_occurrences_is_count(sm.inner.wait_queue@, t as usize);
        }
    }
}

/// Whether thread `tid` asking for `mutex` (number `mutex_id` of process `p`)
/// would deadlock. A mutex that can be locked never deadlocks; otherwise the
/// answer is `true` exactly when the resource state of `p` is not safe.
pub fn mutex_dead_lock_test(p: &ProcessControlBlockInner, mutex: &AnyMutex, mutex_id: usize, tid: usize) -> (deadlock: bool)
    requires
        !mutex.lockable() ==> tid < p.tasks@.len() && mutex_id < p.mutex_list@.len()
            && p.ready_for_mutex_check(),
    ensures
        mutex.lockable() ==> !deadlock,
        deadlock == (!mutex.lockable() && !p.mutex_state(tid as int, mutex_id as int).is_safe()),
{
    let can_lock = mutex.can_lock();
    if can_lock {
        return false;
    }
    let detector = DeadLockDetector::build_mutex_detector(p, tid, mutex_id);
    proof {
        let st = detector@;
        assert forall|t: int, j: int| 0 <= t < st.threads() && 0 <= j < st.resources() implies #[trigger] st.allocation[t][j] >= 0 by {
            assert(st.allocation[t][j] == p.mutex_allocation(t, j));
        }
    }
    !detector.try_alloc()
}

/// Whether thread `tid` asking for a unit of `sem` (number `sem_id` of process
/// `p`) would deadlock. A semaphore with a unit at hand never deadlocks;
/// otherwise the answer is `true` exactly when the resource state of `p` is not safe.
pub fn semaphore_dead_lock_test(p: &ProcessControlBlockInner, sem: &Semaphore, sem_id: usize, tid: usize) -> (deadlock: bool)
    requires
        !(sem@.count >= 1) ==> tid < p.tasks@.len() && sem_id < p.semaphore_list@.len()
            && p.ready_for_semaphore_check(),
    ensures
        sem@.count >= 1 ==> !deadlock,
        deadlock == (!(sem@.count >= 1) && !p.semaphore_state(tid as int, sem_id as int).is_safe()),
{
    let available = sem.can_down();
    if available {
        return false;
    }
    let detector = DeadLockDetector::build_semaphore_detector(p, tid, sem_id);
    proof {
        let st = detector@;
        assert forall|t: int, j: int| 0 <= t < st.threads() && 0 <= j < st.resources() implies #[trigger] st.allocation[t][j] >= 0 by {
            assert(st.allocation[t][j] == p.semaphore_allocation(t, j));
            if p.has_res(t) {
                lemma_occurrences_bounded(p.res_of(t).hold_semaphore_list@, j as usize);
            }
        }
    }
    !detector.try_alloc()
}

/// With no members, nothing is released.
proof fn lemma_released_zero(alloc: Seq<Seq<int>>, j: int, upto: int)
    ensures
        released(alloc, Set::empty(), j, upto) == 0,
    decreases upto,
{
    if upto > 0 {
        lemma_released_zero(alloc, j, upto - 1);
    }
}

} // verus!
