use lib::detector::mutex_dead_lock_test;
use lib::detector::semaphore_dead_lock_test;
use lib::detector::DeadLockDetector;
use lib::mutex::AnyMutex;
use lib::mutex::LockStep;
use lib::mutex::Mutex;
use lib::process::ProcessControlBlockInner;
use lib::semaphore::Semaphore;
use lib::task::TaskControlBlock;
use lib::task::TaskUserRes;

fn process_with_threads(n: usize) -> ProcessControlBlockInner {
    let mut tasks: Vec<Option<TaskControlBlock>> = Vec::new();
    for tid in 0..n {
        tasks.push(Some(TaskControlBlock { res: Some(TaskUserRes::new(tid)) }));
    }
    ProcessControlBlockInner::new(tasks)
}

fn detector(available: Vec<i32>, allocation: Vec<Vec<i32>>, need: Vec<Vec<i32>>) -> DeadLockDetector {
    let mut d = DeadLockDetector::new(need.len(), available.len());
    d.available = available;
    d.allocation = allocation;
    d.need = need;
    d
}

#[test]
fn new_detector_is_all_zero() {
    let d = DeadLockDetector::new(2, 3);
    assert_eq!(d.thread_count, 2);
    assert_eq!(d.available, vec![0, 0, 0]);
    assert_eq!(d.allocation, vec![vec![0, 0, 0], vec![0, 0, 0]]);
    assert_eq!(d.need, vec![vec![0, 0, 0], vec![0, 0, 0]]);
    assert!(d.try_alloc());
}

#[test]
fn no_threads_is_safe() {
    let d = DeadLockDetector::new(0, 2);
    assert!(d.try_alloc());
}

#[test]
fn textbook_state_is_safe() {
    let d = detector(
        vec![3, 3, 2],
        vec![vec![0, 1, 0], vec![2, 0, 0], vec![3, 0, 2], vec![2, 1, 1], vec![0, 0, 2]],
        vec![vec![7, 4, 3], vec![1, 2, 2], vec![6, 0, 0], vec![0, 1, 1], vec![4, 3, 1]],
    );
    assert!(d.try_alloc());
}

#[test]
fn textbook_state_with_too_little_available_is_unsafe() {
    let d = detector(
        vec![0, 0, 0],
        vec![vec![0, 1, 0], vec![2, 0, 0], vec![3, 0, 2], vec![2, 1, 1], vec![0, 0, 2]],
        vec![vec![7, 4, 3], vec![1, 2, 2], vec![6, 0, 0], vec![0, 1, 1], vec![4, 3, 1]],
    );
    assert!(!d.try_alloc());
}

#[test]
fn safety_depends_on_what_finished_threads_release() {
    // Thread 1 can finish at once and hands back what thread 0 needs.
    let d = detector(vec![0], vec![vec![0], vec![1]], vec![vec![1], vec![0]]);
    assert!(d.try_alloc());
    // Nobody can start: each waits for a unit the other holds.
    let d = detector(vec![0, 0], vec![vec![1, 0], vec![0, 1]], vec![vec![0, 1], vec![1, 0]]);
    assert!(!d.try_alloc());
}

/// Two threads, two blocking mutexes: thread 0 holds mutex 0, thread 1 holds
/// mutex 1 and waits for mutex 0.
fn crossed_mutexes() -> ProcessControlBlockInner {
    let mut p = process_with_threads(2);
    let mut m0 = AnyMutex::create(true);
    let mut m1 = AnyMutex::create(true);
    assert_eq!(m0.lock(0), LockStep::Acquired);
    assert_eq!(m1.lock(1), LockStep::Acquired);
    assert_eq!(m0.lock(1), LockStep::Blocked);
    p.mutex_list.push(Some(m0));
    p.mutex_list.push(Some(m1));
    p.record_mutex_hold(0, 0);
    p.record_mutex_hold(1, 1);
    p
}

#[test]
fn mutex_detector_reads_the_process() {
    let p = crossed_mutexes();
    let d = DeadLockDetector::build_mutex_detector(&p, 0, 1);
    assert_eq!(d.thread_count, 2);
    assert_eq!(d.available, vec![0, 0]);
    assert_eq!(d.allocation, vec![vec![1, 0], vec![0, 1]]);
    assert_eq!(d.need, vec![vec![0, 1], vec![1, 0]]);
    assert!(!d.try_alloc());
}

#[test]
fn mutex_cycle_is_a_deadlock() {
    let p = crossed_mutexes();
    let m1 = p.mutex_list[1].as_ref().unwrap();
    assert!(mutex_dead_lock_test(&p, m1, 1, 0));
}

#[test]
fn free_mutex_is_never_a_deadlock() {
    let mut p = crossed_mutexes();
    p.mutex_list.push(Some(AnyMutex::create(true)));
    let m2 = p.mutex_list[2].as_ref().unwrap();
    assert!(!mutex_dead_lock_test(&p, m2, 2, 0));
}

#[test]
fn mutex_without_cycle_is_no_deadlock() {
    // Thread 1 holds mutex 1 and waits for nothing; thread 0 asks for mutex 1.
    let mut p = process_with_threads(2);
    let mut m1 = AnyMutex::create(true);
    assert_eq!(m1.lock(1), LockStep::Acquired);
    p.mutex_list.push(Some(AnyMutex::create(true)));
    p.mutex_list.push(Some(m1));
    p.record_mutex_hold(1, 1);
    let d = DeadLockDetector::build_mutex_detector(&p, 0, 1);
    assert_eq!(d.available, vec![1, 0]);
    assert_eq!(d.need, vec![vec![0, 1], vec![0, 0]]);
    let m = p.mutex_list[1].as_ref().unwrap();
    assert!(!mutex_dead_lock_test(&p, m, 1, 0));
}

#[test]
fn held_spinning_mutex_offers_nothing() {
    let mut p = process_with_threads(2);
    let mut m = AnyMutex::create(false);
    assert_eq!(m.lock(1), LockStep::Acquired);
    p.mutex_list.push(Some(m));
    p.mutex_list.push(Some(AnyMutex::create(false)));
    p.record_mutex_hold(1, 0);
    let d = DeadLockDetector::build_mutex_detector(&p, 0, 0);
    assert_eq!(d.available, vec![0, 1]);
    assert_eq!(d.allocation, vec![vec![0, 0], vec![1, 0]]);
    assert_eq!(d.need, vec![vec![1, 0], vec![0, 0]]);
    assert!(d.try_alloc());
}

#[test]
fn monotone_and_renumbered_states_stay_safe() {
    let base = detector(vec![0], vec![vec![0], vec![1]], vec![vec![1], vec![0]]);
    assert!(base.try_alloc());
    let richer = detector(vec![1], vec![vec![0], vec![2]], vec![vec![1], vec![0]]);
    assert!(richer.try_alloc());
    let swapped = detector(vec![0], vec![vec![1], vec![0]], vec![vec![0], vec![1]]);
    assert!(swapped.try_alloc());
    let stuck = detector(vec![0, 0], vec![vec![1, 0], vec![0, 1]], vec![vec![0, 1], vec![1, 0]]);
    let stuck_swapped = detector(vec![0, 0], vec![vec![0, 1], vec![1, 0]], vec![vec![1, 0], vec![0, 1]]);
    assert_eq!(stuck.try_alloc(), stuck_swapped.try_alloc());
}

#[test]
fn spinning_mutex_never_reports_deadlock() {
    let mut p = process_with_threads(1);
    let mut m = AnyMutex::create(false);
    assert_eq!(m.lock(0), LockStep::Acquired);
    p.mutex_list.push(Some(m));
    let m = p.mutex_list[0].as_ref().unwrap();
    assert!(!mutex_dead_lock_test(&p, m, 0, 0));
}

/// One semaphore with a single unit held by thread 0; thread 1 waits for it.
fn exhausted_semaphore() -> ProcessControlBlockInner {
    let mut p = process_with_threads(2);
    let mut s = Semaphore::new(1);
    assert!(!s.down(0));
    assert!(s.down(1));
    p.semaphore_list.push(Some(s));
    p.record_semaphore_hold(0, 0);
    p
}

#[test]
fn semaphore_detector_reads_the_process() {
    let mut p = process_with_threads(2);
    let mut s0 = Semaphore::new(3);
    assert!(!s0.down(0));
    assert!(!s0.down(0));
    p.semaphore_list.push(Some(s0));
    p.semaphore_list.push(None);
    p.record_semaphore_hold(0, 0);
    p.record_semaphore_hold(0, 0);
    let d = DeadLockDetector::build_semaphore_detector(&p, 1, 0);
    assert_eq!(d.available, vec![1, 0]);
    assert_eq!(d.allocation, vec![vec![2, 0], vec![0, 0]]);
    assert_eq!(d.need, vec![vec![0, 0], vec![1, 0]]);
    assert!(d.try_alloc());
}

#[test]
fn holder_asking_for_more_of_exhausted_semaphore_deadlocks() {
    let p = exhausted_semaphore();
    let d = DeadLockDetector::build_semaphore_detector(&p, 0, 0);
    assert_eq!(d.available, vec![0]);
    assert_eq!(d.allocation, vec![vec![1], vec![0]]);
    // Thread 0 asks for one more unit, thread 1 waits for one.
    assert_eq!(d.need, vec![vec![1], vec![1]]);
    assert!(!d.try_alloc());
    let s = p.semaphore_list[0].as_ref().unwrap();
    assert!(semaphore_dead_lock_test(&p, s, 0, 0));
}

#[test]
fn semaphore_with_units_is_never_a_deadlock() {
    let mut p = process_with_threads(1);
    p.semaphore_list.push(Some(Semaphore::new(2)));
    let s = p.semaphore_list[0].as_ref().unwrap();
    assert!(!semaphore_dead_lock_test(&p, s, 0, 0));
}
