use lib::condvar::Condvar;
use lib::mutex::AnyMutex;
use lib::mutex::LockStep;
use lib::mutex::Mutex;
use lib::mutex::MutexBlocking;
use lib::mutex::MutexSpin;
use lib::semaphore::Semaphore;
use lib::task::TaskUserRes;

#[test]
fn semaphore_new_counts_units() {
    let s = Semaphore::new(3);
    assert_eq!(s.countxxx(), 3);
    assert!(s.can_down());
    let (available, queue) = s.wait_queue();
    assert_eq!(available, 3);
    assert!(queue.is_empty());
}

#[test]
fn semaphore_new_with_zero_units_cannot_be_taken() {
    let s = Semaphore::new(0);
    assert_eq!(s.countxxx(), 0);
    assert!(!s.can_down());
}

#[test]
fn semaphore_down_blocks_only_when_exhausted() {
    let mut s = Semaphore::new(1);
    assert!(!s.down(4));
    assert_eq!(s.countxxx(), 0);
    assert!(s.down(5));
    assert_eq!(s.countxxx(), -1);
    let (available, queue) = s.wait_queue();
    assert_eq!(available, 0);
    assert_eq!(queue.iter().copied().collect::<Vec<usize>>(), vec![5]);
}

#[test]
fn semaphore_up_wakes_in_fifo_order() {
    let mut s = Semaphore::new(0);
    assert!(s.down(1));
    assert!(s.down(2));
    assert!(s.down(3));
    assert_eq!(s.countxxx(), -3);
    assert_eq!(s.up(), Some(1));
    assert_eq!(s.up(), Some(2));
    assert_eq!(s.up(), Some(3));
    assert_eq!(s.up(), None);
    assert_eq!(s.countxxx(), 1);
}

#[test]
fn semaphore_down_then_up_restores_count() {
    let mut s = Semaphore::new(2);
    assert!(!s.down(9));
    assert_eq!(s.up(), None);
    assert_eq!(s.countxxx(), 2);
    let mut z = Semaphore::new(0);
    assert!(z.down(9));
    assert_eq!(z.up(), Some(9));
    assert_eq!(z.countxxx(), 0);
    assert!(z.wait_queue().1.is_empty());
}

#[test]
fn semaphore_queue_length_matches_negative_count() {
    let mut s = Semaphore::new(1);
    for t in 0..5usize {
        s.down(t);
        let (_, q) = s.wait_queue();
        let count = s.countxxx();
        let expected = if count < 0 { (-count) as usize } else { 0 };
        assert_eq!(q.len(), expected);
    }
    for _ in 0..5usize {
        s.up();
        let (_, q) = s.wait_queue();
        let count = s.countxxx();
        let expected = if count < 0 { (-count) as usize } else { 0 };
        assert_eq!(q.len(), expected);
    }
}

#[test]
fn spin_mutex_retries_while_locked() {
    let mut m = MutexSpin::new();
    assert!(m.can_lock());
    assert_eq!(m.lock(1), LockStep::Acquired);
    assert_eq!(m.lock(2), LockStep::Retry);
    // A spinning mutex always reads as free and has no queue.
    assert!(m.can_lock());
    let (free, queue) = m.wait_queue();
    assert!(free);
    assert!(queue.is_none());
    assert_eq!(m.unlock(), None);
    assert_eq!(m.lock(2), LockStep::Acquired);
}

#[test]
fn blocking_mutex_hands_over_in_fifo_order() {
    let mut m = MutexBlocking::new();
    assert!(m.can_lock());
    assert_eq!(m.lock(1), LockStep::Acquired);
    assert!(!m.can_lock());
    assert_eq!(m.lock(2), LockStep::Blocked);
    assert_eq!(m.lock(3), LockStep::Blocked);
    let (free, queue) = m.wait_queue();
    assert!(!free);
    assert_eq!(queue.unwrap().iter().copied().collect::<Vec<usize>>(), vec![2, 3]);
    assert_eq!(m.unlock(), Some(2));
    assert!(!m.can_lock());
    assert_eq!(m.unlock(), Some(3));
    assert_eq!(m.unlock(), None);
    assert!(m.can_lock());
    let (free, queue) = m.wait_queue();
    assert!(free);
    assert!(queue.is_none());
}

#[test]
fn any_mutex_follows_its_kind() {
    let mut spin = AnyMutex::create(false);
    let mut blocking = AnyMutex::create(true);
    assert_eq!(spin.lock(1), LockStep::Acquired);
    assert_eq!(spin.lock(2), LockStep::Retry);
    assert_eq!(blocking.lock(1), LockStep::Acquired);
    assert_eq!(blocking.lock(2), LockStep::Blocked);
    assert!(spin.can_lock());
    assert!(!blocking.can_lock());
}

#[test]
fn condvar_signal_wakes_longest_waiter() {
    let mut c = Condvar::new();
    let mut m = AnyMutex::create(true);
    assert_eq!(m.lock(1), LockStep::Acquired);
    assert_eq!(m.lock(2), LockStep::Blocked);
    // Thread 1 waits: the mutex passes to thread 2.
    assert_eq!(c.wait(&mut m, 1), Some(2));
    assert!(!m.can_lock());
    // Thread 2 waits: nobody else wants the mutex, so it is freed.
    assert_eq!(c.wait(&mut m, 2), None);
    assert!(m.can_lock());
    assert_eq!(c.signal(), Some(1));
    assert_eq!(c.signal(), Some(2));
    assert_eq!(c.signal(), None);
}

#[test]
fn task_records_mutexes() {
    let mut r = TaskUserRes::new(7);
    r.hold_mutex(1);
    r.hold_mutex(2);
    r.hold_mutex(1);
    r.release_mutex(1);
    assert_eq!(r.hold_mutex_list, vec![2]);
    assert_eq!(r.tid, 7);
}

#[test]
fn task_releases_earliest_semaphore_unit() {
    let mut r = TaskUserRes::new(0);
    r.hold_semaphore(3);
    r.hold_semaphore(4);
    r.hold_semaphore(3);
    assert!(r.release_semaphore(3));
    assert_eq!(r.hold_semaphore_list, vec![4, 3]);
    assert!(!r.release_semaphore(5));
    assert_eq!(r.hold_semaphore_list, vec![4, 3]);
}
