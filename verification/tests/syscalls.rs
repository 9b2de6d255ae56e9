use lib::mutex::Mutex;
use lib::process::ProcessControlBlockInner;
use lib::syscall::relock;
use lib::syscall::sys_condvar_create;
use lib::syscall::sys_condvar_signal;
use lib::syscall::sys_condvar_wait;
use lib::syscall::sys_enable_deadlock_detect;
use lib::syscall::sys_mutex_create;
use lib::syscall::sys_mutex_lock;
use lib::syscall::sys_mutex_unlock;
use lib::syscall::sys_semaphore_create;
use lib::syscall::sys_semaphore_down;
use lib::syscall::sys_semaphore_up;
use lib::syscall::sys_sleep;
use lib::syscall::Next;
use lib::syscall::DEADLOCK;
use lib::task::TaskControlBlock;
use lib::task::TaskUserRes;

fn process_with_threads(n: usize) -> ProcessControlBlockInner {
    let mut tasks: Vec<Option<TaskControlBlock>> = Vec::new();
    for tid in 0..n {
        tasks.push(Some(TaskControlBlock { res: Some(TaskUserRes::new(tid)) }));
    }
    ProcessControlBlockInner::new(tasks)
}

fn record(p: &ProcessControlBlockInner, tid: usize) -> &TaskUserRes {
    p.tasks[tid].as_ref().unwrap().res.as_ref().unwrap()
}

#[test]
fn sleep_wakes_after_the_delay() {
    let out = sys_sleep(1000, 250);
    assert_eq!(out.ret, 0);
    assert_eq!(out.wake, None);
    assert_eq!(out.next, Next::SleepUntil(1250));
}

#[test]
fn deadlock_answer_is_minus_0xdead() {
    assert_eq!(DEADLOCK, -0xdead);
}

#[test]
fn create_reuses_the_lowest_free_slot() {
    let mut p = process_with_threads(1);
    assert_eq!(sys_mutex_create(&mut p, true), 0);
    assert_eq!(sys_mutex_create(&mut p, false), 1);
    assert_eq!(sys_mutex_create(&mut p, true), 2);
    p.mutex_list[1] = None;
    p.mutex_list[0] = None;
    assert_eq!(sys_mutex_create(&mut p, true), 0);
    assert_eq!(sys_mutex_create(&mut p, true), 1);
    assert_eq!(sys_mutex_create(&mut p, true), 3);
    assert_eq!(p.mutex_list.len(), 4);

    assert_eq!(sys_semaphore_create(&mut p, 2), 0);
    assert_eq!(sys_semaphore_create(&mut p, 5), 1);
    p.semaphore_list[0] = None;
    assert_eq!(sys_semaphore_create(&mut p, 7), 0);
    assert_eq!(p.semaphore_list[0].as_ref().unwrap().countxxx(), 7);

    assert_eq!(sys_condvar_create(&mut p, 0), 0);
    assert_eq!(sys_condvar_create(&mut p, 0), 1);
}

#[test]
fn created_mutex_has_the_asked_kind() {
    let mut p = process_with_threads(1);
    let spin = sys_mutex_create(&mut p, false) as usize;
    let blocking = sys_mutex_create(&mut p, true) as usize;
    let (free, queue) = p.mutex_list[spin].as_ref().unwrap().wait_queue();
    assert!(free && queue.is_none());
    assert!(p.mutex_list[blocking].as_ref().unwrap().can_lock());
}

#[test]
fn lock_records_the_holder_and_unlock_forgets_it() {
    let mut p = process_with_threads(2);
    let id = sys_mutex_create(&mut p, true) as usize;
    let out = sys_mutex_lock(&mut p, 0, id);
    assert_eq!(out.ret, 0);
    assert_eq!(out.next, Next::Return);
    assert_eq!(record(&p, 0).hold_mutex_list, vec![id]);
    // Thread 1 finds the mutex taken: it blocks and nothing is recorded.
    let out = sys_mutex_lock(&mut p, 1, id);
    assert_eq!(out.ret, 0);
    assert_eq!(out.next, Next::Block);
    assert!(record(&p, 1).hold_mutex_list.is_empty());
    // Unlocking hands the mutex to thread 1, which is now recorded as its holder.
    let out = sys_mutex_unlock(&mut p, id);
    assert_eq!(out.ret, 0);
    assert_eq!(out.wake, Some(1));
    assert!(record(&p, 0).hold_mutex_list.is_empty());
    assert_eq!(record(&p, 1).hold_mutex_list, vec![id]);
    assert!(!p.mutex_list[id].as_ref().unwrap().can_lock());
    let out = sys_mutex_unlock(&mut p, id);
    assert_eq!(out.wake, None);
    assert!(record(&p, 1).hold_mutex_list.is_empty());
    assert!(p.mutex_list[id].as_ref().unwrap().can_lock());
}

#[test]
fn spin_lock_asks_to_yield_and_retry() {
    let mut p = process_with_threads(2);
    let id = sys_mutex_create(&mut p, false) as usize;
    assert_eq!(sys_mutex_lock(&mut p, 0, id).next, Next::Return);
    assert_eq!(sys_mutex_lock(&mut p, 1, id).next, Next::YieldThenRelock);
    // Only the thread that got the lock is recorded as holding it.
    assert_eq!(record(&p, 0).hold_mutex_list, vec![id]);
    assert!(record(&p, 1).hold_mutex_list.is_empty());
    assert_eq!(relock(&mut p, 1, id), Next::YieldThenRelock);
    assert!(record(&p, 1).hold_mutex_list.is_empty());
    let out = sys_mutex_unlock(&mut p, id);
    assert_eq!(out.wake, None);
    assert!(record(&p, 0).hold_mutex_list.is_empty());
    assert_eq!(relock(&mut p, 1, id), Next::Return);
    assert_eq!(record(&p, 1).hold_mutex_list, vec![id]);
}

#[test]
fn handed_over_mutex_is_no_false_deadlock() {
    let mut p = process_with_threads(2);
    let m = sys_mutex_create(&mut p, true) as usize;
    sys_enable_deadlock_detect(&mut p, 1);
    assert_eq!(sys_mutex_lock(&mut p, 0, m).next, Next::Return);
    assert_eq!(sys_mutex_lock(&mut p, 1, m).next, Next::Block);
    assert_eq!(sys_mutex_unlock(&mut p, m).wake, Some(1));
    // Thread 1 now holds the mutex and can finish, so thread 0 just waits.
    let out = sys_mutex_lock(&mut p, 0, m);
    assert_eq!(out.ret, 0);
    assert_eq!(out.next, Next::Block);
}

#[test]
fn mutex_deadlock_is_refused_and_changes_nothing() {
    let mut p = process_with_threads(2);
    let a = sys_mutex_create(&mut p, true) as usize;
    let b = sys_mutex_create(&mut p, true) as usize;
    assert_eq!(sys_enable_deadlock_detect(&mut p, 1), 0);
    assert_eq!(sys_mutex_lock(&mut p, 0, a).next, Next::Return);
    assert_eq!(sys_mutex_lock(&mut p, 1, b).next, Next::Return);
    // Thread 0 may wait for b: thread 1 can still finish.
    let out = sys_mutex_lock(&mut p, 0, b);
    assert_eq!(out.ret, 0);
    assert_eq!(out.next, Next::Block);
    // Thread 1 asking for a closes the cycle.
    let out = sys_mutex_lock(&mut p, 1, a);
    assert_eq!(out.ret, DEADLOCK);
    assert_eq!(out.wake, None);
    assert_eq!(out.next, Next::Return);
    let (_, queue) = p.mutex_list[a].as_ref().unwrap().wait_queue();
    assert!(queue.is_none());
    assert_eq!(record(&p, 1).hold_mutex_list, vec![b]);
}

#[test]
fn without_detection_a_cycle_just_blocks() {
    let mut p = process_with_threads(2);
    let a = sys_mutex_create(&mut p, true) as usize;
    let b = sys_mutex_create(&mut p, true) as usize;
    sys_mutex_lock(&mut p, 0, a);
    sys_mutex_lock(&mut p, 1, b);
    assert_eq!(sys_mutex_lock(&mut p, 0, b).next, Next::Block);
    let out = sys_mutex_lock(&mut p, 1, a);
    assert_eq!(out.ret, 0);
    assert_eq!(out.next, Next::Block);
}

#[test]
fn semaphore_down_records_and_up_releases() {
    let mut p = process_with_threads(2);
    let s = sys_semaphore_create(&mut p, 1) as usize;
    let out = sys_semaphore_down(&mut p, 0, s);
    assert_eq!(out.ret, 0);
    assert_eq!(out.next, Next::Return);
    assert_eq!(record(&p, 0).hold_semaphore_list, vec![s]);
    let out = sys_semaphore_down(&mut p, 1, s);
    assert_eq!(out.next, Next::Block);
    assert!(record(&p, 1).hold_semaphore_list.is_empty());
    let out = sys_semaphore_up(&mut p, s);
    assert_eq!(out.ret, 0);
    assert_eq!(out.wake, Some(1));
    assert!(record(&p, 0).hold_semaphore_list.is_empty());
    // The unit handed to thread 1 is recorded against it.
    assert_eq!(record(&p, 1).hold_semaphore_list, vec![s]);
    assert_eq!(p.semaphore_list[s].as_ref().unwrap().countxxx(), 0);
}

#[test]
fn semaphore_up_releases_only_the_first_holder() {
    let mut p = process_with_threads(3);
    let s = sys_semaphore_create(&mut p, 3) as usize;
    sys_semaphore_down(&mut p, 2, s);
    sys_semaphore_down(&mut p, 1, s);
    sys_semaphore_down(&mut p, 1, s);
    sys_semaphore_up(&mut p, s);
    assert_eq!(record(&p, 1).hold_semaphore_list, vec![s]);
    assert_eq!(record(&p, 2).hold_semaphore_list, vec![s]);
    assert_eq!(p.semaphore_list[s].as_ref().unwrap().countxxx(), 1);
}

#[test]
fn semaphore_deadlock_is_refused_and_changes_nothing() {
    let mut p = process_with_threads(2);
    let s = sys_semaphore_create(&mut p, 1) as usize;
    let t = sys_semaphore_create(&mut p, 1) as usize;
    sys_enable_deadlock_detect(&mut p, 0);
    assert_eq!(sys_semaphore_down(&mut p, 0, s).next, Next::Return);
    assert_eq!(sys_semaphore_down(&mut p, 1, t).next, Next::Return);
    assert_eq!(sys_semaphore_down(&mut p, 0, t).next, Next::Block);
    let out = sys_semaphore_down(&mut p, 1, s);
    assert_eq!(out.ret, DEADLOCK);
    assert_eq!(out.next, Next::Return);
    assert_eq!(p.semaphore_list[s].as_ref().unwrap().countxxx(), 0);
    assert!(record(&p, 1).hold_semaphore_list == vec![t]);
}

#[test]
fn condvar_wait_releases_mutex_and_signal_wakes() {
    let mut p = process_with_threads(2);
    let m = sys_mutex_create(&mut p, true) as usize;
    let c = sys_condvar_create(&mut p, 0) as usize;
    assert_eq!(sys_mutex_lock(&mut p, 0, m).next, Next::Return);
    assert_eq!(sys_mutex_lock(&mut p, 1, m).next, Next::Block);
    let out = sys_condvar_wait(&mut p, 0, c, m);
    assert_eq!(out.ret, 0);
    assert_eq!(out.wake, Some(1));
    assert_eq!(out.next, Next::BlockThenRelock);
    assert!(record(&p, 0).hold_mutex_list.is_empty());
    assert_eq!(record(&p, 1).hold_mutex_list, vec![m]);
    let out = sys_condvar_signal(&mut p, c);
    assert_eq!(out.ret, 0);
    assert_eq!(out.wake, Some(0));
    assert_eq!(sys_condvar_signal(&mut p, c).wake, None);
    // Thread 0 takes the mutex again once thread 1 lets it go.
    assert_eq!(relock(&mut p, 0, m), Next::Block);
    assert_eq!(sys_mutex_unlock(&mut p, m).wake, Some(0));
}

#[test]
fn enable_ignores_its_argument() {
    let mut p = process_with_threads(1);
    assert!(!p.enable_deadlock_detect);
    assert_eq!(sys_enable_deadlock_detect(&mut p, 0), 0);
    assert!(p.enable_deadlock_detect);
}
