//! Synchronisation primitives of a small teaching kernel, with deadlock
//! detection for mutexes and semaphores.
pub mod banker;
pub mod detector;
pub mod mutex;
pub mod semaphore;
pub mod task;
pub mod condvar;
pub mod process;
pub mod syscall;
