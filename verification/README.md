# Verified kernel synchronisation with deadlock detection

The synchronisation system calls of a small teaching kernel — spinning and
blocking mutexes, semaphores, condition variables — together with deadlock
detection by the banker's safety check, written in Verus.

- `src/banker.rs`: the mathematical model: resource states, what the threads
  release, and safety (all threads can finish in some order), with the lemmas
  behind the safety check.
- `src/detector.rs`: `DeadLockDetector`: building the resource matrices from a
  process and the safety check `try_alloc`, proved to answer `true` only for
  safe states, and exactly when the state is safe as long as no allocation is
  negative (allocations are counts; the builders never make negative ones);
  the mutex and semaphore deadlock tests.
- Laws in `src/banker.rs`: safety is monotone in what is free, what is
  released and what is needed, and renumbering threads keeps it.
- `src/mutex.rs`, `src/semaphore.rs`, `src/condvar.rs`: the primitives, as
  state machines that tell the caller whether to block, yield or wake a task.
- `src/task.rs`, `src/process.rs`: what each thread holds and the process tables.
- `src/syscall.rs`: the system calls, each returning its answer and what the
  scheduler must do next.
- `app/`: glue that runs the system calls against a kernel's scheduler.
