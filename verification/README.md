# os

The process layer of a small RISC-V teaching kernel, verified with Verus.

- `src/sync`: mutexes (`MutexSpin`, `MutexBlocking`) and counting semaphores.
- `src/task`: process control blocks, thread ids, descriptor tables, the argument
  layout of `exec`, and deadlock detection. `task/safety.rs` states what detection
  guarantees: a process that refuses the requests that are predicted to deadlock,
  and no others, never deadlocks among its mutexes and semaphores.
- `src/syscall`: process and file system calls. A call that needs the scheduler,
  the page tables or the file system returns a step; the kernel performs it and
  passes the result to the function that continues the call.
- `app`: the glue that performs these steps on a kernel, given as a set of traits.
- `tests`: examples of use.
