# rcore_os

Verified bookkeeping of a small teaching operating system kernel.

- `src/sync/resource_tracker.rs`: the banker's algorithm. The safety check
  is proved to answer exactly whether a safe sequence exists
  (`src/sync/safety.rs` holds the definitions and the proofs, and the laws
  of granting, releasing and registering).
- `src/task/task.rs`: per-task banker lists and the task control block.
- `src/task/manager.rs`: the stride scheduler's ready queue.
- `src/task/mod.rs`: the round-robin table of application tasks, and the
  phase-by-phase decisions of mapping and unmapping a range of a task.
- `src/syscall/`: the decisions of the system calls (argument checks,
  descriptor table and child list updates, recording a new child process,
  return values).
- `app/`: the kernel glue around the library: global tables, the system
  call entry point, and the calls into memory management, the file system
  and the context switch.
