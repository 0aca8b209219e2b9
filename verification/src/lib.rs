//! Kernel bookkeeping of a small teaching operating system: the banker's
//! algorithm that guards lock and semaphore requests against deadlock, the
//! per-task banker lists, the stride scheduler's choice of the next task,
//! and the argument checks and table updates of the system calls.

pub mod config;
pub mod sync;
pub mod syscall;
pub mod task;
