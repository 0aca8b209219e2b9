//! Kernel-wide constants.

use vstd::prelude::*;

verus! {

/// Bytes in a page.
pub const PAGE_SIZE: usize = 4096;

/// Number of system call ids whose use is counted per task.
pub const MAX_SYSCALL_NUM: usize = 500;

/// The stride scheduler's constant: a task of priority `p` advances its
/// stride by `BIG_STRIDE / p` each time it is scheduled.
pub const BIG_STRIDE: usize = 1048576;

} // verus!
