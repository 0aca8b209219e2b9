//! The decisions of the system calls: argument checks, descriptor-table
//! and child-list updates, and the values handed back to user space. The
//! memory accesses and device work around them are done by the caller.

pub mod fs;
pub mod process;

use vstd::prelude::*;

verus! {

/// write syscall
pub const SYSCALL_WRITE: usize = 64;
/// exit syscall
pub const SYSCALL_EXIT: usize = 93;
/// yield syscall
pub const SYSCALL_YIELD: usize = 124;
/// gettime syscall
pub const SYSCALL_GET_TIME: usize = 169;
/// taskinfo syscall
pub const SYSCALL_TASK_INFO: usize = 410;

/// The system calls the dispatcher serves.
#[derive(Copy, Clone, PartialEq, Eq, Debug, Structural)]
pub enum SyscallKind {
    Write,
    Exit,
    Yield,
    GetTime,
    TaskInfo,
}

/// The system call that id `syscall_id` names; `None` for an id the
/// dispatcher does not serve.
pub fn decode_syscall(syscall_id: usize) -> (res: Option<SyscallKind>)
    ensures
        res == if syscall_id == SYSCALL_WRITE {
            Some(SyscallKind::Write)
        } else if syscall_id == SYSCALL_EXIT {
            Some(SyscallKind::Exit)
        } else if syscall_id == SYSCALL_YIELD {
            Some(SyscallKind::Yield)
        } else if syscall_id == SYSCALL_GET_TIME {
            Some(SyscallKind::GetTime)
        } else if syscall_id == SYSCALL_TASK_INFO {
            Some(SyscallKind::TaskInfo)
        } else {
            None
        },
{
    if syscall_id == SYSCALL_WRITE {
        Some(SyscallKind::Write)
    } else if syscall_id == SYSCALL_EXIT {
        Some(SyscallKind::Exit)
    } else if syscall_id == SYSCALL_YIELD {
        Some(SyscallKind::Yield)
    } else if syscall_id == SYSCALL_GET_TIME {
        Some(SyscallKind::GetTime)
    } else if syscall_id == SYSCALL_TASK_INFO {
        Some(SyscallKind::TaskInfo)
    } else {
        None
    }
}

} // verus!
