use rcore_os::syscall::fs::{copy_to_buffers, sys_close, sys_fstat, sys_open, sys_read, sys_write, OpenFile};
use rcore_os::syscall::process::{
    map_permission, page_count, page_number, sys_get_time, sys_mmap, sys_munmap, sys_sbrk, sys_set_priority,
    adopt_child, standard_fd_table, sys_spawn, sys_task_info, sys_waitpid, ChildTask, NewProgram, ProcessRecord, TrapStart,
    UserImage, WaitOutcome,
};
use rcore_os::syscall::{decode_syscall, SyscallKind};
use rcore_os::config::{BIG_STRIDE, MAX_SYSCALL_NUM};
use rcore_os::task::manager::TaskManager as ReadyQueue;
use rcore_os::task::{TaskControlBlock, TaskStatus};

fn file(name: &'static str, readable: bool, writable: bool) -> Option<OpenFile<&'static str>> {
    Some(OpenFile { file: name, readable, writable })
}

#[test]
fn write_and_read_check_access() {
    let table = vec![file("stdin", true, false), file("stdout", false, true), None, file("log", true, true)];
    assert_eq!(sys_write(&table, 0), Err(-1));
    assert_eq!(sys_write(&table, 1), Ok(&"stdout"));
    assert_eq!(sys_write(&table, 2), Err(-1));
    assert_eq!(sys_write(&table, 3), Ok(&"log"));
    assert_eq!(sys_write(&table, 4), Err(-1));
    assert_eq!(sys_read(&table, 0), Ok(&"stdin"));
    assert_eq!(sys_read(&table, 1), Err(-1));
    assert_eq!(sys_read(&table, 2), Err(-1));
    assert_eq!(sys_read(&table, 9), Err(-1));
}

#[test]
fn open_takes_lowest_free_descriptor() {
    let mut table = vec![Some("stdin"), None, Some("stdout")];
    assert_eq!(sys_open(&mut table, Some("a")), 1);
    assert_eq!(table, vec![Some("stdin"), Some("a"), Some("stdout")]);
    assert_eq!(sys_open(&mut table, Some("b")), 3);
    assert_eq!(table.len(), 4);
    assert_eq!(sys_open(&mut table, None), -1);
    assert_eq!(table.len(), 4);
}

#[test]
fn close_frees_an_open_descriptor() {
    let mut table = vec![Some(1), None, Some(3)];
    assert_eq!(sys_close(&mut table, 2), 0);
    assert_eq!(table, vec![Some(1), None, None]);
    assert_eq!(sys_close(&mut table, 2), -1);
    assert_eq!(sys_close(&mut table, 1), -1);
    assert_eq!(sys_close(&mut table, 3), -1);
    assert_eq!(table, vec![Some(1), None, None]);
}

#[test]
fn close_after_open_restores_table() {
    let mut table = vec![Some(0), Some(1)];
    let fd = sys_open(&mut table, Some(5));
    assert_eq!(fd, 2);
    assert_eq!(sys_close(&mut table, fd as usize), 0);
    assert_eq!(table, vec![Some(0), Some(1), None]);
    let fd = sys_open(&mut table, Some(6));
    assert_eq!(fd, 2);
    assert_eq!(sys_close(&mut table, 2), 0);
    assert_eq!(table, vec![Some(0), Some(1), None]);
}

#[test]
fn fstat_refuses_standard_streams() {
    let table = vec![Some('i'), Some('o'), Some('e'), Some('f'), None];
    assert_eq!(sys_fstat(&table, 0), Err(-1));
    assert_eq!(sys_fstat(&table, 2), Err(-1));
    assert_eq!(sys_fstat(&table, 3), Ok(&'f'));
    assert_eq!(sys_fstat(&table, 4), Err(-1));
    assert_eq!(sys_fstat(&table, 5), Err(-1));
}

#[test]
fn copy_fits_in_first_buffer() {
    let mut bufs = vec![vec![9u8; 5], vec![9u8; 3]];
    copy_to_buffers(&mut bufs, &vec![1, 2, 3]);
    assert_eq!(bufs, vec![vec![1, 2, 3, 9, 9], vec![9, 9, 9]]);
}

#[test]
fn copy_split_across_two_buffers() {
    let mut bufs = vec![vec![0u8; 2], vec![7u8; 4]];
    copy_to_buffers(&mut bufs, &vec![1, 2, 3, 4, 5]);
    assert_eq!(bufs, vec![vec![1, 2], vec![3, 4, 5, 7]]);
}

fn child(pid: usize, zombie: bool, exit_code: i32) -> ChildTask {
    ChildTask { pid, zombie, exit_code }
}

#[test]
fn waitpid_outcomes() {
    let mut children = vec![child(3, false, 0), child(4, true, 7), child(5, true, 9)];
    let r = sys_waitpid(&mut children, 8);
    assert_eq!(r, WaitOutcome::NoSuchChild);
    assert_eq!(r.code(), -1);
    let r = sys_waitpid(&mut children, 3);
    assert_eq!(r, WaitOutcome::StillRunning);
    assert_eq!(r.code(), -2);
    assert_eq!(children.len(), 3);
    let r = sys_waitpid(&mut children, 5);
    assert_eq!(r, WaitOutcome::Reaped { index: 2, pid: 5, exit_code: 9 });
    assert_eq!(r.code(), 5);
    let r = sys_waitpid(&mut children, -1);
    assert_eq!(r, WaitOutcome::Reaped { index: 1, pid: 4, exit_code: 7 });
    assert_eq!(children, vec![child(3, false, 0)]);
    assert_eq!(sys_waitpid(&mut children, -1), WaitOutcome::StillRunning);
    let mut none: Vec<ChildTask> = Vec::new();
    assert_eq!(sys_waitpid(&mut none, -1).code(), -1);
}

#[test]
fn get_time_splits_microseconds() {
    let t = sys_get_time(3_250_001);
    assert_eq!(t.sec, 3);
    assert_eq!(t.usec, 250_001);
    let t = sys_get_time(999_999);
    assert_eq!((t.sec, t.usec), (0, 999_999));
}

#[test]
fn task_info_reports_running() {
    let mut times = [0u32; MAX_SYSCALL_NUM];
    times[64] = 3;
    let info = sys_task_info(times, 12);
    assert!(info.status == TaskStatus::Running);
    assert_eq!(info.syscall_times[64], 3);
    assert_eq!(info.time, 12);
}

#[test]
fn page_arithmetic() {
    assert_eq!(page_count(0), 0);
    assert_eq!(page_count(1), 1);
    assert_eq!(page_count(4096), 1);
    assert_eq!(page_count(4097), 2);
    assert_eq!(page_number(8191), 1);
    let p = map_permission(5);
    assert!(p.readable && !p.writable && p.executable && p.user);
}

#[test]
fn mmap_checks() {
    let free = vec![None, Some(false)];
    assert_eq!(sys_mmap(4096, 8192, 3, &free), 0);
    assert_eq!(sys_mmap(4097, 8192, 3, &free), -1);
    assert_eq!(sys_mmap(4096, 8192, 0, &free), -1);
    assert_eq!(sys_mmap(4096, 8192, 8, &free), -1);
    assert_eq!(sys_mmap(4096, 8192, 7, &free), 0);
    let taken = vec![None, Some(true)];
    assert_eq!(sys_mmap(4096, 8000, 1, &taken), -1);
}

#[test]
fn munmap_checks() {
    let mapped = vec![Some(true), Some(true)];
    assert_eq!(sys_munmap(0, 8192, &mapped), 0);
    assert_eq!(sys_munmap(12, 8192, &mapped), -1);
    assert_eq!(sys_munmap(0, 8192, &vec![Some(true), None]), -1);
    assert_eq!(sys_munmap(0, 8192, &vec![Some(false), Some(true)]), -1);
}

#[test]
fn sbrk_value() {
    assert_eq!(sys_sbrk(Some(0x1000)), 0x1000);
    assert_eq!(sys_sbrk(None), -1);
}

#[test]
fn set_priority_bounds() {
    let mut t = TaskControlBlock::new(());
    let inner = t.inner_exclusive_access();
    assert_eq!(sys_set_priority(inner, 1), -1);
    assert_eq!(inner.priority, 16);
    assert_eq!(sys_set_priority(inner, 2), 2);
    assert_eq!(inner.priority, 2);
    assert_eq!(inner.pass, BIG_STRIDE / 2);
    assert_eq!(sys_set_priority(inner, -5), -1);
    assert_eq!(inner.priority, 2);
}

#[test]
fn syscall_ids() {
    assert_eq!(decode_syscall(64), Some(SyscallKind::Write));
    assert_eq!(decode_syscall(93), Some(SyscallKind::Exit));
    assert_eq!(decode_syscall(124), Some(SyscallKind::Yield));
    assert_eq!(decode_syscall(169), Some(SyscallKind::GetTime));
    assert_eq!(decode_syscall(410), Some(SyscallKind::TaskInfo));
    assert_eq!(decode_syscall(57), None);
}

fn program(pid: usize) -> NewProgram<u8, &'static str> {
    NewProgram {
        pid,
        image: UserImage { memory_set: 7, user_sp: 0x8000, entry_point: 0x1000 },
        stdin: "in",
        stdout: "out",
        stderr: "err",
    }
}

#[test]
fn spawn_records_child_and_queues_task() {
    let mut children = vec![child(2, true, 1)];
    let mut ready: ReadyQueue<ProcessRecord<u8, &str>> = ReadyQueue::new();
    assert_eq!(sys_spawn(1, &mut children, &mut ready, None), -1);
    assert_eq!(children.len(), 1);
    assert!(ready.fetch().is_none());
    assert_eq!(sys_spawn(1, &mut children, &mut ready, Some(program(9))), 9);
    assert_eq!(children, vec![child(2, true, 1), child(9, false, 0)]);
    let t = ready.fetch().unwrap();
    assert_eq!(t.inner().priority, 16);
    assert_eq!(t.inner().stride, BIG_STRIDE / 16);
    let p = &t.handle;
    assert_eq!(p.pid, 9);
    assert_eq!(p.parent, Some(1));
    assert_eq!(p.memory_set, 7);
    assert_eq!(p.trap_start, TrapStart { entry: 0x1000, user_sp: 0x8000 });
    assert_eq!((p.base_size, p.heap_bottom, p.program_brk), (0, 0x8000, 0x8000));
    assert_eq!(p.exit_code, 0);
    assert!(p.children.is_empty());
    assert_eq!(p.fd_table, vec![Some("in"), Some("out"), Some("err")]);
    assert_eq!(p.task_time, 0);
    assert!(p.syscall_times.iter().all(|&c| c == 0));
}

#[test]
fn fork_adopts_child() {
    let mut children = Vec::new();
    let mut ready: ReadyQueue<u32> = ReadyQueue::new();
    assert_eq!(adopt_child(&mut children, &mut ready, 4, 44), 4);
    assert_eq!(children, vec![child(4, false, 0)]);
    assert_eq!(ready.fetch().unwrap().handle, 44);
}

#[test]
fn standard_streams_table() {
    assert_eq!(standard_fd_table(1, 2, 3), vec![Some(1), Some(2), Some(3)]);
}

#[test]
fn mmap_bad_arguments_need_no_page_entries() {
    assert_eq!(sys_mmap(1, usize::MAX - 1, 0, &vec![]), -1);
    assert_eq!(sys_mmap(0, usize::MAX - 1, 9, &vec![]), -1);
}
