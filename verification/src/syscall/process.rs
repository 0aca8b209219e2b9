//! Process management system calls.

use vstd::prelude::*;
use crate::config::{BIG_STRIDE, MAX_SYSCALL_NUM, PAGE_SIZE};
use crate::task::manager::TaskManager as ReadyQueue;
use crate::task::{fresh_task, TaskControlBlock, TaskControlBlockInner, TaskStatus};

verus! {

/// A time as seconds and microseconds.
#[derive(Debug)]
pub struct TimeVal {
    pub sec: usize,
    pub usec: usize,
}

/// Task information
pub struct TaskInfo {
    /// Task status in it's life cycle
    pub status: TaskStatus,
    /// The numbers of syscall called by task
    pub syscall_times: [u32; MAX_SYSCALL_NUM],
    /// Total running time of task
    pub time: usize,
}

/// Access rights of a new mapping of user memory.
#[derive(Copy, Clone, PartialEq, Eq, Debug, Structural)]
pub struct MapPermission {
    pub readable: bool,
    pub writable: bool,
    pub executable: bool,
    pub user: bool,
}

/// One child of the calling process, as `sys_waitpid` sees it.
#[derive(Copy, Clone, PartialEq, Eq, Debug, Structural)]
pub struct ChildTask {
    pub pid: usize,
    pub zombie: bool,
    pub exit_code: i32,
}

/// What waiting for a child came to.
#[derive(Copy, Clone, PartialEq, Eq, Debug, Structural)]
pub enum WaitOutcome {
    /// no child has the pid asked for
    NoSuchChild,
    /// a child has it, but none of those has exited
    StillRunning,
    /// the child at `index` had exited and is taken out of the list
    Reaped { index: usize, pid: usize, exit_code: i32 },
}

impl WaitOutcome {
    /// The value the system call returns: `-1`, `-2`, or the child's pid.
    pub fn code(&self) -> (res: isize)
        ensures
            res == match *self {
                WaitOutcome::NoSuchChild => -1isize,
                WaitOutcome::StillRunning => -2isize,
                WaitOutcome::Reaped { pid, .. } => pid as isize,
            },
    {
        match *self {
            WaitOutcome::NoSuchChild => -1,
            WaitOutcome::StillRunning => -2,
            WaitOutcome::Reaped { pid, .. } => pid as isize,
        }
    }
}

/// A pid argument of `-1` asks for any child.
pub open spec fn pid_matches(pid: isize, child: ChildTask) -> bool {
    pid == -1 || #[verifier::truncate] (pid as usize) == child.pid
}

/// The first exited child that the pid asks for.
pub open spec fn first_reapable(children: Seq<ChildTask>, pid: isize, index: int) -> bool {
    &&& 0 <= index < children.len()
    &&& children[index].zombie
    &&& pid_matches(pid, children[index])
    &&& forall|k: int| 0 <= k < index ==> !(#[trigger] children[k].zombie && pid_matches(pid, children[k]))
}

/// Looks for an exited child with the given pid (any child for `-1`) and
/// takes the first one out of the list.
pub fn sys_waitpid(children: &mut Vec<ChildTask>, pid: isize) -> (res: WaitOutcome)
    ensures
        (res == WaitOutcome::NoSuchChild) <==> (forall|k: int| 0 <= k < old(children).len() ==> !pid_matches(pid, #[trigger] old(children)@[k])),
        (res == WaitOutcome::StillRunning) <==> {
            &&& exists|k: int| 0 <= k < old(children).len() && pid_matches(pid, #[trigger] old(children)@[k])
            &&& forall|k: int| 0 <= k < old(children).len() ==> !(#[trigger] old(children)@[k].zombie && pid_matches(pid, old(children)@[k]))
        },
        res is NoSuchChild || res is StillRunning ==> final(children)@ == old(children)@,
        match res {
            WaitOutcome::Reaped { index, pid: found, exit_code } => {
                &&& first_reapable(old(children)@, pid, index as int)
                &&& found == old(children)@[index as int].pid
                &&& exit_code == old(children)@[index as int].exit_code
                &&& final(children)@ == old(children)@.remove(index as int)
            },
            _ => true,
        },
{
    let n = children.len();
    let mut any = false;
    for k in 0..n
        invariant
            n == children.len(),
            any <==> exists|m: int| 0 <= m < k && pid_matches(pid, #[trigger] children@[m]),
    {
        let child_pid = children[k].pid;
        if pid == -1 || #[verifier::truncate] (pid as usize) == child_pid {
            assert(pid_matches(pid, children@[k as int]));
            any = true;
        }
    }
    if !any {
        return WaitOutcome::NoSuchChild;
    }
    for k in 0..n
        invariant
            n == children.len(),
            children@ == old(children)@,
            exists|m: int| 0 <= m < n && pid_matches(pid, #[trigger] children@[m]),
            forall|m: int| 0 <= m < k ==> !(#[trigger] children@[m].zombie && pid_matches(pid, children@[m])),
    {
        let child = children[k];
        if child.zombie && (pid == -1 || #[verifier::truncate] (pid as usize) == child.pid) {
            let removed = children.remove(k);
            return WaitOutcome::Reaped { index: k, pid: removed.pid, exit_code: removed.exit_code };
        }
    }
    WaitOutcome::StillRunning
}

/// Splits a time in microseconds into seconds and microseconds.
pub fn sys_get_time(us: usize) -> (res: TimeVal)
    ensures
        res.sec == us / 1_000_000,
        res.usec == us % 1_000_000,
        res.sec * 1_000_000 + res.usec == us,
{
    TimeVal { sec: us / 1_000_000, usec: us % 1_000_000 }
}

/// The information a running task reports about itself.
pub fn sys_task_info(syscall_times: [u32; MAX_SYSCALL_NUM], time: usize) -> (res: TaskInfo)
    ensures
        res.status == TaskStatus::Running,
        res.syscall_times == syscall_times,
        res.time == time,
{
    TaskInfo { status: TaskStatus::Running, syscall_times, time }
}

/// Number of pages that `len` bytes span, starting at a page boundary.
pub fn page_count(len: usize) -> (res: usize)
    requires
        len + PAGE_SIZE - 1 <= usize::MAX,
    ensures
        res == (len + PAGE_SIZE - 1) / (PAGE_SIZE as int),
{
    (len + (PAGE_SIZE - 1)) / PAGE_SIZE
}

/// Number of the page that holds address `addr`.
pub fn page_number(addr: usize) -> (res: usize)
    ensures
        res == addr / PAGE_SIZE,
{
    addr / PAGE_SIZE
}

/// The `port` argument of `sys_mmap` is valid: some of its low three bits
/// are set and no other bit is.
pub open spec fn valid_port(port: usize) -> bool {
    1 <= port <= 7
}

/// A port is valid exactly when it has no bit above the low three and at
/// least one of those: every port from 1 to 7, whatever rights it asks
/// for.
pub proof fn law_valid_port_bits(port: usize)
    ensures
        valid_port(port) == (port & !7usize == 0 && port & 7usize != 0),
{
    assert(port & !7usize == 0 <==> port <= 7) by (bit_vector);
    assert(port <= 7 ==> (port & 7usize == port)) by (bit_vector);
}

/// The access rights that the `port` bits ask for: bit 0 read, bit 1
/// write, bit 2 execute; user access always.
pub fn map_permission(port: usize) -> (res: MapPermission)
    ensures
        res.readable == (port & 1 != 0),
        res.writable == (port & 2 != 0),
        res.executable == (port & 4 != 0),
        res.user,
{
    MapPermission { readable: port & 1 != 0, writable: port & 2 != 0, executable: port & 4 != 0, user: true }
}

/// No page of a range has a valid page table entry (`ptes[k]` is the entry
/// of the `k`-th page, `Some(valid)` when there is one).
pub fn pages_unmapped(ptes: &Vec<Option<bool>>) -> (res: bool)
    ensures
        res == forall|k: int| 0 <= k < ptes.len() ==> #[trigger] ptes@[k] != Some(true),
{
    let pages = ptes.len();
    for k in 0..pages
        invariant
            pages == ptes.len(),
            forall|m: int| 0 <= m < k ==> #[trigger] ptes@[m] != Some(true),
    {
        match ptes[k] {
            Some(valid) => {
                if valid {
                    return false;
                }
            },
            None => {},
        }
    }
    true
}

/// Every page of a range has a valid page table entry (`ptes` as for
/// `pages_unmapped`).
pub fn pages_mapped(ptes: &Vec<Option<bool>>) -> (res: bool)
    ensures
        res == forall|k: int| 0 <= k < ptes.len() ==> #[trigger] ptes@[k] == Some(true),
{
    let pages = ptes.len();
    for k in 0..pages
        invariant
            pages == ptes.len(),
            forall|m: int| 0 <= m < k ==> #[trigger] ptes@[m] == Some(true),
    {
        match ptes[k] {
            Some(valid) => {
                if !valid {
                    return false;
                }
            },
            None => return false,
        }
    }
    true
}

/// The argument checks of `sys_mmap`: `start` is page-aligned and `port`
/// is valid.
pub fn mmap_args_valid(start: usize, port: usize) -> (res: bool)
    ensures
        res == (start % PAGE_SIZE == 0 && valid_port(port)),
        res == (start % PAGE_SIZE == 0 && port & !7usize == 0 && port & 7usize != 0),
{
    proof {
        assert(port & !7usize != 0 <==> port > 7) by (bit_vector);
        assert(port & 7usize == 0 <==> port % 8 == 0) by (bit_vector);
    }
    !(start % PAGE_SIZE != 0 || port & !0x7 != 0 || port & 0x7 == 0)
}

/// The checks of `sys_mmap`: `0` when `start` is page-aligned, `port` is
/// valid, and none of the pages of the range is mapped yet (`ptes[k]` is
/// the page table entry of the `k`-th page, `Some(valid)` when there is
/// one); `-1` otherwise. On `0` the caller maps the range with
/// `map_permission(port)`.
pub fn sys_mmap(start: usize, len: usize, port: usize, ptes: &Vec<Option<bool>>) -> (res: isize)
    requires
        start + len <= usize::MAX,
        start % PAGE_SIZE == 0 && valid_port(port) ==> {
            &&& len + PAGE_SIZE - 1 <= usize::MAX
            &&& ptes.len() == (len + PAGE_SIZE - 1) / (PAGE_SIZE as int)
        },
    ensures
        res == 0 || res == -1,
        res == 0 <==> {
            &&& start % PAGE_SIZE == 0
            &&& valid_port(port)
            &&& forall|k: int| 0 <= k < ptes.len() ==> #[trigger] ptes@[k] != Some(true)
        },
{
    if !mmap_args_valid(start, port) {
        return -1;
    }
    if pages_unmapped(ptes) {
        0
    } else {
        -1
    }
}

/// The checks of `sys_munmap`: `0` when `start` is page-aligned and every
/// page of the range has a valid page table entry (`ptes[k]` as for
/// `sys_mmap`); `-1` otherwise. On `0` the caller unmaps the range.
pub fn sys_munmap(start: usize, len: usize, ptes: &Vec<Option<bool>>) -> (res: isize)
    requires
        start % PAGE_SIZE == 0 ==> {
            &&& start + len <= usize::MAX
            &&& len + PAGE_SIZE - 1 <= usize::MAX
            &&& ptes.len() == (len + PAGE_SIZE - 1) / (PAGE_SIZE as int)
        },
    ensures
        res == 0 || res == -1,
        res == 0 <==> {
            &&& start % PAGE_SIZE == 0
            &&& forall|k: int| 0 <= k < ptes.len() ==> #[trigger] ptes@[k] == Some(true)
        },
{
    if start % PAGE_SIZE != 0 {
        return -1;
    }
    if pages_mapped(ptes) {
        0
    } else {
        -1
    }
}

/// The value of `sys_sbrk`: the old program break when changing it
/// succeeded, `-1` otherwise.
pub fn sys_sbrk(old_brk: Option<usize>) -> (res: isize)
    ensures
        res == match old_brk {
            Some(brk) => brk as isize,
            None => -1isize,
        },
{
    if let Some(brk) = old_brk {
        brk as isize
    } else {
        -1
    }
}

/// Sets the priority of the calling task: a priority of at least 2 is
/// taken, the stride step becomes `BIG_STRIDE / prio`, and the priority is
/// returned; a smaller one is refused with `-1` and nothing changes.
pub fn sys_set_priority(inner: &mut TaskControlBlockInner, prio: isize) -> (res: isize)
    ensures
        prio >= 2 ==> {
            &&& res == prio
            &&& final(inner).priority == prio
            &&& final(inner).pass == BIG_STRIDE / (prio as usize)
            &&& *final(inner) == (TaskControlBlockInner { priority: prio as usize, pass: BIG_STRIDE / (prio as usize), ..*old(inner) })
        },
        prio < 2 ==> res == -1 && *final(inner) == *old(inner),
{
    if prio >= 2 {
        let p = prio as usize;
        inner.priority = p;
        inner.pass = BIG_STRIDE / p;
        prio
    } else {
        -1
    }
}

/// Where a loaded program starts, as the loader gives it: its memory
/// set, its user stack pointer and its entry point.
pub struct UserImage<M> {
    pub memory_set: M,
    pub user_sp: usize,
    pub entry_point: usize,
}

/// A program the kernel has loaded for a new process, with the pid
/// allocated for it and the stream objects for its three standard
/// descriptors.
pub struct NewProgram<M, F> {
    pub pid: usize,
    pub image: UserImage<M>,
    pub stdin: F,
    pub stdout: F,
    pub stderr: F,
}

/// Where the first return to user space goes.
#[derive(Copy, Clone, PartialEq, Eq, Debug, Structural)]
pub struct TrapStart {
    pub entry: usize,
    pub user_sp: usize,
}

/// A user process: the part of it that the process system calls read and
/// change.
pub struct ProcessRecord<M, F> {
    pub pid: usize,
    /// pid of the parent, if any
    pub parent: Option<usize>,
    pub memory_set: M,
    /// entry point and user stack of the first return to user space
    pub trap_start: TrapStart,
    pub base_size: usize,
    pub heap_bottom: usize,
    pub program_brk: usize,
    pub exit_code: i32,
    pub children: Vec<ChildTask>,
    pub fd_table: Vec<Option<F>>,
    pub syscall_times: [u32; MAX_SYSCALL_NUM],
    pub task_time: usize,
}

/// `record` is the new process that `program` makes as a child of
/// `parent`: it runs the loaded image from its entry point on its user
/// stack, its heap starts (empty) at that stack, it has no children, no
/// exit code, no system calls counted, and descriptors 0, 1, 2 are the
/// given standard streams.
pub open spec fn spawned_from<M, F>(record: ProcessRecord<M, F>, parent: usize, program: NewProgram<M, F>) -> bool {
    &&& record.pid == program.pid
    &&& record.parent == Some(parent)
    &&& record.memory_set == program.image.memory_set
    &&& record.trap_start == (TrapStart { entry: program.image.entry_point, user_sp: program.image.user_sp })
    &&& record.base_size == 0
    &&& record.heap_bottom == program.image.user_sp
    &&& record.program_brk == program.image.user_sp
    &&& record.exit_code == 0
    &&& record.children@ == Seq::<ChildTask>::empty()
    &&& record.fd_table@ == seq![Some(program.stdin), Some(program.stdout), Some(program.stderr)]
    &&& forall|k: int| 0 <= k < MAX_SYSCALL_NUM ==> #[trigger] record.syscall_times[k] == 0
    &&& record.task_time == 0
}

/// The descriptor table of a new process: standard input, output and
/// error at descriptors 0, 1 and 2.
pub fn standard_fd_table<F>(stdin: F, stdout: F, stderr: F) -> (res: Vec<Option<F>>)
    ensures
        res@ == seq![Some(stdin), Some(stdout), Some(stderr)],
{
    let mut table: Vec<Option<F>> = Vec::new();
    table.push(Some(stdin));
    table.push(Some(stdout));
    table.push(Some(stderr));
    assert(table@ =~= seq![Some(stdin), Some(stdout), Some(stderr)]);
    table
}

/// Builds the process record for a program loaded as a child of `parent`.
pub fn new_process<M, F>(parent: usize, program: NewProgram<M, F>) -> (res: ProcessRecord<M, F>)
    ensures
        spawned_from(res, parent, program),
{
    let ghost prog = program;
    let NewProgram { pid, image, stdin, stdout, stderr } = program;
    let UserImage { memory_set, user_sp, entry_point } = image;
    let times: [u32; MAX_SYSCALL_NUM] = [0; MAX_SYSCALL_NUM];
    let res = ProcessRecord {
        pid,
        parent: Some(parent),
        memory_set,
        trap_start: TrapStart { entry: entry_point, user_sp },
        base_size: 0,
        heap_bottom: user_sp,
        program_brk: user_sp,
        exit_code: 0,
        children: Vec::new(),
        fd_table: standard_fd_table(stdin, stdout, stderr),
        syscall_times: times,
        task_time: 0,
    };
    assert(res.children@ =~= Seq::<ChildTask>::empty());
    res
}

/// A new process joins the caller's children, alive with exit code 0, and
/// a fresh task for it joins the ready queue; its pid is returned.
pub fn adopt_child<T>(children: &mut Vec<ChildTask>, ready: &mut ReadyQueue<T>, pid: usize, handle: T) -> (res: isize)
    ensures
        res == pid as isize,
        final(children)@ == old(children)@.push(ChildTask { pid, zombie: false, exit_code: 0 }),
        final(ready).queue().len() == old(ready).queue().len() + 1,
        final(ready).queue().drop_last() == old(ready).queue(),
        fresh_task(final(ready).queue().last(), handle),
{
    children.push(ChildTask { pid, zombie: false, exit_code: 0 });
    let task = TaskControlBlock::new(handle);
    ready.add(task);
    assert(ready.queue().drop_last() =~= old(ready).queue());
    pid as isize
}

/// Spawning a process: when the kernel could open and load the program,
/// the new process (see `spawned_from`) becomes a child of `parent_pid`
/// and its task joins the ready queue, and its pid is returned; `-1`, with
/// nothing changed, when the program could not be opened.
pub fn sys_spawn<M, F>(
    parent_pid: usize,
    children: &mut Vec<ChildTask>,
    ready: &mut ReadyQueue<ProcessRecord<M, F>>,
    loaded: Option<NewProgram<M, F>>,
) -> (res: isize)
    ensures
        loaded is None ==> {
            &&& res == -1
            &&& final(children)@ == old(children)@
            &&& final(ready).queue() == old(ready).queue()
        },
        loaded matches Some(program) ==> {
            &&& res == program.pid as isize
            &&& final(children)@ == old(children)@.push(ChildTask { pid: program.pid, zombie: false, exit_code: 0 })
            &&& final(ready).queue().len() == old(ready).queue().len() + 1
            &&& final(ready).queue().drop_last() == old(ready).queue()
            &&& fresh_task(final(ready).queue().last(), final(ready).queue().last().handle_state())
            &&& spawned_from(final(ready).queue().last().handle_state(), parent_pid, program)
        },
{
    match loaded {
        Some(program) => {
            let pid = program.pid;
            let record = new_process(parent_pid, program);
            adopt_child(children, ready, pid, record)
        },
        None => -1,
    }
}

} // verus!
