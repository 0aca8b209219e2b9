//! Task bookkeeping: per-task banker lists, the round-robin task table and
//! the stride scheduler's choice.

pub mod manager;
#[allow(clippy::module_inception)]
pub mod task;

pub use task::{fresh_task, BankerType, TaskBanker, TaskControlBlock, TaskControlBlockInner, TaskStatus};

use vstd::prelude::*;
use crate::config::{MAX_SYSCALL_NUM, PAGE_SIZE};
use crate::syscall::process::{pages_mapped, pages_unmapped, MapPermission};
use crate::syscall::process::TaskInfo;

verus! {

/// One application task of the round-robin table.
pub struct AppTask {
    /// its execution status
    pub task_status: TaskStatus,
    /// what it reports about itself
    pub task_info: TaskInfo,
}

/// The round-robin task table: every application has a slot, and one of
/// them is the current task.
pub struct TaskManager {
    /// total number of tasks
    num_app: usize,
    /// task list
    tasks: Vec<AppTask>,
    /// id of current `Running` task
    current_task: usize,
    /// when each task was first scheduled; 0 while it has not been
    init_schedule_time: Vec<usize>,
}

/// Where mapping or unmapping a range of the current task stands.
#[derive(Copy, Clone, PartialEq, Eq, Debug, Structural)]
pub enum RangePhase {
    /// nothing done yet: the page table entries are those before the change
    Check,
    /// the range has been mapped: the entries are those after mapping
    Mapped,
    /// the range has been removed, with the memory set's result
    Unmapped(isize),
}

/// `ptes` holds one page table entry for each page that `[start, end)`
/// touches.
pub open spec fn covers_range(start: usize, end: usize, ptes: Seq<Option<bool>>) -> bool {
    let first = start / PAGE_SIZE;
    let last = (end + PAGE_SIZE - 1) / (PAGE_SIZE as int);
    first <= last && ptes.len() == last - first
}

/// What the kernel does next for a range.
#[derive(Copy, Clone, PartialEq, Eq, Debug, Structural)]
pub enum RangeAction {
    /// map the addresses `[start, end)` with the given rights
    MapRange { start: usize, end: usize, perm: MapPermission },
    /// remove the addresses `[start, end)`
    UnmapRange { start: usize, end: usize },
    /// stop, returning the value
    Finish(isize),
}

/// The pages `[first, last)` that the addresses `[start, end)` touch:
/// `first` holds `start`, and `last` is where `end` rounds up to.
pub fn vpn_range(start: usize, end: usize) -> (res: (usize, usize))
    ensures
        res.0 == start / PAGE_SIZE,
        res.1 == (end + PAGE_SIZE - 1) / (PAGE_SIZE as int),
{
    let last = if end == 0 {
        0
    } else {
        proof {
            assert((end - 1) / 4096 + 1 == (end + 4095) / 4096) by (nonlinear_arith)
                requires
                    end >= 1,
            {
                assert(end + 4095 == (end - 1) + 4096);
            }
        }
        (end - 1) / PAGE_SIZE + 1
    };
    (start / PAGE_SIZE, last)
}

/// The id reached `d` steps after `current`, going round the table.
pub open spec fn step_from(current: int, d: int, n: int) -> int {
    (current + d) % n
}

/// The task the round robin picks after `current`: the first ready one
/// among the ids `current + 1, current + 2, ...`, taken round the table,
/// `current` itself last.
pub open spec fn next_ready(statuses: Seq<TaskStatus>, current: int, id: int) -> bool {
    let n = statuses.len() as int;
    exists|d: int| {
        &&& 1 <= d <= n
        &&& id == #[trigger] step_from(current, d, n)
        &&& statuses[id] == TaskStatus::Ready
        &&& forall|e: int| 1 <= e < d ==> statuses[#[trigger] step_from(current, e, n)] != TaskStatus::Ready
    }
}

/// The round robin's pick after `current` is a ready task, and no other
/// ready task comes sooner going round the table from `current`; so there
/// is only one pick.
pub proof fn law_next_ready_is_nearest(statuses: Seq<TaskStatus>, current: int, id: int, other: int)
    requires
        statuses.len() > 0,
        next_ready(statuses, current, id),
        next_ready(statuses, current, other),
    ensures
        statuses[id] == TaskStatus::Ready,
        id == other,
{
    let n = statuses.len() as int;
    let d1 = choose|d: int| {
        &&& 1 <= d <= n
        &&& id == #[trigger] step_from(current, d, n)
        &&& statuses[id] == TaskStatus::Ready
        &&& forall|e: int| 1 <= e < d ==> statuses[#[trigger] step_from(current, e, n)] != TaskStatus::Ready
    };
    let d2 = choose|d: int| {
        &&& 1 <= d <= n
        &&& other == #[trigger] step_from(current, d, n)
        &&& statuses[other] == TaskStatus::Ready
        &&& forall|e: int| 1 <= e < d ==> statuses[#[trigger] step_from(current, e, n)] != TaskStatus::Ready
    };
    if d1 < d2 {
        assert(statuses[step_from(current, d1, n)] != TaskStatus::Ready);
    } else if d2 < d1 {
        assert(statuses[step_from(current, d2, n)] != TaskStatus::Ready);
    }
}

impl TaskManager {
    /// Number of application slots.
    pub closed spec fn num_app_view(&self) -> nat {
        self.num_app as nat
    }

    /// The tasks, by id.
    pub closed spec fn tasks_view(&self) -> Seq<AppTask> {
        self.tasks@
    }

    /// The id of the current task.
    pub closed spec fn current(&self) -> int {
        self.current_task as int
    }

    /// When each task was first scheduled (0: not yet).
    pub closed spec fn first_run(&self) -> Seq<usize> {
        self.init_schedule_time@
    }

    /// The statuses of the tasks, by id.
    pub open spec fn statuses(&self) -> Seq<TaskStatus> {
        self.tasks_view().map_values(|t: AppTask| t.task_status)
    }

    /// One slot per application, and the current id names one of them.
    pub closed spec fn wf(&self) -> bool {
        &&& self.num_app > 0
        &&& self.tasks@.len() == self.num_app
        &&& self.init_schedule_time@.len() == self.num_app
        &&& self.current_task < self.num_app
        &&& self.num_app + self.num_app + 1 <= usize::MAX
    }

    /// A well-formed table has one task and one first-run time per
    /// application, and the current id names one of them.
    pub proof fn lemma_wf_shape(&self)
        requires
            self.wf(),
        ensures
            self.num_app_view() > 0,
            self.tasks_view().len() == self.num_app_view(),
            self.statuses().len() == self.num_app_view(),
            self.first_run().len() == self.num_app_view(),
            0 <= self.current() < self.num_app_view(),
    {
    }

    /// The table after the current task's record is replaced by `task`.
    pub open spec fn with_current(&self, task: AppTask) -> Seq<AppTask> {
        self.tasks_view().update(self.current(), task)
    }

    /// A table of `num_app` ready tasks that have made no system call and
    /// have not run yet; task 0 is current.
    pub fn new(num_app: usize) -> (res: Self)
        requires
            0 < num_app,
            num_app + num_app + 1 <= usize::MAX,
        ensures
            res.wf(),
            res.num_app_view() == num_app,
            res.tasks_view().len() == num_app,
            res.current() == 0,
            res.first_run() == Seq::new(num_app as nat, |i: int| 0usize),
            forall|i: int| 0 <= i < num_app ==> (#[trigger] res.tasks_view()[i]).task_status == TaskStatus::Ready,
            forall|i: int| 0 <= i < num_app ==> (#[trigger] res.tasks_view()[i]).task_info.status == TaskStatus::Ready,
            forall|i: int| 0 <= i < num_app ==> (#[trigger] res.tasks_view()[i]).task_info.time == 0,
            forall|i: int, k: int| #![trigger res.tasks_view()[i].task_info.syscall_times[k]] 0 <= i < num_app && 0 <= k < MAX_SYSCALL_NUM ==> res.tasks_view()[i].task_info.syscall_times[k] == 0,
    {
        let mut tasks: Vec<AppTask> = Vec::new();
        let mut init_schedule_time: Vec<usize> = Vec::new();
        for i in 0..num_app
            invariant
                tasks.len() == i,
                init_schedule_time@ == Seq::new(i as nat, |j: int| 0usize),
                forall|j: int| 0 <= j < i ==> (#[trigger] tasks@[j]).task_status == TaskStatus::Ready,
                forall|j: int| 0 <= j < i ==> (#[trigger] tasks@[j]).task_info.status == TaskStatus::Ready,
                forall|j: int| 0 <= j < i ==> (#[trigger] tasks@[j]).task_info.time == 0,
                forall|j: int, k: int| #![trigger tasks@[j].task_info.syscall_times[k]] 0 <= j < i && 0 <= k < MAX_SYSCALL_NUM ==> tasks@[j].task_info.syscall_times[k] == 0,
        {
            let times: [u32; MAX_SYSCALL_NUM] = [0; MAX_SYSCALL_NUM];
            tasks.push(AppTask {
                task_status: TaskStatus::Ready,
                task_info: TaskInfo { status: TaskStatus::Ready, syscall_times: times, time: 0 },
            });
            init_schedule_time.push(0);
            assert(init_schedule_time@ =~= Seq::new((i + 1) as nat, |j: int| 0usize));
        }
        Self { num_app, tasks, current_task: 0, init_schedule_time }
    }

    /// Starts task 0: it becomes running, and `now` is recorded as the time
    /// it was first scheduled. The caller then switches to it.
    pub fn run_first_task(&mut self, now: usize)
        requires
            old(self).wf(),
        ensures
            final(self).wf(),
            final(self).current() == old(self).current(),
            final(self).tasks_view() == old(self).tasks_view().update(0, AppTask { task_status: TaskStatus::Running, ..old(self).tasks_view()[0] }),
            final(self).first_run() == old(self).first_run().update(0, now),
    {
        self.tasks[0].task_status = TaskStatus::Running;
        self.init_schedule_time[0] = now;
    }

    /// The current task goes back to ready.
    pub fn mark_current_suspended(&mut self)
        requires
            old(self).wf(),
        ensures
            final(self).wf(),
            final(self).current() == old(self).current(),
            final(self).first_run() == old(self).first_run(),
            final(self).tasks_view() == old(self).with_current(AppTask { task_status: TaskStatus::Ready, ..old(self).tasks_view()[old(self).current()] }),
    {
        let cur = self.current_task;
        self.tasks[cur].task_status = TaskStatus::Ready;
    }

    /// The current task has exited.
    pub fn mark_current_exited(&mut self)
        requires
            old(self).wf(),
        ensures
            final(self).wf(),
            final(self).current() == old(self).current(),
            final(self).first_run() == old(self).first_run(),
            final(self).tasks_view() == old(self).with_current(AppTask { task_status: TaskStatus::Exited, ..old(self).tasks_view()[old(self).current()] }),
    {
        let cur = self.current_task;
        self.tasks[cur].task_status = TaskStatus::Exited;
    }

    /// The first ready task after the current one, going round the table
    /// (the current one last); `None` when no task is ready.
    pub fn find_next_task(&self) -> (res: Option<usize>)
        requires
            self.wf(),
        ensures
            match res {
                Some(id) => next_ready(self.statuses(), self.current(), id as int),
                None => forall|i: int| 0 <= i < self.num_app_view() ==> self.statuses()[i] != TaskStatus::Ready,
            },
    {
        let n = self.num_app;
        let current = self.current_task;
        let mut d: usize = 1;
        while d <= n
            invariant
                self.wf(),
                n == self.num_app_view(),
                current == self.current(),
                self.statuses().len() == n,
                1 <= d <= n + 1,
                forall|e: int| 1 <= e < d ==> self.statuses()[#[trigger] step_from(current as int, e, n as int)] != TaskStatus::Ready,
            decreases n + 1 - d,
        {
            let id = (current + d) % n;
            if self.tasks[id].task_status == TaskStatus::Ready {
                assert(self.statuses()[id as int] == self.tasks_view()[id as int].task_status);
                assert(id as int == step_from(current as int, d as int, n as int));
                return Some(id);
            }
            assert(self.statuses()[step_from(current as int, d as int, n as int)] != TaskStatus::Ready);
            d = d + 1;
        }
        proof {
            assert forall|i: int| 0 <= i < n implies self.statuses()[i] != TaskStatus::Ready by {
                let e = if i > current as int { i - current } else { i + n - current };
                assert(1 <= e <= n);
                assert(step_from(current as int, e, n as int) == i) by {
                    assert((current + e) % (n as int) == i) by (nonlinear_arith)
                        requires
                            0 <= i < n,
                            0 <= current < n,
                            e == if i > current as int { i - current } else { i + n - current };
                }
            }
        }
        None
    }

    /// Makes the next ready task (see `find_next_task`) the running,
    /// current one, recording `now` as its first scheduling time if it has
    /// none yet, and returns the ids of the previous and the new current
    /// task, between which the caller switches; `None`, with nothing
    /// changed, when no task is ready.
    pub fn run_next_task(&mut self, now: usize) -> (res: Option<(usize, usize)>)
        requires
            old(self).wf(),
        ensures
            final(self).wf(),
            match res {
                Some((prev, next)) => {
                    &&& prev == old(self).current()
                    &&& next_ready(old(self).statuses(), old(self).current(), next as int)
                    &&& final(self).current() == next
                    &&& final(self).tasks_view() == old(self).tasks_view().update(next as int, AppTask { task_status: TaskStatus::Running, ..old(self).tasks_view()[next as int] })
                    &&& final(self).first_run() == if old(self).first_run()[next as int] == 0 { old(self).first_run().update(next as int, now) } else { old(self).first_run() }
                },
                None => {
                    &&& forall|i: int| 0 <= i < old(self).num_app_view() ==> old(self).statuses()[i] != TaskStatus::Ready
                    &&& *final(self) == *old(self)
                },
            },
    {
        match self.find_next_task() {
            Some(next) => {
                proof {
                    let d = choose|d: int| {
                        &&& 1 <= d <= self.num_app
                        &&& next == #[trigger] step_from(self.current(), d, self.num_app as int)
                        &&& self.statuses()[next as int] == TaskStatus::Ready
                        &&& forall|e: int| 1 <= e < d ==> self.statuses()[#[trigger] step_from(self.current(), e, self.num_app as int)] != TaskStatus::Ready
                    };
                    assert(0 <= next < self.num_app) by (nonlinear_arith)
                        requires
                            next == (self.current_task + d) % (self.num_app as int),
                            self.num_app > 0;
                }
                let current = self.current_task;
                self.tasks[next].task_status = TaskStatus::Running;
                self.current_task = next;
                if self.init_schedule_time[next] == 0 {
                    self.init_schedule_time[next] = now;
                }
                Some((current, next))
            },
            None => None,
        }
    }

    /// When the current task was first scheduled (0: not yet).
    pub fn current_first_run_time(&self) -> (res: usize)
        requires
            self.wf(),
        ensures
            res == self.first_run()[self.current()],
    {
        self.init_schedule_time[self.current_task]
    }

    /// The decisions of mapping `[start, end)` into the current task with
    /// the rights `perm`, one phase at a time (`ptes[k]` is the page table
    /// entry of the `k`-th page of the range, `Some(valid)` when there is
    /// one). First: refuse with `-1` when a page is already mapped, else map
    /// exactly that range. Once mapped: `0` when every page now has a
    /// valid entry, `-1` otherwise.
    pub fn mmap(phase: RangePhase, start: usize, end: usize, perm: MapPermission, ptes: &Vec<Option<bool>>) -> (res: RangeAction)
        requires
            phase == RangePhase::Check || phase == RangePhase::Mapped,
            covers_range(start, end, ptes@),
        ensures
            phase == RangePhase::Check ==> res == if forall|k: int| 0 <= k < ptes.len() ==> #[trigger] ptes@[k] != Some(true) {
                RangeAction::MapRange { start, end, perm }
            } else {
                RangeAction::Finish(-1isize)
            },
            phase == RangePhase::Mapped ==> res == if forall|k: int| 0 <= k < ptes.len() ==> #[trigger] ptes@[k] == Some(true) {
                RangeAction::Finish(0isize)
            } else {
                RangeAction::Finish(-1isize)
            },
    {
        match phase {
            RangePhase::Check => {
                if pages_unmapped(ptes) {
                    RangeAction::MapRange { start, end, perm }
                } else {
                    RangeAction::Finish(-1)
                }
            },
            _ => {
                if pages_mapped(ptes) {
                    RangeAction::Finish(0)
                } else {
                    RangeAction::Finish(-1)
                }
            },
        }
    }

    /// The decisions of unmapping `[start, end)` from the current task, one
    /// phase at a time (`ptes` as for `mmap`). First: remove exactly that
    /// range when every page of it has a valid entry, else refuse with
    /// `-1`. Once removed: `-1` when the memory set reported `-1`, else `0`.
    pub fn munmap(phase: RangePhase, start: usize, end: usize, ptes: &Vec<Option<bool>>) -> (res: RangeAction)
        requires
            phase != RangePhase::Mapped,
            covers_range(start, end, ptes@),
        ensures
            phase == RangePhase::Check ==> res == if forall|k: int| 0 <= k < ptes.len() ==> #[trigger] ptes@[k] == Some(true) {
                RangeAction::UnmapRange { start, end }
            } else {
                RangeAction::Finish(-1isize)
            },
            phase matches RangePhase::Unmapped(removed) ==> res == RangeAction::Finish(if removed == -1 { -1isize } else { 0isize }),
    {
        match phase {
            RangePhase::Unmapped(removed) => {
                if removed == -1 {
                    RangeAction::Finish(-1)
                } else {
                    RangeAction::Finish(0)
                }
            },
            _ => {
                if pages_mapped(ptes) {
                    RangeAction::UnmapRange { start, end }
                } else {
                    RangeAction::Finish(-1)
                }
            },
        }
    }

    /// The id of the current task.
    pub fn get_current_task(&self) -> (res: usize)
        ensures
            res == self.current(),
    {
        self.current_task
    }

    /// How often the current task has made each system call.
    pub fn get_syscall_times(&self) -> (res: [u32; MAX_SYSCALL_NUM])
        requires
            self.wf(),
        ensures
            res == self.tasks_view()[self.current()].task_info.syscall_times,
    {
        self.tasks[self.current_task].task_info.syscall_times
    }

    /// Counts one more use of system call `syscall_id` by the current task.
    pub fn add_syscall_times(&mut self, syscall_id: u32)
        requires
            old(self).wf(),
            syscall_id < MAX_SYSCALL_NUM,
            old(self).tasks_view()[old(self).current()].task_info.syscall_times[syscall_id as int] < u32::MAX,
        ensures
            final(self).wf(),
            final(self).current() == old(self).current(),
            final(self).first_run() == old(self).first_run(),
            final(self).tasks_view().len() == old(self).tasks_view().len(),
            forall|i: int| 0 <= i < final(self).tasks_view().len() && i != old(self).current() ==> #[trigger] final(self).tasks_view()[i] == old(self).tasks_view()[i],
            ({
                let before = old(self).tasks_view()[old(self).current()];
                let after = final(self).tasks_view()[old(self).current()];
                &&& after.task_status == before.task_status
                &&& after.task_info.status == before.task_info.status
                &&& after.task_info.time == before.task_info.time
                &&& after.task_info.syscall_times@ == before.task_info.syscall_times@.update(syscall_id as int, (before.task_info.syscall_times[syscall_id as int] + 1) as u32)
            }),
    {
        let cur = self.current_task;
        let id = syscall_id as usize;
        let count = self.tasks[cur].task_info.syscall_times[id];
        self.tasks[cur].task_info.syscall_times[id] = count + 1;
    }

    /// Records in the current task's information that it is running.
    pub fn write_running_status(&mut self)
        requires
            old(self).wf(),
        ensures
            final(self).wf(),
            final(self).current() == old(self).current(),
            final(self).first_run() == old(self).first_run(),
            final(self).tasks_view() == old(self).with_current(AppTask {
                task_info: TaskInfo { status: TaskStatus::Running, ..old(self).tasks_view()[old(self).current()].task_info },
                ..old(self).tasks_view()[old(self).current()]
            }),
    {
        let cur = self.current_task;
        self.tasks[cur].task_info.status = TaskStatus::Running;
    }

    /// Records the current task's running time.
    pub fn set_current_task_time(&mut self, time: usize)
        requires
            old(self).wf(),
        ensures
            final(self).wf(),
            final(self).current() == old(self).current(),
            final(self).first_run() == old(self).first_run(),
            final(self).tasks_view() == old(self).with_current(AppTask {
                task_info: TaskInfo { time, ..old(self).tasks_view()[old(self).current()].task_info },
                ..old(self).tasks_view()[old(self).current()]
            }),
    {
        let cur = self.current_task;
        self.tasks[cur].task_info.time = time;
    }

    /// Records as the current task's running time how long ago, at time
    /// `now`, it was first scheduled.
    pub fn record_current_time(&mut self, now: usize)
        requires
            old(self).wf(),
            now >= old(self).first_run()[old(self).current()],
        ensures
            final(self).wf(),
            final(self).current() == old(self).current(),
            final(self).first_run() == old(self).first_run(),
            final(self).tasks_view() == old(self).with_current(AppTask {
                task_info: TaskInfo {
                    time: (now - old(self).first_run()[old(self).current()]) as usize,
                    ..old(self).tasks_view()[old(self).current()].task_info
                },
                ..old(self).tasks_view()[old(self).current()]
            }),
    {
        let first = self.init_schedule_time[self.current_task];
        self.set_current_task_time(now - first);
    }

    /// The current task's recorded running time.
    pub fn get_current_task_time(&self) -> (res: usize)
        requires
            self.wf(),
        ensures
            res == self.tasks_view()[self.current()].task_info.time,
    {
        self.tasks[self.current_task].task_info.time
    }
}

} // verus!
