//! Per-task state that the deadlock checks and the scheduler read.

use vstd::prelude::*;
use crate::config::BIG_STRIDE;

verus! {

/// Which kind of resource a banker list is about.
#[derive(Copy, Clone, PartialEq, Eq, Debug, Structural)]
pub enum BankerType {
    /// mutexes
    Mutex,
    /// semaphores
    Sem,
}

/// The execution status of a task.
#[derive(Copy, Clone, PartialEq, Eq, Debug, Structural)]
pub enum TaskStatus {
    /// ready to run
    Ready,
    /// running
    Running,
    /// blocked
    Blocked,
    /// exited
    Exited,
}

/// What one task holds of each resource of one kind, and what it waits for.
pub struct TaskBanker {
    /// units held, by resource id
    pub allocated_list: Vec<usize>,
    /// units waited for, by resource id
    pub need_list: Vec<usize>,
}

impl TaskBanker {
    /// Both lists empty.
    pub fn new() -> (res: Self)
        ensures
            res.allocated_list@ == Seq::<usize>::empty(),
            res.need_list@ == Seq::<usize>::empty(),
    {
        Self { allocated_list: Vec::new(), need_list: Vec::new() }
    }

    /// The two lists have one entry per resource.
    pub open spec fn aligned(&self) -> bool {
        self.allocated_list.len() == self.need_list.len()
    }

    /// One more unit of resource `res_id` is held, and none is waited for.
    fn grant_one(&mut self, res_id: usize)
        requires
            old(self).aligned(),
            res_id < old(self).allocated_list.len(),
            old(self).allocated_list@[res_id as int] < usize::MAX,
        ensures
            final(self).allocated_list@ == old(self).allocated_list@.update(
                res_id as int,
                (old(self).allocated_list@[res_id as int] + 1) as usize,
            ),
            final(self).need_list@ == old(self).need_list@.update(res_id as int, 0usize),
    {
        let held = self.allocated_list[res_id];
        self.allocated_list[res_id] = held + 1;
        self.need_list[res_id] = 0;
    }

    /// One unit of resource `res_id` fewer is held.
    fn take_back_one(&mut self, res_id: usize)
        requires
            old(self).aligned(),
            res_id < old(self).allocated_list.len(),
            old(self).allocated_list@[res_id as int] > 0,
        ensures
            final(self).allocated_list@ == old(self).allocated_list@.update(
                res_id as int,
                (old(self).allocated_list@[res_id as int] - 1) as usize,
            ),
            final(self).need_list@ == old(self).need_list@,
    {
        let held = self.allocated_list[res_id];
        self.allocated_list[res_id] = held - 1;
    }

    /// Both lists grow with zeros to at least `len` entries.
    fn pad_to(&mut self, len: usize)
        requires
            old(self).aligned(),
        ensures
            final(self).allocated_list@ == pad(old(self).allocated_list@, len as nat),
            final(self).need_list@ == pad(old(self).need_list@, len as nat),
    {
        let ghost held = self.allocated_list@;
        let ghost wanted = self.need_list@;
        while self.allocated_list.len() < len
            invariant
                self.allocated_list.len() == self.need_list.len(),
                held.len() == wanted.len(),
                held.len() <= self.allocated_list.len(),
                self.allocated_list.len() <= if len < held.len() { held.len() } else { len as nat },
                forall|i: int| 0 <= i < held.len() ==> #[trigger] self.allocated_list@[i] == held[i],
                forall|i: int| 0 <= i < held.len() ==> #[trigger] self.need_list@[i] == wanted[i],
                forall|i: int| held.len() <= i < self.allocated_list.len() ==> #[trigger] self.allocated_list@[i] == 0,
                forall|i: int| held.len() <= i < self.need_list.len() ==> #[trigger] self.need_list@[i] == 0,
            decreases len - self.allocated_list.len(),
        {
            self.allocated_list.push(0);
            self.need_list.push(0);
        }
        assert(self.allocated_list@ =~= pad(held, len as nat));
        assert(self.need_list@ =~= pad(wanted, len as nat));
    }
}

/// `s` grown with zeros to at least `len` entries.
pub open spec fn pad(s: Seq<usize>, len: nat) -> Seq<usize> {
    Seq::new(if len < s.len() { s.len() } else { len }, |i: int| if i < s.len() { s[i] } else { 0usize })
}

/// The mutable part of a task control block that the kernel's bookkeeping
/// reads and changes.
pub struct TaskControlBlockInner {
    /// Maintain the execution status of the current process
    pub task_status: TaskStatus,
    /// It is set when active exit or execution error occurs
    pub exit_code: Option<i32>,
    /// banker lists for mutexes
    pub mutex_tracker: TaskBanker,
    /// banker lists for semaphores
    pub sem_banker: TaskBanker,
    /// stride scheduling: distance travelled so far
    pub stride: usize,
    /// stride scheduling: step per turn, `BIG_STRIDE / priority`
    pub pass: usize,
    /// stride scheduling: priority
    pub priority: usize,
}

impl TaskControlBlockInner {
    /// The banker of the given kind.
    pub open spec fn banker(&self, type_: BankerType) -> &TaskBanker {
        match type_ {
            BankerType::Mutex => &self.mutex_tracker,
            BankerType::Sem => &self.sem_banker,
        }
    }

    /// The banker of the other kind.
    pub open spec fn other_banker(&self, type_: BankerType) -> &TaskBanker {
        match type_ {
            BankerType::Mutex => &self.sem_banker,
            BankerType::Sem => &self.mutex_tracker,
        }
    }

    /// The execution status.
    #[allow(unused)]
    fn get_status(&self) -> (res: TaskStatus)
        ensures
            res == self.task_status,
    {
        self.task_status
    }

    /// The list of units held, for the given kind.
    pub fn get_allocated_list(&self, type_: BankerType) -> (res: &Vec<usize>)
        ensures
            res@ == self.banker(type_).allocated_list@,
    {
        match type_ {
            BankerType::Mutex => &self.mutex_tracker.allocated_list,
            BankerType::Sem => &self.sem_banker.allocated_list,
        }
    }

    /// The list of units waited for, for the given kind, to be changed in
    /// place; nothing else of the task changes through it.
    pub fn get_need_list(&mut self, type_: BankerType) -> (res: &mut Vec<usize>)
        ensures
            res@ == old(self).banker(type_).need_list@,
            final(self).task_status == old(self).task_status,
            final(self).exit_code == old(self).exit_code,
            final(self).stride == old(self).stride,
            final(self).pass == old(self).pass,
            final(self).priority == old(self).priority,
            final(self).banker(type_).allocated_list@ == old(self).banker(type_).allocated_list@,
            final(self).banker(type_).need_list@ == final(res)@,
            final(self).other_banker(type_) == old(self).other_banker(type_),
    {
        match type_ {
            BankerType::Mutex => &mut self.mutex_tracker.need_list,
            BankerType::Sem => &mut self.sem_banker.need_list,
        }
    }

    /// The rest of the task, apart from the banker of the given kind, is
    /// as it was.
    pub open spec fn same_but_banker(&self, old: &Self, type_: BankerType) -> bool {
        &&& self.task_status == old.task_status
        &&& self.exit_code == old.exit_code
        &&& self.stride == old.stride
        &&& self.pass == old.pass
        &&& self.priority == old.priority
        &&& self.other_banker(type_) == old.other_banker(type_)
    }

    /// The task has obtained one unit of resource `res_id` of the given
    /// kind, and no longer waits for it.
    pub fn alloc_res(&mut self, res_id: usize, type_: BankerType)
        requires
            old(self).banker(type_).aligned(),
            res_id < old(self).banker(type_).allocated_list.len(),
            old(self).banker(type_).allocated_list@[res_id as int] < usize::MAX,
        ensures
            final(self).same_but_banker(&old(self), type_),
            final(self).banker(type_).allocated_list@ == old(self).banker(type_).allocated_list@.update(
                res_id as int,
                (old(self).banker(type_).allocated_list@[res_id as int] + 1) as usize,
            ),
            final(self).banker(type_).need_list@ == old(self).banker(type_).need_list@.update(res_id as int, 0usize),
    {
        match type_ {
            BankerType::Mutex => self.mutex_tracker.grant_one(res_id),
            BankerType::Sem => self.sem_banker.grant_one(res_id),
        }
    }

    /// The task has given back one unit of resource `res_id` of the given
    /// kind.
    pub fn dealloc_res(&mut self, res_id: usize, type_: BankerType)
        requires
            old(self).banker(type_).aligned(),
            res_id < old(self).banker(type_).allocated_list.len(),
            old(self).banker(type_).allocated_list@[res_id as int] > 0,
        ensures
            final(self).same_but_banker(&old(self), type_),
            final(self).banker(type_).allocated_list@ == old(self).banker(type_).allocated_list@.update(
                res_id as int,
                (old(self).banker(type_).allocated_list@[res_id as int] - 1) as usize,
            ),
            final(self).banker(type_).need_list@ == old(self).banker(type_).need_list@,
    {
        match type_ {
            BankerType::Mutex => self.mutex_tracker.take_back_one(res_id),
            BankerType::Sem => self.sem_banker.take_back_one(res_id),
        }
    }

    /// Both lists of the given kind grow with zeros to at least `len`
    /// entries.
    pub fn extend_list(&mut self, len: usize, type_: BankerType)
        requires
            old(self).banker(type_).aligned(),
        ensures
            final(self).same_but_banker(&old(self), type_),
            final(self).banker(type_).allocated_list@ == pad(old(self).banker(type_).allocated_list@, len as nat),
            final(self).banker(type_).need_list@ == pad(old(self).banker(type_).need_list@, len as nat),
    {
        match type_ {
            BankerType::Mutex => self.mutex_tracker.pad_to(len),
            BankerType::Sem => self.sem_banker.pad_to(len),
        }
    }
}

/// `task` is a task just created for `handle`: ready, no exit code, empty
/// banker lists, stride 0, priority 16 and step `BIG_STRIDE / 16`.
pub open spec fn fresh_task<T>(task: TaskControlBlock<T>, handle: T) -> bool {
    &&& task.handle_state() == handle
    &&& task.inner_state().task_status == TaskStatus::Ready
    &&& task.inner_state().exit_code is None
    &&& task.inner_state().mutex_tracker.allocated_list@ == Seq::<usize>::empty()
    &&& task.inner_state().mutex_tracker.need_list@ == Seq::<usize>::empty()
    &&& task.inner_state().sem_banker.allocated_list@ == Seq::<usize>::empty()
    &&& task.inner_state().sem_banker.need_list@ == Seq::<usize>::empty()
    &&& task.inner_state().stride == 0
    &&& task.inner_state().priority == 16
    &&& task.inner_state().pass == BIG_STRIDE / 16
}

/// Task control block: what the kernel keeps of a task outside this
/// library (`handle`: its process link, kernel stack and the like) and the
/// state the library reads and changes.
pub struct TaskControlBlock<T> {
    /// the kernel's own part of the task
    pub handle: T,
    inner: TaskControlBlockInner,
}

impl<T> TaskControlBlock<T> {
    /// The kernel's own part of the task.
    pub closed spec fn handle_state(&self) -> T {
        self.handle
    }

    /// The library's part of the task.
    pub closed spec fn inner_state(&self) -> TaskControlBlockInner {
        self.inner
    }

    /// A ready task with empty banker lists, stride 0 and priority 16.
    pub fn new(handle: T) -> (res: Self)
        ensures
            fresh_task(res, handle),
    {
        Self {
            handle,
            inner: TaskControlBlockInner {
                task_status: TaskStatus::Ready,
                exit_code: None,
                mutex_tracker: TaskBanker::new(),
                sem_banker: TaskBanker::new(),
                stride: 0,
                pass: BIG_STRIDE / 16,
                priority: 16,
            },
        }
    }

    /// The library's part of the task, to be read.
    pub fn inner(&self) -> (res: &TaskControlBlockInner)
        ensures
            *res == self.inner_state(),
    {
        &self.inner
    }

    /// The library's part of the task, to be changed in place.
    pub fn inner_exclusive_access(&mut self) -> (res: &mut TaskControlBlockInner)
        ensures
            *res == old(self).inner_state(),
            final(self).inner_state() == *final(res),
            final(self).handle_state() == old(self).handle_state(),
    {
        &mut self.inner
    }
}

/// Giving back a unit right after obtaining it restores the list of units
/// held.
pub proof fn law_dealloc_undoes_alloc(held: Seq<usize>, res_id: int)
    requires
        0 <= res_id < held.len(),
        held[res_id] < usize::MAX,
    ensures
        ({
            let after_alloc = held.update(res_id, (held[res_id] + 1) as usize);
            after_alloc.update(res_id, (after_alloc[res_id] - 1) as usize) == held
        }),
{
    let after_alloc = held.update(res_id, (held[res_id] + 1) as usize);
    assert(after_alloc.update(res_id, (after_alloc[res_id] - 1) as usize) =~= held);
}

/// Growing the lists to a length twice is the same as growing them once,
/// and lists of equal length stay of equal length.
pub proof fn law_pad_idempotent(a: Seq<usize>, b: Seq<usize>, len: nat)
    ensures
        pad(pad(a, len), len) == pad(a, len),
        a.len() == b.len() ==> pad(a, len).len() == pad(b, len).len(),
        pad(a, len).len() >= len,
        forall|i: int| 0 <= i < a.len() ==> #[trigger] pad(a, len)[i] == a[i],
{
    assert(pad(pad(a, len), len) =~= pad(a, len));
}

} // verus!
