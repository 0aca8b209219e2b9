//! The stride scheduler's ready queue.

use vstd::prelude::*;
use crate::config::BIG_STRIDE;
use crate::task::task::{TaskControlBlock, TaskControlBlockInner, TaskStatus};

verus! {

/// Task `task` is ready and its stride is below the largest `usize`.
pub open spec fn is_candidate<T>(task: TaskControlBlock<T>) -> bool {
    &&& task.inner_state().task_status == TaskStatus::Ready
    &&& task.inner_state().stride < usize::MAX
}

/// `index` is the task the scheduler picks: a ready task of least stride,
/// the first one among equals.
pub open spec fn fetch_choice<T>(queue: Seq<TaskControlBlock<T>>, index: int) -> bool {
    &&& 0 <= index < queue.len()
    &&& is_candidate(queue[index])
    &&& forall|j: int|
        0 <= j < queue.len() && (#[trigger] queue[j]).inner_state().task_status == TaskStatus::Ready
            ==> queue[j].inner_state().stride >= queue[index].inner_state().stride
    &&& forall|j: int|
        0 <= j < index && (#[trigger] queue[j]).inner_state().task_status == TaskStatus::Ready
            ==> queue[j].inner_state().stride > queue[index].inner_state().stride
}

/// The task after being scheduled: its step is `BIG_STRIDE / priority` and
/// its stride advances by that step.
pub open spec fn advanced(inner: TaskControlBlockInner) -> TaskControlBlockInner {
    TaskControlBlockInner {
        pass: BIG_STRIDE / inner.priority,
        stride: (inner.stride + BIG_STRIDE / inner.priority) as usize,
        ..inner
    }
}

/// Scheduling a task changes only its step and its stride: the step
/// becomes `BIG_STRIDE / priority`, the stride advances by that step, and
/// its priority, status, exit code and banker lists are as they were.
pub proof fn law_advance_keeps_priority(inner: TaskControlBlockInner)
    requires
        inner.priority > 0,
    ensures
        advanced(inner).priority == inner.priority,
        advanced(inner).task_status == inner.task_status,
        advanced(inner).exit_code == inner.exit_code,
        advanced(inner).mutex_tracker == inner.mutex_tracker,
        advanced(inner).sem_banker == inner.sem_banker,
        advanced(inner).pass * inner.priority <= BIG_STRIDE < (advanced(inner).pass + 1) * inner.priority,
        inner.stride + BIG_STRIDE / inner.priority <= usize::MAX ==> advanced(inner).stride == inner.stride + advanced(inner).pass,
{
    let p = inner.priority as int;
    let q = BIG_STRIDE as int / p;
    assert(q * p <= BIG_STRIDE < (q + 1) * p) by (nonlinear_arith)
        requires
            p > 0,
            q == BIG_STRIDE as int / p,
    {
        vstd::arithmetic::div_mod::lemma_fundamental_div_mod(BIG_STRIDE as int, p);
    }
}

/// The scheduler's pick is a ready task whose stride no ready task beats,
/// and no earlier task with the same stride could have been picked: among
/// tasks of equal least stride, the one nearest the front is taken. There
/// is exactly one pick whenever some task is a candidate.
pub proof fn law_fetch_choice_first_of_least<T>(queue: Seq<TaskControlBlock<T>>, i: int, j: int)
    requires
        fetch_choice(queue, i),
        0 <= j < queue.len(),
        is_candidate(queue[j]),
    ensures
        queue[i].inner_state().stride <= queue[j].inner_state().stride,
        queue[j].inner_state().stride == queue[i].inner_state().stride ==> i <= j,
        fetch_choice(queue, j) ==> i == j,
{
    assert(queue[j].inner_state().task_status == TaskStatus::Ready);
}

/// A stride scheduler over a queue of tasks.
pub struct TaskManager<T> {
    ready_queue: std::collections::VecDeque<TaskControlBlock<T>>,
}

impl<T> TaskManager<T> {
    /// The tasks in the queue, front first.
    pub closed spec fn queue(&self) -> Seq<TaskControlBlock<T>> {
        self.ready_queue@
    }

    /// An empty queue.
    pub fn new() -> (res: Self)
        ensures
            res.queue() == Seq::<TaskControlBlock<T>>::empty(),
    {
        Self { ready_queue: std::collections::VecDeque::new() }
    }

    /// Puts a task at the back of the queue.
    pub fn add(&mut self, task: TaskControlBlock<T>)
        ensures
            final(self).queue() == old(self).queue().push(task),
    {
        self.ready_queue.push_back(task);
    }

    /// Takes out the ready task of least stride (the first among equals),
    /// advancing its stride by `BIG_STRIDE / priority`; `None`, with the
    /// queue unchanged, when no task is ready with a stride below the
    /// largest `usize`.
    pub fn fetch(&mut self) -> (res: Option<TaskControlBlock<T>>)
        requires
            forall|i: int| #[trigger] fetch_choice(old(self).queue(), i) ==> {
                &&& old(self).queue()[i].inner_state().priority > 0
                &&& old(self).queue()[i].inner_state().stride + BIG_STRIDE / old(self).queue()[i].inner_state().priority <= usize::MAX
            },
        ensures
            res is None <==> forall|i: int| 0 <= i < old(self).queue().len() ==> !is_candidate(#[trigger] old(self).queue()[i]),
            res is None ==> final(self).queue() == old(self).queue(),
            res matches Some(task) ==> exists|i: int| {
                &&& #[trigger] fetch_choice(old(self).queue(), i)
                &&& final(self).queue() == old(self).queue().remove(i)
                &&& task.handle_state() == old(self).queue()[i].handle_state()
                &&& task.inner_state() == advanced(old(self).queue()[i].inner_state())
            },
    {
        let ghost q = self.ready_queue@;
        let mut index: usize = 0;
        let mut min_stride: usize = usize::MAX;
        let n = self.ready_queue.len();
        for i in 0..n
            invariant
                n == q.len(),
                self.ready_queue@ == q,
                min_stride == usize::MAX ==> forall|j: int| 0 <= j < i ==> !is_candidate(#[trigger] q[j]),
                min_stride < usize::MAX ==> {
                    &&& index < i
                    &&& q[index as int].inner_state().stride == min_stride
                    &&& is_candidate(q[index as int])
                    &&& forall|j: int|
                        0 <= j < i && (#[trigger] q[j]).inner_state().task_status == TaskStatus::Ready
                            ==> q[j].inner_state().stride >= min_stride
                    &&& forall|j: int|
                        0 <= j < index && (#[trigger] q[j]).inner_state().task_status == TaskStatus::Ready
                            ==> q[j].inner_state().stride > min_stride
                },
        {
            let inner = self.ready_queue[i].inner();
            let stride = inner.stride;
            if inner.task_status == TaskStatus::Ready {
                if stride < min_stride {
                    min_stride = stride;
                    index = i;
                }
            }
        }
        if min_stride == usize::MAX {
            return None;
        }
        assert(fetch_choice(q, index as int));
        assert(fetch_choice(old(self).queue(), index as int));
        assert(q[index as int].inner_state().priority > 0);
        let removed = self.ready_queue.remove(index);
        match removed {
            Some(mut task) => {
                let inner = task.inner_exclusive_access();
                let pass = BIG_STRIDE / inner.priority;
                inner.pass = pass;
                inner.stride = inner.stride + pass;
                assert(task.inner_state() == advanced(q[index as int].inner_state()));
                Some(task)
            },
            None => None,
        }
    }
}

} // verus!
