use rcore_os::config::BIG_STRIDE;
use rcore_os::task::manager::TaskManager as StrideQueue;
use rcore_os::task::{vpn_range, BankerType, RangeAction, RangePhase, TaskBanker, TaskControlBlock, TaskManager, TaskStatus};

#[test]
fn banker_lists_start_empty() {
    let b = TaskBanker::new();
    assert!(b.allocated_list.is_empty());
    assert!(b.need_list.is_empty());
}

#[test]
fn alloc_then_dealloc_restores_allocation() {
    let mut task = TaskControlBlock::new(7u32);
    let inner = task.inner_exclusive_access();
    inner.extend_list(3, BankerType::Mutex);
    assert_eq!(inner.get_allocated_list(BankerType::Mutex), &vec![0, 0, 0]);
    assert!(inner.get_allocated_list(BankerType::Sem).is_empty());
    inner.get_need_list(BankerType::Mutex)[1] = 4;
    inner.alloc_res(1, BankerType::Mutex);
    assert_eq!(inner.get_allocated_list(BankerType::Mutex), &vec![0, 1, 0]);
    assert_eq!(inner.get_need_list(BankerType::Mutex), &mut vec![0, 0, 0]);
    inner.dealloc_res(1, BankerType::Mutex);
    assert_eq!(inner.get_allocated_list(BankerType::Mutex), &vec![0, 0, 0]);
    assert!(inner.sem_banker.allocated_list.is_empty());
}

#[test]
fn extend_list_only_grows() {
    let mut task = TaskControlBlock::new(());
    let inner = task.inner_exclusive_access();
    inner.extend_list(2, BankerType::Sem);
    inner.alloc_res(0, BankerType::Sem);
    inner.extend_list(1, BankerType::Sem);
    assert_eq!(inner.sem_banker.allocated_list, vec![1, 0]);
    inner.extend_list(4, BankerType::Sem);
    inner.extend_list(4, BankerType::Sem);
    assert_eq!(inner.sem_banker.allocated_list, vec![1, 0, 0, 0]);
    assert_eq!(inner.sem_banker.need_list, vec![0, 0, 0, 0]);
}

#[test]
fn new_task_defaults() {
    let task = TaskControlBlock::new("t");
    assert_eq!(task.handle, "t");
    let inner = task.inner();
    assert!(inner.task_status == TaskStatus::Ready);
    assert_eq!(inner.exit_code, None);
    assert_eq!(inner.stride, 0);
    assert_eq!(inner.priority, 16);
    assert_eq!(inner.pass, BIG_STRIDE / 16);
}

fn stride_task(name: &'static str, stride: usize, priority: usize, status: TaskStatus) -> TaskControlBlock<&'static str> {
    let mut t = TaskControlBlock::new(name);
    let inner = t.inner_exclusive_access();
    inner.stride = stride;
    inner.priority = priority;
    inner.task_status = status;
    t
}

#[test]
fn fetch_takes_least_stride_first_among_equals() {
    let mut q = StrideQueue::new();
    q.add(stride_task("a", 30, 2, TaskStatus::Ready));
    q.add(stride_task("b", 10, 4, TaskStatus::Ready));
    q.add(stride_task("c", 5, 8, TaskStatus::Blocked));
    q.add(stride_task("d", 10, 8, TaskStatus::Ready));
    let t = q.fetch().unwrap();
    assert_eq!(t.handle, "b");
    assert_eq!(t.inner().pass, BIG_STRIDE / 4);
    assert_eq!(t.inner().stride, 10 + BIG_STRIDE / 4);
    let t = q.fetch().unwrap();
    assert_eq!(t.handle, "d");
    let t = q.fetch().unwrap();
    assert_eq!(t.handle, "a");
    assert_eq!(t.inner().stride, 30 + BIG_STRIDE / 2);
    // only a blocked task is left
    assert!(q.fetch().is_none());
}

#[test]
fn fetch_from_empty_queue() {
    let mut q: StrideQueue<u8> = StrideQueue::new();
    assert!(q.fetch().is_none());
    q.add(stride_task_u8(usize::MAX));
    assert!(q.fetch().is_none());
}

fn stride_task_u8(stride: usize) -> TaskControlBlock<u8> {
    let mut t = TaskControlBlock::new(0u8);
    t.inner_exclusive_access().stride = stride;
    t
}

#[test]
fn round_robin_order() {
    let mut m = TaskManager::new(3);
    m.run_first_task(5);
    assert_eq!(m.get_current_task(), 0);
    assert_eq!(m.find_next_task(), Some(1));
    m.mark_current_suspended();
    assert_eq!(m.run_next_task(9), Some((0, 1)));
    assert_eq!(m.get_current_task(), 1);
    m.mark_current_exited();
    assert_eq!(m.run_next_task(11), Some((1, 2)));
    m.mark_current_exited();
    // task 0 is the only ready one left
    assert_eq!(m.find_next_task(), Some(0));
    assert_eq!(m.run_next_task(12), Some((2, 0)));
    m.mark_current_exited();
    assert_eq!(m.find_next_task(), None);
    assert_eq!(m.run_next_task(13), None);
    assert_eq!(m.get_current_task(), 0);
}

#[test]
fn current_task_bookkeeping() {
    let mut m = TaskManager::new(2);
    m.run_first_task(1);
    m.add_syscall_times(64);
    m.add_syscall_times(64);
    m.add_syscall_times(410);
    let times = m.get_syscall_times();
    assert_eq!(times[64], 2);
    assert_eq!(times[410], 1);
    assert_eq!(times[93], 0);
    m.set_current_task_time(42);
    assert_eq!(m.get_current_task_time(), 42);
    m.write_running_status();
    m.mark_current_suspended();
    m.run_next_task(3);
    assert_eq!(m.get_current_task(), 1);
    assert_eq!(m.get_current_task_time(), 0);
    assert_eq!(m.get_syscall_times()[64], 0);
}

#[test]
fn page_range_of_addresses() {
    assert_eq!(vpn_range(0, 0), (0, 0));
    assert_eq!(vpn_range(4096, 4097), (1, 2));
    assert_eq!(vpn_range(4095, 8192), (0, 2));
    assert_eq!(vpn_range(0, usize::MAX), (0, usize::MAX / 4096 + 1));
}

#[test]
fn task_mmap_phases() {
    let perm = rcore_os::syscall::process::map_permission(3);
    let free = vec![None, Some(false)];
    assert_eq!(
        TaskManager::mmap(RangePhase::Check, 4096, 12288, perm, &free),
        RangeAction::MapRange { start: 4096, end: 12288, perm }
    );
    assert_eq!(TaskManager::mmap(RangePhase::Check, 4096, 12288, perm, &vec![None, Some(true)]), RangeAction::Finish(-1));
    assert_eq!(TaskManager::mmap(RangePhase::Mapped, 4096, 12288, perm, &vec![Some(true), Some(true)]), RangeAction::Finish(0));
    assert_eq!(TaskManager::mmap(RangePhase::Mapped, 4096, 12288, perm, &vec![Some(true), None]), RangeAction::Finish(-1));
    let mapped = vec![Some(true)];
    assert_eq!(TaskManager::munmap(RangePhase::Check, 0, 100, &mapped), RangeAction::UnmapRange { start: 0, end: 100 });
    assert_eq!(TaskManager::munmap(RangePhase::Check, 0, 100, &vec![Some(false)]), RangeAction::Finish(-1));
    assert_eq!(TaskManager::munmap(RangePhase::Unmapped(-1), 0, 100, &mapped), RangeAction::Finish(-1));
    assert_eq!(TaskManager::munmap(RangePhase::Unmapped(0), 0, 100, &mapped), RangeAction::Finish(0));
}

#[test]
fn elapsed_time_since_first_run() {
    let mut m = TaskManager::new(2);
    m.run_first_task(100);
    m.record_current_time(130);
    assert_eq!(m.get_current_task_time(), 30);
}
