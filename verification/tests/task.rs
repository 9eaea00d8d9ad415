use swiftcore::task::process_table::ProcessTable;
use swiftcore::task::scheduler::Scheduler;
use swiftcore::task::system::{
    add_process, add_thread, block_current_thread, count_threads_by_state, current_thread_id,
    disable_scheduler, enable_scheduler, is_scheduler_enabled, peek_next_thread, process_count,
    remove_process, remove_thread, schedule, scheduler_tick, set_current_thread, sleep_thread,
    terminate_thread, thread_count, wake_thread, with_process, with_thread, yield_now, TaskSystem,
};
use swiftcore::task::thread_queue::ThreadQueue;
use swiftcore::task::types::{
    PrivilegeLevel, Process, ProcessId, ProcessState, Thread, ThreadId, ThreadState, INITIAL_RFLAGS,
};
use swiftcore::task::system::{
    for_each_process, for_each_thread, start_scheduling, with_process_mut, with_thread_mut,
};

fn thread(pid: ProcessId, next: &mut u64) -> Thread {
    Thread::new(pid, "t", 0x1000, 0x8000, 0x1000, next)
}

fn system_with_threads(n: usize) -> (TaskSystem, Vec<ThreadId>) {
    let mut sys = TaskSystem::new();
    let mut next_pid = 1u64;
    let mut next_tid = 1u64;
    let p = Process::new("init", PrivilegeLevel::Core, None, 0, &mut next_pid);
    let pid = add_process(&mut sys, p).unwrap();
    let mut ids = Vec::new();
    for _ in 0..n {
        ids.push(add_thread(&mut sys, thread(pid, &mut next_tid)).unwrap());
    }
    (sys, ids)
}

fn state_of(sys: &TaskSystem, id: ThreadId) -> Option<ThreadState> {
    with_thread(sys, id, |t: &Thread| t.state())
}

#[test]
fn ids_come_from_a_counter() {
    let mut next = 1u64;
    assert_eq!(ProcessId::new(&mut next).as_u64(), 1);
    assert_eq!(ProcessId::new(&mut next).as_u64(), 2);
    assert_eq!(next, 3);
    let mut top = u64::MAX;
    assert_eq!(ThreadId::new(&mut top).as_u64(), u64::MAX);
    assert_eq!(top, 0);
    assert_eq!(ThreadId::from_u64(9).as_u64(), 9);
}

#[test]
fn new_thread_context_points_below_stack_top() {
    let mut next = 5u64;
    let t = Thread::new(ProcessId::from_u64(1), "worker", 0xdead, 0x10000, 0x4000, &mut next);
    assert_eq!(t.id().as_u64(), 5);
    assert_eq!(t.state(), ThreadState::Ready);
    assert_eq!(t.name(), "worker");
    assert_eq!(t.process_id().as_u64(), 1);
    let c = t.context();
    assert_eq!(c.rsp, 0x14000 - 16);
    assert_eq!(c.rbp, 0x14000);
    assert_eq!(c.rip, 0xdead);
    assert_eq!(c.rflags, INITIAL_RFLAGS);
    assert_eq!(c.rbx, 0);
    assert_eq!(c.r15, 0);
}

#[test]
fn new_process_fields() {
    let mut next = 1u64;
    let mut p = Process::new("svc", PrivilegeLevel::Service, Some(ProcessId::from_u64(1)), 3, &mut next);
    assert_eq!(p.id().as_u64(), 1);
    assert_eq!(p.name(), "svc");
    assert_eq!(p.state(), ProcessState::Running);
    assert_eq!(p.privilege(), PrivilegeLevel::Service);
    assert_eq!(p.parent_id(), Some(ProcessId::from_u64(1)));
    assert_eq!(p.priority(), 3);
    assert_eq!(p.page_table(), None);
    p.set_page_table(0x5000);
    assert_eq!(p.page_table(), Some(0x5000));
    p.set_state(ProcessState::Zombie);
    assert_eq!(p.state(), ProcessState::Zombie);
}

#[test]
fn process_table_add_get_remove() {
    let mut table = ProcessTable::new();
    let mut next = 1u64;
    assert!(table.is_empty());
    let a = table.add(Process::new("a", PrivilegeLevel::User, None, 0, &mut next)).unwrap();
    let b = table.add(Process::new("b", PrivilegeLevel::User, None, 0, &mut next)).unwrap();
    assert_eq!(table.count(), 2);
    assert_eq!(table.get(b).unwrap().name(), "b");
    assert_eq!(table.remove(a).unwrap().name(), "a");
    assert!(table.get(a).is_none());
    assert!(table.remove(a).is_none());
    assert_eq!(table.iter().len(), 1);
    assert!(!table.is_full());
}

#[test]
fn process_table_fills_up() {
    let mut table = ProcessTable::new();
    let mut next = 1u64;
    for _ in 0..ProcessTable::MAX_PROCESSES {
        assert!(table.add(Process::new("p", PrivilegeLevel::User, None, 0, &mut next)).is_some());
    }
    assert!(table.is_full());
    assert!(table.add(Process::new("p", PrivilegeLevel::User, None, 0, &mut next)).is_none());
}

#[test]
fn thread_queue_round_robin() {
    let mut q = ThreadQueue::new();
    let mut next = 1u64;
    let pid = ProcessId::from_u64(1);
    let a = q.push(thread(pid, &mut next)).unwrap();
    let b = q.push(thread(pid, &mut next)).unwrap();
    let c = q.push(thread(pid, &mut next)).unwrap();
    assert_eq!(q.peek_next().unwrap().id(), a);
    assert_eq!(q.peek_next_after(Some(a)).unwrap().id(), b);
    assert_eq!(q.peek_next_after(Some(c)).unwrap().id(), a);
    assert_eq!(q.peek_next_after(None).unwrap().id(), a);
    q.get_mut(b).unwrap().set_state(ThreadState::Blocked);
    assert_eq!(q.peek_next_after(Some(a)).unwrap().id(), c);
    assert_eq!(q.count_by_state(ThreadState::Ready), 2);
    assert_eq!(q.count_by_state(ThreadState::Blocked), 1);
    assert_eq!(q.iter_by_process(pid).len(), 3);
    assert_eq!(q.iter_by_process(ProcessId::from_u64(2)).len(), 0);
    assert_eq!(q.remove(b).unwrap().id(), b);
    assert_eq!(q.count(), 2);
    assert!(!q.is_empty());
}

#[test]
fn scheduler_time_slice() {
    let mut s = Scheduler::new();
    assert!(!s.is_enabled());
    assert!(!s.tick());
    s.enable();
    s.set_time_slice(3);
    assert!(!s.tick());
    assert!(!s.tick());
    assert!(s.tick());
    assert!(!s.tick());
    s.reset_slice();
    assert!(!s.tick());
    assert!(!s.tick());
    assert!(s.tick());
}

#[test]
fn default_slice_is_ten_ticks() {
    let (mut sys, _) = system_with_threads(1);
    enable_scheduler(&mut sys);
    assert!(is_scheduler_enabled(&sys));
    for _ in 0..9 {
        assert!(!scheduler_tick(&mut sys));
    }
    assert!(scheduler_tick(&mut sys));
    disable_scheduler(&mut sys);
    assert!(!scheduler_tick(&mut sys));
}

#[test]
fn schedule_round_robin_over_ready_threads() {
    let (mut sys, ids) = system_with_threads(3);
    assert_eq!(peek_next_thread(&sys), Some(ids[0]));
    let first = schedule(&mut sys).unwrap();
    assert_eq!(first, ids[0]);
    assert_eq!(state_of(&sys, ids[0]), Some(ThreadState::Running));
    set_current_thread(&mut sys, Some(first));
    let second = schedule(&mut sys).unwrap();
    assert_eq!(second, ids[1]);
    assert_eq!(state_of(&sys, ids[0]), Some(ThreadState::Ready));
    assert_eq!(count_threads_by_state(&sys, ThreadState::Running), 1);
}

#[test]
fn yield_switches_only_when_enabled() {
    let (mut sys, ids) = system_with_threads(2);
    assert_eq!(yield_now(&mut sys), None);
    assert_eq!(current_thread_id(&sys), None);
    enable_scheduler(&mut sys);
    let sw = yield_now(&mut sys).unwrap();
    assert_eq!(sw.from, None);
    assert_eq!(sw.to, ids[0]);
    assert_eq!(current_thread_id(&sys), Some(ids[0]));
    let sw = yield_now(&mut sys).unwrap();
    assert_eq!(sw.from, Some(ids[0]));
    assert_eq!(sw.to, ids[1]);
}

#[test]
fn yield_with_a_single_thread_stays() {
    let (mut sys, ids) = system_with_threads(1);
    enable_scheduler(&mut sys);
    assert_eq!(yield_now(&mut sys).unwrap().to, ids[0]);
    assert_eq!(yield_now(&mut sys), None);
    assert_eq!(current_thread_id(&sys), Some(ids[0]));
}

#[test]
fn sleep_then_wake() {
    let (mut sys, ids) = system_with_threads(2);
    sleep_thread(&mut sys, ids[1]);
    assert_eq!(state_of(&sys, ids[1]), Some(ThreadState::Sleeping));
    wake_thread(&mut sys, ids[1]);
    assert_eq!(state_of(&sys, ids[1]), Some(ThreadState::Ready));
    // waking a ready or running thread changes nothing
    schedule(&mut sys);
    wake_thread(&mut sys, ids[0]);
    assert_eq!(state_of(&sys, ids[0]), Some(ThreadState::Running));
    wake_thread(&mut sys, ThreadId::from_u64(999));
    assert_eq!(thread_count(&sys), 2);
}

#[test]
fn block_current_and_switch() {
    let (mut sys, ids) = system_with_threads(2);
    enable_scheduler(&mut sys);
    yield_now(&mut sys);
    let sw = block_current_thread(&mut sys).unwrap();
    assert_eq!(sw.from, Some(ids[0]));
    assert_eq!(sw.to, ids[1]);
    assert_eq!(state_of(&sys, ids[0]), Some(ThreadState::Blocked));
    let mut empty = TaskSystem::new();
    assert_eq!(block_current_thread(&mut empty), None);
}

#[test]
fn terminate_other_thread_removes_it() {
    let (mut sys, ids) = system_with_threads(2);
    assert_eq!(terminate_thread(&mut sys, ids[1]), None);
    assert_eq!(state_of(&sys, ids[1]), None);
    assert_eq!(thread_count(&sys), 1);
}

#[test]
fn terminate_current_thread_switches_away() {
    let (mut sys, ids) = system_with_threads(2);
    enable_scheduler(&mut sys);
    yield_now(&mut sys);
    let sw = terminate_thread(&mut sys, ids[0]).unwrap();
    assert_eq!(sw.from, None);
    assert_eq!(sw.to, ids[1]);
    assert_eq!(state_of(&sys, ids[0]), None);
    assert_eq!(thread_count(&sys), 1);
    assert_eq!(current_thread_id(&sys), Some(ids[1]));
    // a terminated thread is never chosen again
    for _ in 0..4 {
        assert_ne!(schedule(&mut sys), Some(ids[0]));
    }
}

#[test]
fn processes_in_the_system() {
    let (mut sys, _) = system_with_threads(0);
    assert_eq!(process_count(&sys), 1);
    let mut next = 10u64;
    let pid = add_process(&mut sys, Process::new("x", PrivilegeLevel::User, None, 1, &mut next)).unwrap();
    assert_eq!(pid.as_u64(), 10);
    assert_eq!(with_process(&sys, pid, |p: &Process| p.priority()), Some(1));
    assert!(remove_process(&mut sys, pid).is_some());
    assert_eq!(with_process(&sys, pid, |p: &Process| p.priority()), None);
    assert_eq!(process_count(&sys), 1);
    assert!(remove_thread(&mut sys, ThreadId::from_u64(1)).is_none());
}

#[test]
fn mutating_records_in_place() {
    let (mut sys, ids) = system_with_threads(2);
    let pid = ProcessId::from_u64(1);
    assert_eq!(with_process_mut(&mut sys, pid, |p: &mut Process| { p.set_state(ProcessState::Sleeping); 5 }), Some(5));
    assert_eq!(with_process(&sys, pid, |p: &Process| p.state()), Some(ProcessState::Sleeping));
    assert_eq!(with_process_mut(&mut sys, ProcessId::from_u64(9), |_p: &mut Process| 0), None);
    with_thread_mut(&mut sys, ids[1], |t: &mut Thread| t.set_state(ThreadState::Blocked));
    assert_eq!(state_of(&sys, ids[1]), Some(ThreadState::Blocked));
    assert_eq!(with_thread_mut(&mut sys, ThreadId::from_u64(77), |_t: &mut Thread| 1), None);
    let mut names = Vec::new();
    for_each_process(&sys, |p: &Process| names.push(p.name()));
    assert_eq!(names, vec!["init"]);
    let mut seen = Vec::new();
    for_each_thread(&sys, |t: &Thread| seen.push(t.id()));
    assert_eq!(seen, ids);
}

#[test]
fn scheduling_starts_with_the_first_ready_thread() {
    let (mut sys, ids) = system_with_threads(3);
    sleep_thread(&mut sys, ids[0]);
    assert_eq!(start_scheduling(&mut sys), Some(ids[1]));
    assert_eq!(current_thread_id(&sys), Some(ids[1]));
    assert_eq!(state_of(&sys, ids[1]), Some(ThreadState::Running));
    let mut empty = TaskSystem::new();
    assert_eq!(start_scheduling(&mut empty), None);
    assert_eq!(current_thread_id(&empty), None);
}

#[test]
fn state_counts_add_up_to_the_thread_count() {
    let (mut sys, ids) = system_with_threads(4);
    enable_scheduler(&mut sys);
    yield_now(&mut sys);
    sleep_thread(&mut sys, ids[1]);
    let states = [
        ThreadState::Ready,
        ThreadState::Running,
        ThreadState::Blocked,
        ThreadState::Sleeping,
        ThreadState::Terminated,
    ];
    let total: usize = states.iter().map(|s| count_threads_by_state(&sys, *s)).sum();
    assert_eq!(total, thread_count(&sys));
    assert_eq!(count_threads_by_state(&sys, ThreadState::Running), 1);
    assert_eq!(count_threads_by_state(&sys, ThreadState::Sleeping), 1);
}

#[test]
fn drawn_ids_grow() {
    let mut next = 1u64;
    let a = ProcessId::new(&mut next);
    let b = ProcessId::new(&mut next);
    assert!(b.as_u64() > a.as_u64());
    assert!(a.as_u64() >= 1);
}
