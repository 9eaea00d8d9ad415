//! The task state of the whole system and the operations on it.

use vstd::prelude::*;

use super::process_table::ProcessTable;
use super::scheduler::{tick_effect, Scheduler, SchedulerView};
use super::slots::{first_free, first_free_index, first_key_index, first_with_key, has_key, occupied};
use super::thread_queue::{
    count_in_state, first_ready, first_ready_index, has_ready, is_ready, round_robin_choice,
    ThreadQueue,
};
use super::types::{Process, ProcessId, Thread, ThreadId, ThreadState, ThreadView};

verus! {

/// All processes and threads, the thread on the CPU and the scheduler.
pub struct TaskSystem {
    pub processes: ProcessTable,
    pub threads: ThreadQueue,
    pub current: Option<ThreadId>,
    pub scheduler: Scheduler,
}

impl TaskSystem {
    pub open spec fn wf(&self) -> bool {
        &&& self.processes.wf()
        &&& self.threads.wf()
        &&& self.scheduler.wf()
    }

    /// No process, no thread, no current thread, a disabled scheduler.
    pub fn new() -> (r: Self)
        ensures
            r.wf(),
            r.processes@ == Seq::<Option<Process>>::new(
                ProcessTable::MAX_PROCESSES as nat,
                |i: int| None,
            ),
            r.threads@ == Seq::<Option<Thread>>::new(ThreadQueue::MAX_THREADS as nat, |i: int| None),
            r.current is None,
            r.scheduler@ == Scheduler::new_view(),
    {
        TaskSystem {
            processes: ProcessTable::new(),
            threads: ThreadQueue::new(),
            current: None,
            scheduler: Scheduler::new(),
        }
    }
}

/// Puts `process` into the process table; `None` when the table is full.
pub fn add_process(sys: &mut TaskSystem, process: Process) -> (r: Option<ProcessId>)
    requires
        old(sys).wf(),
    ensures
        final(sys).wf(),
        final(sys).threads == old(sys).threads,
        final(sys).current == old(sys).current,
        final(sys).scheduler == old(sys).scheduler,
        r is Some <==> occupied(old(sys).processes@) < ProcessTable::MAX_PROCESSES,
        r is Some ==> r->0 == process@.id,
        r is Some ==> final(sys).processes@ == old(sys).processes@.update(
            first_free_index(old(sys).processes@),
            Some(process),
        ),
        r is None ==> final(sys).processes@ == old(sys).processes@,
{
    sys.processes.add(process)
}

/// Applies `f` to the process with id `id`; `None` when there is none.
pub fn with_process<F, R>(sys: &TaskSystem, id: ProcessId, f: F) -> (r: Option<R>) where
    F: FnOnce(&Process) -> R,
    requires
        forall|p: &Process| f.requires((p,)),
    ensures
        r is Some <==> has_key(sys.processes@, id@),
        r is Some ==> f.ensures(
            (&sys.processes@[first_key_index(sys.processes@, id@)]->0,),
            r->0,
        ),
{
    match sys.processes.get(id) {
        Some(p) => Some(f(p)),
        None => None,
    }
}

/// Applies `f` to the process with id `id`, which it may change; `None`
/// when there is none.
pub fn with_process_mut<F, R>(sys: &mut TaskSystem, id: ProcessId, f: F) -> (r: Option<R>) where
    F: FnOnce(&mut Process) -> R,
    requires
        old(sys).wf(),
        forall|p: &mut Process| f.requires((p,)),
    ensures
        final(sys).wf(),
        final(sys).threads == old(sys).threads,
        final(sys).current == old(sys).current,
        final(sys).scheduler == old(sys).scheduler,
        r is Some <==> has_key(old(sys).processes@, id@),
        r is None ==> final(sys).processes@ == old(sys).processes@,
        r is Some ==> ({
            let k = first_key_index(old(sys).processes@, id@);
            exists|p: &mut Process|
                *p == old(sys).processes@[k]->0 && #[trigger] f.ensures((p,), r->0)
                    && final(sys).processes@ == old(sys).processes@.update(k, Some(*final(p)))
        }),
{
    match sys.processes.get_mut(id) {
        Some(p) => {
            let ghost q = p;
            let out = f(p);
            proof {
                assert(exists|z: &mut Process| *z == *q && #[trigger] f.ensures((z,), out) && *final(z) == *final(q));
                let z = choose|z: &mut Process| *z == *q && #[trigger] f.ensures((z,), out) && *final(z) == *final(q);
                assert(f.ensures((z,), Some(out)->0));
            }
            Some(out)
        },
        None => None,
    }
}

/// Takes the process with id `id` out of the process table.
pub fn remove_process(sys: &mut TaskSystem, id: ProcessId) -> (r: Option<Process>)
    requires
        old(sys).wf(),
    ensures
        final(sys).wf(),
        final(sys).threads == old(sys).threads,
        final(sys).current == old(sys).current,
        final(sys).scheduler == old(sys).scheduler,
        r is Some <==> has_key(old(sys).processes@, id@),
        r is Some ==> old(sys).processes@[first_key_index(old(sys).processes@, id@)] == r,
        r is Some ==> final(sys).processes@ == old(sys).processes@.update(
            first_key_index(old(sys).processes@, id@),
            None,
        ),
        r is None ==> final(sys).processes@ == old(sys).processes@,
{
    sys.processes.remove(id)
}

/// Number of processes.
pub fn process_count(sys: &TaskSystem) -> (r: usize)
    requires
        sys.wf(),
    ensures
        r == occupied(sys.processes@),
{
    sys.processes.count()
}

/// Puts `thread` into the thread queue; `None` when the queue is full.
pub fn add_thread(sys: &mut TaskSystem, thread: Thread) -> (r: Option<ThreadId>)
    requires
        old(sys).wf(),
    ensures
        final(sys).wf(),
        final(sys).processes == old(sys).processes,
        final(sys).current == old(sys).current,
        final(sys).scheduler == old(sys).scheduler,
        r is Some <==> occupied(old(sys).threads@) < ThreadQueue::MAX_THREADS,
        r is Some ==> r->0 == thread@.id,
        r is Some ==> final(sys).threads@ == old(sys).threads@.update(
            first_free_index(old(sys).threads@),
            Some(thread),
        ),
        r is None ==> final(sys).threads@ == old(sys).threads@,
{
    sys.threads.push(thread)
}

/// Applies `f` to the thread with id `id`; `None` when there is none.
pub fn with_thread<F, R>(sys: &TaskSystem, id: ThreadId, f: F) -> (r: Option<R>) where
    F: FnOnce(&Thread) -> R,
    requires
        forall|t: &Thread| f.requires((t,)),
    ensures
        r is Some <==> has_key(sys.threads@, id@),
        r is Some ==> f.ensures((&sys.threads@[first_key_index(sys.threads@, id@)]->0,), r->0),
{
    match sys.threads.get(id) {
        Some(t) => Some(f(t)),
        None => None,
    }
}

/// Applies `f` to the thread with id `id`, which it may change; `None`
/// when there is none.
pub fn with_thread_mut<F, R>(sys: &mut TaskSystem, id: ThreadId, f: F) -> (r: Option<R>) where
    F: FnOnce(&mut Thread) -> R,
    requires
        old(sys).wf(),
        forall|t: &mut Thread| f.requires((t,)),
    ensures
        final(sys).wf(),
        final(sys).processes == old(sys).processes,
        final(sys).current == old(sys).current,
        final(sys).scheduler == old(sys).scheduler,
        r is Some <==> has_key(old(sys).threads@, id@),
        r is None ==> final(sys).threads@ == old(sys).threads@,
        r is Some ==> ({
            let k = first_key_index(old(sys).threads@, id@);
            exists|t: &mut Thread|
                *t == old(sys).threads@[k]->0 && #[trigger] f.ensures((t,), r->0)
                    && final(sys).threads@ == old(sys).threads@.update(k, Some(*final(t)))
        }),
{
    match sys.threads.get_mut(id) {
        Some(t) => {
            let ghost q = t;
            let out = f(t);
            proof {
                assert(exists|z: &mut Thread| *z == *q && #[trigger] f.ensures((z,), out) && *final(z) == *final(q));
                let z = choose|z: &mut Thread| *z == *q && #[trigger] f.ensures((z,), out) && *final(z) == *final(q);
                assert(f.ensures((z,), Some(out)->0));
            }
            Some(out)
        },
        None => None,
    }
}

/// Calls `f` on every process, in slot order.
pub fn for_each_process<F>(sys: &TaskSystem, f: F) where
    F: FnMut(&Process),
    requires
        forall|p: &Process| f.requires((p,)),
{
    let mut f = f;
    let all = sys.processes.iter();
    let mut i: usize = 0;
    while i < all.len()
        invariant
            i <= all@.len(),
            forall|p: &Process| f.requires((p,)),
        decreases all@.len() - i,
    {
        f(all[i]);
        i = i + 1;
    }
}

/// Calls `f` on every thread, in slot order.
pub fn for_each_thread<F>(sys: &TaskSystem, f: F) where
    F: FnMut(&Thread),
    requires
        forall|t: &Thread| f.requires((t,)),
{
    let mut f = f;
    let all = sys.threads.iter();
    let mut i: usize = 0;
    while i < all.len()
        invariant
            i <= all@.len(),
            forall|t: &Thread| f.requires((t,)),
        decreases all@.len() - i,
    {
        f(all[i]);
        i = i + 1;
    }
}

/// Takes the thread with id `id` out of the thread queue.
pub fn remove_thread(sys: &mut TaskSystem, id: ThreadId) -> (r: Option<Thread>)
    requires
        old(sys).wf(),
    ensures
        final(sys).wf(),
        final(sys).processes == old(sys).processes,
        final(sys).current == old(sys).current,
        final(sys).scheduler == old(sys).scheduler,
        r is Some <==> has_key(old(sys).threads@, id@),
        r is Some ==> old(sys).threads@[first_key_index(old(sys).threads@, id@)] == r,
        r is Some ==> final(sys).threads@ == old(sys).threads@.update(
            first_key_index(old(sys).threads@, id@),
            None,
        ),
        r is None ==> final(sys).threads@ == old(sys).threads@,
{
    sys.threads.remove(id)
}

/// Id of the first ready thread, in slot order.
pub fn peek_next_thread(sys: &TaskSystem) -> (r: Option<ThreadId>)
    ensures
        r is Some <==> has_ready(sys.threads@),
        r is Some ==> r->0 == sys.threads@[first_ready_index(sys.threads@)]->0@.id,
{
    match sys.threads.peek_next() {
        Some(t) => Some(t.id()),
        None => None,
    }
}

/// Number of threads in state `state`.
pub fn count_threads_by_state(sys: &TaskSystem, state: ThreadState) -> (r: usize)
    requires
        sys.wf(),
    ensures
        r == count_in_state(sys.threads@, state),
{
    sys.threads.count_by_state(state)
}

/// Number of threads.
pub fn thread_count(sys: &TaskSystem) -> (r: usize)
    requires
        sys.wf(),
    ensures
        r == occupied(sys.threads@),
{
    sys.threads.count()
}

/// The thread on the CPU.
pub fn current_thread_id(sys: &TaskSystem) -> (r: Option<ThreadId>)
    ensures
        r == sys.current,
{
    sys.current
}

/// Records which thread is on the CPU.
pub fn set_current_thread(sys: &mut TaskSystem, id: Option<ThreadId>)
    ensures
        *final(sys) == (TaskSystem { current: id, ..*old(sys) }),
{
    sys.current = id;
}

/// Enables the scheduler.
pub fn init_scheduler(sys: &mut TaskSystem)
    ensures
        final(sys).scheduler@ == (SchedulerView { enabled: true, ..old(sys).scheduler@ }),
        final(sys).processes == old(sys).processes,
        final(sys).threads == old(sys).threads,
        final(sys).current == old(sys).current,
{
    sys.scheduler.enable();
}

/// Enables the scheduler.
pub fn enable_scheduler(sys: &mut TaskSystem)
    ensures
        final(sys).scheduler@ == (SchedulerView { enabled: true, ..old(sys).scheduler@ }),
        final(sys).processes == old(sys).processes,
        final(sys).threads == old(sys).threads,
        final(sys).current == old(sys).current,
{
    sys.scheduler.enable();
}

/// Disables the scheduler.
pub fn disable_scheduler(sys: &mut TaskSystem)
    ensures
        final(sys).scheduler@ == (SchedulerView { enabled: false, ..old(sys).scheduler@ }),
        final(sys).processes == old(sys).processes,
        final(sys).threads == old(sys).threads,
        final(sys).current == old(sys).current,
{
    sys.scheduler.disable();
}

/// Whether the scheduler is enabled.
pub fn is_scheduler_enabled(sys: &TaskSystem) -> (r: bool)
    ensures
        r == sys.scheduler@.enabled,
{
    sys.scheduler.is_enabled()
}

/// One timer tick; `true` when the running thread's time slice is used up.
pub fn scheduler_tick(sys: &mut TaskSystem) -> (r: bool)
    requires
        old(sys).wf(),
    ensures
        final(sys).wf(),
        (final(sys).scheduler@, r) == tick_effect(old(sys).scheduler@),
        final(sys).processes == old(sys).processes,
        final(sys).threads == old(sys).threads,
        final(sys).current == old(sys).current,
{
    sys.scheduler.tick()
}

/// The threads after the first thread with id `id`, if there is one, is put
/// in state `state`.
pub open spec fn with_thread_state(s: Seq<Option<Thread>>, id: ThreadId, state: ThreadState) -> Seq<
    Option<Thread>,
> {
    if has_key(s, id@) {
        s.update(first_key_index(s, id@), Some(s[first_key_index(s, id@)]->0.with_state(state)))
    } else {
        s
    }
}

/// Puts the thread with id `id`, if there is one, in state `state`.
fn set_thread_state(sys: &mut TaskSystem, id: ThreadId, state: ThreadState)
    requires
        old(sys).wf(),
    ensures
        final(sys).wf(),
        final(sys).threads@ == with_thread_state(old(sys).threads@, id, state),
        final(sys).processes == old(sys).processes,
        final(sys).current == old(sys).current,
        final(sys).scheduler == old(sys).scheduler,
{
    if let Some(thread) = sys.threads.get_mut(id) {
        thread.set_state(state);
    }
}

/// The threads after the current thread, if it is running, goes back to
/// ready.
pub open spec fn demote_current(s: Seq<Option<Thread>>, current: Option<ThreadId>) -> Seq<
    Option<Thread>,
> {
    match current {
        Some(c) => if has_key(s, c@) && s[first_key_index(s, c@)]->0@.state
            == ThreadState::Running {
            s.update(
                first_key_index(s, c@),
                Some(s[first_key_index(s, c@)]->0.with_state(ThreadState::Ready)),
            )
        } else {
            s
        },
        None => s,
    }
}

/// What scheduling does to the threads, and the thread it picks: the
/// current thread, if running, goes back to ready; then the round-robin
/// choice after the current thread becomes running.
pub open spec fn schedule_effect(s: Seq<Option<Thread>>, current: Option<ThreadId>) -> (
    Seq<Option<Thread>>,
    Option<ThreadId>,
) {
    let mid = demote_current(s, current);
    match round_robin_choice(mid, current) {
        Some(i) => (
            mid.update(i, Some(mid[i]->0.with_state(ThreadState::Running))),
            Some(mid[i]->0@.id),
        ),
        None => (mid, None),
    }
}

/// Picks the next thread to run, round robin: the current thread, if
/// running, goes back to ready; the nearest ready thread after it becomes
/// running, the time slice starts again and its id is returned. `None` when
/// no thread is ready. The current thread is not changed here.
pub fn schedule(sys: &mut TaskSystem) -> (r: Option<ThreadId>)
    requires
        old(sys).wf(),
    ensures
        final(sys).wf(),
        (final(sys).threads@, r) == schedule_effect(old(sys).threads@, old(sys).current),
        final(sys).processes == old(sys).processes,
        final(sys).current == old(sys).current,
        r is Some ==> final(sys).scheduler@ == (SchedulerView {
            current_slice: 0,
            ..old(sys).scheduler@
        }),
        r is None ==> final(sys).scheduler == old(sys).scheduler,
{
    broadcast use super::types::lemma_with_state_view;

    let ghost s0 = sys.threads@;
    let current = sys.current;
    if let Some(current_id) = current {
        if let Some(thread) = sys.threads.get_mut(current_id) {
            if thread.state() == ThreadState::Running {
                thread.set_state(ThreadState::Ready);
            }
        }
    }
    proof {
        assert(sys.threads@ =~= demote_current(s0, current));
    }
    let ghost mid = sys.threads@;
    if let Some(next_thread) = sys.threads.peek_next_after(current) {
        let next_id = next_thread.id();
        next_thread.set_state(ThreadState::Running);
        sys.scheduler.reset_slice();
        proof {
            assert(sys.threads@ =~= schedule_effect(s0, current).0);
        }
        Some(next_id)
    } else {
        None
    }
}

/// A switch from the thread on the CPU (`None`: no thread to save) to
/// another one, for the caller to carry out.
#[derive(Debug, Clone, Copy, PartialEq, Eq)]
pub struct ContextSwitch {
    pub from: Option<ThreadId>,
    pub to: ThreadId,
}

/// What giving up the CPU does: nothing while the scheduler is disabled;
/// otherwise [`schedule`]; when it picks a thread other than the current
/// one, that thread becomes current and a switch to it is due.
pub open spec fn yield_effect(
    enabled: bool,
    threads: Seq<Option<Thread>>,
    current: Option<ThreadId>,
) -> (Seq<Option<Thread>>, Option<ThreadId>, Option<ContextSwitch>) {
    if !enabled {
        (threads, current, None)
    } else {
        let (t, next) = schedule_effect(threads, current);
        match next {
            Some(n) => if Some(n) == current {
                (t, current, None)
            } else {
                (t, Some(n), Some(ContextSwitch { from: current, to: n }))
            },
            None => (t, current, None),
        }
    }
}

/// Gives up the CPU: schedules (while the scheduler is enabled) and returns
/// the switch to the chosen thread, which is now current, when it is not the
/// current thread already. The caller performs the switch.
pub fn yield_now(sys: &mut TaskSystem) -> (r: Option<ContextSwitch>)
    requires
        old(sys).wf(),
    ensures
        final(sys).wf(),
        (final(sys).threads@, final(sys).current, r) == yield_effect(
            old(sys).scheduler@.enabled,
            old(sys).threads@,
            old(sys).current,
        ),
        final(sys).processes == old(sys).processes,
        final(sys).scheduler@.enabled == old(sys).scheduler@.enabled,
        final(sys).scheduler@.time_slice == old(sys).scheduler@.time_slice,
{
    if !sys.scheduler.is_enabled() {
        return None;
    }
    if let Some(next_id) = schedule(sys) {
        let current = sys.current;
        let same = match current {
            Some(c) => c == next_id,
            None => false,
        };
        if !same {
            sys.current = Some(next_id);
            return Some(ContextSwitch { from: current, to: next_id });
        }
    }
    None
}

/// Called on the timer interrupt once the time slice is used up: the same
/// as [`yield_now`].
pub fn schedule_and_switch(sys: &mut TaskSystem) -> (r: Option<ContextSwitch>)
    requires
        old(sys).wf(),
    ensures
        final(sys).wf(),
        (final(sys).threads@, final(sys).current, r) == yield_effect(
            old(sys).scheduler@.enabled,
            old(sys).threads@,
            old(sys).current,
        ),
        final(sys).processes == old(sys).processes,
        final(sys).scheduler@.enabled == old(sys).scheduler@.enabled,
        final(sys).scheduler@.time_slice == old(sys).scheduler@.time_slice,
{
    yield_now(sys)
}

/// Blocks the current thread, if there is one, and gives up the CPU.
pub fn block_current_thread(sys: &mut TaskSystem) -> (r: Option<ContextSwitch>)
    requires
        old(sys).wf(),
    ensures
        final(sys).wf(),
        final(sys).processes == old(sys).processes,
        old(sys).current is None ==> *final(sys) == *old(sys) && r is None,
        old(sys).current is Some ==> (final(sys).threads@, final(sys).current, r)
            == yield_effect(
            old(sys).scheduler@.enabled,
            with_thread_state(old(sys).threads@, old(sys).current->0, ThreadState::Blocked),
            old(sys).current,
        ),
{
    if let Some(current_id) = sys.current {
        set_thread_state(sys, current_id, ThreadState::Blocked);
        yield_now(sys)
    } else {
        None
    }
}

/// Puts the thread with id `id`, if there is one, to sleep.
pub fn sleep_thread(sys: &mut TaskSystem, id: ThreadId)
    requires
        old(sys).wf(),
    ensures
        final(sys).wf(),
        final(sys).threads@ == with_thread_state(old(sys).threads@, id, ThreadState::Sleeping),
        final(sys).processes == old(sys).processes,
        final(sys).current == old(sys).current,
        final(sys).scheduler == old(sys).scheduler,
{
    set_thread_state(sys, id, ThreadState::Sleeping);
}

/// Makes the thread with id `id` ready when it is sleeping or blocked; any
/// other thread is left as it is.
pub fn wake_thread(sys: &mut TaskSystem, id: ThreadId)
    requires
        old(sys).wf(),
    ensures
        final(sys).wf(),
        ({
            let s = old(sys).threads@;
            let waking = has_key(s, id@) && (s[first_key_index(s, id@)]->0@.state
                == ThreadState::Sleeping || s[first_key_index(s, id@)]->0@.state
                == ThreadState::Blocked);
            final(sys).threads@ == if waking {
                with_thread_state(s, id, ThreadState::Ready)
            } else {
                s
            }
        }),
        final(sys).processes == old(sys).processes,
        final(sys).current == old(sys).current,
        final(sys).scheduler == old(sys).scheduler,
{
    broadcast use super::types::lemma_with_state_view;

    let ghost s0 = sys.threads@;
    if let Some(thread) = sys.threads.get_mut(id) {
        let state = thread.state();
        if state == ThreadState::Sleeping || state == ThreadState::Blocked {
            thread.set_state(ThreadState::Ready);
        }
    }
    proof {
        if has_key(s0, id@) {
            let k = first_key_index(s0, id@);
            let st = s0[k]->0@.state;
            if !(st == ThreadState::Sleeping || st == ThreadState::Blocked) {
                assert(sys.threads@ =~= s0);
            }
        }
    }
}

/// The threads with the first thread of id `id` taken out.
pub open spec fn without_key(s: Seq<Option<Thread>>, id: ThreadId) -> Seq<Option<Thread>> {
    if has_key(s, id@) {
        s.update(first_key_index(s, id@), None)
    } else {
        s
    }
}

/// Terminates the thread with id `id`: it is marked terminated and leaves
/// the queue. When it is the current thread, there is no current thread any
/// more and the CPU is given up; a switch that this yields is returned, to
/// be made once the thread is gone (the switch does not come back).
pub fn terminate_thread(sys: &mut TaskSystem, id: ThreadId) -> (r: Option<ContextSwitch>)
    requires
        old(sys).wf(),
    ensures
        final(sys).wf(),
        final(sys).processes == old(sys).processes,
        ({
            let t = with_thread_state(old(sys).threads@, id, ThreadState::Terminated);
            if old(sys).current == Some(id) {
                let (t2, c2, sw) = yield_effect(old(sys).scheduler@.enabled, t, None);
                &&& r == sw
                &&& final(sys).current == c2
                &&& final(sys).threads@ == without_key(t2, id)
            } else {
                &&& r is None
                &&& final(sys).current == old(sys).current
                &&& final(sys).scheduler == old(sys).scheduler
                &&& final(sys).threads@ == without_key(t, id)
            }
        }),
{
    set_thread_state(sys, id, ThreadState::Terminated);
    let is_current = match sys.current {
        Some(c) => c == id,
        None => false,
    };
    let mut sw: Option<ContextSwitch> = None;
    if is_current {
        sys.current = None;
        sw = yield_now(sys);
    }
    let _ = sys.threads.remove(id);
    sw
}

/// Readies the first thread to run: the first ready thread, in slot order,
/// becomes current and running; its id is returned for the caller to jump
/// to. `None`, changing nothing, when no thread is ready.
pub fn start_scheduling(sys: &mut TaskSystem) -> (r: Option<ThreadId>)
    requires
        old(sys).wf(),
    ensures
        final(sys).wf(),
        final(sys).processes == old(sys).processes,
        final(sys).scheduler == old(sys).scheduler,
        r is Some <==> has_ready(old(sys).threads@),
        r is None ==> *final(sys) == *old(sys),
        r is Some ==> {
            let id = old(sys).threads@[first_ready_index(old(sys).threads@)]->0@.id;
            &&& r->0 == id
            &&& final(sys).current == Some(id)
            &&& final(sys).threads@ == with_thread_state(old(sys).threads@, id, ThreadState::Running)
        },
{
    match peek_next_thread(sys) {
        Some(first_id) => {
            sys.current = Some(first_id);
            set_thread_state(sys, first_id, ThreadState::Running);
            Some(first_id)
        },
        None => None,
    }
}

} // verus!
