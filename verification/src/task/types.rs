//! Identifiers, states and the process and thread records.

use vstd::prelude::*;

use super::slots::Keyed;

verus! {

/// Identifier of a process. Each one is drawn from a counter that starts at 1.
#[derive(Debug, Clone, Copy, PartialEq, Eq, Structural, Hash)]
pub struct ProcessId(u64);

impl View for ProcessId {
    type V = u64;

    closed spec fn view(&self) -> u64 {
        self.0
    }
}

/// The counter after `k` identifiers were drawn from it, each draw moving
/// it on by one as [`ProcessId::new`] and [`ThreadId::new`] do.
pub open spec fn counter_after(c: u64, k: nat) -> u64
    decreases k,
{
    if k == 0 {
        c
    } else {
        counter_after(c, (k - 1) as nat).wrapping_add(1)
    }
}

/// Draw `i` from a counter that starts at `c` gives `c + i` while that
/// fits, so identifiers drawn one after another only grow and no two are
/// alike.
pub proof fn law_drawn_ids_grow(c: u64, i: nat, j: nat)
    requires
        i < j,
        c + j <= u64::MAX,
    ensures
        counter_after(c, i) == c + i,
        counter_after(c, j) == c + j,
        counter_after(c, i) < counter_after(c, j),
{
    lemma_counter_after(c, i);
    lemma_counter_after(c, j);
}

proof fn lemma_counter_after(c: u64, k: nat)
    requires
        c + k <= u64::MAX,
    ensures
        counter_after(c, k) == c + k,
    decreases k,
{
    if k > 0 {
        lemma_counter_after(c, (k - 1) as nat);
    }
}

impl ProcessId {
    /// Draws the next identifier from `next_id`, which then moves on by one
    /// (wrapping at `u64::MAX`, as an atomic fetch-and-add does).
    pub fn new(next_id: &mut u64) -> (r: Self)
        ensures
            r@ == *old(next_id),
            *final(next_id) == old(next_id).wrapping_add(1),
    {
        let v = *next_id;
        *next_id = v.wrapping_add(1);
        ProcessId(v)
    }

    /// The identifier with the given number.
    pub fn from_u64(v: u64) -> (r: Self)
        ensures
            r@ == v,
    {
        ProcessId(v)
    }

    pub fn as_u64(&self) -> (r: u64)
        ensures
            r == self@,
    {
        self.0
    }
}

/// Identifier of a thread. Each one is drawn from a counter that starts at 1.
#[derive(Debug, Clone, Copy, PartialEq, Eq, Structural, Hash)]
pub struct ThreadId(u64);

impl View for ThreadId {
    type V = u64;

    closed spec fn view(&self) -> u64 {
        self.0
    }
}

impl ThreadId {
    /// Draws the next identifier from `next_id`, which then moves on by one
    /// (wrapping at `u64::MAX`, as an atomic fetch-and-add does).
    pub fn new(next_id: &mut u64) -> (r: Self)
        ensures
            r@ == *old(next_id),
            *final(next_id) == old(next_id).wrapping_add(1),
    {
        let v = *next_id;
        *next_id = v.wrapping_add(1);
        ThreadId(v)
    }

    /// The identifier with the given number.
    pub fn from_u64(v: u64) -> (r: Self)
        ensures
            r@ == v,
    {
        ThreadId(v)
    }

    pub fn as_u64(&self) -> (r: u64)
        ensures
            r == self@,
    {
        self.0
    }
}

/// State of a thread.
#[derive(Debug, Clone, Copy, PartialEq, Eq, Structural)]
pub enum ThreadState {
    /// Runnable, waiting for the scheduler.
    Ready,
    /// On the CPU.
    Running,
    /// Waiting (for I/O and the like).
    Blocked,
    /// Asleep.
    Sleeping,
    /// Finished.
    Terminated,
}

/// State of a process.
#[derive(Debug, Clone, Copy, PartialEq, Eq, Structural)]
pub enum ProcessState {
    Running,
    Sleeping,
    Zombie,
    Terminated,
}

/// Privilege of a task: `Core` runs in ring 0; `Service` and `User` both run
/// in ring 3 and differ only in what they are.
#[derive(Debug, Clone, Copy, PartialEq, Eq, Structural)]
pub enum PrivilegeLevel {
    Core,
    Service,
    User,
}

/// Saved CPU registers of a thread.
#[derive(Debug, Clone, Copy, PartialEq, Eq, Structural)]
pub struct Context {
    pub rsp: u64,
    pub rbp: u64,
    pub rbx: u64,
    pub r12: u64,
    pub r13: u64,
    pub r14: u64,
    pub r15: u64,
    pub rip: u64,
    pub rflags: u64,
}

impl Context {
    pub open spec fn zeroed() -> Context {
        Context { rsp: 0, rbp: 0, rbx: 0, r12: 0, r13: 0, r14: 0, r15: 0, rip: 0, rflags: 0 }
    }

    /// A context with every register zero.
    pub fn new() -> (r: Self)
        ensures
            r == Context::zeroed(),
    {
        Context { rsp: 0, rbp: 0, rbx: 0, r12: 0, r13: 0, r14: 0, r15: 0, rip: 0, rflags: 0 }
    }
}

/// The fields of a process.
pub struct ProcessView {
    pub id: ProcessId,
    pub name: &'static str,
    pub state: ProcessState,
    pub privilege: PrivilegeLevel,
    pub parent_id: Option<ProcessId>,
    pub page_table: Option<u64>,
    pub priority: u8,
}

/// A process: an address space and the resources of its threads.
#[derive(Debug)]
pub struct Process {
    id: ProcessId,
    name: &'static str,
    state: ProcessState,
    privilege: PrivilegeLevel,
    parent_id: Option<ProcessId>,
    page_table: Option<u64>,
    priority: u8,
}

impl View for Process {
    type V = ProcessView;

    closed spec fn view(&self) -> ProcessView {
        ProcessView {
            id: self.id,
            name: self.name,
            state: self.state,
            privilege: self.privilege,
            parent_id: self.parent_id,
            page_table: self.page_table,
            priority: self.priority,
        }
    }
}

impl Keyed for Process {
    open spec fn key(&self) -> u64 {
        self@.id@
    }

    fn get_key(&self) -> (r: u64) {
        self.id.as_u64()
    }
}

impl Process {
    /// A new running process with no page table of its own, whose id is
    /// drawn from `next_id`.
    pub fn new(
        name: &'static str,
        privilege: PrivilegeLevel,
        parent_id: Option<ProcessId>,
        priority: u8,
        next_id: &mut u64,
    ) -> (r: Self)
        ensures
            r@.id@ == *old(next_id),
            *final(next_id) == old(next_id).wrapping_add(1),
            r@.name == name,
            r@.state == ProcessState::Running,
            r@.privilege == privilege,
            r@.parent_id == parent_id,
            r@.page_table is None,
            r@.priority == priority,
    {
        Process {
            id: ProcessId::new(next_id),
            name,
            state: ProcessState::Running,
            privilege,
            parent_id,
            page_table: None,
            priority,
        }
    }

    pub fn id(&self) -> (r: ProcessId)
        ensures
            r == self@.id,
    {
        self.id
    }

    pub fn name(&self) -> (r: &'static str)
        ensures
            r == self@.name,
    {
        self.name
    }

    pub fn state(&self) -> (r: ProcessState)
        ensures
            r == self@.state,
    {
        self.state
    }

    pub fn set_state(&mut self, state: ProcessState)
        ensures
            final(self)@ == (ProcessView { state, ..old(self)@ }),
    {
        self.state = state;
    }

    pub fn privilege(&self) -> (r: PrivilegeLevel)
        ensures
            r == self@.privilege,
    {
        self.privilege
    }

    pub fn parent_id(&self) -> (r: Option<ProcessId>)
        ensures
            r == self@.parent_id,
    {
        self.parent_id
    }

    pub fn priority(&self) -> (r: u8)
        ensures
            r == self@.priority,
    {
        self.priority
    }

    pub fn page_table(&self) -> (r: Option<u64>)
        ensures
            r == self@.page_table,
    {
        self.page_table
    }

    pub fn set_page_table(&mut self, page_table: u64)
        ensures
            final(self)@ == (ProcessView { page_table: Some(page_table), ..old(self)@ }),
    {
        self.page_table = Some(page_table);
    }
}

/// The fields of a thread.
pub struct ThreadView {
    pub id: ThreadId,
    pub process_id: ProcessId,
    pub name: &'static str,
    pub state: ThreadState,
    pub context: Context,
    pub kernel_stack: u64,
    pub kernel_stack_size: usize,
}

pub broadcast proof fn lemma_with_state_view(t: Thread, state: ThreadState)
    ensures
        #[trigger] t.with_state(state)@ == (ThreadView { state, ..t@ }),
{
}

/// Setting the state twice is setting it once, to the second state.
pub broadcast proof fn lemma_with_state_twice(t: Thread, a: ThreadState, b: ThreadState)
    ensures
        #[trigger] t.with_state(a).with_state(b) == t.with_state(b),
{
}

/// A thread: a unit of execution inside a process.
#[derive(Debug)]
pub struct Thread {
    id: ThreadId,
    process_id: ProcessId,
    name: &'static str,
    state: ThreadState,
    context: Context,
    kernel_stack: u64,
    kernel_stack_size: usize,
}

impl View for Thread {
    type V = ThreadView;

    closed spec fn view(&self) -> ThreadView {
        ThreadView {
            id: self.id,
            process_id: self.process_id,
            name: self.name,
            state: self.state,
            context: self.context,
            kernel_stack: self.kernel_stack,
            kernel_stack_size: self.kernel_stack_size,
        }
    }
}

impl Keyed for Thread {
    open spec fn key(&self) -> u64 {
        self@.id@
    }

    fn get_key(&self) -> (r: u64) {
        self.id.as_u64()
    }
}

/// The value the flags register starts with: only the interrupt flag set.
pub const INITIAL_RFLAGS: u64 = 0x202;

/// Size of the two words at the top of a new thread's stack: the entry point
/// and, above it, the address the thread returns to when its entry returns.
pub const INITIAL_FRAME_SIZE: u64 = 16;

impl Thread {
    /// A new ready thread of `process_id` whose kernel stack occupies
    /// `kernel_stack .. kernel_stack + kernel_stack_size` and whose id is drawn
    /// from `next_id`. Its context starts at `entry_point` with the interrupt
    /// flag set; its stack pointer is the address 16 bytes below the top of
    /// the stack, where the caller stores the entry point and the exit
    /// handler's address.
    pub fn new(
        process_id: ProcessId,
        name: &'static str,
        entry_point: u64,
        kernel_stack: u64,
        kernel_stack_size: usize,
        next_id: &mut u64,
    ) -> (r: Self)
        requires
            kernel_stack + kernel_stack_size <= u64::MAX,
            kernel_stack + kernel_stack_size >= INITIAL_FRAME_SIZE,
        ensures
            r@.id@ == *old(next_id),
            *final(next_id) == old(next_id).wrapping_add(1),
            r@.process_id == process_id,
            r@.name == name,
            r@.state == ThreadState::Ready,
            r@.context == (Context {
                rsp: (kernel_stack + kernel_stack_size - INITIAL_FRAME_SIZE) as u64,
                rbp: (kernel_stack + kernel_stack_size) as u64,
                rip: entry_point,
                rflags: INITIAL_RFLAGS,
                ..Context::zeroed()
            }),
            r@.kernel_stack == kernel_stack,
            r@.kernel_stack_size == kernel_stack_size,
    {
        let mut context = Context::new();
        let stack_top = kernel_stack + kernel_stack_size as u64;
        let stack_ptr = stack_top - INITIAL_FRAME_SIZE;
        context.rsp = stack_ptr;
        context.rbp = stack_top;
        context.rip = entry_point;
        context.rflags = INITIAL_RFLAGS;
        Thread {
            id: ThreadId::new(next_id),
            process_id,
            name,
            state: ThreadState::Ready,
            context,
            kernel_stack,
            kernel_stack_size,
        }
    }

    pub fn id(&self) -> (r: ThreadId)
        ensures
            r == self@.id,
    {
        self.id
    }

    pub fn process_id(&self) -> (r: ProcessId)
        ensures
            r == self@.process_id,
    {
        self.process_id
    }

    pub fn name(&self) -> (r: &'static str)
        ensures
            r == self@.name,
    {
        self.name
    }

    pub fn state(&self) -> (r: ThreadState)
        ensures
            r == self@.state,
    {
        self.state
    }

    /// The same thread in state `state`.
    pub closed spec fn with_state(self, state: ThreadState) -> Thread {
        Thread { state, ..self }
    }

    pub fn set_state(&mut self, state: ThreadState)
        ensures
            final(self)@ == (ThreadView { state, ..old(self)@ }),
            *final(self) == old(self).with_state(state),
    {
        self.state = state;
    }

    pub fn context_mut(&mut self) -> (r: &mut Context)
        ensures
            *r == old(self)@.context,
            final(self)@ == (ThreadView { context: *final(r), ..old(self)@ }),
    {
        &mut self.context
    }

    pub fn context(&self) -> (r: &Context)
        ensures
            *r == self@.context,
    {
        &self.context
    }
}

} // verus!
