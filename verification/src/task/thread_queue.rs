//! The queue of all threads, and the choice of the next one to run.

use vstd::prelude::*;

use super::slots::{
    first_free, first_free_index, first_key_index, first_with_key, has_key, holds_key, occupied,
    present, SlotTable,
};
use super::types::{ProcessId, Thread, ThreadId, ThreadState};

verus! {

/// Slot `i` holds a ready thread.
pub open spec fn is_ready(s: Seq<Option<Thread>>, i: int) -> bool {
    0 <= i < s.len() && s[i] is Some && s[i]->0@.state == ThreadState::Ready
}

/// Some slot holds a ready thread.
pub open spec fn has_ready(s: Seq<Option<Thread>>) -> bool {
    exists|i: int| is_ready(s, i)
}

/// Slot `i` holds the ready thread that comes first in slot order.
pub open spec fn first_ready(s: Seq<Option<Thread>>, i: int) -> bool {
    is_ready(s, i) && forall|j: int| 0 <= j < i ==> !#[trigger] is_ready(s, j)
}

pub open spec fn first_ready_index(s: Seq<Option<Thread>>) -> int {
    choose|i: int| first_ready(s, i)
}

/// How many slots a search that starts just after slot `from` and wraps
/// around passes before it reaches slot `i`; `from` itself comes last.
pub open spec fn cyclic_distance(n: int, from: int, i: int) -> int {
    if i > from {
        i - from - 1
    } else {
        i + n - from - 1
    }
}

/// Slot `i` holds the ready thread that a search starting just after slot
/// `from`, and wrapping around, meets first.
pub open spec fn next_ready_after(s: Seq<Option<Thread>>, from: int, i: int) -> bool {
    &&& is_ready(s, i)
    &&& forall|j: int|
        #[trigger] is_ready(s, j) ==> cyclic_distance(s.len() as int, from, i) <= cyclic_distance(
            s.len() as int,
            from,
            j,
        )
}

pub open spec fn next_ready_after_index(s: Seq<Option<Thread>>, from: int) -> int {
    choose|i: int| next_ready_after(s, from, i)
}

/// The slot whose thread round-robin scheduling picks after `current`: the
/// nearest ready thread after the slot of `current` (wrapping around, and
/// coming back to that slot last); the first ready thread when there is no
/// current thread or it is not in the queue; `None` when no thread is ready.
pub open spec fn round_robin_choice(s: Seq<Option<Thread>>, current: Option<ThreadId>) -> Option<
    int,
> {
    if !has_ready(s) {
        None
    } else {
        match current {
            Some(c) => if has_key(s, c@) {
                Some(next_ready_after_index(s, first_key_index(s, c@)))
            } else {
                Some(first_ready_index(s))
            },
            None => Some(first_ready_index(s)),
        }
    }
}

/// Number of threads in state `state`.
pub open spec fn count_in_state(s: Seq<Option<Thread>>, state: ThreadState) -> nat
    decreases s.len(),
{
    if s.len() == 0 {
        0
    } else {
        count_in_state(s.drop_last(), state) + if s.last() is Some && s.last()->0@.state == state {
            1nat
        } else {
            0nat
        }
    }
}

/// The threads of process `pid`, in slot order.
pub open spec fn threads_of(s: Seq<Option<Thread>>, pid: ProcessId) -> Seq<Thread>
    decreases s.len(),
{
    if s.len() == 0 {
        Seq::empty()
    } else if s.last() is Some && s.last()->0@.process_id == pid {
        threads_of(s.drop_last(), pid).push(s.last()->0)
    } else {
        threads_of(s.drop_last(), pid)
    }
}

proof fn lemma_first_ready_unique(s: Seq<Option<Thread>>, i: int)
    requires
        first_ready(s, i),
    ensures
        first_ready_index(s) == i,
        has_ready(s),
{
    let j = first_ready_index(s);
    assert(first_ready(s, j));
    if j < i {
        assert(!is_ready(s, j));
    } else if i < j {
        assert(!is_ready(s, i));
    }
}

proof fn lemma_next_ready_after_unique(s: Seq<Option<Thread>>, from: int, i: int)
    requires
        0 <= from < s.len(),
        next_ready_after(s, from, i),
    ensures
        next_ready_after_index(s, from) == i,
        has_ready(s),
{
    let j = next_ready_after_index(s, from);
    assert(next_ready_after(s, from, j));
    assert(cyclic_distance(s.len() as int, from, i) <= cyclic_distance(s.len() as int, from, j));
    assert(cyclic_distance(s.len() as int, from, j) <= cyclic_distance(s.len() as int, from, i));
}

/// All threads of the system, in a fixed number of slots.
pub struct ThreadQueue {
    slots: SlotTable<Thread>,
}

impl ThreadQueue {
    /// Number of slots.
    pub const MAX_THREADS: usize = 1024;

    /// The slots, each empty or holding one thread.
    pub closed spec fn view(&self) -> Seq<Option<Thread>> {
        self.slots.view()
    }

    pub closed spec fn wf(&self) -> bool {
        &&& self.slots.wf()
        &&& self.slots.view().len() == Self::MAX_THREADS
    }

    /// An empty queue.
    pub fn new() -> (r: Self)
        ensures
            r.wf(),
            r@ == Seq::<Option<Thread>>::new(Self::MAX_THREADS as nat, |i: int| None),
    {
        ThreadQueue { slots: SlotTable::new(Self::MAX_THREADS) }
    }

    /// Puts `thread` into the first free slot and returns its id; `None`
    /// when every slot is taken.
    pub fn push(&mut self, thread: Thread) -> (r: Option<ThreadId>)
        requires
            old(self).wf(),
        ensures
            final(self).wf(),
            r is Some <==> occupied(old(self)@) < Self::MAX_THREADS,
            r is Some ==> r->0 == thread@.id,
            r is Some ==> first_free(old(self)@, first_free_index(old(self)@)),
            r is Some ==> final(self)@ == old(self)@.update(
                first_free_index(old(self)@),
                Some(thread),
            ),
            r is None ==> final(self)@ == old(self)@,
    {
        let id = thread.id();
        match self.slots.add(thread) {
            Some(_) => Some(id),
            None => None,
        }
    }

    /// The thread in the first slot with id `id`.
    pub fn get(&self, id: ThreadId) -> (r: Option<&Thread>)
        ensures
            r is Some <==> has_key(self@, id@),
            r is Some ==> first_with_key(self@, first_key_index(self@, id@), id@),
            r is Some ==> self@[first_key_index(self@, id@)] == Some(*r->0),
    {
        self.slots.get(id.as_u64())
    }

    /// Mutable access to the thread in the first slot with id `id`.
    pub fn get_mut(&mut self, id: ThreadId) -> (r: Option<&mut Thread>)
        requires
            old(self).wf(),
        ensures
            final(self).wf(),
            r is Some <==> has_key(old(self)@, id@),
            r is Some ==> first_with_key(old(self)@, first_key_index(old(self)@, id@), id@),
            r is None ==> final(self)@ == old(self)@,
            r is Some ==> old(self)@[first_key_index(old(self)@, id@)] == Some(*r->0),
            r is Some ==> final(self)@ == old(self)@.update(
                first_key_index(old(self)@, id@),
                Some(*final(r->0)),
            ),
    {
        self.slots.get_mut(id.as_u64())
    }

    /// Takes the thread in the first slot with id `id` out of the queue.
    pub fn remove(&mut self, id: ThreadId) -> (r: Option<Thread>)
        requires
            old(self).wf(),
        ensures
            final(self).wf(),
            r is Some <==> has_key(old(self)@, id@),
            r is Some ==> first_with_key(old(self)@, first_key_index(old(self)@, id@), id@),
            r is Some ==> old(self)@[first_key_index(old(self)@, id@)] == r,
            r is Some ==> final(self)@ == old(self)@.update(first_key_index(old(self)@, id@), None),
            r is None ==> final(self)@ == old(self)@,
    {
        self.slots.remove(id.as_u64())
    }

    /// Slot of the first ready thread.
    fn find_first_ready(&self) -> (r: Option<usize>)
        ensures
            r is Some <==> has_ready(self@),
            r is Some ==> r->0 == first_ready_index(self@) && first_ready(self@, r->0 as int),
    {
        let n = self.slots.capacity();
        let mut i: usize = 0;
        while i < n
            invariant
                n == self@.len(),
                i <= n,
                forall|j: int| 0 <= j < i ==> !#[trigger] is_ready(self@, j),
            decreases n - i,
        {
            match self.slots.slot(i) {
                Some(t) => {
                    if t.state() == ThreadState::Ready {
                        proof {
                            lemma_first_ready_unique(self@, i as int);
                        }
                        return Some(i);
                    }
                },
                None => {},
            }
            i = i + 1;
        }
        None
    }

    /// The first ready thread, in slot order.
    pub fn peek_next(&self) -> (r: Option<&Thread>)
        ensures
            r is Some <==> has_ready(self@),
            r is Some ==> first_ready(self@, first_ready_index(self@)),
            r is Some ==> self@[first_ready_index(self@)] == Some(*r->0),
    {
        match self.find_first_ready() {
            Some(i) => self.slots.slot(i).as_ref(),
            None => None,
        }
    }

    /// Mutable access to the first ready thread, in slot order.
    pub fn peek_next_mut(&mut self) -> (r: Option<&mut Thread>)
        requires
            old(self).wf(),
        ensures
            final(self).wf(),
            r is Some <==> has_ready(old(self)@),
            r is None ==> final(self)@ == old(self)@,
            r is Some ==> first_ready(old(self)@, first_ready_index(old(self)@)),
            r is Some ==> old(self)@[first_ready_index(old(self)@)] == Some(*r->0),
            r is Some ==> final(self)@ == old(self)@.update(
                first_ready_index(old(self)@),
                Some(*final(r->0)),
            ),
    {
        match self.find_first_ready() {
            Some(i) => Some(self.slots.slot_mut(i)),
            None => None,
        }
    }

    /// Slot of the thread that round-robin scheduling picks after `current`.
    fn find_round_robin(&self, current_id: Option<ThreadId>) -> (r: Option<usize>)
        requires
            self.wf(),
        ensures
            r is Some <==> round_robin_choice(self@, current_id) is Some,
            r is Some ==> r->0 == round_robin_choice(self@, current_id)->0,
            r is Some ==> is_ready(self@, r->0 as int),
    {
        let n = self.slots.capacity();
        if let Some(current) = current_id {
            if let Some(start) = self.slots.find(current.as_u64()) {
                let mut i: usize = start + 1;
                while i < n
                    invariant
                        n == self@.len(),
                        start < n,
                        current_id == Some(current),
                        start == first_key_index(self@, current@),
                        has_key(self@, current@),
                        start + 1 <= i <= n,
                        forall|j: int| start < j < i ==> !#[trigger] is_ready(self@, j),
                    decreases n - i,
                {
                    match self.slots.slot(i) {
                        Some(t) => {
                            if t.state() == ThreadState::Ready {
                                proof {
                                    assert(next_ready_after(self@, start as int, i as int));
                                    lemma_next_ready_after_unique(self@, start as int, i as int);
                                }
                                return Some(i);
                            }
                        },
                        None => {},
                    }
                    i = i + 1;
                }
                let mut i: usize = 0;
                while i <= start
                    invariant
                        n == self@.len(),
                        start < n,
                        current_id == Some(current),
                        start == first_key_index(self@, current@),
                        has_key(self@, current@),
                        i <= start + 1,
                        forall|j: int| start < j < n ==> !#[trigger] is_ready(self@, j),
                        forall|j: int| 0 <= j < i ==> !#[trigger] is_ready(self@, j),
                    decreases start + 1 - i,
                {
                    match self.slots.slot(i) {
                        Some(t) => {
                            if t.state() == ThreadState::Ready {
                                proof {
                                    assert(next_ready_after(self@, start as int, i as int));
                                    lemma_next_ready_after_unique(self@, start as int, i as int);
                                }
                                return Some(i);
                            }
                        },
                        None => {},
                    }
                    i = i + 1;
                }
                return None;
            }
        }
        self.find_first_ready()
    }

    /// The thread that round-robin scheduling runs after `current_id`: the
    /// nearest ready thread after the slot of `current_id`, wrapping around;
    /// the first ready thread when `current_id` is `None` or not queued.
    pub fn peek_next_after(&mut self, current_id: Option<ThreadId>) -> (r: Option<&mut Thread>)
        requires
            old(self).wf(),
        ensures
            final(self).wf(),
            r is Some <==> round_robin_choice(old(self)@, current_id) is Some,
            r is None ==> final(self)@ == old(self)@,
            r is Some ==> is_ready(old(self)@, round_robin_choice(old(self)@, current_id)->0),
            r is Some ==> old(self)@[round_robin_choice(old(self)@, current_id)->0] == Some(
                *r->0,
            ),
            r is Some ==> final(self)@ == old(self)@.update(
                round_robin_choice(old(self)@, current_id)->0,
                Some(*final(r->0)),
            ),
    {
        match self.find_round_robin(current_id) {
            Some(i) => Some(self.slots.slot_mut(i)),
            None => None,
        }
    }

    /// Number of threads in state `state`.
    pub fn count_by_state(&self, state: ThreadState) -> (r: usize)
        requires
            self.wf(),
        ensures
            r == count_in_state(self@, state),
    {
        let n = self.slots.capacity();
        let mut c: usize = 0;
        let mut i: usize = 0;
        while i < n
            invariant
                n == self@.len(),
                n == Self::MAX_THREADS,
                i <= n,
                c == count_in_state(self@.take(i as int), state),
                c <= i,
            decreases n - i,
        {
            proof {
                assert(self@.take(i + 1).drop_last() =~= self@.take(i as int));
            }
            match self.slots.slot(i) {
                Some(t) => {
                    if t.state() == state {
                        c = c + 1;
                    }
                },
                None => {},
            }
            i = i + 1;
        }
        proof {
            assert(self@.take(n as int) =~= self@);
        }
        c
    }

    /// The threads of process `process_id`, in slot order.
    pub fn iter_by_process(&self, process_id: ProcessId) -> (r: Vec<&Thread>)
        ensures
            r@.len() == threads_of(self@, process_id).len(),
            forall|k: int|
                0 <= k < r@.len() ==> *#[trigger] r@[k] == threads_of(self@, process_id)[k],
    {
        let n = self.slots.capacity();
        let mut out: Vec<&Thread> = Vec::new();
        let mut i: usize = 0;
        while i < n
            invariant
                n == self@.len(),
                i <= n,
                out@.len() == threads_of(self@.take(i as int), process_id).len(),
                forall|k: int|
                    0 <= k < out@.len() ==> *#[trigger] out@[k] == threads_of(
                        self@.take(i as int),
                        process_id,
                    )[k],
            decreases n - i,
        {
            proof {
                assert(self@.take(i + 1).drop_last() =~= self@.take(i as int));
            }
            match self.slots.slot(i) {
                Some(t) => {
                    if t.process_id() == process_id {
                        out.push(t);
                    }
                },
                None => {},
            }
            i = i + 1;
        }
        proof {
            assert(self@.take(n as int) =~= self@);
        }
        out
    }

    /// The threads, in slot order.
    pub fn iter(&self) -> (r: Vec<&Thread>)
        ensures
            r@.len() == present(self@).len(),
            forall|k: int| 0 <= k < r@.len() ==> *#[trigger] r@[k] == present(self@)[k],
    {
        self.slots.items()
    }

    /// Number of threads.
    pub fn count(&self) -> (r: usize)
        requires
            self.wf(),
        ensures
            r == occupied(self@),
    {
        self.slots.count()
    }

    /// Whether every slot is taken.
    pub fn is_full(&self) -> (r: bool)
        requires
            self.wf(),
        ensures
            r == (occupied(self@) >= Self::MAX_THREADS),
    {
        self.slots.count() >= Self::MAX_THREADS
    }

    /// Whether no slot is taken.
    pub fn is_empty(&self) -> (r: bool)
        requires
            self.wf(),
        ensures
            r == (occupied(self@) == 0),
    {
        self.slots.count() == 0
    }
}

} // verus!
