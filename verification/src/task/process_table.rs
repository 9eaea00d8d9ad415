//! The table of all processes.

use vstd::prelude::*;

use super::slots::{first_free, first_with_key, first_free_index, first_key_index, has_key, occupied, present, SlotTable};
use super::types::{Process, ProcessId};

verus! {

/// The processes of the system, in a fixed number of slots.
pub struct ProcessTable {
    slots: SlotTable<Process>,
}

impl ProcessTable {
    /// Number of slots.
    pub const MAX_PROCESSES: usize = 256;

    /// The slots, each empty or holding one process.
    pub closed spec fn view(&self) -> Seq<Option<Process>> {
        self.slots.view()
    }

    pub closed spec fn wf(&self) -> bool {
        &&& self.slots.wf()
        &&& self.slots.view().len() == Self::MAX_PROCESSES
    }

    /// An empty table.
    pub fn new() -> (r: Self)
        ensures
            r.wf(),
            r@ == Seq::<Option<Process>>::new(Self::MAX_PROCESSES as nat, |i: int| None),
    {
        ProcessTable { slots: SlotTable::new(Self::MAX_PROCESSES) }
    }

    /// Puts `process` into the first free slot and returns its id; `None`
    /// when every slot is taken.
    pub fn add(&mut self, process: Process) -> (r: Option<ProcessId>)
        requires
            old(self).wf(),
        ensures
            final(self).wf(),
            r is Some <==> occupied(old(self)@) < Self::MAX_PROCESSES,
            r is Some ==> r->0 == process@.id,
            r is Some ==> first_free(old(self)@, first_free_index(old(self)@)),
            r is Some ==> final(self)@ == old(self)@.update(
                first_free_index(old(self)@),
                Some(process),
            ),
            r is None ==> final(self)@ == old(self)@,
    {
        let id = process.id();
        match self.slots.add(process) {
            Some(_) => Some(id),
            None => None,
        }
    }

    /// The process in the first slot with id `id`.
    pub fn get(&self, id: ProcessId) -> (r: Option<&Process>)
        ensures
            r is Some <==> has_key(self@, id@),
            r is Some ==> first_with_key(self@, first_key_index(self@, id@), id@),
            r is Some ==> self@[first_key_index(self@, id@)] == Some(*r->0),
    {
        self.slots.get(id.as_u64())
    }

    /// Mutable access to the process in the first slot with id `id`.
    pub fn get_mut(&mut self, id: ProcessId) -> (r: Option<&mut Process>)
        requires
            old(self).wf(),
        ensures
            final(self).wf(),
            r is Some <==> has_key(old(self)@, id@),
            r is Some ==> first_with_key(old(self)@, first_key_index(old(self)@, id@), id@),
            r is None ==> final(self)@ == old(self)@,
            r is Some ==> old(self)@[first_key_index(old(self)@, id@)] == Some(*r->0),
            r is Some ==> final(self)@ == old(self)@.update(
                first_key_index(old(self)@, id@),
                Some(*final(r->0)),
            ),
    {
        self.slots.get_mut(id.as_u64())
    }

    /// Takes the process in the first slot with id `id` out of the table.
    pub fn remove(&mut self, id: ProcessId) -> (r: Option<Process>)
        requires
            old(self).wf(),
        ensures
            final(self).wf(),
            r is Some <==> has_key(old(self)@, id@),
            r is Some ==> first_with_key(old(self)@, first_key_index(old(self)@, id@), id@),
            r is Some ==> old(self)@[first_key_index(old(self)@, id@)] == r,
            r is Some ==> final(self)@ == old(self)@.update(first_key_index(old(self)@, id@), None),
            r is None ==> final(self)@ == old(self)@,
    {
        self.slots.remove(id.as_u64())
    }

    /// The processes, in slot order.
    pub fn iter(&self) -> (r: Vec<&Process>)
        ensures
            r@.len() == present(self@).len(),
            forall|k: int| 0 <= k < r@.len() ==> *#[trigger] r@[k] == present(self@)[k],
    {
        self.slots.items()
    }

    /// Number of processes.
    pub fn count(&self) -> (r: usize)
        requires
            self.wf(),
        ensures
            r == occupied(self@),
    {
        self.slots.count()
    }

    /// Whether every slot is taken.
    pub fn is_full(&self) -> (r: bool)
        requires
            self.wf(),
        ensures
            r == (occupied(self@) >= Self::MAX_PROCESSES),
    {
        self.slots.count() >= Self::MAX_PROCESSES
    }

    /// Whether no slot is taken.
    pub fn is_empty(&self) -> (r: bool)
        requires
            self.wf(),
        ensures
            r == (occupied(self@) == 0),
    {
        self.slots.count() == 0
    }
}

} // verus!
