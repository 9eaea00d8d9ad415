//! Fixed-capacity slot tables: the storage shared by the process table and
//! the thread queue.

use vstd::prelude::*;

verus! {

/// An item stored in a slot table, identified by a numeric key.
pub trait Keyed {
    spec fn key(&self) -> u64;

    fn get_key(&self) -> (r: u64)
        ensures
            r == self.key(),
    ;
}

/// Number of occupied slots.
pub open spec fn occupied<T>(s: Seq<Option<T>>) -> nat
    decreases s.len(),
{
    if s.len() == 0 {
        0
    } else {
        occupied(s.drop_last()) + if s.last() is Some { 1nat } else { 0nat }
    }
}

/// Slot `i` holds an item whose key is `key`.
pub open spec fn holds_key<T: Keyed>(s: Seq<Option<T>>, i: int, key: u64) -> bool {
    0 <= i < s.len() && s[i] is Some && s[i]->0.key() == key
}

/// Slot `i` is the first slot that holds an item whose key is `key`.
pub open spec fn first_with_key<T: Keyed>(s: Seq<Option<T>>, i: int, key: u64) -> bool {
    holds_key(s, i, key) && forall|j: int| 0 <= j < i ==> !#[trigger] holds_key(s, j, key)
}

/// Some slot holds an item whose key is `key`.
pub open spec fn has_key<T: Keyed>(s: Seq<Option<T>>, key: u64) -> bool {
    exists|i: int| holds_key(s, i, key)
}

/// Slot `i` is the first free slot.
pub open spec fn first_free<T>(s: Seq<Option<T>>, i: int) -> bool {
    0 <= i < s.len() && s[i] is None && forall|j: int| 0 <= j < i ==> #[trigger] s[j] is Some
}

/// The items of the occupied slots, in slot order.
pub open spec fn present<T>(s: Seq<Option<T>>) -> Seq<T>
    decreases s.len(),
{
    if s.len() == 0 {
        Seq::empty()
    } else if s.last() is Some {
        present(s.drop_last()).push(s.last()->0)
    } else {
        present(s.drop_last())
    }
}

pub proof fn lemma_present_len<T>(s: Seq<Option<T>>)
    ensures
        present(s).len() == occupied(s),
    decreases s.len(),
{
    if s.len() > 0 {
        lemma_present_len(s.drop_last());
    }
}

pub proof fn lemma_present_push<T>(s: Seq<Option<T>>, v: Option<T>)
    ensures
        present(s.push(v)) == (if v is Some { present(s).push(v->0) } else { present(s) }),
{
    assert(s.push(v).drop_last() =~= s);
}

/// The first free slot, where there is one.
pub open spec fn first_free_index<T>(s: Seq<Option<T>>) -> int {
    choose|i: int| first_free(s, i)
}

/// The first slot holding `key`, where there is one.
pub open spec fn first_key_index<T: Keyed>(s: Seq<Option<T>>, key: u64) -> int {
    choose|i: int| first_with_key(s, i, key)
}

pub proof fn lemma_first_free_unique<T>(s: Seq<Option<T>>, i: int)
    requires
        first_free(s, i),
    ensures
        first_free_index(s) == i,
{
    let j = first_free_index(s);
    assert(first_free(s, j));
    if j < i {
        assert(s[j] is Some);
    } else if i < j {
        assert(s[i] is Some);
    }
}

pub proof fn lemma_first_key_unique<T: Keyed>(s: Seq<Option<T>>, i: int, key: u64)
    requires
        first_with_key(s, i, key),
    ensures
        first_key_index(s, key) == i,
        has_key(s, key),
{
    let j = first_key_index(s, key);
    assert(first_with_key(s, j, key));
    if j < i {
        assert(!holds_key(s, j, key));
    } else if i < j {
        assert(!holds_key(s, i, key));
    }
}

pub proof fn lemma_occupied_bounded<T>(s: Seq<Option<T>>)
    ensures
        occupied(s) <= s.len(),
    decreases s.len(),
{
    if s.len() > 0 {
        lemma_occupied_bounded(s.drop_last());
    }
}

pub proof fn lemma_occupied_update<T>(s: Seq<Option<T>>, i: int, v: Option<T>)
    requires
        0 <= i < s.len(),
    ensures
        occupied(s.update(i, v)) + (if s[i] is Some { 1int } else { 0int }) == occupied(s) + (
        if v is Some { 1int } else { 0int }),
    decreases s.len(),
{
    let t = s.update(i, v);
    if i == s.len() - 1 {
        assert(t.drop_last() =~= s.drop_last());
    } else {
        assert(t.drop_last() =~= s.drop_last().update(i, v));
        lemma_occupied_update(s.drop_last(), i, v);
    }
}

pub proof fn lemma_occupied_full<T>(s: Seq<Option<T>>)
    requires
        forall|i: int| 0 <= i < s.len() ==> #[trigger] s[i] is Some,
    ensures
        occupied(s) == s.len(),
    decreases s.len(),
{
    if s.len() > 0 {
        assert forall|i: int| 0 <= i < s.drop_last().len() implies #[trigger] s.drop_last()[i] is Some by {
            assert(s[i] is Some);
        }
        lemma_occupied_full(s.drop_last());
    }
}

pub proof fn lemma_occupied_none<T>(n: nat)
    ensures
        occupied(Seq::<Option<T>>::new(n, |i: int| None)) == 0,
    decreases n,
{
    if n > 0 {
        let s = Seq::<Option<T>>::new(n, |i: int| None);
        assert(s.drop_last() =~= Seq::<Option<T>>::new((n - 1) as nat, |i: int| None));
        lemma_occupied_none::<T>((n - 1) as nat);
    }
}

/// A table of `capacity` slots, each empty or holding one item, with a count
/// of the occupied slots.
pub struct SlotTable<T> {
    slots: Vec<Option<T>>,
    count: usize,
}

impl<T: Keyed> SlotTable<T> {
    pub closed spec fn view(&self) -> Seq<Option<T>> {
        self.slots@
    }

    pub closed spec fn spec_count(&self) -> nat {
        self.count as nat
    }

    pub closed spec fn wf(&self) -> bool {
        self.count as nat == occupied(self.slots@)
    }

    pub fn new(capacity: usize) -> (r: Self)
        ensures
            r.wf(),
            r.view() == Seq::<Option<T>>::new(capacity as nat, |i: int| None),
            r.spec_count() == 0,
    {
        let mut slots: Vec<Option<T>> = Vec::with_capacity(capacity);
        let mut i: usize = 0;
        while i < capacity
            invariant
                i <= capacity,
                slots@ =~= Seq::<Option<T>>::new(i as nat, |k: int| None),
            decreases capacity - i,
        {
            slots.push(None);
            i = i + 1;
        }
        proof {
            lemma_occupied_none::<T>(capacity as nat);
        }
        SlotTable { slots, count: 0 }
    }

    pub fn count(&self) -> (r: usize)
        requires
            self.wf(),
        ensures
            r == self.spec_count(),
            r == occupied(self.view()),
    {
        self.count
    }

    pub fn capacity(&self) -> (r: usize)
        ensures
            r == self.view().len(),
    {
        self.slots.len()
    }

    /// Puts `item` into the first free slot.
    pub fn add(&mut self, item: T) -> (r: Option<u64>)
        requires
            old(self).wf(),
        ensures
            final(self).wf(),
            final(self).view().len() == old(self).view().len(),
            r is Some <==> occupied(old(self).view()) < old(self).view().len(),
            r is Some ==> r->0 == item.key(),
            r is Some ==> first_free(old(self).view(), first_free_index(old(self).view())),
            r is Some ==> final(self).view() == old(self).view().update(
                first_free_index(old(self).view()),
                Some(item),
            ),
            r is Some ==> final(self).spec_count() == old(self).spec_count() + 1,
            r is None ==> final(self).view() == old(self).view(),
            r is None ==> final(self).spec_count() == old(self).spec_count(),
    {
        proof {
            lemma_occupied_bounded(self.slots@);
        }
        if self.count >= self.slots.len() {
            return None;
        }
        let key = item.get_key();
        let n = self.slots.len();
        let mut i: usize = 0;
        while i < n
            invariant
                n == self.slots.len(),
                i <= n,
                self.count as nat == occupied(self.slots@),
                self.count < n,
                self.slots@ == old(self).slots@,
                self.count == old(self).count,
                key == item.key(),
                forall|j: int| 0 <= j < i ==> #[trigger] self.slots@[j] is Some,
            decreases n - i,
        {
            if self.slots[i].is_none() {
                let ghost before = self.slots@;
                let ghost it = item;
                self.slots.set(i, Some(item));
                proof {
                    lemma_occupied_update(before, i as int, Some(it));
                    assert(first_free(before, i as int));
                    lemma_first_free_unique(before, i as int);
                }
                self.count = self.count + 1;
                return Some(key);
            }
            i = i + 1;
        }
        proof {
            lemma_occupied_full(self.slots@);
        }
        None
    }

    /// Index of the first slot holding `key`.
    pub fn find(&self, key: u64) -> (r: Option<usize>)
        ensures
            match r {
                Some(i) => first_with_key(self.view(), i as int, key) && i == first_key_index(
                    self.view(),
                    key,
                ) && has_key(self.view(), key),
                None => !has_key(self.view(), key),
            },
    {
        let n = self.slots.len();
        let mut i: usize = 0;
        while i < n
            invariant
                n == self.slots.len(),
                i <= n,
                forall|j: int| 0 <= j < i ==> !#[trigger] holds_key(self.slots@, j, key),
            decreases n - i,
        {
            match &self.slots[i] {
                Some(item) => {
                    if item.get_key() == key {
                        proof {
                            lemma_first_key_unique(self.slots@, i as int, key);
                        }
                        return Some(i);
                    }
                },
                None => {},
            }
            i = i + 1;
        }
        None
    }

    /// The item in the first slot holding `key`.
    pub fn get(&self, key: u64) -> (r: Option<&T>)
        ensures
            r is Some <==> has_key(self.view(), key),
            r is Some ==> first_with_key(self.view(), first_key_index(self.view(), key), key),
            r is Some ==> self.view()[first_key_index(self.view(), key)] == Some(*r->0),
    {
        match self.find(key) {
            Some(i) => self.slots[i].as_ref(),
            None => None,
        }
    }

    /// Mutable access to the item in the first slot holding `key`.
    pub fn get_mut(&mut self, key: u64) -> (r: Option<&mut T>)
        requires
            old(self).wf(),
        ensures
            final(self).wf(),
            final(self).spec_count() == old(self).spec_count(),
            final(self).view().len() == old(self).view().len(),
            r is Some <==> has_key(old(self).view(), key),
            r is Some ==> first_with_key(old(self).view(), first_key_index(old(self).view(), key), key),
            r is None ==> final(self).view() == old(self).view(),
            r is Some ==> old(self).view()[first_key_index(old(self).view(), key)] == Some(*r->0),
            r is Some ==> final(self).view() == old(self).view().update(
                first_key_index(old(self).view(), key),
                Some(*final(r->0)),
            ),
    {
        match self.find(key) {
            Some(i) => {
                let ghost before = self.slots@;
                let r = self.slots[i].as_mut();
                proof {
                    lemma_occupied_update(before, i as int, Some(*final(r->0)));
                }
                r
            },
            None => None,
        }
    }

    /// The slot at `i`.
    pub fn slot(&self, i: usize) -> (r: &Option<T>)
        requires
            i < self.view().len(),
        ensures
            *r == self.view()[i as int],
    {
        &self.slots[i]
    }

    /// Mutable access to the item in slot `i`, when it holds one.
    pub fn slot_mut(&mut self, i: usize) -> (r: &mut T)
        requires
            old(self).wf(),
            i < old(self).view().len(),
            old(self).view()[i as int] is Some,
        ensures
            final(self).wf(),
            final(self).spec_count() == old(self).spec_count(),
            final(self).view().len() == old(self).view().len(),
            *r == old(self).view()[i as int]->0,
            final(self).view() == old(self).view().update(i as int, Some(*final(r))),
    {
        let ghost before = self.slots@;
        let r = self.slots[i].as_mut().unwrap();
        proof {
            lemma_occupied_update(before, i as int, Some(*final(r)));
        }
        r
    }

    /// References to the items of the occupied slots, in slot order.
    pub fn items(&self) -> (r: Vec<&T>)
        ensures
            r@.len() == present(self.view()).len(),
            forall|k: int| 0 <= k < r@.len() ==> *#[trigger] r@[k] == present(self.view())[k],
    {
        let n = self.slots.len();
        let mut out: Vec<&T> = Vec::new();
        let mut i: usize = 0;
        while i < n
            invariant
                n == self.slots.len(),
                i <= n,
                out@.len() == present(self.slots@.take(i as int)).len(),
                forall|k: int|
                    0 <= k < out@.len() ==> *#[trigger] out@[k] == present(
                        self.slots@.take(i as int),
                    )[k],
            decreases n - i,
        {
            proof {
                assert(self.slots@.take(i + 1) =~= self.slots@.take(i as int).push(self.slots@[i as int]));
                lemma_present_push(self.slots@.take(i as int), self.slots@[i as int]);
            }
            match &self.slots[i] {
                Some(item) => {
                    out.push(item);
                },
                None => {},
            }
            i = i + 1;
        }
        proof {
            assert(self.slots@.take(n as int) =~= self.slots@);
        }
        out
    }

    /// Empties the first slot holding `key` and hands its item back.
    pub fn remove(&mut self, key: u64) -> (r: Option<T>)
        requires
            old(self).wf(),
        ensures
            final(self).wf(),
            final(self).view().len() == old(self).view().len(),
            r is Some <==> has_key(old(self).view(), key),
            r is Some ==> first_with_key(old(self).view(), first_key_index(old(self).view(), key), key),
            r is Some ==> old(self).view()[first_key_index(old(self).view(), key)] == r,
            r is Some ==> final(self).view() == old(self).view().update(
                first_key_index(old(self).view(), key),
                None,
            ),
            r is None ==> final(self).view() == old(self).view(),
            r is Some ==> final(self).spec_count() + 1 == old(self).spec_count(),
            r is None ==> final(self).spec_count() == old(self).spec_count(),
    {
        match self.find(key) {
            Some(i) => {
                let ghost before = self.slots@;
                let mut taken: Option<T> = None;
                self.slots.set_and_swap(i, &mut taken);
                proof {
                    lemma_occupied_update(before, i as int, None);
                }
                self.count = self.count - 1;
                taken
            },
            None => None,
        }
    }
}

} // verus!
