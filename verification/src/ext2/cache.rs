//! A small cache that evicts the least recently used entry.

use vstd::prelude::*;

use super::ondisk::Inode;

verus! {

/// A value that can be kept in a cache and copied out of it.
pub trait CacheValue: Sized {
    type Model;

    spec fn model(&self) -> Self::Model;

    fn duplicate(&self) -> (r: Self)
        ensures
            r.model() == self.model(),
    ;
}

impl CacheValue for Vec<u8> {
    type Model = Seq<u8>;

    open spec fn model(&self) -> Seq<u8> {
        self@
    }

    fn duplicate(&self) -> (r: Self) {
        let mut out: Vec<u8> = Vec::with_capacity(self.len());
        let mut i: usize = 0;
        while i < self.len()
            invariant
                i <= self@.len(),
                out@ == self@.subrange(0, i as int),
            decreases self@.len() - i,
        {
            out.push(self[i]);
            i = i + 1;
            proof {
                assert(out@ =~= self@.subrange(0, i as int));
            }
        }
        proof {
            assert(out@ =~= self@);
        }
        out
    }
}

impl CacheValue for Inode {
    type Model = Inode;

    open spec fn model(&self) -> Inode {
        *self
    }

    fn duplicate(&self) -> (r: Self) {
        *self
    }
}

/// One cached value, the key it is kept under and when it was last used.
pub struct LruCacheEntry<T> {
    pub key: u64,
    pub value: T,
    pub age: u64,
}

/// The model of a held value: key, value and time of last use.
pub struct SlotModel<M> {
    pub key: u64,
    pub value: M,
    pub age: u64,
}

/// The model of a cache slot.
pub open spec fn slot_model<T: CacheValue>(e: Option<LruCacheEntry<T>>) -> Option<SlotModel<T::Model>> {
    match e {
        Some(e) => Some(SlotModel { key: e.key, value: e.value.model(), age: e.age }),
        None => None,
    }
}

/// Slot `i` is the first slot with the smallest time of last use.
pub open spec fn is_least_recent<M>(s: Seq<Option<SlotModel<M>>>, i: int) -> bool {
    &&& 0 <= i < s.len()
    &&& s[i] is Some
    &&& forall|j: int| 0 <= j < s.len() && #[trigger] s[j] is Some ==> s[i]->0.age <= s[j]->0.age
    &&& forall|j: int| 0 <= j < i && #[trigger] s[j] is Some ==> s[i]->0.age < s[j]->0.age
}

pub open spec fn least_recent_index<M>(s: Seq<Option<SlotModel<M>>>) -> int {
    choose|i: int| is_least_recent(s, i)
}

/// Slot `i` is the first free slot.
pub open spec fn is_first_free<M>(s: Seq<Option<SlotModel<M>>>, i: int) -> bool {
    0 <= i < s.len() && s[i] is None && forall|j: int| 0 <= j < i ==> #[trigger] s[j] is Some
}

pub open spec fn first_free_slot<M>(s: Seq<Option<SlotModel<M>>>) -> int {
    choose|i: int| is_first_free(s, i)
}

/// No key is in two slots.
pub open spec fn unique_keys<M>(s: Seq<Option<SlotModel<M>>>) -> bool {
    forall|i: int, j: int|
        #![trigger s[i], s[j]]
        0 <= i < s.len() && 0 <= j < s.len() && s[i] is Some && s[j] is Some && s[i]->0.key
            == s[j]->0.key ==> i == j
}

/// Slot `i` holds key `key`.
pub open spec fn slot_has_key<M>(s: Seq<Option<SlotModel<M>>>, i: int, key: u64) -> bool {
    0 <= i < s.len() && s[i] is Some && s[i]->0.key == key
}

pub open spec fn key_slot<M>(s: Seq<Option<SlotModel<M>>>, key: u64) -> int {
    choose|i: int| slot_has_key(s, i, key)
}

/// The values held, by key.
pub open spec fn cache_map<M>(s: Seq<Option<SlotModel<M>>>) -> Map<u64, M> {
    Map::new(
        |k: u64| exists|i: int| slot_has_key(s, i, k),
        |k: u64| s[key_slot(s, k)]->0.value,
    )
}

/// A cache of at most `capacity` values, keyed by number. Every access counts
/// as a use; when it is full, inserting a new key evicts the value used
/// least recently.
pub struct LruCache<T> {
    entries: Vec<Option<LruCacheEntry<T>>>,
    age: u64,
    capacity: usize,
}

impl<T: CacheValue> LruCache<T> {
    /// The slots.
    pub closed spec fn slots(&self) -> Seq<Option<SlotModel<T::Model>>> {
        self.entries@.map_values(|e: Option<LruCacheEntry<T>>| slot_model(e))
    }

    /// The clock that each access advances.
    pub closed spec fn clock(&self) -> u64 {
        self.age
    }

    pub closed spec fn spec_capacity(&self) -> nat {
        self.capacity as nat
    }

    /// The values held, by key.
    pub open spec fn view(&self) -> Map<u64, T::Model> {
        cache_map(self.slots())
    }

    /// No key is held twice, and there are `capacity` slots.
    pub closed spec fn wf(&self) -> bool {
        &&& self.entries@.len() == self.capacity
        &&& unique_keys(self.slots())
    }

    /// An empty cache with `capacity` slots.
    pub fn new(capacity: usize) -> (r: Self)
        ensures
            r.wf(),
            r.spec_capacity() == capacity,
            r.slots() == Seq::<Option<SlotModel<T::Model>>>::new(capacity as nat, |i: int| None),
            r@ == Map::<u64, T::Model>::empty(),
            r.clock() == 0,
    {
        let mut entries: Vec<Option<LruCacheEntry<T>>> = Vec::with_capacity(capacity);
        let mut i: usize = 0;
        while i < capacity
            invariant
                i <= capacity,
                entries@.len() == i,
                forall|j: int| 0 <= j < i ==> #[trigger] entries@[j] is None,
            decreases capacity - i,
        {
            entries.push(None);
            i = i + 1;
        }
        let r = LruCache { entries, age: 0, capacity };
        proof {
            assert(r.slots() =~= Seq::<Option<SlotModel<T::Model>>>::new(
                capacity as nat,
                |i: int| None,
            ));
            assert(r@ =~= Map::<u64, T::Model>::empty());
        }
        r
    }

    proof fn lemma_key_slot(&self, i: int, key: u64)
        requires
            self.wf(),
            slot_has_key(self.slots(), i, key),
        ensures
            key_slot(self.slots(), key) == i,
            self@.contains_key(key),
            self@[key] == self.slots()[i]->0.value,
    {
        let j = key_slot(self.slots(), key);
        assert(slot_has_key(self.slots(), j, key));
        assert(self.slots()[i]->0.key == key);
    }

    /// Slot holding `key`.
    fn find(&self, key: u64) -> (r: Option<usize>)
        requires
            self.wf(),
        ensures
            r is Some <==> self@.contains_key(key),
            r is Some ==> r->0 == key_slot(self.slots(), key) && slot_has_key(
                self.slots(),
                r->0 as int,
                key,
            ),
    {
        let n = self.entries.len();
        let mut i: usize = 0;
        while i < n
            invariant
                n == self.entries@.len(),
                i <= n,
                self.wf(),
                forall|j: int| 0 <= j < i ==> !#[trigger] slot_has_key(self.slots(), j, key),
            decreases n - i,
        {
            if let Some(e) = &self.entries[i] {
                if e.key == key {
                    proof {
                        assert(slot_has_key(self.slots(), i as int, key));
                        self.lemma_key_slot(i as int, key);
                    }
                    return Some(i);
                }
            }
            proof {
                assert(!slot_has_key(self.slots(), i as int, key));
            }
            i = i + 1;
        }
        proof {
            if self@.contains_key(key) {
                let j = choose|j: int| slot_has_key(self.slots(), j, key);
                assert(!slot_has_key(self.slots(), j, key));
            }
        }
        None
    }

    /// The value held under `key`, counted as a use.
    pub fn get(&mut self, key: u64) -> (r: Option<T>)
        requires
            old(self).wf(),
        ensures
            final(self).wf(),
            final(self).spec_capacity() == old(self).spec_capacity(),
            final(self).clock() == old(self).clock().wrapping_add(1),
            final(self)@ == old(self)@,
            r is Some <==> old(self)@.contains_key(key),
            r is Some ==> r->0.model() == old(self)@[key],
            r is Some ==> final(self).slots() == old(self).slots().update(
                key_slot(old(self).slots(), key),
                Some(SlotModel { key, value: old(self)@[key], age: final(self).clock() }),
            ),
            r is None ==> final(self).slots() == old(self).slots(),
    {
        self.age = self.age.wrapping_add(1);
        let ghost mid = *self;
        match self.find(key) {
            Some(i) => {
                let age = self.age;
                let ghost before = self.slots();
                let e = self.entries[i].as_mut().unwrap();
                e.age = age;
                let v = e.value.duplicate();
                proof {
                    assert(self.slots() =~= before.update(
                        i as int,
                        Some(SlotModel { key, value: before[i as int]->0.value, age }),
                    ));
                    assert forall|a: int, b: int|
                        #![trigger self.slots()[a], self.slots()[b]]
                        0 <= a < self.slots().len() && 0 <= b < self.slots().len()
                            && self.slots()[a] is Some && self.slots()[b] is Some
                            && self.slots()[a]->0.key == self.slots()[b]->0.key implies a == b by {
                        assert(before[a] is Some && before[b] is Some);
                    }
                    assert forall|k: u64| #[trigger] self@.contains_key(k) <==> mid@.contains_key(k) by {
                        if self@.contains_key(k) {
                            let j = choose|j: int| slot_has_key(self.slots(), j, k);
                            assert(slot_has_key(before, j, k));
                        }
                        if mid@.contains_key(k) {
                            let j = choose|j: int| slot_has_key(before, j, k);
                            assert(slot_has_key(self.slots(), j, k));
                        }
                    }
                    assert forall|k: u64| #[trigger] self@.contains_key(k) implies self@[k] == mid@[k] by {
                        let j = choose|j: int| slot_has_key(self.slots(), j, k);
                        self.lemma_key_slot(j, k);
                        mid.lemma_key_slot(j, k);
                    }
                    assert(self@ =~= mid@);
                }
                Some(v)
            },
            None => None,
        }
    }

    /// Where an insert of a new key goes: the first free slot, or else the
    /// slot used least recently.
    fn victim(&self) -> (r: usize)
        requires
            self.wf(),
            self.slots().len() > 0,
        ensures
            r < self.slots().len(),
            (exists|i: int| is_first_free(self.slots(), i)) ==> is_first_free(self.slots(), r as int),
            !(exists|i: int| is_first_free(self.slots(), i)) ==> is_least_recent(self.slots(), r as int),
    {
        let n = self.entries.len();
        let mut i: usize = 0;
        while i < n
            invariant
                n == self.slots().len(),
                i <= n,
                forall|j: int| 0 <= j < i ==> #[trigger] self.slots()[j] is Some,
            decreases n - i,
        {
            if self.entries[i].is_none() {
                proof {
                    assert(self.slots()[i as int] is None);
                    assert(is_first_free(self.slots(), i as int));
                }
                return i;
            }
            i = i + 1;
        }
        proof {
            assert forall|j: int| !is_first_free(self.slots(), j) by {
                if 0 <= j < n {
                    assert(self.slots()[j] is Some);
                }
            }
        }
        let mut lru_idx: usize = 0;
        let mut lru_age: u64 = u64::MAX;
        let mut i: usize = 0;
        while i < n
            invariant
                n == self.slots().len(),
                n > 0,
                i <= n,
                lru_idx < n,
                forall|j: int| 0 <= j < n ==> #[trigger] self.slots()[j] is Some,
                i == 0 ==> lru_idx == 0 && lru_age == u64::MAX,
                i > 0 ==> lru_idx < i && lru_age == self.slots()[lru_idx as int]->0.age,
                forall|j: int| 0 <= j < i ==> lru_age <= #[trigger] self.slots()[j]->0.age,
                forall|j: int| 0 <= j < lru_idx ==> lru_age < #[trigger] self.slots()[j]->0.age,
                i > 0 && lru_age == u64::MAX ==> lru_idx == 0,
            decreases n - i,
        {
            if let Some(e) = &self.entries[i] {
                if e.age < lru_age {
                    lru_age = e.age;
                    lru_idx = i;
                }
            }
            i = i + 1;
        }
        proof {
            assert(lru_age == self.slots()[lru_idx as int]->0.age);
        }
        lru_idx
    }

    /// Holds `value` under `key`, counted as a use: in the slot of `key`
    /// when it is held, else in the first free slot, else in place of the
    /// value used least recently.
    pub fn insert(&mut self, key: u64, value: T)
        requires
            old(self).wf(),
            old(self).spec_capacity() > 0,
        ensures
            final(self).wf(),
            final(self).spec_capacity() == old(self).spec_capacity(),
            final(self).clock() == old(self).clock().wrapping_add(1),
            ({
                let s = old(self).slots();
                let full = !(exists|i: int| is_first_free(s, i));
                let i = if old(self)@.contains_key(key) {
                    key_slot(s, key)
                } else if !full {
                    first_free_slot(s)
                } else {
                    least_recent_index(s)
                };
                &&& final(self).slots() == s.update(i, Some(SlotModel { key, value: value.model(), age: final(self).clock() }))
                &&& final(self)@ == if old(self)@.contains_key(key) || !full {
                    old(self)@.insert(key, value.model())
                } else {
                    old(self)@.remove(s[least_recent_index(s)]->0.key).insert(key, value.model())
                }
            }),
    {
        self.age = self.age.wrapping_add(1);
        let age = self.age;
        let ghost mid = *self;
        let ghost s = self.slots();
        let ghost vm = value.model();
        let i = match self.find(key) {
            Some(i) => i,
            None => self.victim(),
        };
        proof {
            if !mid@.contains_key(key) {
                if exists|j: int| is_first_free(s, j) {
                    let j = choose|j: int| is_first_free(s, j);
                    assert(first_free_slot(s) == i) by {
                        let k = first_free_slot(s);
                        assert(is_first_free(s, k));
                        if k < i {
                            assert(s[k] is Some);
                        }
                        if i < k {
                            assert(s[i as int] is Some);
                        }
                    }
                } else {
                    assert(least_recent_index(s) == i) by {
                        let k = least_recent_index(s);
                        assert(is_least_recent(s, k));
                        if k < i {
                            assert(s[i as int]->0.age < s[k]->0.age);
                        }
                        if i < k {
                            assert(s[k]->0.age < s[i as int]->0.age);
                        }
                    }
                }
            }
        }
        self.entries.set(i, Some(LruCacheEntry { key, value, age }));
        proof {
            let t = self.slots();
            assert(t =~= s.update(i as int, Some(SlotModel { key, value: vm, age })));
            let evicted = s[i as int];
            assert forall|a: int, b: int|
                #![trigger t[a], t[b]]
                0 <= a < t.len() && 0 <= b < t.len() && t[a] is Some && t[b] is Some && t[a]->0.key
                    == t[b]->0.key implies a == b by {
                if a != i && b != i {
                    assert(s[a] is Some && s[b] is Some);
                } else if a == i && b != i {
                    assert(slot_has_key(s, b, key));
                    mid.lemma_key_slot(b, key);
                } else if a != i && b == i {
                    assert(slot_has_key(s, a, key));
                    mid.lemma_key_slot(a, key);
                }
            }
            let expected = if mid@.contains_key(key) || evicted is None {
                mid@.insert(key, vm)
            } else {
                mid@.remove(evicted->0.key).insert(key, vm)
            };
            assert forall|k: u64| #[trigger] self@.contains_key(k) <==> expected.contains_key(k) by {
                if self@.contains_key(k) {
                    let j = choose|j: int| slot_has_key(t, j, k);
                    if j != i {
                        assert(slot_has_key(s, j, k));
                        if evicted is Some && !mid@.contains_key(key) && evicted->0.key == k {
                            assert(slot_has_key(s, i as int, k));
                            mid.lemma_key_slot(i as int, k);
                            mid.lemma_key_slot(j, k);
                        }
                    }
                }
                if expected.contains_key(k) {
                    if k == key {
                        assert(slot_has_key(t, i as int, k));
                    } else {
                        let j = choose|j: int| slot_has_key(s, j, k);
                        if j == i {
                            if mid@.contains_key(key) {
                                mid.lemma_key_slot(i as int, key);
                            }
                        }
                        assert(slot_has_key(t, j, k));
                    }
                }
            }
            assert forall|k: u64| #[trigger] self@.contains_key(k) implies self@[k] == expected[k] by {
                let j = choose|j: int| slot_has_key(t, j, k);
                self.lemma_key_slot(j, k);
                if j != i {
                    assert(slot_has_key(s, j, k));
                    mid.lemma_key_slot(j, k);
                }
            }
            assert(self@ =~= expected);
        }
    }
}

} // verus!
