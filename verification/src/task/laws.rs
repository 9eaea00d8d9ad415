//! Properties of the task model that span operations.

use vstd::prelude::*;

use super::slots::{occupied, first_free, first_free_index, first_key_index, first_with_key, has_key, holds_key, Keyed};
use super::system::{demote_current, schedule_effect, with_thread_state, yield_effect};
use super::thread_queue::{
    count_in_state, cyclic_distance, first_ready, first_ready_index, has_ready, is_ready, next_ready_after,
    next_ready_after_index, round_robin_choice,
};
use super::types::{lemma_with_state_twice, lemma_with_state_view, Thread, ThreadId, ThreadState};

verus! {

broadcast use {lemma_with_state_view, lemma_with_state_twice};

/// Changing a thread's state keeps every thread under its id.
proof fn lemma_state_keeps_keys(s: Seq<Option<Thread>>, id: ThreadId, state: ThreadState)
    ensures
        with_thread_state(s, id, state).len() == s.len(),
        forall|i: int, k: u64| #[trigger] holds_key(with_thread_state(s, id, state), i, k) == holds_key(s, i, k),
{
    if has_key(s, id@) {
        let j = first_key_index(s, id@);
        let w = choose|w: int| holds_key(s, w, id@);
        lemma_first_with_key_exists(s, w, id@);
        assert forall|i: int, k: u64| #[trigger] holds_key(with_thread_state(s, id, state), i, k) == holds_key(s, i, k) by {
            if i == j {
                assert(with_thread_state(s, id, state)[i]->0@.id == s[i]->0@.id);
            }
        }
    }
}

/// Where some slot holds `key`, a first such slot exists.
proof fn lemma_first_with_key_exists<T: Keyed>(s: Seq<Option<T>>, w: int, key: u64)
    requires
        holds_key(s, w, key),
    ensures
        first_with_key(s, first_key_index(s, key), key),
    decreases w,
{
    if exists|j: int| 0 <= j < w && #[trigger] holds_key(s, j, key) {
        let j = choose|j: int| 0 <= j < w && #[trigger] holds_key(s, j, key);
        lemma_first_with_key_exists(s, j, key);
    } else {
        assert(first_with_key(s, w, key));
    }
}

/// Putting a thread to sleep and then waking it leaves it ready, and
/// every other slot as it was.
pub proof fn law_wake_after_sleep(s: Seq<Option<Thread>>, id: ThreadId)
    requires
        has_key(s, id@),
    ensures
        ({
            let slept = with_thread_state(s, id, ThreadState::Sleeping);
            &&& has_key(slept, id@)
            &&& slept[first_key_index(slept, id@)]->0@.state == ThreadState::Sleeping
            &&& with_thread_state(slept, id, ThreadState::Ready) == with_thread_state(
                s,
                id,
                ThreadState::Ready,
            )
        }),
{
    let slept = with_thread_state(s, id, ThreadState::Sleeping);
    let w = choose|w: int| holds_key(s, w, id@);
    lemma_first_with_key_exists(s, w, id@);
    let j = first_key_index(s, id@);
    lemma_state_keeps_keys(s, id, ThreadState::Sleeping);
    assert(holds_key(slept, j, id@));
    assert(first_with_key(slept, j, id@)) by {
        assert forall|k: int| 0 <= k < j implies !#[trigger] holds_key(slept, k, id@) by {
            assert(!holds_key(s, k, id@));
        }
    }
    super::slots::lemma_first_key_unique(slept, j, id@);
    assert(with_thread_state(slept, id, ThreadState::Ready) =~= with_thread_state(
        s,
        id,
        ThreadState::Ready,
    ));
}

/// Where a slot holds a ready thread, there is a first one.
proof fn lemma_first_ready_exists(s: Seq<Option<Thread>>, w: int)
    requires
        is_ready(s, w),
    ensures
        first_ready(s, first_ready_index(s)),
    decreases w,
{
    if exists|j: int| 0 <= j < w && #[trigger] is_ready(s, j) {
        let j = choose|j: int| 0 <= j < w && #[trigger] is_ready(s, j);
        lemma_first_ready_exists(s, j);
    } else {
        assert(first_ready(s, w));
    }
}

/// Where a slot holds a ready thread, there is a nearest one after `from`.
proof fn lemma_next_ready_exists(s: Seq<Option<Thread>>, from: int, w: int)
    requires
        0 <= from < s.len(),
        is_ready(s, w),
    ensures
        next_ready_after(s, from, next_ready_after_index(s, from)),
    decreases cyclic_distance(s.len() as int, from, w),
{
    if exists|j: int| #[trigger] is_ready(s, j) && cyclic_distance(s.len() as int, from, j) < cyclic_distance(
        s.len() as int,
        from,
        w,
    ) {
        let j = choose|j: int| #[trigger] is_ready(s, j) && cyclic_distance(s.len() as int, from, j)
            < cyclic_distance(s.len() as int, from, w);
        lemma_next_ready_exists(s, from, j);
    } else {
        assert(next_ready_after(s, from, w));
    }
}

/// The round-robin choice, where there is one, is a slot holding a ready
/// thread; there is none only when no thread is ready.
pub proof fn law_round_robin_picks_ready(s: Seq<Option<Thread>>, current: Option<ThreadId>)
    ensures
        round_robin_choice(s, current) is None <==> !has_ready(s),
        round_robin_choice(s, current) is Some ==> is_ready(s, round_robin_choice(s, current)->0),
{
    if has_ready(s) {
        let w = choose|w: int| is_ready(s, w);
        lemma_first_ready_exists(s, w);
        match current {
            Some(c) => if has_key(s, c@) {
                let k = choose|k: int| holds_key(s, k, c@);
                lemma_first_with_key_exists(s, k, c@);
                lemma_next_ready_exists(s, first_key_index(s, c@), w);
            },
            None => {},
        }
    }
}

/// Scheduling runs a thread that was ready (once the current thread, if
/// running, was put back to ready), or runs nothing when none was ready.
pub proof fn law_schedule_runs_a_ready_thread(s: Seq<Option<Thread>>, current: Option<ThreadId>)
    ensures
        ({
            let mid = demote_current(s, current);
            let (after, next) = schedule_effect(s, current);
            match next {
                Some(id) => exists|i: int|
                    is_ready(mid, i) && #[trigger] mid[i]->0@.id == id && after[i] is Some
                        && after[i]->0@.state == ThreadState::Running && after[i]->0@.id == id,
                None => !has_ready(mid) && after == mid,
            }
        }),
{
    let mid = demote_current(s, current);
    law_round_robin_picks_ready(mid, current);
    match round_robin_choice(mid, current) {
        Some(i) => {
            let after = schedule_effect(s, current).0;
            assert(mid[i]->0@.id == schedule_effect(s, current).1->0);
            assert(after[i]->0@.state == ThreadState::Running);
        },
        None => {},
    }
}

/// A terminated thread is never picked to run, and stays terminated.
pub proof fn law_terminated_never_scheduled(s: Seq<Option<Thread>>, current: Option<ThreadId>, i: int)
    requires
        0 <= i < s.len(),
        s[i] is Some,
        s[i]->0@.state == ThreadState::Terminated,
    ensures
        round_robin_choice(demote_current(s, current), current) != Some(i),
        schedule_effect(s, current).0[i] == s[i],
{
    let mid = demote_current(s, current);
    law_round_robin_picks_ready(mid, current);
    if let Some(c) = current {
        if has_key(s, c@) {
            let w = choose|w: int| holds_key(s, w, c@);
            lemma_first_with_key_exists(s, w, c@);
        }
    }
    match current {
        Some(c) => if has_key(s, c@) && s[first_key_index(s, c@)]->0@.state == ThreadState::Running {
            let k = first_key_index(s, c@);
            assert(k != i);
            assert(mid == s.update(k, Some(s[k]->0.with_state(ThreadState::Ready))));
            assert(mid[i] == s[i]);
        } else {
            assert(mid == s);
        },
        None => {
            assert(mid == s);
        },
    }
    assert(!is_ready(mid, i));
    match round_robin_choice(mid, current) {
        Some(j) => {
            assert(j != i);
            assert(schedule_effect(s, current).0 == mid.update(j, Some(mid[j]->0.with_state(ThreadState::Running))));
        },
        None => {},
    }
}

/// While the scheduler is disabled, giving up the CPU changes nothing.
pub proof fn law_yield_disabled_changes_nothing(threads: Seq<Option<Thread>>, current: Option<ThreadId>)
    ensures
        yield_effect(false, threads, current) == (threads, current, None::<super::system::ContextSwitch>),
{
}

/// A new item put in the first free slot is then found by its key there,
/// and taking it out again restores the table.
pub proof fn law_add_then_get_then_remove<T: Keyed>(s: Seq<Option<T>>, item: T)
    requires
        exists|i: int| first_free(s, i),
        !has_key(s, item.key()),
    ensures
        ({
            let f = first_free_index(s);
            let added = s.update(f, Some(item));
            &&& has_key(added, item.key())
            &&& first_key_index(added, item.key()) == f
            &&& added[f] == Some(item)
            &&& added.update(first_key_index(added, item.key()), None) == s
        }),
{
    let w = choose|i: int| first_free(s, i);
    super::slots::lemma_first_free_unique(s, w);
    let f = first_free_index(s);
    let added = s.update(f, Some(item));
    assert(holds_key(added, f, item.key()));
    assert(first_with_key(added, f, item.key())) by {
        assert forall|j: int| 0 <= j < f implies !#[trigger] holds_key(added, j, item.key()) by {
            if holds_key(added, j, item.key()) {
                assert(holds_key(s, j, item.key()));
            }
        }
    }
    super::slots::lemma_first_key_unique(added, f, item.key());
    assert(added.update(f, None) =~= s);
}

/// The numbers of threads in each state add up to the number of threads.
pub proof fn law_state_counts_add_up(s: Seq<Option<Thread>>)
    ensures
        count_in_state(s, ThreadState::Ready) + count_in_state(s, ThreadState::Running)
            + count_in_state(s, ThreadState::Blocked) + count_in_state(s, ThreadState::Sleeping)
            + count_in_state(s, ThreadState::Terminated) == occupied(s),
    decreases s.len(),
{
    if s.len() > 0 {
        law_state_counts_add_up(s.drop_last());
    }
}

} // verus!
