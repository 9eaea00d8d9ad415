//! Time slicing.

use vstd::prelude::*;

verus! {

/// The fields of a scheduler.
pub struct SchedulerView {
    pub enabled: bool,
    pub time_slice: u64,
    pub current_slice: u64,
}

/// What one timer tick does to the scheduler, and whether the running
/// thread's time slice is used up.
pub open spec fn tick_effect(s: SchedulerView) -> (SchedulerView, bool) {
    if !s.enabled {
        (s, false)
    } else if s.current_slice + 1 >= s.time_slice {
        (SchedulerView { current_slice: 0, ..s }, true)
    } else {
        (SchedulerView { current_slice: (s.current_slice + 1) as u64, ..s }, false)
    }
}

/// The scheduler after `n` timer ticks.
pub open spec fn after_ticks(s: SchedulerView, n: nat) -> SchedulerView
    decreases n,
{
    if n == 0 {
        s
    } else {
        tick_effect(after_ticks(s, (n - 1) as nat)).0
    }
}

/// Counts timer ticks and says when the running thread has used up its
/// time slice.
pub struct Scheduler {
    enabled: bool,
    time_slice: u64,
    current_slice: u64,
}

impl View for Scheduler {
    type V = SchedulerView;

    closed spec fn view(&self) -> SchedulerView {
        SchedulerView {
            enabled: self.enabled,
            time_slice: self.time_slice,
            current_slice: self.current_slice,
        }
    }
}

impl Scheduler {
    /// Ticks in a time slice unless set otherwise (10 ms ticks: 100 ms).
    pub const DEFAULT_TIME_SLICE: u64 = 10;

    pub open spec fn new_view() -> SchedulerView {
        SchedulerView { enabled: false, time_slice: Self::DEFAULT_TIME_SLICE, current_slice: 0 }
    }

    pub open spec fn wf(&self) -> bool {
        self@.current_slice < u64::MAX
    }

    /// A disabled scheduler with the default time slice.
    pub fn new() -> (r: Self)
        ensures
            r.wf(),
            r@ == (SchedulerView {
                enabled: false,
                time_slice: Self::DEFAULT_TIME_SLICE,
                current_slice: 0,
            }),
    {
        Scheduler { enabled: false, time_slice: Self::DEFAULT_TIME_SLICE, current_slice: 0 }
    }

    pub fn enable(&mut self)
        ensures
            final(self)@ == (SchedulerView { enabled: true, ..old(self)@ }),
    {
        self.enabled = true;
    }

    pub fn disable(&mut self)
        ensures
            final(self)@ == (SchedulerView { enabled: false, ..old(self)@ }),
    {
        self.enabled = false;
    }

    pub fn is_enabled(&self) -> (r: bool)
        ensures
            r == self@.enabled,
    {
        self.enabled
    }

    pub fn set_time_slice(&mut self, slice: u64)
        ensures
            final(self)@ == (SchedulerView { time_slice: slice, ..old(self)@ }),
    {
        self.time_slice = slice;
    }

    /// One timer tick: when enabled, counts it and returns `true` (starting
    /// the count again) once the time slice is used up.
    pub fn tick(&mut self) -> (r: bool)
        requires
            old(self).wf(),
        ensures
            final(self).wf(),
            (final(self)@, r) == tick_effect(old(self)@),
    {
        if !self.enabled {
            return false;
        }
        self.current_slice = self.current_slice + 1;
        if self.current_slice >= self.time_slice {
            self.current_slice = 0;
            true
        } else {
            false
        }
    }

    /// Starts the time slice again.
    pub fn reset_slice(&mut self)
        ensures
            final(self)@ == (SchedulerView { current_slice: 0, ..old(self)@ }),
    {
        self.current_slice = 0;
    }
}

/// An enabled scheduler whose slice was just started runs a thread for
/// exactly `time_slice` ticks: the ticks before the last of them return
/// `false`, and the last returns `true` and starts the slice again.
pub proof fn law_time_slice_expires_after_time_slice_ticks(s: SchedulerView, k: nat)
    requires
        s.enabled,
        s.current_slice == 0,
        s.time_slice >= 1,
        k < s.time_slice,
    ensures
        after_ticks(s, k) == (SchedulerView { current_slice: k as u64, ..s }),
        tick_effect(after_ticks(s, k)).1 == (k + 1 == s.time_slice),
        k + 1 == s.time_slice ==> tick_effect(after_ticks(s, k)).0 == s,
    decreases k,
{
    if k > 0 {
        law_time_slice_expires_after_time_slice_ticks(s, (k - 1) as nat);
    }
}

} // verus!
