use vstd::prelude::*;

verus! {

/// Stopwatch state; times are milliseconds on a clock the caller reads.
#[derive(PartialEq, Eq, Structural, Clone, Copy, Debug)]
pub enum TimerState {
    Stopped { elapsed: u64 },
    Running { start: u64, elapsed: u64 },
}

/// The game's stopwatch. It never reads a clock itself: every call that
/// needs the time is handed `now`.
pub struct Timer {
    pub state: TimerState,
}

impl Timer {
    /// Milliseconds counted at time `now`; a clock reading before the start
    /// counts as no time.
    pub open spec fn elapsed_at(&self, now: u64) -> int {
        match self.state {
            TimerState::Stopped { elapsed } => elapsed as int,
            TimerState::Running { start, elapsed } => elapsed + if now >= start {
                now - start
            } else {
                0
            },
        }
    }

    pub fn new() -> (r: Timer)
        ensures
            r.state == (TimerState::Stopped { elapsed: 0 }),
    {
        Timer { state: TimerState::Stopped { elapsed: 0 } }
    }

    /// Starts counting at `now`; a running timer is left alone.
    pub fn start(&mut self, now: u64)
        ensures
            final(self).state == match old(self).state {
                TimerState::Stopped { elapsed } => TimerState::Running { start: now, elapsed },
                TimerState::Running { start, elapsed } => TimerState::Running { start, elapsed },
            },
    {
        match self.state {
            TimerState::Stopped { elapsed } => {
                self.state = TimerState::Running { start: now, elapsed };
            },
            TimerState::Running { .. } => {},
        }
    }

    pub fn get_milli_sec(&self, now: u64) -> (r: u64)
        requires
            self.elapsed_at(now) <= u64::MAX,
        ensures
            r == self.elapsed_at(now),
    {
        match self.state {
            TimerState::Stopped { elapsed } => elapsed,
            TimerState::Running { start, elapsed } => elapsed + now.saturating_sub(start),
        }
    }

    /// Whole seconds counted at `now`.
    pub fn get_sec(&self, now: u64) -> (r: u64)
        requires
            self.elapsed_at(now) <= u64::MAX,
        ensures
            r == self.elapsed_at(now) / 1000,
    {
        self.get_milli_sec(now) / 1000
    }

    /// Stops counting at `now`, keeping what was counted.
    pub fn stop(&mut self, now: u64)
        requires
            old(self).elapsed_at(now) <= u64::MAX,
        ensures
            final(self).state == (TimerState::Stopped { elapsed: old(self).elapsed_at(now) as u64 }),
    {
        let elapsed = self.get_milli_sec(now);
        self.state = TimerState::Stopped { elapsed };
    }

    /// Back to a stopped timer at zero.
    pub fn reset(&mut self)
        ensures
            final(self).state == (TimerState::Stopped { elapsed: 0 }),
    {
        self.state = TimerState::Stopped { elapsed: 0 };
    }
}

} // verus!
