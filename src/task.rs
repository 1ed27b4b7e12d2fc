//! One countdown: its target, the time it has consumed, and whether it runs.
//!
//! Instants are milliseconds on a monotonic clock chosen by the caller;
//! `created_at` is a wall-clock timestamp in nanoseconds since the Unix epoch,
//! carried for display and history only.
use vstd::prelude::*;

verus! {

/// What a countdown is doing at a given instant.
#[derive(Debug, Clone, Copy, PartialEq, Eq, Structural)]
pub enum TaskState {
    Running,
    Paused,
    Finished,
}

pub struct CountdownTask {
    pub id: u64,
    pub label: String,
    /// The text the length was parsed from.
    pub input: String,
    pub target_secs: u64,
    pub created_at: i64,
    /// Time consumed before the current running interval.
    pub accumulated_ms: u64,
    /// Start of the current running interval; `None` while paused.
    pub running_since: Option<u64>,
    /// The instant at which completion was first observed.
    pub finished_at: Option<u64>,
}

/// Time from `from` to `to`, or zero if the clock reads earlier.
pub open spec fn gap(from: u64, to: u64) -> nat {
    if to >= from {
        (to - from) as nat
    } else {
        0
    }
}

/// `x` saturated at the largest `u64`.
pub open spec fn saturate(x: int) -> u64 {
    if x > u64::MAX {
        u64::MAX
    } else {
        x as u64
    }
}

impl CountdownTask {
    /// Consumed time at `now`, in milliseconds (a counter that saturates).
    pub open spec fn elapsed_at(&self, now: u64) -> u64 {
        match self.running_since {
            Some(since) => saturate(self.accumulated_ms + gap(since, now)),
            None => self.accumulated_ms,
        }
    }

    pub open spec fn target_ms(&self) -> int {
        self.target_secs * 1000
    }

    /// The consumed time has reached the target.
    pub open spec fn time_is_up(&self, now: u64) -> bool {
        self.elapsed_at(now) >= self.target_ms()
    }

    pub open spec fn is_finalized(&self) -> bool {
        self.finished_at is Some
    }

    pub open spec fn state_at(&self, now: u64) -> TaskState {
        if self.is_finalized() || self.time_is_up(now) {
            TaskState::Finished
        } else if self.running_since is None {
            TaskState::Paused
        } else {
            TaskState::Running
        }
    }

    /// Milliseconds left at `now`: the target less the consumed time, and
    /// zero once the countdown is finished.
    pub open spec fn remaining_ms_at(&self, now: u64) -> int {
        if self.state_at(now) == TaskState::Finished {
            0
        } else {
            self.target_ms() - self.elapsed_at(now)
        }
    }

    /// The time left at `now` in whole seconds, rounded up.
    pub open spec fn remaining_secs_at(&self, now: u64) -> int {
        (self.remaining_ms_at(now) + 999) / 1000
    }

    /// The countdown after a pause at `now`: a running one keeps what it has
    /// consumed and stops; any other is unchanged.
    pub open spec fn paused_at(self, now: u64) -> CountdownTask {
        if self.state_at(now) == TaskState::Running {
            CountdownTask { accumulated_ms: self.elapsed_at(now), running_since: None, ..self }
        } else {
            self
        }
    }

    /// The countdown after a resume at `now`: a paused one runs again from
    /// `now`; any other is unchanged.
    pub open spec fn resumed_at(self, now: u64) -> CountdownTask {
        if self.state_at(now) == TaskState::Paused {
            CountdownTask { running_since: Some(now), ..self }
        } else {
            self
        }
    }

    /// A new countdown, running from `now`.
    pub fn new(id: u64, label: String, input: String, target_secs: u64, now: u64, created_at: i64) -> (r: Self)
        ensures
            r.id == id,
            r.label == label,
            r.input == input,
            r.target_secs == target_secs,
            r.created_at == created_at,
            r.accumulated_ms == 0,
            r.running_since == Some(now),
            r.finished_at is None,
    {
        CountdownTask {
            id,
            label,
            input,
            target_secs,
            created_at,
            accumulated_ms: 0,
            running_since: Some(now),
            finished_at: None,
        }
    }

    /// Consumed time at `now`, in milliseconds.
    pub fn elapsed(&self, now: u64) -> (r: u64)
        ensures
            r == self.elapsed_at(now),
    {
        match self.running_since {
            Some(since) => {
                let g: u64 = if now >= since {
                    now - since
                } else {
                    0
                };
                if g > u64::MAX - self.accumulated_ms {
                    u64::MAX
                } else {
                    self.accumulated_ms + g
                }
            },
            None => self.accumulated_ms,
        }
    }

    /// Whether the consumed time has reached the target at `now`.
    pub fn is_time_up(&self, now: u64) -> (r: bool)
        ensures
            r == self.time_is_up(now),
    {
        self.elapsed(now) / 1000 >= self.target_secs
    }

    pub fn is_paused(&self) -> (r: bool)
        ensures
            r == (self.running_since is None),
    {
        self.running_since.is_none()
    }

    pub fn state(&self, now: u64) -> (r: TaskState)
        ensures
            r == self.state_at(now),
    {
        if self.finished_at.is_some() || self.is_time_up(now) {
            TaskState::Finished
        } else if self.running_since.is_none() {
            TaskState::Paused
        } else {
            TaskState::Running
        }
    }

    /// Milliseconds left at `now`: the target less the consumed time, and
    /// zero once the countdown is finished.
    pub fn remaining_ms(&self, now: u64) -> (r: u128)
        ensures
            r == self.remaining_ms_at(now),
    {
        if self.state(now) == TaskState::Finished {
            0
        } else {
            self.target_secs as u128 * 1000 - self.elapsed(now) as u128
        }
    }

    /// The time left at `now` in whole seconds, rounded up, so that it is
    /// zero exactly when the countdown is finished.
    pub fn remaining_secs(&self, now: u64) -> (r: u64)
        ensures
            r == self.remaining_secs_at(now),
            r == 0 <==> self.state_at(now) == TaskState::Finished,
    {
        if self.state(now) == TaskState::Finished {
            0
        } else {
            self.target_secs - self.elapsed(now) / 1000
        }
    }

    /// Stops the clock of a running countdown, keeping what it has consumed.
    /// A paused or finished countdown is left as it is.
    pub fn pause(&mut self, now: u64)
        ensures
            *final(self) == old(self).paused_at(now),
    {
        if self.state(now) == TaskState::Running {
            self.accumulated_ms = self.elapsed(now);
            self.running_since = None;
        }
    }

    /// Starts the clock of a paused countdown again from `now`; the time spent
    /// paused is not charged. A running or finished countdown is left as it is.
    pub fn resume(&mut self, now: u64)
        ensures
            *final(self) == old(self).resumed_at(now),
    {
        if self.state(now) == TaskState::Paused {
            self.running_since = Some(now);
        }
    }
}

/// Splits a number of seconds into hours, minutes and seconds for display;
/// the hours are not bounded.
pub fn split_hms(secs: u64) -> (r: (u64, u64, u64))
    ensures
        r.0 == secs / 3600,
        r.1 == (secs / 60) % 60,
        r.2 == secs % 60,
        r.0 * 3600 + r.1 * 60 + r.2 == secs,
{
    (secs / 3600, (secs / 60) % 60, secs % 60)
}

/// While the clock moves forward the consumed time never decreases.
pub proof fn law_elapsed_monotonic(t: CountdownTask, earlier: u64, later: u64)
    requires
        earlier <= later,
    ensures
        t.elapsed_at(earlier) <= t.elapsed_at(later),
{
}

/// Pausing a countdown and resuming it later charges nothing for the pause:
/// right after the resume it has consumed exactly what it had at the pause.
pub proof fn law_pause_suspends_time(t: CountdownTask, pause_at: u64, resume_at: u64)
    requires
        t.state_at(pause_at) == TaskState::Running,
    ensures
        t.paused_at(pause_at).resumed_at(resume_at).elapsed_at(resume_at) == t.elapsed_at(pause_at),
        t.paused_at(pause_at).resumed_at(resume_at).state_at(resume_at) == TaskState::Running,
{
}

} // verus!
