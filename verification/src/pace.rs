//! The pace of an animation.
//!
//! Each frame is due one frame's time after the one before it was due, not
//! after it was shown, so that the time that drawing takes does not add up.
//! A frame that is late is shown at once, and the frames behind it are due
//! from then on: no time is slept that has already gone by, and no missed
//! frame is made up for.

use vstd::prelude::*;

verus! {

/// The clock of an animation. Times are in nanoseconds from a beginning
/// that the caller has fixed.
#[derive(Clone, Copy, PartialEq, Eq, Structural, Debug)]
pub struct Pacer {
    /// The time that a frame stays on the screen.
    pub frame_time: u64,
    /// The time at which the frame that is on the screen was due.
    pub deadline: u64,
}

/// `a + b`, held at the largest value.
pub open spec fn add_held(a: u64, b: u64) -> u64 {
    if a + b <= u64::MAX {
        (a + b) as u64
    } else {
        u64::MAX
    }
}

impl Pacer {
    /// The time at which the next frame is due.
    pub open spec fn due(self) -> u64 {
        add_held(self.deadline, self.frame_time)
    }

    /// The time to wait at the time `now` before the next frame is shown.
    pub open spec fn wait(self, now: u64) -> u64 {
        if self.due() > now {
            (self.due() - now) as u64
        } else {
            0
        }
    }

    /// The clock behind a frame that was due to be shown after the time
    /// `now`: it was due when it was due, or at `now` if that was later.
    pub open spec fn moved_on(self, now: u64) -> Pacer {
        Pacer {
            deadline: if self.due() > now {
                self.due()
            } else {
                now
            },
            ..self
        }
    }

    /// A clock for frames of the time `frame_time` each, begun at the time
    /// `now`.
    pub fn new(frame_time: u64, now: u64) -> (pacer: Pacer)
        ensures
            pacer == (Pacer { frame_time, deadline: now }),
    {
        Pacer { frame_time, deadline: now }
    }

    /// Begins the animation of a line at the time `now`: its first frame is
    /// due one frame's time from now.
    pub fn begin(&mut self, now: u64)
        ensures
            *final(self) == (Pacer { deadline: now, ..*old(self) }),
    {
        self.deadline = now;
    }

    /// Moves the clock on behind a frame that has been drawn by the time
    /// `now`, and returns the time to sleep before the next frame is drawn.
    pub fn pause(&mut self, now: u64) -> (sleep: u64)
        ensures
            sleep == old(self).wait(now),
            *final(self) == old(self).moved_on(now),
    {
        let due: u64 = self.deadline.saturating_add(self.frame_time);
        if due > now {
            self.deadline = due;
            due - now
        } else {
            self.deadline = now;
            0
        }
    }
}

/// A frame is never waited for longer than one frame's time once the clock
/// has caught up, and the sleep ends when the frame is due: no pause drifts.
pub proof fn lemma_pause_ends_when_due(pacer: Pacer, now: u64)
    ensures
        now + pacer.wait(now) == if pacer.due() > now {
            pacer.due() as int
        } else {
            now as int
        },
        pacer.moved_on(now).deadline == now + pacer.wait(now),
        pacer.deadline <= now ==> pacer.wait(now) <= pacer.frame_time,
{
}

/// A frame that is late is shown at once, and what is behind it is due from
/// then on: a missed frame is not made up for.
pub proof fn lemma_late_frame_is_not_made_up(pacer: Pacer, now: u64)
    requires
        pacer.due() <= now,
    ensures
        pacer.wait(now) == 0,
        pacer.moved_on(now).deadline == now,
        pacer.moved_on(now).wait(now) <= pacer.frame_time,
{
}

} // verus!
