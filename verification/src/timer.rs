use vstd::prelude::*;

verus! {

/// The duration, in milliseconds, that stands for "forever": a timer made
/// with it never becomes ready through elapsed-time updates.
pub const DURATION_MAX_MILLIS: u64 = 0xffff_ffff_ffff_ffff;

/// A countdown: a duration budget, the time still left, and a ready flag
/// that is raised once more time has elapsed than was left.
pub struct Timer {
    duration: u64,
    time_left: u64,
    ready: bool,
}

impl Timer {
    /// The duration budget, in milliseconds.
    pub closed spec fn spec_duration(&self) -> u64 {
        self.duration
    }

    /// The remaining time, in milliseconds.
    pub closed spec fn spec_time_left(&self) -> u64 {
        self.time_left
    }

    /// Whether the countdown has run out.
    pub closed spec fn spec_ready(&self) -> bool {
        self.ready
    }

    pub fn new(dur: u64) -> (r: Timer)
        ensures
            r.spec_duration() == dur,
            r.spec_time_left() == dur,
            r.spec_ready() == (dur == 0),
    {
        Timer { duration: dur, time_left: dur, ready: dur == 0 }
    }

    pub fn from_millis(millis: u64) -> (r: Timer)
        ensures
            r.spec_duration() == millis,
            r.spec_time_left() == millis,
            r.spec_ready() == (millis == 0),
    {
        Timer { duration: millis, time_left: millis, ready: millis == 0 }
    }

    /// Rewind the countdown to its full budget.
    pub fn reset(&mut self)
        ensures
            final(self).spec_duration() == old(self).spec_duration(),
            final(self).spec_time_left() == old(self).spec_duration(),
            final(self).spec_ready() == (old(self).spec_duration() == 0),
    {
        self.time_left = self.duration;
        self.ready = self.duration == 0;
    }

    pub fn is_max_duration(&self) -> (r: bool)
        ensures
            r == (self.spec_duration() == DURATION_MAX_MILLIS),
    {
        self.duration == DURATION_MAX_MILLIS
    }

    /// Count `delta` milliseconds down and report whether the countdown has
    /// run out.  It runs out only when more time elapses than was left, so
    /// an infinite budget never runs out this way.
    pub fn update(&mut self, delta: u64) -> (r: bool)
        ensures
            final(self).spec_duration() == old(self).spec_duration(),
            old(self).spec_ready() ==> *final(self) == *old(self),
            !old(self).spec_ready() && delta > old(self).spec_time_left()
                ==> final(self).spec_time_left() == 0 && final(self).spec_ready(),
            !old(self).spec_ready() && delta <= old(self).spec_time_left()
                ==> final(self).spec_time_left() == old(self).spec_time_left() - delta
                && !final(self).spec_ready(),
            r == final(self).spec_ready(),
    {
        if !self.ready {
            if delta <= self.time_left {
                self.time_left = self.time_left - delta;
            } else {
                self.time_left = 0;
                self.ready = true;
            }
        }
        self.ready
    }

    pub fn ready(&self) -> (r: bool)
        ensures
            r == self.spec_ready(),
    {
        self.ready
    }
}

} // verus!
