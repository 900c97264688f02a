//! Frames-per-second counting for the engine's render loop.
use instant::Instant;
use vstd::prelude::*;

verus! {

/// The clock's instants (`instant::Instant`), carried through unread.
#[verifier::external_type_specification]
#[verifier::external_body]
pub struct ExInstant(Instant);

/// The current instant (`Instant::now`). Nothing is stated of it.
#[verifier::external_body]
fn instant_now() -> Instant {
    Instant::now()
}

/// Whole milliseconds from `earlier` to `later`, zero when `earlier` is the
/// later one (`Instant::saturating_duration_since` then
/// `Duration::as_millis`). Nothing is stated of the value: the instants are
/// opaque here.
#[verifier::external_body]
fn millis_between(later: Instant, earlier: Instant) -> u128 {
    later.saturating_duration_since(earlier).as_millis()
}

/// Counts rendered frames per wall-clock second.
#[derive(Clone, Copy)]
pub struct FpsCounter {
    cur_second: Instant,
    cur_counter: usize,
    fps: usize,
}

impl FpsCounter {
    /// Frames rendered so far in the current second.
    pub closed spec fn frames(&self) -> usize {
        self.cur_counter
    }

    /// Frames rendered in the last completed second.
    pub closed spec fn last_fps(&self) -> usize {
        self.fps
    }

    /// Where the current second started.
    pub closed spec fn second_start(&self) -> Instant {
        self.cur_second
    }

    /// Records a frame `millis` milliseconds into the current second: within
    /// the second a rendered frame is counted; once the second is over, its
    /// count becomes the frame rate and a new second starts at `instant`.
    pub fn count_frame(&mut self, instant: Instant, millis: u128, is_rendering: bool)
        requires
            millis < 1000 && is_rendering ==> old(self).frames() < usize::MAX,
        ensures
            millis < 1000 ==> {
                &&& final(self).frames() == if is_rendering { old(self).frames() + 1 } else { old(self).frames() as int }
                &&& final(self).last_fps() == old(self).last_fps()
                &&& final(self).second_start() == old(self).second_start()
            },
            millis >= 1000 ==> {
                &&& final(self).frames() == 0
                &&& final(self).last_fps() == old(self).frames()
                &&& final(self).second_start() == instant
            },
    {
        if millis < 1000 {
            if is_rendering {
                self.cur_counter = self.cur_counter + 1;
            }
        } else {
            self.fps = self.cur_counter;
            self.cur_second = instant;
            self.cur_counter = 0;
        }
    }

    /// Records a frame at `instant` (see `count_frame`), measuring how far
    /// into the current second it falls.
    pub fn new_frame(&mut self, instant: Instant, is_rendering: bool)
        requires
            is_rendering ==> old(self).frames() < usize::MAX,
        ensures
            final(self).frames() == 0 && final(self).last_fps() == old(self).frames()
                && final(self).second_start() == instant
            || final(self).last_fps() == old(self).last_fps() && final(self).second_start()
                == old(self).second_start() && final(self).frames() == if is_rendering {
                old(self).frames() + 1
            } else {
                old(self).frames() as int
            },
    {
        let millis = millis_between(instant, self.cur_second);
        self.count_frame(instant, millis, is_rendering);
    }

    /// Frames rendered in the last completed second.
    pub fn get_fps(&self) -> (r: usize)
        ensures
            r == self.last_fps(),
    {
        self.fps
    }
}

impl Default for FpsCounter {
    /// A counter whose second starts now.
    fn default() -> (r: FpsCounter)
        ensures
            r.frames() == 0,
            r.last_fps() == 0,
    {
        FpsCounter { cur_second: instant_now(), cur_counter: 0, fps: 0 }
    }
}

} // verus!
