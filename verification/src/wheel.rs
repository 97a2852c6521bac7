//! Acceleration of the mouse wheel: slow spins move one line, sustained fast
//! spinning moves two.
use vstd::prelude::*;

verus! {

/// Which way the wheel turns.
#[derive(Debug, Clone, Copy, PartialEq, Eq, Structural)]
pub enum ScrollDir {
    Up,
    Down,
}

/// The wheel so far: when it last turned, in nanoseconds, which way, and how
/// long the streak of fast turns is.
#[derive(Debug, Clone, Copy, PartialEq, Eq, Structural)]
pub struct WheelAccel {
    pub last_tick: Option<u64>,
    pub last_dir: Option<ScrollDir>,
    pub fast_streak: u32,
}

/// Turns closer together than this are fast, in milliseconds.
pub const WHEEL_FAST_THRESHOLD_MS: u64 = 60;

/// A pause longer than this ends a streak, in milliseconds.
pub const WHEEL_RESET_MS: u64 = 250;

/// No streak counts further than this.
pub const WHEEL_STREAK_MAX: u32 = 12;

/// The whole milliseconds between two points in time, none where the second is
/// not later.
pub open spec fn millis_between(from: u64, to: u64) -> int {
    if to >= from {
        (to - from) / 1_000_000
    } else {
        0
    }
}

impl Default for WheelAccel {
    /// The wheel has not turned yet.
    fn default() -> (w: WheelAccel)
        ensures
            w == (WheelAccel { last_tick: None, last_dir: None, fast_streak: 0 }),
            w.wf(),
    {
        WheelAccel { last_tick: None, last_dir: None, fast_streak: 0 }
    }
}

impl WheelAccel {
    /// The streak is within its bound.
    pub open spec fn wf(self) -> bool {
        self.fast_streak <= WHEEL_STREAK_MAX
    }

    /// The streak after a turn: another way, or after a pause, it starts over; a
    /// fast turn adds to it, any other takes one off.
    pub open spec fn streak_after(self, now: u64, dir: ScrollDir) -> int {
        let flipped = self.last_dir matches Some(d) && d != dir;
        match self.last_tick {
            None => 0,
            Some(t) => {
                let dt = millis_between(t, now);
                if flipped || dt > WHEEL_RESET_MS {
                    0
                } else if dt < WHEEL_FAST_THRESHOLD_MS {
                    if self.fast_streak < WHEEL_STREAK_MAX {
                        self.fast_streak + 1
                    } else {
                        WHEEL_STREAK_MAX as int
                    }
                } else if self.fast_streak > 0 {
                    self.fast_streak - 1
                } else {
                    0
                }
            },
        }
    }

    /// The wheel after a turn.
    pub open spec fn turned(self, now: u64, dir: ScrollDir) -> WheelAccel {
        WheelAccel {
            last_tick: Some(now),
            last_dir: Some(dir),
            fast_streak: self.streak_after(now, dir) as u32,
        }
    }

    /// How many lines the last turn moves.
    pub open spec fn speed(self) -> int {
        if self.fast_streak <= 3 {
            1
        } else {
            2
        }
    }

    /// Turns the wheel; returns how many lines that moves.
    pub fn lines(&mut self, now: u64, dir: ScrollDir) -> (n: usize)
        requires
            old(self).wf(),
        ensures
            final(self).wf(),
            *final(self) == old(self).turned(now, dir),
            n == final(self).speed(),
    {
        let quiet: Option<u64> = match self.last_tick {
            Some(t) => Some(
                if now >= t {
                    (now - t) / 1_000_000
                } else {
                    0
                },
            ),
            None => None,
        };
        let flipped = match self.last_dir {
            Some(d) => d != dir,
            None => false,
        };
        self.last_tick = Some(now);
        self.last_dir = Some(dir);
        self.fast_streak = match quiet {
            None => 0,
            Some(dt) => if flipped || dt > WHEEL_RESET_MS {
                0
            } else if dt < WHEEL_FAST_THRESHOLD_MS {
                if self.fast_streak < WHEEL_STREAK_MAX {
                    self.fast_streak + 1
                } else {
                    WHEEL_STREAK_MAX
                }
            } else if self.fast_streak > 0 {
                self.fast_streak - 1
            } else {
                0
            },
        };
        if self.fast_streak <= 3 {
            1
        } else {
            2
        }
    }
}

/// The wheel after turns one way at the given times.
pub open spec fn spun(w: WheelAccel, times: Seq<u64>, dir: ScrollDir) -> WheelAccel
    decreases times.len(),
{
    if times.len() == 0 {
        w
    } else {
        spun(w, times.drop_last(), dir).turned(times.last(), dir)
    }
}

/// A turn the other way, and one after a pause, move one line.
pub proof fn a_flip_or_a_pause_starts_over(w: WheelAccel, now: u64, dir: ScrollDir)
    requires
        (w.last_dir matches Some(d) && d != dir) || (w.last_tick matches Some(t) && millis_between(
            t,
            now,
        ) > WHEEL_RESET_MS),
    ensures
        w.turned(now, dir).fast_streak == 0,
        w.turned(now, dir).speed() == 1,
{
}

/// Sustained fast spinning one way moves two lines: from the fifth turn on,
/// each following the one before within the fast threshold.
pub proof fn fast_spinning_moves_two_lines(w: WheelAccel, times: Seq<u64>, dir: ScrollDir)
    requires
        w.wf(),
        times.len() >= 5,
        forall|i: int, j: int|
            #![trigger times[i], times[j]]
            0 <= i && j == i + 1 && j < times.len() ==> millis_between(times[i], times[j])
                < WHEEL_FAST_THRESHOLD_MS,
    ensures
        spun(w, times, dir).speed() == 2,
{
    lemma_fast_streak(w, times, dir);
}

proof fn lemma_fast_streak(w: WheelAccel, times: Seq<u64>, dir: ScrollDir)
    requires
        w.wf(),
        times.len() >= 1,
        forall|i: int, j: int|
            #![trigger times[i], times[j]]
            0 <= i && j == i + 1 && j < times.len() ==> millis_between(times[i], times[j])
                < WHEEL_FAST_THRESHOLD_MS,
    ensures
        spun(w, times, dir).last_dir == Some(dir),
        spun(w, times, dir).last_tick == Some(times.last()),
        WHEEL_STREAK_MAX >= spun(w, times, dir).fast_streak >= if times.len() - 1
            < WHEEL_STREAK_MAX {
            times.len() - 1
        } else {
            WHEEL_STREAK_MAX as int
        },
    decreases times.len(),
{
    let before = times.drop_last();
    if before.len() == 0 {
        assert(spun(w, before, dir) == w);
    } else {
        assert forall|i: int, j: int|
            #![trigger before[i], before[j]]
            0 <= i && j == i + 1 && j < before.len() implies millis_between(before[i], before[j])
            < WHEEL_FAST_THRESHOLD_MS by {
            assert(before[i] == times[i] && before[j] == times[j]);
        }
        lemma_fast_streak(w, before, dir);
        let n = times.len() as int;
        assert(before.last() == times[n - 2]);
        assert(times.last() == times[n - 1]);
    }
}

/// A turn that is neither fast nor after a pause, the same way as the one before,
/// takes one off the streak; a fast one adds one, up to twelve. Fast is within
/// sixty milliseconds, a pause is more than a quarter of a second.
pub proof fn what_a_turn_does_to_the_streak(w: WheelAccel, now: u64, dir: ScrollDir, ms: int)
    requires
        w.wf(),
        w.last_tick is Some,
        w.last_dir == Some(dir),
        now >= w.last_tick->0,
        ms == (now - w.last_tick->0) / 1_000_000,
    ensures
        ({
            let t = w.turned(now, dir);
            &&& ms < 60 && w.fast_streak < 12 ==> t.fast_streak == w.fast_streak + 1
            &&& ms < 60 && w.fast_streak == 12 ==> t.fast_streak == 12
            &&& 60 <= ms <= 250 && w.fast_streak > 0 ==> t.fast_streak == w.fast_streak - 1
            &&& 60 <= ms <= 250 && w.fast_streak == 0 ==> t.fast_streak == 0
            &&& ms > 250 ==> t.fast_streak == 0
            &&& t.last_tick == Some(now)
            &&& t.last_dir == Some(dir)
        }),
{
}

/// The first turn of all, and a turn the other way however fast, starts a streak
/// over.
pub proof fn a_first_turn_starts_a_streak(w: WheelAccel, now: u64, dir: ScrollDir)
    ensures
        w.last_tick is None ==> w.turned(now, dir).fast_streak == 0,
        w.last_dir is Some && w.last_dir->0 != dir ==> w.turned(now, dir).fast_streak == 0,
{
}

/// A turn moves two lines exactly where the streak is longer than three, and
/// otherwise one.
pub proof fn how_many_lines_a_turn_moves(w: WheelAccel)
    ensures
        w.fast_streak > 3 ==> w.speed() == 2,
        w.fast_streak <= 3 ==> w.speed() == 1,
{
}

/// Time is counted in whole milliseconds, and a clock that goes back counts as no
/// time.
pub proof fn time_is_counted_in_whole_milliseconds(from: u64, to: u64)
    ensures
        to >= from ==> millis_between(from, to) * 1_000_000 <= to - from,
        to >= from ==> to - from < (millis_between(from, to) + 1) * 1_000_000,
        to < from ==> millis_between(from, to) == 0,
{
}

} // verus!
