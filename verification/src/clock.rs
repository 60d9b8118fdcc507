//! The integer side of the fixed-timestep simulation clock and of the frame
//! statistics: tick counting, pausing and the cadence of the frame report.
//! The floating-point timestep, accumulator and speed multiplier are kept by
//! the caller beside these values.
use vstd::prelude::*;

verus! {

/// Frames between two reports of the frame statistics.
pub const FRAME_REPORT_INTERVAL: u64 = 60;

/// The clock with its pause state flipped.
pub open spec fn pause_toggled(c: SimulationClock) -> SimulationClock {
    SimulationClock { tick: c.tick, paused: !c.paused }
}

/// Tick counter and pause state of the simulation clock.
#[derive(Clone, Copy, PartialEq, Eq, Structural, Debug)]
pub struct SimulationClock {
    /// Number of physics ticks completed since the start or the last reset.
    pub tick: u64,
    /// Whether the simulation is paused.
    pub paused: bool,
}

impl Default for SimulationClock {
    /// A clock at tick zero that starts paused.
    fn default() -> (c: Self)
        ensures
            c.tick == 0,
            c.paused,
    {
        SimulationClock { tick: 0, paused: true }
    }
}

impl SimulationClock {
    /// Records that one physics tick has completed.
    pub fn advance_tick(&mut self)
        requires
            old(self).tick < u64::MAX,
        ensures
            final(self).tick == old(self).tick + 1,
            final(self).paused == old(self).paused,
    {
        self.tick = self.tick + 1;
    }

    /// Pauses a running simulation and resumes a paused one.
    pub fn toggle_pause(&mut self)
        ensures
            *final(self) == pause_toggled(*old(self)),
    {
        self.paused = !self.paused;
    }

    /// Pauses the simulation so that exactly one more tick can be stepped.
    pub fn pause_for_step(&mut self)
        ensures
            final(self).paused,
            final(self).tick == old(self).tick,
    {
        self.paused = true;
    }

    /// Resets the tick counter; the pause state is kept.
    pub fn reset(&mut self)
        ensures
            final(self).tick == 0,
            final(self).paused == old(self).paused,
    {
        self.tick = 0;
    }
}

/// Toggling the pause twice restores the clock, and toggling never moves the
/// tick counter.
pub proof fn lemma_toggle_pause_twice(c: SimulationClock)
    ensures
        pause_toggled(pause_toggled(c)) == c,
        pause_toggled(c).tick == c.tick,
        pause_toggled(c).paused != c.paused,
{
}

/// Whether the frame statistics are reported after `count` frames.
pub open spec fn report_due(count: int) -> bool {
    count % (FRAME_REPORT_INTERVAL as int) == 0
}

/// How many frames after `start` the next report falls (zero when `start`
/// itself reports).
pub open spec fn first_report_offset(start: int) -> int {
    ((FRAME_REPORT_INTERVAL as int) - start % (FRAME_REPORT_INTERVAL as int)) % (
    FRAME_REPORT_INTERVAL as int)
}

/// Number of frames presented, for the periodic frame report.
#[derive(Clone, Copy, PartialEq, Eq, Structural, Debug, Default)]
pub struct FrameCounter {
    pub frame_count: u64,
}

impl FrameCounter {
    /// Counts a presented frame and tells whether the frame statistics are
    /// due: once every [`FRAME_REPORT_INTERVAL`] frames.
    pub fn count_frame(&mut self) -> (report: bool)
        requires
            old(self).frame_count < u64::MAX,
        ensures
            final(self).frame_count == old(self).frame_count + 1,
            report == report_due(final(self).frame_count as int),
    {
        self.frame_count = self.frame_count + 1;
        self.frame_count % FRAME_REPORT_INTERVAL == 0
    }
}

/// Among any [`FRAME_REPORT_INTERVAL`] consecutive frame counts exactly one
/// triggers the report.
pub proof fn lemma_one_report_per_interval(start: int)
    ensures
        0 <= first_report_offset(start) < FRAME_REPORT_INTERVAL,
        report_due(start + first_report_offset(start)),
        forall|j: int|
            0 <= j < FRAME_REPORT_INTERVAL && #[trigger] report_due(start + j) ==> j
                == first_report_offset(start),
{
    let k = first_report_offset(start);
    assert(0 <= k < 60 && (start + k) % 60 == 0) by (nonlinear_arith)
        requires
            k == (60 - start % 60) % 60,
    ;
    assert forall|j: int| 0 <= j < FRAME_REPORT_INTERVAL && #[trigger] report_due(start + j) implies j
        == k by {
        assert((start + j) % 60 == 0 && (start + k) % 60 == 0 && 0 <= j < 60 && 0 <= k < 60 ==> j
            == k) by (nonlinear_arith);
    }
}

} // verus!
