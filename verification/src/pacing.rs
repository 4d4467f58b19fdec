//! Frame pacing: loss accounting for renders that overrun the frame interval.
//!
//! Rendering is never retried to catch up. A render that takes longer than
//! one frame interval burns whole intervals, which are counted as lost
//! frames, and the next deadline jumps past every interval that has already
//! elapsed. All times are in milliseconds.

use vstd::prelude::*;

verus! {

/// A fatal pacing failure.
#[derive(Clone, Copy, Debug, PartialEq, Eq)]
pub enum PacingError {
    /// The next expected deadline does not fit in 64 bits; pacing cannot
    /// safely continue.
    DeadlineOverflow,
}

/// The pacing bookkeeping recomputed after each render attempt.
#[derive(Clone, Copy, Debug, PartialEq, Eq)]
pub struct PacingStats {
    /// The earliest instant at which the next render may start.
    pub next_expected_deadline: u64,
    /// The wall time the latest render attempt took.
    pub last_render_duration: u64,
    /// Whole frame intervals consumed by overlong renders so far; saturates
    /// rather than wraps.
    pub cumulative_lost_frames: u64,
}

/// Whole frame intervals that a render of duration `d` consumed beyond the
/// first: exact floor division, so `d < f` loses nothing and `d == f` loses
/// exactly one frame.
pub fn frames_lost(render_duration: u64, frame_interval: u64) -> (r: u64)
    requires
        frame_interval >= 1,
    ensures
        r == render_duration as int / frame_interval as int,
{
    render_duration / frame_interval
}

impl PacingStats {
    /// Fresh statistics: the first render is due at `start_time`.
    pub fn new(start_time: u64) -> (s: PacingStats)
        ensures
            s.next_expected_deadline == start_time,
            s.last_render_duration == 0,
            s.cumulative_lost_frames == 0,
    {
        PacingStats {
            next_expected_deadline: start_time,
            last_render_duration: 0,
            cumulative_lost_frames: 0,
        }
    }

    /// Whether a tick arriving at `now` is due: a tick before the next
    /// expected deadline is spurious and must be skipped without rendering
    /// and without moving the deadline.
    pub fn tick_due(&self, now: u64) -> (b: bool)
        ensures
            b == (now >= self.next_expected_deadline),
    {
        now >= self.next_expected_deadline
    }

    /// Account for a finished render attempt that started at `attempt_time`
    /// and took `render_duration`: the lost-frame count is the floor of
    /// duration over interval, and the next deadline skips exactly the
    /// intervals that have already elapsed. A deadline past `u64::MAX` is
    /// fatal and leaves the statistics untouched.
    pub fn advance(&mut self, attempt_time: u64, render_duration: u64, frame_interval: u64) -> (r:
        Result<u64, PacingError>)
        requires
            frame_interval >= 1,
        ensures
            ({
                let lost = render_duration as int / frame_interval as int;
                let deadline = attempt_time + frame_interval * (lost + 1);
                &&& r is Ok <==> deadline <= u64::MAX
                &&& r is Ok ==> {
                    &&& r->Ok_0 == lost
                    &&& final(self).next_expected_deadline == deadline
                    &&& final(self).last_render_duration == render_duration
                    &&& final(self).cumulative_lost_frames == (if old(self).cumulative_lost_frames
                        + lost <= u64::MAX {
                        old(self).cumulative_lost_frames + lost
                    } else {
                        u64::MAX as int
                    })
                }
                &&& r is Err ==> r->Err_0 == PacingError::DeadlineOverflow && *final(self) == *old(
                    self,
                )
            }),
    {
        let lost = frames_lost(render_duration, frame_interval);
        if lost == u64::MAX {
            proof {
                assert(frame_interval * (lost + 1) >= (lost + 1)) by (nonlinear_arith)
                    requires
                        frame_interval >= 1,
                        lost == u64::MAX,
                ;
            }
            return Err(PacingError::DeadlineOverflow);
        }
        match frame_interval.checked_mul(lost + 1) {
            None => Err(PacingError::DeadlineOverflow),
            Some(step) => match attempt_time.checked_add(step) {
                None => Err(PacingError::DeadlineOverflow),
                Some(deadline) => {
                    self.next_expected_deadline = deadline;
                    self.last_render_duration = render_duration;
                    self.cumulative_lost_frames = self.cumulative_lost_frames.saturating_add(lost);
                    Ok(lost)
                },
            },
        }
    }
}

} // verus!
