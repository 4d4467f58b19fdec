//! The Event Loop core: one consumer merges render ticks and chat commands
//! into a single ordered stream and owns every mutation of the canvas.
//!
//! The surrounding process runs the loop itself — it waits on the queue,
//! measures wall time, renders, and appends to the durable archive — and
//! calls in here for every decision: whether a command is applied, whether a
//! tick starts a render, and how a finished render moves the pacing state.
//! An accepted command must be appended to the archive by the caller; an
//! archive failure is fatal and must stop the loop.

use vstd::prelude::*;

verus! {

use crate::Cube;
use crate::check_cube_in_bounds;
use crate::cube_in_bounds;
use crate::canvas::Canvas;
use crate::canvas::apply_all;
use crate::pacing::PacingError;
use crate::pacing::PacingStats;
use crate::parser::ChatCommand;

/// The single consumer's state: the canvas, the pacing bookkeeping, and the
/// configured frame interval in milliseconds.
pub struct EventLoop {
    pub canvas: Canvas,
    pub pacing: PacingStats,
    pub frame_interval: u64,
}

impl EventLoop {
    /// Invariant: the canvas is well formed and the interval is a whole
    /// positive number of milliseconds.
    pub open spec fn wf(&self) -> bool {
        &&& self.canvas.wf()
        &&& self.frame_interval >= 1
    }

    /// A loop over an empty canvas of side `bound`, one render due every
    /// `frame_interval` milliseconds, the first at `start_time`.
    pub fn new(bound: u32, frame_interval: u64, start_time: u64) -> (el: EventLoop)
        requires
            bound >= 1,
            frame_interval >= 1,
        ensures
            el.wf(),
            el.canvas.spec_bound() == bound,
            el.canvas@ == Map::<(u32, u32, u32), (u8, u8, u8)>::empty(),
            el.frame_interval == frame_interval,
            el.pacing.next_expected_deadline == start_time,
            el.pacing.last_render_duration == 0,
            el.pacing.cumulative_lost_frames == 0,
    {
        EventLoop {
            canvas: Canvas::new(bound),
            pacing: PacingStats::new(start_time),
            frame_interval,
        }
    }

    /// Replay the archive's event list into the canvas, so a restarted
    /// process shows its prior state before the first render.
    pub fn startup(&mut self, events: &Vec<Cube>)
        requires
            old(self).wf(),
            forall|i: int|
                0 <= i < events@.len() ==> cube_in_bounds(
                    #[trigger] events@[i],
                    old(self).canvas.spec_bound(),
                ),
        ensures
            final(self).wf(),
            final(self).canvas.spec_bound() == old(self).canvas.spec_bound(),
            final(self).canvas@ == apply_all(old(self).canvas@, events@),
            final(self).pacing == old(self).pacing,
            final(self).frame_interval == old(self).frame_interval,
    {
        self.canvas.load_all(events);
    }

    /// Handle one command event: apply it to the canvas if its coordinate
    /// lies inside the volume, drop it otherwise. When it returns `true` the
    /// caller owes the command to the archive.
    pub fn on_command(&mut self, cmd: &ChatCommand) -> (accepted: bool)
        requires
            old(self).wf(),
        ensures
            final(self).wf(),
            accepted == cube_in_bounds(cmd.spec_cube(), old(self).canvas.spec_bound()),
            final(self).canvas@ == (if accepted {
                old(self).canvas@.insert((cmd.x, cmd.y, cmd.z), (cmd.r, cmd.g, cmd.b))
            } else {
                old(self).canvas@
            }),
            final(self).canvas.spec_bound() == old(self).canvas.spec_bound(),
            final(self).pacing == old(self).pacing,
            final(self).frame_interval == old(self).frame_interval,
    {
        let cube = cmd.cube();
        let bound = self.canvas.bound();
        if check_cube_in_bounds(&cube, bound) {
            self.canvas.place(cube);
            true
        } else {
            false
        }
    }

    /// Decide whether a tick arriving at `now` starts a render: a tick that
    /// comes before the next expected deadline is spurious and is skipped
    /// without rendering and without moving any state.
    pub fn tick_due(&self, now: u64) -> (b: bool)
        ensures
            b == (now >= self.pacing.next_expected_deadline),
    {
        self.pacing.tick_due(now)
    }

    /// Account for the render a due tick started: `frames_lost` is the floor
    /// of the render duration over the frame interval, and the next deadline
    /// is the attempt time plus `frames_lost + 1` intervals. A deadline past
    /// `u64::MAX` is fatal; the canvas is never touched either way.
    pub fn on_render_complete(&mut self, attempt_time: u64, render_duration: u64) -> (r: Result<
        u64,
        PacingError,
    >)
        requires
            old(self).wf(),
        ensures
            final(self).wf(),
            final(self).canvas == old(self).canvas,
            final(self).frame_interval == old(self).frame_interval,
            ({
                let lost = render_duration as int / old(self).frame_interval as int;
                let deadline = attempt_time + old(self).frame_interval * (lost + 1);
                &&& r is Ok <==> deadline <= u64::MAX
                &&& r is Ok ==> {
                    &&& r->Ok_0 == lost
                    &&& final(self).pacing.next_expected_deadline == deadline
                    &&& final(self).pacing.last_render_duration == render_duration
                    &&& final(self).pacing.cumulative_lost_frames == (if old(
                        self,
                    ).pacing.cumulative_lost_frames + lost <= u64::MAX {
                        old(self).pacing.cumulative_lost_frames + lost
                    } else {
                        u64::MAX as int
                    })
                }
                &&& r is Err ==> r->Err_0 == PacingError::DeadlineOverflow && final(self).pacing
                    == old(self).pacing
            }),
    {
        let interval = self.frame_interval;
        self.pacing.advance(attempt_time, render_duration, interval)
    }
}

} // verus!
