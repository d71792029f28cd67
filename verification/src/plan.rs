//! The frame plan: everything a frame shows, computed ahead of drawing.
//!
//! One pass over the windows of a run yields one `FrameSpec` per frame:
//! the window bounds, the time at the window's first sample, the four
//! point series to draw, and the yaw the projection matrix uses.  The
//! camera is stepped once per frame, after the wall side for that frame's
//! YZ projection has been read off the pre-step yaw; the stepped yaw is
//! the one the frame is drawn with.  Drawing the plan is left to the
//! unverified shell, which walks the frames in order and rasterizes each.

use vstd::prelude::*;
use crate::camera::Camera;
use crate::camera::camera_after;
use crate::project::Projections;
use crate::project::project_window;
use crate::project::projections_of;
use crate::table::TrajTable;
use crate::window::Windower;
use crate::window::count_from;
use crate::window::effective_end;
use crate::window::lemma_window_count;
use crate::window::window_count;

verus! {

/// One frame of the output animation, fully determined before drawing.
pub struct FrameSpec {
    /// First sample index of the frame's window.
    pub start: usize,
    /// Index one past the last sample of the window: `start + 4*skip`.
    pub window_end: usize,
    /// Time at the window's first sample, in units of 1/1000000.
    pub t0: i64,
    /// Yaw the frame's projection matrix is built from (the camera state
    /// after this frame's step), in angle units of 1/10000 radian.
    pub yaw: i64,
    /// The four point series the frame draws.
    pub points: Projections,
}

/// What frame number `i` of a run over `table` with stride `skip` holds:
/// its window starts at `i*skip` and spans `4*skip` samples, its time is
/// the window's first, its wall side comes from the yaw before this
/// frame's camera step, and its matrix yaw from the yaw after it.
pub open spec fn frame_ok(table: TrajTable, skip: nat, i: int, f: FrameSpec) -> bool {
    &&& f.start == i * skip
    &&& f.window_end == i * skip + 4 * skip
    &&& f.t0 == table.t@[i * skip]
    &&& f.yaw == camera_after((i + 1) as nat).yaw
    &&& projections_of(table, i * skip, i * skip + 4 * skip, camera_after(i as nat).yaw, f.points)
}

/// Compute the whole frame plan of one run: `window_count` frames, the
/// `i`-th as `frame_ok` describes.  A table too short for even one window
/// yields an empty plan; that is a valid run, not an error.
pub fn render_plan(table: &TrajTable, frames: usize, skip: usize) -> (r: Vec<FrameSpec>)
    requires
        table.wf(),
        skip > 0,
        4 * skip <= usize::MAX,
    ensures
        r@.len() == window_count(effective_end(table.spec_height(), frames as nat), skip as nat),
        forall|i: int| 0 <= i < r@.len() ==> frame_ok(*table, skip as nat, i, r@[i]),
{
    let n = table.height();
    let mut w = Windower::new(n, frames, skip);
    let ghost end = w.end as nat;
    let mut cam = Camera::new();
    let mut r: Vec<FrameSpec> = Vec::new();
    while w.has_next()
        invariant
            table.wf(),
            w.wf(),
            w.skip == skip,
            w.end == end,
            end == effective_end(table.spec_height(), frames as nat),
            end <= table.spec_height(),
            w.frame == r@.len() * skip,
            cam == camera_after(r@.len() as nat),
            cam.wf(),
            count_from(w.frame as nat, end, skip as nat) + r@.len()
                == count_from(0, end, skip as nat),
            forall|i: int| 0 <= i < r@.len() ==> frame_ok(*table, skip as nat, i, r@[i]),
        decreases w.end - w.frame,
    {
        let ghost k = r@.len() as int;
        let win = w.next();
        match win {
            Some(pair) => {
                let start = pair.0;
                let window_end = pair.1;
                let points = project_window(table, start, window_end, cam.yaw);
                let t0 = table.t[start];
                cam.advance();
                r.push(FrameSpec { start, window_end, t0, yaw: cam.yaw, points });
                proof {
                    assert(camera_after((k + 1) as nat) == camera_after(k as nat).spec_advance());
                    assert(r@.len() * skip == k * skip + skip)
                        by (nonlinear_arith)
                        requires r@.len() == k + 1,
                    ;
                }
            },
            None => {
                proof {
                    assert(false);
                }
            },
        }
    }
    proof {
        lemma_window_count(end, skip as nat);
    }
    r
}

} // verus!
