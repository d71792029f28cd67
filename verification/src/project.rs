//! Projection of one window of samples into render space.
//!
//! Render space permutes the data axes: a data sample `(x, y, z)` is drawn
//! at render coordinates `(x, z, y)`.  Besides the 3-D body path, each
//! window yields three flat copies of itself, one per bounding wall:
//! the XY projection drops onto the floor plane, the XZ projection onto
//! the back wall (both at the fixed coordinate -1.0), and the YZ
//! projection onto a side wall that swings with the camera: it sits at
//! -1.0 while the yaw is positive and at 25.0 otherwise, staying on the
//! far side from the camera.  Coordinates are integers in units of
//! 1/1000000, so the wall constants -1.0 and 25.0 are exact.

use vstd::prelude::*;
use crate::camera::camera_after;
use crate::camera::lemma_yaw_bounded;
use crate::table::TrajTable;

verus! {

/// The near wall coordinate, -1.0 in units of 1/1000000.
pub const WALL_NEAR: i64 = -1000000;

/// The far wall coordinate, 25.0 in units of 1/1000000.
pub const WALL_FAR: i64 = 25000000;

/// Where the YZ side wall sits for a given yaw (in angle units): on the
/// near side for positive yaw, on the far side otherwise.
pub open spec fn spec_wall(yaw: i64) -> i64 {
    if yaw > 0 {
        WALL_NEAR
    } else {
        WALL_FAR
    }
}

/// A point in render space, in units of 1/1000000.
#[derive(Clone, Copy, Debug, PartialEq, Eq, Structural)]
pub struct RenderPoint {
    pub x: i64,
    pub y: i64,
    pub z: i64,
}

/// The four point series of one frame, in window order: the body path and
/// its three wall projections.
pub struct Projections {
    pub body: Vec<RenderPoint>,
    pub proj_xy: Vec<RenderPoint>,
    pub proj_xz: Vec<RenderPoint>,
    pub proj_yz: Vec<RenderPoint>,
}

/// What the four series of a frame hold, row by row, for the window
/// `[start, end)` of `table` seen under yaw `yaw`:
/// the body is the permuted sample, and each projection replaces one
/// render axis with its wall constant.
pub open spec fn projections_of(
    table: TrajTable,
    start: int,
    end: int,
    yaw: i64,
    p: Projections,
) -> bool {
    let len = end - start;
    &&& p.body@.len() == len
    &&& p.proj_xy@.len() == len
    &&& p.proj_xz@.len() == len
    &&& p.proj_yz@.len() == len
    &&& forall|i: int|
        0 <= i < len ==> p.body@[i] == (RenderPoint {
            x: table.x@[start + i],
            y: table.z@[start + i],
            z: table.y@[start + i],
        })
    &&& forall|i: int|
        0 <= i < len ==> p.proj_xy@[i] == (RenderPoint {
            x: table.x@[start + i],
            y: WALL_NEAR,
            z: table.y@[start + i],
        })
    &&& forall|i: int|
        0 <= i < len ==> p.proj_xz@[i] == (RenderPoint {
            x: table.x@[start + i],
            y: table.z@[start + i],
            z: WALL_NEAR,
        })
    &&& forall|i: int|
        0 <= i < len ==> p.proj_yz@[i] == (RenderPoint {
            x: spec_wall(yaw),
            y: table.z@[start + i],
            z: table.y@[start + i],
        })
}

/// A run's camera never leaves its positive yaw band, so the YZ wall of
/// every frame actually drawn sits on the near side; the swing to the far
/// side could only be seen from a camera started outside that band.
pub proof fn lemma_run_wall_is_near(n: nat)
    ensures
        spec_wall(camera_after(n).yaw) == WALL_NEAR,
{
    lemma_yaw_bounded(n);
}

/// The YZ wall coordinate for a yaw: exactly -1.0 whenever the yaw is
/// positive, exactly 25.0 whenever it is not.
pub fn wall_coordinate(yaw: i64) -> (w: i64)
    ensures
        w == spec_wall(yaw),
        yaw > 0 ==> w == WALL_NEAR,
        yaw <= 0 ==> w == WALL_FAR,
{
    if yaw > 0 {
        WALL_NEAR
    } else {
        WALL_FAR
    }
}

/// Compute the four series of the window `[start, end)` under yaw `yaw`.
/// Pure axis reassignment: no row is dropped, reordered or transformed
/// beyond the substitution of the wall constants.
pub fn project_window(table: &TrajTable, start: usize, end: usize, yaw: i64) -> (r: Projections)
    requires
        table.wf(),
        start <= end,
        end <= table.spec_height(),
    ensures
        projections_of(*table, start as int, end as int, yaw, r),
{
    let wall = wall_coordinate(yaw);
    let mut body: Vec<RenderPoint> = Vec::new();
    let mut proj_xy: Vec<RenderPoint> = Vec::new();
    let mut proj_xz: Vec<RenderPoint> = Vec::new();
    let mut proj_yz: Vec<RenderPoint> = Vec::new();
    let mut i: usize = start;
    while i < end
        invariant
            start <= i <= end,
            end <= table.spec_height(),
            table.wf(),
            wall == spec_wall(yaw),
            body@.len() == i - start,
            proj_xy@.len() == i - start,
            proj_xz@.len() == i - start,
            proj_yz@.len() == i - start,
            forall|j: int|
                0 <= j < i - start ==> body@[j] == (RenderPoint {
                    x: table.x@[start + j],
                    y: table.z@[start + j],
                    z: table.y@[start + j],
                }),
            forall|j: int|
                0 <= j < i - start ==> proj_xy@[j] == (RenderPoint {
                    x: table.x@[start + j],
                    y: WALL_NEAR,
                    z: table.y@[start + j],
                }),
            forall|j: int|
                0 <= j < i - start ==> proj_xz@[j] == (RenderPoint {
                    x: table.x@[start + j],
                    y: table.z@[start + j],
                    z: WALL_NEAR,
                }),
            forall|j: int|
                0 <= j < i - start ==> proj_yz@[j] == (RenderPoint {
                    x: spec_wall(yaw),
                    y: table.z@[start + j],
                    z: table.y@[start + j],
                }),
        decreases end - i,
    {
        let sx = table.x[i];
        let sy = table.y[i];
        let sz = table.z[i];
        body.push(RenderPoint { x: sx, y: sz, z: sy });
        proj_xy.push(RenderPoint { x: sx, y: WALL_NEAR, z: sy });
        proj_xz.push(RenderPoint { x: sx, y: sz, z: WALL_NEAR });
        proj_yz.push(RenderPoint { x: wall, y: sz, z: sy });
        i = i + 1;
    }
    Projections { body, proj_xy, proj_xz, proj_yz }
}

} // verus!
