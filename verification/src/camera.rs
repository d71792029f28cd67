//! The oscillating camera driver.
//!
//! The camera holds a single yaw angle that drifts back and forth between a
//! lower and an upper threshold, moving by a fixed step each frame.  Angles
//! are measured in ten-thousandths of a radian, so every value the driver
//! ever takes is an exact integer: the thresholds 0.52 rad and 1.05 rad are
//! `5200` and `10500`, and the per-frame step 0.002 rad is `20`.
//!
//! Before each frame the direction is re-examined: below the lower threshold
//! the camera turns upward, above the upper threshold it turns downward,
//! otherwise it keeps its direction.  The step is then applied.  Starting at
//! the upper threshold and drifting down, the yaw never leaves the band
//! `[YAW_LOWER - YAW_STEP, YAW_UPPER + YAW_STEP]`.

use vstd::prelude::*;

verus! {

/// Lower yaw threshold, in angle units of 1/10000 radian (0.52 rad).
pub const YAW_LOWER: i64 = 5200;

/// Upper yaw threshold, in angle units of 1/10000 radian (1.05 rad).
pub const YAW_UPPER: i64 = 10500;

/// Per-frame yaw step, in angle units of 1/10000 radian (0.002 rad).
pub const YAW_STEP: i64 = 20;

/// The camera state: the current yaw and the signed step that will be
/// added to it next, both in angle units of 1/10000 radian.
#[derive(Clone, Copy, Debug, PartialEq, Eq, Structural)]
pub struct Camera {
    pub yaw: i64,
    pub delta: i64,
}

impl Camera {
    /// The states the driver can ever be in: the step is one unit up or
    /// down, and the yaw sits in the closed band that one step around the
    /// two thresholds allows.
    pub open spec fn wf(self) -> bool {
        &&& (self.delta == YAW_STEP || self.delta == -YAW_STEP)
        &&& YAW_LOWER - YAW_STEP <= self.yaw <= YAW_UPPER + YAW_STEP
    }

    /// The initial state: yaw at the upper threshold, drifting downward.
    pub open spec fn spec_init() -> Camera {
        Camera { yaw: YAW_UPPER, delta: (-YAW_STEP) as i64 }
    }

    /// One transition: re-aim at the thresholds, then apply the step.
    pub open spec fn spec_advance(self) -> Camera {
        let d = if self.yaw < YAW_LOWER {
            YAW_STEP
        } else if self.yaw > YAW_UPPER {
            (-YAW_STEP) as i64
        } else {
            self.delta
        };
        Camera { yaw: (self.yaw + d) as i64, delta: d }
    }

    pub fn new() -> (c: Camera)
        ensures
            c == Camera::spec_init(),
            c.wf(),
    {
        Camera { yaw: YAW_UPPER, delta: -YAW_STEP }
    }

    /// Step the camera once, exactly as `spec_advance` describes.
    pub fn advance(&mut self)
        requires
            old(self).wf(),
        ensures
            *final(self) == old(self).spec_advance(),
            final(self).wf(),
    {
        if self.yaw < YAW_LOWER {
            self.delta = YAW_STEP;
        } else if self.yaw > YAW_UPPER {
            self.delta = -YAW_STEP;
        }
        self.yaw = self.yaw + self.delta;
    }
}

/// The camera state after `n` transitions from the initial state.
pub open spec fn camera_after(n: nat) -> Camera
    decreases n,
{
    if n == 0 {
        Camera::spec_init()
    } else {
        camera_after((n - 1) as nat).spec_advance()
    }
}

/// Bounded oscillation: from the initial state, the yaw after any number of
/// frames stays within one step of the band `[YAW_LOWER, YAW_UPPER]`, and in
/// particular stays strictly positive.
pub proof fn lemma_yaw_bounded(n: nat)
    ensures
        camera_after(n).wf(),
        YAW_LOWER - YAW_STEP <= camera_after(n).yaw <= YAW_UPPER + YAW_STEP,
        camera_after(n).yaw > 0,
    decreases n,
{
    if n > 0 {
        lemma_yaw_bounded((n - 1) as nat);
    }
}

} // verus!
