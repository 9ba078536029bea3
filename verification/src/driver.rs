use vstd::prelude::*;
use crate::encoder::Encoder;
use crate::error::RenderError;
use crate::graph::{Graph, run_lazy_bytes, spec_frame_commands};
use crate::resource::Device;

verus! {

/// Lower bound of the driver's rotation angle, in microunits of clip space.
pub const ANGLE_MIN: i32 = -500_000;

/// Upper bound of the rotation angle.
pub const ANGLE_MAX: i32 = 500_000;

/// How far the angle advances each frame.
pub const ANGLE_STEP: i32 = 200;

/// The angle after one frame: it advances by one step and wraps back to the
/// lower bound when it would pass the upper one.
pub open spec fn spec_next_angle(a: int) -> int {
    if a + ANGLE_STEP > ANGLE_MAX {
        ANGLE_MIN as int
    } else {
        a + ANGLE_STEP
    }
}

/// The per-frame loop around a compiled graph: advances the time-varying
/// auxiliary value (a rotation angle) and replays the graph once per frame,
/// waiting out the previous frame before the next may start.
#[derive(Clone, Copy, Debug, PartialEq, Eq, Structural)]
pub struct FrameDriver {
    pub angle: i32,
    pub frame_index: u64,
}

impl FrameDriver {
    pub open spec fn wf(self) -> bool {
        ANGLE_MIN <= self.angle <= ANGLE_MAX
    }

    pub fn new() -> (d: FrameDriver)
        ensures
            d == (FrameDriver { angle: ANGLE_MIN, frame_index: 0 }),
            d.wf(),
    {
        FrameDriver { angle: ANGLE_MIN, frame_index: 0 }
    }

    /// Advances the angle by one step, wrapping at the upper bound, and
    /// counts the frame. Returns the new angle as the frame's opaque
    /// auxiliary value.
    pub fn advance(&mut self) -> (aux: u64)
        requires
            old(self).wf(),
            old(self).frame_index < u64::MAX,
        ensures
            final(self).wf(),
            final(self).angle == spec_next_angle(old(self).angle as int),
            final(self).frame_index == old(self).frame_index + 1,
            aux == final(self).angle as i64 as u64,
    {
        if self.angle + ANGLE_STEP > ANGLE_MAX {
            self.angle = ANGLE_MIN;
        } else {
            self.angle = self.angle + ANGLE_STEP;
        }
        self.frame_index = self.frame_index + 1;
        self.angle as i64 as u64
    }

    /// Drives one frame: advances the auxiliary value, replays the graph,
    /// and completes the frame once its commands stand recorded.
    ///
    /// Succeeds exactly when the frame's lazy allocations fit the device
    /// budget; on failure nothing is advanced or recorded.
    pub fn run_frame(&mut self, graph: &mut Graph, device: &mut Device) -> (r: Result<
        Encoder,
        RenderError,
    >)
        requires
            old(self).wf(),
            old(self).frame_index < u64::MAX,
            old(graph).wf(),
            !old(graph).in_flight,
            old(device).wf(),
        ensures
            final(self).wf(),
            final(graph).wf(),
            !final(graph).in_flight,
            final(device).wf(),
            if run_lazy_bytes(*old(graph)) <= old(device).spec_available() {
                &&& (r matches Ok(enc) && enc.commands@ == spec_frame_commands(*old(graph)))
                &&& final(self).angle == spec_next_angle(old(self).angle as int)
                &&& final(self).frame_index == old(self).frame_index + 1
                &&& final(device).used == old(device).used + run_lazy_bytes(*old(graph))
            } else {
                &&& r matches Err(e) && e == (RenderError::Allocation {
                    requested: run_lazy_bytes(*old(graph)) as u64,
                    available: old(device).spec_available() as u64,
                })
                &&& *final(self) == *old(self)
                &&& *final(graph) == *old(graph)
                &&& *final(device) == *old(device)
            },
    {
        let next_angle: i32 = if self.angle + ANGLE_STEP > ANGLE_MAX {
            ANGLE_MIN
        } else {
            self.angle + ANGLE_STEP
        };
        let aux: u64 = next_angle as i64 as u64;
        match graph.run(device, aux) {
            Ok(enc) => {
                graph.complete_frame();
                self.angle = next_angle;
                self.frame_index = self.frame_index + 1;
                Ok(enc)
            },
            Err(e) => Err(e),
        }
    }
}

} // verus!
