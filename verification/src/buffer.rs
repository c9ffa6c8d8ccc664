//! The built-in per-frame uniforms.
//!
//! Every compiled scene carries two reserved uniform buffers, written at the
//! start of each frame: `time` (milliseconds and frame delta) and, where the
//! target supports it, `shadertoy` (resolution, seconds, delta and mouse in
//! the layout shader-sharing sites use). Float fields are IEEE-754
//! single-precision bit patterns.

use crate::float_bits::{ratio_bits, spec_ratio_bits};
use vstd::bytes::{spec_u32_to_le_bytes, u32_to_le_bytes};
use vstd::prelude::*;

verus! {

/// The `time` uniform: milliseconds since start, and the last frame's delta
/// in seconds (float bits). Eight bytes on the GPU.
#[derive(Clone, Copy, Debug, PartialEq, Eq, Structural)]
pub struct Time {
    pub time: u32,
    pub dt: u32,
}

impl Time {
    pub fn new() -> (r: Time)
        ensures
            r.time == 0 && r.dt == 0,
    {
        Time { time: 0, dt: 0 }
    }

    /// Advances to `now` milliseconds with a frame delta of `dt` (float
    /// bits).
    pub fn update_time(&mut self, now: u32, dt: u32)
        ensures
            final(self).time == now,
            final(self).dt == dt,
    {
        self.time = now;
        self.dt = dt;
    }

    /// The uniform's bytes: the millisecond count, then the delta.
    pub open spec fn spec_bytes(&self) -> Seq<u8> {
        spec_u32_to_le_bytes(self.time) + spec_u32_to_le_bytes(self.dt)
    }

    pub fn to_bytes(&self) -> (r: Vec<u8>)
        ensures
            r@ == self.spec_bytes(),
            r@.len() == 8,
    {
        let mut r = u32_to_le_bytes(self.time);
        let mut d = u32_to_le_bytes(self.dt);
        r.append(&mut d);
        proof {
            vstd::bytes::lemma_auto_spec_u32_to_from_le_bytes();
        }
        r
    }
}

/// The `shadertoy` uniform: resolution, padding, time in seconds, frame
/// delta, padding, and the mouse state, 48 bytes on the GPU in the layout
/// the shadertoy harness expects. All fields are float bits.
#[derive(Clone, Copy, Debug, PartialEq)]
pub struct ShaderToy {
    pub resolution: [u32; 3],
    pub spacer: u32,
    pub time: u32,
    pub time_delta: u32,
    pub spacer2: u32,
    pub spacer3: u32,
    pub mouse: [u32; 4],
}

impl ShaderToy {
    /// Starts at an 800 x 600 resolution with everything else zero, as a
    /// scene shows before its first frame.
    pub fn new() -> (r: ShaderToy)
        ensures
            r.resolution[0] == spec_ratio_bits(800, 1),
            r.resolution[1] == spec_ratio_bits(600, 1),
            r.resolution[2] == 0,
            r.spacer == 0 && r.time == 0 && r.time_delta == 0 && r.spacer2 == 0 && r.spacer3 == 0,
            r.mouse[0] == 0 && r.mouse[1] == 0 && r.mouse[2] == 0 && r.mouse[3] == 0,
    {
        ShaderToy {
            resolution: [ratio_bits(800, 1), ratio_bits(600, 1), 0],
            spacer: 0,
            time: 0,
            time_delta: 0,
            spacer2: 0,
            spacer3: 0,
            mouse: [0, 0, 0, 0],
        }
    }

    /// Advances to `now` milliseconds (converted to float seconds), a frame
    /// delta of `dt` (float bits), and the target's pixel size.
    pub fn update(&mut self, now: u32, dt: u32, width: u32, height: u32)
        ensures
            final(self).time == spec_ratio_bits(now as nat, 1000),
            final(self).time_delta == dt,
            final(self).resolution[0] == spec_ratio_bits(width as nat, 1),
            final(self).resolution[1] == spec_ratio_bits(height as nat, 1),
            final(self).resolution[2] == 0,
            final(self).mouse == old(self).mouse,
            final(self).spacer == old(self).spacer,
            final(self).spacer2 == old(self).spacer2,
            final(self).spacer3 == old(self).spacer3,
    {
        self.time = ratio_bits(now, 1000);
        self.time_delta = dt;
        self.resolution = [ratio_bits(width, 1), ratio_bits(height, 1), 0];
    }

    /// The uniform's bytes, in field order.
    pub open spec fn spec_bytes(&self) -> Seq<u8> {
        spec_u32_to_le_bytes(self.resolution[0]) + spec_u32_to_le_bytes(self.resolution[1])
            + spec_u32_to_le_bytes(self.resolution[2]) + spec_u32_to_le_bytes(self.spacer)
            + spec_u32_to_le_bytes(self.time) + spec_u32_to_le_bytes(self.time_delta)
            + spec_u32_to_le_bytes(self.spacer2) + spec_u32_to_le_bytes(self.spacer3)
            + spec_u32_to_le_bytes(self.mouse[0]) + spec_u32_to_le_bytes(self.mouse[1])
            + spec_u32_to_le_bytes(self.mouse[2]) + spec_u32_to_le_bytes(self.mouse[3])
    }

    pub fn to_bytes(&self) -> (r: Vec<u8>)
        ensures
            r@ == self.spec_bytes(),
            r@.len() == 48,
    {
        let mut r = u32_to_le_bytes(self.resolution[0]);
        let mut part = u32_to_le_bytes(self.resolution[1]);
        r.append(&mut part);
        let mut part = u32_to_le_bytes(self.resolution[2]);
        r.append(&mut part);
        let mut part = u32_to_le_bytes(self.spacer);
        r.append(&mut part);
        let mut part = u32_to_le_bytes(self.time);
        r.append(&mut part);
        let mut part = u32_to_le_bytes(self.time_delta);
        r.append(&mut part);
        let mut part = u32_to_le_bytes(self.spacer2);
        r.append(&mut part);
        let mut part = u32_to_le_bytes(self.spacer3);
        r.append(&mut part);
        let mut part = u32_to_le_bytes(self.mouse[0]);
        r.append(&mut part);
        let mut part = u32_to_le_bytes(self.mouse[1]);
        r.append(&mut part);
        let mut part = u32_to_le_bytes(self.mouse[2]);
        r.append(&mut part);
        let mut part = u32_to_le_bytes(self.mouse[3]);
        r.append(&mut part);
        proof {
            vstd::bytes::lemma_auto_spec_u32_to_from_le_bytes();
        }
        r
    }
}

} // verus!
