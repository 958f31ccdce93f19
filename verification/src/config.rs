//! Field configuration: dimensions, ring depth, decay retention and tick rate.

use vstd::prelude::*;

verus! {

/// Configuration for a temporal field.
///
/// `retention` scales each magnitude by `retention / 255` per tick, so 255
/// means no decay and 0 means instant zeroing.
#[derive(Clone, Copy, PartialEq, Eq, Structural, Debug)]
pub struct FieldConfig {
    /// Number of dimensions per frame.
    pub dims: usize,
    /// Number of frames in the ring buffer.
    pub frame_count: usize,
    /// Decay retention per tick (0 = instant zero, 255 = no decay).
    pub retention: u8,
    /// Tick rate in Hz, for time conversions.
    pub tick_rate_hz: u32,
}

impl FieldConfig {
    /// A standard configuration, ticking at 100 Hz.
    pub fn new(dims: usize, frame_count: usize, retention: u8) -> (c: Self)
        ensures
            c == (FieldConfig { dims, frame_count, retention, tick_rate_hz: 100u32 }),
    {
        FieldConfig { dims, frame_count, retention, tick_rate_hz: 100 }
    }

    /// Whether the configuration may back a field: both extents are nonzero.
    pub open spec fn valid(self) -> bool {
        self.dims > 0 && self.frame_count > 0
    }

    /// The temporal window covered by the whole ring, in milliseconds.
    pub fn window_ms(&self) -> (r: u32)
        requires
            self.tick_rate_hz >= 1,
            self.frame_count * 1000 <= u32::MAX,
        ensures
            r as int == self.frame_count * 1000 / self.tick_rate_hz as int,
    {
        ((self.frame_count as u32) * 1000) / self.tick_rate_hz
    }

    /// Check the configuration, rejecting zero dimensions and an empty ring.
    pub fn validate(&self) -> (r: Result<(), &'static str>)
        ensures
            r.is_ok() <==> self.valid(),
            self.dims == 0 ==> r == Err::<(), &'static str>("dims must be > 0"),
            self.dims > 0 && self.frame_count == 0 ==> r == Err::<(), &'static str>(
                "frame_count must be > 0",
            ),
    {
        if self.dims == 0 {
            return Err("dims must be > 0");
        }
        if self.frame_count == 0 {
            return Err("frame_count must be > 0");
        }
        Ok(())
    }
}

} // verus!
