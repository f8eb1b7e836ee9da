//! The S.BUS receiver (UART6): the values of the moment, and how old they are.
//!
//! Decoding the wire is the driver's. What is added here is when the last frame
//! came, since that decides whether the operator's input can be trusted.
use vstd::prelude::*;
use vstd::string::*;

use crate::double::{double, Double};
use crate::hal::wait::{look, waits, Wait};
use crate::hal::worker::{since, span};

verus! {

/// The lowest, middle and highest raw value of a channel.
pub const RAW_MIN: u16 = 172;

pub const RAW_CENTER: u16 = 992;

pub const RAW_MAX: u16 = 1811;

/// How many channels there are.
pub const CHANNELS: usize = 16;

/// What the receiver counted.
#[derive(Debug, Clone, Copy, PartialEq, Eq, Structural)]
pub struct Counters {
    pub frames: u64,
    /// Bytes dropped while out of step.
    pub desync_bytes: u64,
    /// Telemetry slots.
    pub slots: u64,
    /// Telemetry slots of an unknown kind.
    pub unknown_slots: u64,
}

/// One frame.
#[derive(Debug, Clone, Copy)]
pub struct Frame {
    pub channels: [u16; 16],
    pub ch17: bool,
    pub ch18: bool,
    pub frame_lost: bool,
    pub failsafe: bool,
}

/// What the driver knows: the last frame, if there was one, and its tallies.
#[derive(Debug, Clone, Copy)]
pub struct DriverState {
    pub frame: Option<Frame>,
    pub sbus2: bool,
    pub rx_battery_v: Option<Double>,
    pub external_v: Option<Double>,
    pub fps: Double,
    pub counters: Counters,
}

/// A snapshot of the receiver.
#[derive(Debug, Clone, Copy)]
pub struct SbusState {
    /// The raw channels (0 to 2047); all 0 before the first frame.
    pub channels: [u16; 16],
    pub ch17: bool,
    pub ch18: bool,
    /// The receiver is losing radio frames.
    pub frame_lost: bool,
    /// The receiver is in failsafe.
    pub failsafe: bool,
    /// Whether S.BUS2 is received, which has telemetry.
    pub sbus2: bool,
    /// The receiver's supply (V).
    pub rx_battery_v: Option<Double>,
    /// The external voltage input (V).
    pub external_v: Option<Double>,
    /// Frames per second.
    pub fps: Double,
    /// When the last frame came (ns).
    pub stamp: u64,
    pub counters: Counters,
}

/// Sixteen channels at 0.
pub open spec fn no_channels() -> Seq<u16> {
    Seq::new(16, |i: int| 0u16)
}

fn zero_channels() -> (r: [u16; 16])
    ensures
        r@ == no_channels(),
{
    let r: [u16; 16] = [0, 0, 0, 0, 0, 0, 0, 0, 0, 0, 0, 0, 0, 0, 0, 0];
    assert(r@ =~= no_channels());
    r
}

impl SbusState {
    /// Whether this is the state before the first frame.
    pub open spec fn is_initial(self, now: u64) -> bool {
        &&& self.channels@ == no_channels()
        &&& !self.ch17 && !self.ch18 && !self.frame_lost && !self.failsafe && !self.sbus2
        &&& self.rx_battery_v is None
        &&& self.external_v is None
        &&& self.fps == double(0)
        &&& self.stamp == now
        &&& self.counters == (Counters {
            frames: 0, desync_bytes: 0, slots: 0, unknown_slots: 0,
        })
    }

    /// The state before the first frame.
    pub fn initial(now: u64) -> (r: SbusState)
        ensures
            r.is_initial(now),
    {
        SbusState {
            channels: zero_channels(),
            ch17: false,
            ch18: false,
            frame_lost: false,
            failsafe: false,
            sbus2: false,
            rx_battery_v: None,
            external_v: None,
            fps: double(0),
            stamp: now,
            counters: Counters {
                frames: 0, desync_bytes: 0, slots: 0, unknown_slots: 0,
            },
        }
    }

    /// The snapshot of what the driver knows, with the time of its last frame.
    pub fn from_driver(state: &DriverState, stamp: u64) -> (r: SbusState)
        ensures
            match state.frame {
                Some(f) => r.channels@ == f.channels@ && r.ch17 == f.ch17 && r.ch18 == f.ch18
                    && r.frame_lost == f.frame_lost && r.failsafe == f.failsafe,
                None => r.channels@ == no_channels() && !r.ch17 && !r.ch18 && !r.frame_lost
                    && !r.failsafe,
            },
            r.sbus2 == state.sbus2,
            r.rx_battery_v == state.rx_battery_v,
            r.external_v == state.external_v,
            r.fps == state.fps,
            r.stamp == stamp,
            r.counters == state.counters,
    {
        let frame = match state.frame {
            Some(f) => f,
            None => Frame {
                channels: zero_channels(),
                ch17: false,
                ch18: false,
                frame_lost: false,
                failsafe: false,
            },
        };
        SbusState {
            channels: frame.channels,
            ch17: frame.ch17,
            ch18: frame.ch18,
            frame_lost: frame.frame_lost,
            failsafe: frame.failsafe,
            sbus2: state.sbus2,
            rx_battery_v: state.rx_battery_v,
            external_v: state.external_v,
            fps: state.fps,
            stamp,
            counters: state.counters,
        }
    }

    /// The raw value of a channel.
    pub fn channel(&self, index: usize) -> (r: Option<u16>)
        ensures
            r == (if index < 16 { Some(self.channels[index as int]) } else { None }),
    {
        if index < 16 { Some(self.channels[index]) } else { None }
    }

    /// Whether a frame came within `max_age` (ns).
    pub open spec fn fresh(self, max_age: u64, now: u64) -> bool {
        self.counters.frames > 0 && since(self.stamp, now) <= max_age
    }

    /// Whether the operator's input can be trusted: fresh, and not in failsafe.
    pub open spec fn usable(self, max_age: u64, now: u64) -> bool {
        self.fresh(max_age, now) && !self.failsafe
    }

    pub fn is_fresh(&self, max_age: u64, now: u64) -> (r: bool)
        ensures
            r == self.fresh(max_age, now),
    {
        self.counters.frames > 0 && span(self.stamp, now) <= max_age
    }

    pub fn is_usable(&self, max_age: u64, now: u64) -> (r: bool)
        ensures
            r == self.usable(max_age, now),
    {
        self.is_fresh(max_age, now) && !self.failsafe
    }

    /// Waiting for the first frame.
    pub fn wait_ready(&self, port: &str, now: u64, deadline: u64, timeout_ms: u64) -> (r: Wait)
        ensures
            waits(
                r,
                self.counters.frames > 0,
                "S.BUS ("@ + port@ + ")"@,
                5_000_000,
                now,
                deadline,
                timeout_ms,
            ),
    {
        let what = "S.BUS (".to_owned().concat(port).concat(")");
        look(self.counters.frames > 0, what, 5_000_000, now, deadline, timeout_ms)
    }
}

/// When the receiving thread last saw a frame.
#[derive(Debug, Clone, Copy, PartialEq, Eq, Structural)]
pub struct FrameWatch {
    pub frames_seen: u64,
    pub stamp: u64,
}

impl FrameWatch {
    pub fn new(now: u64) -> (r: FrameWatch)
        ensures
            r == (FrameWatch { frames_seen: 0, stamp: now }),
    {
        FrameWatch { frames_seen: 0, stamp: now }
    }

    /// The watch after a look at the driver's frame count. Only a new control
    /// frame moves the time on: telemetry alone must not make a dead transmitter
    /// look alive.
    pub open spec fn after(self, frames: u64, now: u64) -> FrameWatch {
        if frames != self.frames_seen {
            FrameWatch { frames_seen: frames, stamp: now }
        } else {
            self
        }
    }

    /// The snapshot of what the driver knows now.
    pub fn observe(&mut self, state: &DriverState, now: u64) -> (r: SbusState)
        ensures
            *final(self) == old(self).after(state.counters.frames, now),
            r.stamp == final(self).stamp,
            r.counters == state.counters,
            match state.frame {
                Some(f) => r.channels@ == f.channels@ && r.ch17 == f.ch17 && r.ch18 == f.ch18
                    && r.frame_lost == f.frame_lost && r.failsafe == f.failsafe,
                None => r.channels@ == no_channels() && !r.ch17 && !r.ch18 && !r.frame_lost
                    && !r.failsafe,
            },
            r.sbus2 == state.sbus2,
            r.rx_battery_v == state.rx_battery_v,
            r.external_v == state.external_v,
            r.fps == state.fps,
    {
        if state.counters.frames != self.frames_seen {
            self.frames_seen = state.counters.frames;
            self.stamp = now;
        }
        SbusState::from_driver(state, self.stamp)
    }
}

/// Without a frame, in failsafe or past its age, no input is usable.
pub proof fn law_untrusted_input_is_never_usable(state: SbusState, max_age: u64, now: u64)
    ensures
        state.counters.frames == 0 ==> !state.usable(max_age, now),
        state.failsafe ==> !state.usable(max_age, now),
        since(state.stamp, now) > max_age ==> !state.usable(max_age, now),
        state.usable(max_age, now) ==> state.fresh(max_age, now),
{
}

/// However often the driver is looked at, without a new frame the input grows
/// stale.
pub proof fn law_a_silent_link_grows_stale(watch: FrameWatch, frames: u64, later: u64, now: u64, max_age: u64)
    requires
        frames == watch.frames_seen,
        since(watch.stamp, now) > max_age,
    ensures
        watch.after(frames, later).stamp == watch.stamp,
        since(watch.after(frames, later).stamp, now) > max_age,
{
}

/// Input is usable exactly while frames have come, the newest no longer ago than it may
/// be, and the receiver does not report a failsafe.
pub proof fn law_a_live_link_is_usable(state: SbusState, max_age: u64, now: u64)
    ensures
        state.usable(max_age, now) <==> (state.counters.frames > 0 && !state.failsafe && now
            <= state.stamp + max_age),
{
}

/// A new frame counts from the moment it is seen.
pub proof fn law_a_new_frame_is_stamped(watch: FrameWatch, frames: u64, now: u64)
    requires
        frames != watch.frames_seen,
    ensures
        watch.after(frames, now).stamp == now,
        watch.after(frames, now).frames_seen == frames,
{
}

} // verus!
