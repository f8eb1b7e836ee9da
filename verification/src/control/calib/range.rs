//! The range of a joint, moved by hand from end to end.
//!
//! The program does not look for the ends itself: what searches for an end is what
//! breaks it.
use vstd::prelude::*;

use crate::double::{double, Double};
use crate::hal::config::{HardwareConfig, MotorConfig};
use crate::hal::joint::JointState;
use crate::hal::legs::ordinary;
use crate::measure::worth;
use crate::reckon::{is_about, lemma_about_difference, lemma_about_sum, slack};
use crate::rounding::INFINITE;

verus! {

/// Negative infinity, as bits.
pub const NEGATIVE_INFINITY: u64 = 0xfff0_0000_0000_0000;

/// 0.05, as bits.
pub const LEAST_SPAN_RAD: u64 = 0x3fa9_9999_9999_999a;

/// The angles seen so far.
#[derive(Debug, Clone, Copy, PartialEq, Eq, Structural)]
pub struct Extent {
    pub min: Double,
    pub max: Double,
}

impl Extent {
    pub open spec fn nothing() -> Extent {
        Extent { min: double(INFINITE), max: double(NEGATIVE_INFINITY) }
    }

    /// The extent with one more reading; an old one does not count.
    pub open spec fn with(self, state: JointState) -> Extent {
        if state.ok {
            Extent {
                min: self.min.min(state.position_rad),
                max: self.max.max(state.position_rad),
            }
        } else {
            self
        }
    }

    pub fn new() -> (r: Extent)
        ensures
            r == Extent::nothing(),
    {
        Extent { min: double(INFINITE), max: double(NEGATIVE_INFINITY) }
    }

    /// Takes in a reading.
    pub fn see(&mut self, state: &JointState)
        ensures
            *final(self) == old(self).with(*state),
    {
        if state.ok {
            self.min = self.min.min(state.position_rad);
            self.max = self.max.max(state.position_rad);
        }
    }

    /// Whether enough was seen.
    pub open spec fn is_enough(self) -> bool {
        self.min.finite() && self.max.finite() && !self.max.minus(self.min).below(
            double(LEAST_SPAN_RAD),
        )
    }

    /// The range to configure: a margin inside what was seen, since a command to the
    /// very end would hit the stop.
    pub fn limits(&self, margin: Double) -> (r: Result<(Double, Double), String>)
        ensures
            match r {
                Ok(limits) => self.is_enough() && limits == (
                    self.min.plus(margin),
                    self.max.minus(margin),
                ) && (ordinary(self.min) && ordinary(self.max) && ordinary(margin) ==> is_about(
                    limits.0,
                    worth(self.min) + worth(margin),
                    slack(),
                ) && is_about(limits.1, worth(self.max) - worth(margin), slack())),
                Err(e) => !self.is_enough() && e@
                    == "動きが記録できませんでした（モータ電源とバスを確認してください）"@,
            },
    {
        if !self.min.is_finite() || !self.max.is_finite() || self.max.minus(self.min).below(
            double(LEAST_SPAN_RAD),
        ) {
            return Err("動きが記録できませんでした（モータ電源とバスを確認してください）".to_owned());
        }
        proof {
            if ordinary(self.min) && ordinary(self.max) && ordinary(margin) {
                lemma_about_sum(self.min, worth(self.min), 0real, margin, worth(margin), 0real);
                lemma_about_difference(self.max, worth(self.max), 0real, margin, worth(margin), 0real);
            }
        }
        Ok((self.min.plus(margin), self.max.minus(margin)))
    }
}

/// What was seen never shrinks: a reading lies within the extent that took it in,
/// and within every later one.
pub proof fn law_the_extent_holds_its_readings(extent: Extent, state: JointState, later: JointState)
    requires
        state.ok,
        !state.position_rad.nan(),
        !extent.min.nan(),
        !extent.max.nan(),
    ensures
        extent.with(state).min.is_at_most(state.position_rad),
        state.position_rad.is_at_most(extent.with(state).max),
        !later.position_rad.nan() ==> extent.with(state).with(later).min.is_at_most(
            state.position_rad,
        ) && state.position_rad.is_at_most(extent.with(state).with(later).max),
{
}

/// Whether the recording goes on.
pub fn goes_on(stopped: bool, elapsed_s: Double, secs: Option<Double>) -> (r: bool)
    ensures
        r == (!stopped && (match secs {
            None => true,
            Some(s) => elapsed_s.below(s),
        })),
{
    !stopped && match secs {
        None => true,
        Some(s) => elapsed_s.below(s),
    }
}

/// Writes the range of one motor into a configuration.
pub fn set_range(hw: &mut HardwareConfig, bus: usize, k: usize, min_rad: Double, max_rad: Double)
    requires
        bus < old(hw).legs.bus.len(),
        k < old(hw).legs.bus[bus as int].motors.len(),
    ensures
        crate::control::calib::zero::motor_changed(
            *old(hw),
            *final(hw),
            bus as int,
            k as int,
            (MotorConfig { min_rad, max_rad, ..old(hw).legs.bus[bus as int].motors[k as int] }),
        ),
{
    let ghost before = *hw;
    hw.legs.bus[bus].motors[k].min_rad = min_rad;
    hw.legs.bus[bus].motors[k].max_rad = max_rad;
    proof {
        let motor = MotorConfig { min_rad, max_rad, ..before.legs.bus[bus as int].motors[k as int] };
        assert(hw.legs.bus[bus as int].motors@ =~= before.legs.bus[bus as int].motors@.update(
            k as int,
            motor,
        ));
        assert(hw.legs.bus@ =~= before.legs.bus@.update(bus as int, hw.legs.bus[bus as int]));
    }
}

/// The extent is no wider than what was seen: each of its ends is one that it had, or the
/// reading; and a reading that is old changes nothing.
pub proof fn law_the_extent_is_no_wider_than_its_readings(extent: Extent, state: JointState)
    ensures
        extent.with(state).min == extent.min || (state.ok && extent.with(state).min
            == state.position_rad),
        extent.with(state).max == extent.max || (state.ok && extent.with(state).max
            == state.position_rad),
        !state.ok ==> extent.with(state) == extent,
{
}

} // verus!
