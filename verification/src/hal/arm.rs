//! The arm's servo.
//!
//! A servo that hangs on the receiver moves, but not at the program's command.
//! Whether there is a servo ([`ArmServo::is_connected`]) and whether it follows
//! commands ([`ArmServo::is_app_driven`]) are therefore two questions.
use vstd::prelude::*;

use crate::double::{double, Double};
use crate::hal::config::{ArmConfig, ArmProtocol};
use crate::hal::error::Error;

verus! {

/// One servo. Angles are in the model's frame (rad).
pub trait ArmServo: Sized {
    /// Whether the range holds at least one angle.
    spec fn wf(&self) -> bool;

    /// The angle: the last one observed, or, where commands count, commanded.
    spec fn angle(&self) -> Double;

    /// Whether there is a servo.
    spec fn connected(&self) -> bool;

    /// Whether the servo follows commands.
    spec fn app_driven(&self) -> bool;

    /// The servo after a command.
    spec fn commanded(&self, q_model_rad: Double) -> Self;

    /// The servo after its angle was seen from outside.
    spec fn observed(&self, q_model_rad: Double) -> Self;

    /// Sends a target, held to the range.
    fn set_position(&mut self, q_model_rad: Double) -> (r: Result<(), Error>)
        requires
            old(self).wf(),
        ensures
            r is Ok,
            final(self).wf(),
            *final(self) == old(self).commanded(q_model_rad),
    ;

    /// Takes in an angle seen from outside, such as the receiver's channel.
    fn observe(&mut self, q_model_rad: Double)
        requires
            old(self).wf(),
        ensures
            final(self).wf(),
            *final(self) == old(self).observed(q_model_rad),
    ;

    /// The current angle.
    fn position(&self) -> (r: Double)
        ensures
            r == self.angle(),
    ;

    /// Lets the servo go limp, where it can.
    fn relax(&mut self) -> (r: Result<(), Error>)
        ensures
            r is Ok,
            *final(self) == *old(self),
    ;

    fn is_connected(&self) -> (r: bool)
        ensures
            r == self.connected(),
    ;

    fn is_app_driven(&self) -> (r: bool)
        ensures
            r == self.app_driven(),
    ;
}

/// A servo on the receiver. It drops commands and keeps what was observed: the
/// commanded angle would say nothing about where the arm is.
#[derive(Debug, Clone, Copy, PartialEq, Eq, Structural)]
pub struct ReceiverDirectArm {
    pub min_rad: Double,
    pub max_rad: Double,
    pub observed: Double,
}

impl ReceiverDirectArm {
    pub fn new(cfg: &ArmConfig) -> (r: ReceiverDirectArm)
        requires
            cfg.min_rad.at_most(cfg.max_rad),
        ensures
            r.wf(),
            r == (ReceiverDirectArm {
                min_rad: cfg.min_rad,
                max_rad: cfg.max_rad,
                observed: double(0).clamp(cfg.min_rad, cfg.max_rad),
            }),
    {
        ReceiverDirectArm {
            min_rad: cfg.min_rad,
            max_rad: cfg.max_rad,
            observed: double(0).clamp(cfg.min_rad, cfg.max_rad),
        }
    }
}

impl ArmServo for ReceiverDirectArm {
    open spec fn wf(&self) -> bool {
        self.min_rad.at_most(self.max_rad)
    }

    open spec fn angle(&self) -> Double {
        self.observed
    }

    open spec fn connected(&self) -> bool {
        true
    }

    open spec fn app_driven(&self) -> bool {
        false
    }

    open spec fn commanded(&self, q_model_rad: Double) -> Self {
        *self
    }

    open spec fn observed(&self, q_model_rad: Double) -> Self {
        ReceiverDirectArm { observed: q_model_rad.clamp(self.min_rad, self.max_rad), ..*self }
    }

    fn set_position(&mut self, q_model_rad: Double) -> Result<(), Error> {
        Ok(())
    }

    fn observe(&mut self, q_model_rad: Double) {
        self.observed = q_model_rad.clamp(self.min_rad, self.max_rad);
    }

    fn position(&self) -> Double {
        self.observed
    }

    fn relax(&mut self) -> Result<(), Error> {
        Ok(())
    }

    fn is_connected(&self) -> bool {
        true
    }

    fn is_app_driven(&self) -> bool {
        false
    }
}

/// What stands in for a servo that is not wired. It remembers commands, so that
/// the rest can be tried without an arm, and never claims to be there.
#[derive(Debug, Clone, Copy, PartialEq, Eq, Structural)]
pub struct NullArm {
    pub min_rad: Double,
    pub max_rad: Double,
    pub q: Double,
}

impl NullArm {
    pub fn new(cfg: &ArmConfig) -> (r: NullArm)
        requires
            cfg.min_rad.at_most(cfg.max_rad),
        ensures
            r.wf(),
            r == (NullArm {
                min_rad: cfg.min_rad,
                max_rad: cfg.max_rad,
                q: double(0).clamp(cfg.min_rad, cfg.max_rad),
            }),
    {
        NullArm {
            min_rad: cfg.min_rad,
            max_rad: cfg.max_rad,
            q: double(0).clamp(cfg.min_rad, cfg.max_rad),
        }
    }
}

impl ArmServo for NullArm {
    open spec fn wf(&self) -> bool {
        self.min_rad.at_most(self.max_rad)
    }

    open spec fn angle(&self) -> Double {
        self.q
    }

    open spec fn connected(&self) -> bool {
        false
    }

    open spec fn app_driven(&self) -> bool {
        false
    }

    open spec fn commanded(&self, q_model_rad: Double) -> Self {
        NullArm { q: q_model_rad.clamp(self.min_rad, self.max_rad), ..*self }
    }

    open spec fn observed(&self, q_model_rad: Double) -> Self {
        *self
    }

    fn set_position(&mut self, q_model_rad: Double) -> Result<(), Error> {
        self.q = q_model_rad.clamp(self.min_rad, self.max_rad);
        Ok(())
    }

    fn observe(&mut self, q_model_rad: Double) {
    }

    fn position(&self) -> Double {
        self.q
    }

    fn relax(&mut self) -> Result<(), Error> {
        Ok(())
    }

    fn is_connected(&self) -> bool {
        false
    }

    fn is_app_driven(&self) -> bool {
        false
    }
}

/// The servo that a configuration asks for.
#[derive(Debug, Clone, Copy, PartialEq, Eq, Structural)]
pub enum Arm {
    ReceiverDirect(ReceiverDirectArm),
    Unwired(NullArm),
}

impl ArmServo for Arm {
    open spec fn wf(&self) -> bool {
        match self {
            Arm::ReceiverDirect(arm) => arm.wf(),
            Arm::Unwired(arm) => arm.wf(),
        }
    }

    open spec fn angle(&self) -> Double {
        match self {
            Arm::ReceiverDirect(arm) => arm.angle(),
            Arm::Unwired(arm) => arm.angle(),
        }
    }

    open spec fn connected(&self) -> bool {
        match self {
            Arm::ReceiverDirect(arm) => arm.connected(),
            Arm::Unwired(arm) => arm.connected(),
        }
    }

    open spec fn app_driven(&self) -> bool {
        match self {
            Arm::ReceiverDirect(arm) => arm.app_driven(),
            Arm::Unwired(arm) => arm.app_driven(),
        }
    }

    open spec fn commanded(&self, q_model_rad: Double) -> Self {
        match self {
            Arm::ReceiverDirect(arm) => Arm::ReceiverDirect(arm.commanded(q_model_rad)),
            Arm::Unwired(arm) => Arm::Unwired(arm.commanded(q_model_rad)),
        }
    }

    open spec fn observed(&self, q_model_rad: Double) -> Self {
        match self {
            Arm::ReceiverDirect(arm) => Arm::ReceiverDirect(arm.observed(q_model_rad)),
            Arm::Unwired(arm) => Arm::Unwired(arm.observed(q_model_rad)),
        }
    }

    fn set_position(&mut self, q_model_rad: Double) -> Result<(), Error> {
        match self {
            Arm::ReceiverDirect(arm) => arm.set_position(q_model_rad),
            Arm::Unwired(arm) => arm.set_position(q_model_rad),
        }
    }

    fn observe(&mut self, q_model_rad: Double) {
        match self {
            Arm::ReceiverDirect(arm) => arm.observe(q_model_rad),
            Arm::Unwired(arm) => arm.observe(q_model_rad),
        }
    }

    fn position(&self) -> Double {
        match self {
            Arm::ReceiverDirect(arm) => arm.position(),
            Arm::Unwired(arm) => arm.position(),
        }
    }

    fn relax(&mut self) -> Result<(), Error> {
        match self {
            Arm::ReceiverDirect(arm) => arm.relax(),
            Arm::Unwired(arm) => arm.relax(),
        }
    }

    fn is_connected(&self) -> bool {
        match self {
            Arm::ReceiverDirect(arm) => arm.is_connected(),
            Arm::Unwired(arm) => arm.is_connected(),
        }
    }

    fn is_app_driven(&self) -> bool {
        match self {
            Arm::ReceiverDirect(arm) => arm.is_app_driven(),
            Arm::Unwired(arm) => arm.is_app_driven(),
        }
    }
}

/// The servo that the configuration asks for. Neither kind opens a port.
pub fn connect(cfg: &ArmConfig) -> (r: Result<Arm, Error>)
    requires
        cfg.min_rad.at_most(cfg.max_rad),
    ensures
        r is Ok,
        r->Ok_0.wf(),
        r->Ok_0.angle() == double(0).clamp(cfg.min_rad, cfg.max_rad),
        match cfg.protocol {
            ArmProtocol::ReceiverDirect => r->Ok_0 matches Arm::ReceiverDirect(arm) && arm.min_rad
                == cfg.min_rad && arm.max_rad == cfg.max_rad,
            ArmProtocol::Unwired => r->Ok_0 matches Arm::Unwired(arm) && arm.min_rad == cfg.min_rad
                && arm.max_rad == cfg.max_rad,
        },
{
    match cfg.protocol {
        ArmProtocol::ReceiverDirect => Ok(Arm::ReceiverDirect(ReceiverDirectArm::new(cfg))),
        ArmProtocol::Unwired => Ok(Arm::Unwired(NullArm::new(cfg))),
    }
}

/// A servo on the receiver shows what was observed, whatever was commanded.
pub proof fn law_a_receiver_arm_ignores_commands(arm: ReceiverDirectArm, command: Double, seen: Double)
    ensures
        arm.observed(seen).commanded(command).angle() == seen.clamp(arm.min_rad, arm.max_rad),
{
}

/// No servo of this robot follows the program's commands, and only the one on the
/// receiver is there.
pub proof fn law_no_arm_is_app_driven(arm: Arm)
    ensures
        !arm.app_driven(),
        arm.connected() <==> arm is ReceiverDirect,
{
}

/// An arm stands within its range, where it was last put: a servo on the receiver where
/// it was seen, an arm without one where it was told, each held to its range.
pub proof fn law_an_arm_stands_where_it_was_last_put(
    servo: ReceiverDirectArm,
    none: NullArm,
    q: Double,
)
    requires
        servo.wf(),
        none.wf(),
        !q.nan(),
    ensures
        servo.commanded(q) == servo,
        none.observed(q) == none,
        servo.min_rad.is_at_most(servo.observed(q).angle()),
        servo.observed(q).angle().is_at_most(servo.max_rad),
        servo.min_rad.is_at_most(q) && q.is_at_most(servo.max_rad) ==> servo.observed(q).angle() == q,
        q.is_below(servo.min_rad) ==> servo.observed(q).angle() == servo.min_rad,
        servo.max_rad.is_below(q) ==> servo.observed(q).angle() == servo.max_rad,
        none.min_rad.is_at_most(q) && q.is_at_most(none.max_rad) ==> none.commanded(q).angle() == q,
        q.is_below(none.min_rad) ==> none.commanded(q).angle() == none.min_rad,
        none.max_rad.is_below(q) ==> none.commanded(q).angle() == none.max_rad,
        Arm::ReceiverDirect(servo).observed(q).angle() == servo.observed(q).angle(),
        Arm::ReceiverDirect(servo).commanded(q).angle() == servo.angle(),
        Arm::Unwired(none).commanded(q).angle() == none.commanded(q).angle(),
        Arm::Unwired(none).observed(q).angle() == none.angle(),
{
}

} // verus!
