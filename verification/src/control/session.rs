//! One period of the control loop after another.
//!
//! A period has three parts. [`Session::begin`] takes in what was sensed, reads the
//! operator and begins a tick of the machine; [`Session::resume`] goes on with what
//! the gait and the interpolation answer; [`Session::end`] turns the tick's output
//! into commands. In between, the motors are switched where [`Loop::switch`] asks for
//! it.
use vstd::prelude::*;

use crate::control::conduct::law_relax_takes_effect_from_any_state;
use crate::control::controller::{
    goes_on, question, ramp_bears, starts, Answer, Ask, ControlOutput, Controller, Mind, Tick,
};
use crate::control::diag::{angles_of, measured};
use crate::control::jointvec::JointVec;
use crate::control::runner::{
    command_of, excursions, leg_orders, worst_after, write_targets, Excursion, Loop, RunOptions, Watch,
};
use crate::control::teleop::{ModeRequest, OperatorCommand, Teleop};
use crate::double::{double, seconds, seconds_of, Double};
use crate::hal::arm::{Arm, ArmServo};
use crate::hal::joint::{JointCommand, JointMode, JointState, LegSlot, PerJoint, PerLeg};
use crate::hal::legs::BusRequest;
use crate::hal::sbus::SbusState;
use crate::reckon::{is_about, lemma_seconds_are_near, slack};

verus! {

/// What is sensed at the start of a period.
#[derive(Debug, Clone, Copy)]
pub struct Senses {
    pub sbus: SbusState,
    /// The body's roll and pitch (rad).
    pub roll: Double,
    pub pitch: Double,
    pub states: PerLeg<PerJoint<JointState>>,
}

/// What a period sends.
#[derive(Debug, Clone)]
pub struct Orders {
    pub commands: PerLeg<PerJoint<JointCommand>>,
    /// The joints out of range that are to be told of.
    pub excursions: Vec<Excursion>,
}

/// The control loop.
#[derive(Debug, Clone)]
pub struct Session {
    pub opts: RunOptions,
    /// How old the operator's input may be (ns).
    pub timeout: u64,
    /// The speed limit of position commands (rad/s).
    pub speed: Double,
    pub teleop: Teleop,
    pub controller: Controller,
    pub arm: Arm,
    pub watch: Watch,
    pub beat: Loop,
    /// The command and the angles of the period.
    pub cmd: OperatorCommand,
    pub measured: JointVec,
}

/// What the operator asks for, given the link: on a bench without a receiver to
/// stand, over a working link what the sticks say, otherwise what was last asked for,
/// without speed.
pub open spec fn asked(teleop: Teleop, sbus: SbusState, opts: RunOptions, timeout: u64, now: u64)
    -> OperatorCommand {
    let usable = sbus.usable(timeout, now);
    if !usable && opts.allow_no_sbus {
        OperatorCommand::safe(teleop.last_gait, ModeRequest::Stand)
    } else if usable {
        teleop.command(sbus.channels@)
    } else {
        OperatorCommand::safe(teleop.last_gait, teleop.last_mode)
    }
}

/// What is remembered of the operator after a period.
pub open spec fn teleop_after(teleop: Teleop, sbus: SbusState, opts: RunOptions, timeout: u64, now: u64)
    -> Teleop {
    let usable = sbus.usable(timeout, now);
    if !usable && opts.allow_no_sbus {
        teleop
    } else if usable {
        Teleop {
            prev_pose_on: teleop.cfg.pose.at(sbus.channels@) > 0,
            last_gait: teleop.command(sbus.channels@).gait,
            last_mode: teleop.command(sbus.channels@).mode,
            ..teleop
        }
    } else {
        Teleop { prev_pose_on: true, ..teleop }
    }
}

/// The arm after a period's observation.
pub open spec fn arm_after(arm: Arm, cmd: OperatorCommand) -> Arm {
    match cmd.arm_rad {
        Some(q) => arm.observed(q),
        None => arm,
    }
}

impl Session {
    pub open spec fn wf(self) -> bool {
        &&& self.controller.wf()
        &&& self.arm.wf()
        &&& self.watch.wf()
        &&& ramp_bears(self.controller.setup.gait, seconds_of(self.beat.period as nat))
    }

    /// The tick of a period.
    pub open spec fn tick(self, senses: Senses, now: u64) -> Tick {
        let cmd = asked(self.teleop, senses.sbus, self.opts, self.timeout, now);
        Tick {
            cmd,
            measured: angles_of(senses.states, arm_after(self.arm, cmd).angle()),
            roll: senses.roll,
            pitch: senses.pitch,
            dt: seconds_of(self.beat.period as nat),
        }
    }

    /// Begins a period. Time passes by the nominal period.
    pub fn begin(&mut self, senses: &Senses, now: u64) -> (r: Ask)
        requires
            old(self).wf(),
        ensures
            final(self).wf(),
            final(self).cmd == old(self).tick(*senses, now).cmd,
            final(self).measured == old(self).tick(*senses, now).measured,
            final(self).arm == arm_after(old(self).arm, final(self).cmd),
            final(self).controller.setup == old(self).controller.setup,
            final(self).controller@ == starts(
                old(self).controller.setup,
                old(self).controller@,
                old(self).tick(*senses, now),
            ),
            r == question(final(self).controller.setup, final(self).controller@),
            final(self).watch == old(self).watch,
            final(self).beat == old(self).beat,
            final(self).opts == old(self).opts,
            final(self).timeout == old(self).timeout,
            final(self).speed == old(self).speed,
            final(self).teleop == teleop_after(
                old(self).teleop,
                senses.sbus,
                old(self).opts,
                old(self).timeout,
                now,
            ),
    {
        let cmd = command_of(&mut self.teleop, &senses.sbus, &self.opts, self.timeout, now);
        let mut arm = self.arm;
        if let Some(q) = cmd.arm_rad {
            arm.observe(q);
        }
        self.arm = arm;
        self.cmd = cmd;
        self.measured = measured(&senses.states, arm.position());
        let dt = seconds(self.beat.period);
        let tick = Tick {
            cmd,
            measured: self.measured,
            roll: senses.roll,
            pitch: senses.pitch,
            dt,
        };
        self.controller.begin(tick)
    }

    /// Goes on with an answer.
    pub fn resume(&mut self, answer: Answer) -> (r: Ask)
        requires
            old(self).wf(),
        ensures
            final(self).wf(),
            final(self).controller.setup == old(self).controller.setup,
            final(self).controller@ == goes_on(
                old(self).controller.setup,
                old(self).controller@,
                answer,
            ),
            r == question(final(self).controller.setup, final(self).controller@),
            *final(self) == (Session { controller: final(self).controller, ..*old(self) }),
    {
        self.controller.resume(answer)
    }

    /// Turns a tick's output into commands. While the robot is limp no target is
    /// sent, so the errors mean nothing.
    pub fn end(&mut self, out: &ControlOutput) -> (r: Orders)
        requires
            old(self).wf(),
        ensures
            final(self).wf(),
            forall|leg: LegSlot| #[trigger]
                r.commands.of(leg) == leg_orders(
                    out.targets.legs.of(leg),
                    out.leg_mode,
                    old(self).speed,
                ),
            r.excursions@ == (if out.leg_mode is Idle || old(self).watch.warned_excursion {
                Seq::empty()
            } else {
                excursions(old(self).watch.limits, old(self).measured, 12)
            }),
            out.leg_mode is Idle ==> final(self).watch == old(self).watch,
            final(self).watch.limits == old(self).watch.limits,
            !(out.leg_mode is Idle) ==> final(self).watch.warned_excursion == (excursions(
                old(self).watch.limits,
                old(self).measured,
                12,
            ).len() > 0),
            !(out.leg_mode is Idle) ==> (final(self).watch.worst, final(self).watch.worst_at)
                == worst_after(
                (old(self).watch.worst, old(self).watch.worst_at),
                out.targets,
                old(self).measured,
                12,
            ),
            final(self).arm == (if old(self).arm.app_driven() {
                old(self).arm.commanded(out.targets.arm)
            } else {
                old(self).arm
            }),
            *final(self) == (Session {
                watch: final(self).watch,
                arm: final(self).arm,
                ..*old(self)
            }),
    {
        let idle: bool = matches!(out.leg_mode, JointMode::Idle);
        let mut told: Vec<Excursion> = Vec::new();
        if !idle {
            let seen = self.measured;
            let mut watch = self.watch;
            told = watch.tick(&out.targets, &seen);
            self.watch = watch;
        }
        let mut arm = self.arm;
        if arm.is_app_driven() {
            let _ = arm.set_position(out.targets.arm);
        }
        self.arm = arm;
        Orders {
            commands: write_targets(&out.targets, out.leg_mode, self.speed),
            excursions: told,
        }
    }

    /// What is sent when the loop ends: no joint is driven any more.
    pub fn farewell(&self) -> (r: (PerLeg<PerJoint<JointCommand>>, BusRequest))
        ensures
            r.1 == BusRequest::Disable,
            forall|leg: LegSlot, k: int|
                0 <= k < 3 ==> #[trigger] r.0.of(leg).at(k) == JointCommand::idle(),
    {
        (PerLeg::filled(PerJoint::filled(JointCommand::default())), BusRequest::Disable)
    }
}

/// Whatever the sticks do, a period that starts with a lost link has no speed and
/// plays nothing, and keeps the mode that was last asked for.
pub proof fn law_a_lost_link_asks_for_no_speed(
    teleop: Teleop,
    sbus: SbusState,
    opts: RunOptions,
    timeout: u64,
    now: u64,
)
    requires
        !sbus.usable(timeout, now),
    ensures
        asked(teleop, sbus, opts, timeout, now).vx_m_s == double(0),
        asked(teleop, sbus, opts, timeout, now).vy_m_s == double(0),
        asked(teleop, sbus, opts, timeout, now).wz_rad_s == double(0),
        !asked(teleop, sbus, opts, timeout, now).play_pose,
        !opts.allow_no_sbus ==> asked(teleop, sbus, opts, timeout, now).mode == teleop.last_mode,
{
}

/// Whether a tick's output, if the tick is over, drives no joint of a leg.
pub open spec fn drives_no_leg(ask: Ask, speed: Double) -> bool {
    ask matches Ask::Done(out) ==> forall|leg: LegSlot, k: int|
        0 <= k < 3 ==> (#[trigger] leg_orders(
            out.targets.legs.of(leg),
            out.leg_mode,
            speed,
        ).at(k)).mode is Idle
}

/// A period whose operator wants the robot limp drives no leg, whatever the machine
/// was doing: neither where it ends at once nor where it ends on an answer.
pub proof fn law_a_limp_period_drives_no_leg(
    session: Session,
    senses: Senses,
    now: u64,
    between: Mind,
    answer: Answer,
)
    requires
        session.tick(senses, now).cmd.mode is Relax,
        between.core.tick == session.tick(senses, now),
        !(between.core.waiting is Nothing),
    ensures
        ({
            let setup = session.controller.setup;
            let begun = starts(setup, session.controller@, session.tick(senses, now));
            let resumed = goes_on(setup, between, answer);
            &&& drives_no_leg(question(setup, begun), session.speed)
            &&& drives_no_leg(question(setup, resumed), session.speed)
        }),
{
    let setup = session.controller.setup;
    law_relax_takes_effect_from_any_state(
        setup,
        session.controller@,
        session.tick(senses, now),
        answer,
    );
    law_relax_takes_effect_from_any_state(setup, between, session.tick(senses, now), answer);
}

/// Over a working link the operator's sticks and switches are what is asked for, and are
/// remembered; without one, a bench stands, and a robot keeps what was last asked for. A
/// pose switch that is held while the link is gone does not count as pressed later.
pub proof fn law_the_link_decides_what_is_asked(
    teleop: Teleop,
    sbus: SbusState,
    opts: RunOptions,
    timeout: u64,
    now: u64,
)
    ensures
        ({
            let cmd = asked(teleop, sbus, opts, timeout, now);
            let after = teleop_after(teleop, sbus, opts, timeout, now);
            &&& cmd.link_ok == sbus.usable(timeout, now)
            &&& sbus.usable(timeout, now) ==> {
                &&& cmd == teleop.command(sbus.channels@)
                &&& after.last_mode == cmd.mode
                &&& after.last_gait == cmd.gait
                &&& after.prev_pose_on == (teleop.cfg.pose.at(sbus.channels@) > 0)
            }
            &&& !sbus.usable(timeout, now) ==> {
                &&& cmd.gait == teleop.last_gait
                &&& cmd.mode == if opts.allow_no_sbus { ModeRequest::Stand } else { teleop.last_mode }
                &&& cmd.arm_rad is None
                &&& !cmd.chicken_head
                &&& after.last_mode == teleop.last_mode
                &&& after.last_gait == teleop.last_gait
                &&& !opts.allow_no_sbus ==> after.prev_pose_on
            }
        }),
{
}

/// A tick is handed what was sensed: each joint's measured angle, the arm's as seen, the
/// body's roll and pitch, and the nominal period.
pub proof fn law_a_tick_is_handed_what_was_sensed(
    session: Session,
    senses: Senses,
    now: u64,
    leg: LegSlot,
    k: int,
)
    requires
        0 <= k < 3,
        session.beat.period <= 4_000_000_000_000,
    ensures
        ({
            let tick = session.tick(senses, now);
            &&& tick.measured.legs.of(leg).at(k) == senses.states.of(leg).at(k).position_rad
            &&& tick.roll == senses.roll
            &&& tick.pitch == senses.pitch
            &&& is_about(tick.dt, session.beat.period as real / 1000000000real, slack())
            &&& tick.measured.arm == (match tick.cmd.arm_rad {
                Some(seen) => session.arm.observed(seen).angle(),
                None => session.arm.angle(),
            })
        }),
{
    lemma_seconds_are_near(session.beat.period as nat);
}

} // verus!
