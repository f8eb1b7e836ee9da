//! Moving one joint a little, to learn which way it turns.
//!
//! The joint is driven in the motor's frame, so that the answer to whether it went
//! the model's way is its sign. A [`Jog`] says what to do next and is told how it
//! went.
use vstd::arithmetic::power2::*;
use vstd::prelude::*;
use vstd::string::*;

use crate::control::handling::lemma_ones;
use crate::double::{double, Double, ONE};
use crate::hal::config::{is_sign, HardwareConfig};
use crate::hal::imu::{degree, lemma_degree_is_near, lemma_in_units, pi, HALF_TURN, PI};
use crate::hal::joint::{JointCommand, JointMode, JointState, LegSlot, PerJoint};
use crate::hal::legs::{lemma_turned, ordinary, turn, BusRequest};
use crate::measure::{bare, lemma_worth, lemma_worth_negates, lemma_worth_orders, worth};
use crate::reckon::{
    fine, is_about, lemma_about_difference, lemma_about_product, lemma_about_sum, lemma_constant,
    lemma_quotient_is_near, lemma_stray_is_fine, slack,
};
use crate::text::{decimal, decimal_text};

verus! {

/// 0.5, as bits.
pub const LEAST_DEG: u64 = 0x3fe0_0000_0000_0000;

/// 30, as bits.
pub const MOST_DEG: u64 = 0x403e_0000_0000_0000;

/// 0.2, as bits.
pub const TOLERANCE: u64 = 0x3fc9_9999_9999_999a;

/// 1e-9, as bits.
pub const CLAMPED_RAD: u64 = 0x3e11_2e0b_e826_d695;

/// 0.1, as bits.
pub const SLOWEST_RATE: u64 = 0x3fb9_9999_9999_999a;

/// Whether a jog is small enough for a calibration.
pub fn check_angle(deg: Double) -> (r: Result<(), String>)
    ensures
        r is Ok <==> double(LEAST_DEG).at_most(deg.abs()) && deg.abs().at_most(double(MOST_DEG)),
        r matches Err(e) ==> e@
            == "--deg は 0.5..30 の範囲で指定してください（校正は小さく動かす）"@,
{
    if double(LEAST_DEG).at_most(deg.abs()) && deg.abs().at_most(double(MOST_DEG)) {
        Ok(())
    } else {
        Err("--deg は 0.5..30 の範囲で指定してください（校正は小さく動かす）".to_owned())
    }
}

/// An angle in radians.
pub fn radians(deg: Double) -> (r: Double)
    ensures
        r == deg.times(degree()),
        is_about(deg, 0real, 400real) ==> is_about(
            r,
            worth(deg) * (pi() / 180real),
            2real * slack(),
        ),
{
    proof {
        if is_about(deg, 0real, 400real) {
            lemma_degree_is_near();
            lemma_in_units(deg, degree(), pi() / 180real);
        }
    }
    deg.times(double(PI).over(double(HALF_TURN)))
}

/// A jog that the range would cut short.
#[derive(Debug, Clone, Copy, PartialEq, Eq, Structural)]
pub struct Clamped {
    pub before: Double,
    /// How far the joint was to move, in the model's frame.
    pub delta: Double,
    pub min_rad: Double,
    pub max_rad: Double,
    /// How far it would move.
    pub would_move: Double,
}

/// Where a jog ends: relative to where the joint is.
pub open spec fn jog_goal(before: Double, sign: Double, delta_rad: Double) -> Double {
    before.plus(sign.times(delta_rad))
}

/// The target of a jog by `delta_rad` in the motor's frame. A target beyond the
/// range is refused: the joint would run to the end, and the way it went would say
/// nothing about its sign.
pub fn jog_target(
    before: Double,
    sign: Double,
    delta_rad: Double,
    min_rad: Double,
    max_rad: Double,
) -> (r: Result<Double, Clamped>)
    requires
        min_rad.at_most(max_rad),
    ensures
        ({
            let goal = jog_goal(before, sign, delta_rad);
            let held = goal.clamp(min_rad, max_rad);
            if double(CLAMPED_RAD).below(held.minus(goal).abs()) {
                r == Err::<Double, Clamped>(
                    Clamped {
                        before,
                        delta: sign.times(delta_rad),
                        min_rad,
                        max_rad,
                        would_move: held.minus(before),
                    },
                )
            } else {
                r == Ok::<Double, Clamped>(goal)
            }
        }),
{
    let goal = before.plus(sign.times(delta_rad));
    let held = goal.clamp(min_rad, max_rad);
    if double(CLAMPED_RAD).below(held.minus(goal).abs()) {
        return Err(
            Clamped {
                before,
                delta: sign.times(delta_rad),
                min_rad,
                max_rad,
                would_move: held.minus(before),
            },
        );
    }
    Ok(goal)
}

/// The commands of a jog: one joint driven, the others idle.
pub fn jog_commands(k: usize, target: Double, speed: Double) -> (r: PerJoint<JointCommand>)
    requires
        k < 3,
    ensures
        r == PerJoint::all(JointCommand::idle()).with(
            k as int,
            JointCommand {
                mode: JointMode::Position,
                position_rad: target,
                max_speed_rad_s: speed,
                torque_nm: double(0),
            },
        ),
{
    let mut r = PerJoint::filled(JointCommand::default());
    r.set(
        k,
        JointCommand {
            mode: JointMode::Position,
            position_rad: target,
            max_speed_rad_s: speed,
            torque_nm: double(0),
        },
    );
    r
}

/// A jog drives no joint but its own.
pub proof fn law_a_jog_drives_one_joint(k: int, j: int, command: JointCommand)
    requires
        0 <= k < 3,
        0 <= j < 3,
        j != k,
    ensures
        PerJoint::all(JointCommand::idle()).with(k, command).at(j).mode is Idle,
{
}

proof fn lemma_travel(delta_rad: Double, max_target_rate: Double)
    requires
        is_about(delta_rad, 0real, 256real),
        ordinary(max_target_rate),
    ensures
        ({
            let r = delta_rad.abs().over(max_target_rate.max(double(SLOWEST_RATE))).plus(double(ONE));
            let way = bare(worth(delta_rad));
            let rate = worth(max_target_rate);
            &&& 1real / 10real + slack() <= rate ==> is_about(r, way / rate + 1real, slack())
            &&& rate <= 1real / 10real - slack() ==> is_about(r, way * 10real + 1real, 100real * slack())
        }),
{
    let slow = double(SLOWEST_RATE);
    lemma2_to64();
    lemma2_to64_rest();
    lemma_constant(slow, 7205759403792794, 1018, 56);
    assert(pow2(56) as real == 72057594037927936real);
    assert(is_about(slow, 1real / 10real, fine()));
    lemma_worth_orders(slow, max_target_rate);
    lemma_worth_orders(max_target_rate, slow);
    let top = max_target_rate.max(slow);
    let w = worth(top);
    let d = delta_rad.abs();
    lemma_worth(delta_rad);
    lemma_worth_negates(delta_rad);
    lemma_worth(d);
    let way = worth(d);
    assert(way == bare(worth(delta_rad)));
    assert(w >= 9real / 100real);
    let x = way / w;
    assert(x * w == way && 0real <= x <= 2900real) by (nonlinear_arith)
        requires
            x == way / w,
            0real <= way <= 256real,
            w >= 9real / 100real,
    ;
    lemma_quotient_is_near(d, top, x);
    lemma_stray_is_fine(worth(d.over(top)), x);
    lemma_ones();
    lemma_about_sum(d.over(top), x, fine(), double(ONE), 1real, 0real);
    if worth(max_target_rate) <= 1real / 10real - slack() {
        let g = 1real - 10real * w;
        assert(x - 10real * way == x * g) by (nonlinear_arith)
            requires
                x * w == way,
                g == 1real - 10real * w,
        ;
        assert(-(1real / 20000000real) <= x * g <= 1real / 20000000real) by (nonlinear_arith)
            requires
                0real <= x <= 2900real,
                -(1real / 100000000000real) <= g <= 1real / 100000000000real,
        ;
    }
}

/// How long a jog is given (s): the way at the target's rate, and a second.
pub fn travel_time(delta_rad: Double, max_target_rate: Double) -> (r: Double)
    ensures
        r == delta_rad.abs().over(max_target_rate.max(double(SLOWEST_RATE))).plus(double(ONE)),
        is_about(delta_rad, 0real, 256real) && ordinary(max_target_rate) ==> {
            let way = bare(worth(delta_rad));
            let rate = worth(max_target_rate);
            &&& 1real / 10real + slack() <= rate ==> is_about(r, way / rate + 1real, slack())
            &&& rate <= 1real / 10real - slack() ==> is_about(r, way * 10real + 1real, 100real * slack())
        },
{
    proof {
        if is_about(delta_rad, 0real, 256real) && ordinary(max_target_rate) {
            lemma_travel(delta_rad, max_target_rate);
        }
    }
    delta_rad.abs().over(max_target_rate.max(double(SLOWEST_RATE))).plus(double(ONE))
}

/// What a jog showed.
#[derive(Debug, Clone, Copy, PartialEq, Eq, Structural)]
pub enum Verdict {
    /// The way is too far from what was asked for to say anything.
    Unusable,
    /// The joint hardly moved.
    Still,
    /// It moved as asked.
    Moved,
}

/// What a way of `moved` shows, where `asked` (rad) was asked for, whichever way.
pub open spec fn verdict_of(moved: Double, asked: Double) -> Verdict {
    let expected = asked.abs();
    let slack = expected.times(double(TOLERANCE));
    if slack.below(moved.abs().minus(expected).abs()) && slack.at_most(moved.abs()) {
        Verdict::Unusable
    } else if moved.abs().below(slack) {
        Verdict::Still
    } else {
        Verdict::Moved
    }
}

pub fn verdict(moved: Double, asked: Double) -> (r: Verdict)
    ensures
        r == verdict_of(moved, asked),
{
    let expected = asked.abs();
    let slack = expected.times(double(TOLERANCE));
    if slack.below(moved.abs().minus(expected).abs()) && slack.at_most(moved.abs()) {
        Verdict::Unusable
    } else if moved.abs().below(slack) {
        Verdict::Still
    } else {
        Verdict::Moved
    }
}

/// The sign that an answer gives: 1 if the joint moved the positive way.
pub fn sign_answer(answer: &str) -> (r: Double)
    ensures
        r == (if answer@.len() > 0 && answer@[0] == 'y' { double(ONE) } else { double(ONE).neg() }),
{
    if answer.unicode_len() > 0 && answer.get_char(0) == 'y' {
        double(ONE)
    } else {
        double(ONE).neg()
    }
}

/// Writes the sign of one motor into a configuration.
pub fn set_sign(hw: &mut HardwareConfig, bus: usize, k: usize, sign: Double)
    requires
        bus < old(hw).legs.bus.len(),
        k < old(hw).legs.bus[bus as int].motors.len(),
    ensures
        crate::control::calib::zero::motor_changed(
            *old(hw),
            *final(hw),
            bus as int,
            k as int,
            (crate::hal::config::MotorConfig {
                sign,
                ..old(hw).legs.bus[bus as int].motors[k as int]
            }),
        ),
{
    hw.legs.bus[bus].motors[k].sign = sign;
}

/// How the reading of one joint stands.
#[derive(Debug, Clone)]
pub enum Reading {
    Angle(Double),
    /// Look again after this long (ns).
    Again { ns: u64 },
    /// The joint does not answer.
    Silent(String),
}

/// One look at a joint, until it answers or the time is up.
pub fn measure_one(state: &JointState, leg: LegSlot, k: usize, last_error: &str, now: u64, deadline: u64)
    -> (r: Reading)
    ensures
        if now >= deadline {
            r matches Reading::Silent(e) && e@ == leg.name() + " 軸"@ + decimal(k as nat)
                + " が応答しません（"@ + last_error@ + "）"@
        } else if state.ok {
            r == Reading::Angle(state.position_rad)
        } else {
            r == (Reading::Again { ns: 20_000_000 })
        },
{
    if now >= deadline {
        Reading::Silent(
            leg.prefix().to_owned().concat(" 軸").concat(decimal_text(k as u64).as_str()).concat(
                " が応答しません（",
            ).concat(last_error).concat("）"),
        )
    } else if state.ok {
        Reading::Angle(state.position_rad)
    } else {
        Reading::Again { ns: 20_000_000 }
    }
}

/// One look at whether a bus has its frame, before a jog.
pub fn wait_frame(anchored: bool, now: u64, deadline: u64) -> (r: Result<Option<u64>, String>)
    ensures
        if anchored {
            r == Ok::<Option<u64>, String>(None)
        } else if now >= deadline {
            r matches Err(e) && e@
                == "マルチターンフレームを確立できません（モータ電源とボーレートを確認してください）"@
        } else {
            r == Ok::<Option<u64>, String>(Some(50_000_000))
        },
{
    if anchored {
        Ok(None)
    } else if now >= deadline {
        Err(
            "マルチターンフレームを確立できません（モータ電源とボーレートを確認してください）".to_owned(),
        )
    } else {
        Ok(Some(50_000_000))
    }
}

/// One joint to be moved.
#[derive(Debug, Clone, Copy, PartialEq, Eq, Structural)]
pub struct JogPlan {
    pub leg: LegSlot,
    pub joint: usize,
    pub deg: Double,
    pub speed: Double,
    pub sign: Double,
    pub min_rad: Double,
    pub max_rad: Double,
    pub max_target_rate: Double,
}

/// Where a jog stands.
#[derive(Debug, Clone, Copy, PartialEq, Eq, Structural)]
pub enum JogStage {
    /// The operator makes sure that the leg is free.
    Confirm,
    /// The bus is opened.
    Open,
    /// The joint is read.
    ReadBefore,
    /// The bus gets its frame.
    AwaitFrame { before: Double },
    SettleFirst { before: Double },
    /// The joint is powered.
    Enable { before: Double },
    /// The joint is sent to its target.
    Travel { before: Double, target: Double },
    Wait { before: Double },
    ReadAfter { before: Double },
    /// The commands are taken back.
    Idle { outcome: Outcome },
    /// The joint is released.
    Disable { outcome: Outcome },
    SettleLast { outcome: Outcome },
    Ended { outcome: Outcome },
}

/// How a jog came out.
#[derive(Debug, Clone, Copy, PartialEq, Eq, Structural)]
pub enum Outcome {
    /// The joint went from one angle to another.
    Went { before: Double, after: Double },
    /// The range would have cut the jog short.
    Refused(Clamped),
    /// Something failed; the caller knows what.
    Failed,
}

/// What is done next.
#[derive(Debug, Clone, Copy, PartialEq, Eq, Structural)]
pub enum JogAction {
    Confirm,
    Open,
    /// Read the joint, for at most two seconds.
    Read,
    /// Wait for the frame, for at most three seconds.
    AwaitFrame,
    /// Sleep (s).
    Sleep { seconds: Double },
    Settle,
    Send(BusRequest),
    Command(PerJoint<JointCommand>),
    End(Outcome),
}

/// How it went.
#[derive(Debug, Clone, Copy, PartialEq, Eq, Structural)]
pub enum JogEvent {
    Done,
    Angle(Double),
    Failed,
}

/// A jog in progress.
#[derive(Debug, Clone, Copy, PartialEq, Eq, Structural)]
pub struct Jog {
    pub plan: JogPlan,
    pub stage: JogStage,
}

/// The goal of a jog, or that the range would cut it short.
pub open spec fn aim(plan: JogPlan, before: Double) -> Result<Double, Clamped> {
    let delta = plan.deg.times(degree());
    let goal = jog_goal(before, plan.sign, delta);
    let held = goal.clamp(plan.min_rad, plan.max_rad);
    if double(CLAMPED_RAD).below(held.minus(goal).abs()) {
        Err(
            Clamped {
                before,
                delta: plan.sign.times(delta),
                min_rad: plan.min_rad,
                max_rad: plan.max_rad,
                would_move: held.minus(before),
            },
        )
    } else {
        Ok(goal)
    }
}

impl Jog {
    pub open spec fn wf(self) -> bool {
        self.plan.joint < 3 && self.plan.min_rad.is_at_most(self.plan.max_rad)
    }

    /// What is done at a stage.
    pub open spec fn next_action(self) -> JogAction {
        match self.stage {
            JogStage::Confirm => JogAction::Confirm,
            JogStage::Open => JogAction::Open,
            JogStage::ReadBefore => JogAction::Read,
            JogStage::AwaitFrame { .. } => JogAction::AwaitFrame,
            JogStage::SettleFirst { .. } => JogAction::Settle,
            JogStage::Enable { .. } => JogAction::Send(BusRequest::EnableJoint(self.plan.joint)),
            JogStage::Travel { target, .. } => JogAction::Command(
                PerJoint::all(JointCommand::idle()).with(
                    self.plan.joint as int,
                    JointCommand {
                        mode: JointMode::Position,
                        position_rad: target,
                        max_speed_rad_s: self.plan.speed,
                        torque_nm: double(0),
                    },
                ),
            ),
            JogStage::Wait { .. } => JogAction::Sleep {
                seconds: self.plan.deg.times(degree()).abs().over(
                    self.plan.max_target_rate.max(double(SLOWEST_RATE)),
                ).plus(double(ONE)),
            },
            JogStage::ReadAfter { .. } => JogAction::Read,
            JogStage::Idle { .. } => JogAction::Command(PerJoint::all(JointCommand::idle())),
            JogStage::Disable { .. } => JogAction::Send(BusRequest::DisableJoint(self.plan.joint)),
            JogStage::SettleLast { .. } => JogAction::Settle,
            JogStage::Ended { outcome } => JogAction::End(outcome),
        }
    }

    /// The stage after an event. Once the joint was powered, every way out leads
    /// through its release.
    pub open spec fn stage_after(self, event: JogEvent) -> JogStage {
        let failed = Outcome::Failed;
        match (self.stage, event) {
            (JogStage::Confirm, JogEvent::Done) => JogStage::Open,
            (JogStage::Open, JogEvent::Done) => JogStage::ReadBefore,
            (JogStage::ReadBefore, JogEvent::Angle(before)) => JogStage::AwaitFrame { before },
            (JogStage::AwaitFrame { before }, JogEvent::Done) => JogStage::SettleFirst { before },
            (JogStage::SettleFirst { before }, JogEvent::Done) => JogStage::Enable { before },
            (JogStage::Enable { before }, JogEvent::Done) => match aim(self.plan, before) {
                Ok(target) => JogStage::Travel { before, target },
                Err(clamped) => JogStage::Idle { outcome: Outcome::Refused(clamped) },
            },
            (JogStage::Travel { before, .. }, JogEvent::Done) => JogStage::Wait { before },
            (JogStage::Wait { before }, JogEvent::Done) => JogStage::ReadAfter { before },
            (JogStage::ReadAfter { before }, JogEvent::Angle(after)) => JogStage::Idle {
                outcome: Outcome::Went { before, after },
            },
            (JogStage::Travel { .. }, _) => JogStage::Idle { outcome: failed },
            (JogStage::Wait { .. }, _) => JogStage::Idle { outcome: failed },
            (JogStage::ReadAfter { .. }, _) => JogStage::Idle { outcome: failed },
            (JogStage::Idle { outcome }, _) => JogStage::Disable { outcome },
            (JogStage::Disable { outcome }, _) => JogStage::SettleLast { outcome },
            (JogStage::SettleLast { outcome }, _) => JogStage::Ended { outcome },
            (JogStage::Ended { outcome }, _) => JogStage::Ended { outcome },
            _ => JogStage::Ended { outcome: failed },
        }
    }

    /// A jog of one joint.
    pub fn new(plan: JogPlan) -> (r: Jog)
        requires
            plan.joint < 3,
            plan.min_rad.is_at_most(plan.max_rad),
        ensures
            r == (Jog { plan, stage: JogStage::Confirm }),
            r.wf(),
    {
        Jog { plan, stage: JogStage::Confirm }
    }

    /// What to do next.
    pub fn action(&self) -> (r: JogAction)
        requires
            self.wf(),
        ensures
            r == self.next_action(),
    {
        match self.stage {
            JogStage::Confirm => JogAction::Confirm,
            JogStage::Open => JogAction::Open,
            JogStage::ReadBefore => JogAction::Read,
            JogStage::AwaitFrame { .. } => JogAction::AwaitFrame,
            JogStage::SettleFirst { .. } => JogAction::Settle,
            JogStage::Enable { .. } => JogAction::Send(BusRequest::EnableJoint(self.plan.joint)),
            JogStage::Travel { target, .. } => JogAction::Command(
                jog_commands(self.plan.joint, target, self.plan.speed),
            ),
            JogStage::Wait { .. } => JogAction::Sleep {
                seconds: travel_time(radians(self.plan.deg), self.plan.max_target_rate),
            },
            JogStage::ReadAfter { .. } => JogAction::Read,
            JogStage::Idle { .. } => JogAction::Command(PerJoint::filled(JointCommand::default())),
            JogStage::Disable { .. } => JogAction::Send(BusRequest::DisableJoint(self.plan.joint)),
            JogStage::SettleLast { .. } => JogAction::Settle,
            JogStage::Ended { outcome } => JogAction::End(outcome),
        }
    }

    /// Takes in how it went.
    pub fn step(&mut self, event: JogEvent)
        requires
            old(self).wf(),
        ensures
            final(self).wf(),
            *final(self) == (Jog { stage: old(self).stage_after(event), ..*old(self) }),
    {
        let failed = Outcome::Failed;
        let stage = match (self.stage, event) {
            (JogStage::Confirm, JogEvent::Done) => JogStage::Open,
            (JogStage::Open, JogEvent::Done) => JogStage::ReadBefore,
            (JogStage::ReadBefore, JogEvent::Angle(before)) => JogStage::AwaitFrame { before },
            (JogStage::AwaitFrame { before }, JogEvent::Done) => JogStage::SettleFirst { before },
            (JogStage::SettleFirst { before }, JogEvent::Done) => JogStage::Enable { before },
            (JogStage::Enable { before }, JogEvent::Done) => {
                match jog_target(
                    before,
                    self.plan.sign,
                    radians(self.plan.deg),
                    self.plan.min_rad,
                    self.plan.max_rad,
                ) {
                    Ok(target) => JogStage::Travel { before, target },
                    Err(clamped) => JogStage::Idle { outcome: Outcome::Refused(clamped) },
                }
            },
            (JogStage::Travel { before, .. }, JogEvent::Done) => JogStage::Wait { before },
            (JogStage::Wait { before }, JogEvent::Done) => JogStage::ReadAfter { before },
            (JogStage::ReadAfter { before }, JogEvent::Angle(after)) => JogStage::Idle {
                outcome: Outcome::Went { before, after },
            },
            (JogStage::Travel { .. }, _) => JogStage::Idle { outcome: failed },
            (JogStage::Wait { .. }, _) => JogStage::Idle { outcome: failed },
            (JogStage::ReadAfter { .. }, _) => JogStage::Idle { outcome: failed },
            (JogStage::Idle { outcome }, _) => JogStage::Disable { outcome },
            (JogStage::Disable { outcome }, _) => JogStage::SettleLast { outcome },
            (JogStage::SettleLast { outcome }, _) => JogStage::Ended { outcome },
            (JogStage::Ended { outcome }, _) => JogStage::Ended { outcome },
            _ => JogStage::Ended { outcome: failed },
        };
        self.stage = stage;
    }
}

/// Whether a joint may be powered at a stage.
pub open spec fn is_powered(stage: JogStage) -> bool {
    stage is Travel || stage is Wait || stage is ReadAfter || stage is Idle || stage is Disable
}

/// A jog powers its own joint alone, and once it is powered the jog cannot end
/// before its release was sent.
pub proof fn law_a_jog_always_releases_its_joint(jog: Jog, event: JogEvent)
    ensures
        jog.next_action() matches JogAction::Send(request) ==> request == BusRequest::EnableJoint(
            jog.plan.joint,
        ) || request == BusRequest::DisableJoint(jog.plan.joint),
        is_powered(jog.stage) && !is_powered(jog.stage_after(event)) ==> jog.next_action()
            == JogAction::Send(BusRequest::DisableJoint(jog.plan.joint)),
        jog.stage is Enable && event is Done ==> is_powered(jog.stage_after(event)),
        !is_powered(jog.stage) && is_powered(jog.stage_after(event)) ==> jog.next_action()
            == JogAction::Send(BusRequest::EnableJoint(jog.plan.joint)),
{
}

/// A jog goes to where its joint is and the asked angle further, in the direction of the
/// joint's sign.
pub proof fn law_a_jog_goes_by_the_asked_angle(before: Double, sign: Double, delta: Double)
    requires
        ordinary(before),
        ordinary(delta),
        is_sign(sign),
    ensures
        is_about(
            jog_goal(before, sign, delta),
            worth(before) + turn(sign) * worth(delta),
            slack(),
        ),
{
    lemma_turned(sign, delta);
    let d = worth(delta);
    assert(1real * d == d && -1real * d == -d) by (nonlinear_arith);
    lemma_about_sum(before, worth(before), 0real, sign.times(delta), turn(sign) * d, 0real);
}

/// Where the target of a jog lies: the jog's goal if that is within the range, and none
/// if it is clearly outside; what is refused tells where the joint is, its range and how
/// far it could go.
pub proof fn law_a_jog_out_of_range_is_refused(plan: JogPlan, before: Double)
    requires
        plan.min_rad.is_at_most(plan.max_rad),
        ordinary(plan.min_rad),
        ordinary(plan.max_rad),
        ordinary(jog_goal(before, plan.sign, plan.deg.times(degree()))),
    ensures
        ({
            let goal = jog_goal(before, plan.sign, plan.deg.times(degree()));
            let g = worth(goal);
            &&& worth(plan.min_rad) <= g <= worth(plan.max_rad) ==> aim(plan, before) == Ok::<
                Double,
                Clamped,
            >(goal)
            &&& g <= worth(plan.min_rad) - 2real * slack() || worth(plan.max_rad) + 2real * slack() <= g
                ==> aim(plan, before) is Err
            &&& aim(plan, before) matches Ok(target) ==> target == goal
            &&& aim(plan, before) matches Err(c) ==> c.before == before && c.min_rad == plan.min_rad
                && c.max_rad == plan.max_rad
        }),
{
    let goal = jog_goal(before, plan.sign, plan.deg.times(degree()));
    let held = goal.clamp(plan.min_rad, plan.max_rad);
    let most = double(CLAMPED_RAD);
    lemma_worth_orders(goal, plan.min_rad);
    lemma_worth_orders(plan.min_rad, goal);
    lemma_worth_orders(plan.max_rad, goal);
    lemma_worth_orders(goal, plan.max_rad);
    lemma_worth_orders(plan.min_rad, plan.max_rad);
    lemma2_to64();
    lemma2_to64_rest();
    lemma_pow2_adds(64, 18);
    lemma_constant(most, 4835703278458517, 992, 82);
    assert(pow2(64) * pow2(18) == 4835703278458516698824704int) by (nonlinear_arith)
        requires
            pow2(64) == 18446744073709551616,
            pow2(18) == 262144,
    ;
    assert(pow2(82) as real == 4835703278458516698824704real);
    assert(is_about(most, slack(), fine()));
    lemma_about_difference(held, worth(held), 0real, goal, worth(goal), 0real);
    let gap = held.minus(goal);
    lemma_worth(gap);
    lemma_worth_negates(gap);
    lemma_worth(gap.abs());
    lemma_worth_orders(most, gap.abs());
    lemma_worth_orders(gap.abs(), most);
}

/// A jog that went is judged by how far: hardly at all below a fifth of what was asked,
/// as asked within a fifth of it, and as nothing to go by otherwise.
pub proof fn law_a_jog_is_judged_by_how_far_it_went(moved: Double, asked: Double)
    requires
        ordinary(moved),
        ordinary(asked),
    ensures
        ({
            let m = bare(worth(moved));
            let a = bare(worth(asked));
            let v = verdict_of(moved, asked);
            let gap = 3real * slack();
            &&& m <= a / 5real - gap ==> v is Still
            &&& a * 4real / 5real + gap <= m && m <= a * 6real / 5real - gap ==> v is Moved
            &&& (a / 5real + gap <= m && m <= a * 4real / 5real - gap) || a * 6real / 5real + gap
                <= m ==> v is Unusable
        }),
{
    let e = asked.abs();
    let t = double(TOLERANCE);
    lemma2_to64();
    lemma2_to64_rest();
    lemma_constant(t, 7205759403792794, 1019, 55);
    assert(pow2(55) as real == 36028797018963968real);
    lemma_worth(asked);
    lemma_worth_negates(asked);
    lemma_worth(e);
    let a = worth(e);
    assert(a == bare(worth(asked)));
    assert(is_about(t, 1real / 5real, fine()));
    assert(bare(a) * (1real / 5real) <= 300real) by (nonlinear_arith)
        requires
            0real <= bare(a) <= 1024real,
    ;
    lemma_about_product(e, a, 0real, t, 1real / 5real, fine());
    let part = e.times(t);
    assert(bare(a) * fine() + (1real / 5real) * 0real + 0real * fine() + fine() <= 2000real * fine())
        by (nonlinear_arith)
        requires
            0real <= bare(a) <= 1024real,
            fine() == 1real / 1000000000000real,
    ;
    assert(bare(1real / 5real) == 1real / 5real);
    assert(a * (1real / 5real) == a / 5real);
    lemma_worth(moved);
    lemma_worth_negates(moved);
    let w = moved.abs();
    lemma_worth(w);
    let m = worth(w);
    assert(m == bare(worth(moved)));
    lemma_about_difference(w, m, 0real, e, a, 0real);
    let off = w.minus(e);
    lemma_worth(off);
    lemma_worth_negates(off);
    lemma_worth(off.abs());
    lemma_worth_orders(part, off.abs());
    lemma_worth_orders(off.abs(), part);
    lemma_worth_orders(part, w);
    lemma_worth_orders(w, part);
    assert(bare(worth(part) - a / 5real) <= 2000real * fine());
    assert(bare(worth(off) - (m - a)) <= fine());
    let d = worth(off.abs());
    assert(d == bare(worth(off)));
    let p = worth(part);
    assert(part.below(off.abs()) == (p < d));
    assert(w.below(part) == (m < p));
    assert(part.at_most(w) == (p <= m));
    let fifth = a / 5real;
    assert(a == 5real * fifth);
    assert(a * 4real / 5real == 4real * fifth);
    assert(a * 6real / 5real == 6real * fifth);
    assert(2000real * fine() == 1real / 500000000real);
    assert(slack() == 1real / 1000000000real);
}

/// A jog goes through its steps in order: it is agreed to, the bus is opened, the joint is
/// read, the frame is waited for, and only then the joint is closed and sent. It is read
/// again when it has arrived, and what is told is both readings.
pub proof fn law_a_jog_takes_its_steps_in_order(jog: Jog, angle: Double)
    ensures
        jog.stage is Confirm ==> jog.next_action() is Confirm && jog.stage_after(JogEvent::Done) is Open,
        jog.stage is Open ==> jog.next_action() is Open && jog.stage_after(JogEvent::Done) is ReadBefore,
        jog.stage is ReadBefore ==> jog.next_action() is Read && jog.stage_after(JogEvent::Angle(angle))
            == (JogStage::AwaitFrame { before: angle }),
        jog.stage matches JogStage::AwaitFrame { before } ==> jog.next_action() is AwaitFrame
            && jog.stage_after(JogEvent::Done) == (JogStage::SettleFirst { before }),
        jog.stage matches JogStage::SettleFirst { before } ==> jog.next_action() is Settle
            && jog.stage_after(JogEvent::Done) == (JogStage::Enable { before }),
        jog.stage matches JogStage::Enable { before } ==> {
            &&& jog.next_action() == JogAction::Send(BusRequest::EnableJoint(jog.plan.joint))
            &&& aim(jog.plan, before) matches Ok(target) ==> jog.stage_after(JogEvent::Done) == (
            JogStage::Travel { before, target })
        },
        jog.stage matches JogStage::Travel { before, target } ==> {
            &&& jog.plan.joint < 3 ==> (jog.next_action() matches JogAction::Command(c) && c.at(
                jog.plan.joint as int,
            ).mode is Position && c.at(jog.plan.joint as int).position_rad == target && c.at(
                jog.plan.joint as int,
            ).max_speed_rad_s == jog.plan.speed)
            &&& jog.stage_after(JogEvent::Done) == (JogStage::Wait { before })
        },
        jog.stage matches JogStage::Wait { before } ==> jog.next_action() is Sleep && jog.stage_after(
            JogEvent::Done,
        ) == (JogStage::ReadAfter { before }),
        jog.stage matches JogStage::ReadAfter { before } ==> jog.next_action() is Read
            && jog.stage_after(JogEvent::Angle(angle)) == (JogStage::Idle {
            outcome: Outcome::Went { before, after: angle },
        }),
        jog.stage matches JogStage::Ended { outcome } ==> jog.next_action() == JogAction::End(outcome),
{
}

} // verus!
