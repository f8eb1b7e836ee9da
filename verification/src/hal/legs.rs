//! What the four leg buses share: their values, requests and conversions.
//!
//! The control loop knows the joint angles of the model alone. How the robot
//! differs from the model is kept in a joint's sign and zero pose:
//!
//! ```text
//! q_motor = sign * (q_model - zero_pose_rad)
//! q_model = sign *  q_motor + zero_pose_rad          (sign = ±1)
//! ```
use vstd::prelude::*;
use vstd::string::*;

use crate::double::{
    double, lemma_exact_sum, lemma_negation_is_below, lemma_product_of_positives,
    lemma_scale_of_zero, lemma_sum_is_monotone, lemma_unit_product, Double,
};
use crate::hal::config::{is_sign, MotorConfig};
use crate::hal::joint::{JointCommand, JointState, LegSlot, PerJoint, PerLeg};
use crate::measure::{
    bare, eps, lemma_sum_is_finite, lemma_sum_strays, lemma_unit, lemma_worth_negates,
    lemma_worth_orders, near, tiny, worth,
};
use crate::reckon::{is_about, lemma_about_difference, lemma_about_sum, slack};
use crate::rounding::{lemma_scale_orders, INFINITE};
use crate::text::{decimal, decimal_text, join_text, joined, views};

verus! {

/// How one bus is doing.
#[derive(Debug, Clone, Copy, PartialEq, Eq, Structural)]
pub struct BusStats {
    /// Cycles completed.
    pub ticks: u64,
    /// Failed transactions, over all three joints.
    pub errors: u64,
    /// The rate over the last full second (Hz).
    pub rate_hz: Double,
    /// How long the last cycle took (s).
    pub last_cycle_s: Double,
    /// How long the longest cycle took (s).
    pub worst_cycle_s: Double,
}

impl BusStats {
    pub open spec fn zero() -> BusStats {
        BusStats {
            ticks: 0,
            errors: 0,
            rate_hz: double(0),
            last_cycle_s: double(0),
            worst_cycle_s: double(0),
        }
    }
}

impl Default for BusStats {
    fn default() -> (r: Self)
        ensures
            r == BusStats::zero(),
    {
        BusStats {
            ticks: 0,
            errors: 0,
            rate_hz: double(0),
            last_cycle_s: double(0),
            worst_cycle_s: double(0),
        }
    }
}

/// What changes slowly about a joint: voltage, temperature and error bits. They
/// take a transaction of their own, so they are read one joint at a time.
#[derive(Debug, Clone, Copy, PartialEq, Eq, Structural)]
pub struct JointStatus {
    pub voltage_v: Double,
    pub temperature_c: Double,
    /// The error bits as read; 0 if there is no error.
    pub error_raw: u8,
    /// Whether this was ever read. If not, the values mean nothing.
    pub valid: bool,
}

/// The names of the error bits that are set.
pub open spec fn error_names(raw: u8) -> Seq<Seq<char>> {
    let none = Seq::<Seq<char>>::empty();
    (if raw & 0x01 != 0 { none.push("低電圧保護"@) } else { none })
        + (if raw & 0x02 != 0 { none.push("高電圧保護"@) } else { none })
        + (if raw & 0x04 != 0 { none.push("ドライバ過熱"@) } else { none })
        + (if raw & 0x08 != 0 { none.push("モータ過熱"@) } else { none })
        + (if raw & 0xf0 != 0 { none.push("未定義ビット"@) } else { none })
}

impl JointStatus {
    pub open spec fn unread() -> JointStatus {
        JointStatus { voltage_v: double(0), temperature_c: double(0), error_raw: 0, valid: false }
    }

    /// Whether an error bit is set.
    pub open spec fn is_faulted(self) -> bool {
        self.valid && self.error_raw != 0
    }

    #[verifier::when_used_as_spec(is_faulted)]
    pub fn faulted(self) -> (r: bool)
        ensures
            r == self.is_faulted(),
    {
        self.valid && self.error_raw != 0
    }

    /// The error bits in words, since each calls for a different remedy.
    pub fn describe(&self) -> (r: String)
        ensures
            r@ == (if self.is_faulted() {
                joined(error_names(self.error_raw), " + "@)
            } else {
                Seq::<char>::empty()
            }),
    {
        if !self.faulted() {
            return String::new();
        }
        let raw: u8 = self.error_raw;
        let mut names: Vec<String> = Vec::new();
        if raw & 0x01 != 0 {
            names.push("低電圧保護".to_owned());
        }
        if raw & 0x02 != 0 {
            names.push("高電圧保護".to_owned());
        }
        if raw & 0x04 != 0 {
            names.push("ドライバ過熱".to_owned());
        }
        if raw & 0x08 != 0 {
            names.push("モータ過熱".to_owned());
        }
        if raw & 0xf0 != 0 {
            names.push("未定義ビット".to_owned());
        }
        assert(views(names@) =~= error_names(raw));
        join_text(&names, " + ")
    }
}

impl Default for JointStatus {
    fn default() -> (r: Self)
        ensures
            r == JointStatus::unread(),
    {
        JointStatus { voltage_v: double(0), temperature_c: double(0), error_raw: 0, valid: false }
    }
}

/// The gains of a motor driver's loops. This driver has no derivative gains.
#[derive(Debug, Clone, Copy, PartialEq, Eq, Structural)]
pub struct JointPids {
    pub position_kp: u8,
    pub position_ki: u8,
    pub speed_kp: u8,
    pub speed_ki: u8,
    pub current_kp: u8,
    pub current_ki: u8,
}

impl Default for JointPids {
    fn default() -> (r: Self)
        ensures
            r == (JointPids {
                position_kp: 0,
                position_ki: 0,
                speed_kp: 0,
                speed_ki: 0,
                current_kp: 0,
                current_ki: 0,
            }),
    {
        JointPids {
            position_kp: 0,
            position_ki: 0,
            speed_kp: 0,
            speed_ki: 0,
            current_kp: 0,
            current_ki: 0,
        }
    }
}

/// A request to a bus. Of commands only the newest counts, so they overwrite
/// each other; requests must each arrive once, so they queue.
#[derive(Debug, Clone, Copy, PartialEq, Eq, Structural)]
pub enum BusRequest {
    /// Close the loop of all three joints.
    Enable,
    /// Stop all three joints; they go limp.
    Disable,
    /// Read the difference to the motors' own multi-turn frame again. Nothing is
    /// written to the motors.
    Zero,
    /// Close the loop of one joint.
    EnableJoint(usize),
    /// Stop one joint.
    DisableJoint(usize),
    /// Set the multi-turn counters back to 0, as a power cycle would.
    ClearMultiTurn,
    /// Set the multi-turn counter of one joint back to 0.
    ClearMultiTurnJoint(usize),
    /// Restart the drivers. The multi-turn origin becomes the pose of the moment,
    /// and no response comes.
    Restart,
    /// Restart one driver.
    RestartJoint(usize),
    /// Clear the drivers' error flags. They stay while their cause lasts.
    ClearError,
    /// Read the gains of the drivers.
    ReadPid,
    /// Read the single-turn absolute angles, which survive a power cycle.
    ReadSingleTurn,
}

impl BusRequest {
    /// The joint that a request for one joint names.
    pub open spec fn one_joint(self) -> Option<usize> {
        match self {
            BusRequest::EnableJoint(k) => Some(k),
            BusRequest::DisableJoint(k) => Some(k),
            BusRequest::ClearMultiTurnJoint(k) => Some(k),
            BusRequest::RestartJoint(k) => Some(k),
            _ => None,
        }
    }

    /// Whether the request moves the origin of the motors' multi-turn frame.
    pub open spec fn moves_origin(self) -> bool {
        self is ClearMultiTurn || self is ClearMultiTurnJoint || self is Restart
            || self is RestartJoint
    }

    /// The request in words, as errors name it.
    pub open spec fn text(self) -> Seq<char> {
        match self {
            BusRequest::Enable => "Enable"@,
            BusRequest::Disable => "Disable"@,
            BusRequest::Zero => "Zero"@,
            BusRequest::EnableJoint(k) => "EnableJoint("@ + decimal(k as nat) + ")"@,
            BusRequest::DisableJoint(k) => "DisableJoint("@ + decimal(k as nat) + ")"@,
            BusRequest::ClearMultiTurn => "ClearMultiTurn"@,
            BusRequest::ClearMultiTurnJoint(k) => "ClearMultiTurnJoint("@ + decimal(k as nat)
                + ")"@,
            BusRequest::Restart => "Restart"@,
            BusRequest::RestartJoint(k) => "RestartJoint("@ + decimal(k as nat) + ")"@,
            BusRequest::ClearError => "ClearError"@,
            BusRequest::ReadPid => "ReadPid"@,
            BusRequest::ReadSingleTurn => "ReadSingleTurn"@,
        }
    }

    pub fn describe(self) -> (r: String)
        ensures
            r@ == self.text(),
    {
        match self {
            BusRequest::Enable => "Enable".to_owned(),
            BusRequest::Disable => "Disable".to_owned(),
            BusRequest::Zero => "Zero".to_owned(),
            BusRequest::EnableJoint(k) => numbered("EnableJoint(", k),
            BusRequest::DisableJoint(k) => numbered("DisableJoint(", k),
            BusRequest::ClearMultiTurn => "ClearMultiTurn".to_owned(),
            BusRequest::ClearMultiTurnJoint(k) => numbered("ClearMultiTurnJoint(", k),
            BusRequest::Restart => "Restart".to_owned(),
            BusRequest::RestartJoint(k) => numbered("RestartJoint(", k),
            BusRequest::ClearError => "ClearError".to_owned(),
            BusRequest::ReadPid => "ReadPid".to_owned(),
            BusRequest::ReadSingleTurn => "ReadSingleTurn".to_owned(),
        }
    }
}

fn numbered(name: &str, k: usize) -> (r: String)
    ensures
        r@ == name@ + decimal(k as nat) + ")"@,
{
    name.to_owned().concat(decimal_text(k as u64).as_str()).concat(")")
}

/// What a bus thread and the control loop share.
#[derive(Debug, Clone, Copy, PartialEq, Eq, Structural)]
pub struct BusSlot {
    pub cmd: PerJoint<JointCommand>,
    pub state: PerJoint<JointState>,
    pub stats: BusStats,
    pub status: PerJoint<JointStatus>,
    /// Whether the multi-turn frame is established. Until then no position
    /// command is sent.
    pub anchored: bool,
    /// The single-turn angles last read (0.01 degrees, 0 to 35999).
    pub single_turn: PerJoint<Option<u32>>,
    /// The gains last read.
    pub pids: PerJoint<Option<JointPids>>,
}

impl BusSlot {
    pub open spec fn fresh() -> BusSlot {
        BusSlot {
            cmd: PerJoint::all(JointCommand::idle()),
            state: PerJoint::all(JointState::unknown()),
            stats: BusStats::zero(),
            status: PerJoint::all(JointStatus::unread()),
            anchored: false,
            single_turn: PerJoint::all(None),
            pids: PerJoint::all(None),
        }
    }

    /// Whether an error bit of this leg is set.
    pub fn faulted(&self) -> (r: bool)
        ensures
            r == exists|k: int| 0 <= k < 3 && (#[trigger] self.status.at(k)).is_faulted(),
    {
        assert(self.status.at(0) == self.status.hip);
        assert(self.status.at(1) == self.status.thigh);
        assert(self.status.at(2) == self.status.calf);
        self.status.hip.faulted() || self.status.thigh.faulted() || self.status.calf.faulted()
    }
}

impl Default for BusSlot {
    fn default() -> (r: Self)
        ensures
            r == BusSlot::fresh(),
    {
        BusSlot {
            cmd: PerJoint::filled(JointCommand::default()),
            state: PerJoint::filled(JointState::default()),
            stats: BusStats::default(),
            status: PerJoint::filled(JointStatus::default()),
            anchored: false,
            single_turn: PerJoint::filled(None),
            pids: PerJoint::filled(None),
        }
    }
}

/// Whether every joint answered its last transaction.
pub fn all_ok(states: &PerLeg<PerJoint<JointState>>) -> (r: bool)
    ensures
        r == forall|leg: LegSlot, k: int| 0 <= k < 3 ==> (#[trigger] states.of(leg).at(k)).ok,
{
    let r = leg_ok(&states.fl) && leg_ok(&states.fr) && leg_ok(&states.rl) && leg_ok(&states.rr);
    proof {
        assert(states.of(LegSlot::Fl) == states.fl);
        assert(states.of(LegSlot::Fr) == states.fr);
        assert(states.of(LegSlot::Rl) == states.rl);
        assert(states.of(LegSlot::Rr) == states.rr);
    }
    r
}

fn leg_ok(states: &PerJoint<JointState>) -> (r: bool)
    ensures
        r == forall|k: int| 0 <= k < 3 ==> (#[trigger] states.at(k)).ok,
{
    assert(states.at(0) == states.hip);
    assert(states.at(1) == states.thigh);
    assert(states.at(2) == states.calf);
    states.hip.ok && states.thigh.ok && states.calf.ok
}

/// Whether every bus has its frame.
pub fn all_anchored(anchored: &PerLeg<bool>) -> (r: bool)
    ensures
        r == forall|leg: LegSlot| anchored.of(leg),
{
    proof {
        assert(anchored.of(LegSlot::Fl) == anchored.fl);
        assert(anchored.of(LegSlot::Fr) == anchored.fr);
        assert(anchored.of(LegSlot::Rl) == anchored.rl);
        assert(anchored.of(LegSlot::Rr) == anchored.rr);
    }
    anchored.fl && anchored.fr && anchored.rl && anchored.rr
}

/// The faulted joints of one leg from the given place on.
pub open spec fn leg_faults(leg: LegSlot, status: PerJoint<JointStatus>, k: int) -> Seq<
    (LegSlot, usize, JointStatus),
>
    decreases 3 - k,
{
    if k >= 3 {
        Seq::empty()
    } else if status.at(k).is_faulted() {
        seq![(leg, k as usize, status.at(k))] + leg_faults(leg, status, k + 1)
    } else {
        leg_faults(leg, status, k + 1)
    }
}

/// The faulted joints, leg by leg.
pub open spec fn all_faults(status: PerLeg<PerJoint<JointStatus>>) -> Seq<
    (LegSlot, usize, JointStatus),
> {
    leg_faults(LegSlot::Fl, status.fl, 0) + leg_faults(LegSlot::Fr, status.fr, 0) + leg_faults(
        LegSlot::Rl,
        status.rl,
        0,
    ) + leg_faults(LegSlot::Rr, status.rr, 0)
}

/// The joints with an error bit set: leg, place and status.
pub fn faults(status: &PerLeg<PerJoint<JointStatus>>) -> (r: Vec<(LegSlot, usize, JointStatus)>)
    ensures
        r@ == all_faults(*status),
{
    let mut out: Vec<(LegSlot, usize, JointStatus)> = Vec::new();
    push_faults(LegSlot::Fl, &status.fl, &mut out);
    push_faults(LegSlot::Fr, &status.fr, &mut out);
    push_faults(LegSlot::Rl, &status.rl, &mut out);
    push_faults(LegSlot::Rr, &status.rr, &mut out);
    assert(out@ =~= all_faults(*status));
    out
}

fn push_faults(
    leg: LegSlot,
    status: &PerJoint<JointStatus>,
    out: &mut Vec<(LegSlot, usize, JointStatus)>,
)
    ensures
        final(out)@ == old(out)@ + leg_faults(leg, *status, 0),
{
    let ghost before = out@;
    for k in 0usize..3
        invariant
            before + leg_faults(leg, *status, 0) == out@ + leg_faults(leg, *status, k as int),
    {
        let ghost now = out@;
        let entry = status.get(k);
        if entry.faulted() {
            out.push((leg, k, entry));
            assert(now + leg_faults(leg, *status, k as int) =~= out@ + leg_faults(
                leg,
                *status,
                k + 1,
            ));
        }
    }
    assert(out@ + Seq::<(LegSlot, usize, JointStatus)>::empty() =~= out@);
}

/// A joint between the model's frame and the motor's.
#[derive(Debug, Clone, Copy, PartialEq, Eq, Structural)]
pub struct JointMap {
    pub sign: Double,
    pub zero_pose_rad: Double,
    pub min_rad: Double,
    pub max_rad: Double,
}

impl JointMap {
    /// Whether the range holds at least one angle.
    pub open spec fn wf(self) -> bool {
        self.min_rad.is_at_most(self.max_rad)
    }

    /// The motor angle of a model angle, which is first held to the range.
    pub open spec fn motor_angle(self, q_model: Double) -> Double {
        self.sign.times(q_model.clamp(self.min_rad, self.max_rad).minus(self.zero_pose_rad))
    }

    /// The model angle of a motor angle.
    pub open spec fn model_angle(self, q_motor: Double) -> Double {
        self.sign.times(q_motor).plus(self.zero_pose_rad)
    }

    /// Speeds and torques only take the sign.
    pub open spec fn model_rate(self, rate: Double) -> Double {
        self.sign.times(rate)
    }

    /// The map of a motor as configured.
    pub open spec fn of_motor(m: MotorConfig) -> JointMap {
        JointMap {
            sign: m.sign,
            zero_pose_rad: m.zero_pose_rad,
            min_rad: m.min_rad,
            max_rad: m.max_rad,
        }
    }

    pub fn new(m: &MotorConfig) -> (r: JointMap)
        ensures
            r == JointMap::of_motor(*m),
    {
        JointMap {
            sign: m.sign,
            zero_pose_rad: m.zero_pose_rad,
            min_rad: m.min_rad,
            max_rad: m.max_rad,
        }
    }

    pub fn to_motor(self, q_model: Double) -> (r: Double)
        requires
            self.wf(),
        ensures
            r == self.motor_angle(q_model),
    {
        self.sign.times(q_model.clamp(self.min_rad, self.max_rad).minus(self.zero_pose_rad))
    }

    pub fn to_model(self, q_motor: Double) -> (r: Double)
        ensures
            r == self.model_angle(q_motor),
    {
        self.sign.times(q_motor).plus(self.zero_pose_rad)
    }

    pub fn rate_to_model(self, rate: Double) -> (r: Double)
        ensures
            r == self.model_rate(rate),
    {
        self.sign.times(rate)
    }
}

/// The target after `dt` seconds on the way from `from` to `want`, if the target
/// may move by `rate` rad/s. A rate of zero is no limit.
pub open spec fn slewed(from: Double, want: Double, rate: Double, dt: Double) -> Double {
    if double(0).below(rate) && double(0).below(dt) {
        let step = rate.times(dt);
        from.plus(want.minus(from).clamp(step.neg(), step))
    } else {
        want
    }
}

/// The target after `dt` seconds, held to the rate.
pub fn slew_step(from: Double, want: Double, rate: Double, dt: Double) -> (r: Double)
    ensures
        r == slewed(from, want, rate, dt),
{
    if double(0).below(rate) && double(0).below(dt) {
        let step = rate.times(dt);
        proof {
            lemma_product_of_positives(rate, dt);
            lemma_negation_is_below(step);
        }
        from.plus(want.minus(from).clamp(step.neg(), step))
    } else {
        want
    }
}

/// However far the wanted target jumps, in one step the target stays within the
/// rate of where it was.
pub proof fn law_the_target_moves_no_faster_than_its_rate(
    from: Double,
    want: Double,
    rate: Double,
    dt: Double,
)
    requires
        from.finite(),
        !want.nan(),
        double(0).below(rate),
        double(0).below(dt),
    ensures
        slewed(from, want, rate, dt).is_at_most(from.plus(rate.times(dt))),
        from.minus(rate.times(dt)).is_at_most(slewed(from, want, rate, dt)),
{
    let step = rate.times(dt);
    lemma_product_of_positives(rate, dt);
    lemma_negation_is_below(step);
    let gap = want.minus(from);
    crate::double::lemma_finite_difference(want, from);
    let held = gap.clamp(step.neg(), step);
    assert(step.neg().is_at_most(held) && held.is_at_most(step));
    lemma_sum_is_monotone(from, held, step);
    lemma_sum_is_monotone(from, step.neg(), held);
}

/// A commanded angle never leaves the range of its joint.
pub proof fn law_commands_stay_in_range(map: JointMap, q_model: Double)
    requires
        map.wf(),
        !q_model.nan(),
    ensures
        map.min_rad.is_at_most(q_model.clamp(map.min_rad, map.max_rad)),
        q_model.clamp(map.min_rad, map.max_rad).is_at_most(map.max_rad),
{
}

/// The model angle of the zero pose is the motor's zero.
pub proof fn law_the_zero_pose_is_the_motors_zero(map: JointMap)
    requires
        map.wf(),
        is_sign(map.sign),
        map.zero_pose_rad.finite(),
        map.min_rad.is_at_most(map.zero_pose_rad),
        map.zero_pose_rad.is_at_most(map.max_rad),
    ensures
        map.motor_angle(map.zero_pose_rad).is_equal(double(0)),
{
    let zero = map.zero_pose_rad;
    lemma_scale_of_zero();
    lemma_exact_sum(zero, zero.neg(), double(0));
    lemma_scale_orders(zero.minus(zero).magnitude(), 0);
    lemma_unit_product(map.sign, zero.minus(zero));
}

/// A motor angle leads back to its model angle: the sign cancels, and what is left
/// is the angle itself wherever its distance from the zero pose was not rounded.
pub proof fn law_the_frames_lead_back_to_each_other(map: JointMap, q_model: Double)
    requires
        map.wf(),
        is_sign(map.sign),
        map.zero_pose_rad.finite(),
        q_model.finite(),
        map.min_rad.is_at_most(q_model),
        q_model.is_at_most(map.max_rad),
        q_model.minus(map.zero_pose_rad).finite(),
    ensures
        map.model_angle(map.motor_angle(q_model)) == q_model.minus(map.zero_pose_rad).plus(
            map.zero_pose_rad,
        ),
        q_model.minus(map.zero_pose_rad).value() == q_model.value() - map.zero_pose_rad.value()
            ==> map.model_angle(map.motor_angle(q_model)).is_equal(q_model),
{
    let gap = q_model.minus(map.zero_pose_rad);
    lemma_unit_product(map.sign, gap);
    lemma_unit_product(map.sign, map.sign.times(gap));
    assert(map.sign.times(map.sign.times(gap)) == gap);
    if gap.value() == q_model.value() - map.zero_pose_rad.value() {
        lemma_exact_sum(gap, map.zero_pose_rad, q_model);
    }
}

/// Whether a number is of the size of an angle.
pub open spec fn ordinary(x: Double) -> bool {
    x.finite() && bare(worth(x)) <= 1024real
}

/// Whatever is commanded, the angle that the motor is told leads back to the
/// commanded one, or to the nearer end of the range, within a trillionth.
pub proof fn law_a_command_is_read_back(map: JointMap, q_model: Double)
    requires
        map.wf(),
        is_sign(map.sign),
        ordinary(map.zero_pose_rad),
        ordinary(map.min_rad),
        ordinary(map.max_rad),
        !q_model.nan(),
    ensures
        near(
            map.model_angle(map.motor_angle(q_model)),
            q_model.clamp(map.min_rad, map.max_rad),
            1real / 1000000000000real,
        ),
        q_model.is_below(map.min_rad) ==> map.motor_angle(q_model) == map.motor_angle(map.min_rad),
        map.max_rad.is_below(q_model) ==> map.motor_angle(q_model) == map.motor_angle(map.max_rad),
{
    let held = q_model.clamp(map.min_rad, map.max_rad);
    let zero = map.zero_pose_rad;
    lemma_scale_orders(q_model.magnitude(), INFINITE as nat);
    lemma_scale_orders(map.min_rad.magnitude(), INFINITE as nat);
    lemma_scale_orders(map.max_rad.magnitude(), INFINITE as nat);
    assert(held.finite());
    lemma_worth_orders(map.min_rad, held);
    lemma_worth_orders(held, map.max_rad);
    lemma_unit();
    let q = worth(held);
    let z = worth(zero);
    let gap = held.minus(zero);
    lemma_worth_negates(zero);
    lemma_sum_is_finite(held, zero.neg());
    lemma_sum_strays(held, zero.neg());
    let g = worth(gap);
    assert(bare(g - (q - z)) <= 2048real * eps() + tiny()) by (nonlinear_arith)
        requires
            bare(g - (q - z)) <= bare(q - z) * eps() + tiny(),
            bare(q - z) <= 2048real,
            eps() == 1real / 9007199254740992real,
    ;
    assert(2048real * eps() + tiny() <= 1real) by (nonlinear_arith)
        requires
            tiny() <= eps() * eps(),
            eps() == 1real / 9007199254740992real,
    ;
    lemma_unit_product(map.sign, gap);
    lemma_unit_product(map.sign, map.sign.times(gap));
    assert(map.sign.times(map.sign.times(gap)) == gap);
    lemma_sum_is_finite(gap, zero);
    lemma_sum_strays(gap, zero);
    let back = worth(map.model_angle(map.motor_angle(q_model)));
    assert(bare(g + z) <= 1025real);
    assert(bare(back - (g + z)) <= 1025real * eps() + tiny()) by (nonlinear_arith)
        requires
            bare(back - (g + z)) <= bare(g + z) * eps() + tiny(),
            bare(g + z) <= 1025real,
            eps() == 1real / 9007199254740992real,
    ;
    assert(3073real * eps() + 2real * tiny() < 1real / 1000000000000real) by (nonlinear_arith)
        requires
            tiny() <= eps() * eps(),
            eps() == 1real / 9007199254740992real,
    ;
    assert(bare(back - q) <= 2048real * eps() + tiny() + (1025real * eps() + tiny()));
}

/// Which way a sign turns an angle.
pub open spec fn turn(sign: Double) -> real {
    if sign.negative() { -1real } else { 1real }
}

/// The motor's angle is the distance of the joint from its zero pose, held to its range
/// and turned by its sign; the joint's is the motor's, turned back and shifted. Speeds
/// and torques are only turned.
pub proof fn law_the_sign_turns_and_the_zero_pose_shifts(map: JointMap, q: Double, motor: Double)
    requires
        map.wf(),
        is_sign(map.sign),
        ordinary(map.zero_pose_rad),
        ordinary(map.min_rad),
        ordinary(map.max_rad),
        ordinary(q),
        ordinary(motor),
    ensures
        ({
            let held = if worth(q) < worth(map.min_rad) {
                worth(map.min_rad)
            } else if worth(map.max_rad) < worth(q) {
                worth(map.max_rad)
            } else {
                worth(q)
            };
            let z = worth(map.zero_pose_rad);
            &&& is_about(map.motor_angle(q), turn(map.sign) * (held - z), slack())
            &&& is_about(map.model_angle(motor), turn(map.sign) * worth(motor) + z, slack())
            &&& worth(map.model_rate(motor)) == turn(map.sign) * worth(motor)
        }),
{
    let c = q.clamp(map.min_rad, map.max_rad);
    lemma_worth_orders(map.min_rad, q);
    lemma_worth_orders(q, map.min_rad);
    lemma_worth_orders(q, map.max_rad);
    lemma_worth_orders(map.max_rad, q);
    lemma_worth_orders(map.min_rad, map.max_rad);
    assert(c.finite());
    let z = map.zero_pose_rad;
    lemma_about_difference(c, worth(c), 0real, z, worth(z), 0real);
    let gap = c.minus(z);
    lemma_turned(map.sign, gap);
    lemma_turned(map.sign, motor);
    let t = turn(map.sign);
    let (x, y, m) = (worth(gap), worth(c) - worth(z), worth(motor));
    assert(t == 1real || t == -1real);
    assert(1real * x == x && -1real * x == -x && 1real * y == y && -1real * y == -y && 1real * m == m
        && -1real * m == -m) by (nonlinear_arith);
    lemma_about_sum(map.sign.times(motor), t * m, 0real, z, worth(z), 0real);
}

/// A product with a sign is turned by it.
pub proof fn lemma_turned(sign: Double, x: Double)
    requires
        is_sign(sign),
        x.finite(),
    ensures
        sign.times(x).finite(),
        worth(sign.times(x)) == turn(sign) * worth(x),
{
    lemma_unit_product(sign, x);
    lemma_worth_negates(x);
    assert(x.negation().value() == -x.value());
    lemma_worth_orders(sign.times(x), x);
    lemma_worth_orders(sign.times(x), x.negation());
    let y = worth(x);
    assert(-1real * y == -y && 1real * y == y) by (nonlinear_arith);
}

/// The map of a motor has the motor's own sign, zero pose and range.
pub proof fn law_a_motor_is_mapped_as_configured(m: MotorConfig)
    ensures
        JointMap::of_motor(m).sign == m.sign,
        JointMap::of_motor(m).zero_pose_rad == m.zero_pose_rad,
        JointMap::of_motor(m).min_rad == m.min_rad,
        JointMap::of_motor(m).max_rad == m.max_rad,
{
}

/// The faults that are told are exactly those of the joints whose status was read with an
/// error bit set.
pub proof fn law_every_fault_is_told(status: PerLeg<PerJoint<JointStatus>>, leg: LegSlot, k: usize)
    requires
        k < 3,
    ensures
        ({
            let st = status.of(leg).at(k as int);
            all_faults(status).contains((leg, k, st)) <==> (st.valid && st.error_raw != 0)
        }),
        forall|i: int|
            0 <= i < all_faults(status).len() ==> {
                let f = #[trigger] all_faults(status)[i];
                &&& f.1 < 3
                &&& f.2 == status.of(f.0).at(f.1 as int)
                &&& f.2.valid && f.2.error_raw != 0
            },
{
    lemma_leg_faults(LegSlot::Fl, status.fl, 0);
    lemma_leg_faults(LegSlot::Fr, status.fr, 0);
    lemma_leg_faults(LegSlot::Rl, status.rl, 0);
    lemma_leg_faults(LegSlot::Rr, status.rr, 0);
    let a = leg_faults(LegSlot::Fl, status.fl, 0);
    let b = leg_faults(LegSlot::Fr, status.fr, 0);
    let c = leg_faults(LegSlot::Rl, status.rl, 0);
    let d = leg_faults(LegSlot::Rr, status.rr, 0);
    let all = all_faults(status);
    assert(all == a + b + c + d);
    let st = status.of(leg).at(k as int);
    if st.valid && st.error_raw != 0 {
        let own = leg_faults(leg, status.of(leg), 0);
        let n = choose|n: int| 0 <= n < own.len() && own[n] == (leg, k, st);
        match leg {
            LegSlot::Fl => assert(all[n] == own[n]),
            LegSlot::Fr => assert(all[a.len() + n] == own[n]),
            LegSlot::Rl => assert(all[a.len() + b.len() + n] == own[n]),
            LegSlot::Rr => assert(all[a.len() + b.len() + c.len() + n] == own[n]),
        }
    }
    assert forall|i: int| 0 <= i < all.len() implies {
        let f = #[trigger] all[i];
        &&& f.1 < 3
        &&& f.2 == status.of(f.0).at(f.1 as int)
        &&& f.2.valid && f.2.error_raw != 0
    } by {
        if i < a.len() {
            assert(all[i] == a[i]);
        } else if i < a.len() + b.len() {
            assert(all[i] == b[i - a.len()]);
        } else if i < a.len() + b.len() + c.len() {
            assert(all[i] == c[i - a.len() - b.len()]);
        } else {
            assert(all[i] == d[i - a.len() - b.len() - c.len()]);
        }
    }
}

proof fn lemma_leg_faults(leg: LegSlot, status: PerJoint<JointStatus>, k: int)
    requires
        0 <= k,
    ensures
        forall|i: int|
            0 <= i < leg_faults(leg, status, k).len() ==> {
                let f = #[trigger] leg_faults(leg, status, k)[i];
                &&& f.0 == leg
                &&& f.1 < 3
                &&& f.2 == status.at(f.1 as int)
                &&& f.2.valid && f.2.error_raw != 0
            },
        forall|j: usize|
            k <= j < 3 && (#[trigger] status.at(j as int)).valid && status.at(j as int).error_raw != 0
                ==> leg_faults(leg, status, k).contains((leg, j, status.at(j as int))),
    decreases 3 - k,
{
    if k < 3 {
        lemma_leg_faults(leg, status, k + 1);
        let rest = leg_faults(leg, status, k + 1);
        let all = leg_faults(leg, status, k);
        assert forall|j: usize|
            k <= j < 3 && (#[trigger] status.at(j as int)).valid && status.at(j as int).error_raw != 0
            implies all.contains((leg, j, status.at(j as int))) by {
            if j == k {
                assert(all[0] == (leg, j, status.at(j as int)));
            } else {
                let n = choose|n: int|
                    0 <= n < rest.len() && rest[n] == (leg, j, status.at(j as int));
                if status.at(k).is_faulted() {
                    assert(all[n + 1] == rest[n]);
                } else {
                    assert(all[n] == rest[n]);
                }
            }
        }
        assert forall|i: int| 0 <= i < all.len() implies {
            let f = #[trigger] all[i];
            &&& f.0 == leg
            &&& f.1 < 3
            &&& f.2 == status.at(f.1 as int)
            &&& f.2.valid && f.2.error_raw != 0
        } by {
            if status.at(k).is_faulted() && i > 0 {
                assert(all[i] == rest[i - 1]);
            }
        }
    }
}

} // verus!
