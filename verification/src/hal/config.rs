//! The hardware configuration: wiring, motor ids, signs and ranges.
//!
//! Zero points and signs change every time the robot is put together again, so
//! they live in a file and not in code. Without a file, the default is the
//! robot as built.
use vstd::prelude::*;
use vstd::string::*;

use crate::double::{double, lemma_order, Double, ONE};
use crate::hal::ch348::{
    absent_text, find_by_uart_index, first_with, reports, sorted_from, uart, Ch348Port, PortMap,
};
use crate::hal::error::{Complaint, Error, Fault};
use crate::hal::joint::{LegSlot, LEG_JOINT_KINDS};
use crate::text::{decimal, decimal_text, same_text};

verus! {

/// How a serial port is named: by the physical UART number of the board, which
/// does not depend on the order of enumeration, or by a path that is opened as
/// it stands.
#[derive(Debug, Clone)]
pub enum PortSpec {
    Uart(u16),
    Path(String),
}

impl PortSpec {
    /// The device path to open; `listing` is a fresh listing of the ports, which
    /// a path does not need.
    pub fn resolve(&self, listing: Result<Vec<Ch348Port>, String>) -> (r: Result<String, Error>)
        ensures
            match (*self, listing, r) {
                (PortSpec::Path(p), _, _) => r is Ok && r->Ok_0@ == p@,
                (PortSpec::Uart(index), Ok(ports), Ok(path)) => exists|i: int| #[trigger]
                    first_with(ports@, index, i) && path@ == ports@[i].path@,
                (PortSpec::Uart(index), Ok(ports), Err(e)) => (forall|i: int|
                    0 <= i < ports@.len() ==> ports@[i].uart_index != index) && exists|
                    sorted: Seq<Ch348Port>,
                | #[trigger]
                    sorted_from(sorted, ports@) && reports(e, absent_text(sorted, index)),
                (PortSpec::Uart(index), Err(e), _) => r is Err && reports(
                    r->Err_0,
                    "CH348 のポート探索に失敗しました: "@ + e@,
                ),
            },
    {
        match self {
            PortSpec::Uart(index) => find_by_uart_index(*index, listing),
            PortSpec::Path(p) => Ok(p.clone()),
        }
    }

    /// The device path to open, by a listing taken earlier.
    pub fn resolve_with(&self, map: &PortMap) -> (r: Result<String, Error>)
        ensures
            match (*self, r) {
                (PortSpec::Path(p), _) => r is Ok && r->Ok_0@ == p@,
                (PortSpec::Uart(index), Ok(path)) => exists|i: int| #[trigger]
                    first_with(map@, index, i) && path@ == map@[i].path@,
                (PortSpec::Uart(index), Err(e)) => (forall|i: int|
                    0 <= i < map@.len() ==> map@[i].uart_index != index) && reports(
                    e,
                    absent_text(map@, index),
                ),
            },
    {
        match self {
            PortSpec::Uart(index) => map.path_for(*index),
            PortSpec::Path(p) => Ok(p.clone()),
        }
    }

    /// The name for logs and errors, known before the port is resolved.
    pub open spec fn label_text(self) -> Seq<char> {
        match self {
            PortSpec::Uart(i) => "UART"@ + decimal(i as nat),
            PortSpec::Path(p) => p@,
        }
    }

    pub fn label(&self) -> (r: String)
        ensures
            r@ == self.label_text(),
    {
        match self {
            PortSpec::Uart(i) => "UART".to_owned().concat(decimal_text(*i as u64).as_str()),
            PortSpec::Path(p) => p.clone(),
        }
    }
}

/// One motor as it is built in.
#[derive(Debug, Clone)]
pub struct MotorConfig {
    /// `hip`, `thigh` or `calf`; serves only to notice a mixed-up order.
    pub kind: String,
    /// The motor id on the bus.
    pub id: u8,
    /// The sign from the model's frame to the motor's output: 1 or -1.
    pub sign: Double,
    /// The model's joint angle (rad) in the pose in which the motor was zeroed.
    ///
    /// ```text
    /// q_motor = sign * (q_model - zero_pose_rad)
    /// q_model = sign *  q_motor + zero_pose_rad
    /// ```
    pub zero_pose_rad: Double,
    /// The range of the joint in the model's frame (rad).
    pub min_rad: Double,
    pub max_rad: Double,
    /// The gear ratio of this joint alone; without one, that of the bus.
    pub gear_ratio: Option<Double>,
}

impl MotorConfig {
    /// The gear ratio of this joint.
    pub fn gear_ratio_or(&self, bus_default: Double) -> (r: Double)
        ensures
            r == (match self.gear_ratio {
                Some(ratio) => ratio,
                None => bus_default,
            }),
    {
        match self.gear_ratio {
            Some(ratio) => ratio,
            None => bus_default,
        }
    }

    /// What is wrong with the motor at the given place of its leg's bus.
    pub open spec fn complaint(self, leg: Seq<char>, place: int) -> Option<Complaint> {
        if self.kind@ != LEG_JOINT_KINDS[place]@ {
            Some(Complaint::MotorKind { leg, place: place as nat, kind: self.kind@ })
        } else if self.id == 0 {
            Some(Complaint::MotorId { leg, kind: self.kind@ })
        } else if bad_range(self.min_rad, self.max_rad) {
            Some(
                Complaint::MotorLimits {
                    leg,
                    kind: self.kind@,
                    min: self.min_rad,
                    max: self.max_rad,
                },
            )
        } else if !is_sign(self.sign) {
            Some(Complaint::MotorSign { leg, kind: self.kind@, sign: self.sign })
        } else {
            None
        }
    }
}

/// Whether a range is empty or not finite.
pub open spec fn bad_range(min: Double, max: Double) -> bool {
    max.at_most(min) || !min.is_finite() || !max.is_finite()
}

/// Whether a number is 1 or -1.
pub open spec fn is_sign(x: Double) -> bool {
    x.equals(double(ONE)) || x.equals(double(ONE).neg())
}

/// One RS485 leg bus.
#[derive(Debug, Clone)]
pub struct LegBusConfig {
    /// The leg on this port: `FL`, `FR`, `RL` or `RR`.
    pub leg: String,
    pub port: PortSpec,
    /// Three motors: hip, thigh, calf.
    pub motors: Vec<MotorConfig>,
}

impl LegBusConfig {
    pub fn leg_slot(&self) -> (r: Result<LegSlot, Error>)
        ensures
            match LegSlot::named(self.leg@) {
                Some(leg) => r is Ok && r->Ok_0 == leg,
                None => r matches Err(Error::Config(f)) && f@ == (Complaint::LegName {
                    leg: self.leg@,
                }),
            },
    {
        match LegSlot::from_prefix(self.leg.as_str()) {
            Some(leg) => Ok(leg),
            None => Err(Error::Config(Fault::LegName { leg: self.leg.clone() })),
        }
    }

    /// What is wrong with the motors from the given place on.
    pub open spec fn motor_complaint(self, place: int) -> Option<Complaint>
        decreases self.motors.len() - place,
    {
        if place >= self.motors.len() {
            None
        } else {
            match self.motors[place].complaint(self.leg@, place) {
                Some(c) => Some(c),
                None => self.motor_complaint(place + 1),
            }
        }
    }

    /// Whether an earlier motor has the id of the one at the given place.
    pub open spec fn id_repeats(self, place: int) -> bool {
        exists|j: int| 0 <= j < place && (#[trigger] self.motors[j]).id == self.motors[place].id
    }

    /// The first id from the given place on that an earlier motor has too.
    pub open spec fn id_complaint(self, place: int) -> Option<Complaint>
        decreases self.motors.len() - place,
    {
        if place >= self.motors.len() {
            None
        } else if self.id_repeats(place) {
            Some(Complaint::MotorIdTwice { leg: self.leg@, id: self.motors[place].id })
        } else {
            self.id_complaint(place + 1)
        }
    }

    /// What is wrong with the bus, leaving the other buses aside.
    pub open spec fn complaint(self) -> Option<Complaint> {
        if self.motors.len() != 3 {
            Some(Complaint::MotorCount { leg: self.leg@, count: self.motors.len() as nat })
        } else {
            match self.motor_complaint(0) {
                Some(c) => Some(c),
                None => self.id_complaint(0),
            }
        }
    }
}

/// The configuration of the twelve leg joints.
#[derive(Debug, Clone)]
pub struct LegsConfig {
    /// The RS485 baud rate, as set in the motors.
    pub baud: u32,
    /// How long one transaction waits for its response (ms).
    ///
    /// Too short loses responses; too long lets one silent motor drag the whole
    /// bus. The driver polls in steps of about 20 ms, so that a silent motor
    /// costs at least that much.
    pub response_timeout_ms: u64,
    /// The rate that the bus thread aims for (Hz).
    pub bus_rate_hz: Double,
    /// Motor turns per output turn.
    pub gear_ratio: Double,
    /// The torque constant (N·m/A at the motor); without one, torque is current.
    pub torque_constant_nm_per_a: Option<Double>,
    /// The speed limit of position commands (rad/s at the output).
    pub default_max_speed_rad_s: Double,
    /// How fast the target itself may move (rad/s); 0 for no limit.
    ///
    /// The speed limit says how fast the joint turns; this says how fast the
    /// target moves, so that a jump of the target does not become a jump of the
    /// leg.
    pub max_target_rate_rad_s: Double,
    /// How often the status is read (ms); 0 for never. Each reading takes one
    /// joint, so that all three are fresh after three intervals.
    pub status_interval_ms: u64,
    pub bus: Vec<LegBusConfig>,
}

/// The IMU (UART5).
#[derive(Debug, Clone)]
pub struct ImuConfig {
    pub port: PortSpec,
    pub baud: u32,
    pub response_timeout_ms: u64,
    /// The mounting of the sensor: roll, pitch and yaw (rad) to subtract.
    pub mount_offset_rad: [Double; 3],
}

/// The S.BUS receiver (UART6, receive only).
#[derive(Debug, Clone)]
pub struct SbusConfig {
    pub port: PortSpec,
    /// How long without a frame counts as a lost link (ms). Frames come every
    /// 14 ms.
    pub stale_after_ms: u64,
}

/// The arm: one servo.
#[derive(Debug, Clone)]
pub struct ArmConfig {
    pub protocol: ArmProtocol,
    pub port: PortSpec,
    pub baud: u32,
    pub id: u8,
    pub sign: Double,
    /// As in [`MotorConfig::zero_pose_rad`].
    pub zero_pose_rad: Double,
    /// The range of the joint in the model's frame (rad).
    pub min_rad: Double,
    pub max_rad: Double,
}

/// How the arm's servo is driven.
#[derive(Debug, Clone, Copy, PartialEq, Eq, Structural)]
pub enum ArmProtocol {
    /// The servo hangs on the receiver and follows its channel; the program only
    /// watches.
    ReceiverDirect,
    /// Not wired. Commands are dropped, and the state is the last command.
    Unwired,
}

impl Default for ArmProtocol {
    fn default() -> (r: Self)
        ensures
            r == ArmProtocol::ReceiverDirect,
    {
        ArmProtocol::ReceiverDirect
    }
}

/// The whole robot.
#[derive(Debug, Clone)]
pub struct HardwareConfig {
    pub legs: LegsConfig,
    pub imu: ImuConfig,
    pub sbus: SbusConfig,
    pub arm: ArmConfig,
}

impl HardwareConfig {
    /// Whether an earlier bus has the leg of the one at the given place.
    pub open spec fn leg_repeats(self, place: int) -> bool {
        exists|j: int|
            0 <= j < place && LegSlot::named((#[trigger] self.legs.bus[j]).leg@) == LegSlot::named(
                self.legs.bus[place].leg@,
            )
    }

    /// What is wrong with the buses from the given place on.
    pub open spec fn bus_complaint(self, place: int) -> Option<Complaint>
        decreases self.legs.bus.len() - place,
    {
        if place >= self.legs.bus.len() {
            None
        } else {
            let bus = self.legs.bus[place];
            if LegSlot::named(bus.leg@) is None {
                Some(Complaint::LegName { leg: bus.leg@ })
            } else if self.leg_repeats(place) {
                Some(Complaint::LegTwice { leg: bus.leg@ })
            } else {
                match bus.complaint() {
                    Some(c) => Some(c),
                    None => self.bus_complaint(place + 1),
                }
            }
        }
    }

    /// The first thing that is wrong with the configuration.
    pub open spec fn complaint(self) -> Option<Complaint> {
        if self.legs.bus.len() != 4 {
            Some(Complaint::BusCount { count: self.legs.bus.len() as nat })
        } else {
            match self.bus_complaint(0) {
                Some(c) => Some(c),
                None => if self.legs.bus_rate_hz.at_most(double(0)) {
                    Some(Complaint::BusRate)
                } else if bad_range(self.arm.min_rad, self.arm.max_rad) {
                    Some(Complaint::ArmLimits)
                } else {
                    None
                },
            }
        }
    }

    /// Refuses what would go wrong on the robot.
    ///
    /// A mixed-up order, a leg defined twice and an inverted range break things
    /// when they are first noticed on the hardware.
    pub fn validate(&self) -> (r: Result<(), Error>)
        ensures
            match self.complaint() {
                None => r is Ok,
                Some(c) => r matches Err(Error::Config(f)) && f@ == c,
            },
    {
        let count: usize = self.legs.bus.len();
        if count != 4 {
            return Err(Error::Config(Fault::BusCount { count }));
        }
        let mut seen: [bool; 4] = [false, false, false, false];
        let mut i: usize = 0;
        while i < 4
            invariant
                i <= 4,
                self.legs.bus.len() == 4,
                self.complaint() == (match self.bus_complaint(i as int) {
                    Some(c) => Some(c),
                    None => if self.legs.bus_rate_hz.at_most(double(0)) {
                        Some(Complaint::BusRate)
                    } else if bad_range(self.arm.min_rad, self.arm.max_rad) {
                        Some(Complaint::ArmLimits)
                    } else {
                        None
                    },
                }),
                forall|leg: LegSlot|
                    seen[leg.place() as int] <==> exists|j: int|
                        0 <= j < i && LegSlot::named((#[trigger] self.legs.bus[j]).leg@) == Some(leg),
            decreases 4 - i,
        {
            let bus = &self.legs.bus[i];
            let slot = match bus.leg_slot() {
                Ok(slot) => slot,
                Err(e) => return Err(e),
            };
            let twice: bool = seen[slot.index()];
            let ghost before = seen;
            seen[slot.index()] = true;
            if twice {
                return Err(Error::Config(Fault::LegTwice { leg: bus.leg.clone() }));
            }
            assert(!self.leg_repeats(i as int));
            match bus.check() {
                Ok(()) => {},
                Err(e) => return Err(e),
            }
            proof {
                assert forall|leg: LegSlot|
                    seen[leg.place() as int] <==> exists|j: int|
                        0 <= j < i + 1 && LegSlot::named((#[trigger] self.legs.bus[j]).leg@) == Some(leg) by {
                    if leg == slot {
                        assert(LegSlot::named(self.legs.bus[i as int].leg@) == Some(leg));
                    } else {
                        assert(leg.place() != slot.place());
                        assert(seen[leg.place() as int] == before[leg.place() as int]);
                        if before[leg.place() as int] {
                            let j = choose|j: int| 0 <= j < i && LegSlot::named((#[trigger] self.legs.bus[j]).leg@) == Some(leg);
                            assert(0 <= j < i + 1);
                        }
                    }
                }
            }
            i = i + 1;
        }
        if self.legs.bus_rate_hz.at_most(double(0)) {
            return Err(Error::Config(Fault::BusRate));
        }
        if self.arm.max_rad.at_most(self.arm.min_rad) || !self.arm.min_rad.is_finite()
            || !self.arm.max_rad.is_finite() {
            return Err(Error::Config(Fault::ArmLimits));
        }
        Ok(())
    }
}

impl LegBusConfig {
    /// Refuses a bus whose motors are not the three of a leg.
    fn check(&self) -> (r: Result<(), Error>)
        ensures
            match self.complaint() {
                None => r is Ok,
                Some(c) => r matches Err(Error::Config(f)) && f@ == c,
            },
    {
        let count: usize = self.motors.len();
        if count != 3 {
            return Err(Error::Config(Fault::MotorCount { leg: self.leg.clone(), count }));
        }
        let mut k: usize = 0;
        while k < 3
            invariant
                k <= 3,
                self.motors.len() == 3,
                self.motor_complaint(0) == self.motor_complaint(k as int),
            decreases 3 - k,
        {
            let motor = &self.motors[k];
            if !same_text(motor.kind.as_str(), LEG_JOINT_KINDS[k]) {
                return Err(
                    Error::Config(
                        Fault::MotorKind { leg: self.leg.clone(), place: k, kind: motor.kind.clone() },
                    ),
                );
            }
            if motor.id == 0 {
                return Err(
                    Error::Config(Fault::MotorId { leg: self.leg.clone(), kind: motor.kind.clone() }),
                );
            }
            if motor.max_rad.at_most(motor.min_rad) || !motor.min_rad.is_finite()
                || !motor.max_rad.is_finite() {
                return Err(
                    Error::Config(
                        Fault::MotorLimits {
                            leg: self.leg.clone(),
                            kind: motor.kind.clone(),
                            min: motor.min_rad,
                            max: motor.max_rad,
                        },
                    ),
                );
            }
            if !motor.sign.equals(double(ONE)) && !motor.sign.equals(double(ONE).neg()) {
                return Err(
                    Error::Config(
                        Fault::MotorSign {
                            leg: self.leg.clone(),
                            kind: motor.kind.clone(),
                            sign: motor.sign,
                        },
                    ),
                );
            }
            k = k + 1;
        }
        let mut k: usize = 0;
        while k < 3
            invariant
                k <= 3,
                self.motors.len() == 3,
                self.motor_complaint(0) is None,
                self.id_complaint(0) == self.id_complaint(k as int),
            decreases 3 - k,
        {
            let id: u8 = self.motors[k].id;
            let mut j: usize = 0;
            while j < k
                invariant
                    j <= k < 3,
                    self.motors.len() == 3,
                    self.motor_complaint(0) is None,
                    self.id_complaint(0) == self.id_complaint(k as int),
                    id == self.motors[k as int].id,
                    forall|h: int| 0 <= h < j ==> (#[trigger] self.motors[h]).id != id,
                decreases k - j,
            {
                if self.motors[j].id == id {
                    assert(self.id_repeats(k as int));
                    return Err(Error::Config(Fault::MotorIdTwice { leg: self.leg.clone(), id }));
                }
                j = j + 1;
            }
            assert(!self.id_repeats(k as int));
            k = k + 1;
        }
        Ok(())
    }
}

/// The tooth counts of the calf's belt drive, driven over driving, as bits: 28
/// and 18. Kept as teeth, since 1.55 would be off by half a degree at the end of
/// the range.
pub const CALF_PULLEY_TEETH: (u64, u64) = (0x403c_0000_0000_0000, 0x4032_0000_0000_0000);

/// The wide side of the hip's range, as bits: 60 degrees. On the left legs this
/// is the negative side, on the right legs the positive side. The mechanical stop
/// lies far beyond, where the cable would break.
pub const HIP_WIDE_RAD: u64 = 0x3ff0_c152_382d_7365;

/// The narrow side of the hip's range, as bits: 45 degrees.
pub const HIP_NARROW_RAD: u64 = 0x3fe9_21fb_5444_2d18;

/// The range of the thigh on either side, as bits: 145 degrees.
pub const THIGH_LIMIT_RAD: u64 = 0x4004_3eee_03e1_961a;

/// The range of the calf on either side, as bits: 154.52338 degrees.
pub const CALF_LIMIT_RAD: u64 = 0x4005_9356_328b_1e89;

/// 10, as bits.
const TEN: u64 = 0x4024_0000_0000_0000;

/// 500, as bits.
const FIVE_HUNDRED: u64 = 0x407f_4000_0000_0000;

/// 8, as bits.
const EIGHT: u64 = 0x4020_0000_0000_0000;

/// 3, as bits.
const THREE: u64 = 0x4008_0000_0000_0000;

/// -2.3, as bits.
const ARM_LOW: u64 = 0xc002_6666_6666_6666;

/// 0.85, as bits.
const ARM_HIGH: u64 = 0x3feb_3333_3333_3333;

pub fn one() -> (r: Double)
    ensures
        r == double(ONE),
{
    double(ONE)
}

pub fn default_leg_baud() -> (r: u32)
    ensures
        r == 1_000_000,
{
    1_000_000
}

pub fn default_response_timeout_ms() -> (r: u64)
    ensures
        r == 5,
{
    5
}

pub fn default_bus_rate_hz() -> (r: Double)
    ensures
        r == double(0x407f_4000_0000_0000),
{
    double(FIVE_HUNDRED)
}

pub fn default_gear_ratio() -> (r: Double)
    ensures
        r == double(0x4024_0000_0000_0000),
{
    double(TEN)
}

pub fn default_max_speed() -> (r: Double)
    ensures
        r == double(0x4020_0000_0000_0000),
{
    double(EIGHT)
}

/// Three rad/s: quick enough for the swing of a step, slow enough to take up a
/// jump.
pub fn default_max_target_rate() -> (r: Double)
    ensures
        r == double(0x4008_0000_0000_0000),
{
    double(THREE)
}

pub fn default_status_interval_ms() -> (r: u64)
    ensures
        r == 1000,
{
    1000
}

pub fn default_imu_baud() -> (r: u32)
    ensures
        r == 921_600,
{
    921_600
}

pub fn default_imu_timeout_ms() -> (r: u64)
    ensures
        r == 50,
{
    50
}

pub fn default_sbus_stale_ms() -> (r: u64)
    ensures
        r == 100,
{
    100
}

pub fn default_arm_baud() -> (r: u32)
    ensures
        r == 115_200,
{
    115_200
}

pub fn default_arm_min() -> (r: Double)
    ensures
        r == double(0xc002_6666_6666_6666),
{
    double(ARM_LOW)
}

pub fn default_arm_max() -> (r: Double)
    ensures
        r == double(0x3feb_3333_3333_3333),
{
    double(ARM_HIGH)
}

/// The board's connectors from left to right are FL, RL, FR, RR, which is not
/// the order of the slots.
pub open spec fn uart_of(leg: LegSlot) -> u16 {
    match leg {
        LegSlot::Fl => uart::LEGS[0],
        LegSlot::Rl => uart::LEGS[1],
        LegSlot::Fr => uart::LEGS[2],
        LegSlot::Rr => uart::LEGS[3],
    }
}

fn uart_for(leg: LegSlot) -> (r: u16)
    ensures
        r == uart_of(leg),
{
    match leg {
        LegSlot::Fl => uart::LEGS[0],
        LegSlot::Rl => uart::LEGS[1],
        LegSlot::Fr => uart::LEGS[2],
        LegSlot::Rr => uart::LEGS[3],
    }
}

/// Whether the leg is on the left.
pub open spec fn on_the_left(leg: LegSlot) -> bool {
    leg is Fl || leg is Rl
}

/// Whether the leg is at the front.
pub open spec fn at_the_front(leg: LegSlot) -> bool {
    leg is Fl || leg is Fr
}

/// The built-in range of a joint.
pub open spec fn built_range(leg: LegSlot, place: int) -> (Double, Double) {
    if place == 0 {
        if on_the_left(leg) {
            (double(HIP_WIDE_RAD).neg(), double(HIP_NARROW_RAD))
        } else {
            (double(HIP_NARROW_RAD).neg(), double(HIP_WIDE_RAD))
        }
    } else if place == 1 {
        (double(THIGH_LIMIT_RAD).neg(), double(THIGH_LIMIT_RAD))
    } else {
        (double(CALF_LIMIT_RAD).neg(), double(CALF_LIMIT_RAD))
    }
}

fn range_for(leg: LegSlot, place: usize) -> (r: (Double, Double))
    ensures
        r == built_range(leg, place as int),
{
    if place == 0 {
        match leg {
            LegSlot::Fl | LegSlot::Rl => (double(HIP_WIDE_RAD).neg(), double(HIP_NARROW_RAD)),
            LegSlot::Fr | LegSlot::Rr => (double(HIP_NARROW_RAD).neg(), double(HIP_WIDE_RAD)),
        }
    } else if place == 1 {
        (double(THIGH_LIMIT_RAD).neg(), double(THIGH_LIMIT_RAD))
    } else {
        (double(CALF_LIMIT_RAD).neg(), double(CALF_LIMIT_RAD))
    }
}

/// The built-in sign of a joint: roll turns over between front and rear, pitch
/// between left and right.
pub open spec fn built_sign(leg: LegSlot, place: int) -> Double {
    if (place == 0 && at_the_front(leg)) || (place != 0 && on_the_left(leg)) {
        double(ONE)
    } else {
        double(ONE).neg()
    }
}

fn sign_for(leg: LegSlot, place: usize) -> (r: Double)
    ensures
        r == built_sign(leg, place as int),
{
    let flipped: bool = match leg {
        LegSlot::Fl => false,
        LegSlot::Fr => place != 0,
        LegSlot::Rl => place == 0,
        LegSlot::Rr => true,
    };
    if flipped { double(ONE).neg() } else { double(ONE) }
}

/// The built-in gear ratio of a joint: the calf's belt adds to the motor's own.
pub open spec fn built_gear(place: int) -> Option<Double> {
    if place == 2 {
        Some(
            double(0x4024_0000_0000_0000).times(double(CALF_PULLEY_TEETH.0)).over(
                double(CALF_PULLEY_TEETH.1),
            ),
        )
    } else {
        None
    }
}

fn gear_for(place: usize) -> (r: Option<Double>)
    ensures
        r == built_gear(place as int),
{
    if place == 2 {
        Some(
            default_gear_ratio().times(double(CALF_PULLEY_TEETH.0)).over(double(CALF_PULLEY_TEETH.1)),
        )
    } else {
        None
    }
}

impl MotorConfig {
    /// Whether this is the motor as built.
    pub open spec fn as_built(self, leg: LegSlot, place: int) -> bool {
        &&& self.kind@ == LEG_JOINT_KINDS[place]@
        &&& self.id == place + 1
        &&& self.sign == built_sign(leg, place)
        &&& self.zero_pose_rad == double(0)
        &&& (self.min_rad, self.max_rad) == built_range(leg, place)
        &&& self.gear_ratio == built_gear(place)
    }

    fn built(leg: LegSlot, place: usize) -> (r: MotorConfig)
        requires
            place < 3,
        ensures
            r.as_built(leg, place as int),
    {
        let range = range_for(leg, place);
        MotorConfig {
            kind: LEG_JOINT_KINDS[place].to_owned(),
            id: (place + 1) as u8,
            sign: sign_for(leg, place),
            zero_pose_rad: double(0),
            min_rad: range.0,
            max_rad: range.1,
            gear_ratio: gear_for(place),
        }
    }
}

impl LegBusConfig {
    /// Whether this is the bus of a leg as built.
    pub open spec fn as_built(self, leg: LegSlot) -> bool {
        &&& self.leg@ == leg.name()
        &&& self.port == PortSpec::Uart(uart_of(leg))
        &&& self.motors.len() == 3
        &&& forall|k: int| 0 <= k < 3 ==> (#[trigger] self.motors[k]).as_built(leg, k)
    }

    fn built(leg: LegSlot) -> (r: LegBusConfig)
        ensures
            r.as_built(leg),
    {
        let mut motors: Vec<MotorConfig> = Vec::new();
        for k in 0usize..3
            invariant
                motors.len() == k,
                forall|j: int| 0 <= j < k ==> (#[trigger] motors[j]).as_built(leg, j),
        {
            motors.push(MotorConfig::built(leg, k));
        }
        LegBusConfig { leg: leg.prefix().to_owned(), port: PortSpec::Uart(uart_for(leg)), motors }
    }
}

impl HardwareConfig {
    /// Whether this is the robot as built.
    pub open spec fn as_built(self) -> bool {
        &&& self.legs.baud == 1_000_000
        &&& self.legs.response_timeout_ms == 5
        &&& self.legs.bus_rate_hz == double(0x407f_4000_0000_0000)
        &&& self.legs.gear_ratio == double(0x4024_0000_0000_0000)
        &&& self.legs.torque_constant_nm_per_a is None
        &&& self.legs.default_max_speed_rad_s == double(0x4020_0000_0000_0000)
        &&& self.legs.max_target_rate_rad_s == double(0x4008_0000_0000_0000)
        &&& self.legs.status_interval_ms == 1000
        &&& self.legs.bus.len() == 4
        &&& forall|i: int|
            0 <= i < 4 ==> (#[trigger] self.legs.bus[i]).as_built(LegSlot::at(i as nat))
        &&& self.imu.port == PortSpec::Uart(uart::IMU)
        &&& self.imu.baud == 921_600
        &&& self.imu.response_timeout_ms == 50
        &&& self.imu.mount_offset_rad@ == seq![double(0), double(0), double(0)]
        &&& self.sbus.port == PortSpec::Uart(uart::SBUS)
        &&& self.sbus.stale_after_ms == 100
        &&& self.arm.protocol == ArmProtocol::ReceiverDirect
        &&& self.arm.port == PortSpec::Uart(uart::ARM_A)
        &&& self.arm.baud == 115_200
        &&& self.arm.id == 1
        &&& self.arm.sign == double(ONE)
        &&& self.arm.zero_pose_rad == double(0)
        &&& self.arm.min_rad == double(0xc002_6666_6666_6666)
        &&& self.arm.max_rad == double(0x3feb_3333_3333_3333)
    }

    /// Whether some bus is that of the given leg.
    pub open spec fn has_leg(self, leg: LegSlot) -> bool {
        exists|i: int|
            0 <= i < self.legs.bus.len() && LegSlot::named((#[trigger] self.legs.bus[i]).leg@)
                == Some(leg)
    }

    /// Whether the bus at the given place is the first of the given leg.
    pub open spec fn first_bus_of(self, leg: LegSlot, i: int) -> bool {
        &&& 0 <= i < self.legs.bus.len()
        &&& LegSlot::named(self.legs.bus[i].leg@) == Some(leg)
        &&& forall|j: int|
            0 <= j < i ==> LegSlot::named((#[trigger] self.legs.bus[j]).leg@) != Some(leg)
    }

    /// The bus of a leg.
    pub fn bus_for(&self, leg: LegSlot) -> (r: Option<&LegBusConfig>)
        ensures
            match r {
                Some(bus) => exists|i: int| #[trigger]
                    self.first_bus_of(leg, i) && *bus == self.legs.bus[i],
                None => forall|i: int|
                    0 <= i < self.legs.bus.len() ==> LegSlot::named(
                        (#[trigger] self.legs.bus[i]).leg@,
                    ) != Some(leg),
            },
    {
        let mut i: usize = 0;
        while i < self.legs.bus.len()
            invariant
                i <= self.legs.bus.len(),
                forall|j: int|
                    0 <= j < i ==> LegSlot::named((#[trigger] self.legs.bus[j]).leg@) != Some(leg),
            decreases self.legs.bus.len() - i,
        {
            if let Some(slot) = LegSlot::from_prefix(self.legs.bus[i].leg.as_str()) {
                if slot == leg {
                    assert(self.first_bus_of(leg, i as int));
                    return Some(&self.legs.bus[i]);
                }
            }
            i = i + 1;
        }
        None
    }
}

impl Default for HardwareConfig {
    fn default() -> (r: Self)
        ensures
            r.as_built(),
    {
        let mut bus: Vec<LegBusConfig> = Vec::new();
        for i in 0usize..4
            invariant
                bus.len() == i,
                forall|j: int|
                    0 <= j < i ==> (#[trigger] bus[j]).as_built(LegSlot::at(j as nat)),
        {
            bus.push(LegBusConfig::built(LegSlot::from_index(i)));
        }
        let r = HardwareConfig {
            legs: LegsConfig {
                baud: default_leg_baud(),
                response_timeout_ms: default_response_timeout_ms(),
                bus_rate_hz: default_bus_rate_hz(),
                gear_ratio: default_gear_ratio(),
                torque_constant_nm_per_a: None,
                default_max_speed_rad_s: default_max_speed(),
                max_target_rate_rad_s: default_max_target_rate(),
                status_interval_ms: default_status_interval_ms(),
                bus,
            },
            imu: ImuConfig {
                port: PortSpec::Uart(uart::IMU),
                baud: default_imu_baud(),
                response_timeout_ms: default_imu_timeout_ms(),
                mount_offset_rad: [double(0), double(0), double(0)],
            },
            sbus: SbusConfig {
                port: PortSpec::Uart(uart::SBUS),
                stale_after_ms: default_sbus_stale_ms(),
            },
            arm: ArmConfig {
                protocol: ArmProtocol::default(),
                port: PortSpec::Uart(uart::ARM_A),
                baud: default_arm_baud(),
                id: 1,
                sign: one(),
                zero_pose_rad: double(0),
                min_rad: default_arm_min(),
                max_rad: default_arm_max(),
            },
        };
        assert(r.imu.mount_offset_rad@ =~= seq![double(0), double(0), double(0)]);
        r
    }
}

/// The robot as built passes its own validation.
pub proof fn law_the_default_is_valid(config: HardwareConfig)
    requires
        config.as_built(),
    ensures
        config.complaint() is None,
{
    lemma_order(double(0x407f_4000_0000_0000), double(0));
    lemma_order(double(0x3feb_3333_3333_3333), double(0xc002_6666_6666_6666));
    lemma_order(double(0), double(0x407f_4000_0000_0000));
    reveal_with_fuel(HardwareConfig::bus_complaint, 5);
    assert forall|i: int| 0 <= i < 4 implies config.legs.bus[i].complaint() is None && !config.leg_repeats(
        i,
    ) && LegSlot::named(config.legs.bus[i].leg@) == Some(LegSlot::at(i as nat)) by {
        let leg = LegSlot::at(i as nat);
        let bus = config.legs.bus[i];
        assert(bus.as_built(leg));
        crate::hal::joint::law_prefix_round_trips(leg);
        lemma_built_bus_is_valid(bus, leg);
        assert forall|j: int| 0 <= j < i implies LegSlot::named((#[trigger] config.legs.bus[j]).leg@)
            != Some(leg) by {
            crate::hal::joint::law_prefix_round_trips(LegSlot::at(j as nat));
        }
    }
    assert(config.legs.bus[0].complaint() is None);
    assert(config.legs.bus[1].complaint() is None);
    assert(config.legs.bus[2].complaint() is None);
    assert(config.legs.bus[3].complaint() is None);
}

proof fn lemma_built_bus_is_valid(bus: LegBusConfig, leg: LegSlot)
    requires
        bus.as_built(leg),
    ensures
        bus.complaint() is None,
{
    reveal_with_fuel(LegBusConfig::motor_complaint, 4);
    reveal_with_fuel(LegBusConfig::id_complaint, 4);
    lemma_order(double(ONE), double(ONE));
    lemma_order(double(ONE).neg(), double(ONE).neg());
    lemma_order(double(HIP_NARROW_RAD), double(HIP_WIDE_RAD).neg());
    lemma_order(double(HIP_WIDE_RAD).neg(), double(HIP_NARROW_RAD));
    lemma_order(double(HIP_WIDE_RAD), double(HIP_NARROW_RAD).neg());
    lemma_order(double(HIP_NARROW_RAD).neg(), double(HIP_WIDE_RAD));
    lemma_order(double(THIGH_LIMIT_RAD).neg(), double(THIGH_LIMIT_RAD));
    lemma_order(double(THIGH_LIMIT_RAD), double(THIGH_LIMIT_RAD).neg());
    lemma_order(double(CALF_LIMIT_RAD).neg(), double(CALF_LIMIT_RAD));
    lemma_order(double(CALF_LIMIT_RAD), double(CALF_LIMIT_RAD).neg());
    assert(bus.motors[0].as_built(leg, 0));
    assert(bus.motors[1].as_built(leg, 1));
    assert(bus.motors[2].as_built(leg, 2));
}

/// In a configuration that passes validation every leg has exactly one bus, with
/// three motors of nonzero, distinct ids, in the order hip, thigh, calf.
pub proof fn law_a_valid_configuration_is_wired_once(config: HardwareConfig)
    requires
        config.complaint() is None,
    ensures
        config.legs.bus.len() == 4,
        forall|leg: LegSlot| config.has_leg(leg),
        forall|i: int, j: int|
            0 <= i < j < 4 ==> LegSlot::named((#[trigger] config.legs.bus[i]).leg@)
                != LegSlot::named((#[trigger] config.legs.bus[j]).leg@),
        forall|i: int, k: int|
            0 <= i < 4 && 0 <= k < 3 ==> {
                let motor = #[trigger] config.legs.bus[i].motors[k];
                &&& config.legs.bus[i].motors.len() == 3
                &&& motor.kind@ == LEG_JOINT_KINDS[k]@
                &&& motor.id != 0
                &&& motor.min_rad.below(motor.max_rad)
                &&& is_sign(motor.sign)
            },
        forall|i: int, k: int, h: int|
            0 <= i < 4 && 0 <= h < k < 3 ==> (#[trigger] config.legs.bus[i].motors[k]).id != (
            #[trigger] config.legs.bus[i].motors[h]).id,
{
    reveal_with_fuel(HardwareConfig::bus_complaint, 5);
    reveal_with_fuel(LegBusConfig::motor_complaint, 4);
    reveal_with_fuel(LegBusConfig::id_complaint, 4);
    assert forall|i: int| 0 <= i < 4 implies (#[trigger] config.legs.bus[i]).complaint() is None
        && !config.leg_repeats(i) && LegSlot::named(config.legs.bus[i].leg@) is Some by {
        assert(config.bus_complaint(0) is None);
    }
    assert forall|i: int, k: int| 0 <= i < 4 && 0 <= k < 3 implies {
        let motor = #[trigger] config.legs.bus[i].motors[k];
        &&& config.legs.bus[i].motors.len() == 3
        &&& motor.kind@ == LEG_JOINT_KINDS[k]@
        &&& motor.id != 0
        &&& motor.min_rad.below(motor.max_rad)
        &&& is_sign(motor.sign)
    } by {
        let bus = config.legs.bus[i];
        assert(bus.complaint() is None);
        assert(bus.motor_complaint(0) is None);
        assert(bus.motors[k].complaint(bus.leg@, k) is None);
    }
    assert forall|i: int, k: int, h: int| 0 <= i < 4 && 0 <= h < k < 3 implies (
    #[trigger] config.legs.bus[i].motors[k]).id != (#[trigger] config.legs.bus[i].motors[h]).id by {
        let bus = config.legs.bus[i];
        assert(bus.complaint() is None);
        assert(bus.id_complaint(0) is None);
        assert(!bus.id_repeats(k));
    }
    assert forall|leg: LegSlot| config.has_leg(leg) by {
        let a = LegSlot::named(config.legs.bus[0].leg@);
        let b = LegSlot::named(config.legs.bus[1].leg@);
        let c = LegSlot::named(config.legs.bus[2].leg@);
        let d = LegSlot::named(config.legs.bus[3].leg@);
        assert(!config.leg_repeats(1) && !config.leg_repeats(2) && !config.leg_repeats(3));
        assert(a != b && a != c && b != c && a != d && b != d && c != d);
        assert(a == Some(leg) || b == Some(leg) || c == Some(leg) || d == Some(leg));
    }
}

/// Whether a motor is configured as it must be at its place.
pub open spec fn is_in_order(m: MotorConfig, place: int) -> bool {
    &&& m.kind@ == (if place == 0 { "hip"@ } else if place == 1 { "thigh"@ } else { "calf"@ })
    &&& m.id != 0
    &&& m.min_rad.finite() && m.max_rad.finite() && m.min_rad.value() < m.max_rad.value()
    &&& m.sign.is_equal(double(ONE)) || m.sign.is_equal(double(ONE).neg())
}

/// Whether a bus has its three motors in order, each with its own id.
pub open spec fn is_wired(bus: LegBusConfig) -> bool {
    &&& bus.motors.len() == 3
    &&& forall|k: int| 0 <= k < 3 ==> is_in_order(#[trigger] bus.motors[k], k)
    &&& bus.motors[0].id != bus.motors[1].id && bus.motors[0].id != bus.motors[2].id
        && bus.motors[1].id != bus.motors[2].id
}

/// A configuration is accepted exactly if it has one bus for each of the four legs, each
/// with a hip, a thigh and a calf motor of their own ids, of a sign of one or minus one
/// and of a range that is one; a rate that is not zero or less; and a range for the arm.
pub proof fn law_a_configuration_is_accepted_exactly_if_it_is_whole(hw: HardwareConfig)
    ensures
        hw.complaint() is None <==> {
            &&& hw.legs.bus.len() == 4
            &&& forall|i: int|
                0 <= i < 4 ==> LegSlot::named((#[trigger] hw.legs.bus[i]).leg@) is Some && is_wired(
                    hw.legs.bus[i],
                )
            &&& forall|i: int, j: int|
                0 <= i < j < 4 ==> LegSlot::named((#[trigger] hw.legs.bus[i]).leg@) != LegSlot::named(
                    (#[trigger] hw.legs.bus[j]).leg@,
                )
            &&& !hw.legs.bus_rate_hz.is_at_most(double(0))
            &&& hw.arm.min_rad.finite() && hw.arm.max_rad.finite() && hw.arm.min_rad.value()
                < hw.arm.max_rad.value()
        },
{
    if hw.legs.bus.len() == 4 {
        lemma_wired(hw.legs.bus[0]);
        lemma_wired(hw.legs.bus[1]);
        lemma_wired(hw.legs.bus[2]);
        lemma_wired(hw.legs.bus[3]);
        reveal_with_fuel(HardwareConfig::bus_complaint, 5);
        lemma_repeats(hw, 0);
        lemma_repeats(hw, 1);
        lemma_repeats(hw, 2);
        lemma_repeats(hw, 3);
    }
}

proof fn lemma_repeats(hw: HardwareConfig, place: int)
    requires
        hw.legs.bus.len() == 4,
        0 <= place < 4,
    ensures
        !hw.leg_repeats(place) <==> forall|j: int|
            0 <= j < place ==> LegSlot::named((#[trigger] hw.legs.bus[j]).leg@) != LegSlot::named(
                hw.legs.bus[place].leg@,
            ),
{
}

proof fn lemma_wired(bus: LegBusConfig)
    ensures
        bus.complaint() is None <==> is_wired(bus),
{
    if bus.motors.len() == 3 {
        reveal_with_fuel(LegBusConfig::motor_complaint, 4);
        reveal_with_fuel(LegBusConfig::id_complaint, 4);
        let (a, b, c) = (bus.motors[0], bus.motors[1], bus.motors[2]);
        assert(is_in_order(a, 0) <==> a.complaint(bus.leg@, 0) is None);
        assert(is_in_order(b, 1) <==> b.complaint(bus.leg@, 1) is None);
        assert(is_in_order(c, 2) <==> c.complaint(bus.leg@, 2) is None);
        assert(!bus.id_repeats(0));
        assert(bus.id_repeats(1) <==> a.id == b.id) by {
            if a.id == b.id {
                assert(bus.motors[0].id == bus.motors[1].id);
            }
        }
        assert(bus.id_repeats(2) <==> a.id == c.id || b.id == c.id) by {
            if a.id == c.id {
                assert(bus.motors[0].id == bus.motors[2].id);
            }
            if b.id == c.id {
                assert(bus.motors[1].id == bus.motors[2].id);
            }
        }
    }
}

} // verus!
