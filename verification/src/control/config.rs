//! The program's configuration, which shares one file with the hardware's.
//!
//! Wiring and tuning in two files would sooner or later be carried apart.
use vstd::prelude::*;
use vstd::string::*;

use crate::control::handling::lemma_ones;
use crate::control::teleop::TeleopConfig;
use crate::double::{double, lemma_order, Double, ONE};
use crate::hal::config::HardwareConfig;
use crate::hal::error::{Complaint, Error};
use crate::measure::{lemma_worth_orders, worth};
use crate::text::debug_text;

verus! {

/// The whole configuration.
#[derive(Debug, Clone)]
pub struct AppConfig {
    pub control: ControlConfig,
    pub gait: GaitTuning,
    pub teleop: TeleopConfig,
    pub poses: PoseConfig,
    pub hardware: HardwareConfig,
}

/// The control loop.
#[derive(Debug, Clone)]
pub struct ControlConfig {
    /// The robot's model, which also holds poses and sequences.
    pub model: String,
    /// The rate of the control loop (Hz), at most that of the buses.
    pub rate_hz: Double,
    /// How long a change of pose takes (s).
    pub transition_s: Double,
    /// The pose taken first.
    pub start_pose: String,
    /// The standing pose by which the legs' kinematics are found.
    pub kinematics_pose: String,
    /// How long without S.BUS counts as a lost link (ms).
    pub teleop_timeout_ms: u64,
}

/// The tuning of the gaits.
#[derive(Debug, Clone, Copy, PartialEq, Eq, Structural)]
pub struct GaitTuning {
    /// The height of the body when standing (m).
    pub stance_height_m: Double,
    /// How high a swinging foot is lifted (m).
    pub swing_height_m: Double,
    /// The speed of a full stick, forward (m/s).
    pub max_vx_m_s: Double,
    /// The speed of a full stick, sideways (m/s).
    pub max_vy_m_s: Double,
    /// The turning rate of a full stick (rad/s).
    pub max_wz_rad_s: Double,
    /// How far the operator can move the body's height, up or down (m).
    pub height_range_m: Double,
    /// How far the operator can tilt the body (rad); 0 for not at all.
    pub body_attitude_max_rad: Double,
    /// How long a change from standstill to full speed takes (s); 0 for none.
    pub velocity_ramp_s: Double,
    /// Crawl with the planner that keeps the body on a straight line. It takes
    /// neither sideways nor turning commands.
    pub crawl_use_linear: bool,
    /// The cycle of each gait (s); without one, the gait's own.
    pub crawl_cycle_s: Option<Double>,
    pub walk_cycle_s: Option<Double>,
    pub trot_cycle_s: Option<Double>,
}

/// What the pose switch plays.
#[derive(Debug, Clone)]
pub struct PoseConfig {
    /// The sequence or pose that the pose switch plays.
    pub greeting: String,
    /// The one it plays with the selection switch up; empty for the same.
    pub greeting_alt: String,
    /// The arm's angle over a level body (rad).
    pub chicken_head_base_rad: Double,
    /// How much of the body's pitch the arm cancels; 1 for all.
    pub chicken_head_gain: Double,
    /// The time constant of the arm's lag (s).
    pub chicken_head_tau_s: Double,
}

/// Why a configuration is refused.
#[derive(Debug, Clone)]
pub enum AppFault {
    Hardware(Error),
    /// The control rate is not positive.
    ControlRate,
    /// The control rate exceeds the bus rate: the same command would go out twice.
    AboveBusRate { rate: Double, bus_rate: Double },
    Teleop(String),
    /// A speed limit is not positive.
    GaitLimits,
}

impl AppFault {
    /// The fault in words; `quote` is the text that it quotes, in quotes, `first`
    /// and `second` are its numbers, in decimal.
    pub open spec fn text(self, quote: Seq<char>, first: Seq<char>, second: Seq<char>) -> Seq<char> {
        match self {
            AppFault::Hardware(e) => e.text(quote, first, second),
            AppFault::ControlRate => "control.rate_hz は正の値が必要です"@,
            AppFault::AboveBusRate { .. } => "control.rate_hz ("@ + first
                + ") が legs.bus_rate_hz ("@ + second
                + ") を超えています。バスが追いつかないので制御周期を落とすか、バス周期を上げてください"@,
            AppFault::Teleop(text) => text@,
            AppFault::GaitLimits => "gait の速度上限は正の値が必要です"@,
        }
    }

    /// The text that the message quotes.
    pub open spec fn quotes(self) -> Seq<char> {
        match self {
            AppFault::Hardware(e) => e.quotes(),
            _ => Seq::empty(),
        }
    }

    /// The numbers that the message shows.
    pub fn numbers(&self) -> (r: (Double, Double))
        ensures
            r == (match *self {
                AppFault::Hardware(Error::Config(f)) => match f@ {
                    Complaint::MotorLimits { min, max, .. } => (min, max),
                    Complaint::MotorSign { sign, .. } => (sign, sign),
                    _ => (double(0), double(0)),
                },
                AppFault::AboveBusRate { rate, bus_rate } => (rate, bus_rate),
                _ => (double(0), double(0)),
            }),
    {
        match self {
            AppFault::Hardware(Error::Config(f)) => f.numbers(),
            AppFault::AboveBusRate { rate, bus_rate } => (*rate, *bus_rate),
            _ => (double(0), double(0)),
        }
    }

    /// The fault in words. `first` and `second` are its numbers, in decimal.
    pub fn message(&self, first: &str, second: &str) -> (r: String)
        ensures
            r@ == self.text(debug_text(self.quotes()), first@, second@),
    {
        match self {
            AppFault::Hardware(e) => e.message(first, second),
            AppFault::ControlRate => "control.rate_hz は正の値が必要です".to_owned(),
            AppFault::AboveBusRate { .. } => "control.rate_hz (".to_owned().concat(first).concat(
                ") が legs.bus_rate_hz (",
            ).concat(second).concat(
                ") を超えています。バスが追いつかないので制御周期を落とすか、バス周期を上げてください",
            ),
            AppFault::Teleop(text) => text.clone(),
            AppFault::GaitLimits => "gait の速度上限は正の値が必要です".to_owned(),
        }
    }
}

impl GaitTuning {
    /// Whether a speed limit is not positive.
    pub open spec fn has_bad_limit(self) -> bool {
        self.max_vx_m_s.at_most(double(0)) || self.max_vy_m_s.at_most(double(0))
            || self.max_wz_rad_s.at_most(double(0))
    }
}

impl AppConfig {
    /// Whether `r` reports the first thing that is wrong, or that nothing is.
    pub open spec fn judged(self, r: Result<(), AppFault>) -> bool {
        if let Some(c) = self.hardware.complaint() {
            r matches Err(AppFault::Hardware(Error::Config(f))) && f@ == c
        } else if self.control.rate_hz.at_most(double(0)) {
            r == Err::<(), AppFault>(AppFault::ControlRate)
        } else if self.hardware.legs.bus_rate_hz.below(self.control.rate_hz) {
            r == Err::<(), AppFault>(
                AppFault::AboveBusRate {
                    rate: self.control.rate_hz,
                    bus_rate: self.hardware.legs.bus_rate_hz,
                },
            )
        } else if let Some(text) = self.teleop.complaint() {
            r matches Err(AppFault::Teleop(t)) && t@ == text
        } else if self.gait.has_bad_limit() {
            r == Err::<(), AppFault>(AppFault::GaitLimits)
        } else {
            r is Ok
        }
    }

    pub fn validate(&self) -> (r: Result<(), AppFault>)
        ensures
            self.judged(r),
    {
        match self.hardware.validate() {
            Ok(()) => {},
            Err(e) => return Err(AppFault::Hardware(e)),
        }
        if self.control.rate_hz.at_most(double(0)) {
            return Err(AppFault::ControlRate);
        }
        if self.hardware.legs.bus_rate_hz.below(self.control.rate_hz) {
            return Err(
                AppFault::AboveBusRate {
                    rate: self.control.rate_hz,
                    bus_rate: self.hardware.legs.bus_rate_hz,
                },
            );
        }
        match self.teleop.validate() {
            Ok(()) => {},
            Err(text) => return Err(AppFault::Teleop(text)),
        }
        if self.gait.max_vx_m_s.at_most(double(0)) || self.gait.max_vy_m_s.at_most(double(0))
            || self.gait.max_wz_rad_s.at_most(double(0)) {
            return Err(AppFault::GaitLimits);
        }
        Ok(())
    }

    /// Whether this is the configuration of an empty file.
    pub open spec fn is_default(self) -> bool {
        &&& self.control.is_default()
        &&& self.gait == GaitTuning::usual()
        &&& self.teleop.is_default()
        &&& self.poses.is_default()
        &&& self.hardware.as_built()
    }
}

impl Default for AppConfig {
    fn default() -> (r: Self)
        ensures
            r.is_default(),
    {
        AppConfig {
            control: ControlConfig::default(),
            gait: GaitTuning::default(),
            teleop: TeleopConfig::default(),
            poses: PoseConfig::default(),
            hardware: HardwareConfig::default(),
        }
    }
}

/// 200, as bits.
const TWO_HUNDRED: u64 = 0x4069_0000_0000_0000;

/// 1.5, as bits.
const ONE_AND_A_HALF: u64 = 0x3ff8_0000_0000_0000;

pub fn default_model_path() -> (r: String)
    ensures
        r@ == "models/namiashi.misa"@,
{
    "models/namiashi.misa".to_owned()
}

pub fn default_rate_hz() -> (r: Double)
    ensures
        r == double(0x4069_0000_0000_0000),
{
    double(TWO_HUNDRED)
}

pub fn default_transition_s() -> (r: Double)
    ensures
        r == double(0x3ff8_0000_0000_0000),
{
    double(ONE_AND_A_HALF)
}

/// The folded pose: to start with the legs folded is safer than stretched.
pub fn default_start_pose() -> (r: String)
    ensures
        r@ == "constrain"@,
{
    "constrain".to_owned()
}

/// The pose with the knees slightly bent.
pub fn default_kinematics_pose() -> (r: String)
    ensures
        r@ == "extend"@,
{
    "extend".to_owned()
}

pub fn default_teleop_timeout_ms() -> (r: u64)
    ensures
        r == 100,
{
    100
}

impl ControlConfig {
    pub open spec fn is_default(self) -> bool {
        &&& self.model@ == "models/namiashi.misa"@
        &&& self.rate_hz == double(0x4069_0000_0000_0000)
        &&& self.transition_s == double(0x3ff8_0000_0000_0000)
        &&& self.start_pose@ == "constrain"@
        &&& self.kinematics_pose@ == "extend"@
        &&& self.teleop_timeout_ms == 100
    }
}

impl Default for ControlConfig {
    fn default() -> (r: Self)
        ensures
            r.is_default(),
    {
        ControlConfig {
            model: default_model_path(),
            rate_hz: default_rate_hz(),
            transition_s: default_transition_s(),
            start_pose: default_start_pose(),
            kinematics_pose: default_kinematics_pose(),
            teleop_timeout_ms: default_teleop_timeout_ms(),
        }
    }
}

/// 0.2, as bits.
pub const STANCE_HEIGHT_M: u64 = 0x3fc9_9999_9999_999a;

/// 0.03, as bits.
pub const SWING_HEIGHT_M: u64 = 0x3f9e_b851_eb85_1eb8;

/// 0.15, as bits.
pub const MAX_VX_M_S: u64 = 0x3fc3_3333_3333_3333;

/// 0.08, as bits.
pub const MAX_VY_M_S: u64 = 0x3fb4_7ae1_47ae_147b;

/// 0.6, as bits.
pub const MAX_WZ_RAD_S: u64 = 0x3fe3_3333_3333_3333;

/// 0.04, as bits.
pub const HEIGHT_RANGE_M: u64 = 0x3fa4_7ae1_47ae_147b;

/// 0.5, as bits.
pub const VELOCITY_RAMP_S: u64 = 0x3fe0_0000_0000_0000;

/// 0.05, as bits.
pub const CHICKEN_TAU_S: u64 = 0x3fa9_9999_9999_999a;

pub fn default_stance_height() -> (r: Double)
    ensures
        r == double(STANCE_HEIGHT_M),
{
    double(STANCE_HEIGHT_M)
}

pub fn default_swing_height() -> (r: Double)
    ensures
        r == double(SWING_HEIGHT_M),
{
    double(SWING_HEIGHT_M)
}

pub fn default_max_vx() -> (r: Double)
    ensures
        r == double(MAX_VX_M_S),
{
    double(MAX_VX_M_S)
}

pub fn default_max_vy() -> (r: Double)
    ensures
        r == double(MAX_VY_M_S),
{
    double(MAX_VY_M_S)
}

pub fn default_max_wz() -> (r: Double)
    ensures
        r == double(MAX_WZ_RAD_S),
{
    double(MAX_WZ_RAD_S)
}

pub fn default_height_range() -> (r: Double)
    ensures
        r == double(HEIGHT_RANGE_M),
{
    double(HEIGHT_RANGE_M)
}

impl GaitTuning {
    pub open spec fn usual() -> GaitTuning {
        GaitTuning {
            stance_height_m: double(STANCE_HEIGHT_M),
            swing_height_m: double(SWING_HEIGHT_M),
            max_vx_m_s: double(MAX_VX_M_S),
            max_vy_m_s: double(MAX_VY_M_S),
            max_wz_rad_s: double(MAX_WZ_RAD_S),
            height_range_m: double(HEIGHT_RANGE_M),
            body_attitude_max_rad: double(0),
            velocity_ramp_s: double(VELOCITY_RAMP_S),
            crawl_use_linear: false,
            crawl_cycle_s: None,
            walk_cycle_s: None,
            trot_cycle_s: None,
        }
    }
}

impl Default for GaitTuning {
    fn default() -> (r: Self)
        ensures
            r == GaitTuning::usual(),
    {
        GaitTuning {
            stance_height_m: default_stance_height(),
            swing_height_m: default_swing_height(),
            max_vx_m_s: default_max_vx(),
            max_vy_m_s: default_max_vy(),
            max_wz_rad_s: default_max_wz(),
            height_range_m: default_height_range(),
            body_attitude_max_rad: double(0),
            velocity_ramp_s: double(VELOCITY_RAMP_S),
            crawl_use_linear: false,
            crawl_cycle_s: None,
            walk_cycle_s: None,
            trot_cycle_s: None,
        }
    }
}

pub fn default_greeting() -> (r: String)
    ensures
        r@ == "greeting"@,
{
    "greeting".to_owned()
}

pub fn default_chicken_gain() -> (r: Double)
    ensures
        r == double(ONE),
{
    double(ONE)
}

pub fn default_chicken_tau() -> (r: Double)
    ensures
        r == double(CHICKEN_TAU_S),
{
    double(CHICKEN_TAU_S)
}

impl PoseConfig {
    pub open spec fn is_default(self) -> bool {
        &&& self.greeting@ == "greeting"@
        &&& self.greeting_alt@ == Seq::<char>::empty()
        &&& self.chicken_head_base_rad == double(0)
        &&& self.chicken_head_gain == double(ONE)
        &&& self.chicken_head_tau_s == double(CHICKEN_TAU_S)
    }
}

impl Default for PoseConfig {
    fn default() -> (r: Self)
        ensures
            r.is_default(),
    {
        PoseConfig {
            greeting: default_greeting(),
            greeting_alt: String::new(),
            chicken_head_base_rad: double(0),
            chicken_head_gain: default_chicken_gain(),
            chicken_head_tau_s: default_chicken_tau(),
        }
    }
}

/// The configuration of an empty file passes its own validation.
pub proof fn law_the_default_configuration_is_valid(config: AppConfig, r: Result<(), AppFault>)
    requires
        config.is_default(),
        config.judged(r),
    ensures
        r is Ok,
{
    crate::hal::config::law_the_default_is_valid(config.hardware);
    crate::control::teleop::law_the_default_assignment_is_valid(config.teleop);
    lemma_order(double(0), double(0x4069_0000_0000_0000));
    lemma_order(double(0x4069_0000_0000_0000), double(0));
    lemma_order(double(0x407f_4000_0000_0000), double(0x4069_0000_0000_0000));
    lemma_order(double(MAX_VX_M_S), double(0));
    lemma_order(double(MAX_VY_M_S), double(0));
    lemma_order(double(MAX_WZ_RAD_S), double(0));
}

/// A configuration of numbers is accepted exactly if its hardware and its assignment are,
/// the control rate is positive and no higher than that of the buses, and the robot may
/// move on each of its axes.
pub proof fn law_a_configuration_is_accepted_exactly_if_the_robot_can_run(
    config: AppConfig,
    r: Result<(), AppFault>,
)
    requires
        config.judged(r),
        config.control.rate_hz.finite(),
        config.hardware.legs.bus_rate_hz.finite(),
        config.gait.max_vx_m_s.finite(),
        config.gait.max_vy_m_s.finite(),
        config.gait.max_wz_rad_s.finite(),
    ensures
        r is Ok <==> {
            &&& config.hardware.complaint() is None
            &&& config.teleop.complaint() is None
            &&& 0real < worth(config.control.rate_hz)
            &&& worth(config.control.rate_hz) <= worth(config.hardware.legs.bus_rate_hz)
            &&& 0real < worth(config.gait.max_vx_m_s)
            &&& 0real < worth(config.gait.max_vy_m_s)
            &&& 0real < worth(config.gait.max_wz_rad_s)
        },
{
    lemma_ones();
    let rate = config.control.rate_hz;
    lemma_worth_orders(rate, double(0));
    lemma_worth_orders(rate, config.hardware.legs.bus_rate_hz);
    lemma_worth_orders(config.hardware.legs.bus_rate_hz, rate);
    lemma_worth_orders(config.gait.max_vx_m_s, double(0));
    lemma_worth_orders(config.gait.max_vy_m_s, double(0));
    lemma_worth_orders(config.gait.max_wz_rad_s, double(0));
}

} // verus!
