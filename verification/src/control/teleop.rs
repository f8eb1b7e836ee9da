//! From the operator's transmitter (S.BUS) to a command.
//!
//! Which channel means what, and where its ends are, depends on the transmitter,
//! so all of it is configured. Values are raw channel values: pulse widths are an
//! approximation that serves the display only.
use vstd::prelude::*;
use vstd::string::*;

use crate::control::config::GaitTuning;
use crate::double::{double, from_u64, lemma_order, whole, Double, ONE};
use crate::hal::config::ArmConfig;
use crate::hal::sbus::{SbusState, CHANNELS, RAW_CENTER, RAW_MAX, RAW_MIN};
use crate::root::{root, square_root};
use crate::text::{decimal, decimal_text};

verus! {

/// 0.06, as bits.
pub const DEADBAND: u64 = 0x3fae_b851_eb85_1eb8;

/// 0.9, as bits.
pub const WIDEST_DEADBAND: u64 = 0x3fec_cccc_cccc_cccd;

/// 0.5, as bits.
pub const HALF: u64 = 0x3fe0_0000_0000_0000;

/// A stick of the transmitter.
#[derive(Debug, Clone, Copy, PartialEq, Eq, Structural)]
pub struct AxisMap {
    /// The channel, counted from 1 as the transmitter does.
    pub channel: usize,
    pub raw_min: u16,
    pub raw_center: u16,
    pub raw_max: u16,
    /// Whether the sign is turned over.
    pub reverse: bool,
    /// The share around the middle that counts as the middle (0 to 1).
    pub deadband: Double,
    /// How much the middle is dulled (0 to 1).
    pub expo: Double,
}

/// -1.
pub open spec fn minus_one() -> Double {
    double(ONE).neg()
}

/// The sign of a number: 1 or -1, a zero counting by its sign bit.
pub open spec fn sign_of(v: Double) -> Double {
    if v.is_nan() { v } else if v.negative() { minus_one() } else { double(ONE) }
}

fn signum(v: Double) -> (r: Double)
    ensures
        r == sign_of(v),
{
    if v.is_nan() {
        v
    } else if v.bits >= 0x8000_0000_0000_0000 {
        double(ONE).neg()
    } else {
        double(ONE)
    }
}

/// The deadband within its bounds.
pub open spec fn band_of(deadband: Double) -> Double {
    deadband.clamp(double(0), double(WIDEST_DEADBAND))
}

/// A stick value with the deadband taken out, so that it rises without a step.
pub open spec fn banded(v: Double, deadband: Double) -> Double {
    let band = band_of(deadband);
    if v.abs().at_most(band) {
        double(0)
    } else {
        sign_of(v).times(v.abs().minus(band).over(double(ONE).minus(band)))
    }
}

/// The dulling within its bounds.
pub open spec fn expo_of(expo: Double) -> Double {
    expo.clamp(double(0), double(ONE))
}

/// A stick value with the middle dulled.
pub open spec fn eased(v: Double, expo: Double) -> Double {
    let e = expo_of(expo);
    double(ONE).minus(e).times(v).plus(e.times(v).times(v).times(v))
}

fn apply_deadband(v: Double, deadband: Double) -> (r: Double)
    ensures
        r == banded(v, deadband),
{
    proof {
        lemma_order(double(0), double(WIDEST_DEADBAND));
        lemma_order(double(WIDEST_DEADBAND), double(0));
    }
    let band = deadband.clamp(double(0), double(WIDEST_DEADBAND));
    if v.abs().at_most(band) {
        return double(0);
    }
    signum(v).times(v.abs().minus(band).over(double(ONE).minus(band)))
}

fn apply_expo(v: Double, expo: Double) -> (r: Double)
    ensures
        r == eased(v, expo),
{
    proof {
        lemma_order(double(0), double(ONE));
        lemma_order(double(ONE), double(0));
    }
    let e = expo.clamp(double(0), double(ONE));
    double(ONE).minus(e).times(v).plus(e.times(v).times(v).times(v))
}

/// The raw value of a channel counted from 1.
pub open spec fn raw_of(channel: usize, channels: Seq<u16>) -> Option<u16> {
    if 1 <= channel <= channels.len() { Some(channels[channel - 1]) } else { None }
}

fn raw_channel(channel: usize, state: &SbusState) -> (r: Option<u16>)
    ensures
        r == raw_of(channel, state.channels@),
{
    if channel == 0 { None } else { state.channel(channel - 1) }
}

impl AxisMap {
    /// The way from the middle to the end on the side of `raw`. The ends of a
    /// transmitter need not be symmetric.
    pub open spec fn span(self, raw: u16) -> Double {
        if raw >= self.raw_center {
            whole(self.raw_max as nat).minus(whole(self.raw_center as nat)).max(double(ONE))
        } else {
            whole(self.raw_center as nat).minus(whole(self.raw_min as nat)).max(double(ONE))
        }
    }

    /// Where the stick stands between its ends.
    pub open spec fn reading(self, raw: u16) -> Double {
        whole(raw as nat).minus(whole(self.raw_center as nat)).over(self.span(raw)).clamp(
            minus_one(),
            double(ONE),
        )
    }

    /// The stick's value.
    pub open spec fn stick(self, channels: Seq<u16>) -> Double {
        match raw_of(self.channel, channels) {
            None => double(0),
            Some(raw) => {
                let v = eased(banded(self.reading(raw), self.deadband), self.expo);
                if self.reverse { v.neg() } else { v }
            },
        }
    }

    /// An axis with the usual ends.
    pub open spec fn usual(channel: usize, reverse: bool) -> AxisMap {
        AxisMap {
            channel,
            raw_min: RAW_MIN,
            raw_center: RAW_CENTER,
            raw_max: RAW_MAX,
            reverse,
            deadband: double(DEADBAND),
            expo: double(0),
        }
    }

    /// What is wrong with the axis of the given name.
    pub open spec fn complaint(self, name: Seq<char>) -> Option<Seq<char>> {
        if self.channel == 0 || self.channel > CHANNELS {
            Some(channel_text(name, self.channel))
        } else if !(self.raw_min < self.raw_center < self.raw_max) {
            Some(
                "teleop."@ + name + " のエンドポイントが不正です (min < center < max であること)"@,
            )
        } else {
            None
        }
    }

    pub fn new(channel: usize, reverse: bool) -> (r: AxisMap)
        ensures
            r == AxisMap::usual(channel, reverse),
    {
        AxisMap {
            channel,
            raw_min: default_raw_min(),
            raw_center: default_raw_center(),
            raw_max: default_raw_max(),
            reverse,
            deadband: default_deadband(),
            expo: double(0),
        }
    }

    /// The stick's value, from -1 to 1; 0 if there is no such channel.
    pub fn value(&self, state: &SbusState) -> (r: Double)
        ensures
            r == self.stick(state.channels@),
    {
        let raw: u16 = match raw_channel(self.channel, state) {
            Some(raw) => raw,
            None => return double(0),
        };
        let x = from_u64(raw as u64);
        let center = from_u64(self.raw_center as u64);
        let span = if raw >= self.raw_center {
            from_u64(self.raw_max as u64).minus(center).max(double(ONE))
        } else {
            center.minus(from_u64(self.raw_min as u64)).max(double(ONE))
        };
        proof {
            lemma_order(minus_one(), double(ONE));
            lemma_order(double(ONE), minus_one());
        }
        let reading = x.minus(center).over(span).clamp(double(ONE).neg(), double(ONE));
        let v = apply_expo(apply_deadband(reading, self.deadband), self.expo);
        if self.reverse { v.neg() } else { v }
    }

    fn check(&self, name: &str) -> (r: Result<(), String>)
        ensures
            match self.complaint(name@) {
                None => r is Ok,
                Some(text) => r is Err && r->Err_0@ == text,
            },
    {
        if self.channel == 0 || self.channel > CHANNELS {
            return Err(channel_error(name, self.channel));
        }
        if !(self.raw_min < self.raw_center && self.raw_center < self.raw_max) {
            return Err(
                "teleop.".to_owned().concat(name).concat(
                    " のエンドポイントが不正です (min < center < max であること)",
                ),
            );
        }
        Ok(())
    }
}

/// What is said of a channel that does not exist.
pub open spec fn channel_text(name: Seq<char>, channel: usize) -> Seq<char> {
    "teleop."@ + name + ".channel は 1..=16 です ("@ + decimal(channel as nat)
        + " が指定されました)"@
}

fn channel_error(name: &str, channel: usize) -> (r: String)
    ensures
        r@ == channel_text(name@, channel),
{
    "teleop.".to_owned().concat(name).concat(".channel は 1..=16 です (").concat(
        decimal_text(channel as u64).as_str(),
    ).concat(" が指定されました)")
}

pub fn default_raw_min() -> (r: u16)
    ensures
        r == RAW_MIN,
{
    RAW_MIN
}

pub fn default_raw_center() -> (r: u16)
    ensures
        r == RAW_CENTER,
{
    RAW_CENTER
}

pub fn default_raw_max() -> (r: u16)
    ensures
        r == RAW_MAX,
{
    RAW_MAX
}

pub fn default_deadband() -> (r: Double)
    ensures
        r == double(DEADBAND),
{
    double(DEADBAND)
}

/// A switch of the transmitter. It has one position more than thresholds.
#[derive(Debug, Clone)]
pub struct SwitchMap {
    /// The channel, counted from 1.
    pub channel: usize,
    /// The raw values that part the positions, ascending.
    pub thresholds: Vec<u16>,
}

/// How many of the thresholds `raw` has reached.
pub open spec fn reached(thresholds: Seq<u16>, raw: u16) -> nat
    decreases thresholds.len(),
{
    if thresholds.len() == 0 {
        0
    } else {
        reached(thresholds.drop_last(), raw) + if raw >= thresholds.last() { 1nat } else { 0nat }
    }
}

impl SwitchMap {
    /// The switch's position.
    pub open spec fn at(self, channels: Seq<u16>) -> nat {
        match raw_of(self.channel, channels) {
            None => 0,
            Some(raw) => reached(self.thresholds@, raw),
        }
    }

    /// Whether this is a switch on the given channel with the given thresholds.
    pub open spec fn is(self, channel: usize, thresholds: Seq<u16>) -> bool {
        self.channel == channel && self.thresholds@ == thresholds
    }

    /// Whether the thresholds ascend.
    pub open spec fn ascends(self) -> bool {
        forall|i: int|
            0 <= i < self.thresholds.len() - 1 ==> #[trigger] self.thresholds[i] < self.thresholds[i + 1]
    }

    /// What is wrong with the switch of the given name, which needs `want`
    /// positions.
    pub open spec fn complaint(self, name: Seq<char>, want: nat) -> Option<Seq<char>> {
        if self.channel == 0 || self.channel > CHANNELS {
            Some(channel_text(name, self.channel))
        } else if self.thresholds.len() + 1 < want {
            Some(
                "teleop."@ + name + " は "@ + decimal(want) + " 段必要ですが "@ + decimal(
                    (self.thresholds.len() + 1) as nat,
                ) + " 段です"@,
            )
        } else if !self.ascends() {
            Some("teleop."@ + name + ".thresholds は昇順である必要があります"@)
        } else {
            None
        }
    }

    /// Three positions, parted halfway.
    pub fn three_position(channel: usize) -> (r: SwitchMap)
        ensures
            r.is(channel, seq![582u16, 1401u16]),
    {
        let thresholds: Vec<u16> = vec![582, 1401];
        assert(thresholds@ =~= seq![582u16, 1401u16]);
        SwitchMap { channel, thresholds }
    }

    /// Two positions.
    pub fn two_position(channel: usize) -> (r: SwitchMap)
        ensures
            r.is(channel, seq![RAW_CENTER]),
    {
        let thresholds: Vec<u16> = vec![RAW_CENTER];
        assert(thresholds@ =~= seq![RAW_CENTER]);
        SwitchMap { channel, thresholds }
    }

    /// The position, counted from 0; 0 if there is no such channel.
    pub fn position(&self, state: &SbusState) -> (r: usize)
        ensures
            r == self.at(state.channels@),
    {
        let raw: u16 = match raw_channel(self.channel, state) {
            Some(raw) => raw,
            None => return 0,
        };
        let mut count: usize = 0;
        let mut i: usize = 0;
        while i < self.thresholds.len()
            invariant
                count <= i <= self.thresholds.len(),
                count == reached(self.thresholds@.take(i as int), raw),
            decreases self.thresholds.len() - i,
        {
            proof {
                let done = self.thresholds@.take(i + 1);
                assert(done.drop_last() =~= self.thresholds@.take(i as int));
                assert(done.last() == self.thresholds@[i as int]);
            }
            if raw >= self.thresholds[i] {
                count = count + 1;
            }
            i = i + 1;
        }
        assert(self.thresholds@.take(self.thresholds.len() as int) =~= self.thresholds@);
        count
    }

    /// How many positions there are.
    pub fn positions(&self) -> (r: usize)
        requires
            self.thresholds.len() < usize::MAX,
        ensures
            r == self.thresholds.len() + 1,
    {
        self.thresholds.len() + 1
    }

    fn check(&self, name: &str, want: usize) -> (r: Result<(), String>)
        requires
            1 <= want <= 3,
        ensures
            match self.complaint(name@, want as nat) {
                None => r is Ok,
                Some(text) => r is Err && r->Err_0@ == text,
            },
    {
        if self.channel == 0 || self.channel > CHANNELS {
            return Err(channel_error(name, self.channel));
        }
        if self.thresholds.len() < want - 1 {
            return Err(
                "teleop.".to_owned().concat(name).concat(" は ").concat(
                    decimal_text(want as u64).as_str(),
                ).concat(" 段必要ですが ").concat(decimal_text(self.positions() as u64).as_str()).concat(
                    " 段です",
                ),
            );
        }
        let mut i: usize = 1;
        while i < self.thresholds.len()
            invariant
                1 <= i,
                forall|j: int|
                    0 <= j < i - 1 && j < self.thresholds.len() - 1 ==> #[trigger] self.thresholds[j]
                        < self.thresholds[j + 1],
                1 <= self.channel <= CHANNELS,
                self.thresholds.len() + 1 >= want,
            decreases self.thresholds.len() - i,
        {
            if self.thresholds[i - 1] >= self.thresholds[i] {
                assert(!(self.thresholds[i - 1] < self.thresholds[i - 1 + 1]));
                return Err(
                    "teleop.".to_owned().concat(name).concat(
                        ".thresholds は昇順である必要があります",
                    ),
                );
            }
            i = i + 1;
        }
        Ok(())
    }
}

/// Which channel means what.
#[derive(Debug, Clone)]
pub struct TeleopConfig {
    /// Forward and back.
    pub vx: AxisMap,
    /// Sideways.
    pub vy: AxisMap,
    /// Turning.
    pub wz: AxisMap,
    /// The body's height.
    pub height: AxisMap,
    /// The mode: 0 limp, 1 start pose, 2 walking.
    pub mode: SwitchMap,
    /// The gait: 0 crawl, 1 walk, 2 trot.
    pub gait: SwitchMap,
    /// Plays a pose, once per press.
    pub pose: SwitchMap,
    /// The chicken head.
    pub chicken_head: SwitchMap,
    /// Which of the two greetings the pose switch plays.
    pub pose_select: SwitchMap,
    /// The channel that the arm's servo hangs on, to watch it; `None` not to.
    pub arm: Option<AxisMap>,
}

/// The axis for watching the arm. It has no deadband: the angle is wanted as it is.
pub open spec fn watching_axis() -> AxisMap {
    AxisMap { deadband: double(0), ..AxisMap::usual(9, false) }
}

pub fn default_arm_axis() -> (r: Option<AxisMap>)
    ensures
        r == Some(watching_axis()),
{
    let mut axis = AxisMap::new(9, false);
    axis.deadband = double(0);
    Some(axis)
}

pub fn default_pose_select() -> (r: SwitchMap)
    ensures
        r.is(10, seq![RAW_CENTER]),
{
    SwitchMap::two_position(10)
}

/// The first of two complaints.
pub open spec fn either(a: Option<Seq<char>>, b: Option<Seq<char>>) -> Option<Seq<char>> {
    match a {
        Some(text) => Some(text),
        None => b,
    }
}

impl TeleopConfig {
    pub open spec fn is_default(self) -> bool {
        &&& self.vx == AxisMap::usual(2, false)
        &&& self.vy == AxisMap::usual(1, true)
        &&& self.wz == AxisMap::usual(4, true)
        &&& self.height == AxisMap::usual(3, false)
        &&& self.mode.is(5, seq![582u16, 1401u16])
        &&& self.gait.is(6, seq![582u16, 1401u16])
        &&& self.pose.is(7, seq![RAW_CENTER])
        &&& self.chicken_head.is(8, seq![RAW_CENTER])
        &&& self.pose_select.is(10, seq![RAW_CENTER])
        &&& self.arm == Some(watching_axis())
    }

    /// The first thing that is wrong with the assignment.
    pub open spec fn complaint(self) -> Option<Seq<char>> {
        let axes = either(
            self.vx.complaint("vx"@),
            either(
                self.vy.complaint("vy"@),
                either(
                    self.wz.complaint("wz"@),
                    either(
                        self.height.complaint("height"@),
                        match self.arm {
                            Some(arm) => arm.complaint("arm"@),
                            None => None,
                        },
                    ),
                ),
            ),
        );
        either(
            axes,
            either(
                self.mode.complaint("mode"@, 3),
                either(
                    self.gait.complaint("gait"@, 3),
                    either(
                        self.pose.complaint("pose"@, 2),
                        self.chicken_head.complaint("chicken_head"@, 2),
                    ),
                ),
            ),
        )
    }

    pub fn validate(&self) -> (r: Result<(), String>)
        ensures
            match self.complaint() {
                None => r is Ok,
                Some(text) => r is Err && r->Err_0@ == text,
            },
    {
        self.vx.check("vx")?;
        self.vy.check("vy")?;
        self.wz.check("wz")?;
        self.height.check("height")?;
        if let Some(arm) = &self.arm {
            arm.check("arm")?;
        }
        self.mode.check("mode", 3)?;
        self.gait.check("gait", 3)?;
        self.pose.check("pose", 2)?;
        self.chicken_head.check("chicken_head", 2)?;
        Ok(())
    }
}

impl Default for TeleopConfig {
    /// Up is forward; right is right, which is negative sideways.
    fn default() -> (r: Self)
        ensures
            r.is_default(),
    {
        TeleopConfig {
            vx: AxisMap::new(2, false),
            vy: AxisMap::new(1, true),
            wz: AxisMap::new(4, true),
            height: AxisMap::new(3, false),
            mode: SwitchMap::three_position(5),
            gait: SwitchMap::three_position(6),
            pose: SwitchMap::two_position(7),
            chicken_head: SwitchMap::two_position(8),
            pose_select: default_pose_select(),
            arm: default_arm_axis(),
        }
    }
}

/// The default assignment passes its own validation.
pub proof fn law_the_default_assignment_is_valid(config: TeleopConfig)
    requires
        config.is_default(),
    ensures
        config.complaint() is None,
{
    assert(config.mode.thresholds@.len() == 2);
    assert(config.gait.thresholds@.len() == 2);
    assert(config.pose.thresholds@.len() == 1);
    assert(config.chicken_head.thresholds@.len() == 1);
}

/// What the operator wants of the robot, from the calmest up.
#[derive(Debug, Clone, Copy, PartialEq, Eq, PartialOrd, Ord, Structural)]
pub enum ModeRequest {
    /// Go limp.
    Relax,
    /// Hold the start pose.
    Stand,
    /// Walk.
    Walk,
}

impl ModeRequest {
    /// How active the mode is.
    pub open spec fn activity(self) -> nat {
        match self {
            ModeRequest::Relax => 0,
            ModeRequest::Stand => 1,
            ModeRequest::Walk => 2,
        }
    }

    /// The mode to fall to when the link is lost: the same. A limp robot must not
    /// rise, a walking one must not crouch, and a loaded one must not go limp; the
    /// speed is what drops to zero.
    pub fn capped_for_failsafe(self) -> (r: ModeRequest)
        ensures
            r == self,
    {
        self
    }
}

/// The gait that the operator chose.
#[derive(Debug, Clone, Copy, PartialEq, Eq, Structural)]
pub enum GaitSelect {
    Crawl,
    Walk,
    Trot,
}

impl GaitSelect {
    pub open spec fn name(self) -> Seq<char> {
        match self {
            GaitSelect::Crawl => "Crawl"@,
            GaitSelect::Walk => "Walk"@,
            GaitSelect::Trot => "Trot"@,
        }
    }

    pub fn label(self) -> (r: &'static str)
        ensures
            r@ == self.name(),
    {
        match self {
            GaitSelect::Crawl => "Crawl",
            GaitSelect::Walk => "Walk",
            GaitSelect::Trot => "Trot",
        }
    }
}

/// Roll, pitch and yaw (rad).
#[derive(Debug, Clone, Copy, PartialEq, Eq, Structural)]
pub struct Attitude {
    pub roll: Double,
    pub pitch: Double,
    pub yaw: Double,
}

impl Attitude {
    pub open spec fn level() -> Attitude {
        Attitude { roll: double(0), pitch: double(0), yaw: double(0) }
    }
}

/// The command of one period. Speeds are in real units.
#[derive(Debug, Clone, Copy, PartialEq, Eq, Structural)]
pub struct OperatorCommand {
    pub vx_m_s: Double,
    pub vy_m_s: Double,
    pub wz_rad_s: Double,
    /// What is added to the standing height (m).
    pub height_offset_m: Double,
    /// The arm's angle as seen from the transmitter (rad). Observed, not commanded.
    pub arm_rad: Option<Double>,
    pub mode: ModeRequest,
    pub gait: GaitSelect,
    /// The pose switch was just pressed. Holding it does not press it again.
    pub play_pose: bool,
    pub chicken_head: bool,
    /// Whether the pose switch plays the other greeting.
    pub play_alt: bool,
    /// The attitude of the body; level unless `chicken_head`.
    pub body_attitude_rad: Attitude,
    /// Whether the link is alive. If not, all speeds are 0.
    pub link_ok: bool,
}

impl OperatorCommand {
    /// The command of a lost link.
    pub open spec fn safe(gait: GaitSelect, mode: ModeRequest) -> OperatorCommand {
        OperatorCommand {
            vx_m_s: double(0),
            vy_m_s: double(0),
            wz_rad_s: double(0),
            height_offset_m: double(0),
            arm_rad: None,
            mode,
            gait,
            play_pose: false,
            chicken_head: false,
            play_alt: false,
            body_attitude_rad: Attitude::level(),
            link_ok: false,
        }
    }

    /// The command of a lost link: no speed, and the given mode. Where the arm is,
    /// nobody knows then: the last angle would pass for a fresh one.
    pub fn failsafe(gait: GaitSelect, mode: ModeRequest) -> (r: OperatorCommand)
        ensures
            r == OperatorCommand::safe(gait, mode),
    {
        OperatorCommand {
            vx_m_s: double(0),
            vy_m_s: double(0),
            wz_rad_s: double(0),
            height_offset_m: double(0),
            arm_rad: None,
            mode,
            gait,
            play_pose: false,
            chicken_head: false,
            play_alt: false,
            body_attitude_rad: Attitude { roll: double(0), pitch: double(0), yaw: double(0) },
            link_ok: false,
        }
    }
}

/// Reads the transmitter. It remembers whether the pose switch was pressed, and
/// what was last asked for.
#[derive(Debug, Clone)]
pub struct Teleop {
    pub cfg: TeleopConfig,
    pub max_vx: Double,
    pub max_vy: Double,
    pub max_wz: Double,
    pub height_range: Double,
    pub attitude_max: Double,
    /// The range of the arm, onto which its channel is mapped.
    pub arm_min: Double,
    pub arm_max: Double,
    pub prev_pose_on: bool,
    pub last_gait: GaitSelect,
    /// What was asked for when the link last worked.
    pub last_mode: ModeRequest,
}

/// The gait of a switch position.
pub open spec fn gait_at(position: nat) -> GaitSelect {
    if position == 0 {
        GaitSelect::Crawl
    } else if position == 1 {
        GaitSelect::Walk
    } else {
        GaitSelect::Trot
    }
}

/// The mode of a switch position.
pub open spec fn mode_at(position: nat) -> ModeRequest {
    if position == 0 {
        ModeRequest::Relax
    } else if position == 1 {
        ModeRequest::Stand
    } else {
        ModeRequest::Walk
    }
}

/// Roll and pitch held to the given amount taken together: a stick moves in a
/// circle. Yaw is another stick.
pub open spec fn tilt(roll: Double, pitch: Double, yaw: Double, most: Double) -> Attitude {
    let r = roll.times(most);
    let p = pitch.times(most);
    let n = root(r.times(r).plus(p.times(p)));
    let k = if most.below(n) && double(0).below(n) { most.over(n) } else { double(ONE) };
    Attitude { roll: r.times(k), pitch: p.times(k), yaw: yaw.times(most) }
}

fn tilted(roll: Double, pitch: Double, yaw: Double, most: Double) -> (a: Attitude)
    ensures
        a == tilt(roll, pitch, yaw, most),
{
    let r = roll.times(most);
    let p = pitch.times(most);
    let n = square_root(r.times(r).plus(p.times(p)));
    let k = if most.below(n) && double(0).below(n) { most.over(n) } else { double(ONE) };
    Attitude { roll: r.times(k), pitch: p.times(k), yaw: yaw.times(most) }
}

impl Teleop {
    /// The arm's angle of its channel: -1 to 1 mapped onto its range.
    pub open spec fn arm_seen(self, channels: Seq<u16>) -> Option<Double> {
        match self.cfg.arm {
            Some(axis) => Some(
                self.arm_min.plus(
                    axis.stick(channels).plus(double(ONE)).times(double(HALF)).times(
                        self.arm_max.minus(self.arm_min),
                    ),
                ),
            ),
            None => None,
        }
    }

    /// The command of a working link. With the chicken head on, the sideways,
    /// height and turning sticks tilt the body instead: one stick cannot mean two
    /// things.
    pub open spec fn command(self, channels: Seq<u16>) -> OperatorCommand {
        let tilting = self.cfg.chicken_head.at(channels) > 0;
        OperatorCommand {
            vx_m_s: self.cfg.vx.stick(channels).times(self.max_vx),
            vy_m_s: if tilting {
                double(0)
            } else {
                self.cfg.vy.stick(channels).times(self.max_vy)
            },
            wz_rad_s: if tilting {
                double(0)
            } else {
                self.cfg.wz.stick(channels).times(self.max_wz)
            },
            height_offset_m: if tilting {
                double(0)
            } else {
                self.cfg.height.stick(channels).times(self.height_range)
            },
            arm_rad: self.arm_seen(channels),
            mode: mode_at(self.cfg.mode.at(channels)),
            gait: gait_at(self.cfg.gait.at(channels)),
            play_pose: self.cfg.pose.at(channels) > 0 && !self.prev_pose_on,
            chicken_head: tilting,
            play_alt: self.cfg.pose_select.at(channels) > 0,
            body_attitude_rad: if tilting {
                tilt(
                    self.cfg.vy.stick(channels),
                    self.cfg.height.stick(channels),
                    self.cfg.wz.stick(channels),
                    self.attitude_max,
                )
            } else {
                Attitude::level()
            },
            link_ok: true,
        }
    }

    pub fn new(cfg: TeleopConfig, gait: &GaitTuning, arm: &ArmConfig) -> (r: Teleop)
        ensures
            r == (Teleop {
                cfg,
                max_vx: gait.max_vx_m_s,
                max_vy: gait.max_vy_m_s,
                max_wz: gait.max_wz_rad_s,
                height_range: gait.height_range_m,
                attitude_max: gait.body_attitude_max_rad,
                arm_min: arm.min_rad,
                arm_max: arm.max_rad,
                prev_pose_on: false,
                last_gait: GaitSelect::Crawl,
                last_mode: ModeRequest::Relax,
            }),
    {
        Teleop {
            cfg,
            max_vx: gait.max_vx_m_s,
            max_vy: gait.max_vy_m_s,
            max_wz: gait.max_wz_rad_s,
            height_range: gait.height_range_m,
            attitude_max: gait.body_attitude_max_rad,
            arm_min: arm.min_rad,
            arm_max: arm.max_rad,
            prev_pose_on: false,
            last_gait: GaitSelect::Crawl,
            last_mode: ModeRequest::Relax,
        }
    }

    /// The command of a bench without a receiver: to stand, in so many words. A
    /// link that never worked would leave the robot limp.
    pub fn bench_stand(&self) -> (r: OperatorCommand)
        ensures
            r == OperatorCommand::safe(self.last_gait, ModeRequest::Stand),
    {
        OperatorCommand::failsafe(self.last_gait, ModeRequest::Stand)
    }

    fn arm_angle(&self, state: &SbusState) -> (r: Option<Double>)
        ensures
            r == self.arm_seen(state.channels@),
    {
        match &self.cfg.arm {
            Some(axis) => {
                let share = axis.value(state).plus(double(ONE)).times(double(HALF));
                Some(self.arm_min.plus(share.times(self.arm_max.minus(self.arm_min))))
            },
            None => None,
        }
    }

    /// The command of one period; that of a lost link unless `usable`.
    pub fn update(&mut self, state: &SbusState, usable: bool) -> (r: OperatorCommand)
        ensures
            usable ==> r == old(self).command(state.channels@),
            usable ==> *final(self) == (Teleop {
                prev_pose_on: old(self).cfg.pose.at(state.channels@) > 0,
                last_gait: r.gait,
                last_mode: r.mode,
                ..*old(self)
            }),
            !usable ==> r == OperatorCommand::safe(old(self).last_gait, old(self).last_mode),
            !usable ==> *final(self) == (Teleop { prev_pose_on: true, ..*old(self) }),
    {
        if !usable {
            // A switch held while the link returns must not fire.
            self.prev_pose_on = true;
            return OperatorCommand::failsafe(self.last_gait, self.last_mode.capped_for_failsafe());
        }
        let gait_position: usize = self.cfg.gait.position(state);
        let gait = if gait_position == 0 {
            GaitSelect::Crawl
        } else if gait_position == 1 {
            GaitSelect::Walk
        } else {
            GaitSelect::Trot
        };
        let mode_position: usize = self.cfg.mode.position(state);
        let mode = if mode_position == 0 {
            ModeRequest::Relax
        } else if mode_position == 1 {
            ModeRequest::Stand
        } else {
            ModeRequest::Walk
        };
        let pose_on: bool = self.cfg.pose.position(state) > 0;
        let play_pose: bool = pose_on && !self.prev_pose_on;
        let chicken_head: bool = self.cfg.chicken_head.position(state) > 0;
        let vy = self.cfg.vy.value(state);
        let height = self.cfg.height.value(state);
        let wz = self.cfg.wz.value(state);
        let level = Attitude { roll: double(0), pitch: double(0), yaw: double(0) };
        let command = OperatorCommand {
            vx_m_s: self.cfg.vx.value(state).times(self.max_vx),
            vy_m_s: if chicken_head { double(0) } else { vy.times(self.max_vy) },
            wz_rad_s: if chicken_head { double(0) } else { wz.times(self.max_wz) },
            height_offset_m: if chicken_head { double(0) } else { height.times(self.height_range) },
            arm_rad: self.arm_angle(state),
            mode,
            gait,
            play_pose,
            chicken_head,
            play_alt: self.cfg.pose_select.position(state) > 0,
            body_attitude_rad: if chicken_head {
                tilted(vy, height, wz, self.attitude_max)
            } else {
                level
            },
            link_ok: true,
        };
        self.last_gait = gait;
        self.last_mode = mode;
        self.prev_pose_on = pose_on;
        command
    }
}

/// Losing the link never makes the robot more active than the operator last asked
/// for, and always takes the speed to zero.
pub proof fn law_a_lost_link_never_escalates(gait: GaitSelect, last: ModeRequest)
    ensures
        OperatorCommand::safe(gait, last).mode.activity() <= last.activity(),
        OperatorCommand::safe(gait, last).vx_m_s == double(0),
        OperatorCommand::safe(gait, last).vy_m_s == double(0),
        OperatorCommand::safe(gait, last).wz_rad_s == double(0),
        !OperatorCommand::safe(gait, last).play_pose,
        !OperatorCommand::safe(gait, last).link_ok,
{
}

/// A switch that stays pressed plays its pose once, and one that was pressed while
/// the link was lost does not play it when the link returns.
pub proof fn law_a_held_switch_plays_once(teleop: Teleop, first: Seq<u16>, second: Seq<u16>)
    requires
        teleop.cfg.pose.at(first) > 0,
        teleop.cfg.pose.at(second) > 0,
    ensures
        !(Teleop { prev_pose_on: teleop.cfg.pose.at(first) > 0, ..teleop }).command(second).play_pose,
        !(Teleop { prev_pose_on: true, ..teleop }).command(second).play_pose,
{
}

/// Which greeting is played does not depend on the chicken head's switch.
pub proof fn law_the_greeting_has_its_own_switch(teleop: Teleop, a: Seq<u16>, b: Seq<u16>)
    requires
        raw_of(teleop.cfg.pose_select.channel, a) == raw_of(teleop.cfg.pose_select.channel, b),
    ensures
        teleop.command(a).play_alt == teleop.command(b).play_alt,
{
}

/// Whether a stick has a channel of the receiver, and its middle between its ends.
pub open spec fn is_assigned(axis: AxisMap) -> bool {
    &&& 1 <= axis.channel <= 16
    &&& axis.raw_min < axis.raw_center
    &&& axis.raw_center < axis.raw_max
}

/// Whether a switch has a channel of the receiver, and parts it into at least so many
/// positions, from the lowest up.
pub open spec fn is_parted(switch: SwitchMap, positions: int) -> bool {
    &&& 1 <= switch.channel <= 16
    &&& switch.thresholds.len() >= positions - 1
    &&& forall|i: int, j: int|
        0 <= i < j < switch.thresholds.len() ==> switch.thresholds[i] < switch.thresholds[j]
}

/// Neighbours in order are all in order.
proof fn lemma_neighbours_ascend(switch: SwitchMap, i: int, j: int)
    requires
        switch.ascends(),
        0 <= i < j < switch.thresholds.len(),
    ensures
        switch.thresholds[i] < switch.thresholds[j],
    decreases j - i,
{
    assert(switch.thresholds[j - 1] < switch.thresholds[j - 1 + 1]);
    if i < j - 1 {
        lemma_neighbours_ascend(switch, i, j - 1);
    }
}

proof fn lemma_parted(switch: SwitchMap, name: Seq<char>, want: nat)
    ensures
        switch.complaint(name, want) is None <==> is_parted(switch, want as int),
{
    if switch.ascends() {
        assert forall|i: int, j: int| 0 <= i < j < switch.thresholds.len() implies
            switch.thresholds[i] < switch.thresholds[j] by {
            lemma_neighbours_ascend(switch, i, j);
        }
    }
}

/// An assignment is accepted exactly if every stick, the arm's too where there is one, has
/// its channel and its ends, the two switches of three positions are parted into three and
/// the two of two positions into two.
pub proof fn law_an_assignment_is_accepted_exactly_if_it_is_whole(cfg: TeleopConfig)
    ensures
        cfg.complaint() is None <==> {
            &&& is_assigned(cfg.vx)
            &&& is_assigned(cfg.vy)
            &&& is_assigned(cfg.wz)
            &&& is_assigned(cfg.height)
            &&& cfg.arm matches Some(arm) ==> is_assigned(arm)
            &&& is_parted(cfg.mode, 3)
            &&& is_parted(cfg.gait, 3)
            &&& is_parted(cfg.pose, 2)
            &&& is_parted(cfg.chicken_head, 2)
        },
{
    lemma_parted(cfg.mode, "mode"@, 3);
    lemma_parted(cfg.gait, "gait"@, 3);
    lemma_parted(cfg.pose, "pose"@, 2);
    lemma_parted(cfg.chicken_head, "chicken_head"@, 2);
}

} // verus!
