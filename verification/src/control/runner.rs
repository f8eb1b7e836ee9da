//! The control loop: what must hold before it starts, and what it does each period.
//!
//! The buses run at their own pace; the loop leaves targets and reads the newest
//! values, so that all it has to keep is its period.
use vstd::prelude::*;
use vstd::string::*;

use crate::control::controller::State;
use crate::control::jointvec::JointVec;
use crate::control::teleop::{raw_of, GaitSelect, OperatorCommand, SwitchMap, Teleop};
use crate::control::viz::{frame, BodyView, Frames, VizConfig};
use crate::double::{double, seconds, seconds_of, Double};
use crate::hal::config::HardwareConfig;
use crate::hal::joint::{
    JointCommand, JointMode, JointState, LegSlot, PerJoint, PerLeg, LEG_JOINT_KINDS,
};
use crate::hal::legs::{error_names, BusRequest, BusStats, JointStatus};
use crate::hal::sbus::SbusState;
use crate::hal::worker::{saturating, since, span};
use crate::rounding::INFINITE;
use crate::text::{decimal, decimal_text, hex, hex_text, joined, same_text};

verus! {

/// Negative infinity, as bits.
pub const LOWEST: u64 = 0xfff0_0000_0000_0000;

/// What a failure starts with that may be tried again: the robot is not ready to
/// start yet. A crash of the loop is another matter: restarting it would move the
/// legs with nobody looking.
pub const RETRYABLE: &'static str = "[retryable] ";

/// The exit code of a failure that may be tried again.
pub const EXIT_RETRY: u8 = 75;

/// The exit code of any other failure.
pub const EXIT_FAILURE: u8 = 1;

/// Whether a failure may be tried again.
pub open spec fn is_retryable(error: Seq<char>) -> bool {
    error.len() >= RETRYABLE@.len() && error.take(RETRYABLE@.len() as int) == RETRYABLE@
}

/// The exit code of a failure.
pub fn exit_code(error: &str) -> (r: u8)
    ensures
        r == (if is_retryable(error@) { EXIT_RETRY } else { EXIT_FAILURE }),
{
    let n: usize = RETRYABLE.unicode_len();
    if error.unicode_len() < n {
        return EXIT_FAILURE;
    }
    let head = error.substring_char(0, n);
    assert(head@ =~= error@.take(RETRYABLE@.len() as int));
    if same_text(head, RETRYABLE) { EXIT_RETRY } else { EXIT_FAILURE }
}

/// How the loop is started.
#[derive(Debug, Clone)]
pub struct RunOptions {
    /// Start without a receiver. The robot then stands up by itself, so this is for
    /// a bench with the legs in the air.
    pub allow_no_sbus: bool,
    /// Do not wait for the frames.
    pub skip_zero: bool,
    /// How often the status is shown (s); 0 for never.
    pub status_interval_s: Double,
    /// The live view.
    pub viz: VizConfig,
}

impl Default for RunOptions {
    fn default() -> (r: Self)
        ensures
            r == (RunOptions {
                allow_no_sbus: false,
                skip_zero: false,
                status_interval_s: double(crate::double::ONE),
                viz: r.viz,
            }),
            r.viz.is_default(),
    {
        RunOptions {
            allow_no_sbus: false,
            skip_zero: false,
            status_interval_s: double(crate::double::ONE),
            viz: VizConfig::default(),
        }
    }
}

/// What is waited for before the loop starts.
#[derive(Debug, Clone, Copy, PartialEq, Eq, Structural)]
pub enum Hurdle {
    /// The receiver, for at most three seconds.
    Sbus,
    /// The IMU, for at most two.
    Imu,
    /// The frames of the buses, for at most three.
    Anchored,
    /// The first reading of all joints, for at most two.
    FirstRead,
    /// The mode switch at limp.
    ModeSwitch,
    /// Nothing any more.
    Open,
}

impl Hurdle {
    /// How long a hurdle is waited at (ms).
    pub fn timeout_ms(self) -> (r: u64)
        ensures
            r == (match self {
                Hurdle::Sbus => 3000u64,
                Hurdle::Imu => 2000,
                Hurdle::Anchored => 3000,
                Hurdle::FirstRead => 2000,
                Hurdle::ModeSwitch => 0,
                Hurdle::Open => 0,
            }),
    {
        match self {
            Hurdle::Sbus => 3000,
            Hurdle::Imu => 2000,
            Hurdle::Anchored => 3000,
            Hurdle::FirstRead => 2000,
            Hurdle::ModeSwitch => 0,
            Hurdle::Open => 0,
        }
    }
}

/// The hurdle after one that was passed, or failed without harm.
pub open spec fn next_hurdle(hurdle: Hurdle, opts: RunOptions) -> Hurdle {
    match hurdle {
        Hurdle::Sbus => Hurdle::Imu,
        Hurdle::Imu => if opts.skip_zero { Hurdle::FirstRead } else { Hurdle::Anchored },
        Hurdle::Anchored => Hurdle::FirstRead,
        Hurdle::FirstRead => Hurdle::ModeSwitch,
        Hurdle::ModeSwitch => Hurdle::Open,
        Hurdle::Open => Hurdle::Open,
    }
}

/// What is said where a hurdle that matters was not passed.
pub open spec fn hurdle_complaint(hurdle: Hurdle, opts: RunOptions, error: Seq<char>) -> Option<Seq<char>> {
    match hurdle {
        Hurdle::Sbus => if opts.allow_no_sbus {
            None
        } else {
            Some(
                RETRYABLE@ + error
                    + "。送信機の電源とポートを確認してください（ベンチで脚を浮かせて いるなら --allow-no-sbus）"@,
            )
        },
        Hurdle::Anchored => Some(error + "（モータの電源とボーレートを確認してください）"@),
        Hurdle::FirstRead => Some(error + "（12 軸すべてが応答している必要があります）"@),
        _ => None,
    }
}

/// The next hurdle, by how waiting at one ended. Without an IMU the gait still runs,
/// so its absence stops nothing; without a first reading the loop would start from
/// angles that nobody measured.
pub fn hurdle_after(hurdle: Hurdle, opts: &RunOptions, outcome: Result<(), String>) -> (r: Result<
    Hurdle,
    String,
>)
    requires
        !(hurdle is ModeSwitch),
    ensures
        match outcome {
            Ok(()) => r == Ok::<Hurdle, String>(next_hurdle(hurdle, *opts)),
            Err(e) => match hurdle_complaint(hurdle, *opts, e@) {
                Some(text) => r is Err && r->Err_0@ == text,
                None => r == Ok::<Hurdle, String>(next_hurdle(hurdle, *opts)),
            },
        },
{
    let next = match hurdle {
        Hurdle::Sbus => Hurdle::Imu,
        Hurdle::Imu => if opts.skip_zero { Hurdle::FirstRead } else { Hurdle::Anchored },
        Hurdle::Anchored => Hurdle::FirstRead,
        Hurdle::FirstRead => Hurdle::ModeSwitch,
        Hurdle::ModeSwitch => Hurdle::Open,
        Hurdle::Open => Hurdle::Open,
    };
    match outcome {
        Ok(()) => Ok(next),
        Err(e) => match hurdle {
            Hurdle::Sbus => if opts.allow_no_sbus {
                Ok(next)
            } else {
                Err(
                    RETRYABLE.to_owned().concat(e.as_str()).concat(
                        "。送信機の電源とポートを確認してください（ベンチで脚を浮かせて いるなら --allow-no-sbus）",
                    ),
                )
            },
            Hurdle::Anchored => Err(e.concat("（モータの電源とボーレートを確認してください）")),
            Hurdle::FirstRead => Err(e.concat("（12 軸すべてが応答している必要があります）")),
            _ => Ok(next),
        },
    }
}

/// What is said where the mode switch is not at limp.
pub open spec fn mode_switch_text(position: nat, raw: u16) -> Seq<char> {
    RETRYABLE@ + "CH5（モード）が脱力位置にありません（いま "@ + decimal(position) + " 段目 / raw "@
        + decimal(raw as nat)
        + "）。                 **脱力に戻してから起動してください。** このまま起動すると                 操作なしで立ち上がります"@
}

/// The raw value of a switch, 0 where there is no such channel.
pub open spec fn raw_or_zero(channel: usize, channels: Seq<u16>) -> u16 {
    match raw_of(channel, channels) {
        Some(raw) => raw,
        None => 0,
    }
}

/// The last hurdle: the mode switch must be at limp, or the robot would rise with
/// nobody touching it. On a bench without a receiver it is meant to rise.
pub fn check_mode_switch(mode: &SwitchMap, sbus: &SbusState, opts: &RunOptions) -> (r: Result<
    Hurdle,
    String,
>)
    ensures
        if opts.allow_no_sbus || mode.at(sbus.channels@) == 0 {
            r == Ok::<Hurdle, String>(Hurdle::Open)
        } else {
            r is Err && r->Err_0@ == mode_switch_text(
                mode.at(sbus.channels@),
                raw_or_zero(mode.channel, sbus.channels@),
            )
        },
{
    let position: usize = mode.position(sbus);
    if opts.allow_no_sbus || position == 0 {
        return Ok(Hurdle::Open);
    }
    let raw: u16 = if mode.channel == 0 {
        0
    } else {
        match sbus.channel(mode.channel - 1) {
            Some(raw) => raw,
            None => 0,
        }
    };
    Err(
        RETRYABLE.to_owned().concat("CH5（モード）が脱力位置にありません（いま ").concat(
            decimal_text(position as u64).as_str(),
        ).concat(" 段目 / raw ").concat(decimal_text(raw as u64).as_str()).concat(
            "）。                 **脱力に戻してから起動してください。** このまま起動すると                 操作なしで立ち上がります",
        ),
    )
}

/// The failures that only mean that the robot is not ready yet, a silent receiver
/// and a mode switch off limp, may be tried again.
pub proof fn law_waiting_failures_are_retryable(opts: RunOptions, error: Seq<char>, position: nat, raw: u16)
    ensures
        hurdle_complaint(Hurdle::Sbus, opts, error) matches Some(text) ==> is_retryable(text),
        is_retryable(mode_switch_text(position, raw)),
{
    let n = RETRYABLE@.len() as int;
    if let Some(text) = hurdle_complaint(Hurdle::Sbus, opts, error) {
        assert(text.take(n) =~= RETRYABLE@);
    }
    assert(mode_switch_text(position, raw).take(n) =~= RETRYABLE@);
}

/// Watches how far the joints are from their targets, and whether they leave their
/// range. It only tells: going limp out of range would leave the leg to gravity.
#[derive(Debug, Clone, Copy)]
pub struct Watch {
    /// The largest error since it was last shown (rad), and its joint.
    pub worst: Double,
    pub worst_at: Option<(LegSlot, usize)>,
    /// Whether the joints out of range were told of.
    pub warned_excursion: bool,
    pub limits: PerLeg<PerJoint<(Double, Double)>>,
}

/// A joint out of its range.
#[derive(Debug, Clone, Copy, PartialEq, Eq, Structural)]
pub struct Excursion {
    pub leg: LegSlot,
    pub place: usize,
    pub angle: Double,
    pub min_rad: Double,
    pub max_rad: Double,
}

/// The range of a joint; without a motor, all angles.
pub open spec fn limit_of(hw: HardwareConfig, leg: LegSlot, k: int) -> (Double, Double) {
    if exists|i: int| hw.first_bus_of(leg, i) {
        let motors = hw.legs.bus[choose|i: int| hw.first_bus_of(leg, i)].motors;
        if k < motors.len() {
            (motors[k].min_rad, motors[k].max_rad)
        } else {
            (double(LOWEST), double(INFINITE))
        }
    } else {
        (double(LOWEST), double(INFINITE))
    }
}

/// The leg of the joint at a flat place.
pub open spec fn leg_at(n: int) -> LegSlot {
    LegSlot::at((n / 3) as nat)
}

/// The error of the joint at a flat place.
pub open spec fn error_at(targets: JointVec, measured: JointVec, n: int) -> Double {
    targets.legs.of(leg_at(n)).at(n % 3).minus(measured.legs.of(leg_at(n)).at(n % 3)).abs()
}

/// The largest error over the first `n` joints, and its joint.
pub open spec fn worst_after(
    worst: (Double, Option<(LegSlot, usize)>),
    targets: JointVec,
    measured: JointVec,
    n: nat,
) -> (Double, Option<(LegSlot, usize)>)
    decreases n,
{
    if n == 0 {
        worst
    } else {
        let before = worst_after(worst, targets, measured, (n - 1) as nat);
        let e = error_at(targets, measured, n - 1);
        if before.0.below(e) {
            (e, Some((leg_at(n - 1), ((n - 1) % 3) as usize)))
        } else {
            before
        }
    }
}

/// The joints out of range, of the first `n`.
pub open spec fn excursions(limits: PerLeg<PerJoint<(Double, Double)>>, measured: JointVec, n: nat) -> Seq<
    Excursion,
>
    decreases n,
{
    if n == 0 {
        Seq::empty()
    } else {
        let before = excursions(limits, measured, (n - 1) as nat);
        let leg = leg_at(n - 1);
        let k = (n - 1) % 3;
        let angle = measured.legs.of(leg).at(k);
        let (min_rad, max_rad) = limits.of(leg).at(k);
        if angle.below(min_rad) || max_rad.below(angle) {
            before.push(Excursion { leg, place: k as usize, angle, min_rad, max_rad })
        } else {
            before
        }
    }
}

impl Watch {
    /// The joint of the largest error is one of the three.
    pub open spec fn wf(self) -> bool {
        self.worst_at matches Some((_, k)) ==> k < 3
    }

    /// Whether this is the watch over the given robot, with nothing seen yet.
    pub open spec fn is_new(self, hw: HardwareConfig) -> bool {
        &&& self.worst == double(0)
        &&& self.worst_at is None
        &&& !self.warned_excursion
        &&& forall|leg: LegSlot, k: int|
            0 <= k < 3 ==> #[trigger] self.limits.of(leg).at(k) == limit_of(hw, leg, k)
    }

    pub fn new(hw: &HardwareConfig) -> (r: Watch)
        ensures
            r.is_new(*hw),
            r.wf(),
    {
        let limits = PerLeg {
            fl: leg_limits(hw, LegSlot::Fl),
            fr: leg_limits(hw, LegSlot::Fr),
            rl: leg_limits(hw, LegSlot::Rl),
            rr: leg_limits(hw, LegSlot::Rr),
        };
        Watch { worst: double(0), worst_at: None, warned_excursion: false, limits }
    }

    /// Takes in one period in which targets were sent. The joints out of range are
    /// told once, and again only after all were back.
    pub fn tick(&mut self, targets: &JointVec, measured: &JointVec) -> (r: Vec<Excursion>)
        requires
            old(self).wf(),
        ensures
            final(self).wf(),
            (final(self).worst, final(self).worst_at) == worst_after(
                (old(self).worst, old(self).worst_at),
                *targets,
                *measured,
                12,
            ),
            final(self).limits == old(self).limits,
            final(self).warned_excursion == (excursions(old(self).limits, *measured, 12).len() > 0),
            r@ == (if old(self).warned_excursion {
                Seq::empty()
            } else {
                excursions(old(self).limits, *measured, 12)
            }),
    {
        let mut out: Vec<Excursion> = Vec::new();
        for n in 0usize..12
            invariant
                self.wf(),
                self.limits == old(self).limits,
                self.warned_excursion == old(self).warned_excursion,
                (self.worst, self.worst_at) == worst_after(
                    (old(self).worst, old(self).worst_at),
                    *targets,
                    *measured,
                    n as nat,
                ),
                out@ == excursions(old(self).limits, *measured, n as nat),
        {
            let leg = LegSlot::from_index(n / 3);
            let k: usize = n % 3;
            let angle = measured.legs.get(leg).get(k);
            let e = targets.legs.get(leg).get(k).minus(angle).abs();
            if self.worst.below(e) {
                self.worst = e;
                self.worst_at = Some((leg, k));
            }
            let limit = self.limits.get(leg).get(k);
            if angle.below(limit.0) || limit.1.below(angle) {
                out.push(Excursion { leg, place: k, angle, min_rad: limit.0, max_rad: limit.1 });
            }
        }
        let news: bool = !self.warned_excursion;
        self.warned_excursion = out.len() > 0;
        if news { out } else { Vec::new() }
    }

    /// The largest error in words; its size comes in decimal. It is then forgotten.
    pub fn take(&mut self, size: &str) -> (r: String)
        requires
            old(self).wf(),
        ensures
            final(self).wf(),
            r@ == (match old(self).worst_at {
                Some((leg, k)) => size@ + "rad("@ + leg.name() + " "@ + LEG_JOINT_KINDS[k as int]@
                    + ")"@,
                None => "-"@,
            }),
            *final(self) == (Watch { worst: double(0), worst_at: None, ..*old(self) }),
    {
        let out = match self.worst_at {
            Some((leg, k)) => size.to_owned().concat("rad(").concat(leg.prefix()).concat(" ").concat(
                LEG_JOINT_KINDS[k],
            ).concat(")"),
            None => "-".to_owned(),
        };
        self.worst = double(0);
        self.worst_at = None;
        out
    }
}

fn leg_limits(hw: &HardwareConfig, leg: LegSlot) -> (r: PerJoint<(Double, Double)>)
    ensures
        forall|k: int| 0 <= k < 3 ==> #[trigger] r.at(k) == limit_of(*hw, leg, k),
{
    let all = (double(LOWEST), double(INFINITE));
    match crate::control::calib::bus_index(hw, leg) {
        Ok(i) => {
            proof {
                let j = choose|j: int| hw.first_bus_of(leg, j);
                crate::control::calib::lemma_one_first_bus(*hw, leg, i as int, j);
            }
            let motors = &hw.legs.bus[i].motors;
            PerJoint {
                hip: if motors.len() > 0 { (motors[0].min_rad, motors[0].max_rad) } else { all },
                thigh: if motors.len() > 1 { (motors[1].min_rad, motors[1].max_rad) } else { all },
                calf: if motors.len() > 2 { (motors[2].min_rad, motors[2].max_rad) } else { all },
            }
        },
        Err(_) => {
            assert forall|i: int| !hw.first_bus_of(leg, i) by {
                if hw.first_bus_of(leg, i) {
                    assert(LegSlot::named(hw.legs.bus[i].leg@) == Some(leg));
                }
            }
            PerJoint::filled(all)
        },
    }
}

/// The commands that take the joints to their targets.
pub open spec fn leg_orders(targets: PerJoint<Double>, mode: JointMode, speed: Double) -> PerJoint<
    JointCommand,
> {
    PerJoint {
        hip: order(targets.hip, mode, speed),
        thigh: order(targets.thigh, mode, speed),
        calf: order(targets.calf, mode, speed),
    }
}

pub open spec fn order(target: Double, mode: JointMode, speed: Double) -> JointCommand {
    JointCommand { mode, position_rad: target, max_speed_rad_s: speed, torque_nm: double(0) }
}

fn order_leg(targets: &PerJoint<Double>, mode: JointMode, speed: Double) -> (r: PerJoint<JointCommand>)
    ensures
        r == leg_orders(*targets, mode, speed),
{
    PerJoint {
        hip: JointCommand {
            mode,
            position_rad: targets.hip,
            max_speed_rad_s: speed,
            torque_nm: double(0),
        },
        thigh: JointCommand {
            mode,
            position_rad: targets.thigh,
            max_speed_rad_s: speed,
            torque_nm: double(0),
        },
        calf: JointCommand {
            mode,
            position_rad: targets.calf,
            max_speed_rad_s: speed,
            torque_nm: double(0),
        },
    }
}

/// The commands of all twelve joints.
pub fn write_targets(targets: &JointVec, mode: JointMode, speed: Double) -> (r: PerLeg<
    PerJoint<JointCommand>,
>)
    ensures
        forall|leg: LegSlot| #[trigger] r.of(leg) == leg_orders(targets.legs.of(leg), mode, speed),
{
    PerLeg {
        fl: order_leg(&targets.legs.fl, mode, speed),
        fr: order_leg(&targets.legs.fr, mode, speed),
        rl: order_leg(&targets.legs.rl, mode, speed),
        rr: order_leg(&targets.legs.rr, mode, speed),
    }
}

/// What the loop remembers from period to period.
#[derive(Debug, Clone, Copy, PartialEq, Eq, Structural)]
pub struct Loop {
    pub period: u64,
    pub next: u64,
    pub last_status: u64,
    pub worst_overrun: u64,
    pub ticks: u64,
    pub motors_enabled: bool,
    pub measured_seen: bool,
    pub fault_hint_shown: bool,
}

impl Loop {
    /// The request that takes the motors to where the mode wants them; `None` if they
    /// are there.
    pub open spec fn switching(self, mode: JointMode) -> Option<BusRequest> {
        if (mode is Idle) == !self.motors_enabled {
            None
        } else if mode is Idle {
            Some(BusRequest::Disable)
        } else {
            Some(BusRequest::Enable)
        }
    }

    /// The loop once the motors were switched.
    pub open spec fn after_switch(self) -> Loop {
        Loop { motors_enabled: !self.motors_enabled, ..self }
    }

    pub fn new(period: u64, now: u64) -> (r: Loop)
        ensures
            r == (Loop {
                period,
                next: now,
                last_status: now,
                worst_overrun: 0,
                ticks: 0,
                motors_enabled: false,
                measured_seen: false,
                fault_hint_shown: false,
            }),
    {
        Loop {
            period,
            next: now,
            last_status: now,
            worst_overrun: 0,
            ticks: 0,
            motors_enabled: false,
            measured_seen: false,
            fault_hint_shown: false,
        }
    }

    /// The request that takes the motors to where the mode wants them; `None` if they
    /// are there. It goes out only on a change: repeating it would eat the bus.
    pub fn switch(&self, mode: JointMode) -> (r: Option<BusRequest>)
        ensures
            r == self.switching(mode),
    {
        let wanted: bool = mode != JointMode::Idle;
        if wanted == self.motors_enabled {
            None
        } else if wanted {
            Some(BusRequest::Enable)
        } else {
            Some(BusRequest::Disable)
        }
    }

    /// The request of a switch was sent.
    pub fn switched(&mut self)
        ensures
            *final(self) == old(self).after_switch(),
    {
        self.motors_enabled = !self.motors_enabled;
    }

    /// Counts a period; `true` if the status is to be shown now.
    pub fn count(&mut self, status_interval_s: Double, now: u64) -> (r: bool)
        ensures
            *final(self) == (Loop { ticks: old(self).ticks.wrapping_add(1), ..*old(self) }),
            r == (double(0).below(status_interval_s) && status_interval_s.at_most(
                seconds_of(since(old(self).last_status, now)),
            )),
    {
        self.ticks = self.ticks.wrapping_add(1);
        double(0).below(status_interval_s) && status_interval_s.at_most(
            seconds(span(self.last_status, now)),
        )
    }

    /// The status was shown.
    pub fn shown(&mut self, now: u64)
        ensures
            *final(self) == (Loop { last_status: now, worst_overrun: 0, ..*old(self) }),
    {
        self.last_status = now;
        self.worst_overrun = 0;
    }

    /// Ends a period: how long to sleep (ns). A late period is not caught up on; how
    /// late it was is remembered.
    pub fn pace(&mut self, now: u64) -> (r: u64)
        ensures
            ({
                let due = saturating(old(self).next, old(self).period);
                if due > now {
                    *final(self) == (Loop { next: due, ..*old(self) }) && r == due - now
                } else {
                    let late = (now - due) as u64;
                    r == 0 && *final(self) == (Loop {
                        next: now,
                        worst_overrun: if late > old(self).worst_overrun {
                            late
                        } else {
                            old(self).worst_overrun
                        },
                        ..*old(self)
                    })
                }
            }),
    {
        let due: u64 = self.next.saturating_add(self.period);
        if due > now {
            self.next = due;
            due - now
        } else {
            let late: u64 = now - due;
            if late > self.worst_overrun {
                self.worst_overrun = late;
            }
            self.next = now;
            0
        }
    }

    /// Whether to say how faults are cleared: once, as long as there are faults.
    pub fn fault_hint(&mut self, any: bool) -> (r: bool)
        ensures
            r == (any && !old(self).fault_hint_shown),
            *final(self) == (Loop { fault_hint_shown: any, ..*old(self) }),
    {
        let r: bool = any && !self.fault_hint_shown;
        self.fault_hint_shown = any;
        r
    }

    /// The frames of a period. Until all joints were read once, only the commanded
    /// pose is shown. Of the measured pose, joints and attitude are measured; the
    /// position is the gait's.
    pub fn frames(
        &self,
        version: u32,
        seq: u64,
        t_s: Double,
        targets: &JointVec,
        body: &BodyView,
        measured: &JointVec,
        attitude: (Double, Double, Double),
    ) -> (r: Frames)
        ensures
            r.planned matches Some(f) && f.shows(version, seq, t_s, *targets, *body),
            self.measured_seen ==> (r.measured matches Some(f) && f.shows(
                version,
                seq,
                t_s,
                *measured,
                BodyView { roll: attitude.0, pitch: attitude.1, yaw: attitude.2, ..*body },
            )),
            !self.measured_seen ==> r.measured is None,
    {
        let planned = frame(version, seq, t_s, targets, body);
        if !self.measured_seen {
            return Frames::planned(planned);
        }
        let mut seen = *body;
        seen.roll = attitude.0;
        seen.pitch = attitude.1;
        seen.yaw = attitude.2;
        Frames::both(planned, frame(version, seq, t_s, measured, &seen))
    }

    /// Looks whether all joints were read once.
    pub fn look_for_readings(&mut self, states: &PerLeg<PerJoint<JointState>>)
        ensures
            *final(self) == (Loop {
                measured_seen: old(self).measured_seen || forall|leg: LegSlot, k: int|
                    0 <= k < 3 ==> (#[trigger] states.of(leg).at(k)).ok,
                ..*old(self)
            }),
    {
        if !self.measured_seen {
            self.measured_seen = crate::hal::legs::all_ok(states);
        }
    }
}

/// The motors are switched on an edge only: once a switch was sent, the same mode asks
/// for no other, and the next comes when the legs are driven again or no longer.
pub proof fn law_motors_switch_on_the_edge(l: Loop, mode: JointMode, next: JointMode)
    ensures
        l.switching(mode) is Some ==> l.after_switch().switching(mode) is None,
        l.switching(mode) is None ==> (l.switching(next) is Some <==> (next is Idle) != (mode is Idle)),
        l.switching(mode) is Some ==> (l.after_switch().switching(next) is Some <==> (next is Idle)
            != (mode is Idle)),
        l.switching(mode) matches Some(request) ==> request == (if mode is Idle {
            BusRequest::Disable
        } else {
            BusRequest::Enable
        }),
{
}

/// The command of a period. A link that is lost keeps what was asked for; a bench
/// without a receiver stands. The two must not be mixed up.
pub fn command_of(teleop: &mut Teleop, sbus: &SbusState, opts: &RunOptions, timeout: u64, now: u64) -> (r:
    OperatorCommand)
    ensures
        ({
            let usable = sbus.usable(timeout, now);
            if !usable && opts.allow_no_sbus {
                r == OperatorCommand::safe(
                    old(teleop).last_gait,
                    crate::control::teleop::ModeRequest::Stand,
                ) && *final(teleop) == *old(teleop)
            } else if usable {
                r == old(teleop).command(sbus.channels@) && *final(teleop) == (Teleop {
                    prev_pose_on: old(teleop).cfg.pose.at(sbus.channels@) > 0,
                    last_gait: r.gait,
                    last_mode: r.mode,
                    ..*old(teleop)
                })
            } else {
                r == OperatorCommand::safe(old(teleop).last_gait, old(teleop).last_mode)
                    && *final(teleop) == (Teleop { prev_pose_on: true, ..*old(teleop) })
            }
        }),
{
    let usable: bool = sbus.is_usable(timeout, now);
    if !usable && opts.allow_no_sbus { teleop.bench_stand() } else { teleop.update(sbus, usable) }
}

/// The hotter of two joints, of those that were read.
pub open spec fn hotter(so_far: Double, status: JointStatus) -> Double {
    if status.valid { so_far.max(status.temperature_c) } else { so_far }
}

pub open spec fn hottest_of_leg(so_far: Double, status: PerJoint<JointStatus>) -> Double {
    hotter(hotter(hotter(so_far, status.hip), status.thigh), status.calf)
}

/// The temperature of the hottest joint; negative infinity if none was read.
pub open spec fn hottest_of(status: PerLeg<PerJoint<JointStatus>>) -> Double {
    hottest_of_leg(
        hottest_of_leg(
            hottest_of_leg(hottest_of_leg(double(LOWEST), status.fl), status.fr),
            status.rl,
        ),
        status.rr,
    )
}

fn hotter_of(so_far: Double, status: &PerJoint<JointStatus>) -> (r: Double)
    ensures
        r == hottest_of_leg(so_far, *status),
{
    let mut r = so_far;
    if status.hip.valid {
        r = r.max(status.hip.temperature_c);
    }
    if status.thigh.valid {
        r = r.max(status.thigh.temperature_c);
    }
    if status.calf.valid {
        r = r.max(status.calf.temperature_c);
    }
    r
}

/// The temperature of the hottest joint; `None` if none is known. Twelve of them
/// would not be read.
pub fn hottest(status: &PerLeg<PerJoint<JointStatus>>) -> (r: Option<Double>)
    ensures
        r == (if hottest_of(*status).finite() { Some(hottest_of(*status)) } else { None }),
{
    let t = hotter_of(
        hotter_of(hotter_of(hotter_of(double(LOWEST), &status.fl), &status.fr), &status.rl),
        &status.rr,
    );
    if t.is_finite() { Some(t) } else { None }
}

/// The failed transactions of all buses.
pub fn total_errors(stats: &PerLeg<BusStats>) -> (r: u64)
    ensures
        r == stats.fl.errors.wrapping_add(stats.fr.errors).wrapping_add(
            stats.rl.errors,
        ).wrapping_add(stats.rr.errors),
{
    stats.fl.errors.wrapping_add(stats.fr.errors).wrapping_add(stats.rl.errors).wrapping_add(
        stats.rr.errors,
    )
}

/// The numbers of the status, in decimal.
#[derive(Debug, Clone)]
pub struct StatusNumbers {
    pub vx: String,
    pub vy: String,
    pub wz: String,
    /// The rates of the buses.
    pub rates: PerLegText,
    pub hottest: Option<String>,
    pub imu_rate: String,
    pub overrun_ms: String,
}

/// One text for each leg.
#[derive(Debug, Clone)]
pub struct PerLegText {
    pub fl: String,
    pub fr: String,
    pub rl: String,
    pub rr: String,
}

/// The rates of the buses on one line.
pub open spec fn rates_text(rates: PerLegText) -> Seq<char> {
    "FL:"@ + rates.fl@ + "Hz FR:"@ + rates.fr@ + "Hz RL:"@ + rates.rl@ + "Hz RR:"@ + rates.rr@
        + "Hz"@
}

/// The status of the loop on one line.
pub open spec fn status_text(
    state: State,
    gait: GaitSelect,
    n: StatusNumbers,
    errors: u64,
    frames: u64,
    desync: u64,
    ticks: u64,
    tracking: Seq<char>,
) -> Seq<char> {
    "["@ + state.name() + "] "@ + gait.name() + " v=("@ + n.vx@ + ","@ + n.vy@ + ","@ + n.wz@
        + ") 脚["@ + rates_text(n.rates) + "] err="@ + decimal(errors as nat) + " 最高温"@ + (
    match n.hottest {
        Some(t) => t@ + "°C"@,
        None => "-"@,
    }) + " IMU "@ + n.imu_rate@ + "Hz S.BUS "@ + decimal(frames as nat) + "f/"@ + decimal(
        desync as nat,
    ) + "desync tick="@ + decimal(ticks as nat) + " 遅延最大="@ + n.overrun_ms@ + "ms 追従最大="@
        + tracking
}

pub fn status_line(
    state: State,
    gait: GaitSelect,
    n: &StatusNumbers,
    errors: u64,
    frames: u64,
    desync: u64,
    ticks: u64,
    tracking: &str,
) -> (r: String)
    ensures
        r@ == status_text(state, gait, *n, errors, frames, desync, ticks, tracking@),
{
    let rates = "FL:".to_owned().concat(n.rates.fl.as_str()).concat("Hz FR:").concat(
        n.rates.fr.as_str(),
    ).concat("Hz RL:").concat(n.rates.rl.as_str()).concat("Hz RR:").concat(
        n.rates.rr.as_str(),
    ).concat("Hz");
    let hot = match &n.hottest {
        Some(t) => t.clone().concat("°C"),
        None => "-".to_owned(),
    };
    "[".to_owned().concat(state.label()).concat("] ").concat(gait.label()).concat(" v=(").concat(
        n.vx.as_str(),
    ).concat(",").concat(n.vy.as_str()).concat(",").concat(n.wz.as_str()).concat(") 脚[").concat(
        rates.as_str(),
    ).concat("] err=").concat(decimal_text(errors).as_str()).concat(" 最高温").concat(
        hot.as_str(),
    ).concat(" IMU ").concat(n.imu_rate.as_str()).concat("Hz S.BUS ").concat(
        decimal_text(frames).as_str(),
    ).concat("f/").concat(decimal_text(desync).as_str()).concat("desync tick=").concat(
        decimal_text(ticks).as_str(),
    ).concat(" 遅延最大=").concat(n.overrun_ms.as_str()).concat("ms 追従最大=").concat(tracking)
}

/// One fault on one line; voltage and temperature come in decimal.
pub fn fault_line(leg: LegSlot, k: usize, status: &JointStatus, volts: &str, celsius: &str) -> (r:
    String)
    requires
        k < 3,
        status.is_faulted(),
    ensures
        r@ == "  異常: "@ + leg.name() + " "@ + LEG_JOINT_KINDS[k as int]@ + " **"@ + joined(
            error_names(status.error_raw),
            " + "@,
        ) + "**（0x"@ + hex(status.error_raw) + "）"@ + volts@ + " V / "@ + celsius@ + " °C"@,
{
    "  異常: ".to_owned().concat(leg.prefix()).concat(" ").concat(LEG_JOINT_KINDS[k]).concat(
        " **",
    ).concat(status.describe().as_str()).concat("**（0x").concat(
        hex_text(status.error_raw).as_str(),
    ).concat("）").concat(volts).concat(" V / ").concat(celsius).concat(" °C")
}

/// Each joint is sent its own target, in the mode and at the speed that were asked for.
pub proof fn law_each_joint_is_sent_its_own_target(
    targets: PerJoint<Double>,
    mode: JointMode,
    speed: Double,
    k: int,
)
    requires
        0 <= k < 3,
    ensures
        ({
            let order = leg_orders(targets, mode, speed).at(k);
            &&& order.mode == mode
            &&& order.position_rad == targets.at(k)
            &&& order.max_speed_rad_s == speed
            &&& order.torque_nm == double(0)
        }),
{
}

/// What a joint's tracking error is: the distance of its angle from its target.
pub open spec fn distance(targets: JointVec, measured: JointVec, leg: LegSlot, k: int) -> Double {
    targets.legs.of(leg).at(k).minus(measured.legs.of(leg).at(k)).abs()
}

/// The largest error that is shown is one that was seen, of the joint that it names, and
/// no joint's error is larger.
pub proof fn law_the_largest_error_is_shown(
    worst: (Double, Option<(LegSlot, usize)>),
    targets: JointVec,
    measured: JointVec,
    leg: LegSlot,
    k: usize,
)
    requires
        k < 3,
        !worst.0.nan(),
    ensures
        ({
            let r = worst_after(worst, targets, measured, 12);
            &&& !distance(targets, measured, leg, k as int).nan() ==> distance(
                targets,
                measured,
                leg,
                k as int,
            ).is_at_most(r.0)
            &&& worst.0.is_at_most(r.0)
            &&& r == worst || (r.1 matches Some((l, j)) && j < 3 && r.0 == distance(
                targets,
                measured,
                l,
                j as int,
            ) && worst.0.is_below(r.0))
        }),
{
    lemma_worst_after(worst, targets, measured, 12);
    let n = 3 * leg.place() + k;
    assert(leg_at(n as int) == leg && n as int % 3 == k);
    assert(error_at(targets, measured, n as int) == distance(targets, measured, leg, k as int));
}

proof fn lemma_worst_after(
    worst: (Double, Option<(LegSlot, usize)>),
    targets: JointVec,
    measured: JointVec,
    n: nat,
)
    requires
        n <= 12,
        !worst.0.nan(),
    ensures
        ({
            let r = worst_after(worst, targets, measured, n);
            &&& !r.0.nan()
            &&& forall|i: int|
                0 <= i < n && !(#[trigger] error_at(targets, measured, i)).nan() ==> error_at(
                    targets,
                    measured,
                    i,
                ).is_at_most(r.0)
            &&& worst.0.is_at_most(r.0)
            &&& r == worst || (r.1 matches Some((l, j)) && j < 3 && r.0 == distance(
                targets,
                measured,
                l,
                j as int,
            ) && worst.0.is_below(r.0))
        }),
    decreases n,
{
    if n > 0 {
        lemma_worst_after(worst, targets, measured, (n - 1) as nat);
    }
}

/// Whether a joint is out of its range, below or above.
pub open spec fn is_out(limits: PerLeg<PerJoint<(Double, Double)>>, measured: JointVec, leg: LegSlot, k: int)
    -> bool {
    let angle = measured.legs.of(leg).at(k);
    let (low, high) = limits.of(leg).at(k);
    angle.is_below(low) || high.is_below(angle)
}

/// The joints that are told to be out of range are exactly those that are, each with its
/// angle and its range.
pub proof fn law_every_joint_out_of_range_is_told(
    limits: PerLeg<PerJoint<(Double, Double)>>,
    measured: JointVec,
    leg: LegSlot,
    k: usize,
)
    requires
        k < 3,
    ensures
        ({
            let out = excursions(limits, measured, 12);
            let (low, high) = limits.of(leg).at(k as int);
            let own = Excursion {
                leg,
                place: k,
                angle: measured.legs.of(leg).at(k as int),
                min_rad: low,
                max_rad: high,
            };
            &&& is_out(limits, measured, leg, k as int) <==> out.contains(own)
            &&& forall|i: int|
                0 <= i < out.len() ==> {
                    let x = #[trigger] out[i];
                    &&& x.place < 3
                    &&& is_out(limits, measured, x.leg, x.place as int)
                    &&& x.angle == measured.legs.of(x.leg).at(x.place as int)
                    &&& (x.min_rad, x.max_rad) == limits.of(x.leg).at(x.place as int)
                }
        }),
{
    lemma_excursions(limits, measured, 12);
    let n = 3 * leg.place() + k;
    assert(leg_at(n as int) == leg && n as int % 3 == k);
    let out = excursions(limits, measured, 12);
    if is_out(limits, measured, leg, k as int) {
        assert(is_out(limits, measured, leg_at(n as int), n as int % 3));
        let m = choose|m: int|
            0 <= m < out.len() && (#[trigger] out[m]).leg == leg_at(n as int) && out[m].place == n
                as int % 3;
        assert(out[m].leg == leg);
    }
}

proof fn lemma_excursions(limits: PerLeg<PerJoint<(Double, Double)>>, measured: JointVec, n: nat)
    requires
        n <= 12,
    ensures
        ({
            let out = excursions(limits, measured, n);
            &&& forall|i: int|
                0 <= i < n && #[trigger] is_out(limits, measured, leg_at(i), i % 3) ==> exists|m: int|
                    0 <= m < out.len() && (#[trigger] out[m]).leg == leg_at(i) && out[m].place == i % 3
            &&& forall|i: int|
                0 <= i < out.len() ==> {
                    let x = #[trigger] out[i];
                    &&& x.place < 3
                    &&& is_out(limits, measured, x.leg, x.place as int)
                    &&& x.angle == measured.legs.of(x.leg).at(x.place as int)
                    &&& (x.min_rad, x.max_rad) == limits.of(x.leg).at(x.place as int)
                }
        }),
    decreases n,
{
    if n > 0 {
        lemma_excursions(limits, measured, (n - 1) as nat);
        let before = excursions(limits, measured, (n - 1) as nat);
        let out = excursions(limits, measured, n);
        assert forall|i: int|
            0 <= i < n && #[trigger] is_out(limits, measured, leg_at(i), i % 3) implies exists|m: int|
            0 <= m < out.len() && (#[trigger] out[m]).leg == leg_at(i) && out[m].place == i % 3 by {
            if i < n - 1 {
                let m = choose|m: int|
                    0 <= m < before.len() && (#[trigger] before[m]).leg == leg_at(i)
                        && before[m].place == i % 3;
                assert(out[m] == before[m]);
            } else {
                assert(out[before.len() as int].leg == leg_at(i));
            }
        }
        assert forall|i: int| 0 <= i < out.len() implies {
            let x = #[trigger] out[i];
            &&& x.place < 3
            &&& is_out(limits, measured, x.leg, x.place as int)
            &&& x.angle == measured.legs.of(x.leg).at(x.place as int)
            &&& (x.min_rad, x.max_rad) == limits.of(x.leg).at(x.place as int)
        } by {
            if i < before.len() {
                assert(out[i] == before[i]);
            }
        }
    }
}

/// The range of a joint is that of the motor that drives it.
pub proof fn law_a_joint_has_its_motors_range(hw: HardwareConfig, leg: LegSlot, i: int, k: int)
    requires
        hw.first_bus_of(leg, i),
        0 <= k < hw.legs.bus[i].motors.len(),
    ensures
        limit_of(hw, leg, k) == (hw.legs.bus[i].motors[k].min_rad, hw.legs.bus[i].motors[k].max_rad),
{
    let j = choose|j: int| hw.first_bus_of(leg, j);
    crate::control::calib::lemma_one_first_bus(hw, leg, i, j);
}

/// The hottest joint is as hot as any that was read, and was read.
pub proof fn law_the_hottest_joint_is_the_hottest(
    status: PerLeg<PerJoint<JointStatus>>,
    leg: LegSlot,
    k: int,
)
    requires
        0 <= k < 3,
        status.of(leg).at(k).valid,
        status.of(leg).at(k).temperature_c.finite(),
        forall|l: LegSlot, j: int|
            0 <= j < 3 ==> !(#[trigger] status.of(l).at(j)).temperature_c.nan(),
    ensures
        status.of(leg).at(k).temperature_c.is_at_most(hottest_of(status)),
        exists|l: LegSlot, j: int|
            0 <= j < 3 && (#[trigger] status.of(l).at(j)).valid && status.of(l).at(j).temperature_c
                == hottest_of(status),
{
    let low = double(LOWEST);
    lemma_hottest_of_leg(low, status.fl);
    let a = hottest_of_leg(low, status.fl);
    assert(status.of(LegSlot::Fl) == status.fl && status.of(LegSlot::Fr) == status.fr);
    assert(status.of(LegSlot::Rl) == status.rl && status.of(LegSlot::Rr) == status.rr);
    lemma_three_are_numbers(status, LegSlot::Fl);
    lemma_three_are_numbers(status, LegSlot::Fr);
    lemma_three_are_numbers(status, LegSlot::Rl);
    lemma_three_are_numbers(status, LegSlot::Rr);
    lemma_hottest_of_leg(a, status.fr);
    let b = hottest_of_leg(a, status.fr);
    lemma_hottest_of_leg(b, status.rl);
    let c = hottest_of_leg(b, status.rl);
    lemma_hottest_of_leg(c, status.rr);
    let t = status.of(leg).at(k).temperature_c;
    crate::rounding::lemma_scale_orders(t.magnitude(), INFINITE as nat);
    crate::double::lemma_scale_of_zero();
    crate::rounding::lemma_scale_orders(0, INFINITE as nat);
    assert(low.is_below(t));
}

proof fn lemma_three_are_numbers(status: PerLeg<PerJoint<JointStatus>>, leg: LegSlot)
    requires
        forall|l: LegSlot, j: int|
            0 <= j < 3 ==> !(#[trigger] status.of(l).at(j)).temperature_c.nan(),
    ensures
        !status.of(leg).hip.temperature_c.nan(),
        !status.of(leg).thigh.temperature_c.nan(),
        !status.of(leg).calf.temperature_c.nan(),
{
    assert(!status.of(leg).at(0).temperature_c.nan());
    assert(!status.of(leg).at(1).temperature_c.nan());
    assert(!status.of(leg).at(2).temperature_c.nan());
}

proof fn lemma_hottest_of_leg(so_far: Double, status: PerJoint<JointStatus>)
    ensures
        !so_far.nan() && !status.hip.temperature_c.nan() && !status.thigh.temperature_c.nan()
            && !status.calf.temperature_c.nan() ==> {
            let r = hottest_of_leg(so_far, status);
            &&& !r.nan()
            &&& so_far.is_at_most(r)
            &&& forall|k: int|
                0 <= k < 3 && (#[trigger] status.at(k)).valid ==> status.at(k).temperature_c.is_at_most(r)
            &&& r == so_far || exists|k: int|
                0 <= k < 3 && (#[trigger] status.at(k)).valid && status.at(k).temperature_c == r
        },
{
    assert(status.at(0) == status.hip);
    assert(status.at(1) == status.thigh);
    assert(status.at(2) == status.calf);
}

/// The start passes everything in its order: the receiver, the sensor, the frames unless
/// they are skipped, the first reading, and at last the mode switch. Without a receiver
/// only a bench starts, and a missing sensor stops nothing.
pub proof fn law_the_start_passes_every_hurdle(opts: RunOptions, error: Seq<char>)
    ensures
        next_hurdle(Hurdle::Sbus, opts) is Imu,
        next_hurdle(Hurdle::Imu, opts) is Anchored <==> !opts.skip_zero,
        next_hurdle(Hurdle::Imu, opts) is FirstRead <==> opts.skip_zero,
        next_hurdle(Hurdle::Anchored, opts) is FirstRead,
        next_hurdle(Hurdle::FirstRead, opts) is ModeSwitch,
        hurdle_complaint(Hurdle::Sbus, opts, error) is Some <==> !opts.allow_no_sbus,
        hurdle_complaint(Hurdle::Imu, opts, error) is None,
        hurdle_complaint(Hurdle::Anchored, opts, error) is Some,
        hurdle_complaint(Hurdle::FirstRead, opts, error) is Some,
{
}

} // verus!
