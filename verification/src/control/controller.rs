//! The machine that moves the robot from mode to mode.
//!
//! ```text
//!   Relaxed --(stand or walk)--> GoingToStart --> HoldingStart
//!      ^                              |   ^            | (walk)
//!      |                              v   |            v
//!   (relax, from anywhere)            GoingToStance --> Active <--> PlayingPose
//! ```
//!
//! One period is one tick. What the gait and the interpolation compute is left to
//! the caller: a tick asks for it ([`Controller::begin`]) and goes on with the
//! answer ([`Controller::resume`]), until it is done. Standing still and walking
//! are one state, since a gait without speed stands with its feet on the ground.
use vstd::prelude::*;
use vstd::string::*;

use crate::control::chicken::ChickenHead;
use crate::control::config::{AppConfig, GaitTuning};
use crate::control::jointvec::JointVec;
use crate::control::pose::{overlaid, overlay, Interpolation, Play, PoseLibrary, PosePlayer, Query};
use crate::control::robot::{
    build_gait, cycle_of, gait_mode_of, gait_supports_body_height, model_joints, output_to_joints,
    pattern_of, planner_of, velocity_cmd, GaitPlan, VelocityCmd,
};
use crate::control::teleop::{GaitSelect, ModeRequest, OperatorCommand};
use crate::control::viz::BodyView;
use crate::double::{double, Double};
use crate::hal::joint::{JointMode, PerJoint, PerLeg};

verus! {

/// The speed at which the robot creeps until all feet are down, as bits: 1 mm/s.
pub const CREEP_M_S: u64 = 0x3f50_624d_d2f1_a9fc;

/// How long it creeps at most, as bits: 2 s.
pub const SETTLE_TIMEOUT_S: u64 = 0x4000_0000_0000_0000;

/// Where the machine stands.
#[derive(Debug, Clone, Copy, PartialEq, Eq, Structural)]
pub enum State {
    /// Limp. The motors are read, not driven.
    Relaxed,
    /// On the way to the start pose.
    GoingToStart,
    /// Holding the start pose, powered.
    HoldingStart,
    /// On the way to the gait's stance.
    GoingToStance,
    /// The gait runs; without speed it stands.
    Active,
    /// A pose or sequence is played.
    PlayingPose,
}

impl State {
    pub open spec fn name(self) -> Seq<char> {
        match self {
            State::Relaxed => "脱力"@,
            State::GoingToStart => "初期姿勢へ"@,
            State::HoldingStart => "初期姿勢"@,
            State::GoingToStance => "立ち姿勢へ"@,
            State::Active => "歩容"@,
            State::PlayingPose => "ポーズ再生"@,
        }
    }

    pub fn label(self) -> (r: &'static str)
        ensures
            r@ == self.name(),
    {
        match self {
            State::Relaxed => "脱力",
            State::GoingToStart => "初期姿勢へ",
            State::HoldingStart => "初期姿勢",
            State::GoingToStance => "立ち姿勢へ",
            State::Active => "歩容",
            State::PlayingPose => "ポーズ再生",
        }
    }
}

/// What one period puts out.
#[derive(Debug, Clone, Copy, PartialEq, Eq, Structural)]
pub struct ControlOutput {
    /// The target angles in the model's frame (rad).
    pub targets: JointVec,
    /// How the leg joints are driven: idle while limp.
    pub leg_mode: JointMode,
    pub state: State,
}

/// What one period takes in.
#[derive(Debug, Clone, Copy, PartialEq, Eq, Structural)]
pub struct Tick {
    pub cmd: OperatorCommand,
    /// The angles that the joints have.
    pub measured: JointVec,
    /// The body's roll and pitch (rad).
    pub roll: Double,
    pub pitch: Double,
    pub dt: Double,
}

/// What a tick asks for.
#[derive(Debug, Clone, Copy, PartialEq, Eq, Structural)]
pub enum Ask {
    /// Build the gait anew.
    Build(GaitPlan),
    /// Set the body's height, stop, and let no time pass: the gait's stance.
    Stance { height_m: Double },
    /// Start the gait's phase over.
    Reset,
    /// Set height and speed, tell the body's roll and pitch, and let time pass.
    Walk { height_m: Double, velocity: VelocityCmd, roll: Double, pitch: Double, dt: Double },
    /// Evaluate a transition.
    Transition(Query),
    /// Nothing: the tick is over.
    Done(ControlOutput),
}

/// What the gait put out.
#[derive(Debug, Clone)]
pub struct GaitReport {
    /// The joint angles by name, in the gait's signs.
    pub targets: Vec<(String, Double)>,
    /// Where the gait believes the body is.
    pub x: Double,
    pub y: Double,
    pub yaw: Double,
    /// Which feet are on the ground.
    pub stance: PerLeg<bool>,
}

/// An answer.
#[derive(Debug, Clone)]
pub enum Answer {
    /// It is done.
    Done,
    Gait(GaitReport),
    /// The angles of a transition, and whether it has ended.
    Angles { angles: Vec<Double>, ended: bool },
}

/// What a tick waits for.
#[derive(Debug, Clone, Copy, PartialEq, Eq, Structural)]
pub enum Waiting {
    Nothing,
    Built,
    /// The stance that stands in for a start pose that the model lacks.
    StanceForStart,
    /// The stance to go to.
    StanceToGoTo,
    Reset,
    Walked,
    Evaluated,
}

/// What the operator should be told.
#[derive(Debug, Clone, Copy, PartialEq, Eq, Structural)]
pub struct Warnings {
    /// The model lacks the start pose.
    pub start_pose_missing: bool,
    /// The gait does not take a change of height while it runs.
    pub height_ignored: bool,
    /// The arm cannot be driven, so the chicken head does nothing.
    pub chicken_head_ignored: bool,
    /// The pose to play cannot be played.
    pub pose_refused: bool,
}

impl Warnings {
    pub open spec fn none() -> Warnings {
        Warnings {
            start_pose_missing: false,
            height_ignored: false,
            chicken_head_ignored: false,
            pose_refused: false,
        }
    }
}

/// What the machine remembers from tick to tick.
#[derive(Debug, Clone, Copy, PartialEq, Eq, Structural)]
pub struct Core {
    pub gait_select: GaitSelect,
    pub state: State,
    /// The last targets, where the next transition starts.
    pub targets: JointVec,
    pub chicken: ChickenHead,
    /// Whether the last tick changed the state.
    pub just_changed: bool,
    pub warned_chicken_head: bool,
    pub warned_body_height: bool,
    /// The speed after the ramp.
    pub ramped: VelocityCmd,
    /// How long the robot has crept, waiting for its feet (s).
    pub settling_s: Double,
    /// Where the gait last put the body.
    pub body_view: BodyView,
    pub warnings: Warnings,
    /// The tick in progress.
    pub tick: Tick,
    pub before: State,
    /// The speed of the step that was decided on.
    pub speed: VelocityCmd,
    pub waiting: Waiting,
}

/// What never changes.
#[derive(Debug, Clone)]
pub struct Setup {
    pub poses: PoseLibrary,
    /// From the gait's signs to the model's.
    pub signs: PerLeg<PerJoint<Double>>,
    pub start_pose: String,
    pub greeting: String,
    pub greeting_alt: String,
    pub transition_s: Double,
    pub gait: GaitTuning,
    /// Whether the arm follows commands. If not, its target is what was observed:
    /// the commanded angle would say nothing about where the arm is.
    pub arm_app_driven: bool,
}

/// The machine.
#[derive(Debug, Clone)]
pub struct Controller {
    pub setup: Setup,
    pub core: Core,
    pub player: Option<PosePlayer>,
}

/// A [`Controller`] with its play as a view.
pub ghost struct Mind {
    pub core: Core,
    pub play: Option<Play>,
}

impl Setup {
    /// A smooth transition over the configured time.
    pub open spec fn glide(self, from: JointVec, to: JointVec) -> Play {
        Play::transition(from, to, self.transition_s, Interpolation::QuinticSmooth)
    }

    /// The start pose laid over the given angles.
    pub open spec fn start_from(self, current: JointVec) -> Option<JointVec> {
        match self.poses.find_pose(self.start_pose@) {
            Some(pose) => Some(overlaid(pose.angles@, current)),
            None => None,
        }
    }

    /// The name of the greeting to play.
    pub open spec fn greeting_name(self, alt: bool) -> Seq<char> {
        if alt && self.greeting_alt@.len() > 0 { self.greeting_alt@ } else { self.greeting@ }
    }

    /// The name of the greeting to play; the other one only if it has a name.
    pub fn greeting(&self, alt: bool) -> (r: &str)
        ensures
            r@ == self.greeting_name(alt),
    {
        if alt && self.greeting_alt.as_str().unicode_len() > 0 {
            self.greeting_alt.as_str()
        } else {
            self.greeting.as_str()
        }
    }

    /// The play of the greeting, where the model has it.
    pub open spec fn greeting_play(self, alt: bool, from: JointVec) -> Option<Play> {
        match self.poses.planned(self.greeting_name(alt), from) {
            Some(steps) => Some(Play::fresh(steps, from)),
            None => None,
        }
    }

    /// What the gait is built with.
    pub open spec fn gait_plan(self, select: GaitSelect) -> GaitPlan {
        GaitPlan {
            gait: pattern_of(select),
            mode: planner_of(select, self.gait.crawl_use_linear),
            swing_height_m: self.gait.swing_height_m,
            cycle_s: cycle_of(self.gait, select),
            stance_height_m: self.gait.stance_height_m,
            foot_z_m: self.gait.stance_height_m.neg(),
        }
    }
}

/// The tick is over: a wish to go limp counts from any state.
#[verifier::opaque]
pub open spec fn finished(m: Mind) -> Mind {
    let relaxed = if m.core.tick.cmd.mode is Relax && !(m.core.state is Relaxed) {
        Mind {
            core: Core {
                state: State::Relaxed,
                chicken: m.core.chicken.at_base(),
                ramped: VelocityCmd::still(),
                ..m.core
            },
            play: None,
        }
    } else {
        m
    };
    Mind {
        core: Core {
            just_changed: m.core.before != relaxed.core.state,
            waiting: Waiting::Nothing,
            ..relaxed.core
        },
        ..relaxed
    }
}

/// The tick waits.
pub open spec fn waits_for(m: Mind, waiting: Waiting) -> Mind {
    Mind { core: Core { waiting, ..m.core }, ..m }
}

/// A transition begins that leads to a state.
#[verifier::opaque]
pub open spec fn sets_out(m: Mind, play: Play, state: State) -> Mind {
    finished(Mind { core: Core { state, ..m.core }, play: Some(play) })
}

/// The targets with the arm where it was observed, unless it can be driven.
pub open spec fn arm_observed(setup: Setup, core: Core) -> Core {
    match core.tick.cmd.arm_rad {
        Some(arm) => if setup.arm_app_driven {
            core
        } else {
            Core { targets: JointVec { arm, ..core.targets }, ..core }
        },
        None => core,
    }
}

/// A warning is added.
pub open spec fn start_pose_missed(m: Mind) -> Mind {
    Mind {
        core: Core {
            warnings: Warnings { start_pose_missing: true, ..m.core.warnings },
            ..m.core
        },
        ..m
    }
}

/// A tick while limp: the targets follow the joints, so that rising starts where
/// they are.
#[verifier::opaque]
pub open spec fn runs_relaxed(setup: Setup, m: Mind) -> Mind {
    let measured = m.core.tick.measured;
    let held = Mind { core: Core { targets: measured, ..m.core }, ..m };
    if m.core.tick.cmd.mode is Relax {
        finished(held)
    } else {
        match setup.start_from(measured) {
            Some(start) => sets_out(held, setup.glide(measured, start), State::GoingToStart),
            None => waits_for(start_pose_missed(held), Waiting::StanceForStart),
        }
    }
}

/// A tick of a transition or a play.
#[verifier::opaque]
pub open spec fn runs_play(setup: Setup, m: Mind) -> Mind {
    match m.play {
        Some(play) => Mind {
            core: Core { waiting: Waiting::Evaluated, ..m.core },
            play: Some(play.later(m.core.tick.dt)),
        },
        None => play_ticked(setup, m, true),
    }
}

/// The play has moved on by the tick; `done` says whether it is over.
#[verifier::opaque]
pub open spec fn play_ticked(setup: Setup, m: Mind, done: bool) -> Mind {
    match m.core.state {
        State::GoingToStart => if !done {
            finished(m)
        } else if m.core.tick.cmd.mode is Walk {
            waits_for(Mind { play: None, ..m }, Waiting::StanceToGoTo)
        } else {
            finished(Mind { core: Core { state: State::HoldingStart, ..m.core }, play: None })
        },
        State::PlayingPose => {
            let seen = Mind { core: arm_observed(setup, m.core), ..m };
            if done || m.core.tick.cmd.mode is Walk {
                waits_for(seen, Waiting::StanceToGoTo)
            } else {
                finished(seen)
            }
        },
        _ => if !done {
            finished(m)
        } else {
            waits_for(Mind { play: None, ..m }, Waiting::Reset)
        },
    }
}

/// A tick in the start pose: the targets stay.
pub open spec fn runs_holding(setup: Setup, m: Mind) -> Mind {
    let seen = Mind { core: arm_observed(setup, m.core), ..m };
    if m.core.tick.cmd.mode is Walk {
        waits_for(seen, Waiting::StanceToGoTo)
    } else {
        finished(seen)
    }
}

/// How far a speed may change in `dt`, at the rate that takes `full` in the ramp's
/// time.
pub open spec fn ramp_reach(full: Double, ramp_s: Double, dt: Double) -> Double {
    full.abs().over(ramp_s).times(dt)
}

/// A step of one speed toward another, within the reach of the ramp.
pub open spec fn ramp_step(full: Double, ramp_s: Double, dt: Double, want: Double, from: Double) -> Double {
    let step = ramp_reach(full, ramp_s, dt);
    from.plus(want.minus(from).clamp(step.neg(), step))
}

/// Whether the ramp is off in a tick of `dt`, or its reach is a number for each speed.
pub open spec fn ramp_bears(tuning: GaitTuning, dt: Double) -> bool {
    ||| tuning.velocity_ramp_s.at_most(double(0))
    ||| dt.at_most(double(0))
    ||| {
        &&& !ramp_reach(tuning.max_vx_m_s, tuning.velocity_ramp_s, dt).nan()
        &&& !ramp_reach(tuning.max_vy_m_s, tuning.velocity_ramp_s, dt).nan()
        &&& !ramp_reach(tuning.max_wz_rad_s, tuning.velocity_ramp_s, dt).nan()
    }
}

/// Whether the speeds can be ramped in ticks of `dt`.
pub fn can_ramp(tuning: &GaitTuning, dt: Double) -> (r: bool)
    ensures
        r == ramp_bears(*tuning, dt),
{
    let ramp_s = tuning.velocity_ramp_s;
    ramp_s.at_most(double(0)) || dt.at_most(double(0)) || !(tuning.max_vx_m_s.abs().over(ramp_s).times(
        dt,
    ).is_nan() || tuning.max_vy_m_s.abs().over(ramp_s).times(dt).is_nan()
        || tuning.max_wz_rad_s.abs().over(ramp_s).times(dt).is_nan())
}

/// Whether a speed is at most creeping.
pub open spec fn creeps(v: Double) -> bool {
    v.abs().at_most(double(CREEP_M_S))
}

/// The speed for the gait, and what the ramp remembers.
///
/// A gait that is handed zero speed with a foot in the air pulls the foot down at
/// once. So the robot creeps until all feet are down, and stops then.
#[verifier::opaque]
pub open spec fn ramps(setup: Setup, core: Core, want: VelocityCmd) -> (Core, VelocityCmd) {
    let tuning = setup.gait;
    let dt = core.tick.dt;
    if tuning.velocity_ramp_s.at_most(double(0)) || dt.at_most(double(0)) {
        (Core { ramped: want, ..core }, want)
    } else {
        let ramped = VelocityCmd {
            vx: ramp_step(tuning.max_vx_m_s, tuning.velocity_ramp_s, dt, want.vx, core.ramped.vx),
            vy: ramp_step(tuning.max_vy_m_s, tuning.velocity_ramp_s, dt, want.vy, core.ramped.vy),
            wz: ramp_step(tuning.max_wz_rad_s, tuning.velocity_ramp_s, dt, want.wz, core.ramped.wz),
        };
        let stopping = want.vx.equals(double(0)) && want.vy.equals(double(0)) && want.wz.equals(
            double(0),
        );
        let stance = core.body_view.stance;
        if stopping && creeps(ramped.vx) && creeps(ramped.vy) && creeps(ramped.wz) {
            if (stance.fl && stance.fr && stance.rl && stance.rr) || double(SETTLE_TIMEOUT_S).at_most(
                core.settling_s,
            ) {
                (
                    Core { ramped: VelocityCmd::still(), settling_s: double(0), ..core },
                    VelocityCmd::still(),
                )
            } else {
                (
                    Core { ramped, settling_s: core.settling_s.plus(dt), ..core },
                    VelocityCmd { vx: double(CREEP_M_S), vy: double(0), wz: double(0) },
                )
            }
        } else {
            (Core { ramped, settling_s: double(0), ..core }, ramped)
        }
    }
}

/// The speed that the operator wants.
pub open spec fn wanted(cmd: OperatorCommand) -> VelocityCmd {
    if cmd.mode is Walk {
        VelocityCmd { vx: cmd.vx_m_s, vy: cmd.vy_m_s, wz: cmd.wz_rad_s }
    } else {
        VelocityCmd::still()
    }
}

/// Whether the operator moves a height that the gait ignores, and was not told.
pub open spec fn height_is_news(setup: Setup, core: Core) -> bool {
    !core.tick.cmd.height_offset_m.equals(double(0)) && !core.warned_body_height && !(planner_of(
        core.gait_select,
        setup.gait.crawl_use_linear,
    ) is LinearCrawl)
}

/// The greeting is played; if it cannot be, the gait goes on.
#[verifier::opaque]
pub open spec fn greets(setup: Setup, m: Mind) -> Mind {
    match setup.greeting_play(m.core.tick.cmd.play_alt, m.core.targets) {
        Some(play) => finished(
            Mind { core: Core { state: State::PlayingPose, ..m.core }, play: Some(play) },
        ),
        None => finished(
            Mind {
                core: Core {
                    warnings: Warnings { pose_refused: true, ..m.core.warnings },
                    ..m.core
                },
                ..m
            },
        ),
    }
}

/// The way back to the start pose begins; without one, the robot stays.
#[verifier::opaque]
pub open spec fn heads_back(setup: Setup, m: Mind) -> Mind {
    match setup.start_from(m.core.targets) {
        Some(start) => sets_out(m, setup.glide(m.core.targets, start), State::GoingToStart),
        None => finished(start_pose_missed(m)),
    }
}

/// A step is decided on.
#[verifier::opaque]
pub open spec fn steps_on(setup: Setup, m: Mind) -> Mind {
    let news = height_is_news(setup, m.core);
    let told = Core {
        warned_body_height: m.core.warned_body_height || news,
        warnings: Warnings { height_ignored: news, ..m.core.warnings },
        ..m.core
    };
    let (core, speed) = ramps(setup, told, wanted(m.core.tick.cmd));
    waits_for(Mind { core: Core { speed, ..core }, ..m }, Waiting::Walked)
}

/// A tick of the gait: a pose, the way back to the start pose, or a step.
#[verifier::opaque]
pub open spec fn runs_active(setup: Setup, m: Mind) -> Mind {
    if m.core.tick.cmd.play_pose {
        greets(setup, m)
    } else if m.core.tick.cmd.mode is Stand {
        heads_back(setup, m)
    } else {
        steps_on(setup, m)
    }
}

/// A tick of the state of the moment.
#[verifier::opaque]
pub open spec fn runs(setup: Setup, m: Mind) -> Mind {
    match m.core.state {
        State::Relaxed => runs_relaxed(setup, m),
        State::GoingToStart => runs_play(setup, m),
        State::HoldingStart => runs_holding(setup, m),
        State::GoingToStance => runs_play(setup, m),
        State::Active => runs_active(setup, m),
        State::PlayingPose => runs_play(setup, m),
    }
}

/// A tick begins. Another gait is built first, but never while feet are stepping.
pub open spec fn starts(setup: Setup, m: Mind, tick: Tick) -> Mind {
    let core = Core {
        tick,
        before: m.core.state,
        warnings: Warnings::none(),
        waiting: Waiting::Nothing,
        ..m.core
    };
    if tick.cmd.gait != core.gait_select && !(core.state is Active) && !(core.state is PlayingPose) {
        Mind {
            core: Core {
                gait_select: tick.cmd.gait,
                warned_body_height: false,
                waiting: Waiting::Built,
                ..core
            },
            ..m
        }
    } else {
        runs(setup, Mind { core, ..m })
    }
}

/// The arm's target of a step, and what is remembered of it.
#[verifier::opaque]
pub open spec fn arm_aimed(setup: Setup, core: Core) -> (Core, Double) {
    let cmd = core.tick.cmd;
    if setup.arm_app_driven {
        let chicken = core.chicken.after(cmd.chicken_head, core.tick.pitch, core.tick.dt);
        (Core { chicken, ..core }, chicken.q)
    } else {
        let news = cmd.chicken_head && !core.warned_chicken_head;
        (
            Core {
                warned_chicken_head: core.warned_chicken_head || news,
                warnings: Warnings { chicken_head_ignored: news, ..core.warnings },
                ..core
            },
            match cmd.arm_rad {
                Some(arm) => arm,
                None => core.targets.arm,
            },
        )
    }
}

/// The gait has taken a step.
#[verifier::opaque]
pub open spec fn walked(setup: Setup, m: Mind, report: GaitReport) -> Mind {
    let (core, arm) = arm_aimed(setup, m.core);
    finished(
        Mind {
            core: Core {
                body_view: BodyView {
                    x: report.x,
                    y: report.y,
                    yaw: report.yaw,
                    z: setup.gait.stance_height_m.plus(core.tick.cmd.height_offset_m),
                    roll: double(0),
                    pitch: double(0),
                    stance: report.stance,
                },
                targets: model_joints(report.targets@, setup.signs, arm),
                ..core
            },
            ..m
        },
    )
}

/// A tick goes on with an answer. An answer to another question changes nothing.
pub open spec fn goes_on(setup: Setup, m: Mind, answer: Answer) -> Mind {
    match (m.core.waiting, answer) {
        (Waiting::Built, Answer::Done) => runs(setup, waits_for(m, Waiting::Nothing)),
        (Waiting::StanceForStart, Answer::Gait(report)) => sets_out(
            m,
            setup.glide(
                m.core.tick.measured,
                model_joints(report.targets@, setup.signs, m.core.targets.arm),
            ),
            State::GoingToStart,
        ),
        (Waiting::StanceToGoTo, Answer::Gait(report)) => sets_out(
            m,
            setup.glide(
                m.core.targets,
                model_joints(report.targets@, setup.signs, m.core.targets.arm),
            ),
            State::GoingToStance,
        ),
        (Waiting::Reset, Answer::Done) => finished(
            Mind { core: Core { state: State::Active, ..m.core }, ..m },
        ),
        (Waiting::Walked, Answer::Gait(report)) => walked(setup, m, report),
        (Waiting::Evaluated, Answer::Angles { angles, ended }) => match m.play {
            Some(play) => {
                let at = JointVec::unflat(angles@);
                let told = play.told(at, ended);
                let next = Mind { core: Core { targets: at, ..m.core }, play: Some(told) };
                if play.moves_on(ended) {
                    next
                } else {
                    play_ticked(setup, next, told.is_done())
                }
            },
            None => m,
        },
        _ => m,
    }
}

/// What a tick asks for.
pub open spec fn question(setup: Setup, m: Mind) -> Ask {
    match m.core.waiting {
        Waiting::Nothing => Ask::Done(
            ControlOutput {
                targets: m.core.targets,
                leg_mode: if m.core.state is Relaxed { JointMode::Idle } else { JointMode::Position },
                state: m.core.state,
            },
        ),
        Waiting::Built => Ask::Build(setup.gait_plan(m.core.gait_select)),
        Waiting::StanceForStart => Ask::Stance { height_m: setup.gait.stance_height_m },
        Waiting::StanceToGoTo => Ask::Stance { height_m: setup.gait.stance_height_m },
        Waiting::Reset => Ask::Reset,
        Waiting::Walked => Ask::Walk {
            height_m: setup.gait.stance_height_m.plus(m.core.tick.cmd.height_offset_m),
            velocity: m.core.speed,
            roll: m.core.tick.roll,
            pitch: m.core.tick.pitch,
            dt: m.core.tick.dt,
        },
        Waiting::Evaluated => Ask::Transition(m.play->Some_0.query()),
    }
}

impl View for Controller {
    type V = Mind;

    open spec fn view(&self) -> Mind {
        Mind {
            core: self.core,
            play: match self.player {
                Some(player) => Some(player@),
                None => None,
            },
        }
    }
}

/// What holds of the machine between any two calls.
pub open spec fn sound(m: Mind) -> bool {
    &&& m.play matches Some(play) ==> play.wf()
    &&& m.core.waiting is Evaluated ==> m.play is Some
    &&& m.core.waiting is Built ==> !(m.core.state is Active)
}

/// Whether a tick may be begun: if it takes a step, the ramp has a reach for it.
pub open spec fn may_begin(setup: Setup, m: Mind, tick: Tick) -> bool {
    m.core.state is Active && !tick.cmd.play_pose && !(tick.cmd.mode is Stand) ==> ramp_bears(
        setup.gait,
        tick.dt,
    )
}

/// The machine before its first tick.
pub open spec fn newborn(chicken: ChickenHead) -> Core {
    Core {
        gait_select: GaitSelect::Crawl,
        state: State::Relaxed,
        targets: JointVec::zero(),
        chicken,
        just_changed: false,
        warned_chicken_head: false,
        warned_body_height: false,
        ramped: VelocityCmd::still(),
        settling_s: double(0),
        body_view: BodyView::origin(),
        warnings: Warnings::none(),
        tick: Tick {
            cmd: OperatorCommand::safe(GaitSelect::Crawl, ModeRequest::Relax),
            measured: JointVec::zero(),
            roll: double(0),
            pitch: double(0),
            dt: double(0),
        },
        before: State::Relaxed,
        speed: VelocityCmd::still(),
        waiting: Waiting::Nothing,
    }
}

impl Controller {
    pub open spec fn wf(self) -> bool {
        sound(self@)
    }

    /// A machine whose arm is not driven by the program. The gait that it starts
    /// with comes beside it.
    pub fn new(poses: PoseLibrary, signs: PerLeg<PerJoint<Double>>, cfg: &AppConfig) -> (r: (
        Controller,
        GaitPlan,
    ))
        ensures
            r.0.is_new(poses, signs, *cfg, false),
            r.1 == r.0.setup.gait_plan(GaitSelect::Crawl),
            r.0.wf(),
    {
        Controller::with_arm(poses, signs, cfg, false)
    }

    /// Whether this is the machine of the given robot before its first tick.
    pub open spec fn is_new(
        self,
        poses: PoseLibrary,
        signs: PerLeg<PerJoint<Double>>,
        cfg: AppConfig,
        arm_app_driven: bool,
    ) -> bool {
        &&& self.setup.poses == poses
        &&& self.setup.signs == signs
        &&& self.setup.start_pose@ == cfg.control.start_pose@
        &&& self.setup.greeting@ == cfg.poses.greeting@
        &&& self.setup.greeting_alt@ == cfg.poses.greeting_alt@
        &&& self.setup.transition_s == cfg.control.transition_s
        &&& self.setup.gait == cfg.gait
        &&& self.setup.arm_app_driven == arm_app_driven
        &&& self@ == (Mind {
            core: newborn(
                ChickenHead::configured(
                    cfg.poses.chicken_head_base_rad,
                    cfg.poses.chicken_head_gain,
                    cfg.poses.chicken_head_tau_s,
                ),
            ),
            play: None,
        })
    }

    /// A machine; `arm_app_driven` says whether the arm follows commands.
    pub fn with_arm(
        poses: PoseLibrary,
        signs: PerLeg<PerJoint<Double>>,
        cfg: &AppConfig,
        arm_app_driven: bool,
    ) -> (r: (Controller, GaitPlan))
        ensures
            r.0.is_new(poses, signs, *cfg, arm_app_driven),
            r.1 == r.0.setup.gait_plan(GaitSelect::Crawl),
            r.0.wf(),
    {
        let still = velocity_cmd(double(0), double(0), double(0));
        let none = Warnings {
            start_pose_missing: false,
            height_ignored: false,
            chicken_head_ignored: false,
            pose_refused: false,
        };
        let core = Core {
            gait_select: GaitSelect::Crawl,
            state: State::Relaxed,
            targets: JointVec::zeros(),
            chicken: ChickenHead::new(&cfg.poses),
            just_changed: false,
            warned_chicken_head: false,
            warned_body_height: false,
            ramped: still,
            settling_s: double(0),
            body_view: BodyView::default(),
            warnings: none,
            tick: Tick {
                cmd: OperatorCommand::failsafe(GaitSelect::Crawl, ModeRequest::Relax),
                measured: JointVec::zeros(),
                roll: double(0),
                pitch: double(0),
                dt: double(0),
            },
            before: State::Relaxed,
            speed: still,
            waiting: Waiting::Nothing,
        };
        let setup = Setup {
            poses,
            signs,
            start_pose: cfg.control.start_pose.clone(),
            greeting: cfg.poses.greeting.clone(),
            greeting_alt: cfg.poses.greeting_alt.clone(),
            transition_s: cfg.control.transition_s,
            gait: cfg.gait,
            arm_app_driven,
        };
        let plan = build_gait(&setup.gait, GaitSelect::Crawl);
        (Controller { setup, core, player: None }, plan)
    }

    pub fn state(&self) -> (r: State)
        ensures
            r == self@.core.state,
    {
        self.core.state
    }

    pub fn gait_select(&self) -> (r: GaitSelect)
        ensures
            r == self@.core.gait_select,
    {
        self.core.gait_select
    }

    /// Whether the last tick changed the state.
    pub fn state_changed(&self) -> (r: bool)
        ensures
            r == self@.core.just_changed,
    {
        self.core.just_changed
    }

    /// Where the gait last put the body.
    pub fn body_view(&self) -> (r: BodyView)
        ensures
            r == self@.core.body_view,
    {
        self.core.body_view
    }

    /// The name of the step being played.
    pub fn playing(&self) -> (r: Option<&str>)
        requires
            self.wf(),
        ensures
            match (r, self@.play) {
                (Some(name), Some(play)) => name@ == play.steps[play.index as int].name,
                (None, None) => true,
                _ => false,
            },
    {
        match &self.player {
            Some(player) => Some(player.step_name()),
            None => None,
        }
    }

    /// Begins a tick.
    pub fn begin(&mut self, tick: Tick) -> (r: Ask)
        requires
            old(self).wf(),
            may_begin(old(self).setup, old(self)@, tick),
        ensures
            final(self).wf(),
            final(self).setup == old(self).setup,
            final(self)@ == starts(old(self).setup, old(self)@, tick),
            r == question(final(self).setup, final(self)@),
    {
        self.core.tick = tick;
        self.core.before = self.core.state;
        self.core.warnings = Warnings {
            start_pose_missing: false,
            height_ignored: false,
            chicken_head_ignored: false,
            pose_refused: false,
        };
        let stepping: bool = matches!(self.core.state, State::Active | State::PlayingPose);
        if tick.cmd.gait != self.core.gait_select && !stepping {
            self.core.gait_select = tick.cmd.gait;
            self.core.warned_body_height = false;
            self.core.waiting = Waiting::Built;
        } else {
            self.core.waiting = Waiting::Nothing;
            self.run();
        }
        self.ask()
    }

    /// Goes on with an answer.
    pub fn resume(&mut self, answer: Answer) -> (r: Ask)
        requires
            old(self).wf(),
        ensures
            final(self).wf(),
            final(self).setup == old(self).setup,
            final(self)@ == goes_on(old(self).setup, old(self)@, answer),
            r == question(final(self).setup, final(self)@),
    {
        let waiting = self.core.waiting;
        match (waiting, answer) {
            (Waiting::Built, Answer::Done) => {
                self.core.waiting = Waiting::Nothing;
                self.run();
            },
            (Waiting::StanceForStart, Answer::Gait(report)) => {
                let stance = output_to_joints(
                    &report.targets,
                    &self.setup.signs,
                    self.core.targets.arm,
                );
                let from = self.core.tick.measured;
                self.set_out(from, stance, State::GoingToStart);
            },
            (Waiting::StanceToGoTo, Answer::Gait(report)) => {
                let stance = output_to_joints(
                    &report.targets,
                    &self.setup.signs,
                    self.core.targets.arm,
                );
                let from = self.core.targets;
                self.set_out(from, stance, State::GoingToStance);
            },
            (Waiting::Reset, Answer::Done) => {
                self.core.state = State::Active;
                self.finish();
            },
            (Waiting::Walked, Answer::Gait(report)) => {
                self.walk_ends(report);
            },
            (Waiting::Evaluated, Answer::Angles { angles, ended }) => {
                self.hear(JointVec::from_slice(angles.as_slice()), ended);
            },
            _ => {},
        }
        self.ask()
    }

    fn ask(&self) -> (r: Ask)
        requires
            self.wf(),
        ensures
            r == question(self.setup, self@),
    {
        match self.core.waiting {
            Waiting::Nothing => Ask::Done(
                ControlOutput {
                    targets: self.core.targets,
                    leg_mode: if matches!(self.core.state, State::Relaxed) {
                        JointMode::Idle
                    } else {
                        JointMode::Position
                    },
                    state: self.core.state,
                },
            ),
            Waiting::Built => Ask::Build(build_gait(&self.setup.gait, self.core.gait_select)),
            Waiting::StanceForStart => Ask::Stance { height_m: self.setup.gait.stance_height_m },
            Waiting::StanceToGoTo => Ask::Stance { height_m: self.setup.gait.stance_height_m },
            Waiting::Reset => Ask::Reset,
            Waiting::Walked => Ask::Walk {
                height_m: self.setup.gait.stance_height_m.plus(self.core.tick.cmd.height_offset_m),
                velocity: self.core.speed,
                roll: self.core.tick.roll,
                pitch: self.core.tick.pitch,
                dt: self.core.tick.dt,
            },
            Waiting::Evaluated => match &self.player {
                Some(player) => Ask::Transition(player.ask()),
                None => Ask::Reset,
            },
        }
    }

    fn finish(&mut self)
        requires
            old(self)@.play matches Some(play) ==> play.wf(),
        ensures
            final(self).wf(),
            final(self).setup == old(self).setup,
            final(self)@ == finished(old(self)@),
    {
        proof {
            reveal(finished);
        }
        if self.core.tick.cmd.mode == ModeRequest::Relax && self.core.state != State::Relaxed {
            self.player = None;
            self.core.state = State::Relaxed;
            let mut chicken = self.core.chicken;
            chicken.reset();
            self.core.chicken = chicken;
            self.core.ramped = velocity_cmd(double(0), double(0), double(0));
        }
        self.core.just_changed = self.core.before != self.core.state;
        self.core.waiting = Waiting::Nothing;
    }

    fn set_out(&mut self, from: JointVec, to: JointVec, state: State)
        requires
            old(self).wf(),
        ensures
            final(self).wf(),
            final(self).setup == old(self).setup,
            final(self)@ == sets_out(old(self)@, old(self).setup.glide(from, to), state),
    {
        proof {
            reveal(sets_out);
        }
        self.player = Some(
            PosePlayer::to_pose(from, to, self.setup.transition_s, Interpolation::QuinticSmooth),
        );
        self.core.state = state;
        self.finish();
    }

    fn observe_arm(&mut self)
        requires
            old(self).wf(),
        ensures
            final(self).wf(),
            final(self).setup == old(self).setup,
            final(self)@ == (Mind { core: arm_observed(old(self).setup, old(self).core), ..old(self)@ }),
    {
        if !self.setup.arm_app_driven {
            if let Some(arm) = self.core.tick.cmd.arm_rad {
                let mut targets = self.core.targets;
                targets.arm = arm;
                self.core.targets = targets;
            }
        }
    }

    fn run(&mut self)
        requires
            old(self).wf(),
            may_begin(old(self).setup, old(self)@, old(self).core.tick),
        ensures
            final(self).wf(),
            final(self).setup == old(self).setup,
            final(self)@ == runs(old(self).setup, old(self)@),
    {
        proof {
            reveal(runs);
        }
        match self.core.state {
            State::Relaxed => self.run_relaxed(),
            State::HoldingStart => {
                self.observe_arm();
                if self.core.tick.cmd.mode == ModeRequest::Walk {
                    self.core.waiting = Waiting::StanceToGoTo;
                } else {
                    self.finish();
                }
            },
            State::Active => self.run_active(),
            _ => self.run_play(),
        }
    }

    fn run_relaxed(&mut self)
        requires
            old(self).wf(),
        ensures
            final(self).wf(),
            final(self).setup == old(self).setup,
            final(self)@ == runs_relaxed(old(self).setup, old(self)@),
    {
        proof {
            reveal(runs_relaxed);
        }
        let measured = self.core.tick.measured;
        self.core.targets = measured;
        if self.core.tick.cmd.mode == ModeRequest::Relax {
            self.finish();
            return;
        }
        let start = self.start_over(measured);
        match start {
            Some(start) => self.set_out(measured, start, State::GoingToStart),
            None => {
                self.core.warnings.start_pose_missing = true;
                self.core.waiting = Waiting::StanceForStart;
            },
        }
    }

    fn start_over(&self, current: JointVec) -> (r: Option<JointVec>)
        ensures
            r == self.setup.start_from(current),
    {
        match self.setup.poses.pose(self.setup.start_pose.as_str()) {
            Some(pose) => Some(overlay(&pose.angles, current)),
            None => None,
        }
    }

    fn run_play(&mut self)
        requires
            old(self).wf(),
        ensures
            final(self).wf(),
            final(self).setup == old(self).setup,
            final(self)@ == runs_play(old(self).setup, old(self)@),
    {
        proof {
            reveal(runs_play);
        }
        let dt = self.core.tick.dt;
        match &mut self.player {
            Some(player) => {
                player.advance(dt);
                self.core.waiting = Waiting::Evaluated;
            },
            None => {
                self.end_play(true);
            },
        }
    }

    fn hear(&mut self, at: JointVec, ended: bool)
        requires
            old(self).wf(),
            old(self)@.play is Some,
            old(self)@.core.waiting is Evaluated,
        ensures
            final(self).wf(),
            final(self).setup == old(self).setup,
            ({
                let play = old(self)@.play->Some_0;
                let told = play.told(at, ended);
                let next = Mind {
                    core: Core { targets: at, ..old(self).core },
                    play: Some(told),
                };
                final(self)@ == if play.moves_on(ended) {
                    next
                } else {
                    play_ticked(old(self).setup, next, told.is_done())
                }
            }),
    {
        self.core.targets = at;
        let mut more: bool = false;
        let mut done: bool = true;
        if let Some(player) = &mut self.player {
            more = player.told(at, ended);
            done = player.is_done();
        }
        if !more {
            self.end_play(done);
        }
    }

    fn end_play(&mut self, done: bool)
        requires
            old(self).wf(),
        ensures
            final(self).wf(),
            final(self).setup == old(self).setup,
            final(self)@ == play_ticked(old(self).setup, old(self)@, done),
    {
        proof {
            reveal(play_ticked);
        }
        match self.core.state {
            State::GoingToStart => {
                if done {
                    self.player = None;
                    if self.core.tick.cmd.mode == ModeRequest::Walk {
                        self.core.waiting = Waiting::StanceToGoTo;
                    } else {
                        self.core.state = State::HoldingStart;
                        self.finish();
                    }
                } else {
                    self.finish();
                }
            },
            State::PlayingPose => {
                self.observe_arm();
                if done || self.core.tick.cmd.mode == ModeRequest::Walk {
                    self.core.waiting = Waiting::StanceToGoTo;
                } else {
                    self.finish();
                }
            },
            _ => {
                if done {
                    self.player = None;
                    self.core.waiting = Waiting::Reset;
                } else {
                    self.finish();
                }
            },
        }
    }

    fn run_active(&mut self)
        requires
            old(self).wf(),
            old(self).core.state is Active,
            may_begin(old(self).setup, old(self)@, old(self).core.tick),
        ensures
            final(self).wf(),
            final(self).setup == old(self).setup,
            final(self)@ == runs_active(old(self).setup, old(self)@),
    {
        proof {
            reveal(runs_active);
        }
        if self.core.tick.cmd.play_pose {
            self.greet();
        } else if self.core.tick.cmd.mode == ModeRequest::Stand {
            self.go_back();
        } else {
            self.step_on();
        }
    }

    fn greet(&mut self)
        requires
            old(self).wf(),
        ensures
            final(self).wf(),
            final(self).setup == old(self).setup,
            final(self)@ == greets(old(self).setup, old(self)@),
    {
        proof {
            reveal(greets);
        }
        let targets = self.core.targets;
        let name = self.setup.greeting(self.core.tick.cmd.play_alt);
        match PosePlayer::start(&self.setup.poses, name, targets) {
            Ok(player) => {
                self.player = Some(player);
                self.core.state = State::PlayingPose;
            },
            Err(_) => {
                self.core.warnings.pose_refused = true;
            },
        }
        self.finish();
    }

    fn go_back(&mut self)
        requires
            old(self).wf(),
        ensures
            final(self).wf(),
            final(self).setup == old(self).setup,
            final(self)@ == heads_back(old(self).setup, old(self)@),
    {
        proof {
            reveal(heads_back);
        }
        let targets = self.core.targets;
        let start = self.start_over(targets);
        match start {
            Some(start) => self.set_out(targets, start, State::GoingToStart),
            None => {
                self.core.warnings.start_pose_missing = true;
                self.finish();
            },
        }
    }

    fn step_on(&mut self)
        requires
            old(self).wf(),
            ramp_bears(old(self).setup.gait, old(self).core.tick.dt),
        ensures
            final(self).wf(),
            final(self).setup == old(self).setup,
            final(self)@ == steps_on(old(self).setup, old(self)@),
    {
        proof {
            reveal(steps_on);
        }
        let cmd = self.core.tick.cmd;
        let takes_height: bool = gait_supports_body_height(
            gait_mode_of(self.core.gait_select, self.setup.gait.crawl_use_linear),
        );
        let news: bool = !cmd.height_offset_m.equals(double(0)) && !self.core.warned_body_height
            && !takes_height;
        self.core.warned_body_height = self.core.warned_body_height || news;
        self.core.warnings.height_ignored = news;
        let want = if cmd.mode == ModeRequest::Walk {
            velocity_cmd(cmd.vx_m_s, cmd.vy_m_s, cmd.wz_rad_s)
        } else {
            velocity_cmd(double(0), double(0), double(0))
        };
        let speed = self.ramp_velocity(want);
        self.core.speed = speed;
        self.core.waiting = Waiting::Walked;
    }

    fn ramp_velocity(&mut self, want: VelocityCmd) -> (r: VelocityCmd)
        requires
            old(self).wf(),
            ramp_bears(old(self).setup.gait, old(self).core.tick.dt),
        ensures
            final(self).wf(),
            final(self).setup == old(self).setup,
            final(self)@.play == old(self)@.play,
            (final(self)@.core, r) == ramps(old(self).setup, old(self)@.core, want),
    {
        proof {
            reveal(ramps);
        }
        let tuning = self.setup.gait;
        let dt = self.core.tick.dt;
        let ramp_s = tuning.velocity_ramp_s;
        if ramp_s.at_most(double(0)) || dt.at_most(double(0)) {
            self.core.ramped = want;
            return want;
        }
        let from = self.core.ramped;
        let ramped = VelocityCmd {
            vx: one_ramp_step(tuning.max_vx_m_s, ramp_s, dt, want.vx, from.vx),
            vy: one_ramp_step(tuning.max_vy_m_s, ramp_s, dt, want.vy, from.vy),
            wz: one_ramp_step(tuning.max_wz_rad_s, ramp_s, dt, want.wz, from.wz),
        };
        self.core.ramped = ramped;
        let zero = double(0);
        let creep = double(CREEP_M_S);
        let stopping: bool = want.vx.equals(zero) && want.vy.equals(zero) && want.wz.equals(zero);
        let slow: bool = ramped.vx.abs().at_most(creep) && ramped.vy.abs().at_most(creep)
            && ramped.wz.abs().at_most(creep);
        if stopping && slow {
            let stance = self.core.body_view.stance;
            let down: bool = stance.fl && stance.fr && stance.rl && stance.rr;
            if down || double(SETTLE_TIMEOUT_S).at_most(self.core.settling_s) {
                let still = velocity_cmd(zero, zero, zero);
                self.core.settling_s = zero;
                self.core.ramped = still;
                return still;
            }
            self.core.settling_s = self.core.settling_s.plus(dt);
            return velocity_cmd(creep, zero, zero);
        }
        self.core.settling_s = zero;
        ramped
    }

    fn walk_ends(&mut self, report: GaitReport)
        requires
            old(self).wf(),
        ensures
            final(self).wf(),
            final(self).setup == old(self).setup,
            final(self)@ == walked(old(self).setup, old(self)@, report),
    {
        proof {
            reveal(walked);
        }
        let arm = self.arm_target();
        self.core.body_view = BodyView {
            x: report.x,
            y: report.y,
            yaw: report.yaw,
            z: self.setup.gait.stance_height_m.plus(self.core.tick.cmd.height_offset_m),
            roll: double(0),
            pitch: double(0),
            stance: report.stance,
        };
        self.core.targets = output_to_joints(&report.targets, &self.setup.signs, arm);
        self.finish();
    }

    fn arm_target(&mut self) -> (r: Double)
        requires
            old(self).wf(),
        ensures
            final(self).wf(),
            final(self).setup == old(self).setup,
            final(self)@.play == old(self)@.play,
            (final(self)@.core, r) == arm_aimed(old(self).setup, old(self)@.core),
    {
        proof {
            reveal(arm_aimed);
        }
        let cmd = self.core.tick.cmd;
        if self.setup.arm_app_driven {
            let mut chicken = self.core.chicken;
            let r = chicken.update(cmd.chicken_head, self.core.tick.pitch, self.core.tick.dt);
            self.core.chicken = chicken;
            return r;
        }
        let news: bool = cmd.chicken_head && !self.core.warned_chicken_head;
        self.core.warned_chicken_head = self.core.warned_chicken_head || news;
        self.core.warnings.chicken_head_ignored = news;
        match cmd.arm_rad {
            Some(arm) => arm,
            None => self.core.targets.arm,
        }
    }
}

fn one_ramp_step(full: Double, ramp_s: Double, dt: Double, want: Double, from: Double) -> (r: Double)
    requires
        !ramp_s.at_most(double(0)),
        !dt.at_most(double(0)),
        !ramp_reach(full, ramp_s, dt).nan(),
    ensures
        r == ramp_step(full, ramp_s, dt, want, from),
{
    let step = full.abs().over(ramp_s).times(dt);
    proof {
        lemma_ramp_step_is_a_number(full, ramp_s, dt);
    }
    from.plus(want.minus(from).clamp(step.neg(), step))
}

pub proof fn lemma_ramp_step_is_a_number(full: Double, ramp_s: Double, dt: Double)
    requires
        !ramp_s.at_most(double(0)),
        !dt.at_most(double(0)),
        !ramp_reach(full, ramp_s, dt).nan(),
    ensures
        ({
            let step = ramp_reach(full, ramp_s, dt);
            step.neg().is_at_most(step)
        }),
{
    crate::double::lemma_order(ramp_s, double(0));
    crate::double::lemma_order(dt, double(0));
    let rate = full.abs().over(ramp_s);
    let step = rate.times(dt);
    assert(!rate.nan() && !dt.nan()) by {
        reveal(Double::product);
    }
    assert(!ramp_s.nan() && !full.nan() && !rate.negative()) by {
        reveal(Double::quotient);
        crate::double::lemma_scale_of_zero();
        crate::rounding::lemma_scale_orders(0, ramp_s.magnitude());
        crate::rounding::lemma_nearest(
            crate::rounding::scale(full.magnitude()) * vstd::arithmetic::power2::pow2(1074),
            crate::rounding::scale(ramp_s.magnitude()),
        );
    }
    assert(!step.negative()) by {
        reveal(Double::product);
        vstd::arithmetic::power2::lemma_pow2_pos(1074);
        crate::rounding::lemma_nearest(
            crate::rounding::scale(rate.magnitude()) * crate::rounding::scale(dt.magnitude()),
            vstd::arithmetic::power2::pow2(1074),
        );
    }
    crate::double::lemma_negation_is_below(step);
}

} // verus!
