//! The machine that moves the robot, with a simple gait and interpolation.
use namiashi::control::config::{AppConfig, GaitTuning};
use namiashi::control::controller::{
    can_ramp, Answer, Ask, ControlOutput, Controller, GaitReport, State, Tick,
};
use namiashi::control::jointvec::JointVec;
use namiashi::control::pose::{Interpolation, Pose, PoseLibrary, Query, Sequence, SequenceStep};
use namiashi::control::robot::GaitType;
use namiashi::control::teleop::{
    Attitude, GaitSelect, ModeRequest, OperatorCommand, Teleop, TeleopConfig,
};
use namiashi::double::{double, Double};
use namiashi::hal::config::HardwareConfig;
use namiashi::hal::joint::{JointMode, PerJoint, PerLeg, JOINT_NAMES};

fn d(x: f64) -> Double {
    double(x.to_bits())
}

fn f(x: Double) -> f64 {
    f64::from_bits(x.bits)
}

fn evaluate(q: &Query) -> Answer {
    let (t, duration) = (f(q.t), f(q.duration_s));
    let s = if duration <= 0.0 { 1.0 } else { (t / duration).clamp(0.0, 1.0) };
    let w = match q.kind {
        Interpolation::Linear => s,
        _ => s * s * s * (10.0 - 15.0 * s + 6.0 * s * s),
    };
    let angles = q
        .from
        .to_vec()
        .iter()
        .zip(q.to.to_vec().iter())
        .map(|(a, b)| d(f(*a) + (f(*b) - f(*a)) * w))
        .collect();
    Answer::Angles { angles, ended: t >= duration }
}

/// A gait that lifts its legs in turn while it has speed.
struct Gait {
    kind: GaitType,
    phase: f64,
    x: f64,
    v: [f64; 3],
    resets: usize,
}

impl Gait {
    fn report(&mut self, dt: f64) -> GaitReport {
        let moving = self.v.iter().any(|v| *v != 0.0);
        if moving {
            self.phase = (self.phase + dt) % 1.0;
            self.x += self.v[0] * dt;
        }
        let mut targets = Vec::new();
        let mut stance = PerLeg::filled(true);
        for (leg, names) in JOINT_NAMES.iter().enumerate() {
            let up = moving && (self.phase * 4.0) as usize == leg;
            let lift = if up { 0.3 } else { 0.0 };
            targets.push((names[0].to_string(), d(0.0)));
            targets.push((names[1].to_string(), d(0.7 + lift)));
            targets.push((names[2].to_string(), d(-1.4)));
            if up {
                match leg {
                    0 => stance.fl = false,
                    1 => stance.fr = false,
                    2 => stance.rl = false,
                    _ => stance.rr = false,
                }
            }
        }
        GaitReport { targets, x: d(self.x), y: d(0.0), yaw: d(0.0), stance }
    }
}

struct Rig {
    c: Controller,
    gait: Gait,
}

fn model() -> PoseLibrary {
    let fold = |thigh: f64, calf: f64| -> Vec<(String, Double)> {
        JOINT_NAMES
            .iter()
            .flat_map(|n| {
                vec![
                    (n[0].to_string(), d(0.0)),
                    (n[1].to_string(), d(thigh)),
                    (n[2].to_string(), d(calf)),
                ]
            })
            .collect()
    };
    let pose = |name: &str, angles: Vec<(String, Double)>| Pose {
        name: name.to_string(),
        angles,
        duration: d(0.5),
        kind: Interpolation::QuinticSmooth,
    };
    let step = |name: &str| SequenceStep {
        pose_name: name.to_string(),
        duration: d(0.3),
        kind: Interpolation::Linear,
    };
    PoseLibrary::new(
        vec![
            pose("constrain", fold(1.0, -2.0)),
            pose("extend", fold(0.3, -0.6)),
            pose("wave", vec![("FL_thigh_joint".to_string(), d(-0.5))]),
        ],
        vec![
            Sequence { name: "jump".to_string(), steps: vec![step("constrain"), step("extend")] },
            Sequence { name: "greeting".to_string(), steps: vec![step("wave")] },
        ],
        JointVec::zeros(),
    )
}

fn rig_with(cfg: &AppConfig, driven: bool) -> Rig {
    let signs = PerLeg::filled(PerJoint::filled(d(1.0)));
    let (c, plan) = Controller::with_arm(model(), signs, cfg, driven);
    let gait = Gait { kind: plan.gait, phase: 0.0, x: 0.0, v: [0.0; 3], resets: 0 };
    Rig { c, gait }
}

fn controller() -> Rig {
    rig_with(&AppConfig::default(), false)
}

fn cmd(mode: ModeRequest) -> OperatorCommand {
    OperatorCommand {
        vx_m_s: d(0.0),
        vy_m_s: d(0.0),
        wz_rad_s: d(0.0),
        height_offset_m: d(0.0),
        arm_rad: None,
        mode,
        gait: GaitSelect::Crawl,
        play_pose: false,
        chicken_head: false,
        play_alt: false,
        body_attitude_rad: Attitude { roll: d(0.0), pitch: d(0.0), yaw: d(0.0) },
        link_ok: true,
    }
}

impl Rig {
    fn tick_at(&mut self, cmd: &OperatorCommand, measured: &JointVec, pitch: f64, dt: f64) -> ControlOutput {
        let tick =
            Tick { cmd: *cmd, measured: *measured, roll: d(0.0), pitch: d(pitch), dt: d(dt) };
        let mut ask = self.c.begin(tick);
        loop {
            let answer = match ask {
                Ask::Done(out) => return out,
                Ask::Build(plan) => {
                    self.gait = Gait { kind: plan.gait, phase: 0.0, x: 0.0, v: [0.0; 3], resets: 0 };
                    Answer::Done
                }
                Ask::Stance { .. } => {
                    self.gait.v = [0.0; 3];
                    Answer::Gait(self.gait.report(0.0))
                }
                Ask::Reset => {
                    self.gait.resets += 1;
                    self.gait.phase = 0.0;
                    Answer::Done
                }
                Ask::Walk { velocity, dt, .. } => {
                    self.gait.v = [f(velocity.vx), f(velocity.vy), f(velocity.wz)];
                    Answer::Gait(self.gait.report(f(dt)))
                }
                Ask::Transition(query) => evaluate(&query),
            };
            ask = self.c.resume(answer);
        }
    }

    fn tick(&mut self, cmd: &OperatorCommand, dt: f64) -> ControlOutput {
        self.tick_at(cmd, &JointVec::zeros(), 0.0, dt)
    }

    fn run_until(&mut self, command: &OperatorCommand, want: State, max_s: f64) {
        let dt = 0.005;
        let mut t = 0.0;
        while t < max_s {
            if self.tick(command, dt).state == want {
                return;
            }
            t += dt;
        }
        panic!("{:?} に到達しませんでした（今は {:?}）", want, self.c.state());
    }
}

fn start_pose(name: &str) -> JointVec {
    let lib = model();
    let p = lib.pose(name).unwrap();
    lib.resolve(&p.angles, JointVec::zeros())
}

#[test]
fn a_momentary_stick_centre_does_not_stop_the_gait() {
    let dt = 0.005;
    for select in [GaitSelect::Crawl, GaitSelect::Walk, GaitSelect::Trot] {
        let mut r = controller();
        let mut go = cmd(ModeRequest::Walk);
        go.gait = select;
        go.vx_m_s = d(0.10);
        r.run_until(&go, State::Active, 20.0);
        for _ in 0..400 {
            r.tick(&go, dt);
        }
        let mut centre = go;
        centre.vx_m_s = d(0.0);
        let mut back = go;
        back.vx_m_s = d(-0.10);
        for _ in 0..5 {
            r.tick(&centre, dt);
            let v = r.c.core.ramped;
            assert!(
                f(v.vx) != 0.0 || f(v.vy) != 0.0 || f(v.wz) != 0.0,
                "{} で中立通過の瞬間に速度がちょうど 0 になった",
                select.label()
            );
        }
        for _ in 0..5 {
            r.tick(&back, dt);
        }
    }
}

#[test]
fn the_velocity_ramp_applies_in_both_directions() {
    let mut cfg = AppConfig::default();
    cfg.gait.velocity_ramp_s = d(0.5);
    let mut r = rig_with(&cfg, false);
    let dt = 0.01;
    let mut go = cmd(ModeRequest::Walk);
    go.vx_m_s = d(0.15);
    r.run_until(&go, State::Active, 20.0);
    let mut c2 = controller();
    c2.run_until(&cmd(ModeRequest::Walk), State::Active, 20.0);
    for _ in 0..10 {
        c2.tick(&go, dt);
    }
    assert!(
        f(c2.c.core.ramped.vx) < 0.15 * 0.5,
        "0.1 s で {:.3} m/s まで来ている（ランプが効いていない）",
        f(c2.c.core.ramped.vx)
    );
    let before = f(c2.c.core.ramped.vx);
    c2.tick(&cmd(ModeRequest::Walk), dt);
    assert!(f(c2.c.core.ramped.vx) < before);
    assert!(f(c2.c.core.ramped.vx) > 0.0, "1 周期で 0 まで落ちている");
}

#[test]
fn a_stopping_gait_creeps_until_its_feet_are_down() {
    let dt = 0.005;
    let mut r = controller();
    let mut go = cmd(ModeRequest::Walk);
    go.vx_m_s = d(0.05);
    r.run_until(&go, State::Active, 20.0);
    for _ in 0..205 {
        r.tick(&go, dt);
    }
    let still = cmd(ModeRequest::Walk);
    let mut crept = false;
    for _ in 0..1000 {
        r.tick(&still, dt);
        let v = r.gait.v[0];
        let stance = r.c.body_view().stance;
        let down = stance.fl && stance.fr && stance.rl && stance.rr;
        if v == 0.001 {
            crept = true;
        }
        if v == 0.0 {
            break;
        }
        assert!(!down || v != 0.0);
    }
    // This gait always has a foot in the air, so only the wait's end stops it.
    assert!(crept);
    assert_eq!(r.gait.v[0], 0.0);
}

#[test]
fn it_starts_relaxed_and_sends_no_position_command() {
    let mut r = controller();
    let out = r.tick(&cmd(ModeRequest::Relax), 0.005);
    assert_eq!(out.state, State::Relaxed);
    assert_eq!(out.leg_mode, JointMode::Idle);
}

#[test]
fn relaxed_targets_follow_the_measured_angles() {
    let mut r = controller();
    let mut measured = JointVec::zeros();
    measured.legs.rl.thigh = d(0.61);
    let out = r.tick_at(&cmd(ModeRequest::Relax), &measured, 0.0, 0.005);
    assert_eq!(out.targets, measured);
}

#[test]
fn standing_goes_through_the_start_pose_then_the_stance() {
    let mut r = controller();
    let stand = cmd(ModeRequest::Walk);
    r.tick(&stand, 0.005);
    assert_eq!(r.c.state(), State::GoingToStart);
    assert!(r.c.state_changed());
    r.run_until(&stand, State::GoingToStance, 10.0);
    r.run_until(&stand, State::Active, 10.0);
    assert_eq!(r.gait.resets, 1);
    assert_eq!(r.tick(&stand, 0.005).leg_mode, JointMode::Position);
    assert!(!r.c.state_changed());
}

#[test]
fn the_start_pose_is_actually_reached_before_the_stance_transition() {
    let cfg = AppConfig::default();
    let mut r = controller();
    let stand = cmd(ModeRequest::Walk);
    r.run_until(&stand, State::GoingToStance, 10.0);
    let start = start_pose(&cfg.control.start_pose);
    let out = r.tick(&stand, 0.0);
    assert!(
        f(out.targets.max_abs_diff(&start)) < 1e-6,
        "start_pose に着く前に次の遷移へ進んでいます"
    );
}

#[test]
fn the_middle_switch_position_holds_the_start_pose() {
    let mut r = controller();
    r.run_until(&cmd(ModeRequest::Stand), State::HoldingStart, 20.0);
    let held = r.tick(&cmd(ModeRequest::Stand), 0.005).targets;
    let out = r.tick(&cmd(ModeRequest::Stand), 0.005);
    assert_eq!(out.state, State::HoldingStart);
    assert_eq!(out.leg_mode, JointMode::Position);
    for _ in 0..200 {
        r.tick(&cmd(ModeRequest::Stand), 0.005);
    }
    let still = r.tick(&cmd(ModeRequest::Stand), 0.005).targets;
    assert!(f(still.max_abs_diff(&held)) < 1e-9, "初期姿勢で保持できていない");
    let want = start_pose("constrain");
    assert!(f(held.max_abs_diff(&want)) < 1e-6, "初期姿勢と違う姿勢で止まっている");
}

#[test]
fn the_bench_command_stops_at_the_start_pose() {
    let t = Teleop::new(
        TeleopConfig::default(),
        &GaitTuning::default(),
        &HardwareConfig::default().arm,
    );
    let bench = t.bench_stand();
    assert_eq!(bench.mode, ModeRequest::Stand);
    let mut r = controller();
    r.run_until(&bench, State::HoldingStart, 20.0);
    for _ in 0..2000 {
        assert_eq!(r.tick(&bench, 0.005).state, State::HoldingStart);
    }
}

#[test]
fn the_switch_walks_from_the_start_pose_and_returns_to_it() {
    let mut r = controller();
    r.run_until(&cmd(ModeRequest::Stand), State::HoldingStart, 20.0);
    r.run_until(&cmd(ModeRequest::Walk), State::Active, 20.0);
    for _ in 0..100 {
        assert_eq!(r.tick(&cmd(ModeRequest::Walk), 0.005).state, State::Active);
    }
    r.run_until(&cmd(ModeRequest::Stand), State::HoldingStart, 20.0);
}

#[test]
fn relax_takes_effect_from_any_state() {
    let mut r = controller();
    r.run_until(&cmd(ModeRequest::Walk), State::Active, 20.0);
    let out = r.tick(&cmd(ModeRequest::Relax), 0.005);
    assert_eq!(out.state, State::Relaxed);
    assert_eq!(out.leg_mode, JointMode::Idle);
    let mut r = controller();
    r.run_until(&cmd(ModeRequest::Stand), State::HoldingStart, 20.0);
    let out = r.tick(&cmd(ModeRequest::Relax), 0.005);
    assert_eq!(out.state, State::Relaxed);
    assert_eq!(out.leg_mode, JointMode::Idle);
}

#[test]
fn walking_forward_moves_the_legs() {
    let mut r = controller();
    r.run_until(&cmd(ModeRequest::Walk), State::Active, 20.0);
    let stance = r.tick(&cmd(ModeRequest::Walk), 0.0).targets;
    let mut walk = cmd(ModeRequest::Walk);
    walk.vx_m_s = d(0.1);
    let mut moved = false;
    for _ in 0..400 {
        let out = r.tick(&walk, 0.005);
        if f(out.targets.max_abs_diff(&stance)) > 1e-3 {
            moved = true;
        }
    }
    assert!(moved, "歩行指令を出しても関節が動いていません");
    assert!(f(r.c.body_view().x) > 0.0);
    assert_eq!(f(r.c.body_view().z), 0.2);
}

#[test]
fn the_gait_can_be_switched_while_relaxed_but_not_while_active() {
    let mut r = controller();
    let mut relax_trot = cmd(ModeRequest::Relax);
    relax_trot.gait = GaitSelect::Trot;
    r.tick(&relax_trot, 0.005);
    assert_eq!(r.c.gait_select(), GaitSelect::Trot);
    assert_eq!(r.gait.kind, GaitType::Trot);

    let mut stand_trot = cmd(ModeRequest::Walk);
    stand_trot.gait = GaitSelect::Trot;
    r.run_until(&stand_trot, State::Active, 20.0);
    assert_eq!(r.c.gait_select(), GaitSelect::Trot);

    let mut walk_crawl = cmd(ModeRequest::Walk);
    walk_crawl.gait = GaitSelect::Crawl;
    r.tick(&walk_crawl, 0.005);
    assert_eq!(r.c.gait_select(), GaitSelect::Trot);
}

#[test]
fn an_unknown_pose_name_does_not_break_the_gait() {
    let mut cfg = AppConfig::default();
    cfg.poses.greeting = "no_such_pose".into();
    let mut r = rig_with(&cfg, false);
    r.run_until(&cmd(ModeRequest::Walk), State::Active, 20.0);
    let mut play = cmd(ModeRequest::Walk);
    play.play_pose = true;
    let out = r.tick(&play, 0.005);
    assert_eq!(out.state, State::Active);
    assert!(r.c.core.warnings.pose_refused);
}

#[test]
fn a_non_driven_arm_follows_the_observed_angle_not_the_chicken_head() {
    let mut r = controller();
    r.run_until(&cmd(ModeRequest::Walk), State::Active, 20.0);
    let mut with_arm = cmd(ModeRequest::Walk);
    with_arm.chicken_head = true;
    with_arm.arm_rad = Some(d(-0.7));
    r.tick_at(&with_arm, &JointVec::zeros(), 0.4, 0.005);
    assert!(r.c.core.warnings.chicken_head_ignored);
    for _ in 0..200 {
        r.tick_at(&with_arm, &JointVec::zeros(), 0.4, 0.005);
    }
    assert!(!r.c.core.warnings.chicken_head_ignored);
    let out = r.tick_at(&with_arm, &JointVec::zeros(), 0.4, 0.005);
    assert!(
        (f(out.targets.arm) + 0.7).abs() < 1e-9,
        "腕の目標が観測値ではなくチキンヘッドの出力になっています: {}",
        f(out.targets.arm)
    );
}

#[test]
fn a_driven_arm_does_run_the_chicken_head() {
    let mut r = rig_with(&AppConfig::default(), true);
    r.run_until(&cmd(ModeRequest::Walk), State::Active, 20.0);
    let mut on = cmd(ModeRequest::Walk);
    on.chicken_head = true;
    for _ in 0..2000 {
        r.tick_at(&on, &JointVec::zeros(), 0.4, 0.005);
    }
    let out = r.tick_at(&on, &JointVec::zeros(), 0.4, 0.005);
    assert!(
        (f(out.targets.arm) + 0.4).abs() < 1e-3,
        "チキンヘッドが効いていません: {}",
        f(out.targets.arm)
    );
}

#[test]
fn a_non_driven_arm_holds_its_last_value_when_the_link_is_lost() {
    let mut r = controller();
    r.run_until(&cmd(ModeRequest::Walk), State::Active, 20.0);
    let mut seen = cmd(ModeRequest::Walk);
    seen.arm_rad = Some(d(0.3));
    r.tick(&seen, 0.005);
    let lost = OperatorCommand::failsafe(GaitSelect::Crawl, ModeRequest::Stand);
    let out = r.tick(&lost, 0.005);
    assert!((f(out.targets.arm) - 0.3).abs() < 1e-9, "{}", f(out.targets.arm));
}

#[test]
fn playing_a_pose_returns_to_the_stance() {
    let mut cfg = AppConfig::default();
    cfg.poses.greeting = "jump".into();
    let mut r = rig_with(&cfg, false);
    r.run_until(&cmd(ModeRequest::Walk), State::Active, 20.0);
    let mut play = cmd(ModeRequest::Walk);
    play.play_pose = true;
    assert_eq!(r.tick(&play, 0.005).state, State::PlayingPose);
    assert_eq!(r.c.playing(), Some("constrain"));
    r.run_until(&cmd(ModeRequest::Walk), State::Active, 20.0);
    assert_eq!(r.c.playing(), None);
}

#[test]
fn the_other_greeting_is_played_where_there_is_one() {
    let mut cfg = AppConfig::default();
    cfg.poses.greeting = "jump".into();
    cfg.poses.greeting_alt = "greeting".into();
    let mut play = cmd(ModeRequest::Walk);
    play.play_pose = true;
    play.play_alt = true;
    let mut r = rig_with(&cfg, false);
    r.run_until(&cmd(ModeRequest::Walk), State::Active, 20.0);
    r.tick(&play, 0.005);
    assert_eq!(r.c.playing(), Some("wave"));
    cfg.poses.greeting_alt = String::new();
    let mut r = rig_with(&cfg, false);
    r.run_until(&cmd(ModeRequest::Walk), State::Active, 20.0);
    r.tick(&play, 0.005);
    assert_eq!(r.c.playing(), Some("constrain"));
}

#[test]
fn without_a_start_pose_the_robot_goes_to_its_stance() {
    let mut cfg = AppConfig::default();
    cfg.control.start_pose = "missing".into();
    let mut r = rig_with(&cfg, false);
    r.tick(&cmd(ModeRequest::Walk), 0.005);
    assert!(r.c.core.warnings.start_pose_missing);
    assert_eq!(r.c.state(), State::GoingToStart);
    r.run_until(&cmd(ModeRequest::Walk), State::Active, 20.0);
    // Asked to stand, it stays where it is.
    let out = r.tick(&cmd(ModeRequest::Stand), 0.005);
    assert_eq!(out.state, State::Active);
}

#[test]
fn a_height_that_the_gait_ignores_is_told_once() {
    let mut r = controller();
    let mut high = cmd(ModeRequest::Walk);
    high.height_offset_m = d(0.02);
    r.run_until(&cmd(ModeRequest::Walk), State::Active, 20.0);
    r.tick(&high, 0.005);
    assert!(r.c.core.warnings.height_ignored);
    r.tick(&high, 0.005);
    assert!(!r.c.core.warnings.height_ignored);
    let mut cfg = AppConfig::default();
    cfg.gait.crawl_use_linear = true;
    let mut r = rig_with(&cfg, false);
    r.run_until(&cmd(ModeRequest::Walk), State::Active, 20.0);
    r.tick(&high, 0.005);
    assert!(!r.c.core.warnings.height_ignored);
}

#[test]
fn states_have_their_names() {
    let labels: Vec<&str> = [
        State::Relaxed,
        State::GoingToStart,
        State::HoldingStart,
        State::GoingToStance,
        State::Active,
        State::PlayingPose,
    ]
    .iter()
    .map(|s| s.label())
    .collect();
    assert_eq!(labels, vec!["脱力", "初期姿勢へ", "初期姿勢", "立ち姿勢へ", "歩容", "ポーズ再生"]);
}

#[test]
fn a_speed_without_a_limit_is_not_ramped() {
    let mut cfg = AppConfig::default();
    cfg.gait.max_vx_m_s = d(f64::INFINITY);
    assert!(can_ramp(&cfg.gait, d(0.005)));
    let mut r = rig_with(&cfg, false);
    r.run_until(&cmd(ModeRequest::Walk), State::Active, 20.0);
    let mut go = cmd(ModeRequest::Walk);
    go.vx_m_s = d(0.15);
    r.tick(&go, 0.005);
    assert_eq!(f(r.c.core.ramped.vx), 0.15);
}

#[test]
fn a_ramp_without_a_reach_is_told() {
    let mut tuning = GaitTuning::default();
    assert!(can_ramp(&tuning, d(0.005)));
    assert!(!can_ramp(&tuning, d(f64::NAN)));
    tuning.max_wz_rad_s = d(f64::INFINITY);
    tuning.velocity_ramp_s = d(f64::INFINITY);
    assert!(!can_ramp(&tuning, d(0.005)));
    tuning.velocity_ramp_s = d(0.0);
    assert!(can_ramp(&tuning, d(0.005)));
}
