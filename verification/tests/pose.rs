//! Joint vectors, poses, the chicken head and the robot's glue.
use namiashi::control::chicken::ChickenHead;
use namiashi::control::config::{GaitTuning, PoseConfig};
use namiashi::control::jointvec::{JointVec, DOF};
use namiashi::control::pose::{
    Interpolation, Pose, PoseLibrary, PosePlayer, Query, Sequence, SequenceStep,
};
use namiashi::control::robot::{
    build_gait, build_q, gait_mode_of, gait_supports_body_height, gait_type_of, output_to_joints,
    resolve_kinematics_posture, GaitMode, GaitType,
};
use namiashi::control::teleop::GaitSelect;
use namiashi::double::{double, Double};
use namiashi::hal::joint::{LegSlot, PerJoint, PerLeg, ARM_JOINT_NAME};

fn d(x: f64) -> Double {
    double(x.to_bits())
}

fn f(x: Double) -> f64 {
    f64::from_bits(x.bits)
}

/// The interpolation that a transition asks for.
fn evaluate(q: &Query) -> (Vec<Double>, bool) {
    let (t, duration) = (f(q.t), f(q.duration_s));
    let s = if duration <= 0.0 { 1.0 } else { (t / duration).clamp(0.0, 1.0) };
    let w = match q.kind {
        Interpolation::Linear => s,
        _ => s * s * s * (10.0 - 15.0 * s + 6.0 * s * s),
    };
    let angles = q
        .from
        .to_vec()
        .iter()
        .zip(q.to.to_vec().iter())
        .map(|(a, b)| d(f(*a) + (f(*b) - f(*a)) * w))
        .collect();
    (angles, t >= duration)
}

fn tick(player: &mut PosePlayer, dt: f64) -> JointVec {
    player.tick(d(dt), |q| {
        let (angles, ended) = evaluate(&q);
        (JointVec::from_slice(&angles), ended)
    })
}

fn sample() -> JointVec {
    let mut v = JointVec::zeros();
    for leg in LegSlot::ALL {
        let mut joints = PerJoint::filled(d(0.0));
        for k in 0..3 {
            joints.set(k, d((leg.index() * 3 + k) as f64 * 0.1));
        }
        v.legs.set(leg, joints);
    }
    v.arm = d(-0.5);
    v
}

#[test]
fn flat_vector_round_trips() {
    let v = sample();
    assert_eq!(JointVec::from_slice(&v.to_vec()), v);
}

#[test]
fn flat_vector_has_one_slot_per_dof() {
    assert_eq!(sample().to_vec().len(), DOF);
    assert_eq!(sample().iter_named().len(), DOF);
    assert_eq!(JointVec::from_slice(&[d(1.0)]).legs.fl.hip, d(1.0));
    assert_eq!(JointVec::from_slice(&[d(1.0)]).arm, d(0.0));
    let names = sample().iter_named();
    assert_eq!(names[5].0, "FR_calf_joint");
    assert_eq!(names[12].0, ARM_JOINT_NAME);
    assert_eq!(f(names[12].1), -0.5);
}

#[test]
fn named_access_matches_the_array_layout() {
    let v = sample();
    assert_eq!(v.get("FL_hip_joint"), Some(v.legs.fl.hip));
    assert_eq!(v.get("RR_calf_joint"), Some(v.legs.rr.calf));
    assert_eq!(v.get(ARM_JOINT_NAME), Some(v.arm));
    assert_eq!(v.get("no_such_joint"), None);
}

#[test]
fn setting_an_unknown_joint_reports_failure() {
    let mut v = JointVec::zeros();
    assert!(v.set("FL_thigh_joint", d(1.0)));
    assert!(!v.set("wheel_joint", d(1.0)));
    assert_eq!(f(v.legs.fl.thigh), 1.0);
    assert!(v.set(ARM_JOINT_NAME, d(0.25)));
    assert_eq!(f(v.arm), 0.25);
}

#[test]
fn max_abs_diff_finds_the_worst_joint() {
    let a = JointVec::zeros();
    let mut b = JointVec::zeros();
    b.legs.rl.thigh = d(-0.75);
    b.arm = d(0.25);
    assert!((f(a.max_abs_diff(&b)) - 0.75).abs() < 1e-12);
}

fn pose(name: &str, angles: &[(&str, f64)], duration: f64) -> Pose {
    Pose {
        name: name.into(),
        angles: angles.iter().map(|(k, v)| (k.to_string(), d(*v))).collect(),
        duration: d(duration),
        kind: Interpolation::QuinticSmooth,
    }
}

fn step(name: &str, duration: f64) -> SequenceStep {
    SequenceStep { pose_name: name.into(), duration: d(duration), kind: Interpolation::Linear }
}

fn library() -> PoseLibrary {
    let poses = vec![
        pose("crouch", &[("FL_thigh_joint", 1.3), ("FL_calf_joint", -2.6)], 1.0),
        pose("wave", &[("arm_pitch_joint", -1.0)], 0.5),
    ];
    let seq = Sequence {
        name: "greeting".into(),
        steps: vec![step("wave", 0.5), step("crouch", 0.5)],
    };
    PoseLibrary::new(poses, vec![seq], JointVec::zeros())
}

#[test]
fn an_unlisted_joint_keeps_its_current_value() {
    let lib = library();
    let mut current = JointVec::zeros();
    current.legs.fr.hip = d(0.42);
    let steps = lib.plan("crouch", current).unwrap();
    assert_eq!(f(steps[0].target.legs.fr.hip), 0.42);
    assert_eq!(f(steps[0].target.legs.fl.thigh), 1.3);
}

#[test]
fn a_pose_reaches_its_target_exactly() {
    let lib = library();
    let mut player = PosePlayer::start(&lib, "crouch", JointVec::zeros()).unwrap();
    for _ in 0..300 {
        tick(&mut player, 0.005);
    }
    assert!(player.is_done());
    assert!((f(player.current().legs.fl.thigh) - 1.3).abs() < 1e-9);
    assert!((f(player.current().legs.fl.calf) + 2.6).abs() < 1e-9);
}

#[test]
fn a_sequence_walks_every_step_in_order() {
    let lib = library();
    let mut player = PosePlayer::start(&lib, "greeting", JointVec::zeros()).unwrap();
    assert_eq!(player.step_name(), "wave");
    for _ in 0..50 {
        tick(&mut player, 0.005);
    }
    assert!(f(player.current().arm) < 0.0);
    assert_eq!(f(player.current().legs.fl.thigh), 0.0);
    for _ in 0..300 {
        tick(&mut player, 0.005);
    }
    assert!(player.is_done());
    assert!((f(player.current().legs.fl.thigh) - 1.3).abs() < 1e-9);
    assert!((f(player.current().arm) + 1.0).abs() < 1e-9);
}

#[test]
fn a_long_dt_does_not_skip_a_step_silently() {
    let lib = library();
    let mut player = PosePlayer::start(&lib, "greeting", JointVec::zeros()).unwrap();
    tick(&mut player, 2.0);
    assert!(player.is_done());
    assert!((f(player.current().legs.fl.thigh) - 1.3).abs() < 1e-9);
    assert!((f(player.current().arm) + 1.0).abs() < 1e-9);
}

#[test]
fn an_unknown_name_is_an_error_listing_what_exists() {
    let lib = library();
    let err = PosePlayer::start(&lib, "nope", JointVec::zeros()).unwrap_err();
    assert!(err.contains("crouch"), "{err}");
    assert!(err.contains("greeting"), "{err}");
    assert_eq!(
        err,
        "ポーズ / シーケンス \"nope\" がモデルにありません（pose: [\"crouch\", \"wave\"], sequence: [\"greeting\"]）"
    );
}

#[test]
fn a_sequence_referencing_a_missing_pose_fails_before_moving() {
    let lib = PoseLibrary::new(
        vec![],
        vec![Sequence { name: "broken".into(), steps: vec![step("ghost", 1.0)] }],
        JointVec::zeros(),
    );
    let err = PosePlayer::start(&lib, "broken", JointVec::zeros()).unwrap_err();
    assert_eq!(
        err,
        "シーケンス \"broken\" が参照するポーズ \"ghost\" がモデルにありません"
    );
    let lib = PoseLibrary::new(
        vec![],
        vec![Sequence { name: "empty".into(), steps: vec![] }],
        JointVec::zeros(),
    );
    let err = lib.plan("empty", JointVec::zeros()).unwrap_err();
    assert_eq!(err, "シーケンス \"empty\" に手順がありません");
}

#[test]
fn a_plain_transition_interpolates_between_two_vectors() {
    let mut from = JointVec::zeros();
    from.legs.fl.hip = d(-1.0);
    let mut to = JointVec::zeros();
    to.legs.fl.hip = d(1.0);
    let mut player = PosePlayer::to_pose(from, to, d(1.0), Interpolation::Linear);
    assert_eq!(player.current(), from);
    tick(&mut player, 0.5);
    assert!(f(player.current().legs.fl.hip).abs() < 1e-9);
    tick(&mut player, 0.5);
    assert!(player.is_done());
    assert!((f(player.current().legs.fl.hip) - 1.0).abs() < 1e-9);
}

#[test]
fn a_zero_duration_step_completes_immediately() {
    let mut to = JointVec::zeros();
    to.arm = d(0.5);
    let mut player = PosePlayer::to_pose(JointVec::zeros(), to, d(0.0), Interpolation::Linear);
    assert_eq!(player.current(), to);
    tick(&mut player, 0.005);
    assert!(player.is_done());
    assert!((f(player.current().arm) - 0.5).abs() < 1e-9);
}

#[test]
fn a_negative_duration_counts_as_none() {
    let player =
        PosePlayer::to_pose(JointVec::zeros(), sample(), d(-2.0), Interpolation::Linear);
    assert_eq!(f(player.ask().duration_s), 0.0);
}

#[test]
fn the_home_pose_is_read_by_name() {
    let lib = PoseLibrary::from_model(
        vec![],
        vec![],
        vec![("RL_calf_joint".to_string(), d(-1.5)), ("tail".to_string(), d(9.0))],
    );
    assert_eq!(f(lib.home().legs.rl.calf), -1.5);
    assert_eq!(library().pose_names(), vec!["crouch", "wave"]);
    assert_eq!(library().sequence_names(), vec!["greeting"]);
    assert!(library().sequence("wave").is_none());
    assert!(library().pose("wave").is_some());
}

fn chicken(tau: f64, gain: f64, base: f64) -> PoseConfig {
    PoseConfig {
        greeting: "greeting".into(),
        greeting_alt: String::new(),
        chicken_head_base_rad: d(base),
        chicken_head_gain: d(gain),
        chicken_head_tau_s: d(tau),
    }
}

fn update(c: &mut ChickenHead, on: bool, pitch: f64, dt: f64) -> f64 {
    f(c.update(on, d(pitch), d(dt)))
}

#[test]
fn it_cancels_the_body_pitch_in_steady_state() {
    let mut c = ChickenHead::new(&chicken(0.05, 1.0, 0.0));
    for _ in 0..2000 {
        update(&mut c, true, 0.3, 0.005);
    }
    assert!((f(c.position()) + 0.3).abs() < 1e-6, "{}", f(c.position()));
}

#[test]
fn the_base_angle_is_the_reference_not_zero() {
    let mut c = ChickenHead::new(&chicken(0.0, 1.0, -0.4));
    assert_eq!(update(&mut c, true, 0.0, 0.005), -0.4);
    assert!((update(&mut c, true, 0.2, 0.005) + 0.6).abs() < 1e-12);
}

#[test]
fn a_zero_time_constant_passes_straight_through() {
    let mut c = ChickenHead::new(&chicken(0.0, 1.0, 0.0));
    assert!((update(&mut c, true, 0.25, 0.005) + 0.25).abs() < 1e-12);
}

#[test]
fn the_filter_slows_the_response_down() {
    let mut fast = ChickenHead::new(&chicken(0.0, 1.0, 0.0));
    let mut slow = ChickenHead::new(&chicken(0.5, 1.0, 0.0));
    let a = update(&mut fast, true, 1.0, 0.005);
    let b = update(&mut slow, true, 1.0, 0.005);
    assert!(b.abs() < a.abs() * 0.1, "fast={a} slow={b}");
}

#[test]
fn turning_it_off_eases_back_to_the_base_angle() {
    let mut c = ChickenHead::new(&chicken(0.05, 1.0, 0.0));
    for _ in 0..2000 {
        update(&mut c, true, 0.3, 0.005);
    }
    let first_off = update(&mut c, false, 0.3, 0.005);
    assert!(first_off < -0.2, "{first_off}");
    for _ in 0..2000 {
        update(&mut c, false, 0.3, 0.005);
    }
    assert!(f(c.position()).abs() < 1e-6);
}

#[test]
fn reset_returns_to_the_base_angle_immediately() {
    let mut c = ChickenHead::new(&chicken(0.05, 1.0, -0.2));
    for _ in 0..100 {
        update(&mut c, true, 0.5, 0.005);
    }
    c.reset();
    assert_eq!(f(c.position()), -0.2);
}

#[test]
fn gait_selection_maps_to_the_documented_controllers() {
    assert_eq!(gait_type_of(GaitSelect::Crawl), GaitType::Crawl);
    assert_eq!(gait_type_of(GaitSelect::Walk), GaitType::Walk);
    assert_eq!(gait_type_of(GaitSelect::Trot), GaitType::Trot);
    for select in [GaitSelect::Crawl, GaitSelect::Walk, GaitSelect::Trot] {
        assert_eq!(gait_mode_of(select, false), GaitMode::Champ);
    }
    assert_eq!(gait_mode_of(GaitSelect::Crawl, true), GaitMode::LinearCrawl);
    assert_eq!(gait_mode_of(GaitSelect::Walk, true), GaitMode::Champ);
}

#[test]
fn only_linear_crawl_takes_a_body_height_change() {
    assert!(gait_supports_body_height(GaitMode::LinearCrawl));
    assert!(!gait_supports_body_height(GaitMode::Champ));
    for select in [GaitSelect::Crawl, GaitSelect::Walk, GaitSelect::Trot] {
        assert!(
            !gait_supports_body_height(gait_mode_of(select, false)),
            "{select:?} で高さ変更が効くことになっている"
        );
    }
    assert!(gait_supports_body_height(gait_mode_of(GaitSelect::Crawl, true)));
    assert!(!gait_supports_body_height(gait_mode_of(GaitSelect::Trot, true)));
}

#[test]
fn the_stance_height_is_written_into_the_nominal_foot_position() {
    let mut tuning = GaitTuning::default();
    tuning.stance_height_m = d(0.21);
    tuning.trot_cycle_s = Some(d(0.5));
    for select in [GaitSelect::Crawl, GaitSelect::Walk, GaitSelect::Trot] {
        let plan = build_gait(&tuning, select);
        assert!((f(plan.foot_z_m) + 0.21).abs() < 1e-12);
        assert_eq!(plan.cycle_s.is_some(), select == GaitSelect::Trot);
    }
}

#[test]
fn a_missing_kinematics_pose_falls_back_to_home() {
    let mut home = JointVec::zeros();
    home.legs.fl.thigh = d(0.5);
    let lib = PoseLibrary::new(vec![], vec![], home);
    assert_eq!(resolve_kinematics_posture(&lib, "nope"), home);
    let q = resolve_kinematics_posture(&library(), "crouch");
    assert_eq!(f(q.legs.fl.calf), -2.6);
}

#[test]
fn the_gait_output_takes_the_signs_of_the_model() {
    let mut signs = PerLeg::filled(PerJoint::filled(d(1.0)));
    signs.rr.calf = d(-1.0);
    let targets = vec![
        ("RR_calf_joint".to_string(), d(0.5)),
        ("FL_hip_joint".to_string(), d(0.25)),
        ("wheel".to_string(), d(9.0)),
    ];
    let q = output_to_joints(&targets, &signs, d(-0.3));
    assert_eq!(f(q.legs.rr.calf), -0.5);
    assert_eq!(f(q.legs.fl.hip), 0.25);
    assert_eq!(f(q.legs.fr.hip), 0.0);
    assert_eq!(f(q.arm), -0.3);
}

#[test]
fn a_posture_is_spread_over_the_model() {
    let joints = vec![
        ("base".to_string(), 0),
        ("FL_hip_joint".to_string(), 3),
        ("RR_calf_joint".to_string(), 1),
        ("FL_hip_joint".to_string(), 2),
    ];
    let mut posture = JointVec::zeros();
    posture.legs.fl.hip = d(0.5);
    posture.legs.rr.calf = d(-0.75);
    let q = build_q(vec![d(9.0); 4], &joints, &posture);
    let q: Vec<f64> = q.into_iter().map(f).collect();
    assert_eq!(q, vec![9.0, -0.75, 9.0, 0.5]);
}

#[test]
fn a_play_rests_however_its_time_is_split() {
    for split in [vec![1.5], vec![0.4, 0.2, 0.9], vec![0.0, 0.7, 0.0, 0.8], vec![0.01; 150]] {
        let mut player = PosePlayer::start(&library(), "greeting", JointVec::zeros()).unwrap();
        for dt in split {
            tick(&mut player, dt);
        }
        for dt in [0.0, 0.005, 1e300] {
            assert!(player.is_done());
            assert!((f(player.current().legs.fl.thigh) - 1.3).abs() < 1e-9);
            assert!((f(player.current().arm) + 1.0).abs() < 1e-9);
            tick(&mut player, dt);
        }
    }
}

#[test]
fn a_tick_asks_and_tells_until_nothing_is_due() {
    for dt in [0.0, 0.25, 0.5, 0.75, 1.0, 2.0, f64::INFINITY] {
        let mut ticked = PosePlayer::start(&library(), "greeting", JointVec::zeros()).unwrap();
        let mut told = ticked.clone();
        let target = tick(&mut ticked, dt);
        told.advance(d(dt));
        loop {
            let (angles, ended) = evaluate(&told.ask());
            if !told.told(JointVec::from_slice(&angles), ended) {
                break;
            }
        }
        assert_eq!(target, told.current());
        assert_eq!(ticked.current(), told.current());
        assert_eq!(ticked.step_name(), told.step_name());
        assert_eq!(ticked.is_done(), told.is_done());
        assert_eq!(ticked.is_done(), dt >= 1.0);
    }
}
