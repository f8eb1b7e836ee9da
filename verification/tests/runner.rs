//! The command line, the configuration, the live view and the control loop.
use namiashi::control::cli::{
    dispatch, parse_count, secs_or_forever, viz_config, Cli, Command,
};
use namiashi::control::config::{AppConfig, AppFault, GaitTuning};
use namiashi::control::controller::{Answer, Ask, Controller, State};
use namiashi::control::dump::{
    check_limits, command_for, crouch_pose, every_of, gait_of, header, step_count, time_of,
};
use namiashi::control::jointvec::JointVec;
use namiashi::control::pose::PoseLibrary;
use namiashi::control::runner::{
    check_mode_switch, command_of, exit_code, fault_line, hottest, hurdle_after, status_line,
    total_errors, write_targets, Hurdle, Loop, PerLegText, RunOptions, StatusNumbers, Watch,
};
use namiashi::control::session::{Senses, Session};
use namiashi::control::teleop::{
    Attitude, GaitSelect, ModeRequest, OperatorCommand, Teleop, TeleopConfig,
};
use namiashi::control::viz::{frame, frame_period, BodyView, Frames, Publisher, VizConfig};
use namiashi::double::{double, Double};
use namiashi::hal::arm::{connect, ArmServo};
use namiashi::hal::config::HardwareConfig;
use namiashi::hal::joint::{JointMode, JointState, LegSlot, PerJoint, PerLeg};
use namiashi::hal::legs::{BusRequest, BusStats, JointStatus};
use namiashi::hal::sbus::{Counters, SbusState, CHANNELS, RAW_CENTER, RAW_MAX, RAW_MIN};

const MS: u64 = 1_000_000;

fn d(x: f64) -> Double {
    double(x.to_bits())
}

fn f(x: Double) -> f64 {
    f64::from_bits(x.bits)
}

fn cli(args: &[&str]) -> Cli {
    Cli::parse(args.iter().map(|s| s.to_string()).collect())
}

fn number(c: &Cli, key: &str) -> Option<f64> {
    c.str(key).and_then(|s| s.parse().ok())
}

#[test]
fn the_default_command_is_the_harmless_one() {
    assert_eq!(cli(&[]).command(), "check");
}

#[test]
fn both_flag_spellings_parse() {
    let c = cli(&["run", "--status", "2.5", "--config=/tmp/a.toml"]);
    assert_eq!(c.command(), "run");
    assert_eq!(number(&c, "status"), Some(2.5));
    assert_eq!(c.str("config"), Some("/tmp/a.toml"));
}

#[test]
fn a_bool_flag_does_not_eat_the_next_token() {
    let c = cli(&["run", "--allow-no-sbus", "--secs", "3"]);
    assert!(c.flag("allow-no-sbus"));
    assert_eq!(number(&c, "secs"), Some(3.0));
}

#[test]
fn help_is_recognised_in_every_spelling() {
    assert!(cli(&["--help"]).wants_help());
    assert!(cli(&["-h"]).wants_help());
    assert!(cli(&["help"]).wants_help());
    assert!(!cli(&["run"]).wants_help());
}

#[test]
fn the_last_of_two_values_counts_and_an_empty_one_is_none() {
    let c = cli(&["dump", "--gait", "walk", "--gait=trot", "--out=", "--viz=false", "--every"]);
    assert_eq!(c.str("gait"), Some("trot"));
    assert_eq!(c.str("out"), None);
    assert!(!c.flag("viz"));
    assert!(!c.flag("nothing"));
    assert_eq!(c.str("every"), None);
    assert!(c.flag("every"));
    assert_eq!(c.positional(0), Some("dump"));
    assert_eq!(c.positional(1), None);
    assert_eq!(cli(&["--key=a=b"]).str("key"), Some("a=b"));
}

#[test]
fn counts_parse_as_the_standard_library_parses_them() {
    for s in ["0", "7", "42", "+9", "007", "", "+", "-1", "1 ", "x", "18446744073709551615",
        "18446744073709551616", "99999999999999999999999", "１"]
    {
        assert_eq!(parse_count(s), s.parse::<usize>().ok(), "{s:?}");
    }
    assert_eq!(cli(&["x", "--max-id", "12"]).usize("max-id"), Some(12));
    assert_eq!(cli(&["x", "--max-id", "many"]).usize("max-id"), None);
}

#[test]
fn commands_are_told_apart() {
    let all = [
        ("ports", Command::Ports),
        ("config", Command::Config),
        ("check", Command::Check),
        ("dump", Command::Dump),
        ("calib", Command::Calib),
        ("imu", Command::Imu),
        ("sbus", Command::Sbus),
        ("legs", Command::Legs),
        ("run", Command::Run),
    ];
    for (name, command) in all {
        assert_eq!(dispatch(&cli(&[name])), Ok(command));
        assert_eq!(
            command.needs_config(),
            !matches!(command, Command::Ports | Command::Config)
        );
    }
    assert_eq!(
        dispatch(&cli(&["fly\t"])),
        Err("未知のコマンド \"fly\\t\"。`namiashi --help` を見てください".to_string())
    );
}

#[test]
fn no_positive_time_means_forever() {
    let plain = cli(&["legs"]);
    assert_eq!(secs_or_forever(&plain, None, d(10.0)).map(f), Some(10.0));
    assert_eq!(secs_or_forever(&plain, Some(d(3.0)), d(10.0)).map(f), Some(3.0));
    assert_eq!(secs_or_forever(&plain, Some(d(0.0)), d(10.0)), None);
    assert_eq!(secs_or_forever(&plain, Some(d(-1.0)), d(10.0)), None);
    assert_eq!(secs_or_forever(&cli(&["legs", "--forever"]), Some(d(3.0)), d(10.0)), None);
}

#[test]
fn the_live_view_is_read_from_the_command_line() {
    let v = viz_config(&cli(&["run"]), None);
    assert!(!v.enabled);
    assert_eq!(v.key_planned, "go2/gait/planned");
    assert_eq!(v.key_measured, "go2/gait/measured");
    assert_eq!(f(v.rate_hz), 100.0);
    assert_eq!(v.endpoint, None);
    let v = viz_config(
        &cli(&["run", "--viz", "--viz-key", "a", "--viz-key-measured=a", "--viz-endpoint", "tcp/x"]),
        Some(d(20.0)),
    );
    assert!(v.enabled);
    assert_eq!(v.endpoint.as_deref(), Some("tcp/x"));
    assert_eq!(f(v.rate_hz), 20.0);
    assert_eq!(
        v.check().unwrap_err(),
        "--viz-key と --viz-key-measured が同じです ('a')。チャネルは latest-wins なので 1 本に両方流すと上書きし合います"
    );
}

#[test]
fn config_default_config_is_valid() {
    AppConfig::default().validate().unwrap();
}

fn explain(fault: &AppFault) -> String {
    let (a, b) = fault.numbers();
    fault.message(&f(a).to_string(), &f(b).to_string())
}

#[test]
fn control_rate_above_the_bus_rate_is_rejected() {
    let mut cfg = AppConfig::default();
    cfg.control.rate_hz = d(f(cfg.hardware.legs.bus_rate_hz) * 2.0);
    assert!(cfg.validate().is_err());
    assert_eq!(
        explain(&cfg.validate().unwrap_err()),
        "control.rate_hz (1000) が legs.bus_rate_hz (500) を超えています。バスが追いつかないので制御周期を落とすか、バス周期を上げてください"
    );
}

#[test]
fn every_other_bad_configuration_is_named() {
    let mut cfg = AppConfig::default();
    cfg.control.rate_hz = d(0.0);
    assert_eq!(explain(&cfg.validate().unwrap_err()), "control.rate_hz は正の値が必要です");
    let mut cfg = AppConfig::default();
    cfg.gait.max_vy_m_s = d(-0.1);
    assert_eq!(explain(&cfg.validate().unwrap_err()), "gait の速度上限は正の値が必要です");
    let mut cfg = AppConfig::default();
    cfg.teleop.pose.channel = 17;
    assert_eq!(
        explain(&cfg.validate().unwrap_err()),
        "teleop.pose.channel は 1..=16 です (17 が指定されました)"
    );
    let mut cfg = AppConfig::default();
    cfg.hardware.legs.bus[0].motors[0].sign = d(2.0);
    assert_eq!(
        explain(&cfg.validate().unwrap_err()),
        "設定が不正です: 脚 FL の hip の sign は ±1.0 のみです (2 が指定されました)"
    );
}

#[test]
fn the_default_tuning_is_the_documented_one() {
    let g = GaitTuning::default();
    assert_eq!(f(g.stance_height_m), 0.20);
    assert_eq!(f(g.swing_height_m), 0.03);
    assert_eq!(f(g.max_vx_m_s), 0.15);
    assert_eq!(f(g.max_vy_m_s), 0.08);
    assert_eq!(f(g.max_wz_rad_s), 0.6);
    assert_eq!(f(g.height_range_m), 0.04);
    let c = AppConfig::default();
    assert_eq!(c.control.model, "models/namiashi.misa");
    assert_eq!(f(c.control.rate_hz), 200.0);
    assert_eq!(f(c.control.transition_s), 1.5);
    assert_eq!(c.control.start_pose, "constrain");
    assert_eq!(c.control.kinematics_pose, "extend");
    assert_eq!(c.poses.greeting, "greeting");
    assert_eq!(f(c.poses.chicken_head_gain), 1.0);
    assert_eq!(f(c.poses.chicken_head_tau_s), 0.05);
    assert_eq!(f(c.teleop.vx.deadband), 0.06);
}

#[test]
fn joints_are_laid_out_slot_major_in_the_fl_fr_rl_rr_order() {
    let q = JointVec::from_slice(&(0..12).map(|i| d(i as f64)).collect::<Vec<_>>());
    let fr = frame(1, 7, d(1.5), &q, &BodyView::default());
    assert_eq!(
        fr.joints.map(f),
        [0., 1., 2., 3., 4., 5., 6., 7., 8., 9., 10., 11.]
    );
    assert_eq!(fr.seq, 7);
    assert_eq!(f(fr.t_s), 1.5);
    assert_eq!(fr.version, 1);
}

#[test]
fn the_body_pose_is_x_y_z_yaw_and_roll_pitch_rides_alongside() {
    let body = BodyView {
        x: d(0.3),
        y: d(-0.1),
        yaw: d(0.5),
        z: d(0.20),
        roll: d(0.02),
        pitch: d(-0.05),
        stance: PerLeg { fl: true, fr: false, rl: true, rr: false },
    };
    let fr = frame(1, 0, d(0.0), &JointVec::zeros(), &body);
    assert_eq!(fr.pose.map(f), [0.3, -0.1, 0.20, 0.5]);
    assert_eq!(fr.pose_rp.map(f), [0.02, -0.05]);
    assert_eq!(fr.stance, [true, false, true, false]);
}

#[test]
fn a_planned_and_measured_pair_carries_one_seq() {
    let p = frame(1, 9, d(1.0), &JointVec::zeros(), &BodyView::default());
    let m = frame(1, 9, d(1.0), &JointVec::zeros(), &BodyView::default());
    let fs = Frames::both(p, m);
    assert_eq!(fs.planned.unwrap().seq, fs.measured.unwrap().seq);
    assert!(Frames::planned(p).measured.is_none());
    assert!(Frames::measured(p).planned.is_none());
}

#[test]
fn the_two_keys_differ_by_default() {
    let v = VizConfig::default();
    assert_ne!(v.key_planned, v.key_measured);
    v.check().unwrap();
}

#[test]
fn frames_are_paced_and_drops_are_counted() {
    assert_eq!(frame_period(d(100.0)), 10 * MS);
    assert_eq!(frame_period(d(0.0)), 1000 * MS);
    assert_eq!(frame_period(d(f64::NAN)), 1000 * MS);
    assert_eq!(frame_period(d(f64::INFINITY)), 0);
    let mut p = Publisher::new(10 * MS, 0);
    assert_eq!(p.due(0), Some(0));
    assert_eq!(p.due(9 * MS), None);
    assert_eq!(p.due(10 * MS), Some(1));
    p.handed_over(true);
    assert_eq!(
        p.summary(2),
        "ライブ可視化: 1 tick を配信しました（取りこぼし無し、put 2 件）"
    );
    p.handed_over(false);
    assert_eq!(
        p.summary(2),
        "ライブ可視化: 1 tick を配信、1 tick を取りこぼしました（送信が制御周期に追いつかず捨てた分。put 2 件）"
    );
}

fn sbus(channels: &[(usize, u16)]) -> SbusState {
    let mut s = SbusState {
        channels: [RAW_CENTER; CHANNELS],
        counters: Counters { frames: 1, desync_bytes: 0, slots: 0, unknown_slots: 0 },
        ..SbusState::initial(0)
    };
    for &(ch, raw) in channels {
        s.channels[ch - 1] = raw;
    }
    s
}

#[test]
fn a_silent_receiver_stops_the_start_unless_it_is_allowed() {
    let strict = RunOptions::default();
    let bench = RunOptions { allow_no_sbus: true, ..RunOptions::default() };
    let late = || Err("S.BUS (x) が 3000 ms 以内に応答しませんでした".to_string());
    let e = hurdle_after(Hurdle::Sbus, &strict, late()).unwrap_err();
    assert_eq!(
        e,
        "[retryable] S.BUS (x) が 3000 ms 以内に応答しませんでした。送信機の電源とポートを確認してください（ベンチで脚を浮かせて いるなら --allow-no-sbus）"
    );
    assert_eq!(exit_code(&e), 75);
    assert_eq!(hurdle_after(Hurdle::Sbus, &bench, late()), Ok(Hurdle::Imu));
    assert_eq!(hurdle_after(Hurdle::Imu, &strict, Err("x".to_string())), Ok(Hurdle::Anchored));
    let skipping = RunOptions { skip_zero: true, ..RunOptions::default() };
    assert_eq!(hurdle_after(Hurdle::Imu, &skipping, Ok(())), Ok(Hurdle::FirstRead));
    assert_eq!(
        hurdle_after(Hurdle::Anchored, &strict, Err("x".to_string())),
        Err("x（モータの電源とボーレートを確認してください）".to_string())
    );
    assert_eq!(
        hurdle_after(Hurdle::FirstRead, &strict, Err("x".to_string())),
        Err("x（12 軸すべてが応答している必要があります）".to_string())
    );
    assert_eq!(exit_code("x"), 1);
    assert_eq!(exit_code(""), 1);
    assert_eq!(Hurdle::Sbus.timeout_ms(), 3000);
}

#[test]
fn the_mode_switch_must_be_at_limp() {
    let mode = TeleopConfig::default().mode;
    let strict = RunOptions::default();
    assert_eq!(check_mode_switch(&mode, &sbus(&[(5, RAW_MIN)]), &strict), Ok(Hurdle::Open));
    let e = check_mode_switch(&mode, &sbus(&[(5, RAW_MAX)]), &strict).unwrap_err();
    assert!(e.starts_with("[retryable] CH5（モード）が脱力位置にありません（いま 2 段目 / raw 1811）"), "{e}");
    assert_eq!(exit_code(&e), 75);
    let bench = RunOptions { allow_no_sbus: true, ..RunOptions::default() };
    assert_eq!(check_mode_switch(&mode, &sbus(&[(5, RAW_MAX)]), &bench), Ok(Hurdle::Open));
}

#[test]
fn the_watch_tells_of_the_worst_joint_and_of_excursions_once() {
    let hw = HardwareConfig::default();
    let mut w = Watch::new(&hw);
    let mut targets = JointVec::zeros();
    targets.legs.rl.thigh = d(0.5);
    let mut measured = JointVec::zeros();
    measured.legs.fr.calf = d(2.8);
    let out = w.tick(&targets, &measured);
    assert_eq!(out.len(), 1);
    assert_eq!((out[0].leg, out[0].place), (LegSlot::Fr, 2));
    assert_eq!(f(out[0].angle), 2.8);
    assert_eq!(f(w.worst), 2.8);
    assert!(w.tick(&targets, &measured).is_empty());
    assert_eq!(w.take("2.800"), "2.800rad(FR calf)");
    assert_eq!(w.take("0.000"), "-");
    measured.legs.fr.calf = d(0.0);
    assert!(w.tick(&targets, &measured).is_empty());
    assert_eq!(w.take("0.500"), "0.500rad(RL thigh)");
    measured.legs.fr.calf = d(2.8);
    assert_eq!(w.tick(&targets, &measured).len(), 1);
}

#[test]
fn motors_are_switched_on_the_edge_only() {
    let mut l = Loop::new(5 * MS, 0);
    assert_eq!(l.switch(JointMode::Idle), None);
    assert_eq!(l.switch(JointMode::Position), Some(BusRequest::Enable));
    l.switched();
    assert_eq!(l.switch(JointMode::Position), None);
    assert_eq!(l.switch(JointMode::Idle), Some(BusRequest::Disable));
    l.switched();
    assert_eq!(l.switch(JointMode::Idle), None);
}

#[test]
fn a_late_period_is_not_caught_up_on() {
    let mut l = Loop::new(5 * MS, 0);
    assert_eq!(l.pace(MS), 4 * MS);
    assert_eq!(l.pace(12 * MS), 0);
    assert_eq!(l.worst_overrun, 2 * MS);
    assert_eq!(l.pace(13 * MS), 4 * MS);
    assert!(!l.count(d(1.0), 999 * MS));
    assert!(l.count(d(1.0), 1000 * MS));
    assert!(!l.count(d(0.0), 1000 * MS));
    l.shown(1000 * MS);
    assert_eq!(l.worst_overrun, 0);
    assert_eq!(l.ticks, 3);
    assert!(l.fault_hint(true));
    assert!(!l.fault_hint(true));
    assert!(!l.fault_hint(false));
    assert!(l.fault_hint(true));
}

#[test]
fn targets_become_commands_of_every_joint() {
    let mut q = JointVec::zeros();
    q.legs.rr.hip = d(0.25);
    let cmds = write_targets(&q, JointMode::Position, d(8.0));
    assert_eq!(f(cmds.rr.hip.position_rad), 0.25);
    assert_eq!(f(cmds.fl.calf.max_speed_rad_s), 8.0);
    assert_eq!(cmds.fl.calf.mode, JointMode::Position);
}

#[test]
fn a_bench_stands_and_a_lost_link_does_not() {
    let mut t = Teleop::new(
        TeleopConfig::default(),
        &GaitTuning::default(),
        &HardwareConfig::default().arm,
    );
    let strict = RunOptions::default();
    let bench = RunOptions { allow_no_sbus: true, ..RunOptions::default() };
    let live = sbus(&[(5, RAW_MAX), (2, RAW_MAX)]);
    assert_eq!(command_of(&mut t, &live, &strict, 100 * MS, 500 * MS).mode, ModeRequest::Relax);
    assert_eq!(command_of(&mut t, &live, &bench, 100 * MS, 500 * MS).mode, ModeRequest::Stand);
    let cmd = command_of(&mut t, &live, &strict, 100 * MS, 50 * MS);
    assert_eq!(cmd.mode, ModeRequest::Walk);
    assert!(f(cmd.vx_m_s) > 0.0);
    let lost = command_of(&mut t, &live, &strict, 100 * MS, 500 * MS);
    assert_eq!(lost.mode, ModeRequest::Walk);
    assert_eq!(f(lost.vx_m_s), 0.0);
}

#[test]
fn the_status_is_put_together() {
    let mut status = PerLeg::filled(PerJoint::filled(JointStatus::default()));
    assert_eq!(hottest(&status), None);
    status.rl.hip = JointStatus { temperature_c: d(44.0), valid: true, ..Default::default() };
    status.fr.calf = JointStatus { temperature_c: d(41.0), valid: true, ..Default::default() };
    status.fl.calf = JointStatus { temperature_c: d(99.0), ..Default::default() };
    assert_eq!(hottest(&status).map(f), Some(44.0));
    let mut stats = PerLeg::filled(BusStats::default());
    stats.fl.errors = 2;
    stats.rr.errors = 5;
    assert_eq!(total_errors(&stats), 7);
    let n = StatusNumbers {
        vx: "+0.100".into(),
        vy: "+0.000".into(),
        wz: "-0.200".into(),
        rates: PerLegText {
            fl: "420".into(),
            fr: "421".into(),
            rl: "422".into(),
            rr: "423".into(),
        },
        hottest: Some("44".into()),
        imu_rate: "200".into(),
        overrun_ms: "0.3".into(),
    };
    assert_eq!(
        status_line(State::Active, GaitSelect::Walk, &n, 7, 10, 0, 99, "-"),
        "[歩容] Walk v=(+0.100,+0.000,-0.200) 脚[FL:420Hz FR:421Hz RL:422Hz RR:423Hz] err=7 最高温44°C IMU 200Hz S.BUS 10f/0desync tick=99 遅延最大=0.3ms 追従最大=-"
    );
    let bad = JointStatus { error_raw: 0x0A, valid: true, ..Default::default() };
    assert_eq!(
        fault_line(LegSlot::Rr, 1, &bad, "24.1", "40"),
        "  異常: RR thigh **高電圧保護 + モータ過熱**（0x0A）24.1 V / 40 °C"
    );
}

fn session() -> Session {
    let cfg = AppConfig::default();
    let signs = PerLeg::filled(PerJoint::filled(d(1.0)));
    let lib = PoseLibrary::new(vec![], vec![], JointVec::zeros());
    let (controller, _) = Controller::new(lib, signs, &cfg);
    Session {
        opts: RunOptions::default(),
        timeout: 100 * MS,
        speed: d(8.0),
        teleop: Teleop::new(cfg.teleop, &cfg.gait, &cfg.hardware.arm),
        controller,
        arm: connect(&cfg.hardware.arm).unwrap(),
        watch: Watch::new(&cfg.hardware),
        beat: Loop::new(5 * MS, 0),
        cmd: OperatorCommand::failsafe(GaitSelect::Crawl, ModeRequest::Relax),
        measured: JointVec::zeros(),
    }
}

#[test]
fn a_period_runs_from_the_senses_to_the_commands() {
    let mut s = session();
    let mut states = PerLeg::filled(PerJoint::filled(JointState { ok: true, ..Default::default() }));
    states.fl.thigh.position_rad = d(0.4);
    let mut senses =
        Senses { sbus: sbus(&[(5, RAW_MIN), (6, RAW_MIN), (9, RAW_MAX)]), roll: d(0.0), pitch: d(0.0), states };
    let out = match s.begin(&senses, 10 * MS) {
        Ask::Done(out) => out,
        other => panic!("{other:?}"),
    };
    assert_eq!(out.state, State::Relaxed);
    assert_eq!(f(out.targets.legs.fl.thigh), 0.4);
    assert!((f(s.arm.position()) - 0.85).abs() < 1e-12);
    assert_eq!(s.beat.switch(out.leg_mode), None);
    let orders = s.end(&out);
    assert_eq!(orders.commands.fl.thigh.mode, JointMode::Idle);
    assert!(orders.excursions.is_empty());
    // Asked to walk, the robot without a start pose first asks for its stance.
    senses.sbus = sbus(&[(5, RAW_MAX), (6, RAW_MAX)]);
    assert!(matches!(s.begin(&senses, 20 * MS), Ask::Build(_)));
    assert!(matches!(s.resume(Answer::Done), Ask::Stance { .. }));
    let (idle, request) = s.farewell();
    assert_eq!(request, BusRequest::Disable);
    assert_eq!(idle.rr.calf.mode, JointMode::Idle);
}

#[test]
fn the_frames_of_a_period_share_their_number() {
    let mut l = Loop::new(5 * MS, 0);
    let q = JointVec::zeros();
    let body = BodyView { z: d(0.2), ..Default::default() };
    let fs = l.frames(1, 3, d(0.5), &q, &body, &q, (d(0.1), d(0.2), d(0.3)));
    assert!(fs.measured.is_none());
    l.look_for_readings(&PerLeg::filled(PerJoint::filled(JointState {
        ok: true,
        ..Default::default()
    })));
    let fs = l.frames(1, 3, d(0.5), &q, &body, &q, (d(0.1), d(0.2), d(0.3)));
    let m = fs.measured.unwrap();
    assert_eq!(m.seq, fs.planned.unwrap().seq);
    assert_eq!(m.pose_rp.map(f), [0.1, 0.2]);
    assert_eq!(m.pose.map(f), [0.0, 0.0, 0.2, 0.3]);
    assert_eq!(fs.planned.unwrap().pose_rp.map(f), [0.0, 0.0]);
}

#[test]
fn a_dump_rises_before_it_walks_and_reports_what_leaves_the_range() {
    assert_eq!(gait_of(&cli(&["dump"])), Ok(GaitSelect::Crawl));
    assert_eq!(gait_of(&cli(&["dump", "--gait", "trot"])), Ok(GaitSelect::Trot));
    assert_eq!(
        gait_of(&cli(&["dump", "--gait", "fly"])),
        Err("未知の歩容 \"fly\"（crawl|walk|trot）".to_string())
    );
    assert_eq!(every_of(&cli(&["dump"])), 20);
    assert_eq!(every_of(&cli(&["dump", "--every", "0"])), 1);
    assert_eq!(step_count(d(4.0), d(0.005)), 800);
    assert_eq!(f(time_of(3, d(0.005))), 3.0 * 0.005);
    let level = Attitude { roll: d(0.0), pitch: d(0.0), yaw: d(0.0) };
    let cmd = command_for(State::GoingToStart, GaitSelect::Walk, d(0.1), d(0.0), d(0.0), level);
    assert_eq!(f(cmd.vx_m_s), 0.0);
    let cmd = command_for(State::Active, GaitSelect::Walk, d(0.1), d(0.0), d(0.2), level);
    assert_eq!((f(cmd.vx_m_s), f(cmd.wz_rad_s)), (0.1, 0.2));
    assert_eq!(header(), format!("{:<21}{:<21}{:<21}{:<21}", "FL", "FR", "RL", "RR"));
    let mut hw = HardwareConfig::default();
    hw.legs.bus[2].motors[1].zero_pose_rad = d(0.3);
    assert_eq!(f(crouch_pose(&hw).legs.rl.thigh), 0.3);
    let mut q = JointVec::zeros();
    let mut out = Vec::new();
    check_limits(&hw, &q, d(0.0), &mut out);
    assert!(out.is_empty());
    q.legs.fr.hip = d(-0.9);
    check_limits(&hw, &q, d(1.0), &mut out);
    assert_eq!(out.len(), 1);
    assert_eq!((out[0].bus, out[0].place), (1, 0));
    assert_eq!(f(out[0].min_rad), -std::f64::consts::FRAC_PI_4);
}

#[test]
fn what_stands_behind_an_option_is_read_alike_in_both_spellings() {
    let spaced = cli(&["run", "--status", "2.5", "legs", "--viz", "imu"]);
    let joined = cli(&["run", "--status=2.5", "legs", "--viz", "imu"]);
    for c in [spaced, joined] {
        assert_eq!(c.positionals, ["run", "legs", "imu"]);
        assert_eq!(c.str("status"), Some("2.5"));
        assert!(c.flag("viz"));
    }
    // A flag of presence leaves even what looks like a value.
    let c = cli(&["--plain", "false", "--forever", "--skip-zero"]);
    assert_eq!(c.positionals, ["false"]);
    assert!(c.flag("plain") && c.flag("forever") && c.flag("skip-zero"));
}

#[test]
fn a_limp_period_drives_no_leg_whatever_was_going_on() {
    let mut s = session();
    let states = PerLeg::filled(PerJoint::filled(JointState { ok: true, ..Default::default() }));
    let walk = sbus(&[(5, RAW_MAX), (6, RAW_MAX)]);
    let relax = sbus(&[(5, RAW_MIN), (6, RAW_MAX)]);
    let mut senses = Senses { sbus: walk, roll: d(0.0), pitch: d(0.0), states };
    assert!(matches!(s.begin(&senses, 20 * MS), Ask::Build(_)));
    senses.sbus = relax;
    let mut ask = s.begin(&senses, 30 * MS);
    for _ in 0..3 {
        if !matches!(ask, Ask::Done(_)) {
            ask = s.resume(Answer::Done);
        }
    }
    let out = match ask {
        Ask::Done(out) => out,
        other => panic!("{other:?}"),
    };
    let orders = s.end(&out);
    for leg in LegSlot::ALL {
        for k in 0..3 {
            assert_eq!(orders.commands.get(leg).get(k).mode, JointMode::Idle);
        }
    }
}

#[test]
fn by_default_nothing_is_skipped_or_shown() {
    let opts = RunOptions::default();
    assert!(!opts.allow_no_sbus && !opts.skip_zero && !opts.viz.enabled);
    assert_eq!(f(opts.status_interval_s), 1.0);
    assert_eq!(opts.viz.key_planned, "go2/gait/planned");
}
