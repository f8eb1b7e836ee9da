//! Calibration and diagnosis.
use namiashi::control::calib::jog::{
    check_angle, jog_target, measure_one, set_sign, sign_answer, travel_time, verdict, wait_frame,
    Jog, JogAction, JogEvent, JogPlan, Outcome, Reading, Verdict,
};
use namiashi::control::calib::procedure::{status_wait, steps, Blame, Procedure, Step};
use namiashi::control::calib::range::{goes_on, set_range, Extent};
use namiashi::control::calib::scan::{
    collect_answers, probe_config, scan_chunk, scan_chunks, scan_limit, scan_line,
};
use namiashi::control::calib::zero::{
    collect_unread, held_pose, joint_gear, single_turn, single_turn_verdict, zero_offsets,
};
use namiashi::control::calib::{
    angle_changes, clear_headline, clear_verdict, health_line, joint_label, leg_filter,
    report_faults, restart_headline, restart_verdict, run, scope, target_joint, Scope, Subcommand,
};
use namiashi::control::cli::Cli;
use namiashi::control::config::{AppConfig, GaitTuning};
use namiashi::control::diag::{
    bar, bus_line, channel_roles, deadline_label, disp_width, farewell, flag, link_status,
    measured, missing_poses, monitor_lines, pad, plain_line, port_line, role_of, running,
    telemetry, teleop_lines, warn, watched_body, wiring_line, BusNumbers, LegsWatch, Numbers,
};
use namiashi::control::jointvec::JointVec;
use namiashi::control::pose::{Interpolation, Pose, PoseLibrary};
use namiashi::control::teleop::{GaitSelect, ModeRequest, OperatorCommand, Teleop, TeleopConfig};
use namiashi::double::{double, Double};
use namiashi::hal::ch348::Ch348Port;
use namiashi::hal::config::HardwareConfig;
use namiashi::hal::legs::JointMap;
use namiashi::hal::joint::{JointMode, JointState, LegSlot, PerJoint, PerLeg};
use namiashi::hal::legs::{BusRequest, JointStatus};
use namiashi::hal::sbus::{Counters, SbusState, CHANNELS, RAW_CENTER};

fn d(x: f64) -> Double {
    double(x.to_bits())
}

fn f(x: Double) -> f64 {
    f64::from_bits(x.bits)
}

fn cli(args: &[&str]) -> Cli {
    Cli::parse(args.iter().map(|s| s.to_string()).collect())
}

fn ok_state(q: f64) -> JointState {
    JointState { position_rad: d(q), ok: true, ..Default::default() }
}

#[test]
fn subcommands_are_told_apart() {
    let all = [
        ("scan", Subcommand::Scan),
        ("move", Subcommand::Move),
        ("range", Subcommand::Range),
        ("zero", Subcommand::Zero),
        ("clear-multiturn", Subcommand::ClearMultiTurn),
        ("single-turn", Subcommand::SingleTurn),
        ("clear-error", Subcommand::ClearError),
        ("restart", Subcommand::Restart),
    ];
    for (name, sub) in all {
        assert_eq!(run(&cli(&["calib", name])), Ok(sub));
    }
    assert_eq!(
        run(&cli(&["calib"])).unwrap_err(),
        "calib のサブコマンドを指定してください（scan|move|range|zero|clear-multiturn）"
    );
    assert_eq!(
        run(&cli(&["calib", "fix"])).unwrap_err(),
        "未知の calib サブコマンド \"fix\"（scan|move|range|zero|clear-multiturn|single-turn|clear-error|restart）"
    );
}

#[test]
fn legs_and_joints_are_named_on_the_command_line() {
    assert_eq!(leg_filter(&cli(&["calib"])), Ok(None));
    assert_eq!(leg_filter(&cli(&["calib", "--leg", "rL"])), Ok(Some(LegSlot::Rl)));
    assert_eq!(
        leg_filter(&cli(&["calib", "--leg", "xx"])).unwrap_err(),
        "--leg \"xx\" が不正です（FL/FR/RL/RR）"
    );
    assert_eq!(
        target_joint(&cli(&["calib", "--leg", "fr", "--joint", "calf"])),
        Ok((LegSlot::Fr, 2))
    );
    assert_eq!(
        target_joint(&cli(&["calib", "--joint", "calf"])).unwrap_err(),
        "--leg FL|FR|RL|RR が必要です"
    );
    assert_eq!(
        target_joint(&cli(&["calib", "--leg", "fl"])).unwrap_err(),
        "--joint hip|thigh|calf が必要です"
    );
    assert_eq!(
        target_joint(&cli(&["calib", "--leg", "fl", "--joint", "knee"])).unwrap_err(),
        "--joint \"knee\" が不正です（hip|thigh|calf）"
    );
    assert_eq!(scope(&cli(&["calib"])), Ok(Scope::All));
    assert_eq!(scope(&cli(&["calib", "--leg", "FL"])), Ok(Scope::Leg(LegSlot::Fl)));
    assert_eq!(
        scope(&cli(&["calib", "--leg", "FL", "--joint", "thigh"])),
        Ok(Scope::Joint(LegSlot::Fl, 1))
    );
    assert_eq!(
        scope(&cli(&["calib", "--joint", "thigh"])).unwrap_err(),
        "--joint を使うときは --leg も指定してください"
    );
    assert_eq!(
        scope(&cli(&["calib", "--joint", "knee"])).unwrap_err(),
        "--joint \"knee\" が不正です（hip/thigh/calf）"
    );
    assert_eq!(
        joint_label(&HardwareConfig::default(), LegSlot::Rr, 1),
        "RR_thigh_joint (id 2)"
    );
}

#[test]
fn a_scan_tries_three_ids_at_a_time_without_repeating_one() {
    assert_eq!(scan_limit(None), 8);
    assert_eq!(scan_limit(Some(0)), 1);
    assert_eq!(scan_limit(Some(99)), 32);
    assert_eq!(scan_chunk(1, 8), vec![1, 2, 3]);
    assert_eq!(scan_chunk(7, 8), vec![7, 8]);
    assert_eq!(scan_chunk(32, 32), vec![32]);
    assert_eq!(scan_chunks(8), vec![vec![1, 2, 3], vec![4, 5, 6], vec![7, 8]]);
    assert_eq!(scan_chunks(1), vec![vec![1]]);
    assert_eq!(scan_chunks(32).len(), 11);
    for ids in [vec![4, 5, 6], vec![7, 8], vec![32], vec![31, 32]] {
        let hw = probe_config(HardwareConfig::default(), LegSlot::Rl, &ids).unwrap();
        hw.validate().unwrap();
        let bus = hw.bus_for(LegSlot::Rl).unwrap();
        let got: Vec<u8> = bus.motors.iter().map(|m| m.id).collect();
        assert_eq!(&got[..ids.len()], &ids[..]);
        let untouched: Vec<u8> =
            hw.bus_for(LegSlot::Fl).unwrap().motors.iter().map(|m| m.id).collect();
        assert_eq!(untouched, vec![1, 2, 3]);
    }
    let hw = probe_config(HardwareConfig::default(), LegSlot::Rl, &vec![31, 32]).unwrap();
    assert_eq!(hw.bus_for(LegSlot::Rl).unwrap().motors[2].id, 30);
    let mut found = vec![1];
    let states = PerJoint { hip: ok_state(0.0), thigh: JointState::default(), calf: ok_state(0.0) };
    collect_answers(&mut found, &vec![4, 5, 6], &states);
    assert_eq!(found, vec![1, 4, 6]);
    assert_eq!(scan_line(&vec![], &vec![1, 2, 3], 1_000_000), "応答なし（モータ電源とボーレート 1000000 を確認）");
    assert_eq!(scan_line(&vec![1, 2, 3], &vec![1, 2, 3], 1), "id 1, 2, 3 が応答");
    assert_eq!(
        scan_line(&vec![1, 3], &vec![1, 2, 3], 1),
        "id 1, 3 が応答（設定は [1, 2, 3]。食い違っています）"
    );
}

fn plan(deg: f64, sign: f64) -> JogPlan {
    JogPlan {
        leg: LegSlot::Fl,
        joint: 1,
        deg: d(deg),
        speed: d(0.3),
        sign: d(sign),
        min_rad: d(-1.0),
        max_rad: d(1.0),
        max_target_rate: d(3.0),
    }
}

#[test]
fn a_jog_moves_one_joint_and_releases_it() {
    let mut jog = Jog::new(plan(5.0, -1.0));
    let mut sent = Vec::new();
    let mut commands = Vec::new();
    let outcome = loop {
        let event = match jog.action() {
            JogAction::End(outcome) => break outcome,
            JogAction::Send(r) => {
                sent.push(r);
                JogEvent::Done
            }
            JogAction::Command(c) => {
                commands.push(c);
                JogEvent::Done
            }
            JogAction::Read => JogEvent::Angle(if commands.is_empty() { d(0.2) } else { d(0.11) }),
            JogAction::Sleep { seconds } => {
                assert!((f(seconds) - (5f64.to_radians() / 3.0 + 1.0)).abs() < 1e-12);
                JogEvent::Done
            }
            _ => JogEvent::Done,
        };
        jog.step(event);
    };
    assert_eq!(sent, vec![BusRequest::EnableJoint(1), BusRequest::DisableJoint(1)]);
    assert_eq!(outcome, Outcome::Went { before: d(0.2), after: d(0.11) });
    assert_eq!(commands.len(), 2);
    assert!((f(commands[0].thigh.position_rad) - (0.2 - 5f64.to_radians())).abs() < 1e-12);
    assert_eq!(commands[0].hip.mode, JointMode::Idle);
    assert_eq!(commands[1].thigh.mode, JointMode::Idle);
}

#[test]
fn a_jog_into_the_end_of_the_range_is_refused_and_released() {
    let mut jog = Jog::new(plan(5.0, 1.0));
    let mut sent = Vec::new();
    let outcome = loop {
        let event = match jog.action() {
            JogAction::End(outcome) => break outcome,
            JogAction::Send(r) => {
                sent.push(r);
                JogEvent::Done
            }
            JogAction::Read => JogEvent::Angle(d(0.99)),
            _ => JogEvent::Done,
        };
        jog.step(event);
    };
    assert_eq!(sent, vec![BusRequest::EnableJoint(1), BusRequest::DisableJoint(1)]);
    match outcome {
        Outcome::Refused(c) => {
            assert_eq!(f(c.before), 0.99);
            assert!((f(c.would_move) - 0.01).abs() < 1e-12);
        }
        other => panic!("{other:?}"),
    }
    // A failure after the joint was powered releases it too.
    let mut jog = Jog::new(plan(5.0, 1.0));
    let mut sent = Vec::new();
    while !matches!(jog.action(), JogAction::End(_)) {
        let event = match jog.action() {
            JogAction::Send(r) => {
                sent.push(r);
                JogEvent::Done
            }
            JogAction::Read => JogEvent::Angle(d(0.0)),
            JogAction::Sleep { .. } => JogEvent::Failed,
            _ => JogEvent::Done,
        };
        jog.step(event);
    }
    assert_eq!(sent, vec![BusRequest::EnableJoint(1), BusRequest::DisableJoint(1)]);
}

#[test]
fn a_jog_is_judged_by_how_far_it_went() {
    check_angle(d(5.0)).unwrap();
    check_angle(d(-30.0)).unwrap();
    for bad in [0.4, 31.0, f64::NAN] {
        assert_eq!(
            check_angle(d(bad)).unwrap_err(),
            "--deg は 0.5..30 の範囲で指定してください（校正は小さく動かす）"
        );
    }
    assert_eq!(verdict(d(0.1), d(0.1)), Verdict::Moved);
    assert_eq!(verdict(d(-0.09), d(0.1)), Verdict::Moved);
    assert_eq!(verdict(d(0.2), d(0.1)), Verdict::Unusable);
    assert_eq!(verdict(d(0.001), d(0.1)), Verdict::Still);
    // The other way is judged by the same measure.
    assert_eq!(verdict(d(-0.1), d(-0.1)), Verdict::Moved);
    assert_eq!(verdict(d(-0.2), d(-0.1)), Verdict::Unusable);
    assert_eq!(verdict(d(-0.001), d(-0.1)), Verdict::Still);
    assert_eq!(verdict(d(0.0), d(-0.1)), Verdict::Still);
    assert!(jog_target(d(0.0), d(1.0), d(0.1), d(-1.0), d(1.0)).is_ok());
    assert_eq!(f(sign_answer("yes")), 1.0);
    assert_eq!(f(sign_answer("n")), -1.0);
    assert_eq!(f(sign_answer("")), -1.0);
    assert_eq!(f(travel_time(d(-0.3), d(0.0))), 0.3 / 0.1 + 1.0);
    let mut hw = HardwareConfig::default();
    set_sign(&mut hw, 3, 2, d(1.0));
    assert_eq!(f(hw.legs.bus[3].motors[2].sign), 1.0);
    assert_eq!(f(hw.legs.bus[3].motors[1].sign), -1.0);
    assert!(matches!(measure_one(&ok_state(0.5), LegSlot::Fl, 0, "", 0, 9), Reading::Angle(_)));
    assert!(matches!(
        measure_one(&JointState::default(), LegSlot::Fl, 0, "", 0, 9),
        Reading::Again { ns: 20_000_000 }
    ));
    match measure_one(&JointState::default(), LegSlot::Fl, 2, "timeout", 9, 9) {
        Reading::Silent(e) => assert_eq!(e, "FL 軸2 が応答しません（timeout）"),
        other => panic!("{other:?}"),
    }
    assert_eq!(wait_frame(true, 9, 9), Ok(None));
    assert_eq!(wait_frame(false, 8, 9), Ok(Some(50_000_000)));
    assert_eq!(
        wait_frame(false, 9, 9).unwrap_err(),
        "マルチターンフレームを確立できません（モータ電源とボーレートを確認してください）"
    );
}

#[test]
fn a_range_is_recorded_from_fresh_readings_only() {
    let mut e = Extent::new();
    assert_eq!(
        e.limits(d(0.05)).unwrap_err(),
        "動きが記録できませんでした（モータ電源とバスを確認してください）"
    );
    e.see(&ok_state(0.2));
    e.see(&JointState { position_rad: d(9.0), ..Default::default() });
    assert!(e.limits(d(0.05)).is_err());
    e.see(&ok_state(-0.4));
    e.see(&ok_state(0.1));
    let (lo, hi) = e.limits(d(0.05)).unwrap();
    assert_eq!((f(lo), f(hi)), (-0.4 + 0.05, 0.2 - 0.05));
    assert!(goes_on(false, d(1.0), Some(d(2.0))));
    assert!(!goes_on(false, d(2.0), Some(d(2.0))));
    assert!(goes_on(false, d(9e9), None));
    assert!(!goes_on(true, d(0.0), None));
    let mut hw = HardwareConfig::default();
    set_range(&mut hw, 0, 2, lo, hi);
    assert_eq!(hw.legs.bus[0].motors[2].min_rad, lo);
    assert_eq!(hw.legs.bus[0].motors[2].max_rad, hi);
    hw.validate().unwrap();
}

#[test]
fn zeroing_makes_the_held_pose_the_reading() {
    let mut hw = HardwareConfig::default();
    hw.legs.bus[1].motors[0].zero_pose_rad = d(0.25);
    let mut held = JointVec::zeros();
    held.legs.fr.hip = d(1.0);
    held.legs.rl.calf = d(-2.0);
    let mut states = PerLeg::filled(PerJoint::filled(ok_state(0.5)));
    let out = zero_offsets(hw.clone(), &held, &states).unwrap();
    assert_eq!(f(out.legs.bus[1].motors[0].zero_pose_rad), 1.0 - (0.5 - 0.25));
    assert_eq!(f(out.legs.bus[2].motors[2].zero_pose_rad), -2.5);
    assert_eq!(f(out.legs.bus[0].motors[0].zero_pose_rad), -0.5);
    assert_eq!(out.legs.bus[0].motors[0].max_rad, hw.legs.bus[0].motors[0].max_rad);
    states.fr.calf.ok = false;
    assert_eq!(
        zero_offsets(hw, &held, &states).unwrap_err(),
        "FR 軸2 の状態が読めません（モータ電源とバスを確認してください）"
    );
}

#[test]
fn the_pose_to_hold_must_exist() {
    let lib = PoseLibrary::new(
        vec![Pose {
            name: "constrain".into(),
            angles: vec![("FL_thigh_joint".into(), d(1.0))],
            duration: d(1.0),
            kind: Interpolation::Linear,
        }],
        vec![],
        JointVec::zeros(),
    );
    assert_eq!(f(held_pose(&lib, "constrain").unwrap().legs.fl.thigh), 1.0);
    assert_eq!(
        held_pose(&lib, "sit").unwrap_err(),
        "姿勢 \"sit\" がモデルにありません（[\"constrain\"]）"
    );
    let mut cfg = AppConfig::default();
    assert_eq!(missing_poses(&cfg, &lib), (false, true));
    cfg.poses.greeting = "constrain".into();
    cfg.control.start_pose = "sit".into();
    assert_eq!(missing_poses(&cfg, &lib), (true, false));
}

#[test]
fn single_turn_angles_are_scaled_by_the_gear() {
    let hw = HardwareConfig::default();
    assert_eq!(f(joint_gear(&hw, LegSlot::Fl, 0)), 10.0);
    let gear = joint_gear(&hw, LegSlot::Fl, 2);
    assert!((f(gear) - 280.0 / 18.0).abs() < 1e-12);
    let s = single_turn(Some(12345), d(10.0));
    let (motor, joint) = s.angles.unwrap();
    assert_eq!((f(motor), f(joint), f(s.wrap_deg)), (123.45, 12.345, 36.0));
    assert!(single_turn(None, gear).angles.is_none());
    let mut missing = Vec::new();
    collect_unread(&mut missing, LegSlot::Fr, &PerJoint { hip: None, thigh: Some(1), calf: None });
    assert_eq!(missing, vec!["FR hip", "FR calf"]);
    assert_eq!(
        single_turn_verdict(&missing),
        vec!["**読めなかった軸がある: FR hip, FR calf**", "直近エラー:"]
    );
    assert_eq!(single_turn_verdict(&Vec::new()).len(), 2);
}

#[test]
fn procedures_ask_before_they_move_an_origin() {
    let all = steps(Procedure::Restart, Scope::All, status_wait(1000));
    assert_eq!(all[0], Step::Confirm);
    assert_eq!(all[3], Step::Sleep { ms: 4000 });
    let sent: Vec<Step> =
        all.iter().copied().filter(|s| matches!(s, Step::Send { .. })).collect();
    assert_eq!(sent.len(), 4);
    assert_eq!(sent[1], Step::Send { leg: LegSlot::Fr, request: BusRequest::Restart });
    assert!(all.contains(&Step::WaitAnchored { timeout_ms: 5000, blame: Blame::Restart }));
    let one = steps(Procedure::ClearMultiTurn, Scope::Joint(LegSlot::Rl, 2), 0);
    assert_eq!(one[0], Step::Confirm);
    assert!(one.contains(&Step::Send {
        leg: LegSlot::Rl,
        request: BusRequest::ClearMultiTurnJoint(2)
    }));
    let read = steps(Procedure::SingleTurn, Scope::Leg(LegSlot::Fl), 0);
    assert_eq!(read[0], Step::Connect);
    let clear = steps(Procedure::ClearError, Scope::All, 8);
    assert!(clear.contains(&Step::StopIfSound));
    assert_eq!(
        Blame::Frame.explain("x"),
        "x（フレームの張り直しに失敗しました）"
    );
    assert_eq!(
        restart_headline(Scope::Joint(LegSlot::Fl, 1)),
        "**FL の thigh だけ**ドライバを再起動します（電源再投入と等価）。"
    );
    assert_eq!(
        clear_headline(Scope::All),
        "**12 軸すべて**のマルチターンカウンタを 0 に戻します（モータ電源 OFF/ON 相当）。"
    );
    assert_eq!(restart_verdict(0, 0).len(), 1);
    assert_eq!(
        restart_verdict(3, 2)[0],
        "**2 軸で異常が残りました。再起動では解除できません。**"
    );
    assert_eq!(
        restart_verdict(3, 0)[0],
        "**異常が消えました。再起動は保護の解除に使えます。**"
    );
    assert_eq!(clear_verdict(0), vec!["**消えました。**"]);
    assert_eq!(
        clear_verdict(1)[0],
        "**1 軸で消えませんでした。原因がまだ残っています。**"
    );
}

#[test]
fn faults_are_counted_in_their_scope() {
    let mut status = PerLeg::filled(PerJoint::filled(JointStatus::default()));
    let bad = JointStatus { error_raw: 1, valid: true, ..Default::default() };
    status.fl.hip = bad;
    status.rr.calf = bad;
    assert_eq!(report_faults(&status, None), 2);
    assert_eq!(report_faults(&status, Some(LegSlot::Rr)), 1);
    assert_eq!(report_faults(&status, Some(LegSlot::Fr)), 0);
    assert_eq!(health_line(LegSlot::Fl, 0, &bad, "19.8", "40"), "  FL hip   **低電圧保護**（0x01）  19.8 V / 40 °C");
    let fine = JointStatus { valid: true, ..Default::default() };
    assert_eq!(health_line(LegSlot::Fl, 1, &fine, "24.0", "40"), "  FL thigh 正常  24.0 V / 40 °C");
    assert_eq!(health_line(LegSlot::Fl, 2, &JointStatus::default(), "", ""), "  FL calf … 未読");
    let a = PerJoint::filled(ok_state(0.5));
    let b = PerJoint::filled(ok_state(0.75));
    assert_eq!(f(angle_changes(&a, &b).calf), 0.25);
}

fn sbus_state() -> SbusState {
    SbusState {
        channels: [RAW_CENTER; CHANNELS],
        counters: Counters { frames: 3, desync_bytes: 2, slots: 5, unknown_slots: 0 },
        sbus2: true,
        ..SbusState::initial(0)
    }
}

#[test]
fn the_link_says_why_it_is_down() {
    let mut s = sbus_state();
    assert_eq!(link_status(&s, true), "link=OK");
    assert_eq!(link_status(&s, false), "link=NG(TIMEOUT)");
    s.frame_lost = true;
    assert_eq!(link_status(&s, false), "link=NG(FRAME_LOST)");
    s.failsafe = true;
    assert_eq!(link_status(&s, false), "link=NG(FAILSAFE+FRAME_LOST)");
    assert_eq!((flag(true), flag(false), warn(true), warn(false)), ("●", "○", "⚠YES", "no"));
}

#[test]
fn telemetry_that_never_came_is_not_zero_volts() {
    let mut s = sbus_state();
    assert_eq!(
        telemetry(&s, &None, &Some("24.1".into())),
        "S.BUS2 Rx-Batt=--- Ext-Volt=24.1V"
    );
    s.counters.unknown_slots = 4;
    assert_eq!(
        telemetry(&s, &Some("5.0".into()), &None),
        "S.BUS2 Rx-Batt=5.0V Ext-Volt=--- unknown=4"
    );
    assert_eq!(
        farewell(&s).unwrap(),
        "\n注意: S.BUS2 ですがスロット 0 が一度も来ていません（slots=5 unknown=4）。"
    );
    s.external_v = Some(d(24.1));
    assert_eq!(farewell(&s), None);
    s.sbus2 = false;
    assert_eq!(telemetry(&s, &None, &None), "S.BUS1(テレメトリ無)");
    assert!(farewell(&s).unwrap().starts_with("\n注意: S.BUS1"));
}

#[test]
fn columns_are_counted_and_not_characters() {
    assert_eq!(disp_width("前後"), 4);
    assert_eq!(disp_width("CH1█·"), 5);
    assert_eq!(pad("腕", 8), "腕      ");
    assert_eq!(pad("ポーズ再生中", 8), "ポーズ再生中");
    assert_eq!(bar(0, 4), "····");
    assert_eq!(bar(2047, 4), "████");
    assert_eq!(bar(1024, 4), "██··");
}

fn numbers() -> Numbers {
    Numbers {
        fps: " 67.0".into(),
        vx: "+0.000".into(),
        vy: "+0.000".into(),
        wz: "+0.000".into(),
        height: "+0.000".into(),
        arm: Some("-0.725".into()),
        rx_battery_v: None,
        external_v: None,
    }
}

#[test]
fn the_monitor_shows_channels_and_what_is_made_of_them() {
    let s = sbus_state();
    let mut t = Teleop::new(
        TeleopConfig::default(),
        &GaitTuning::default(),
        &HardwareConfig::default().arm,
    );
    let cmd = t.update(&s, true);
    let roles = channel_roles(&TeleopConfig::default());
    assert_eq!(roles[0], "左右");
    assert_eq!(roles[8], "腕");
    assert_eq!(roles[15], "");
    let lines = monitor_lines("/dev/s", &s, &cmd, &roles, &numbers());
    assert_eq!(lines.len(), 15);
    assert_eq!(
        lines[0],
        "namiashi sbus  /dev/s  100000 8E2    67.0 fps  frames=3 slots=5 desync=2"
    );
    assert_eq!(lines[1], "link=OK   CH17:○  CH18:○   FRAME_LOST:no   FAILSAFE:no");
    assert_eq!(lines[3], "-".repeat(76));
    assert_eq!(lines[4], "  CH 1 左右      992 █████·······   CH 2 前後      992 █████·······");
    assert_eq!(
        lines[14],
        "  モード=Stand   歩容=Walk   ポーズ=再生   チキンヘッド=on   腕=-0.725rad"
    );
    let mut waiting = s;
    waiting.counters.frames = 0;
    let lines = monitor_lines("/dev/s", &waiting, &cmd, &roles, &numbers());
    assert_eq!(lines.len(), 8);
    assert!(lines[4].contains("フレーム待ち"));
    let lost = OperatorCommand::failsafe(GaitSelect::Crawl, ModeRequest::Relax);
    assert_eq!(
        plain_line(&s, &lost, &numbers()),
        "1: 992 2: 992 3: 992 4: 992 5: 992 6: 992 7: 992 8: 992  |  v=(+0.000,+0.000,+0.000) h=+0.000 mode=Relax gait=Crawl pose=false chicken=false arm=-0.725rad link=NG(TIMEOUT) S.BUS2 Rx-Batt=--- Ext-Volt=---  67.0fps frames=3 desync=2"
    );
}

#[test]
fn ports_and_wiring_are_listed() {
    assert_eq!(role_of(1), "LEG2 (RL) RS485");
    assert_eq!(role_of(9), "-");
    assert_eq!(
        port_line(&Ch348Port { path: "/dev/ttyCH9344USB0".into(), uart_index: 5 }),
        format!("{:>4}  {:<24}  {}", 5, "/dev/ttyCH9344USB0", "IMU (TTL)")
    );
    let hw = HardwareConfig::default();
    assert_eq!(wiring_line(&hw.legs.bus[1]), "  FR UART2 [hip=1 thigh=2 calf=3]");
    let lines = teleop_lines(&TeleopConfig::default());
    assert_eq!(lines[1], "  CH2 前後  CH1 左右  CH4 旋回  CH3 高さ");
    assert_eq!(lines[3], "  CH9 腕（観測のみ。アプリからは駆動しない）");
}

#[test]
fn a_watch_lasts_as_long_as_it_should() {
    assert!(running(false, d(1.0), Some(d(2.0))));
    assert!(!running(false, d(2.0), Some(d(2.0))));
    assert!(!running(true, d(0.0), None));
    assert_eq!(deadline_label(&Some("10".into())), "10 秒");
    assert_eq!(deadline_label(&None), "Ctrl-C まで");
    let mut w = LegsWatch::new(0);
    let mut states = PerLeg::filled(PerJoint::filled(ok_state(0.25)));
    states.fl.hip.ok = false;
    assert!(!w.may_show(&states));
    states.fl.hip.ok = true;
    assert!(w.may_show(&states));
    states.fl.hip.ok = false;
    assert!(w.may_show(&states));
    assert!(w.text_due(0));
    assert!(!w.text_due(499_999_999));
    assert!(w.text_due(500_000_000));
    assert_eq!(f(measured(&states, d(0.5)).legs.rr.calf), 0.25);
    assert_eq!(f(measured(&states, d(0.5)).arm), 0.5);
    let body = watched_body(d(0.2), d(0.1), d(-0.1), d(0.3));
    assert_eq!((f(body.z), f(body.roll), f(body.pitch), f(body.yaw)), (0.2, 0.1, -0.1, 0.3));
    let n = BusNumbers {
        rate: " 420.0".into(),
        worst_ms: " 6.00".into(),
        q: ["+0.250".into(), "+0.250".into(), "+0.250".into()],
        celsius: ["40".into(), "41".into(), "42".into()],
    };
    assert_eq!(
        bus_line(LegSlot::Fr, 3, &states.fr, "", &n),
        "FR  420.0Hz 最悪 6.00ms err=3    q=[+0.250 +0.250 +0.250] T=[40 41 42]°C ok=true"
    );
    assert_eq!(
        bus_line(LegSlot::Fl, 0, &states.fl, "x", &n),
        "FL  420.0Hz 最悪 6.00ms err=0    q=[+0.250 +0.250 +0.250] T=[40 41 42]°C ok=false 直近エラー: x"
    );
}

#[test]
fn a_held_joint_reads_near_its_pose_with_its_new_zero() {
    for (sign, zero, motor, pose) in
        [(1.0, 0.1, 0.7, 1.3), (-1.0, -2.3, 12.34567, -0.9), (-1.0, 900.3, -1000.1, 1000.7)]
    {
        let mut hw = HardwareConfig::default();
        hw.legs.bus[0].motors[0].sign = d(sign);
        hw.legs.bus[0].motors[0].zero_pose_rad = d(zero);
        let reading = JointMap::new(&hw.legs.bus[0].motors[0]).to_model(d(motor));
        let mut states = PerLeg::filled(PerJoint::filled(ok_state(0.0)));
        states.fl.hip.position_rad = reading;
        let mut held = JointVec::zeros();
        held.legs.fl.hip = d(pose);
        let out = zero_offsets(hw, &held, &states).unwrap();
        let again = JointMap::new(&out.legs.bus[0].motors[0]).to_model(d(motor));
        assert!((f(again) - pose).abs() < 1e-12, "{} {pose}", f(again));
    }
}
