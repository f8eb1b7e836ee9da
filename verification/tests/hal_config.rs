//! The hardware configuration and the legs' values.
use namiashi::double::{double, Double};
use namiashi::hal::config::{
    HardwareConfig, MotorConfig, PortSpec, CALF_LIMIT_RAD, CALF_PULLEY_TEETH, HIP_NARROW_RAD,
    HIP_WIDE_RAD, THIGH_LIMIT_RAD,
};
use namiashi::hal::error::{Error, Fault};
use namiashi::hal::joint::{JointState, LegSlot, PerJoint, PerLeg};
use namiashi::hal::legs::{
    all_anchored, all_ok, faults, slew_step, BusRequest, JointMap, JointStatus,
};

fn d(x: f64) -> Double {
    double(x.to_bits())
}

fn f(x: Double) -> f64 {
    f64::from_bits(x.bits)
}

fn fault(cfg: &HardwareConfig) -> String {
    match cfg.validate() {
        Err(Error::Config(fault)) => {
            let (a, b) = fault.numbers();
            fault.message(&f(a).to_string(), &f(b).to_string())
        }
        other => panic!("{other:?}"),
    }
}

#[test]
fn default_config_is_valid() {
    HardwareConfig::default().validate().unwrap();
}

#[test]
fn default_signs_flip_roll_front_rear_and_pitch_left_right() {
    let cfg = HardwareConfig::default();
    let expected = [
        (LegSlot::Fl, [1.0, 1.0, 1.0]),
        (LegSlot::Rl, [-1.0, 1.0, 1.0]),
        (LegSlot::Fr, [1.0, -1.0, -1.0]),
        (LegSlot::Rr, [-1.0, -1.0, -1.0]),
    ];
    for (leg, signs) in expected {
        let bus = cfg.bus_for(leg).unwrap();
        let got: Vec<f64> = bus.motors.iter().map(|m| f(m.sign)).collect();
        assert_eq!(got, signs.to_vec(), "{} の符号", leg.prefix());
    }
}

#[test]
fn only_calf_overrides_the_gear_ratio() {
    let cfg = HardwareConfig::default();
    let bus_default = cfg.legs.gear_ratio;
    let teeth = (f(double(CALF_PULLEY_TEETH.0)), f(double(CALF_PULLEY_TEETH.1)));
    assert_eq!(teeth, (28.0, 18.0));
    for leg in LegSlot::ALL {
        let bus = cfg.bus_for(leg).unwrap();
        for m in &bus.motors {
            let expected = if m.kind == "calf" {
                f(bus_default) * teeth.0 / teeth.1
            } else {
                f(bus_default)
            };
            assert!(
                (f(m.gear_ratio_or(bus_default)) - expected).abs() < 1e-9,
                "{} の {} は減速比 {expected}",
                leg.prefix(),
                m.kind
            );
        }
        for m in bus.motors.iter().filter(|m| m.kind != "calf") {
            assert_eq!(m.gear_ratio, None, "{} の {}", leg.prefix(), m.kind);
        }
    }
}

#[test]
fn default_wiring_is_uart0_to_3_equals_fl_rl_fr_rr() {
    let cfg = HardwareConfig::default();
    let expected = [
        (LegSlot::Fl, 0u16),
        (LegSlot::Rl, 1),
        (LegSlot::Fr, 2),
        (LegSlot::Rr, 3),
    ];
    for (leg, uart) in expected {
        let bus = cfg.bus_for(leg).unwrap();
        match bus.port {
            PortSpec::Uart(n) => assert_eq!(n, uart, "{} は UART{uart} のはず", leg.prefix()),
            PortSpec::Path(_) => panic!("{} は UART{uart} のはず", leg.prefix()),
        }
        assert_eq!(
            bus.motors.iter().map(|m| m.id).collect::<Vec<_>>(),
            vec![1, 2, 3]
        );
    }
}

#[test]
fn default_numbers_are_the_documented_ones() {
    let cfg = HardwareConfig::default();
    assert_eq!(cfg.legs.baud, 1_000_000);
    assert_eq!(cfg.legs.response_timeout_ms, 5);
    assert_eq!(f(cfg.legs.bus_rate_hz), 500.0);
    assert_eq!(f(cfg.legs.gear_ratio), 10.0);
    assert_eq!(f(cfg.legs.default_max_speed_rad_s), 8.0);
    assert_eq!(f(cfg.legs.max_target_rate_rad_s), 3.0);
    assert_eq!(cfg.legs.status_interval_ms, 1000);
    assert_eq!(cfg.imu.baud, 921_600);
    assert_eq!(cfg.imu.response_timeout_ms, 50);
    assert_eq!(cfg.sbus.stale_after_ms, 100);
    assert_eq!(cfg.arm.baud, 115_200);
    assert_eq!(f(cfg.arm.min_rad), -2.3);
    assert_eq!(f(cfg.arm.max_rad), 0.85);
    assert_eq!(f(double(HIP_WIDE_RAD)), 1.0471975511965976);
    assert_eq!(f(double(HIP_NARROW_RAD)), std::f64::consts::FRAC_PI_4);
    assert_eq!(f(double(THIGH_LIMIT_RAD)), 2.5307274153917776);
    assert_eq!(f(double(CALF_LIMIT_RAD)), 2.6969417523103556);
    let fl = cfg.bus_for(LegSlot::Fl).unwrap();
    assert_eq!(f(fl.motors[0].min_rad), -1.0471975511965976);
    assert_eq!(f(fl.motors[0].max_rad), std::f64::consts::FRAC_PI_4);
    let rr = cfg.bus_for(LegSlot::Rr).unwrap();
    assert_eq!(f(rr.motors[0].min_rad), -std::f64::consts::FRAC_PI_4);
    assert_eq!(f(rr.motors[0].max_rad), 1.0471975511965976);
}

#[test]
fn swapped_joint_order_is_rejected() {
    let mut cfg = HardwareConfig::default();
    cfg.legs.bus[0].motors.swap(0, 1);
    assert!(cfg.validate().is_err());
    assert_eq!(
        fault(&cfg),
        "脚 FL の 0 番目は \"hip\" であるべきですが \"thigh\" です（並び順は hip, thigh, calf 固定）"
    );
}

#[test]
fn duplicate_motor_id_on_one_bus_is_rejected() {
    let mut cfg = HardwareConfig::default();
    cfg.legs.bus[0].motors[1].id = 1;
    assert!(cfg.validate().is_err());
    assert_eq!(
        fault(&cfg),
        "脚 FL でモータ id 1 が重複しています（同一バス上では区別できません）"
    );
}

#[test]
fn duplicate_leg_is_rejected() {
    let mut cfg = HardwareConfig::default();
    cfg.legs.bus[1].leg = "FL".into();
    assert!(cfg.validate().is_err());
    assert_eq!(fault(&cfg), "脚 FL が 2 回定義されています");
}

#[test]
fn inverted_joint_limits_are_rejected() {
    let mut cfg = HardwareConfig::default();
    cfg.legs.bus[0].motors[0].min_rad = d(1.0);
    cfg.legs.bus[0].motors[0].max_rad = d(-1.0);
    assert!(cfg.validate().is_err());
    assert_eq!(fault(&cfg), "脚 FL の hip の可動域が不正です (min 1 >= max -1)");
}

#[test]
fn every_other_fault_is_named() {
    let mut cfg = HardwareConfig::default();
    cfg.legs.bus.pop();
    assert_eq!(fault(&cfg), "脚バスは 4 本必要ですが 3 本しかありません");
    let mut cfg = HardwareConfig::default();
    cfg.legs.bus[2].leg = "X\n".into();
    assert_eq!(fault(&cfg), "脚の名前 \"X\\n\" が不正です (FL/FR/RL/RR)");
    let mut cfg = HardwareConfig::default();
    cfg.legs.bus[3].motors.pop();
    assert_eq!(fault(&cfg), "脚 RR のモータは 3 個必要ですが 2 個です");
    let mut cfg = HardwareConfig::default();
    cfg.legs.bus[3].motors[2].id = 0;
    assert_eq!(fault(&cfg), "脚 RR の calf の id が 0 です（LKMTech V3 の id は 1 始まり）");
    let mut cfg = HardwareConfig::default();
    cfg.legs.bus[1].motors[1].sign = d(0.5);
    assert_eq!(fault(&cfg), "脚 FR の thigh の sign は ±1.0 のみです (0.5 が指定されました)");
    let mut cfg = HardwareConfig::default();
    cfg.legs.bus[1].motors[1].max_rad = d(f64::INFINITY);
    assert!(cfg.validate().is_err());
    let mut cfg = HardwareConfig::default();
    cfg.legs.bus_rate_hz = d(0.0);
    assert_eq!(fault(&cfg), "legs.bus_rate_hz は正の値が必要です");
    let mut cfg = HardwareConfig::default();
    cfg.arm.max_rad = cfg.arm.min_rad;
    assert_eq!(fault(&cfg), "arm の可動域が不正です");
    assert_eq!(Fault::Other { text: "x".into() }.message("", ""), "x");
}

#[test]
fn error_bits_are_spelled_out_not_left_as_hex() {
    let low = JointStatus { error_raw: 0x01, valid: true, ..Default::default() };
    assert_eq!(low.describe(), "低電圧保護");
    let both = JointStatus { error_raw: 0x0C, valid: true, ..Default::default() };
    assert_eq!(both.describe(), "ドライバ過熱 + モータ過熱");
    assert_eq!(JointStatus::default().describe(), "");
    let ok = JointStatus { valid: true, ..Default::default() };
    assert_eq!(ok.describe(), "");
    let odd = JointStatus { error_raw: 0x80, valid: true, ..Default::default() };
    assert_eq!(odd.describe(), "未定義ビット");
    let all = JointStatus { error_raw: 0x1F, valid: true, ..Default::default() };
    assert_eq!(all.describe(), "低電圧保護 + 高電圧保護 + ドライバ過熱 + モータ過熱 + 未定義ビット");
}

fn map(sign: f64, zero: f64) -> JointMap {
    JointMap {
        sign: d(sign),
        zero_pose_rad: d(zero),
        min_rad: d(-3.0),
        max_rad: d(3.0),
    }
}

#[test]
fn model_motor_transform_round_trips() {
    for (sign, zero) in [(1.0, 0.0), (-1.0, 0.0), (1.0, 0.7), (-1.0, -0.4)] {
        let m = map(sign, zero);
        for q in [-1.0, 0.0, 0.25, 1.5] {
            let back = f(m.to_model(m.to_motor(d(q))));
            assert!((back - q).abs() < 1e-12, "sign={sign} zero={zero} q={q}");
        }
    }
}

#[test]
fn zero_pose_angle_maps_to_motor_zero() {
    let m = map(-1.0, 1.3);
    assert!(f(m.to_motor(d(1.3))).abs() < 1e-12);
}

#[test]
fn commands_are_clamped_to_the_joint_limits() {
    let m = JointMap {
        sign: d(1.0),
        zero_pose_rad: d(0.0),
        min_rad: d(-0.5),
        max_rad: d(0.5),
    };
    assert_eq!(f(m.to_motor(d(10.0))), 0.5);
    assert_eq!(f(m.to_motor(d(-10.0))), -0.5);
}

fn slew(from: f64, want: f64, rate: f64, dt: f64) -> f64 {
    f(slew_step(d(from), d(want), d(rate), d(dt)))
}

#[test]
fn the_slew_limit_caps_how_far_the_target_moves_per_tick() {
    let out = slew(0.0, 1.5, 3.0, 0.002);
    assert!((out - 0.006).abs() < 1e-12, "{out}");
}

#[test]
fn the_slew_limit_is_symmetric_and_converges() {
    let mut q = 0.0;
    for _ in 0..1000 {
        q = slew(q, -1.0, 3.0, 0.002);
    }
    assert!((q + 1.0).abs() < 1e-9, "{q}");
}

#[test]
fn a_small_move_passes_through_untouched() {
    let out = slew(0.0, 0.001, 3.0, 0.002);
    assert!((out - 0.001).abs() < 1e-12, "{out}");
}

#[test]
fn a_zero_rate_disables_the_limit() {
    assert_eq!(slew(0.0, 1.5, 0.0, 0.002), 1.5);
}

#[test]
fn a_status_with_no_reading_is_not_a_fault() {
    let unread = JointStatus::default();
    assert!(!unread.valid);
    assert!(!unread.faulted());
    let ok = JointStatus { valid: true, error_raw: 0, ..Default::default() };
    assert!(!ok.faulted());
    let bad = JointStatus { valid: true, error_raw: 0x08, ..Default::default() };
    assert!(bad.faulted());
}

#[test]
fn negative_sign_flips_velocity_and_torque() {
    let m = map(-1.0, 0.9);
    assert_eq!(f(m.rate_to_model(d(2.0))), -2.0);
}

#[test]
fn a_map_takes_its_numbers_from_the_motor() {
    let cfg = HardwareConfig::default();
    let motor: &MotorConfig = &cfg.bus_for(LegSlot::Rr).unwrap().motors[2];
    let m = JointMap::new(motor);
    assert_eq!(m.sign, motor.sign);
    assert_eq!(m.zero_pose_rad, motor.zero_pose_rad);
    assert_eq!(m.min_rad, motor.min_rad);
    assert_eq!(m.max_rad, motor.max_rad);
}

#[test]
fn faults_are_listed_by_leg_and_place() {
    let mut status = PerLeg::filled(PerJoint::filled(JointStatus::default()));
    assert!(faults(&status).is_empty());
    let bad = JointStatus { error_raw: 2, valid: true, ..Default::default() };
    status.rl.calf = bad;
    status.fl.thigh = bad;
    let seen: Vec<(LegSlot, usize)> = faults(&status).iter().map(|x| (x.0, x.1)).collect();
    assert_eq!(seen, vec![(LegSlot::Fl, 1), (LegSlot::Rl, 2)]);
}

#[test]
fn all_joints_must_answer_and_all_buses_must_be_anchored() {
    let good = JointState { ok: true, ..Default::default() };
    let mut states = PerLeg::filled(PerJoint::filled(good));
    assert!(all_ok(&states));
    states.rr.hip.ok = false;
    assert!(!all_ok(&states));
    let mut anchored = PerLeg::filled(true);
    assert!(all_anchored(&anchored));
    anchored.fr = false;
    assert!(!all_anchored(&anchored));
}

#[test]
fn requests_are_named_as_they_are_written() {
    assert_eq!(BusRequest::Enable.describe(), format!("{:?}", BusRequest::Enable));
    assert_eq!(
        BusRequest::ClearMultiTurnJoint(2).describe(),
        format!("{:?}", BusRequest::ClearMultiTurnJoint(2))
    );
    for request in [
        BusRequest::Disable,
        BusRequest::Zero,
        BusRequest::EnableJoint(0),
        BusRequest::DisableJoint(1),
        BusRequest::ClearMultiTurn,
        BusRequest::Restart,
        BusRequest::RestartJoint(11),
        BusRequest::ClearError,
        BusRequest::ReadPid,
        BusRequest::ReadSingleTurn,
    ] {
        assert_eq!(request.describe(), format!("{request:?}"));
    }
}
