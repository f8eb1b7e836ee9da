//! Joints, ports, sensors and the arm.
use namiashi::double::{double, Double};
use namiashi::hal::arm::{connect, ArmServo, NullArm, ReceiverDirectArm};
use namiashi::hal::ch348::{find_by_uart_index, list_ports, uart, Ch348Port, PortMap};
use namiashi::hal::config::{ArmConfig, ArmProtocol, HardwareConfig, PortSpec};
use namiashi::hal::error::{Error, Fault};
use namiashi::hal::imu::{convert, ImuLog, ImuSample, RawSample, G};
use namiashi::hal::joint::{
    lookup, JointCommand, JointMode, JointState, LegSlot, ARM_JOINT_NAME, JOINT_NAMES,
};
use namiashi::hal::sbus::{
    Counters, DriverState, Frame, FrameWatch, SbusState, CHANNELS, RAW_CENTER,
};
use namiashi::hal::wait::Wait;

fn d(x: f64) -> Double {
    double(x.to_bits())
}

fn f(x: Double) -> f64 {
    f64::from_bits(x.bits)
}

fn port(path: &str, uart_index: u16) -> Ch348Port {
    Ch348Port { path: path.to_string(), uart_index }
}

fn message(e: &Error) -> String {
    let (a, b) = match e {
        Error::Config(fault) => fault.numbers(),
        _ => (d(0.0), d(0.0)),
    };
    e.message(&f(a).to_string(), &f(b).to_string())
}

#[test]
fn joint_names_follow_the_legid_order() {
    assert_eq!(JOINT_NAMES[LegSlot::Fl.index()][0], "FL_hip_joint");
    assert_eq!(JOINT_NAMES[LegSlot::Rr.index()][2], "RR_calf_joint");
}

#[test]
fn lookup_round_trips_every_leg_joint() {
    for leg in LegSlot::ALL {
        for (k, name) in JOINT_NAMES[leg.index()].iter().enumerate() {
            assert_eq!(lookup(name), Some((leg, k)), "{name}");
        }
    }
    assert_eq!(lookup(ARM_JOINT_NAME), None);
}

#[test]
fn prefix_round_trips() {
    for leg in LegSlot::ALL {
        assert_eq!(LegSlot::from_prefix(leg.prefix()), Some(leg));
    }
    assert_eq!(LegSlot::from_prefix("fl"), None);
    assert_eq!(LegSlot::from_prefix(""), None);
}

#[test]
fn places_lead_back_to_their_slots() {
    for (i, leg) in LegSlot::ALL.into_iter().enumerate() {
        assert_eq!(leg.index(), i);
        assert_eq!(LegSlot::from_index(i), leg);
    }
}

#[test]
fn a_fresh_command_is_idle_and_a_fresh_state_is_not_ok() {
    let command = JointCommand::default();
    assert_eq!(command.mode, JointMode::Idle);
    assert_eq!(f(command.position_rad), 0.0);
    let state = JointState::default();
    assert!(!state.ok);
    assert_eq!(f(state.position_rad), 0.0);
}

#[test]
fn uart_map_matches_the_as_built_spec() {
    assert_eq!(uart::LEGS, [0, 1, 2, 3]);
    assert_eq!(uart::ARM_A, 4);
    assert_eq!(uart::IMU, 5);
    assert_eq!(uart::SBUS, 6);
    assert_eq!(uart::ARM_B, 7);
}

#[test]
fn listing_ports_never_panics_without_hardware() {
    let _ = list_ports(Ok(Vec::new()));
    let _ = list_ports(Err("no such device".to_string()));
    let _ = PortMap::discover(Ok(Vec::new()));
    let _ = PortMap::discover(Err("no such device".to_string()));
}

#[test]
fn an_empty_map_says_no_board_rather_than_no_such_uart() {
    let err = message(&PortMap::default().path_for(0).unwrap_err());
    assert!(err.contains("1 本も見つかりません"), "{err}");
}

#[test]
fn a_map_without_the_wanted_uart_lists_what_it_did_find() {
    let map = PortMap::from_ports(vec![port("/dev/ttyCH9344USB0", 0)]);
    let err = message(&map.path_for(uart::SBUS).unwrap_err());
    assert!(err.contains("UART6"), "{err}");
    assert!(err.contains("0=/dev/ttyCH9344USB0"), "{err}");
}

#[test]
fn ports_are_sorted_and_equal_numbers_keep_their_order() {
    let map = PortMap::from_ports(vec![
        port("/dev/c", 5),
        port("/dev/a", 1),
        port("/dev/d", 5),
        port("/dev/b", 0),
    ]);
    let seen: Vec<(u16, &str)> =
        map.ports().iter().map(|p| (p.uart_index, p.path.as_str())).collect();
    assert_eq!(seen, vec![(0, "/dev/b"), (1, "/dev/a"), (5, "/dev/c"), (5, "/dev/d")]);
    assert_eq!(map.path_for(5).unwrap(), "/dev/c");
    let err = message(&map.path_for(3).unwrap_err());
    assert_eq!(
        err,
        "CH348 のポート探索に失敗しました: UART3 が見つかりません（見つかったのは 0=/dev/b, 1=/dev/a, 5=/dev/c, 5=/dev/d）"
    );
}

#[test]
fn a_failed_listing_is_reported() {
    let err = list_ports(Err("EIO".to_string())).unwrap_err();
    assert_eq!(
        message(&err),
        "CH348 のポート探索に失敗しました: CH348 のポート探索に失敗しました: EIO"
    );
    assert!(find_by_uart_index(0, Err("EIO".to_string())).is_err());
    let listing = Ok(vec![port("/dev/x", 6), port("/dev/y", 6)]);
    assert_eq!(find_by_uart_index(6, listing).unwrap(), "/dev/x");
}

#[test]
fn a_path_needs_no_listing() {
    let spec = PortSpec::Path("/dev/ttyUSB7".to_string());
    assert_eq!(spec.resolve(Err("none".to_string())).unwrap(), "/dev/ttyUSB7");
    assert_eq!(spec.resolve_with(&PortMap::default()).unwrap(), "/dev/ttyUSB7");
    assert_eq!(spec.label(), "/dev/ttyUSB7");
    let spec = PortSpec::Uart(12);
    assert_eq!(spec.label(), "UART12");
    assert!(spec.resolve(Ok(Vec::new())).is_err());
    assert_eq!(spec.resolve(Ok(vec![port("/dev/q", 12)])).unwrap(), "/dev/q");
    assert_eq!(
        spec.resolve_with(&PortMap::from_ports(vec![port("/dev/q", 12)])).unwrap(),
        "/dev/q"
    );
}

#[test]
fn errors_name_their_port() {
    let e = Error::OpenPort { port: "/dev/a".to_string(), source: "busy".to_string() };
    assert_eq!(message(&e), "/dev/a を開けませんでした: busy");
    let e = Error::Motor { port: "/dev/a".to_string(), motor_id: 2, source: "crc".to_string() };
    assert_eq!(message(&e), "/dev/a (LKMTech id=2): crc");
    let e = Error::Imu { port: "/dev/b".to_string(), source: "eof".to_string() };
    assert_eq!(message(&e), "IMU (/dev/b): eof");
    let e = Error::SbusDriver { port: "/dev/c".to_string(), source: "eof".to_string() };
    assert_eq!(message(&e), "S.BUS (/dev/c): eof");
    let e = Error::Timeout { what: "脚のゼロ出し".to_string(), timeout_ms: 3000 };
    assert_eq!(message(&e), "脚のゼロ出し が 3000 ms 以内に応答しませんでした");
    let e = Error::Io("disk".to_string());
    assert_eq!(message(&e), "disk");
    let e = Error::Config(Fault::BusRate);
    assert_eq!(message(&e), "設定が不正です: legs.bus_rate_hz は正の値が必要です");
}

fn raw(angle_deg: [f64; 3], gyro_dps: [f64; 3], accel_g: [f64; 3]) -> RawSample {
    RawSample {
        accel_g: accel_g.map(d),
        gyro_dps: gyro_dps.map(d),
        angle_deg: angle_deg.map(d),
        temperature_c: d(25.0),
    }
}

#[test]
fn units_are_converted_to_si() {
    let s = convert(
        &raw([90.0, 0.0, 0.0], [180.0, 0.0, 0.0], [0.0, 0.0, 1.0]),
        [d(0.0); 3],
        0,
    );
    assert!((f(s.rpy_rad[0]) - std::f64::consts::FRAC_PI_2).abs() < 1e-9);
    assert!((f(s.gyro_rad_s[0]) - std::f64::consts::PI).abs() < 1e-9);
    assert!((f(s.accel_m_s2[2]) - 9.80665).abs() < 1e-9);
}

#[test]
fn mount_offset_is_subtracted() {
    let s = convert(&raw([10.0, 0.0, 0.0], [0.0; 3], [0.0; 3]), [d(0.1), d(0.0), d(0.0)], 0);
    assert!((f(s.rpy_rad[0]) - (10.0f64.to_radians() - 0.1)).abs() < 1e-9);
}

#[test]
fn placeholder_reports_gravity_and_level_attitude() {
    let p = ImuSample::placeholder(5);
    assert_eq!(p.rpy_rad.map(f), [0.0; 3]);
    assert!((f(p.accel_m_s2[2]) - 9.80665).abs() < 1e-12);
    assert_eq!(f(double(G)), 9.80665);
    assert!(p.is_fresh(10, 15));
    assert!(!p.is_fresh(10, 16));
}

#[test]
fn the_imu_log_counts_samples_and_measures_its_rate() {
    let mut log = ImuLog::new(0);
    assert!(log.sample.is_none());
    assert_eq!(f(log.sample_or_level(9).accel_m_s2[2]), 9.80665);
    assert!(matches!(log.wait_ready("/dev/imu", 0, 100, 1), Wait::Again { ns: 5_000_000 }));
    let sample = raw([1.0, 2.0, 3.0], [0.0; 3], [0.0; 3]);
    for i in 1..=200u64 {
        log.received(&sample, [d(0.0); 3], 4, i * 5_000_000);
    }
    log.failed();
    assert_eq!(log.stats.samples, 200);
    assert_eq!(log.stats.errors, 1);
    assert_eq!(log.stats.resync_bytes, 4);
    assert_eq!(f(log.stats.rate_hz), 200.0);
    assert_eq!(log.window_samples, 0);
    assert!(matches!(log.wait_ready("/dev/imu", 0, 100, 1), Wait::Ready));
    match ImuLog::new(0).wait_ready("/dev/imu", 100, 100, 2000) {
        Wait::Late(e) => {
            assert_eq!(message(&e), "IMU (/dev/imu) が 2000 ms 以内に応答しませんでした")
        }
        other => panic!("{other:?}"),
    }
}

const MS: u64 = 1_000_000;

fn counters(frames: u64) -> Counters {
    Counters { frames, desync_bytes: 0, slots: 0, unknown_slots: 0 }
}

fn driver(frames: u64, failsafe: bool) -> DriverState {
    DriverState {
        frame: Some(Frame {
            channels: [RAW_CENTER; CHANNELS],
            ch17: true,
            ch18: false,
            frame_lost: false,
            failsafe,
        }),
        sbus2: true,
        rx_battery_v: None,
        external_v: Some(d(24.1)),
        fps: d(67.0),
        counters: counters(frames),
    }
}

#[test]
fn a_state_with_no_frames_is_never_usable() {
    let s = SbusState::initial(0);
    assert!(!s.is_fresh(10_000 * MS, 0));
    assert!(!s.is_usable(10_000 * MS, 0));
    assert!(matches!(s.wait_ready("/dev/s", 0, 1, 1), Wait::Again { ns: 5_000_000 }));
}

#[test]
fn failsafe_is_not_usable_even_when_fresh() {
    let s = SbusState::from_driver(&driver(1, true), 0);
    assert!(s.is_fresh(10_000 * MS, 0));
    assert!(!s.is_usable(10_000 * MS, 0));
}

#[test]
fn a_stale_stamp_is_not_usable_even_without_failsafe() {
    let s = SbusState::from_driver(&driver(1, false), 0);
    assert!(!s.failsafe);
    assert!(s.is_usable(100 * MS, 100 * MS));
    assert!(!s.is_usable(100 * MS, 500 * MS));
}

#[test]
fn a_snapshot_carries_what_the_driver_knows() {
    let s = SbusState::from_driver(&driver(3, false), 17);
    assert_eq!(s.channels, [RAW_CENTER; CHANNELS]);
    assert!(s.ch17 && !s.ch18 && s.sbus2);
    assert_eq!(s.external_v.map(f), Some(24.1));
    assert_eq!(s.counters.frames, 3);
    assert_eq!(s.stamp, 17);
    assert_eq!(s.channel(15), Some(RAW_CENTER));
    assert_eq!(s.channel(16), None);
    let mut nothing = driver(0, false);
    nothing.frame = None;
    assert_eq!(SbusState::from_driver(&nothing, 0).channels, [0; CHANNELS]);
}

#[test]
fn telemetry_alone_does_not_refresh_the_link() {
    let mut watch = FrameWatch::new(0);
    let s = watch.observe(&driver(1, false), 10 * MS);
    assert_eq!(s.stamp, 10 * MS);
    // The count stands still: the time of the last frame stays.
    for i in 2..20u64 {
        let s = watch.observe(&driver(1, false), i * 10 * MS);
        assert_eq!(s.stamp, 10 * MS);
    }
    assert!(!watch.observe(&driver(1, false), 200 * MS).is_usable(100 * MS, 200 * MS));
    assert_eq!(watch.observe(&driver(2, false), 300 * MS).stamp, 300 * MS);
}

fn arm_cfg() -> ArmConfig {
    HardwareConfig::default().arm
}

#[test]
fn the_default_wiring_is_receiver_direct_and_not_app_driven() {
    let arm = connect(&arm_cfg()).unwrap();
    assert!(arm.is_connected(), "受信機直結の腕は実在する");
    assert!(!arm.is_app_driven(), "アプリからは駆動しない");
}

#[test]
fn a_receiver_direct_arm_ignores_commands_and_reports_what_it_observed() {
    let mut arm = ReceiverDirectArm::new(&arm_cfg());
    arm.observe(d(-0.5));
    arm.set_position(d(0.8)).unwrap();
    assert_eq!(f(arm.position()), -0.5);
}

#[test]
fn an_observed_angle_is_clamped_to_the_joint_limits() {
    let c = arm_cfg();
    let mut arm = ReceiverDirectArm::new(&c);
    arm.observe(d(10.0));
    assert_eq!(arm.position(), c.max_rad);
    arm.observe(d(-10.0));
    assert_eq!(arm.position(), c.min_rad);
}

#[test]
fn null_arm_clamps_commands_and_never_claims_to_be_connected() {
    let c = arm_cfg();
    let mut arm = NullArm::new(&c);
    arm.set_position(d(10.0)).unwrap();
    assert_eq!(arm.position(), c.max_rad);
    assert!(!arm.is_connected());
    assert!(!arm.is_app_driven());
    arm.observe(d(-1.0));
    assert_eq!(arm.position(), c.max_rad);
    arm.relax().unwrap();
    assert_eq!(arm.position(), c.max_rad);
}

#[test]
fn connecting_does_not_open_a_port_for_either_protocol() {
    for protocol in [ArmProtocol::ReceiverDirect, ArmProtocol::Unwired] {
        let mut c = arm_cfg();
        c.protocol = protocol;
        assert!(connect(&c).is_ok(), "{protocol:?}");
    }
}
