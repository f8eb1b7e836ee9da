//! The operator's transmitter.
use namiashi::control::config::GaitTuning;
use namiashi::control::teleop::{
    AxisMap, GaitSelect, ModeRequest, OperatorCommand, SwitchMap, Teleop, TeleopConfig,
};
use namiashi::double::{double, Double};
use namiashi::hal::config::{ArmConfig, HardwareConfig};
use namiashi::hal::sbus::{Counters, SbusState, CHANNELS, RAW_CENTER, RAW_MAX, RAW_MIN};

fn d(x: f64) -> Double {
    double(x.to_bits())
}

fn f(x: Double) -> f64 {
    f64::from_bits(x.bits)
}

fn arm_cfg() -> ArmConfig {
    HardwareConfig::default().arm
}

fn state_with(channels: &[(usize, u16)]) -> SbusState {
    let mut s = SbusState {
        channels: [RAW_CENTER; CHANNELS],
        counters: Counters { frames: 1, desync_bytes: 0, slots: 0, unknown_slots: 0 },
        ..SbusState::initial(0)
    };
    for &(ch, raw) in channels {
        s.channels[ch - 1] = raw;
    }
    s
}

fn teleop() -> Teleop {
    Teleop::new(TeleopConfig::default(), &GaitTuning::default(), &arm_cfg())
}

#[test]
fn a_centred_stick_is_exactly_zero() {
    let axis = AxisMap::new(1, false);
    assert_eq!(f(axis.value(&state_with(&[]))), 0.0);
}

#[test]
fn endpoints_map_to_plus_minus_one() {
    let axis = AxisMap { deadband: d(0.0), ..AxisMap::new(1, false) };
    assert!((f(axis.value(&state_with(&[(1, RAW_MAX)]))) - 1.0).abs() < 1e-9);
    assert!((f(axis.value(&state_with(&[(1, RAW_MIN)]))) + 1.0).abs() < 1e-9);
}

#[test]
fn reverse_flips_the_sign() {
    let fwd = AxisMap { deadband: d(0.0), ..AxisMap::new(1, false) };
    let rev = AxisMap { deadband: d(0.0), ..AxisMap::new(1, true) };
    let s = state_with(&[(1, 1500)]);
    assert!((f(fwd.value(&s)) + f(rev.value(&s))).abs() < 1e-12);
}

#[test]
fn the_deadband_swallows_small_offsets_but_not_the_endpoint() {
    let axis = AxisMap { deadband: d(0.2), ..AxisMap::new(1, false) };
    let small = RAW_CENTER + ((RAW_MAX - RAW_CENTER) as f64 * 0.05) as u16;
    assert_eq!(f(axis.value(&state_with(&[(1, small)]))), 0.0);
    assert!((f(axis.value(&state_with(&[(1, RAW_MAX)]))) - 1.0).abs() < 1e-9);
}

#[test]
fn an_out_of_range_channel_reads_as_zero_not_as_a_panic() {
    let axis = AxisMap::new(99, false);
    assert_eq!(f(axis.value(&state_with(&[]))), 0.0);
    let axis0 = AxisMap::new(0, false);
    assert_eq!(f(axis0.value(&state_with(&[]))), 0.0);
}

#[test]
fn a_stick_matches_the_formula_to_the_last_bit() {
    for &(deadband, expo) in &[(0.06, 0.0), (0.0, 0.3), (0.1, 1.0), (2.0, -1.0), (0.2, 0.5)] {
        for raw in [0u16, 172, 500, 900, 992, 1000, 1234, 1600, 1811, 2047] {
            let axis = AxisMap { deadband: d(deadband), expo: d(expo), ..AxisMap::new(3, false) };
            let span = if raw >= 992 { 819.0f64 } else { 820.0 };
            let mut v = ((raw as f64 - 992.0) / span).clamp(-1.0, 1.0);
            let db = deadband.clamp(0.0, 0.9);
            v = if v.abs() <= db { 0.0 } else { v.signum() * ((v.abs() - db) / (1.0 - db)) };
            let e = expo.clamp(0.0, 1.0);
            v = (1.0 - e) * v + e * v * v * v;
            let got = axis.value(&state_with(&[(3, raw)]));
            assert_eq!(f(got), v, "raw {raw} deadband {deadband} expo {expo}");
            assert!(v.abs() <= 1.0);
        }
    }
}

#[test]
fn a_three_position_switch_reports_zero_one_two() {
    let sw = SwitchMap::three_position(5);
    assert_eq!(sw.position(&state_with(&[(5, RAW_MIN)])), 0);
    assert_eq!(sw.position(&state_with(&[(5, RAW_CENTER)])), 1);
    assert_eq!(sw.position(&state_with(&[(5, RAW_MAX)])), 2);
    assert_eq!(sw.positions(), 3);
    assert_eq!(SwitchMap::two_position(0).position(&state_with(&[])), 0);
    assert_eq!(SwitchMap::two_position(17).position(&state_with(&[])), 0);
}

#[test]
fn the_pose_trigger_fires_once_per_press() {
    let mut t = teleop();
    let off = state_with(&[(7, RAW_MIN)]);
    let on = state_with(&[(7, RAW_MAX)]);
    assert!(!t.update(&off, true).play_pose);
    assert!(t.update(&on, true).play_pose);
    assert!(!t.update(&on, true).play_pose);
    assert!(!t.update(&off, true).play_pose);
    assert!(t.update(&on, true).play_pose);
}

#[test]
fn a_lost_link_zeroes_the_velocity() {
    let mut t = teleop();
    let cmd = t.update(&state_with(&[(2, RAW_MAX), (5, RAW_MAX)]), false);
    assert_eq!(f(cmd.vx_m_s), 0.0);
    assert_eq!(f(cmd.vy_m_s), 0.0);
    assert_eq!(f(cmd.wz_rad_s), 0.0);
    assert!(!cmd.link_ok);
}

#[test]
fn a_press_held_across_a_link_loss_does_not_fire_on_recovery() {
    let mut t = teleop();
    let on = state_with(&[(7, RAW_MAX)]);
    t.update(&on, false);
    assert!(!t.update(&on, true).play_pose);
}

#[test]
fn the_wave_leg_is_selected_by_its_own_switch() {
    let mut t = teleop();
    let cmd = t.update(&state_with(&[(10, RAW_MIN)]), true);
    assert!(!cmd.play_alt);
    let cmd = t.update(&state_with(&[(10, RAW_MAX)]), true);
    assert!(cmd.play_alt);
    let cmd = t.update(&state_with(&[(10, RAW_MIN), (8, RAW_MAX)]), true);
    assert!(!cmd.play_alt, "CH8 が振る足の選択に影響している");
}

#[test]
fn the_body_attitude_is_clamped_by_its_magnitude() {
    let mut gait = GaitTuning::default();
    gait.body_attitude_max_rad = d(0.6);
    let mut t = Teleop::new(TeleopConfig::default(), &gait, &arm_cfg());
    let cmd = t.update(&state_with(&[(8, RAW_MAX), (1, RAW_MAX), (3, RAW_MAX)]), true);
    let (r, p) = (f(cmd.body_attitude_rad.roll), f(cmd.body_attitude_rad.pitch));
    let n = (r * r + p * p).sqrt();
    assert!(n <= 0.6 + 1e-9, "合成量 {n:.4} が上限 0.6 を超えた");
    assert!(n > 0.5, "合成量 {n:.4} が小さすぎる（斜めで効かなくなっている）");
    assert_eq!(f(cmd.vy_m_s), 0.0);
    assert_eq!(f(cmd.wz_rad_s), 0.0);
    assert_eq!(f(cmd.height_offset_m), 0.0);
    let cmd = t.update(&state_with(&[(8, RAW_MAX), (1, RAW_MAX)]), true);
    assert!(
        f(cmd.body_attitude_rad.roll).abs() > 0.55,
        "単軸で上限まで入らない: {:?}",
        cmd.body_attitude_rad
    );
    let cmd = t.update(&state_with(&[(8, RAW_MIN), (1, RAW_MAX)]), true);
    assert_eq!(f(cmd.body_attitude_rad.roll), 0.0);
    assert_eq!(f(cmd.body_attitude_rad.pitch), 0.0);
    assert_eq!(f(cmd.body_attitude_rad.yaw), 0.0);
    assert!(f(cmd.vy_m_s).abs() > 0.0);
}

#[test]
fn a_lost_link_never_escalates_the_mode() {
    assert_eq!(ModeRequest::Relax.capped_for_failsafe(), ModeRequest::Relax);
    assert_eq!(ModeRequest::Stand.capped_for_failsafe(), ModeRequest::Stand);
    assert_eq!(ModeRequest::Walk.capped_for_failsafe(), ModeRequest::Walk);
}

#[test]
fn a_lost_link_holds_relax_when_the_operator_had_asked_for_relax() {
    let mut t = teleop();
    let cmd = t.update(&state_with(&[(5, RAW_MIN)]), true);
    assert_eq!(cmd.mode, ModeRequest::Relax);
    let lost = t.update(&state_with(&[(5, RAW_MIN)]), false);
    assert_eq!(lost.mode, ModeRequest::Relax, "脱力中の受信断で立ち上がった");
    assert_eq!(f(lost.vx_m_s), 0.0);
}

#[test]
fn a_lost_link_stops_a_walk_without_relaxing() {
    let mut t = teleop();
    let cmd = t.update(&state_with(&[(5, RAW_MAX), (2, RAW_MAX)]), true);
    assert_eq!(cmd.mode, ModeRequest::Walk);
    assert!(f(cmd.vx_m_s) > 0.0);
    let lost = t.update(&state_with(&[(5, RAW_MAX), (2, RAW_MAX)]), false);
    assert_eq!(lost.mode, ModeRequest::Walk);
    assert_eq!(f(lost.vx_m_s), 0.0);
}

#[test]
fn a_link_that_never_worked_stays_relaxed() {
    let mut t = teleop();
    let lost = t.update(&state_with(&[(5, RAW_MAX)]), false);
    assert_eq!(lost.mode, ModeRequest::Relax);
    assert_eq!(t.bench_stand().mode, ModeRequest::Stand);
}

#[test]
fn mode_and_gait_switches_decode_to_the_documented_order() {
    let mut t = teleop();
    let cmd = t.update(&state_with(&[(5, RAW_MIN), (6, RAW_MIN)]), true);
    assert_eq!(cmd.mode, ModeRequest::Relax);
    assert_eq!(cmd.gait, GaitSelect::Crawl);
    let cmd = t.update(&state_with(&[(5, RAW_CENTER), (6, RAW_CENTER)]), true);
    assert_eq!(cmd.mode, ModeRequest::Stand);
    assert_eq!(cmd.gait, GaitSelect::Walk);
    let cmd = t.update(&state_with(&[(5, RAW_MAX), (6, RAW_MAX)]), true);
    assert_eq!(cmd.mode, ModeRequest::Walk);
    assert_eq!(cmd.gait, GaitSelect::Trot);
}

#[test]
fn velocities_are_scaled_to_the_configured_limits() {
    let tuning = GaitTuning::default();
    let mut t = Teleop::new(TeleopConfig::default(), &tuning, &arm_cfg());
    let cmd = t.update(&state_with(&[(2, RAW_MAX)]), true);
    assert!((f(cmd.vx_m_s) - f(tuning.max_vx_m_s)).abs() < 1e-9);
}

#[test]
fn default_teleop_config_is_valid() {
    TeleopConfig::default().validate().unwrap();
}

#[test]
fn an_out_of_range_channel_is_rejected_by_validate() {
    let mut cfg = TeleopConfig::default();
    cfg.vx.channel = 0;
    assert_eq!(
        cfg.validate().unwrap_err(),
        "teleop.vx.channel は 1..=16 です (0 が指定されました)"
    );
    let mut cfg = TeleopConfig::default();
    cfg.mode.channel = 99;
    assert_eq!(
        cfg.validate().unwrap_err(),
        "teleop.mode.channel は 1..=16 です (99 が指定されました)"
    );
}

#[test]
fn every_other_bad_assignment_is_named() {
    let mut cfg = TeleopConfig::default();
    cfg.wz.raw_center = cfg.wz.raw_max;
    assert_eq!(
        cfg.validate().unwrap_err(),
        "teleop.wz のエンドポイントが不正です (min < center < max であること)"
    );
    let mut cfg = TeleopConfig::default();
    cfg.gait.thresholds = vec![500];
    assert_eq!(cfg.validate().unwrap_err(), "teleop.gait は 3 段必要ですが 2 段です");
    let mut cfg = TeleopConfig::default();
    cfg.chicken_head.thresholds = vec![900, 900];
    assert_eq!(
        cfg.validate().unwrap_err(),
        "teleop.chicken_head.thresholds は昇順である必要があります"
    );
    let mut cfg = TeleopConfig::default();
    cfg.arm = None;
    cfg.validate().unwrap();
}

#[test]
fn the_arm_is_watched_over_its_whole_range() {
    let mut t = teleop();
    let arm = arm_cfg();
    let low = t.update(&state_with(&[(9, RAW_MIN)]), true).arm_rad.unwrap();
    let high = t.update(&state_with(&[(9, RAW_MAX)]), true).arm_rad.unwrap();
    assert!((f(low) - f(arm.min_rad)).abs() < 1e-12);
    assert!((f(high) - f(arm.max_rad)).abs() < 1e-12);
    assert_eq!(t.update(&state_with(&[]), false).arm_rad, None);
    t.cfg.arm = None;
    assert_eq!(t.update(&state_with(&[]), true).arm_rad, None);
}

#[test]
fn the_failsafe_command_asks_for_nothing() {
    let cmd = OperatorCommand::failsafe(GaitSelect::Trot, ModeRequest::Walk);
    assert_eq!(cmd.gait.label(), "Trot");
    assert_eq!(cmd.mode, ModeRequest::Walk);
    assert!(!cmd.play_pose && !cmd.chicken_head && !cmd.play_alt && !cmd.link_ok);
    assert_eq!(cmd.arm_rad, None);
}

#[test]
fn a_stick_past_its_end_asks_for_all_whatever_its_shape() {
    for (deadband, expo) in [(0.0, 0.0), (0.06, 0.3), (0.5, 0.7), (5.0, 1.0), (-1.0, -1.0)] {
        for reverse in [false, true] {
            let axis =
                AxisMap { deadband: d(deadband), expo: d(expo), ..AxisMap::new(1, reverse) };
            let full = if reverse { -1.0 } else { 1.0 };
            for raw in [RAW_MAX, RAW_MAX + 1, 2047, u16::MAX] {
                assert!((f(axis.value(&state_with(&[(1, raw)]))) - full).abs() < 1e-9);
            }
            for raw in [RAW_MIN, RAW_MIN - 1, 0] {
                assert!((f(axis.value(&state_with(&[(1, raw)]))) + full).abs() < 1e-9);
            }
        }
    }
}
