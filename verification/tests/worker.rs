//! The thread of a leg bus, driven by hand.
use namiashi::double::{double, Double};
use namiashi::hal::bus::{
    open_error, period_of, plan_bus, start_worker, stopped_error, wait_anchored, wait_first_read,
};
use namiashi::hal::ch348::{Ch348Port, PortMap};
use namiashi::hal::config::HardwareConfig;
use namiashi::hal::error::Error;
use namiashi::hal::joint::{JointCommand, JointMode, JointState, LegSlot, PerJoint, PerLeg};
use namiashi::hal::legs::{BusRequest, BusSlot, JointPids, JointStatus};
use namiashi::hal::wait::Wait;
use namiashi::hal::worker::{Action, BusWorker, Event, Feedback, MotorCall, Notice, Reply};

const MS: u64 = 1_000_000;

fn d(x: f64) -> Double {
    double(x.to_bits())
}

fn f(x: Double) -> f64 {
    f64::from_bits(x.bits)
}

/// A bus whose motors stand at given angles and answer or not.
struct Bench {
    worker: BusWorker,
    slot: BusSlot,
    now: u64,
    stop: bool,
    queue: Vec<BusRequest>,
    absolute: [f64; 3],
    relative: [f64; 3],
    alive: [bool; 3],
    calls: Vec<(usize, MotorCall)>,
    trouble: String,
    faults: Vec<usize>,
    error_raw: u8,
}

impl Bench {
    fn new() -> Bench {
        let cfg = HardwareConfig::default();
        let bus = cfg.bus_for(LegSlot::Fl).unwrap();
        let worker =
            start_worker(LegSlot::Fl, bus, &cfg.legs, &vec![true; 3], 2 * MS, 0).unwrap();
        Bench {
            worker,
            slot: BusSlot::default(),
            now: 0,
            stop: false,
            queue: Vec::new(),
            absolute: [0.1, 0.2, 0.3],
            relative: [1.0, 1.0, 1.0],
            alive: [true; 3],
            calls: Vec::new(),
            trouble: String::new(),
            faults: Vec::new(),
            error_raw: 0,
        }
    }

    fn reply(&mut self, joint: usize, call: MotorCall) -> Event {
        self.calls.push((joint, call));
        if !self.alive[joint] {
            return Event::Failed("timeout".to_string());
        }
        let feedback = Feedback {
            position_rad: d(self.relative[joint]),
            velocity_rad_s: d(0.5),
            torque_nm: d(0.25),
            temperature_c: d(40.0),
        };
        Event::Replied(match call {
            MotorCall::ReadAbsolute => Reply::Angle(d(self.absolute[joint])),
            MotorCall::Measure => Reply::Feedback(feedback),
            MotorCall::SetPosition { .. } => Reply::Feedback(feedback),
            MotorCall::SetTorque { .. } => Reply::Feedback(feedback),
            MotorCall::ReadStatus => Reply::Status {
                voltage_v: d(24.0),
                temperature_c: d(41.0),
                error_raw: self.error_raw,
            },
            MotorCall::ClearError => {
                // The answer still carries the old flags.
                let old = self.error_raw;
                self.error_raw = 0;
                Reply::Status { voltage_v: d(24.0), temperature_c: d(41.0), error_raw: old }
            }
            MotorCall::ReadPid => Reply::Pids(JointPids {
                position_kp: 100,
                position_ki: joint as u8,
                ..Default::default()
            }),
            MotorCall::ReadSingleTurn => Reply::SingleTurn(12345 + joint as u32),
            MotorCall::Enable
            | MotorCall::Disable
            | MotorCall::ClearMultiTurn
            | MotorCall::Restart => Reply::Done,
        })
    }

    /// Carries out one action; `false` at the end.
    fn turn(&mut self) -> bool {
        let event = match self.worker.action() {
            Action::End => return false,
            Action::Poll => match self.queue.is_empty() {
                true => Event::Empty,
                false => Event::Request(self.queue.remove(0)),
            },
            Action::Sleep { ns } => {
                self.now += ns;
                Event::Woke
            }
            Action::Call { joint, call } => {
                self.now += MS / 10;
                self.reply(joint, call)
            }
        };
        match self.worker.step(&mut self.slot, event, self.stop, self.now) {
            Notice::Quiet => {}
            Notice::Trouble(text) => self.trouble = text,
            Notice::NewFault { joint, .. } => self.faults.push(joint),
            Notice::NoSuchJoint { joint } => self.trouble = format!("no joint {joint}"),
        }
        true
    }

    /// Runs until the next sleep is over.
    fn cycle(&mut self) {
        loop {
            let resting = matches!(self.worker.action(), Action::Sleep { .. });
            assert!(self.turn());
            if resting {
                return;
            }
        }
    }

    fn made(&self, call: MotorCall) -> usize {
        self.calls.iter().filter(|c| c.1 == call).count()
    }
}

fn position(q: f64) -> JointCommand {
    JointCommand {
        mode: JointMode::Position,
        position_rad: d(q),
        max_speed_rad_s: d(0.0),
        torque_nm: d(0.0),
    }
}

#[test]
fn the_frame_is_established_before_anything_is_commanded() {
    let mut b = Bench::new();
    b.slot.cmd = PerJoint::filled(position(0.5));
    assert!(!b.slot.anchored);
    b.cycle();
    b.cycle();
    assert!(b.slot.anchored);
    let first = b
        .calls
        .iter()
        .position(|c| matches!(c.1, MotorCall::SetPosition { .. }))
        .unwrap();
    // Two readings of each joint come first.
    assert_eq!(first, 6);
    assert!((f(b.worker.frame_offset.hip) - (0.1 - 1.0)).abs() < 1e-15);
}

#[test]
fn the_state_is_the_absolute_angle_in_the_model_frame() {
    let mut b = Bench::new();
    b.cycle();
    b.cycle();
    assert!(b.slot.state.hip.ok && b.slot.state.thigh.ok && b.slot.state.calf.ok);
    assert!((f(b.slot.state.thigh.position_rad) - 0.2).abs() < 1e-12);
    assert_eq!(f(b.slot.state.thigh.velocity_rad_s), 0.5);
    assert_eq!(f(b.slot.state.thigh.temperature_c), 40.0);
}

#[test]
fn a_jump_of_the_target_is_slewed_from_where_the_joint_is() {
    let mut b = Bench::new();
    b.cycle();
    b.cycle();
    b.slot.cmd.hip = position(0.7);
    b.calls.clear();
    b.cycle();
    let (joint, call) = b.calls[0];
    assert_eq!(joint, 0);
    match call {
        MotorCall::SetPosition { angle_rad, speed_rad_s } => {
            // 3 rad/s for at most one cycle of about 2 ms.
            let moved = f(angle_rad) - 0.1;
            assert!(moved > 0.0 && moved < 0.02, "{moved}");
            assert_eq!(f(speed_rad_s), 8.0);
        }
        other => panic!("{other:?}"),
    }
    assert!(b.worker.issued.hip.is_some());
    assert!(b.worker.issued.thigh.is_none());
}

#[test]
fn a_silent_motor_keeps_its_last_position_marked_as_old() {
    let mut b = Bench::new();
    b.cycle();
    b.cycle();
    b.alive[1] = false;
    b.cycle();
    assert!(!b.slot.state.thigh.ok);
    assert!((f(b.slot.state.thigh.position_rad) - 0.2).abs() < 1e-12);
    assert!(b.slot.state.hip.ok);
    assert_eq!(b.trouble, "FL 軸1: timeout");
    assert_eq!(b.slot.stats.errors, 1);
}

#[test]
fn a_bus_without_power_keeps_trying() {
    let mut b = Bench::new();
    b.alive = [false; 3];
    for _ in 0..5 {
        b.cycle();
    }
    assert!(!b.slot.anchored);
    assert_eq!(b.trouble, "FL 軸0: 絶対角の読み出しに失敗: timeout");
    b.alive = [true; 3];
    b.cycle();
    b.cycle();
    assert!(b.slot.anchored);
}

#[test]
fn requests_reach_every_joint_or_the_one_that_is_named() {
    let mut b = Bench::new();
    b.cycle();
    b.cycle();
    b.calls.clear();
    b.queue.push(BusRequest::Enable);
    b.queue.push(BusRequest::DisableJoint(2));
    b.queue.push(BusRequest::EnableJoint(7));
    b.cycle();
    assert_eq!(b.made(MotorCall::Enable), 3);
    assert_eq!(b.made(MotorCall::Disable), 1);
    assert!(b.calls.contains(&(2, MotorCall::Disable)));
    assert_eq!(b.trouble, "no joint 7");
}

#[test]
fn disabling_keeps_the_frame_and_forgets_the_target() {
    let mut b = Bench::new();
    b.cycle();
    b.cycle();
    b.slot.cmd.hip = position(0.3);
    b.cycle();
    assert!(b.worker.issued.hip.is_some());
    b.slot.cmd.hip = JointCommand::default();
    b.queue.push(BusRequest::Disable);
    b.cycle();
    assert!(b.slot.anchored);
    assert!(b.worker.issued.hip.is_none());
}

#[test]
fn clearing_the_counters_reads_the_frame_again() {
    let mut b = Bench::new();
    b.cycle();
    b.cycle();
    b.absolute = [0.0, 0.0, 0.0];
    b.queue.push(BusRequest::ClearMultiTurn);
    b.calls.clear();
    b.cycle();
    assert_eq!(b.made(MotorCall::ClearMultiTurn), 3);
    assert_eq!(b.made(MotorCall::ReadAbsolute), 3);
    assert!(b.slot.anchored);
    assert_eq!(f(b.worker.frame_offset.calf), -1.0);
}

#[test]
fn a_restart_gives_the_driver_half_a_second() {
    let mut b = Bench::new();
    b.cycle();
    b.cycle();
    b.queue.push(BusRequest::RestartJoint(0));
    b.calls.clear();
    let mut slept = Vec::new();
    for _ in 0..20 {
        if let Action::Sleep { ns } = b.worker.action() {
            slept.push(ns);
        }
        b.turn();
    }
    assert!(slept.contains(&(500 * MS)), "{slept:?}");
    assert_eq!(b.made(MotorCall::Restart), 1);
    assert!(b.slot.anchored);
}

#[test]
fn zero_writes_nothing_to_the_motors() {
    let mut b = Bench::new();
    b.cycle();
    b.cycle();
    b.calls.clear();
    b.queue.push(BusRequest::Zero);
    b.cycle();
    assert!(b
        .calls
        .iter()
        .all(|c| matches!(c.1, MotorCall::ReadAbsolute | MotorCall::Measure | MotorCall::ReadStatus)));
    assert!(b.slot.anchored);
}

#[test]
fn cleared_errors_are_read_back_and_not_taken_from_the_answer() {
    let mut b = Bench::new();
    b.cycle();
    b.cycle();
    b.error_raw = 1;
    b.queue.push(BusRequest::ClearError);
    b.calls.clear();
    b.cycle();
    assert_eq!(b.made(MotorCall::ClearError), 3);
    assert!(b.made(MotorCall::ReadStatus) >= 3);
    assert!(b.slot.status.hip.valid);
    assert_eq!(b.slot.status.hip.error_raw, 0);
}

#[test]
fn readings_replace_what_was_read_before() {
    let mut b = Bench::new();
    b.cycle();
    b.cycle();
    b.queue.push(BusRequest::ReadSingleTurn);
    b.queue.push(BusRequest::ReadPid);
    b.cycle();
    assert_eq!(b.slot.single_turn.calf, Some(12347));
    assert_eq!(b.slot.pids.thigh.map(|p| (p.position_kp, p.position_ki)), Some((100, 1)));
    b.alive[2] = false;
    b.queue.push(BusRequest::ReadSingleTurn);
    for _ in 0..12 {
        b.turn();
    }
    assert_eq!(b.slot.single_turn.calf, None);
    assert_eq!(b.slot.single_turn.hip, Some(12345));
    b.alive = [true; 3];
    b.queue.push(BusRequest::Restart);
    b.alive[0] = false;
    for _ in 0..20 {
        b.turn();
    }
}

#[test]
fn a_failed_request_names_itself() {
    let mut b = Bench::new();
    b.cycle();
    b.cycle();
    b.alive[0] = false;
    b.queue.push(BusRequest::EnableJoint(0));
    while b.worker.action() != Action::Poll {
        b.turn();
    }
    b.turn();
    b.turn();
    assert_eq!(b.trouble, "FL 軸0 EnableJoint(0): timeout");
}

#[test]
fn the_status_goes_round_and_new_faults_are_told_once() {
    let mut b = Bench::new();
    b.error_raw = 4;
    for _ in 0..2000 {
        b.cycle();
    }
    // One joint a second, over about four seconds.
    assert!(b.slot.status.hip.valid && b.slot.status.thigh.valid && b.slot.status.calf.valid);
    assert_eq!(b.faults, vec![0, 1, 2]);
    assert!(b.slot.faulted());
}

#[test]
fn the_rate_is_measured_over_a_second() {
    let mut b = Bench::new();
    for _ in 0..1200 {
        b.cycle();
    }
    let rate = f(b.slot.stats.rate_hz);
    assert!((rate - 500.0).abs() < 5.0, "{rate}");
    assert!(b.slot.stats.ticks > 1000);
    assert!(f(b.slot.stats.last_cycle_s) <= f(b.slot.stats.worst_cycle_s));
}

#[test]
fn stopping_releases_the_joints_that_answer() {
    let mut b = Bench::new();
    b.cycle();
    b.cycle();
    b.alive[1] = false;
    b.cycle();
    b.calls.clear();
    b.stop = true;
    while b.turn() {}
    let released: Vec<usize> =
        b.calls.iter().filter(|c| c.1 == MotorCall::Disable).map(|c| c.0).collect();
    assert_eq!(released, vec![0, 2]);
}

#[test]
fn a_stop_in_the_middle_of_a_cycle_still_releases_every_joint() {
    let mut b = Bench::new();
    b.cycle();
    b.cycle();
    while !matches!(b.worker.action(), Action::Call { .. }) {
        b.turn();
    }
    b.stop = true;
    b.calls.clear();
    while b.turn() {}
    let released: Vec<usize> =
        b.calls.iter().filter(|c| c.1 == MotorCall::Disable).map(|c| c.0).collect();
    assert_eq!(released, vec![0, 1, 2]);
}

#[test]
fn torque_takes_the_sign_of_the_joint() {
    let mut b = Bench::new();
    b.worker.maps.hip.sign = d(-1.0);
    b.cycle();
    b.cycle();
    b.slot.cmd.hip = JointCommand {
        mode: JointMode::Torque,
        torque_nm: d(0.5),
        ..Default::default()
    };
    b.calls.clear();
    b.cycle();
    assert_eq!(b.calls[0], (0, MotorCall::SetTorque { torque_nm: d(-0.5) }));
}

#[test]
fn a_bus_is_planned_from_its_configuration() {
    let cfg = HardwareConfig::default();
    let map = PortMap::from_ports(vec![Ch348Port {
        path: "/dev/ttyCH9344USB3".to_string(),
        uart_index: 2,
    }]);
    let plan = plan_bus(&cfg, LegSlot::Fr, &map).unwrap();
    assert_eq!(plan.port, "/dev/ttyCH9344USB3");
    assert_eq!(plan.baud, 1_000_000);
    assert_eq!(plan.timeout_ms, 5);
    assert_eq!(plan.thread_name, "leg-FR");
    let gears: Vec<f64> = plan.motors.iter().map(|m| f(m.gear_ratio)).collect();
    assert_eq!(gears[0], 10.0);
    assert!((gears[2] - 280.0 / 18.0).abs() < 1e-12);
    assert!(plan_bus(&cfg, LegSlot::Fl, &map).is_err());
    let mut cfg = HardwareConfig::default();
    cfg.legs.bus[1].leg = "FL".to_string();
    match plan_bus(&cfg, LegSlot::Fr, &map) {
        Err(e) => assert_eq!(e.message("", ""), "設定が不正です: 脚 FR の設定がありません"),
        Ok(_) => panic!("a leg without a bus"),
    }
}

#[test]
fn obstacles_to_opening_have_names() {
    assert!(matches!(
        open_error("/dev/x", true, "busy".to_string()),
        Error::OpenPort { .. }
    ));
    assert!(matches!(
        open_error("/dev/x", false, "crc".to_string()),
        Error::Motor { motor_id: 0, .. }
    ));
    assert_eq!(
        stopped_error("/dev/x").message("", ""),
        "設定が不正です: /dev/x のバススレッドが停止しています"
    );
    assert_eq!(period_of(d(500.0)), Some(2 * MS));
    assert_eq!(period_of(d(1e-10)), Some(10_000_000_000_000_000_000));
    assert_eq!(period_of(d(1e-11)), None);
    assert_eq!(period_of(d(0.0)), None);
    assert_eq!(period_of(d(-1.0)), None);
    let cfg = HardwareConfig::default();
    let bus = cfg.bus_for(LegSlot::Rl).unwrap();
    match start_worker(LegSlot::Rl, bus, &cfg.legs, &vec![true, false, true], MS, 0) {
        Err(e) => assert_eq!(e.message("", ""), "設定が不正です: モータ id 2 は範囲外です"),
        Ok(_) => panic!("an id that the driver refuses"),
    }
    let mut cfg = HardwareConfig::default();
    cfg.legs.bus[0].motors.pop();
    match start_worker(LegSlot::Fl, &cfg.legs.bus[0], &cfg.legs, &vec![true; 2], MS, 0) {
        Err(e) => assert_eq!(e.message("", ""), "設定が不正です: 脚あたりのモータは 3 個です"),
        Ok(_) => panic!("two motors"),
    }
}

#[test]
fn waiting_ends_with_what_is_waited_for_or_with_a_timeout() {
    let mut anchored = PerLeg::filled(false);
    assert!(matches!(wait_anchored(&anchored, 0, 10, 3000), Wait::Again { ns: 2_000_000 }));
    anchored = PerLeg::filled(true);
    assert!(matches!(wait_anchored(&anchored, 0, 10, 3000), Wait::Ready));
    match wait_anchored(&anchored, 10, 10, 3000) {
        Wait::Late(e) => assert_eq!(
            e.message("", ""),
            "脚のゼロ出し が 3000 ms 以内に応答しませんでした"
        ),
        other => panic!("{other:?}"),
    }
    let mut states = PerLeg::filled(PerJoint::filled(JointState::default()));
    assert!(matches!(wait_first_read(&states, 0, 10, 2000), Wait::Again { .. }));
    states = PerLeg::filled(PerJoint::filled(JointState { ok: true, ..Default::default() }));
    assert!(matches!(wait_first_read(&states, 0, 10, 2000), Wait::Ready));
    match wait_first_read(&states, 11, 10, 2000) {
        Wait::Late(e) => assert_eq!(
            e.message("", ""),
            "12 軸の初回読み出し が 2000 ms 以内に応答しませんでした"
        ),
        other => panic!("{other:?}"),
    }
}

#[test]
fn a_slot_is_faulted_by_any_of_its_joints() {
    let mut slot = BusSlot::default();
    assert!(!slot.faulted());
    slot.status.calf = JointStatus { error_raw: 8, valid: true, ..Default::default() };
    assert!(slot.faulted());
}

#[test]
fn disabling_one_joint_keeps_the_frame() {
    let mut b = Bench::new();
    b.cycle();
    b.cycle();
    let frame = b.worker.frame_offset;
    b.queue.push(BusRequest::DisableJoint(1));
    b.cycle();
    assert!(b.slot.anchored);
    assert!(b.worker.frame_ready);
    assert_eq!(b.worker.frame_offset, frame);
}
