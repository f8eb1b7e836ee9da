//! Opening a leg bus, and waiting for all of them.
//!
//! Opening the port, making the motors and starting the thread are left to the
//! caller; what is opened, with what, and what an obstacle is called are decided
//! here.
use vstd::prelude::*;
use vstd::string::*;

use crate::double::{countable, double, nanoseconds, nearest_whole, Double, ONE};
use crate::hal::ch348::{absent_text, first_with, reports, PortMap};
use crate::hal::config::{HardwareConfig, LegBusConfig, LegsConfig, MotorConfig, PortSpec};
use crate::hal::error::{complains, config_error, Error};
use crate::hal::joint::{JointState, LegSlot, PerJoint, PerLeg};
use crate::hal::legs::{all_anchored, all_ok, JointMap};
use crate::hal::wait::{look, waits, Wait};
use crate::hal::worker::{BusWorker, Stage};
use crate::text::{decimal, decimal_text};

verus! {

/// What the motor driver is made with.
#[derive(Debug, Clone, Copy, PartialEq, Eq, Structural)]
pub struct MotorPlan {
    pub id: u8,
    pub gear_ratio: Double,
    /// N·m/A at the motor; without one, currents pass for torques.
    pub torque_constant_nm_per_a: Option<Double>,
}

/// What the driver of a motor is made with, as configured.
pub open spec fn motor_plan(motor: MotorConfig, legs: LegsConfig) -> MotorPlan {
    MotorPlan {
        id: motor.id,
        gear_ratio: match motor.gear_ratio {
            Some(ratio) => ratio,
            None => legs.gear_ratio,
        },
        torque_constant_nm_per_a: legs.torque_constant_nm_per_a,
    }
}

/// What a bus is opened with.
#[derive(Debug, Clone)]
pub struct BusPlan {
    pub port: String,
    pub baud: u32,
    pub timeout_ms: u64,
    pub motors: Vec<MotorPlan>,
    /// The name of the thread.
    pub thread_name: String,
}

/// What the bus of a leg is opened with.
pub fn plan_bus(cfg: &HardwareConfig, leg: LegSlot, map: &PortMap) -> (r: Result<BusPlan, Error>)
    ensures
        match r {
            Ok(plan) => exists|i: int| #[trigger]
                cfg.first_bus_of(leg, i) && {
                    let bus = cfg.legs.bus[i];
                    &&& match bus.port {
                        PortSpec::Path(p) => plan.port@ == p@,
                        PortSpec::Uart(index) => exists|j: int| #[trigger]
                            first_with(map@, index, j) && plan.port@ == map@[j].path@,
                    }
                    &&& plan.baud == cfg.legs.baud
                    &&& plan.timeout_ms == cfg.legs.response_timeout_ms
                    &&& plan.motors@ == bus.motors@.map_values(
                        |m: MotorConfig| motor_plan(m, cfg.legs),
                    )
                    &&& plan.thread_name@ == "leg-"@ + leg.name()
                },
            Err(e) => if cfg.has_leg(leg) {
                exists|i: int| #[trigger]
                    cfg.first_bus_of(leg, i) && (match cfg.legs.bus[i].port {
                        PortSpec::Uart(index) => reports(e, absent_text(map@, index)) && forall|
                            j: int,
                        |
                            0 <= j < map@.len() ==> map@[j].uart_index != index,
                        PortSpec::Path(_) => false,
                    })
            } else {
                complains(e, "脚 "@ + leg.name() + " の設定がありません"@)
            },
        },
{
    let bus = match cfg.bus_for(leg) {
        Some(bus) => bus,
        None => {
            return Err(
                config_error("脚 ".to_owned().concat(leg.prefix()).concat(" の設定がありません")),
            );
        },
    };
    let port = match bus.port.resolve_with(map) {
        Ok(port) => port,
        Err(e) => return Err(e),
    };
    let mut motors: Vec<MotorPlan> = Vec::new();
    let mut k: usize = 0;
    while k < bus.motors.len()
        invariant
            k <= bus.motors.len(),
            motors.len() == k,
            forall|j: int| 0 <= j < k ==> motors[j] == motor_plan(bus.motors[j], cfg.legs),
        decreases bus.motors.len() - k,
    {
        let motor = &bus.motors[k];
        motors.push(
            MotorPlan {
                id: motor.id,
                gear_ratio: motor.gear_ratio_or(cfg.legs.gear_ratio),
                torque_constant_nm_per_a: cfg.legs.torque_constant_nm_per_a,
            },
        );
        k = k + 1;
    }
    assert(motors@ =~= bus.motors@.map_values(|m: MotorConfig| motor_plan(m, cfg.legs)));
    Ok(
        BusPlan {
            port,
            baud: cfg.legs.baud,
            timeout_ms: cfg.legs.response_timeout_ms,
            motors,
            thread_name: "leg-".to_owned().concat(leg.prefix()),
        },
    )
}

/// What a driver that would not open is called: an unopened port where the serial
/// port was the obstacle, a motor error of no motor otherwise.
pub fn open_error(port: &str, serial: bool, source: String) -> (r: Error)
    ensures
        match r {
            Error::OpenPort { port: p, source: s } => serial && p@ == port@ && s == source,
            Error::Motor { port: p, motor_id, source: s } => !serial && p@ == port@ && motor_id == 0
                && s == source,
            _ => false,
        },
{
    if serial {
        Error::OpenPort { port: port.to_owned(), source }
    } else {
        Error::Motor { port: port.to_owned(), motor_id: 0, source }
    }
}

/// The error of a request to a bus whose thread is gone.
pub fn stopped_error(port: &str) -> (r: Error)
    ensures
        complains(r, port@ + " のバススレッドが停止しています"@),
{
    config_error(port.to_owned().concat(" のバススレッドが停止しています"))
}

/// The period of a rate (ns), where a `u64` holds it.
pub fn period_of(rate_hz: Double) -> (r: Option<u64>)
    ensures
        r is Some <==> countable(double(ONE).over(rate_hz)),
        r matches Some(ns) ==> nearest_whole(
            (double(ONE).over(rate_hz).value() * 1_000_000_000) as nat,
            vstd::arithmetic::power2::pow2(1074),
            ns as nat,
        ),
{
    nanoseconds(double(ONE).over(rate_hz))
}

/// A bus thread before its first pass.
pub open spec fn fresh_worker(leg: LegSlot, bus: LegBusConfig, legs: LegsConfig, period: u64, now: u64)
    -> BusWorker {
    BusWorker {
        leg,
        maps: PerJoint {
            hip: JointMap::of_motor(bus.motors[0]),
            thigh: JointMap::of_motor(bus.motors[1]),
            calf: JointMap::of_motor(bus.motors[2]),
        },
        period,
        default_max_speed: legs.default_max_speed_rad_s,
        max_target_rate: legs.max_target_rate_rad_s,
        issued: PerJoint::all(None),
        status_interval: millis(legs.status_interval_ms),
        next_status: now,
        status_cursor: 0,
        frame_offset: PerJoint::all(double(0)),
        frame_ready: false,
        next: now,
        window_start: now,
        window_ticks: 0,
        last_cycle: now,
        stage: Stage::Rest { ns: 0 },
    }
}

/// Milliseconds in nanoseconds, as far as the clock goes.
pub open spec fn millis(ms: u64) -> u64 {
    if ms * 1_000_000 > u64::MAX { u64::MAX } else { (ms * 1_000_000) as u64 }
}

/// Milliseconds in nanoseconds, as far as the clock goes.
pub fn millis_ns(ms: u64) -> (r: u64)
    ensures
        r == millis(ms),
{
    if ms > 18_446_744_073_709 { u64::MAX } else { ms * 1_000_000 }
}

/// Whether the driver refuses the id of the motor at a place.
pub open spec fn refused(accepted: Seq<bool>, place: int) -> bool {
    0 <= place < accepted.len() && !accepted[place]
}

/// The thread of a leg's bus. `accepted` says of each motor whether the driver
/// takes its id.
pub fn start_worker(
    leg: LegSlot,
    bus: &LegBusConfig,
    legs: &LegsConfig,
    accepted: &Vec<bool>,
    period: u64,
    now: u64,
) -> (r: Result<BusWorker, Error>)
    requires
        accepted.len() == bus.motors.len(),
        forall|k: int|
            0 <= k < bus.motors.len() ==> (#[trigger] bus.motors[k]).min_rad.is_at_most(
                bus.motors[k].max_rad,
            ),
    ensures
        match r {
            Ok(worker) => {
                &&& forall|k: int| !refused(accepted@, k)
                &&& bus.motors.len() == 3
                &&& worker == fresh_worker(leg, *bus, *legs, period, now)
                &&& worker.wf()
            },
            Err(e) => if exists|k: int| refused(accepted@, k) {
                exists|k: int| #[trigger]
                    refused(accepted@, k) && (forall|j: int| 0 <= j < k ==> !refused(accepted@, j))
                        && complains(
                        e,
                        "モータ id "@ + decimal(bus.motors[k].id as nat) + " は範囲外です"@,
                    )
            } else {
                bus.motors.len() != 3 && complains(e, "脚あたりのモータは 3 個です"@)
            },
        },
{
    let mut k: usize = 0;
    while k < accepted.len()
        invariant
            k <= accepted.len(),
            accepted.len() == bus.motors.len(),
            forall|j: int| 0 <= j < k ==> !refused(accepted@, j),
        decreases accepted.len() - k,
    {
        if !accepted[k] {
            assert(refused(accepted@, k as int));
            return Err(
                config_error(
                    "モータ id ".to_owned().concat(
                        decimal_text(bus.motors[k].id as u64).as_str(),
                    ).concat(" は範囲外です"),
                ),
            );
        }
        k = k + 1;
    }
    if bus.motors.len() != 3 {
        return Err(config_error("脚あたりのモータは 3 個です".to_owned()));
    }
    Ok(
        BusWorker {
            leg,
            maps: PerJoint {
                hip: JointMap::new(&bus.motors[0]),
                thigh: JointMap::new(&bus.motors[1]),
                calf: JointMap::new(&bus.motors[2]),
            },
            period,
            default_max_speed: legs.default_max_speed_rad_s,
            max_target_rate: legs.max_target_rate_rad_s,
            issued: PerJoint::filled(None),
            status_interval: millis_ns(legs.status_interval_ms),
            next_status: now,
            status_cursor: 0,
            frame_offset: PerJoint::filled(double(0)),
            frame_ready: false,
            next: now,
            window_start: now,
            window_ticks: 0,
            last_cycle: now,
            stage: Stage::Rest { ns: 0 },
        },
    )
}

/// Waiting for the frames of all buses.
pub fn wait_anchored(anchored: &PerLeg<bool>, now: u64, deadline: u64, timeout_ms: u64) -> (r: Wait)
    ensures
        waits(
            r,
            forall|leg: LegSlot| anchored.of(leg),
            "脚のゼロ出し"@,
            2_000_000,
            now,
            deadline,
            timeout_ms,
        ),
{
    let done: bool = all_anchored(anchored);
    look(done, "脚のゼロ出し".to_owned(), 2_000_000, now, deadline, timeout_ms)
}

/// Waiting until all twelve joints were read once. A frame is known before the
/// first state is, and a transition that starts from a state of zeros would throw
/// the legs.
pub fn wait_first_read(
    states: &PerLeg<PerJoint<JointState>>,
    now: u64,
    deadline: u64,
    timeout_ms: u64,
) -> (r: Wait)
    ensures
        waits(
            r,
            forall|leg: LegSlot, k: int| 0 <= k < 3 ==> (#[trigger] states.of(leg).at(k)).ok,
            "12 軸の初回読み出し"@,
            2_000_000,
            now,
            deadline,
            timeout_ms,
        ),
{
    let done: bool = all_ok(states);
    look(done, "12 軸の初回読み出し".to_owned(), 2_000_000, now, deadline, timeout_ms)
}

/// A bus thread starts with the motors as configured, hip, thigh and calf in the order of
/// the bus, at the configured rates; it knows no frame, has sent no target, and is due at
/// once.
pub proof fn law_a_bus_starts_as_configured(
    leg: LegSlot,
    bus: LegBusConfig,
    legs: LegsConfig,
    period: u64,
    now: u64,
    k: int,
)
    requires
        bus.motors.len() == 3,
        0 <= k < 3,
    ensures
        ({
            let w = fresh_worker(leg, bus, legs, period, now);
            &&& w.leg == leg
            &&& w.maps.at(k).sign == bus.motors[k].sign
            &&& w.maps.at(k).zero_pose_rad == bus.motors[k].zero_pose_rad
            &&& w.maps.at(k).min_rad == bus.motors[k].min_rad
            &&& w.maps.at(k).max_rad == bus.motors[k].max_rad
            &&& w.period == period
            &&& w.default_max_speed == legs.default_max_speed_rad_s
            &&& w.max_target_rate == legs.max_target_rate_rad_s
            &&& legs.status_interval_ms <= 1_000_000_000 ==> w.status_interval
                == legs.status_interval_ms * 1_000_000
            &&& !w.frame_ready
            &&& w.issued.at(k) is None
            &&& w.next == now && w.next_status == now && w.last_cycle == now && w.window_start == now
            &&& w.window_ticks == 0 && w.status_cursor == 0
            &&& w.stage == (Stage::Rest { ns: 0 })
        }),
{
}

/// A motor's driver has the motor's own gear ratio where it has one, and the buses'
/// otherwise.
pub proof fn law_a_motor_has_its_own_gear(motor: MotorConfig, legs: LegsConfig)
    ensures
        motor_plan(motor, legs).id == motor.id,
        motor.gear_ratio is Some ==> motor_plan(motor, legs).gear_ratio == motor.gear_ratio->Some_0,
        motor.gear_ratio is None ==> motor_plan(motor, legs).gear_ratio == legs.gear_ratio,
        motor_plan(motor, legs).torque_constant_nm_per_a == legs.torque_constant_nm_per_a,
{
}

/// A millisecond is a million nanoseconds, as long as they can be counted.
pub proof fn law_a_millisecond_is_a_million_nanoseconds(ms: u64)
    ensures
        ms * 1_000_000 <= u64::MAX ==> millis(ms) == ms * 1_000_000,
        ms * 1_000_000 > u64::MAX ==> millis(ms) == u64::MAX,
{
}

} // verus!
