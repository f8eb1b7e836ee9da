//! The thread of one leg bus, as a machine.
//!
//! Talking to the motors is left to the caller. The worker says what to do next
//! ([`BusWorker::action`]) and is told how it went ([`BusWorker::step`]); all that
//! is decided in between is decided here: what a request calls, when the frame is
//! read, what a joint is commanded, what is kept of a failure, how the bus is
//! paced, and which joints are released at the end.
//!
//! Times are nanoseconds of one steady clock.
use vstd::prelude::*;
use vstd::string::*;

use crate::double::{double, from_u64, seconds, seconds_of, whole, Double, ONE};
use crate::hal::joint::{JointCommand, JointMode, JointState, LegSlot, PerJoint};
use crate::hal::legs::{slew_step, slewed, BusRequest, BusSlot, BusStats, JointMap, JointPids, JointStatus};
use crate::text::{decimal, decimal_text};

verus! {

/// One half, as bits.
pub const HALF: u64 = 0x3fe0_0000_0000_0000;

/// How long a restarted driver is given before it is read (ns).
pub const RESTART_NS: u64 = 500_000_000;

/// What a motor reports with every command.
#[derive(Debug, Clone, Copy, PartialEq, Eq, Structural)]
pub struct Feedback {
    pub position_rad: Double,
    pub velocity_rad_s: Double,
    pub torque_nm: Double,
    pub temperature_c: Double,
}

/// A transaction with one motor.
#[derive(Debug, Clone, Copy, PartialEq, Eq, Structural)]
pub enum MotorCall {
    Enable,
    Disable,
    ClearMultiTurn,
    Restart,
    ClearError,
    ReadStatus,
    ReadPid,
    ReadSingleTurn,
    ReadAbsolute,
    Measure,
    /// An absolute multi-turn target at the output, with its speed limit.
    SetPosition { angle_rad: Double, speed_rad_s: Double },
    SetTorque { torque_nm: Double },
}

/// What a motor answered.
#[derive(Debug, Clone, Copy, PartialEq, Eq, Structural)]
pub enum Reply {
    Done,
    Status { voltage_v: Double, temperature_c: Double, error_raw: u8 },
    Pids(JointPids),
    SingleTurn(u32),
    Angle(Double),
    Feedback(Feedback),
}

/// What the caller is to do next.
#[derive(Debug, Clone, Copy, PartialEq, Eq, Structural)]
pub enum Action {
    /// Look for a request.
    Poll,
    /// Make a transaction with the motor of a joint.
    Call { joint: usize, call: MotorCall },
    /// Sleep.
    Sleep { ns: u64 },
    /// Nothing more: the thread ends.
    End,
}

/// How the last action went.
#[derive(Debug, Clone)]
pub enum Event {
    /// A request was waiting.
    Request(BusRequest),
    /// No request was waiting.
    Empty,
    /// Nobody can send a request any more.
    Closed,
    Replied(Reply),
    Failed(String),
    /// The sleep is over.
    Woke,
}

/// What is worth telling about a step.
#[derive(Debug, Clone)]
pub enum Notice {
    Quiet,
    /// The bus's last error, in words.
    Trouble(String),
    /// A joint reports error bits that it did not report before.
    NewFault { joint: usize, status: JointStatus },
    /// A request named a joint that does not exist.
    NoSuchJoint { joint: usize },
}

/// A [`Notice`] with its text as a sequence.
pub ghost enum NoticeText {
    Quiet,
    Trouble(Seq<char>),
    NewFault { joint: usize, status: JointStatus },
    NoSuchJoint { joint: usize },
}

impl View for Notice {
    type V = NoticeText;

    open spec fn view(&self) -> NoticeText {
        match self {
            Notice::Quiet => NoticeText::Quiet,
            Notice::Trouble(text) => NoticeText::Trouble(text@),
            Notice::NewFault { joint, status } => NoticeText::NewFault { joint: *joint, status: *status },
            Notice::NoSuchJoint { joint } => NoticeText::NoSuchJoint { joint: *joint },
        }
    }
}

/// Where the worker stands: what it waits for.
#[derive(Debug, Clone, Copy, PartialEq, Eq, Structural)]
pub enum Stage {
    /// Between two passes of the loop.
    Rest { ns: u64 },
    /// Looking for requests at the top of a pass.
    Poll,
    /// Carrying out a request on one joint; `reread` once the error flags are
    /// cleared and the status is read back.
    Request { request: BusRequest, joint: usize, reread: bool },
    /// Giving restarted drivers time.
    Settle,
    /// Reading the frame of one joint: first the absolute angle, which is then
    /// kept while the tracked angle is read.
    Frame { joint: usize, absolute: Option<Double>, offsets: PerJoint<Double>, requested: bool },
    /// Commanding one joint of a cycle.
    Cycle { joint: usize, call: MotorCall, pass: Pass },
    /// Reading the status of one joint.
    Status { joint: usize, pass: Pass },
    /// Releasing the joints before the end.
    Release { joint: usize },
    Ended,
}

/// What one cycle has seen so far.
#[derive(Debug, Clone, Copy, PartialEq, Eq, Structural)]
pub struct Pass {
    pub start: u64,
    pub dt: Double,
    pub cmds: PerJoint<JointCommand>,
    pub states: PerJoint<JointState>,
    pub errors: u64,
}

/// The thread of one leg bus.
#[derive(Debug, Clone, Copy, PartialEq, Eq, Structural)]
pub struct BusWorker {
    pub leg: LegSlot,
    pub maps: PerJoint<JointMap>,
    pub period: u64,
    pub default_max_speed: Double,
    /// How fast the target may move (rad/s); 0 for no limit.
    pub max_target_rate: Double,
    /// The target last sent, in the model's frame; `None` while no position is
    /// being commanded.
    pub issued: PerJoint<Option<Double>>,
    /// How often a status is read (ns); 0 for never.
    pub status_interval: u64,
    pub next_status: u64,
    /// The joint whose status is read next.
    pub status_cursor: usize,
    /// From the tracked angle to the motor's own multi-turn frame (rad). The
    /// tracked angle is lost with the process; the multi-turn frame is not.
    pub frame_offset: PerJoint<Double>,
    pub frame_ready: bool,
    /// When the next pass is due.
    pub next: u64,
    pub window_start: u64,
    pub window_ticks: u64,
    pub last_cycle: u64,
    pub stage: Stage,
}

/// `FL 軸0`: the joint that trouble is reported of.
pub open spec fn joint_text(leg: LegSlot, joint: usize) -> Seq<char> {
    leg.name() + " 軸"@ + decimal(joint as nat)
}

fn joint_label(leg: LegSlot, joint: usize) -> (r: String)
    ensures
        r@ == joint_text(leg, joint),
{
    leg.prefix().to_owned().concat(" 軸").concat(decimal_text(joint as u64).as_str())
}

/// The transaction that a request makes with each of its joints.
pub open spec fn request_call(request: BusRequest) -> MotorCall {
    match request {
        BusRequest::Enable | BusRequest::EnableJoint(_) => MotorCall::Enable,
        BusRequest::Disable | BusRequest::DisableJoint(_) => MotorCall::Disable,
        BusRequest::ClearMultiTurn | BusRequest::ClearMultiTurnJoint(_) => MotorCall::ClearMultiTurn,
        BusRequest::Restart | BusRequest::RestartJoint(_) => MotorCall::Restart,
        BusRequest::ClearError => MotorCall::ClearError,
        BusRequest::ReadPid => MotorCall::ReadPid,
        BusRequest::ReadSingleTurn => MotorCall::ReadSingleTurn,
        BusRequest::Zero => MotorCall::ReadAbsolute,
    }
}

fn call_for(request: BusRequest) -> (r: MotorCall)
    ensures
        r == request_call(request),
{
    match request {
        BusRequest::Enable | BusRequest::EnableJoint(_) => MotorCall::Enable,
        BusRequest::Disable | BusRequest::DisableJoint(_) => MotorCall::Disable,
        BusRequest::ClearMultiTurn | BusRequest::ClearMultiTurnJoint(_) => MotorCall::ClearMultiTurn,
        BusRequest::Restart | BusRequest::RestartJoint(_) => MotorCall::Restart,
        BusRequest::ClearError => MotorCall::ClearError,
        BusRequest::ReadPid => MotorCall::ReadPid,
        BusRequest::ReadSingleTurn => MotorCall::ReadSingleTurn,
        BusRequest::Zero => MotorCall::ReadAbsolute,
    }
}

/// The worker and what it shares.
pub type Bus = (BusWorker, BusSlot);

/// The pass starts: the first joint, or straight to the end.
pub open spec fn at_top(bus: Bus, stop: bool) -> Bus {
    if stop { releasing(bus, 0) } else { (BusWorker { stage: Stage::Poll, ..bus.0 }, bus.1) }
}

/// Releasing the joints from `joint` on: those that answer are disabled, the
/// others are passed over, since a transaction with a dead motor blocks for
/// seconds.
pub open spec fn releasing(bus: Bus, joint: int) -> Bus
    decreases 3 - joint,
{
    if joint >= 3 {
        (BusWorker { stage: Stage::Ended, ..bus.0 }, bus.1)
    } else if bus.1.state.at(joint).ok {
        (BusWorker { stage: Stage::Release { joint: joint as usize }, ..bus.0 }, bus.1)
    } else {
        releasing(bus, joint + 1)
    }
}

/// A request starts on a joint: what was read before, or was being commanded, is
/// forgotten.
pub open spec fn request_starts(bus: Bus, request: BusRequest, joint: usize) -> Bus {
    let (w, s) = bus;
    let k = joint as int;
    let stage = Stage::Request { request, joint, reread: false };
    match request_call(request) {
        MotorCall::Disable => (BusWorker { issued: w.issued.with(k, None), stage, ..w }, s),
        MotorCall::ReadPid => (BusWorker { stage, ..w }, BusSlot { pids: s.pids.with(k, None), ..s }),
        MotorCall::ReadSingleTurn => (
            BusWorker { stage, ..w },
            BusSlot { single_turn: s.single_turn.with(k, None), ..s },
        ),
        _ => (BusWorker { stage, ..w }, s),
    }
}

/// A frame is read anew.
pub open spec fn frame_starts(bus: Bus, requested: bool) -> Bus {
    let stage = Stage::Frame {
        joint: 0,
        absolute: None,
        offsets: PerJoint::all(double(0)),
        requested,
    };
    (BusWorker { stage, ..bus.0 }, bus.1)
}

/// The frame no longer holds.
pub open spec fn frame_lost(bus: Bus) -> Bus {
    (BusWorker { frame_ready: false, ..bus.0 }, BusSlot { anchored: false, ..bus.1 })
}

/// A request is done with a joint: the next joint, the frame, or the next request.
pub open spec fn request_goes_on(bus: Bus, request: BusRequest, joint: usize) -> Bus {
    if request.one_joint() is None && joint < 2 {
        request_starts(bus, request, (joint + 1) as usize)
    } else if request.moves_origin() {
        let lost = frame_lost(bus);
        if request_call(request) is Restart {
            (BusWorker { stage: Stage::Settle, ..lost.0 }, lost.1)
        } else {
            frame_starts(lost, true)
        }
    } else {
        (BusWorker { stage: Stage::Poll, ..bus.0 }, bus.1)
    }
}

/// A request arrives.
pub open spec fn request_arrives(bus: Bus, request: BusRequest) -> Bus {
    match request.one_joint() {
        Some(k) => if k >= 3 { bus } else { request_starts(bus, request, k) },
        None => if request is Zero {
            frame_starts(frame_lost(bus), true)
        } else {
            request_starts(bus, request, 0)
        },
    }
}

/// The status that a reply carries.
pub open spec fn status_of(voltage_v: Double, temperature_c: Double, error_raw: u8) -> JointStatus {
    JointStatus { voltage_v, temperature_c, error_raw, valid: true }
}

/// What a reply to a request's transaction leaves behind.
pub open spec fn request_keeps(slot: BusSlot, request: BusRequest, joint: usize, reread: bool, reply: Reply)
    -> BusSlot {
    let k = joint as int;
    match (request, reply) {
        (BusRequest::ClearError, Reply::Status { voltage_v, temperature_c, error_raw }) => if reread {
            BusSlot {
                status: slot.status.with(k, status_of(voltage_v, temperature_c, error_raw)),
                ..slot
            }
        } else {
            slot
        },
        (BusRequest::ReadPid, Reply::Pids(p)) => BusSlot { pids: slot.pids.with(k, Some(p)), ..slot },
        (BusRequest::ReadSingleTurn, Reply::SingleTurn(v)) => BusSlot {
            single_turn: slot.single_turn.with(k, Some(v)),
            ..slot
        },
        _ => slot,
    }
}

/// A request's transaction succeeds. After the error flags are cleared the status
/// is read back: the reply to the clearing still shows the old flags.
pub open spec fn request_replied(bus: Bus, request: BusRequest, joint: usize, reread: bool, reply: Reply)
    -> Bus {
    if request is ClearError && !reread {
        (BusWorker { stage: Stage::Request { request, joint, reread: true }, ..bus.0 }, bus.1)
    } else {
        request_goes_on(
            (bus.0, request_keeps(bus.1, request, joint, reread, reply)),
            request,
            joint,
        )
    }
}

/// The frame could not be read: back to the requests, or a pause before the next
/// try. The motors may get their power later, so there is no giving up.
pub open spec fn frame_fails(bus: Bus, requested: bool, now: u64) -> Bus {
    let (w, s) = bus;
    if requested {
        (BusWorker { stage: Stage::Poll, ..w }, s)
    } else {
        (
            BusWorker {
                next: saturating(if w.next < now { now } else { w.next }, w.period),
                stage: Stage::Rest { ns: w.period },
                ..w
            },
            s,
        )
    }
}

/// A sum that stays within the clock.
pub open spec fn saturating(a: u64, b: u64) -> u64 {
    if a + b > u64::MAX { u64::MAX } else { (a + b) as u64 }
}

/// The frame is read for a joint: the next joint, or all three are known.
pub open spec fn frame_goes_on(bus: Bus, joint: usize, offsets: PerJoint<Double>, requested: bool, stop: bool, now: u64)
    -> Bus {
    let (w, s) = bus;
    if joint < 2 {
        (
            BusWorker {
                stage: Stage::Frame {
                    joint: (joint + 1) as usize,
                    absolute: None,
                    offsets,
                    requested,
                },
                ..w
            },
            s,
        )
    } else {
        let known = (
            BusWorker { frame_offset: offsets, frame_ready: true, ..w },
            BusSlot { anchored: true, ..s },
        );
        if requested {
            (BusWorker { stage: Stage::Poll, ..known.0 }, known.1)
        } else {
            cycle_starts(known, stop, now)
        }
    }
}

/// The time since the last cycle (s), at most half a second.
pub open spec fn elapsed(w: BusWorker, now: u64) -> Double {
    seconds_of(if now < w.last_cycle { 0 } else { (now - w.last_cycle) as nat }).min(double(HALF))
}

/// A cycle starts with the commands of the moment.
pub open spec fn cycle_starts(bus: Bus, stop: bool, now: u64) -> Bus {
    let (w, s) = bus;
    let pass = Pass { start: now, dt: elapsed(w, now), cmds: s.cmd, states: s.state, errors: 0 };
    joint_starts((BusWorker { last_cycle: now, ..w }, s), 0, pass, stop, now)
}

/// Where the target of a joint starts from: the target last sent, or, when
/// position control begins, where the joint is.
pub open spec fn target_from(bus: Bus, joint: int) -> Double {
    match bus.0.issued.at(joint) {
        Some(previous) => previous,
        None => bus.1.state.at(joint).position_rad,
    }
}

/// What a joint's command calls for, and the target it leaves behind.
pub open spec fn joint_call(bus: Bus, joint: int, cmd: JointCommand, dt: Double) -> (
    MotorCall,
    Option<Double>,
) {
    let w = bus.0;
    let map = w.maps.at(joint);
    match cmd.mode {
        JointMode::Position => if w.frame_ready {
            let target = slewed(target_from(bus, joint), cmd.position_rad, w.max_target_rate, dt);
            let speed = if double(0).below(cmd.max_speed_rad_s) {
                cmd.max_speed_rad_s
            } else {
                w.default_max_speed
            };
            (
                MotorCall::SetPosition { angle_rad: map.motor_angle(target), speed_rad_s: speed },
                Some(target),
            )
        } else {
            (MotorCall::Measure, None)
        },
        JointMode::Torque => (
            MotorCall::SetTorque { torque_nm: map.sign.times(cmd.torque_nm) },
            None,
        ),
        JointMode::Idle => (MotorCall::Measure, None),
    }
}

/// The joints of a cycle from `joint` on; a stop leaves the rest as they were.
pub open spec fn joint_starts(bus: Bus, joint: int, pass: Pass, stop: bool, now: u64) -> Bus {
    let (w, s) = bus;
    if joint >= 3 || stop {
        joints_end(bus, pass, now)
    } else {
        let (call, target) = joint_call(bus, joint, pass.cmds.at(joint), pass.dt);
        (
            BusWorker {
                issued: w.issued.with(joint, target),
                stage: Stage::Cycle { joint: joint as usize, call, pass },
                ..w
            },
            s,
        )
    }
}

/// The state that a motor's feedback stands for.
pub open spec fn state_of(w: BusWorker, joint: int, fb: Feedback) -> JointState {
    let map = w.maps.at(joint);
    JointState {
        position_rad: map.model_angle(fb.position_rad.plus(w.frame_offset.at(joint))),
        velocity_rad_s: map.model_rate(fb.velocity_rad_s),
        torque_nm: map.model_rate(fb.torque_nm),
        temperature_c: fb.temperature_c,
        ok: true,
    }
}

/// A pass with one joint's state.
pub open spec fn pass_with(pass: Pass, joint: int, state: JointState) -> Pass {
    Pass { states: pass.states.with(joint, state), ..pass }
}

/// A pass with one joint's failure: the last values stay, marked as old. A
/// position that turned into zero would be mistaken for the origin.
pub open spec fn pass_failed(pass: Pass, slot: BusSlot, joint: int) -> Pass {
    Pass {
        states: pass.states.with(joint, JointState { ok: false, ..slot.state.at(joint) }),
        errors: (pass.errors + 1) as u64,
        ..pass
    }
}

/// All joints are done: the states are published, and a status is read if one is
/// due.
pub open spec fn joints_end(bus: Bus, pass: Pass, now: u64) -> Bus {
    let (w, s) = bus;
    let published = BusSlot { state: pass.states, ..s };
    if w.status_interval == 0 || now < w.next_status {
        cycle_ends((w, published), pass, now)
    } else {
        (
            BusWorker {
                next_status: saturating(now, w.status_interval),
                status_cursor: if w.status_cursor >= 2 { 0 } else { (w.status_cursor + 1) as usize },
                stage: Stage::Status { joint: w.status_cursor, pass },
                ..w
            },
            published,
        )
    }
}

/// A span of the clock; an instant in the future counts as now.
pub open spec fn since(start: u64, now: u64) -> nat {
    if now < start { 0 } else { (now - start) as nat }
}

/// The statistics after a cycle.
pub open spec fn stats_after(w: BusWorker, stats: BusStats, pass: Pass, now: u64) -> BusStats {
    let cycle = seconds_of(since(pass.start, now));
    let window = seconds_of(since(w.window_start, now));
    BusStats {
        ticks: stats.ticks.wrapping_add(1),
        errors: stats.errors.wrapping_add(pass.errors),
        last_cycle_s: cycle,
        worst_cycle_s: stats.worst_cycle_s.max(cycle),
        rate_hz: if double(ONE).at_most(window) {
            whole(w.window_ticks.wrapping_add(1) as nat).over(window)
        } else {
            stats.rate_hz
        },
    }
}

/// The cycle is over. If the next pass is not due yet, the thread rests until it
/// is; if it is overdue, it counts from now, since chasing a delay only makes it
/// worse.
pub open spec fn cycle_ends(bus: Bus, pass: Pass, now: u64) -> Bus {
    let (w, s) = bus;
    let full = double(ONE).at_most(seconds_of(since(w.window_start, now)));
    let due = saturating(w.next, w.period);
    (
        BusWorker {
            window_ticks: if full { 0 } else { w.window_ticks.wrapping_add(1) },
            window_start: if full { now } else { w.window_start },
            next: if due > now { due } else { now },
            stage: Stage::Rest { ns: if due > now { (due - now) as u64 } else { 0 } },
            ..w
        },
        BusSlot { stats: stats_after(w, s.stats, pass, now), ..s },
    )
}

/// What the caller is to do at a stage.
pub open spec fn stage_action(stage: Stage) -> Action {
    match stage {
        Stage::Rest { ns } => Action::Sleep { ns },
        Stage::Poll => Action::Poll,
        Stage::Request { request, joint, reread } => Action::Call {
            joint,
            call: if reread { MotorCall::ReadStatus } else { request_call(request) },
        },
        Stage::Settle => Action::Sleep { ns: RESTART_NS },
        Stage::Frame { joint, absolute, .. } => Action::Call {
            joint,
            call: if absolute is None { MotorCall::ReadAbsolute } else { MotorCall::Measure },
        },
        Stage::Cycle { joint, call, .. } => Action::Call { joint, call },
        Stage::Status { joint, .. } => Action::Call { joint, call: MotorCall::ReadStatus },
        Stage::Release { joint } => Action::Call { joint, call: MotorCall::Disable },
        Stage::Ended => Action::End,
    }
}

/// The bus after an event. An event that does not belong to the stage changes
/// nothing.
pub open spec fn bus_after(bus: Bus, event: Event, stop: bool, now: u64) -> Bus {
    let (w, s) = bus;
    match (w.stage, event) {
        (Stage::Rest { .. }, Event::Woke) => at_top(bus, stop),
        (Stage::Poll, Event::Request(request)) => request_arrives(bus, request),
        (Stage::Poll, Event::Empty) => if w.frame_ready {
            cycle_starts(bus, stop, now)
        } else {
            frame_starts(bus, false)
        },
        (Stage::Poll, Event::Closed) => releasing(bus, 0),
        (Stage::Request { request, joint, reread }, Event::Replied(reply)) => request_replied(
            bus,
            request,
            joint,
            reread,
            reply,
        ),
        (Stage::Request { request, joint, .. }, Event::Failed(_)) => request_goes_on(
            bus,
            request,
            joint,
        ),
        (Stage::Settle, Event::Woke) => frame_starts(bus, true),
        (Stage::Frame { joint, absolute: None, offsets, requested }, Event::Replied(Reply::Angle(a))) => (
            BusWorker { stage: Stage::Frame { joint, absolute: Some(a), offsets, requested }, ..w },
            s,
        ),
        (
            Stage::Frame { joint, absolute: Some(a), offsets, requested },
            Event::Replied(Reply::Feedback(fb)),
        ) => frame_goes_on(
            bus,
            joint,
            offsets.with(joint as int, a.minus(fb.position_rad)),
            requested,
            stop,
            now,
        ),
        (Stage::Frame { requested, .. }, Event::Failed(_)) => frame_fails(bus, requested, now),
        (Stage::Cycle { joint, pass, .. }, Event::Replied(Reply::Feedback(fb))) => joint_starts(
            bus,
            joint + 1,
            pass_with(pass, joint as int, state_of(w, joint as int, fb)),
            stop,
            now,
        ),
        (Stage::Cycle { joint, pass, .. }, Event::Failed(_)) => joint_starts(
            bus,
            joint + 1,
            pass_failed(pass, s, joint as int),
            stop,
            now,
        ),
        (
            Stage::Status { joint, pass },
            Event::Replied(Reply::Status { voltage_v, temperature_c, error_raw }),
        ) => cycle_ends(
            (
                w,
                BusSlot {
                    status: s.status.with(
                        joint as int,
                        status_of(voltage_v, temperature_c, error_raw),
                    ),
                    ..s
                },
            ),
            pass,
            now,
        ),
        (Stage::Status { pass, .. }, Event::Failed(_)) => cycle_ends(bus, pass, now),
        (Stage::Release { joint }, Event::Replied(_)) => releasing(bus, joint + 1),
        (Stage::Release { joint }, Event::Failed(_)) => releasing(bus, joint + 1),
        _ => bus,
    }
}

/// What is worth telling about an event.
pub open spec fn notice_of(bus: Bus, event: Event) -> NoticeText {
    let (w, s) = bus;
    match (w.stage, event) {
        (Stage::Poll, Event::Request(request)) => match request.one_joint() {
            Some(k) => if k >= 3 { NoticeText::NoSuchJoint { joint: k } } else { NoticeText::Quiet },
            None => NoticeText::Quiet,
        },
        (Stage::Request { request, joint, .. }, Event::Failed(e)) => NoticeText::Trouble(
            joint_text(w.leg, joint) + " "@ + request.text() + ": "@ + e@,
        ),
        (Stage::Frame { joint, absolute: None, .. }, Event::Failed(e)) => NoticeText::Trouble(
            joint_text(w.leg, joint) + ": 絶対角の読み出しに失敗: "@ + e@,
        ),
        (Stage::Frame { joint, absolute: Some(_), .. }, Event::Failed(e)) => NoticeText::Trouble(
            joint_text(w.leg, joint) + ": 状態の読み出しに失敗: "@ + e@,
        ),
        (Stage::Cycle { joint, .. }, Event::Failed(e)) => NoticeText::Trouble(
            joint_text(w.leg, joint) + ": "@ + e@,
        ),
        (
            Stage::Status { joint, .. },
            Event::Replied(Reply::Status { voltage_v, temperature_c, error_raw }),
        ) => {
            let status = status_of(voltage_v, temperature_c, error_raw);
            if status.is_faulted() && error_raw != s.status.at(joint as int).error_raw {
                NoticeText::NewFault { joint, status }
            } else {
                NoticeText::Quiet
            }
        },
        _ => NoticeText::Quiet,
    }
}

impl BusWorker {
    /// The joint that the stage is about exists, and the failures of a pass fit.
    pub open spec fn wf(self) -> bool {
        &&& forall|k: int| 0 <= k < 3 ==> (#[trigger] self.maps.at(k)).wf()
        &&& self.status_cursor < 3
        &&& match self.stage {
            Stage::Request { joint, .. } => joint < 3,
            Stage::Frame { joint, .. } => joint < 3,
            Stage::Cycle { joint, pass, .. } => joint < 3 && pass.errors <= joint,
            Stage::Status { joint, .. } => joint < 3,
            Stage::Release { joint } => joint < 3,
            _ => true,
        }
    }

    /// What to do next.
    pub fn action(&self) -> (r: Action)
        ensures
            r == stage_action(self.stage),
    {
        match self.stage {
            Stage::Rest { ns } => Action::Sleep { ns },
            Stage::Poll => Action::Poll,
            Stage::Request { request, joint, reread } => {
                let call = if reread { MotorCall::ReadStatus } else { call_for(request) };
                Action::Call { joint, call }
            },
            Stage::Settle => Action::Sleep { ns: RESTART_NS },
            Stage::Frame { joint, absolute, .. } => {
                let call = match absolute {
                    None => MotorCall::ReadAbsolute,
                    Some(_) => MotorCall::Measure,
                };
                Action::Call { joint, call }
            },
            Stage::Cycle { joint, call, .. } => Action::Call { joint, call },
            Stage::Status { joint, .. } => Action::Call { joint, call: MotorCall::ReadStatus },
            Stage::Release { joint } => Action::Call { joint, call: MotorCall::Disable },
            Stage::Ended => Action::End,
        }
    }

    /// Takes in how the last action went. `stop` says whether the thread was told
    /// to stop, and `now` is the time.
    pub fn step(&mut self, slot: &mut BusSlot, event: Event, stop: bool, now: u64) -> (r: Notice)
        requires
            old(self).wf(),
        ensures
            final(self).wf(),
            (*final(self), *final(slot)) == bus_after((*old(self), *old(slot)), event, stop, now),
            r@ == notice_of((*old(self), *old(slot)), event),
    {
        let bus: Bus = (*self, *slot);
        let notice = tell(&bus, &event);
        let next = after(bus, &event, stop, now);
        *self = next.0;
        *slot = next.1;
        notice
    }
}

fn tell(bus: &Bus, event: &Event) -> (r: Notice)
    requires
        bus.0.wf(),
    ensures
        r@ == notice_of(*bus, *event),
{
    let leg = bus.0.leg;
    match (bus.0.stage, event) {
        (Stage::Poll, Event::Request(request)) => match only_joint(*request) {
            Some(k) => if k >= 3 { Notice::NoSuchJoint { joint: k } } else { Notice::Quiet },
            None => Notice::Quiet,
        },
        (Stage::Request { request, joint, .. }, Event::Failed(e)) => Notice::Trouble(
            joint_label(leg, joint).concat(" ").concat(request.describe().as_str()).concat(": ").concat(
                e.as_str(),
            ),
        ),
        (Stage::Frame { joint, absolute: None, .. }, Event::Failed(e)) => Notice::Trouble(
            joint_label(leg, joint).concat(": 絶対角の読み出しに失敗: ").concat(e.as_str()),
        ),
        (Stage::Frame { joint, absolute: Some(_), .. }, Event::Failed(e)) => Notice::Trouble(
            joint_label(leg, joint).concat(": 状態の読み出しに失敗: ").concat(e.as_str()),
        ),
        (Stage::Cycle { joint, .. }, Event::Failed(e)) => Notice::Trouble(
            joint_label(leg, joint).concat(": ").concat(e.as_str()),
        ),
        (
            Stage::Status { joint, .. },
            Event::Replied(Reply::Status { voltage_v, temperature_c, error_raw }),
        ) => {
            let status = JointStatus {
                voltage_v: *voltage_v,
                temperature_c: *temperature_c,
                error_raw: *error_raw,
                valid: true,
            };
            if status.faulted() && *error_raw != bus.1.status.get(joint).error_raw {
                Notice::NewFault { joint, status }
            } else {
                Notice::Quiet
            }
        },
        _ => Notice::Quiet,
    }
}

fn only_joint(request: BusRequest) -> (r: Option<usize>)
    ensures
        r == request.one_joint(),
{
    match request {
        BusRequest::EnableJoint(k) => Some(k),
        BusRequest::DisableJoint(k) => Some(k),
        BusRequest::ClearMultiTurnJoint(k) => Some(k),
        BusRequest::RestartJoint(k) => Some(k),
        _ => None,
    }
}

fn after(bus: Bus, event: &Event, stop: bool, now: u64) -> (r: Bus)
    requires
        bus.0.wf(),
    ensures
        r == bus_after(bus, *event, stop, now),
        r.0.wf(),
{
    let (w, s) = bus;
    match (w.stage, event) {
        (Stage::Rest { .. }, Event::Woke) => if stop {
            release_from(bus, 0)
        } else {
            with_stage(bus, Stage::Poll)
        },
        (Stage::Poll, Event::Request(request)) => arrive(bus, *request),
        (Stage::Poll, Event::Empty) => if w.frame_ready {
            start_cycle(bus, stop, now)
        } else {
            start_frame(bus, false)
        },
        (Stage::Poll, Event::Closed) => release_from(bus, 0),
        (Stage::Request { request, joint, reread }, Event::Replied(reply)) => {
            let clears: bool = matches!(request, BusRequest::ClearError);
            if clears && !reread {
                with_stage(bus, Stage::Request { request, joint, reread: true })
            } else {
                go_on((w, keep(s, request, joint, reread, *reply)), request, joint)
            }
        },
        (Stage::Request { request, joint, .. }, Event::Failed(_)) => go_on(bus, request, joint),
        (Stage::Settle, Event::Woke) => start_frame(bus, true),
        (Stage::Frame { joint, absolute: None, offsets, requested }, Event::Replied(Reply::Angle(a))) => {
            with_stage(bus, Stage::Frame { joint, absolute: Some(*a), offsets, requested })
        },
        (
            Stage::Frame { joint, absolute: Some(a), offsets, requested },
            Event::Replied(Reply::Feedback(fb)),
        ) => {
            let mut known = offsets;
            known.set(joint, a.minus(fb.position_rad));
            go_on_frame(bus, joint, known, requested, stop, now)
        },
        (Stage::Frame { requested, .. }, Event::Failed(_)) => fail_frame(bus, requested, now),
        (Stage::Cycle { joint, pass, .. }, Event::Replied(Reply::Feedback(fb))) => {
            let mut seen = pass;
            let mut states = pass.states;
            states.set(joint, read_state(&w, joint, *fb));
            seen.states = states;
            start_joint(bus, joint + 1, seen, stop, now)
        },
        (Stage::Cycle { joint, pass, .. }, Event::Failed(_)) => {
            let mut seen = pass;
            let mut states = pass.states;
            let mut old_state = s.state.get(joint);
            old_state.ok = false;
            states.set(joint, old_state);
            seen.states = states;
            seen.errors = pass.errors + 1;
            start_joint(bus, joint + 1, seen, stop, now)
        },
        (
            Stage::Status { joint, pass },
            Event::Replied(Reply::Status { voltage_v, temperature_c, error_raw }),
        ) => {
            let mut slot = s;
            let mut status = s.status;
            status.set(
                joint,
                JointStatus {
                    voltage_v: *voltage_v,
                    temperature_c: *temperature_c,
                    error_raw: *error_raw,
                    valid: true,
                },
            );
            slot.status = status;
            end_cycle((w, slot), pass, now)
        },
        (Stage::Status { pass, .. }, Event::Failed(_)) => end_cycle(bus, pass, now),
        (Stage::Release { joint }, Event::Replied(_)) => release_from(bus, joint + 1),
        (Stage::Release { joint }, Event::Failed(_)) => release_from(bus, joint + 1),
        _ => bus,
    }
}

fn with_stage(bus: Bus, stage: Stage) -> (r: Bus)
    ensures
        r == (BusWorker { stage, ..bus.0 }, bus.1),
{
    let mut w = bus.0;
    w.stage = stage;
    (w, bus.1)
}

fn release_from(bus: Bus, joint: usize) -> (r: Bus)
    requires
        bus.0.wf(),
        joint <= 3,
    ensures
        r == releasing(bus, joint as int),
        r.0.wf(),
    decreases 3 - joint,
{
    if joint >= 3 {
        with_stage(bus, Stage::Ended)
    } else if bus.1.state.get(joint).ok {
        with_stage(bus, Stage::Release { joint })
    } else {
        release_from(bus, joint + 1)
    }
}

fn start_request(bus: Bus, request: BusRequest, joint: usize) -> (r: Bus)
    requires
        bus.0.wf(),
        joint < 3,
    ensures
        r == request_starts(bus, request, joint),
        r.0.wf(),
{
    let (mut w, mut s) = bus;
    w.stage = Stage::Request { request, joint, reread: false };
    match call_for(request) {
        MotorCall::Disable => {
            let mut issued = w.issued;
            issued.set(joint, None);
            w.issued = issued;
        },
        MotorCall::ReadPid => {
            let mut pids = s.pids;
            pids.set(joint, None);
            s.pids = pids;
        },
        MotorCall::ReadSingleTurn => {
            let mut single_turn = s.single_turn;
            single_turn.set(joint, None);
            s.single_turn = single_turn;
        },
        _ => {},
    }
    (w, s)
}

fn start_frame(bus: Bus, requested: bool) -> (r: Bus)
    requires
        bus.0.wf(),
    ensures
        r == frame_starts(bus, requested),
        r.0.wf(),
{
    with_stage(
        bus,
        Stage::Frame { joint: 0, absolute: None, offsets: PerJoint::filled(double(0)), requested },
    )
}

fn lose_frame(bus: Bus) -> (r: Bus)
    requires
        bus.0.wf(),
    ensures
        r == frame_lost(bus),
        r.0.wf(),
{
    let (mut w, mut s) = bus;
    w.frame_ready = false;
    s.anchored = false;
    (w, s)
}

fn go_on(bus: Bus, request: BusRequest, joint: usize) -> (r: Bus)
    requires
        bus.0.wf(),
        joint < 3,
    ensures
        r == request_goes_on(bus, request, joint),
        r.0.wf(),
{
    let whole_bus: bool = only_joint(request).is_none();
    if whole_bus && joint < 2 {
        return start_request(bus, request, joint + 1);
    }
    match request {
        BusRequest::ClearMultiTurn | BusRequest::ClearMultiTurnJoint(_) => start_frame(
            lose_frame(bus),
            true,
        ),
        BusRequest::Restart | BusRequest::RestartJoint(_) => with_stage(
            lose_frame(bus),
            Stage::Settle,
        ),
        _ => with_stage(bus, Stage::Poll),
    }
}

fn arrive(bus: Bus, request: BusRequest) -> (r: Bus)
    requires
        bus.0.wf(),
    ensures
        r == request_arrives(bus, request),
        r.0.wf(),
{
    match only_joint(request) {
        Some(k) => if k >= 3 { bus } else { start_request(bus, request, k) },
        None => if matches!(request, BusRequest::Zero) {
            start_frame(lose_frame(bus), true)
        } else {
            start_request(bus, request, 0)
        },
    }
}

fn keep(slot: BusSlot, request: BusRequest, joint: usize, reread: bool, reply: Reply) -> (r: BusSlot)
    requires
        joint < 3,
    ensures
        r == request_keeps(slot, request, joint, reread, reply),
{
    let mut s = slot;
    match (request, reply) {
        (BusRequest::ClearError, Reply::Status { voltage_v, temperature_c, error_raw }) => {
            if reread {
                let mut status = s.status;
                status.set(joint, JointStatus { voltage_v, temperature_c, error_raw, valid: true });
                s.status = status;
            }
        },
        (BusRequest::ReadPid, Reply::Pids(p)) => {
            let mut pids = s.pids;
            pids.set(joint, Some(p));
            s.pids = pids;
        },
        (BusRequest::ReadSingleTurn, Reply::SingleTurn(v)) => {
            let mut single_turn = s.single_turn;
            single_turn.set(joint, Some(v));
            s.single_turn = single_turn;
        },
        _ => {},
    }
    s
}

fn fail_frame(bus: Bus, requested: bool, now: u64) -> (r: Bus)
    requires
        bus.0.wf(),
    ensures
        r == frame_fails(bus, requested, now),
        r.0.wf(),
{
    let (mut w, s) = bus;
    if requested {
        w.stage = Stage::Poll;
    } else {
        let from: u64 = if w.next < now { now } else { w.next };
        w.next = from.saturating_add(w.period);
        w.stage = Stage::Rest { ns: w.period };
    }
    (w, s)
}

fn go_on_frame(
    bus: Bus,
    joint: usize,
    offsets: PerJoint<Double>,
    requested: bool,
    stop: bool,
    now: u64,
) -> (r: Bus)
    requires
        bus.0.wf(),
        joint < 3,
    ensures
        r == frame_goes_on(bus, joint, offsets, requested, stop, now),
        r.0.wf(),
{
    if joint < 2 {
        with_stage(bus, Stage::Frame { joint: joint + 1, absolute: None, offsets, requested })
    } else {
        let (mut w, mut s) = bus;
        w.frame_offset = offsets;
        w.frame_ready = true;
        s.anchored = true;
        if requested { with_stage((w, s), Stage::Poll) } else { start_cycle((w, s), stop, now) }
    }
}

/// A span of the clock.
pub fn span(start: u64, now: u64) -> (r: u64)
    ensures
        r == since(start, now),
{
    if now < start { 0 } else { now - start }
}

fn start_cycle(bus: Bus, stop: bool, now: u64) -> (r: Bus)
    requires
        bus.0.wf(),
    ensures
        r == cycle_starts(bus, stop, now),
        r.0.wf(),
{
    let (mut w, s) = bus;
    let dt = seconds(span(w.last_cycle, now)).min(double(HALF));
    w.last_cycle = now;
    let pass = Pass { start: now, dt, cmds: s.cmd, states: s.state, errors: 0 };
    start_joint((w, s), 0, pass, stop, now)
}

fn command_joint(bus: &Bus, joint: usize, cmd: JointCommand, dt: Double) -> (r: (
    MotorCall,
    Option<Double>,
))
    requires
        bus.0.wf(),
        joint < 3,
    ensures
        r == joint_call(*bus, joint as int, cmd, dt),
{
    let w = bus.0;
    let map = w.maps.get(joint);
    match cmd.mode {
        JointMode::Position => if w.frame_ready {
            let from = match w.issued.get(joint) {
                Some(previous) => previous,
                None => bus.1.state.get(joint).position_rad,
            };
            let target = slew_step(from, cmd.position_rad, w.max_target_rate, dt);
            let speed = if double(0).below(cmd.max_speed_rad_s) {
                cmd.max_speed_rad_s
            } else {
                w.default_max_speed
            };
            (
                MotorCall::SetPosition { angle_rad: map.to_motor(target), speed_rad_s: speed },
                Some(target),
            )
        } else {
            (MotorCall::Measure, None)
        },
        JointMode::Torque => (
            MotorCall::SetTorque { torque_nm: map.sign.times(cmd.torque_nm) },
            None,
        ),
        JointMode::Idle => (MotorCall::Measure, None),
    }
}

fn start_joint(bus: Bus, joint: usize, pass: Pass, stop: bool, now: u64) -> (r: Bus)
    requires
        bus.0.wf(),
        joint <= 3,
        pass.errors <= joint,
    ensures
        r == joint_starts(bus, joint as int, pass, stop, now),
        r.0.wf(),
{
    if joint >= 3 || stop {
        return end_joints(bus, pass, now);
    }
    let (call, target) = command_joint(&bus, joint, pass.cmds.get(joint), pass.dt);
    let (mut w, s) = bus;
    let mut issued = w.issued;
    issued.set(joint, target);
    w.issued = issued;
    w.stage = Stage::Cycle { joint, call, pass };
    (w, s)
}

fn read_state(w: &BusWorker, joint: usize, fb: Feedback) -> (r: JointState)
    requires
        joint < 3,
    ensures
        r == state_of(*w, joint as int, fb),
{
    let map = w.maps.get(joint);
    JointState {
        position_rad: map.to_model(fb.position_rad.plus(w.frame_offset.get(joint))),
        velocity_rad_s: map.rate_to_model(fb.velocity_rad_s),
        torque_nm: map.rate_to_model(fb.torque_nm),
        temperature_c: fb.temperature_c,
        ok: true,
    }
}

fn end_joints(bus: Bus, pass: Pass, now: u64) -> (r: Bus)
    requires
        bus.0.wf(),
    ensures
        r == joints_end(bus, pass, now),
        r.0.wf(),
{
    let (mut w, mut s) = bus;
    s.state = pass.states;
    if w.status_interval == 0 || now < w.next_status {
        return end_cycle((w, s), pass, now);
    }
    let joint: usize = w.status_cursor;
    w.next_status = now.saturating_add(w.status_interval);
    w.status_cursor = if joint >= 2 { 0 } else { joint + 1 };
    w.stage = Stage::Status { joint, pass };
    (w, s)
}

fn end_cycle(bus: Bus, pass: Pass, now: u64) -> (r: Bus)
    requires
        bus.0.wf(),
    ensures
        r == cycle_ends(bus, pass, now),
        r.0.wf(),
{
    let (mut w, mut s) = bus;
    let cycle = seconds(span(pass.start, now));
    let window = seconds(span(w.window_start, now));
    let ticks: u64 = w.window_ticks.wrapping_add(1);
    let full: bool = double(ONE).at_most(window);
    s.stats = BusStats {
        ticks: s.stats.ticks.wrapping_add(1),
        errors: s.stats.errors.wrapping_add(pass.errors),
        last_cycle_s: cycle,
        worst_cycle_s: s.stats.worst_cycle_s.max(cycle),
        rate_hz: if full { from_u64(ticks).over(window) } else { s.stats.rate_hz },
    };
    let due: u64 = w.next.saturating_add(w.period);
    w.window_ticks = if full { 0 } else { ticks };
    w.window_start = if full { now } else { w.window_start };
    w.next = if due > now { due } else { now };
    w.stage = Stage::Rest { ns: if due > now { due - now } else { 0 } };
    (w, s)
}

/// What every step keeps: the bus is anchored exactly while its frame is known,
/// and a position is only ever commanded with a known frame.
pub open spec fn frame_is_honest(bus: Bus) -> bool {
    &&& bus.1.anchored == bus.0.frame_ready
    &&& bus.0.stage matches Stage::Cycle { call, .. } ==> {
        &&& bus.0.frame_ready
        &&& call is SetPosition || call is SetTorque || call is Measure
    }
    &&& bus.0.stage is Status ==> bus.0.frame_ready
}

/// No step commands a position while the frame is unknown, and no step leaves the
/// bus anchored without a frame.
pub proof fn law_positions_wait_for_the_frame(bus: Bus, event: Event, stop: bool, now: u64)
    requires
        bus.0.wf(),
        frame_is_honest(bus),
    ensures
        frame_is_honest(bus_after(bus, event, stop, now)),
        stage_action(bus_after(bus, event, stop, now).0.stage) matches Action::Call { call, .. }
            ==> call is SetPosition ==> bus_after(bus, event, stop, now).0.frame_ready,
{
    lemma_releasing(bus, 0);
    if let Stage::Release { joint } = bus.0.stage {
        lemma_releasing(bus, joint + 1);
    }
}

/// Releasing goes to the next joint that answers, or ends if there is none.
proof fn lemma_releasing(bus: Bus, joint: int)
    requires
        0 <= joint,
    ensures
        ({
            let r = releasing(bus, joint);
            &&& r.1 == bus.1
            &&& r.0 == (BusWorker { stage: r.0.stage, ..bus.0 })
            &&& r.0.stage is Ended || r.0.stage is Release
            &&& r.0.stage is Ended ==> forall|k: int|
                joint <= k < 3 ==> !(#[trigger] bus.1.state.at(k)).ok
            &&& r.0.stage matches Stage::Release { joint: k } ==> {
                &&& joint <= k < 3
                &&& bus.1.state.at(k as int).ok
                &&& forall|j: int| joint <= j < k ==> !(#[trigger] bus.1.state.at(j)).ok
            }
        }),
    decreases 3 - joint,
{
    if joint < 3 && !bus.1.state.at(joint).ok {
        lemma_releasing(bus, joint + 1);
    }
}

/// The thread ends only through the release of every joint that answers: each
/// stop leads to the first of them, each release to the next, and only where none
/// is left to the end.
pub proof fn law_every_answering_joint_is_released(bus: Bus, event: Event, stop: bool, now: u64)
    requires
        bus.0.wf(),
    ensures
        ({
            let r = bus_after(bus, event, stop, now);
            let from: int = match bus.0.stage {
                Stage::Release { joint } => joint + 1,
                _ => 0,
            };
            r.0.stage is Ended && !(bus.0.stage is Ended) ==> r.1.state == bus.1.state && forall|
                k: int,
            |
                from <= k < 3 ==> !(#[trigger] r.1.state.at(k)).ok
        }),
        ({
            let r = bus_after(bus, event, stop, now);
            let from: int = match bus.0.stage {
                Stage::Release { joint } => joint + 1,
                _ => 0,
            };
            r.0.stage matches Stage::Release { joint } ==> r.0.stage != bus.0.stage ==> {
                &&& r.1.state.at(joint as int).ok
                &&& forall|k: int| from <= k < joint ==> !(#[trigger] r.1.state.at(k)).ok
            }
        }),
{
    lemma_releasing(bus, 0);
    if let Stage::Release { joint } = bus.0.stage {
        lemma_releasing(bus, joint + 1);
    }
}

/// Going limp, of a whole leg or of one joint, does not lose the frame: it belongs to
/// the motors, and a leg that is moved by hand keeps it.
pub proof fn law_disabling_keeps_the_frame(
    bus: Bus,
    request: BusRequest,
    joint: usize,
    reread: bool,
    event: Event,
    stop: bool,
    now: u64,
)
    requires
        bus.0.wf(),
        request is Disable || request is DisableJoint,
        bus.0.stage == (Stage::Request { request, joint, reread }),
    ensures
        bus_after(bus, event, stop, now).1.anchored == bus.1.anchored,
        bus_after(bus, event, stop, now).0.frame_ready == bus.0.frame_ready,
        bus_after(bus, event, stop, now).0.frame_offset == bus.0.frame_offset,
{
}

/// A joint that was disabled has no target, so that position control starts again
/// from where the joint is found.
pub proof fn law_a_disabled_joint_starts_from_where_it_is(bus: Bus, joint: usize)
    requires
        joint < 3,
    ensures
        target_from(request_starts(bus, BusRequest::Disable, joint), joint as int)
            == bus.1.state.at(joint as int).position_rad,
        target_from(request_starts(bus, BusRequest::DisableJoint(joint), joint), joint as int)
            == bus.1.state.at(joint as int).position_rad,
{
}

/// A failed transaction leaves the last values of its joint in place, marked as
/// old.
pub proof fn law_a_failure_keeps_the_last_position(pass: Pass, slot: BusSlot, joint: int)
    requires
        0 <= joint < 3,
    ensures
        pass_failed(pass, slot, joint).states.at(joint).position_rad == slot.state.at(
            joint,
        ).position_rad,
        !pass_failed(pass, slot, joint).states.at(joint).ok,
{
}

} // verus!
