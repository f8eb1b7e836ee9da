//! What a leg bus is for: what it sends, what it publishes, and how it is paced.
use vstd::prelude::*;

use crate::double::{
    double, lemma_product_of_positives, lemma_scale_of_zero, seconds_of, whole, Double,
};
use crate::hal::config::is_sign;
use crate::hal::joint::JointState;
use crate::hal::legs::{
    lemma_turned, ordinary, turn, BusRequest, JointMap, JointPids, JointStatus,
};
use crate::hal::worker::{
    bus_after, elapsed, notice_of, releasing, stage_action, Action, Bus, BusWorker, Event, Feedback,
    MotorCall, NoticeText, Reply, Stage, HALF, RESTART_NS,
};
use crate::measure::{bare, lemma_worth, lemma_worth_orders, worth};
use crate::reckon::{
    fine, heads_for, is_about, lemma_about_difference, lemma_about_sum, lemma_constant,
    lemma_heads_for, lemma_product_is_near, lemma_quotient_is_near, lemma_seconds_are_near,
    lemma_stray_is_fine, lemma_whole_is_near, slack,
};

verus! {

/// Whether an event leads to a new command for a joint.
pub open spec fn commands(bus: Bus, next: Bus) -> bool {
    next.0.stage is Cycle && next.0.stage != bus.0.stage
}

/// A target that is sent is remembered as it was sent: the angle that the motor is told
/// is that of the remembered target. Where no target is sent none is remembered, and
/// the other joints' targets stay.
pub proof fn law_what_is_sent_is_remembered(bus: Bus, event: Event, stop: bool, now: u64)
    requires
        bus.0.wf(),
        commands(bus, bus_after(bus, event, stop, now)),
    ensures
        ({
            let (w, s) = bus_after(bus, event, stop, now);
            &&& w.maps == bus.0.maps
            &&& w.max_target_rate == bus.0.max_target_rate
            &&& w.stage matches Stage::Cycle { joint, call, .. } && {
                &&& joint < 3
                &&& call matches MotorCall::SetPosition { angle_rad, .. } ==> (w.issued.at(joint as int)
                    matches Some(target) && angle_rad == w.maps.at(joint as int).motor_angle(target))
                &&& !(call is SetPosition) ==> w.issued.at(joint as int) is None
                &&& forall|k: int|
                    0 <= k < 3 && k != joint ==> #[trigger] w.issued.at(k) == bus.0.issued.at(k)
            }
        }),
{
    lemma_releases(bus);
}

proof fn lemma_releases(bus: Bus)
    ensures
        forall|joint: int| !(#[trigger] releasing(bus, joint).0.stage is Cycle),
{
    assert forall|joint: int| !(#[trigger] releasing(bus, joint).0.stage is Cycle) by {
        lemma_release(bus, joint);
    }
}

proof fn lemma_release(bus: Bus, joint: int)
    ensures
        !(releasing(bus, joint).0.stage is Cycle),
    decreases 3 - joint,
{
    if joint < 3 && !bus.1.state.at(joint).ok {
        lemma_release(bus, joint + 1);
    }
}

/// Each command to a joint is what was asked of the joint when the cycle began: a
/// position at the speed that was asked for, or the usual one; a torque in the motor's
/// sign; or nothing but a measurement.
pub proof fn law_a_joint_is_commanded_as_asked(bus: Bus, event: Event, stop: bool, now: u64)
    requires
        bus.0.wf(),
        bus.0.frame_ready,
        commands(bus, bus_after(bus, event, stop, now)),
    ensures
        ({
            let (w, s) = bus_after(bus, event, stop, now);
            w.stage matches Stage::Cycle { joint, call, pass } && {
                let cmd = pass.cmds.at(joint as int);
                &&& stage_action(w.stage) == (Action::Call { joint, call })
                &&& (cmd.mode is Position) == (call is SetPosition)
                &&& (cmd.mode is Torque) == (call is SetTorque)
                &&& (cmd.mode is Idle) == (call is Measure)
                &&& call matches MotorCall::SetPosition { speed_rad_s, .. } ==> speed_rad_s == if double(
                    0,
                ).is_below(cmd.max_speed_rad_s) {
                    cmd.max_speed_rad_s
                } else {
                    bus.0.default_max_speed
                }
                &&& call matches MotorCall::SetTorque { torque_nm } ==> (is_sign(
                    bus.0.maps.at(joint as int).sign,
                ) && cmd.torque_nm.finite() ==> worth(torque_nm) == turn(
                    bus.0.maps.at(joint as int).sign,
                ) * worth(cmd.torque_nm))
            }
        }),
{
    lemma_releases(bus);
    let (w, s) = bus_after(bus, event, stop, now);
    if let Stage::Cycle { joint, call, pass } = w.stage {
        let cmd = pass.cmds.at(joint as int);
        let sign = bus.0.maps.at(joint as int).sign;
        if is_sign(sign) && cmd.torque_nm.finite() {
            lemma_turned(sign, cmd.torque_nm);
        }
    }
}

/// How far a target may move in `dt` at its rate.
pub open spec fn advance(rate: Double, dt: Double) -> real {
    worth(rate) * worth(dt)
}

/// The target that is sent is on the way from the one sent before, or, where none was,
/// from where the joint is, to the one asked for: it moves by its rate, in the time since
/// the last cycle. Without a rate it is the one asked for.
pub proof fn law_a_target_moves_at_its_rate(bus: Bus, event: Event, stop: bool, now: u64)
    requires
        bus.0.wf(),
        commands(bus, bus_after(bus, event, stop, now)),
        bus_after(bus, event, stop, now).0.stage->Cycle_call is SetPosition,
    ensures
        ({
            let (w, s) = bus_after(bus, event, stop, now);
            let joint = w.stage->Cycle_joint as int;
            let pass = w.stage->Cycle_pass;
            let rate = bus.0.max_target_rate;
            let want = pass.cmds.at(joint).position_rad;
            let from = match bus.0.issued.at(joint) {
                Some(last) => last,
                None => bus.1.state.at(joint).position_rad,
            };
            w.issued.at(joint) matches Some(target) && {
                &&& !double(0).is_below(rate) ==> target == want
                &&& double(0).is_below(rate) && double(0).is_below(pass.dt) && ordinary(from) && ordinary(
                    want,
                ) && ordinary(rate) && is_about(pass.dt, 0real, 1real) ==> {
                    &&& target.finite()
                    &&& heads_for(worth(from), worth(target), worth(want), advance(rate, pass.dt))
                }
            }
        }),
{
    lemma_releases(bus);
    let (w, s) = bus_after(bus, event, stop, now);
    let joint = w.stage->Cycle_joint as int;
    let pass = w.stage->Cycle_pass;
    let rate = bus.0.max_target_rate;
    let want = pass.cmds.at(joint).position_rad;
    let from = match bus.0.issued.at(joint) {
        Some(last) => last,
        None => bus.1.state.at(joint).position_rad,
    };
    if double(0).is_below(rate) && double(0).is_below(pass.dt) && ordinary(from) && ordinary(want)
        && ordinary(rate) && is_about(pass.dt, 0real, 1real) {
        let dt = pass.dt;
        lemma_product_of_positives(rate, dt);
        let (r, d) = (worth(rate), worth(dt));
        assert(bare(r) * bare(d) <= 1024real) by (nonlinear_arith)
            requires
                0real <= bare(r) <= 1024real,
                0real <= bare(d) <= 1real,
        ;
        lemma_product_is_near(rate, dt);
        crate::measure::lemma_unit();
        let e = crate::measure::eps();
        assert(bare(r * d) * e + crate::measure::tiny() <= slack() / 10real) by (nonlinear_arith)
            requires
                0real <= bare(r * d) <= 1024real,
                crate::measure::tiny() <= e * e,
                e == 1real / 9007199254740992real,
                slack() == 1real / 1000000000real,
        ;
        lemma_heads_for(from, want, rate.times(dt), advance(rate, dt));
    }
}

/// Over two cycles in which a position is sent, the second target is no further from the
/// first than the rate allows in the second cycle's time, within a billionth.
pub proof fn law_two_targets_are_no_further_apart_than_the_rate(
    first: Bus,
    bus: Bus,
    event: Event,
    stop: bool,
    now: u64,
    joint: int,
)
    requires
        0 <= joint < 3,
        bus.0.wf(),
        // The target sent last is remembered, until the next.
        bus.0.issued.at(joint) == first.0.issued.at(joint),
        first.0.issued.at(joint) is Some,
        commands(bus, bus_after(bus, event, stop, now)),
        bus_after(bus, event, stop, now).0.stage->Cycle_joint == joint,
        bus_after(bus, event, stop, now).0.stage->Cycle_call is SetPosition,
        double(0).is_below(bus.0.max_target_rate),
        ordinary(bus.0.max_target_rate),
        ordinary(first.0.issued.at(joint)->Some_0),
        ordinary(bus_after(bus, event, stop, now).0.stage->Cycle_pass.cmds.at(joint).position_rad),
        double(0).is_below(bus_after(bus, event, stop, now).0.stage->Cycle_pass.dt),
        is_about(bus_after(bus, event, stop, now).0.stage->Cycle_pass.dt, 0real, 1real),
    ensures
        ({
            let next = bus_after(bus, event, stop, now);
            let dt = next.0.stage->Cycle_pass.dt;
            &&& next.0.issued.at(joint) is Some
            &&& bare(
                worth(next.0.issued.at(joint)->Some_0) - worth(first.0.issued.at(joint)->Some_0),
            ) <= worth(bus.0.max_target_rate) * worth(dt) + slack()
        }),
{
    law_a_target_moves_at_its_rate(bus, event, stop, now);
    let rate = bus.0.max_target_rate;
    let dt = bus_after(bus, event, stop, now).0.stage->Cycle_pass.dt;
    lemma_scale_of_zero();
    lemma_worth(double(0));
    lemma_worth_orders(rate, double(0));
    lemma_worth_orders(dt, double(0));
    let (r, d) = (worth(rate), worth(dt));
    assert(r * d >= 0real) by (nonlinear_arith)
        requires
            r >= 0real,
            d >= 0real,
    ;
}

/// A cycle takes the commands of the moment, and the time since the last cycle, half a
/// second at most, and starts with the first joint; that the frame is known comes first.
pub proof fn law_a_cycle_takes_what_is_asked_at_its_start(bus: Bus, event: Event, stop: bool, now: u64)
    requires
        bus.0.wf(),
        bus.0.stage is Poll,
        event is Empty,
        !stop,
    ensures
        ({
            let (w, s) = bus_after(bus, event, stop, now);
            &&& s == bus.1
            &&& !bus.0.frame_ready ==> stage_action(w.stage) == (Action::Call {
                joint: 0,
                call: MotorCall::ReadAbsolute,
            })
            &&& bus.0.frame_ready ==> {
                &&& w.last_cycle == now
                &&& w.stage matches Stage::Cycle { joint, pass, .. } && {
                    &&& joint == 0
                    &&& pass.cmds == bus.1.cmd
                    &&& pass.states == bus.1.state
                    &&& pass.errors == 0
                    &&& pass.start == now
                    &&& bus.0.last_cycle <= now <= bus.0.last_cycle + 500_000_000 ==> is_about(
                        pass.dt,
                        (now - bus.0.last_cycle) as real / 1000000000real,
                        slack(),
                    )
                    &&& now > bus.0.last_cycle + 500_000_000 && now <= bus.0.last_cycle
                        + 4_000_000_000_000 ==> is_about(pass.dt, 1real / 2real, slack())
                    &&& now <= bus.0.last_cycle ==> is_about(pass.dt, 0real, slack())
                }
            }
        }),
{
    if bus.0.frame_ready {
        lemma_elapsed(bus.0, now);
    }
}

proof fn lemma_elapsed(w: BusWorker, now: u64)
    ensures
        w.last_cycle <= now <= w.last_cycle + 500_000_000 ==> is_about(
            elapsed(w, now),
            (now - w.last_cycle) as real / 1000000000real,
            slack(),
        ),
        now > w.last_cycle + 500_000_000 && now <= w.last_cycle + 4_000_000_000_000 ==> is_about(
            elapsed(w, now),
            1real / 2real,
            slack(),
        ),
        now <= w.last_cycle ==> is_about(elapsed(w, now), 0real, slack()),
{
    let ns: nat = if now < w.last_cycle { 0 } else { (now - w.last_cycle) as nat };
    vstd::arithmetic::power2::lemma2_to64();
    vstd::arithmetic::power2::lemma2_to64_rest();
    lemma_constant(double(HALF), 4503599627370496, 1021, 53);
    assert(vstd::arithmetic::power2::pow2(53) as real == 9007199254740992real);
    if ns <= 4_000_000_000_000 {
        lemma_seconds_are_near(ns);
        lemma_worth_orders(double(HALF), seconds_of(ns));
        lemma_worth_orders(seconds_of(ns), double(HALF));
    }
}

/// The joints of a cycle are commanded one after another with what was taken at its
/// start; an answer or a failure leads to the next joint.
pub proof fn law_the_joints_of_a_cycle_take_turns(bus: Bus, event: Event, now: u64)
    requires
        bus.0.wf(),
        bus.0.stage matches Stage::Cycle { joint, .. } && joint < 2,
        event is Failed || (event matches Event::Replied(Reply::Feedback(_))),
    ensures
        ({
            let before = bus.0.stage->Cycle_pass;
            let (w, s) = bus_after(bus, event, false, now);
            &&& s == bus.1
            &&& w.stage matches Stage::Cycle { joint, pass, .. } && {
                &&& joint == bus.0.stage->Cycle_joint + 1
                &&& pass.cmds == before.cmds
                &&& pass.dt == before.dt
                &&& pass.start == before.start
                &&& forall|k: int|
                    0 <= k < 3 && k != bus.0.stage->Cycle_joint ==> #[trigger] pass.states.at(k)
                        == before.states.at(k)
            }
        }),
{
}

/// What a motor answers becomes the state of its joint in the model's frame: the angle
/// with the frame's offset, turned by the sign and shifted by the zero pose; speed and
/// torque turned by the sign. What is not answered keeps its last values, marked as old,
/// and counts as a failure.
pub proof fn law_an_answer_becomes_the_state(bus: Bus, event: Event, stop: bool, now: u64)
    requires
        bus.0.wf(),
        bus.0.stage is Cycle,
        event is Failed || (event matches Event::Replied(Reply::Feedback(_))),
    ensures
        ({
            let joint = bus.0.stage->Cycle_joint as int;
            let pass = bus.0.stage->Cycle_pass;
            let (w, s) = bus_after(bus, event, stop, now);
            let states = match w.stage {
                Stage::Cycle { pass, .. } => pass.states,
                _ => s.state,
            };
            let map = bus.0.maps.at(joint);
            let offset = bus.0.frame_offset.at(joint);
            let state = states.at(joint);
            &&& forall|k: int|
                0 <= k < 3 && k != joint ==> #[trigger] states.at(k) == pass.states.at(k)
            &&& event is Failed ==> {
                &&& !state.ok
                &&& state == (JointState { ok: false, ..bus.1.state.at(joint) })
            }
            &&& event matches Event::Replied(Reply::Feedback(fb)) ==> {
                &&& state.ok
                &&& state.temperature_c == fb.temperature_c
                &&& is_sign(map.sign) && fb.velocity_rad_s.finite() ==> worth(state.velocity_rad_s)
                    == turn(map.sign) * worth(fb.velocity_rad_s)
                &&& is_sign(map.sign) && fb.torque_nm.finite() ==> worth(state.torque_nm) == turn(
                    map.sign,
                ) * worth(fb.torque_nm)
                &&& is_sign(map.sign) && ordinary(fb.position_rad) && ordinary(offset) && ordinary(
                    map.zero_pose_rad,
                ) ==> is_about(
                    state.position_rad,
                    turn(map.sign) * (worth(fb.position_rad) + worth(offset)) + worth(
                        map.zero_pose_rad,
                    ),
                    slack(),
                )
            }
        }),
{
    let joint = bus.0.stage->Cycle_joint as int;
    let map = bus.0.maps.at(joint);
    let offset = bus.0.frame_offset.at(joint);
    if let Event::Replied(Reply::Feedback(fb)) = event {
        if is_sign(map.sign) {
            if fb.velocity_rad_s.finite() {
                lemma_turned(map.sign, fb.velocity_rad_s);
            }
            if fb.torque_nm.finite() {
                lemma_turned(map.sign, fb.torque_nm);
            }
            if ordinary(fb.position_rad) && ordinary(offset) && ordinary(map.zero_pose_rad) {
                lemma_model_angle(map, fb.position_rad, offset);
            }
        }
    }
}

proof fn lemma_model_angle(map: JointMap, position: Double, offset: Double)
    requires
        is_sign(map.sign),
        ordinary(position),
        ordinary(offset),
        ordinary(map.zero_pose_rad),
    ensures
        is_about(
            map.model_angle(position.plus(offset)),
            turn(map.sign) * (worth(position) + worth(offset)) + worth(map.zero_pose_rad),
            slack(),
        ),
{
    let x = worth(position) + worth(offset);
    lemma_about_sum(position, worth(position), 0real, offset, worth(offset), 0real);
    let at = position.plus(offset);
    lemma_turned(map.sign, at);
    let y = turn(map.sign) * x;
    let z = turn(map.sign) * worth(at);
    assert(turn(map.sign) == 1real || turn(map.sign) == -1real);
    assert((1real * x == x && -1real * x == -x) && (1real * worth(at) == worth(at) && -1real * worth(at)
        == -worth(at))) by (nonlinear_arith);
    lemma_about_sum(
        map.sign.times(at),
        y,
        fine(),
        map.zero_pose_rad,
        worth(map.zero_pose_rad),
        0real,
    );
}

/// The offset of a frame is what the motor's own angle exceeds the tracked one by, so
/// that a motor that has not moved since reads its own angle; once all three are known
/// the frame is.
pub proof fn law_the_frame_is_the_motors_own(
    bus: Bus,
    absolute: Double,
    fb: Feedback,
    stop: bool,
    now: u64,
)
    requires
        bus.0.wf(),
        bus.0.stage is Frame,
        bus.0.stage->Frame_absolute == Some(absolute),
        ordinary(absolute),
        ordinary(fb.position_rad),
    ensures
        ({
            let joint = bus.0.stage->Frame_joint as int;
            let before = bus.0.stage->Frame_offsets;
            let (w, s) = bus_after(bus, Event::Replied(Reply::Feedback(fb)), stop, now);
            let offsets = match w.stage {
                Stage::Frame { offsets, .. } => offsets,
                _ => w.frame_offset,
            };
            &&& is_about(
                offsets.at(joint),
                worth(absolute) - worth(fb.position_rad),
                slack(),
            )
            &&& forall|k: int| 0 <= k < 3 && k != joint ==> #[trigger] offsets.at(k) == before.at(k)
            &&& joint < 2 ==> {
                &&& stage_action(w.stage) == (Action::Call {
                    joint: (joint + 1) as usize,
                    call: MotorCall::ReadAbsolute,
                })
                &&& s == bus.1
                &&& w.frame_ready == bus.0.frame_ready
            }
            &&& joint == 2 ==> w.frame_ready && s.anchored
        }),
{
    lemma_about_difference(
        absolute,
        worth(absolute),
        0real,
        fb.position_rad,
        worth(fb.position_rad),
        0real,
    );
    let joint = bus.0.stage->Frame_joint as int;
}

/// The frame is read joint by joint, the motor's own angle first and then the tracked
/// one. What fails is tried again after a period, or left to the next request.
pub proof fn law_the_frame_is_read_in_order(bus: Bus, absolute: Double, error: String, stop: bool, now: u64)
    requires
        bus.0.wf(),
        bus.0.stage is Frame,
    ensures
        ({
            let joint = bus.0.stage->Frame_joint;
            let failed = bus_after(bus, Event::Failed(error), stop, now);
            &&& bus.0.stage->Frame_absolute is None ==> {
                let next = bus_after(bus, Event::Replied(Reply::Angle(absolute)), stop, now);
                &&& stage_action(bus.0.stage) == (Action::Call { joint, call: MotorCall::ReadAbsolute })
                &&& stage_action(next.0.stage) == (Action::Call { joint, call: MotorCall::Measure })
                &&& next.0.stage->Frame_absolute == Some(absolute)
                &&& next.0.stage->Frame_offsets == bus.0.stage->Frame_offsets
                &&& next.1 == bus.1
            }
            &&& failed.1 == bus.1
            &&& failed.0.frame_ready == bus.0.frame_ready
            &&& if bus.0.stage->Frame_requested {
                stage_action(failed.0.stage) is Poll
            } else {
                &&& stage_action(failed.0.stage) == (Action::Sleep { ns: bus.0.period })
                &&& failed.0.next >= bus.0.next && failed.0.next >= now
            }
        }),
{
}

/// The transaction that each request makes.
pub open spec fn is_its_call(request: BusRequest, call: MotorCall) -> bool {
    match call {
        MotorCall::Enable => request is Enable || request is EnableJoint,
        MotorCall::Disable => request is Disable || request is DisableJoint,
        MotorCall::ClearMultiTurn => request is ClearMultiTurn || request is ClearMultiTurnJoint,
        MotorCall::Restart => request is Restart || request is RestartJoint,
        MotorCall::ClearError => request is ClearError,
        MotorCall::ReadPid => request is ReadPid,
        MotorCall::ReadSingleTurn => request is ReadSingleTurn,
        MotorCall::ReadAbsolute => request is Zero,
        _ => false,
    }
}

/// The joint that a request names; `None` for all three.
pub open spec fn names(request: BusRequest) -> Option<usize> {
    match request {
        BusRequest::EnableJoint(k) => Some(k),
        BusRequest::DisableJoint(k) => Some(k),
        BusRequest::ClearMultiTurnJoint(k) => Some(k),
        BusRequest::RestartJoint(k) => Some(k),
        _ => None,
    }
}

/// A request makes its transaction with the joint that it names, or with the first of
/// all three; one that names no joint of the leg is told and dropped.
pub proof fn law_a_request_makes_its_transaction(bus: Bus, request: BusRequest, stop: bool, now: u64)
    requires
        bus.0.wf(),
        bus.0.stage is Poll,
    ensures
        ({
            let event = Event::Request(request);
            let (w, s) = bus_after(bus, event, stop, now);
            match names(request) {
                Some(k) => if k >= 3 {
                    &&& (w, s) == bus
                    &&& notice_of(bus, event) == (NoticeText::NoSuchJoint { joint: k })
                } else {
                    stage_action(w.stage) matches Action::Call { joint, call } && joint == k
                        && is_its_call(request, call)
                },
                None => {
                    &&& stage_action(w.stage) matches Action::Call { joint, call } && joint == 0
                        && is_its_call(request, call)
                    &&& request is Zero ==> !w.frame_ready && !s.anchored
                },
            }
        }),
{
}

/// After a joint, a request to all three goes on with the next, whether it succeeded or
/// not; a request that moved the motors' origin has the frame read again, of restarted
/// drivers after half a second; else the next request is looked for.
pub proof fn law_a_request_goes_through_its_joints(
    bus: Bus,
    reply: Reply,
    error: String,
    failed: bool,
    stop: bool,
    now: u64,
)
    requires
        bus.0.wf(),
        bus.0.stage is Request,
        !(bus.0.stage->Request_request is Zero),
        bus.0.stage->Request_request is ClearError && !failed ==> bus.0.stage->Request_reread,
    ensures
        ({
            let request = bus.0.stage->Request_request;
            let at = bus.0.stage->Request_joint;
            let event = if failed { Event::Failed(error) } else { Event::Replied(reply) };
            let (w, s) = bus_after(bus, event, stop, now);
            let action = stage_action(w.stage);
            let restarts = request is Restart || request is RestartJoint;
            let clears = request is ClearMultiTurn || request is ClearMultiTurnJoint;
            if names(request) is None && at < 2 {
                &&& action matches Action::Call { joint, call } && joint == at + 1 && is_its_call(
                    request,
                    call,
                )
                &&& w.frame_ready == bus.0.frame_ready && s.anchored == bus.1.anchored
            } else if restarts {
                &&& action == (Action::Sleep { ns: RESTART_NS })
                &&& !w.frame_ready && !s.anchored
            } else if clears {
                &&& action == (Action::Call { joint: 0, call: MotorCall::ReadAbsolute })
                &&& !w.frame_ready && !s.anchored
            } else {
                &&& action is Poll
                &&& w.frame_ready == bus.0.frame_ready && s.anchored == bus.1.anchored
            }
        }),
        RESTART_NS == 500_000_000,
{
}

/// What a request reads is kept for its joint: the gains, the single-turn angle, or,
/// once the error flags are cleared, the status that is read back. What cannot be read is
/// not there.
pub proof fn law_what_a_request_reads_is_kept(
    bus: Bus,
    pids: JointPids,
    raw: u32,
    voltage_v: Double,
    temperature_c: Double,
    error_raw: u8,
    stop: bool,
    now: u64,
)
    requires
        bus.0.wf(),
        bus.0.stage is Request,
        !(bus.0.stage->Request_request is Zero),
    ensures
        ({
            let request = bus.0.stage->Request_request;
            let at = bus.0.stage->Request_joint as int;
            let reread = bus.0.stage->Request_reread;
            &&& request is ReadPid ==> bus_after(
                bus,
                Event::Replied(Reply::Pids(pids)),
                stop,
                now,
            ).1.pids.at(at) == Some(pids)
            &&& request is ReadSingleTurn ==> bus_after(
                bus,
                Event::Replied(Reply::SingleTurn(raw)),
                stop,
                now,
            ).1.single_turn.at(at) == Some(raw)
            &&& request is ClearError && !reread ==> {
                let next = bus_after(bus, Event::Replied(Reply::Done), stop, now);
                stage_action(next.0.stage) == (Action::Call {
                    joint: at as usize,
                    call: MotorCall::ReadStatus,
                })
            }
            &&& request is ClearError && reread ==> {
                let next = bus_after(
                    bus,
                    Event::Replied(Reply::Status { voltage_v, temperature_c, error_raw }),
                    stop,
                    now,
                );
                next.1.status.at(at) == (JointStatus {
                    voltage_v,
                    temperature_c,
                    error_raw,
                    valid: true,
                })
            }
        }),
{
}

/// A reading is only there if it was read by the request that asked for it: it is
/// forgotten when the request comes to its joint.
pub proof fn law_an_old_reading_is_forgotten(bus: Bus, request: BusRequest, stop: bool, now: u64)
    requires
        bus.0.wf(),
        bus.0.stage is Poll,
    ensures
        ({
            let (w, s) = bus_after(bus, Event::Request(request), stop, now);
            &&& request is ReadPid ==> s.pids.at(0) is None
            &&& request is ReadSingleTurn ==> s.single_turn.at(0) is None
            &&& request is Disable ==> w.issued.at(0) is None
            &&& request matches BusRequest::DisableJoint(k) ==> k < 3 ==> w.issued.at(k as int) is None
        }),
{
}

/// When the last joint has answered, the states of the cycle are published, and the
/// status of one joint is read if its time has come: of each joint in turn, once in every
/// interval.
pub proof fn law_a_cycle_is_published(bus: Bus, event: Event, stop: bool, now: u64)
    requires
        bus.0.wf(),
        bus.0.stage matches Stage::Cycle { joint, .. } && joint == 2,
        event is Failed || (event matches Event::Replied(Reply::Feedback(_))),
    ensures
        ({
            let (w, s) = bus_after(bus, event, stop, now);
            let pass = bus.0.stage->Cycle_pass;
            &&& s.state.at(0) == pass.states.at(0)
            &&& s.state.at(1) == pass.states.at(1)
            &&& s.state.at(2).ok == !(event is Failed)
            &&& bus.0.status_interval == 0 || now < bus.0.next_status ==> {
                &&& w.stage is Rest
                &&& w.next_status == bus.0.next_status && w.status_cursor == bus.0.status_cursor
            }
            &&& bus.0.status_interval > 0 && now >= bus.0.next_status ==> {
                &&& stage_action(w.stage) == (Action::Call {
                    joint: bus.0.status_cursor,
                    call: MotorCall::ReadStatus,
                })
                &&& now + bus.0.status_interval <= u64::MAX ==> w.next_status == now
                    + bus.0.status_interval
                &&& w.status_cursor == (bus.0.status_cursor + 1) % 3
            }
        }),
{
}

/// A status that was read is kept for its joint, and told of if it shows error bits that
/// were not there before.
pub proof fn law_a_status_is_kept_and_a_new_fault_told(
    bus: Bus,
    voltage_v: Double,
    temperature_c: Double,
    error_raw: u8,
    stop: bool,
    now: u64,
)
    requires
        bus.0.wf(),
        bus.0.stage is Status,
    ensures
        ({
            let event = Event::Replied(Reply::Status { voltage_v, temperature_c, error_raw });
            let (w, s) = bus_after(bus, event, stop, now);
            let at = bus.0.stage->Status_joint;
            let status = JointStatus { voltage_v, temperature_c, error_raw, valid: true };
            &&& s.status.at(at as int) == status
            &&& forall|k: int|
                0 <= k < 3 && k != at ==> #[trigger] s.status.at(k) == bus.1.status.at(k)
            &&& notice_of(bus, event) == if error_raw != 0 && error_raw != bus.1.status.at(
                at as int,
            ).error_raw {
                NoticeText::NewFault { joint: at, status }
            } else {
                NoticeText::Quiet
            }
        }),
{
}

/// Whether an event ends a cycle.
pub open spec fn ends_a_cycle(bus: Bus, next: Bus) -> bool {
    (bus.0.stage is Cycle || bus.0.stage is Status) && next.0.stage is Rest
}

/// Cycles come once in every period: after one, the bus rests until a period after the
/// last was due, or not at all if that has passed. Each counts, with its failures.
pub proof fn law_the_bus_keeps_its_pace(bus: Bus, event: Event, stop: bool, now: u64)
    requires
        bus.0.wf(),
        ends_a_cycle(bus, bus_after(bus, event, stop, now)),
        bus.0.next + bus.0.period <= u64::MAX,
        bus.1.stats.ticks < u64::MAX,
    ensures
        ({
            let (w, s) = bus_after(bus, event, stop, now);
            &&& stage_action(w.stage) matches Action::Sleep { ns } && {
                &&& now < bus.0.next + bus.0.period ==> now + ns == bus.0.next + bus.0.period
                &&& now >= bus.0.next + bus.0.period ==> ns == 0
            }
            &&& w.next >= now
            &&& now < bus.0.next + bus.0.period ==> w.next == bus.0.next + bus.0.period
            &&& now >= bus.0.next + bus.0.period ==> w.next == now
            &&& s.stats.ticks == bus.1.stats.ticks + 1
        }),
{
    lemma_releases_no_rest(bus);
}

proof fn lemma_releases_no_rest(bus: Bus)
    ensures
        forall|joint: int| !(#[trigger] releasing(bus, joint).0.stage is Rest),
{
    assert forall|joint: int| !(#[trigger] releasing(bus, joint).0.stage is Rest) by {
        lemma_release_is_no_rest(bus, joint);
    }
}

proof fn lemma_release_is_no_rest(bus: Bus, joint: int)
    ensures
        !(releasing(bus, joint).0.stage is Rest),
    decreases 3 - joint,
{
    if joint < 3 && !bus.1.state.at(joint).ok {
        lemma_release_is_no_rest(bus, joint + 1);
    }
}

/// The statistics of a cycle: its failures are added, its length is shown and kept if it
/// is the longest, and once a second the rate is the number of cycles over the time they
/// took.
pub proof fn law_a_cycle_is_counted(bus: Bus, event: Event, stop: bool, now: u64)
    requires
        bus.0.wf(),
        bus.0.stage is Status,
        event is Failed,
        bus.1.stats.errors + bus.0.stage->Status_pass.errors <= u64::MAX,
        bus.0.stage->Status_pass.start <= now,
        now - bus.0.stage->Status_pass.start <= 4_000_000_000_000,
        bus.0.window_start <= now,
        now - bus.0.window_start <= 4_000_000_000_000,
        bus.0.window_ticks < 1_000_000,
        bus.1.stats.worst_cycle_s.finite(),
    ensures
        ({
            let (w, s) = bus_after(bus, event, stop, now);
            let pass = bus.0.stage->Status_pass;
            let length = (now - pass.start) as real / 1000000000real;
            let window = (now - bus.0.window_start) as real / 1000000000real;
            &&& s.stats.errors == bus.1.stats.errors + pass.errors
            &&& is_about(s.stats.last_cycle_s, length, slack())
            &&& worth(s.stats.worst_cycle_s) >= worth(s.stats.last_cycle_s)
            &&& worth(s.stats.worst_cycle_s) >= worth(bus.1.stats.worst_cycle_s)
            &&& s.stats.worst_cycle_s == s.stats.last_cycle_s || s.stats.worst_cycle_s
                == bus.1.stats.worst_cycle_s
            &&& window <= 1real - slack() ==> {
                &&& s.stats.rate_hz == bus.1.stats.rate_hz
                &&& w.window_ticks == bus.0.window_ticks + 1
                &&& w.window_start == bus.0.window_start
            }
            &&& window >= 1real + slack() ==> {
                &&& w.window_ticks == 0
                &&& w.window_start == now
                &&& bus.0.window_ticks < 4000 ==> is_about(
                    s.stats.rate_hz,
                    (bus.0.window_ticks + 1) as real / window,
                    1real / 1000000real,
                )
            }
        }),
{
    let pass = bus.0.stage->Status_pass;
    lemma_seconds_are_near((now - pass.start) as nat);
    lemma_seconds_are_near((now - bus.0.window_start) as nat);
    let cycle = seconds_of((now - pass.start) as nat);
    let window = seconds_of((now - bus.0.window_start) as nat);
    lemma_worth_orders(bus.1.stats.worst_cycle_s, cycle);
    lemma_worth_orders(cycle, bus.1.stats.worst_cycle_s);
    vstd::arithmetic::power2::lemma2_to64();
    vstd::arithmetic::power2::lemma2_to64_rest();
    lemma_constant(double(crate::double::ONE), 4503599627370496, 1022, 52);
    assert(vstd::arithmetic::power2::pow2(52) as real == 4503599627370496real);
    lemma_worth_orders(double(crate::double::ONE), window);
    let span = (now - bus.0.window_start) as real / 1000000000real;
    if bus.0.window_ticks < 4000 && span >= 1real + slack() {
        let ticks = (bus.0.window_ticks + 1) as nat;
        lemma_whole_is_near(ticks);
        lemma_rate(whole(ticks), ticks as real, window, span);
    }
}

/// A number of cycles over the time that they took.
proof fn lemma_rate(n: Double, ticks: real, window: Double, span: real)
    requires
        is_about(n, ticks, fine()),
        0real <= ticks <= 4096real,
        is_about(window, span, slack() / 100real),
        span >= 1real,
        worth(window) >= 1real,
    ensures
        is_about(n.over(window), ticks / span, 1real / 1000000real),
{
    let a = worth(n);
    let b = worth(window);
    let x = a / b;
    assert(x * b == a && bare(x) <= 4097real) by (nonlinear_arith)
        requires
            x == a / b,
            b >= 1real,
            -1real <= a <= 4097real,
            bare(x) == if x < 0real { -x } else { x },
    ;
    lemma_quotient_is_near(n, window, x);
    lemma_stray_is_fine(worth(n.over(window)), x);
    let y = ticks / span;
    assert(y * span == ticks && 0real <= y <= 4096real) by (nonlinear_arith)
        requires
            y == ticks / span,
            span >= 1real,
            0real <= ticks <= 4096real,
    ;
    let g = b - span;
    let h = a - ticks;
    assert((x - y) * b == h - y * g) by (nonlinear_arith)
        requires
            x * b == a,
            y * span == ticks,
            g == b - span,
            h == a - ticks,
    ;
    assert(bare(y * g) <= 4096real * (slack() / 100real)) by (nonlinear_arith)
        requires
            0real <= y <= 4096real,
            -(slack() / 100real) <= g <= slack() / 100real,
            bare(y * g) == if y * g < 0real { -(y * g) } else { y * g },
    ;
    let z = x - y;
    assert(bare(z) <= 1real / 2000000real) by (nonlinear_arith)
        requires
            bare(z * b) <= 1real / 2000000real,
            b >= 1real,
            bare(z) == if z < 0real { -z } else { z },
            bare(z * b) == if z * b < 0real { -(z * b) } else { z * b },
    ;
}

} // verus!
