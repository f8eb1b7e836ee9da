//! Playing a gait without the robot, to see whether the joints stay in range.
//!
//! Whether a command leaves the range is cheapest to learn before a motor is
//! connected. The whole machine runs, so that a transition that goes too far shows
//! up too.
use vstd::arithmetic::power2::pow2;
use vstd::prelude::*;
use vstd::string::*;

use crate::control::cli::Cli;
use crate::control::controller::State;
use crate::control::diag::left;
use crate::control::jointvec::JointVec;
use crate::control::teleop::{Attitude, GaitSelect, ModeRequest, OperatorCommand};
use crate::double::{ceil_count, ceiling, count_up, double, from_u64, whole, Double};
use crate::hal::config::HardwareConfig;
use crate::hal::joint::{LegSlot, PerJoint, PerLeg};
use crate::measure::{bare, lemma_unit, lemma_worth, worth};
use crate::reckon::{
    fine, is_about, lemma_about_product, lemma_quotient_is_near, lemma_stray_is_fine,
    lemma_whole_is_near, slack,
};
use crate::text::{blank_text, debug_text, quoted, same_text};

verus! {

/// The gait of the given name.
pub open spec fn gait_named(name: Seq<char>) -> Option<GaitSelect> {
    if name == "crawl"@ {
        Some(GaitSelect::Crawl)
    } else if name == "walk"@ {
        Some(GaitSelect::Walk)
    } else if name == "trot"@ {
        Some(GaitSelect::Trot)
    } else {
        None
    }
}

/// What an unknown gait is told; its name comes in quotes.
pub open spec fn unknown_gait_text(name: Seq<char>) -> Seq<char> {
    "未知の歩容 "@ + name + "（crawl|walk|trot）"@
}

/// The error of an unknown gait, whose name comes in quotes.
pub fn unknown_gait(name: &str) -> (r: String)
    ensures
        r@ == unknown_gait_text(name@),
{
    "未知の歩容 ".to_owned().concat(name).concat("（crawl|walk|trot）")
}

/// The gait that `--gait` names; crawl if none.
pub fn gait_of(cli: &Cli) -> (r: Result<GaitSelect, String>)
    requires
        cli.wf(),
    ensures
        ({
            let name = match cli@.value("gait"@) {
                Some(name) => name,
                None => "crawl"@,
            };
            match (gait_named(name), r) {
                (Some(gait), _) => r == Ok::<GaitSelect, String>(gait),
                (None, Err(e)) => e@ == unknown_gait_text(debug_text(name)),
                (None, Ok(_)) => false,
            }
        }),
{
    let name = match cli.str("gait") {
        Some(name) => name,
        None => "crawl",
    };
    if same_text(name, "crawl") {
        Ok(GaitSelect::Crawl)
    } else if same_text(name, "walk") {
        Ok(GaitSelect::Walk)
    } else if same_text(name, "trot") {
        Ok(GaitSelect::Trot)
    } else {
        Err(unknown_gait(quoted(name).as_str()))
    }
}

/// How often a line is shown: every twentieth period unless told otherwise.
pub fn every_of(cli: &Cli) -> (r: usize)
    requires
        cli.wf(),
    ensures
        r >= 1,
        match cli@.value("every"@) {
            Some(value) => match crate::control::cli::count_of(value) {
                Some(n) => if n > usize::MAX {
                    r == 20
                } else if n == 0 {
                    r == 1
                } else {
                    r == n
                },
                None => r == 20,
            },
            None => r == 20,
        },
{
    match cli.usize("every") {
        Some(n) => if n == 0 { 1 } else { n },
        None => 20,
    }
}

proof fn lemma_periods(seconds: Double, dt: Double)
    requires
        seconds.finite(),
        dt.finite(),
        0real < worth(dt),
        0real <= worth(seconds) <= 4000real * worth(dt),
    ensures
        ({
            let n = worth(seconds) / worth(dt);
            let r = count_up(seconds.over(dt)) as real;
            n - fine() <= r && r <= n + 1real + fine()
        }),
{
    let s = worth(seconds);
    let d = worth(dt);
    let n = s / d;
    assert(n * d == s && 0real <= n <= 4000real) by (nonlinear_arith)
        requires
            n == s / d,
            d > 0real,
            0real <= s <= 4000real * d,
    ;
    lemma_quotient_is_near(seconds, dt, n);
    let q = seconds.over(dt);
    let w = worth(q);
    lemma_stray_is_fine(w, n);
    lemma_worth(q);
    lemma_unit();
    let u = pow2(1074);
    if q.value() > 0 {
        let v = q.value() as nat;
        let c = ceiling(v, u);
        vstd::arithmetic::div_mod::lemma_fundamental_div_mod(v as int, u as int);
        let k = v / u;
        let rest = v % u;
        let kr = k as real;
        let ur = u as real;
        let part = (u * k) as real;
        assert(part == ur * kr) by (nonlinear_arith)
            requires
                part == (u * k) as real,
                ur == u as real,
                kr == k as real,
        ;
        let x = rest as real;
        assert(w * ur == ur * kr + x);
        assert(kr <= w && w < kr + 1real && (x == 0real ==> w == kr)) by (nonlinear_arith)
            requires
                w * ur == ur * kr + x,
                0real <= x < ur,
        ;
        assert(c <= k + 1);
        assert(kr <= 4001real);
        assert(c <= 4002);
    }
}

/// How many periods the play takes.
pub fn step_count(seconds: Double, dt: Double) -> (r: u64)
    ensures
        r == count_up(seconds.over(dt)),
        seconds.finite() && dt.finite() && 0real < worth(dt) && 0real <= worth(seconds) <= 4000real
            * worth(dt) ==> {
            let n = worth(seconds) / worth(dt);
            n - fine() <= r as real && r as real <= n + 1real + fine()
        },
{
    proof {
        if seconds.finite() && dt.finite() && 0real < worth(dt) && 0real <= worth(seconds) <= 4000real
            * worth(dt) {
            lemma_periods(seconds, dt);
        }
    }
    ceil_count(seconds.over(dt))
}

/// The time of a period (s).
pub fn time_of(step: u64, dt: Double) -> (r: Double)
    ensures
        r == whole(step as nat).times(dt),
        step <= 1000 && is_about(dt, 0real, 1real) ==> is_about(r, step as real * worth(dt), slack()),
{
    proof {
        if step <= 1000 && is_about(dt, 0real, 1real) {
            let d = worth(dt);
            let s = step as real;
            lemma_whole_is_near(step as nat);
            assert(s * bare(d) <= 1000real) by (nonlinear_arith)
                requires
                    0real <= s <= 1000real,
                    0real <= bare(d) <= 1real,
            ;
            lemma_about_product(whole(step as nat), s, fine(), dt, d, 0real);
            assert(bare(s) * 0real == 0real && fine() * 0real == 0real) by (nonlinear_arith);
            assert(bare(d) * fine() <= fine()) by (nonlinear_arith)
                requires
                    0real <= bare(d) <= 1real,
                    fine() > 0real,
            ;
        }
    }
    from_u64(step).times(dt)
}

/// The command of a period: the robot rises first, and gets its speed once the gait
/// runs.
pub open spec fn dump_command(state: State, gait: GaitSelect, vx: Double, vy: Double, wz: Double, attitude: Attitude)
    -> OperatorCommand {
    let moving = state is Active;
    OperatorCommand {
        vx_m_s: if moving { vx } else { double(0) },
        vy_m_s: if moving { vy } else { double(0) },
        wz_rad_s: if moving { wz } else { double(0) },
        height_offset_m: double(0),
        arm_rad: None,
        mode: ModeRequest::Walk,
        gait,
        play_pose: false,
        chicken_head: false,
        play_alt: false,
        body_attitude_rad: attitude,
        link_ok: true,
    }
}

pub fn command_for(state: State, gait: GaitSelect, vx: Double, vy: Double, wz: Double, attitude: Attitude)
    -> (r: OperatorCommand)
    ensures
        r == dump_command(state, gait, vx, vy, wz, attitude),
{
    let moving: bool = matches!(state, State::Active);
    OperatorCommand {
        vx_m_s: if moving { vx } else { double(0) },
        vy_m_s: if moving { vy } else { double(0) },
        wz_rad_s: if moving { wz } else { double(0) },
        height_offset_m: double(0),
        arm_rad: None,
        mode: ModeRequest::Walk,
        gait,
        play_pose: false,
        chicken_head: false,
        play_alt: false,
        body_attitude_rad: attitude,
        link_ok: true,
    }
}

/// The zero pose of a leg's motors; zero where there is no motor.
pub open spec fn leg_crouch(hw: HardwareConfig, leg: LegSlot) -> PerJoint<Double> {
    if exists|i: int| hw.first_bus_of(leg, i) {
        let motors = hw.legs.bus[choose|i: int| hw.first_bus_of(leg, i)].motors;
        PerJoint {
            hip: if motors.len() > 0 { motors[0].zero_pose_rad } else { double(0) },
            thigh: if motors.len() > 1 { motors[1].zero_pose_rad } else { double(0) },
            calf: if motors.len() > 2 { motors[2].zero_pose_rad } else { double(0) },
        }
    } else {
        PerJoint::all(double(0))
    }
}

/// The pose in which the motors got their power: lying. There the motors read 0, so
/// that the model's angles are the zero poses.
pub open spec fn lying(hw: HardwareConfig) -> JointVec {
    JointVec {
        legs: PerLeg {
            fl: leg_crouch(hw, LegSlot::Fl),
            fr: leg_crouch(hw, LegSlot::Fr),
            rl: leg_crouch(hw, LegSlot::Rl),
            rr: leg_crouch(hw, LegSlot::Rr),
        },
        arm: double(0),
    }
}

fn crouch_of(hw: &HardwareConfig, leg: LegSlot) -> (r: PerJoint<Double>)
    ensures
        r == leg_crouch(*hw, leg),
{
    match crate::control::calib::bus_index(hw, leg) {
        Ok(i) => {
            proof {
                let j = choose|j: int| hw.first_bus_of(leg, j);
                crate::control::calib::lemma_one_first_bus(*hw, leg, i as int, j);
            }
            let motors = &hw.legs.bus[i].motors;
            PerJoint {
                hip: if motors.len() > 0 { motors[0].zero_pose_rad } else { double(0) },
                thigh: if motors.len() > 1 { motors[1].zero_pose_rad } else { double(0) },
                calf: if motors.len() > 2 { motors[2].zero_pose_rad } else { double(0) },
            }
        },
        Err(_) => {
            assert forall|i: int| !hw.first_bus_of(leg, i) by {
                if hw.first_bus_of(leg, i) {
                    assert(LegSlot::named(hw.legs.bus[i].leg@) == Some(leg));
                }
            }
            PerJoint::filled(double(0))
        },
    }
}

/// The pose in which the motors got their power.
pub fn crouch_pose(hw: &HardwareConfig) -> (r: JointVec)
    ensures
        r == lying(*hw),
{
    JointVec {
        legs: PerLeg {
            fl: crouch_of(hw, LegSlot::Fl),
            fr: crouch_of(hw, LegSlot::Fr),
            rl: crouch_of(hw, LegSlot::Rl),
            rr: crouch_of(hw, LegSlot::Rr),
        },
        arm: double(0),
    }
}

/// The head of the table: the legs, each over its three joints.
pub fn header() -> (r: String)
    ensures
        r@ == left("FL"@, 21) + left("FR"@, 21) + left("RL"@, 21) + left("RR"@, 21),
{
    proof {
        reveal_strlit("FL");
        reveal_strlit("FR");
        reveal_strlit("RL");
        reveal_strlit("RR");
    }
    let gap = blank_text(19);
    let r = "FL".to_owned().concat(gap.as_str()).concat("FR").concat(gap.as_str()).concat("RL").concat(
        gap.as_str(),
    ).concat("RR").concat(gap.as_str());
    assert(r@ =~= left("FL"@, 21) + left("FR"@, 21) + left("RL"@, 21) + left("RR"@, 21));
    r
}

/// A command that leaves its joint's range.
#[derive(Debug, Clone, Copy, PartialEq, Eq, Structural)]
pub struct Violation {
    /// The time (s).
    pub t: Double,
    /// The bus and the motor.
    pub bus: usize,
    pub place: usize,
    pub value: Double,
    pub min_rad: Double,
    pub max_rad: Double,
}

/// Whether an angle is out of a range.
pub open spec fn is_outside(value: Double, min_rad: Double, max_rad: Double) -> bool {
    value.below(min_rad) || max_rad.below(value)
}

/// The violations of the motors of one bus, up to a place.
pub open spec fn bus_violations(hw: HardwareConfig, q: JointVec, t: Double, i: int, k: nat) -> Seq<Violation>
    decreases k,
{
    if k == 0 {
        Seq::empty()
    } else {
        let before = bus_violations(hw, q, t, i, (k - 1) as nat);
        let motor = hw.legs.bus[i].motors[k - 1];
        match LegSlot::named(hw.legs.bus[i].leg@) {
            Some(leg) => {
                let value = q.legs.of(leg).at(k - 1);
                if is_outside(value, motor.min_rad, motor.max_rad) {
                    before.push(
                        Violation {
                            t,
                            bus: i as usize,
                            place: (k - 1) as usize,
                            value,
                            min_rad: motor.min_rad,
                            max_rad: motor.max_rad,
                        },
                    )
                } else {
                    before
                }
            },
            None => before,
        }
    }
}

/// The violations of the first `n` buses.
pub open spec fn violations(hw: HardwareConfig, q: JointVec, t: Double, n: nat) -> Seq<Violation>
    decreases n,
{
    if n == 0 {
        Seq::empty()
    } else {
        violations(hw, q, t, (n - 1) as nat) + bus_violations(
            hw,
            q,
            t,
            n - 1,
            hw.legs.bus[n - 1].motors.len() as nat,
        )
    }
}

proof fn lemma_nameless_bus(hw: HardwareConfig, q: JointVec, t: Double, i: int, k: nat)
    requires
        LegSlot::named(hw.legs.bus[i].leg@) is None,
    ensures
        bus_violations(hw, q, t, i, k) == Seq::<Violation>::empty(),
    decreases k,
{
    if k > 0 {
        lemma_nameless_bus(hw, q, t, i, (k - 1) as nat);
    }
}

/// Adds the commands that leave the range of their joints. The range is that of the
/// hardware's configuration, which is where commands are held to it.
pub fn check_limits(hw: &HardwareConfig, q: &JointVec, t: Double, out: &mut Vec<Violation>)
    requires
        forall|i: int| 0 <= i < hw.legs.bus.len() ==> (#[trigger] hw.legs.bus[i]).motors.len() <= 3,
    ensures
        final(out)@ == old(out)@ + violations(*hw, *q, t, hw.legs.bus.len() as nat),
{
    let ghost before = out@;
    let mut i: usize = 0;
    assert(before + Seq::<Violation>::empty() =~= before);
    while i < hw.legs.bus.len()
        invariant
            i <= hw.legs.bus.len(),
            forall|j: int|
                0 <= j < hw.legs.bus.len() ==> (#[trigger] hw.legs.bus[j]).motors.len() <= 3,
            out@ == before + violations(*hw, *q, t, i as nat),
        decreases hw.legs.bus.len() - i,
    {
        let bus = &hw.legs.bus[i];
        let ghost start = out@;
        let ghost count = bus.motors.len() as nat;
        match LegSlot::from_prefix(bus.leg.as_str()) {
            Some(leg) => {
                let angles = q.legs.get(leg);
                let mut k: usize = 0;
                assert(start + Seq::<Violation>::empty() =~= start);
                while k < bus.motors.len()
                    invariant
                        i < hw.legs.bus.len(),
                        *bus == hw.legs.bus[i as int],
                        k <= bus.motors.len() <= 3,
                        LegSlot::named(bus.leg@) == Some(leg),
                        angles == q.legs.of(leg),
                        out@ == start + bus_violations(*hw, *q, t, i as int, k as nat),
                    decreases bus.motors.len() - k,
                {
                    let motor = &bus.motors[k];
                    let value = angles.get(k);
                    if value.below(motor.min_rad) || motor.max_rad.below(value) {
                        out.push(
                            Violation {
                                t,
                                bus: i,
                                place: k,
                                value,
                                min_rad: motor.min_rad,
                                max_rad: motor.max_rad,
                            },
                        );
                    }
                    k = k + 1;
                    assert(out@ =~= start + bus_violations(*hw, *q, t, i as int, k as nat));
                }
            },
            None => {
                proof {
                    lemma_nameless_bus(*hw, *q, t, i as int, count);
                    assert(start + Seq::<Violation>::empty() =~= start);
                }
            },
        }
        proof {
            assert(before + violations(*hw, *q, t, i as nat) + bus_violations(
                *hw,
                *q,
                t,
                i as int,
                count,
            ) =~= before + violations(*hw, *q, t, (i + 1) as nat));
        }
        i = i + 1;
    }
}

/// Whether a violation is of the motor at a place of a bus.
pub open spec fn is_at(v: Violation, bus: int, place: int) -> bool {
    v.bus == bus && v.place == place
}

/// Whether the joint of a configured motor is out of its range, below or above.
pub open spec fn leaves_its_range(hw: HardwareConfig, q: JointVec, i: int, k: int) -> bool {
    &&& 0 <= i < hw.legs.bus.len()
    &&& 0 <= k < hw.legs.bus[i].motors.len()
    &&& LegSlot::named(hw.legs.bus[i].leg@) matches Some(leg) && {
        let value = q.legs.of(leg).at(k);
        let motor = hw.legs.bus[i].motors[k];
        &&& !value.nan()
        &&& (!motor.min_rad.nan() && value.value() < motor.min_rad.value()) || (!motor.max_rad.nan()
            && value.value() > motor.max_rad.value())
    }
}

/// What is reported is exactly the motors whose joint is less than its least or more
/// than its greatest angle: each with its own time, angle and range, and nothing else.
pub proof fn law_every_command_out_of_range_is_reported(hw: HardwareConfig, q: JointVec, t: Double)
    requires
        hw.legs.bus.len() <= usize::MAX,
        forall|i: int| 0 <= i < hw.legs.bus.len() ==> (#[trigger] hw.legs.bus[i]).motors.len() <= 3,
    ensures
        ({
            let out = violations(hw, q, t, hw.legs.bus.len() as nat);
            &&& forall|i: int, k: int| #[trigger]
                leaves_its_range(hw, q, i, k) ==> exists|n: int|
                    0 <= n < out.len() && #[trigger] is_at(out[n], i, k)
            &&& forall|n: int|
                0 <= n < out.len() ==> {
                    let v = #[trigger] out[n];
                    let motor = hw.legs.bus[v.bus as int].motors[v.place as int];
                    &&& leaves_its_range(hw, q, v.bus as int, v.place as int)
                    &&& v.t == t
                    &&& LegSlot::named(hw.legs.bus[v.bus as int].leg@) matches Some(leg) && v.value
                        == q.legs.of(leg).at(v.place as int)
                    &&& v.min_rad == motor.min_rad
                    &&& v.max_rad == motor.max_rad
                }
            &&& out.len() == 0 <==> forall|i: int, k: int| !#[trigger] leaves_its_range(hw, q, i, k)
        }),
{
    let n = hw.legs.bus.len() as nat;
    lemma_violations(hw, q, t, n);
    let out = violations(hw, q, t, n);
    if out.len() > 0 {
        let v = out[0];
        assert(leaves_its_range(hw, q, v.bus as int, v.place as int));
    }
}

/// Whether a violation is told as it is.
spec fn is_true_of(hw: HardwareConfig, q: JointVec, t: Double, v: Violation) -> bool {
    let motor = hw.legs.bus[v.bus as int].motors[v.place as int];
    &&& leaves_its_range(hw, q, v.bus as int, v.place as int)
    &&& v.t == t
    &&& LegSlot::named(hw.legs.bus[v.bus as int].leg@) matches Some(leg) && v.value == q.legs.of(
        leg,
    ).at(v.place as int)
    &&& v.min_rad == motor.min_rad
    &&& v.max_rad == motor.max_rad
}

proof fn lemma_bus_violations(hw: HardwareConfig, q: JointVec, t: Double, i: int, k: nat)
    requires
        0 <= i < hw.legs.bus.len() <= usize::MAX,
        k <= hw.legs.bus[i].motors.len() <= 3,
    ensures
        ({
            let out = bus_violations(hw, q, t, i, k);
            &&& forall|j: int|
                0 <= j < k && #[trigger] leaves_its_range(hw, q, i, j) ==> exists|n: int|
                    0 <= n < out.len() && #[trigger] is_at(out[n], i, j)
            &&& forall|n: int| 0 <= n < out.len() ==> is_true_of(hw, q, t, #[trigger] out[n])
        }),
    decreases k,
{
    if k > 0 {
        lemma_bus_violations(hw, q, t, i, (k - 1) as nat);
        let before = bus_violations(hw, q, t, i, (k - 1) as nat);
        let out = bus_violations(hw, q, t, i, k);
        assert forall|j: int| 0 <= j < k && #[trigger] leaves_its_range(hw, q, i, j) implies exists|
            n: int,
        |
            0 <= n < out.len() && #[trigger] is_at(out[n], i, j) by {
            if j < k - 1 {
                let n = choose|n: int| 0 <= n < before.len() && #[trigger] is_at(before[n], i, j);
                assert(out[n] == before[n]);
                assert(is_at(out[n], i, j));
            } else {
                assert(is_at(out[before.len() as int], i, j));
            }
        }
        assert forall|n: int| 0 <= n < out.len() implies is_true_of(hw, q, t, #[trigger] out[n]) by {
            if n < before.len() {
                assert(out[n] == before[n]);
            }
        }
    }
}

proof fn lemma_violations(hw: HardwareConfig, q: JointVec, t: Double, n: nat)
    requires
        n <= hw.legs.bus.len() <= usize::MAX,
        forall|i: int| 0 <= i < hw.legs.bus.len() ==> (#[trigger] hw.legs.bus[i]).motors.len() <= 3,
    ensures
        ({
            let out = violations(hw, q, t, n);
            &&& forall|i: int, k: int|
                i < n && #[trigger] leaves_its_range(hw, q, i, k) ==> exists|m: int|
                    0 <= m < out.len() && #[trigger] is_at(out[m], i, k)
            &&& forall|m: int| 0 <= m < out.len() ==> is_true_of(hw, q, t, #[trigger] out[m])
        }),
    decreases n,
{
    if n > 0 {
        lemma_violations(hw, q, t, (n - 1) as nat);
        let count = hw.legs.bus[n - 1].motors.len() as nat;
        lemma_bus_violations(hw, q, t, n - 1, count);
        let before = violations(hw, q, t, (n - 1) as nat);
        let own = bus_violations(hw, q, t, n - 1, count);
        let out = violations(hw, q, t, n);
        assert forall|i: int, k: int| i < n && #[trigger] leaves_its_range(hw, q, i, k) implies exists|
            m: int,
        |
            0 <= m < out.len() && #[trigger] is_at(out[m], i, k) by {
            if i < n - 1 {
                let m = choose|m: int| 0 <= m < before.len() && #[trigger] is_at(before[m], i, k);
                assert(out[m] == before[m]);
                assert(is_at(out[m], i, k));
            } else {
                let m = choose|m: int| 0 <= m < own.len() && #[trigger] is_at(own[m], i, k);
                assert(out[before.len() + m] == own[m]);
                assert(is_at(out[before.len() + m], i, k));
            }
        }
        assert forall|m: int| 0 <= m < out.len() implies is_true_of(hw, q, t, #[trigger] out[m]) by {
            if m < before.len() {
                assert(out[m] == before[m]);
            } else {
                assert(out[m] == own[m - before.len()]);
            }
        }
    }
}

/// A dumped gait walks as it was told, but only once the gait runs: until then the
/// robot rises without speed.
pub proof fn law_the_dump_walks_once_the_gait_runs(
    state: State,
    gait: GaitSelect,
    vx: Double,
    vy: Double,
    wz: Double,
    attitude: Attitude,
)
    ensures
        ({
            let cmd = dump_command(state, gait, vx, vy, wz, attitude);
            &&& cmd.mode is Walk
            &&& cmd.gait == gait
            &&& cmd.link_ok && !cmd.play_pose && !cmd.chicken_head
            &&& cmd.body_attitude_rad == attitude
            &&& cmd.arm_rad is None
            &&& cmd.height_offset_m.is_equal(double(0))
            &&& state is Active ==> cmd.vx_m_s == vx && cmd.vy_m_s == vy && cmd.wz_rad_s == wz
            &&& !(state is Active) ==> cmd.vx_m_s.is_equal(double(0)) && cmd.vy_m_s.is_equal(double(0))
                && cmd.wz_rad_s.is_equal(double(0))
        }),
{
}

/// In the lying pose every motor of a leg reads zero: the model's angle is the zero
/// pose of the motor that drives the joint.
pub proof fn law_the_lying_pose_is_the_motors_zero(hw: HardwareConfig, leg: LegSlot, i: int, k: int)
    requires
        hw.first_bus_of(leg, i),
        0 <= k < 3,
        k < hw.legs.bus[i].motors.len(),
    ensures
        lying(hw).legs.of(leg).at(k) == hw.legs.bus[i].motors[k].zero_pose_rad,
        lying(hw).arm == double(0),
{
    let j = choose|j: int| hw.first_bus_of(leg, j);
    crate::control::calib::lemma_one_first_bus(hw, leg, i, j);
}

} // verus!
