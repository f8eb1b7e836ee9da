//! The zero of every joint, from a pose that the robot is held in.
//!
//! Nothing is written to the motors: the difference between what they read and the
//! pose is recorded.
//!
//! ```text
//! q_model = sign * q_abs + zero_pose_rad
//!   so      zero_pose_rad = q_held - sign * q_abs
//! ```
use vstd::prelude::*;
use vstd::string::*;

use crate::control::calib::bus_index;
use crate::control::jointvec::JointVec;
use crate::control::pose::{list_text, overlaid, overlay, quoted_names, PoseLibrary};
use crate::double::{double, from_u64, lemma_exact_sum, lemma_unit_product, whole, Double};
use crate::hal::config::{is_sign, HardwareConfig, LegsConfig, MotorConfig};
use crate::hal::joint::{JointState, LegSlot, PerJoint, PerLeg, LEG_JOINT_KINDS};
use crate::hal::legs::{ordinary, JointMap};
use crate::measure::{
    bare, eps, lemma_sum_is_finite, lemma_sum_strays, lemma_unit, lemma_worth_negates, near,
    tiny, worth,
};
use crate::text::{debug_text, decimal, decimal_text, join_text, joined, quoted, views};

verus! {

/// 360, as bits.
pub const FULL_TURN: u64 = 0x4076_8000_0000_0000;

/// 100, as bits.
pub const HUNDRED: u64 = 0x4059_0000_0000_0000;

/// Whether a configuration differs from another in one motor only.
pub open spec fn motor_changed(old_hw: HardwareConfig, hw: HardwareConfig, i: int, k: int, motor: MotorConfig)
    -> bool {
    let before = old_hw.legs.bus[i];
    let after = hw.legs.bus[i];
    &&& hw == (HardwareConfig { legs: hw.legs, ..old_hw })
    &&& hw.legs == (LegsConfig { bus: hw.legs.bus, ..old_hw.legs })
    &&& hw.legs.bus@ == old_hw.legs.bus@.update(i, after)
    &&& after.leg == before.leg
    &&& after.port == before.port
    &&& after.motors@ == before.motors@.update(k, motor)
}

/// The pose to hold the robot in, or what is said of a pose that the model lacks.
pub fn held_pose(poses: &PoseLibrary, name: &str) -> (r: Result<JointVec, String>)
    ensures
        match (poses.find_pose(name@), r) {
            (Some(pose), _) => r == Ok::<JointVec, String>(
                overlaid(pose.angles@, JointVec::zero()),
            ),
            (None, Err(e)) => e@ == missing_pose_text(
                debug_text(name@),
                quoted_names(poses.poses_named()),
            ),
            (None, Ok(_)) => false,
        },
{
    match poses.pose(name) {
        Some(pose) => Ok(overlay(&pose.angles, JointVec::zeros())),
        None => {
            let names = poses.pose_names();
            let mut quoted_list: Vec<String> = Vec::new();
            for i in 0..names.len()
                invariant
                    quoted_list.len() == i,
                    views(names@) == poses.poses_named(),
                    forall|j: int|
                        0 <= j < i ==> (#[trigger] quoted_list[j])@ == debug_text(names[j]@),
            {
                quoted_list.push(quoted(names[i].as_str()));
            }
            assert(views(quoted_list@) =~= quoted_names(views(names@)));
            Err(missing_pose(quoted(name).as_str(), &quoted_list))
        },
    }
}

/// What is said of a pose that the model lacks; the names come in quotes.
pub open spec fn missing_pose_text(name: Seq<char>, names: Seq<Seq<char>>) -> Seq<char> {
    "姿勢 "@ + name + " がモデルにありません（"@ + list_text(names) + "）"@
}

/// The error of a pose that the model lacks; the names come in quotes.
pub fn missing_pose(name: &str, names: &Vec<String>) -> (r: String)
    ensures
        r@ == missing_pose_text(name@, views(names@)),
{
    let list = "[".to_owned().concat(join_text(names, ", ").as_str()).concat("]");
    "姿勢 ".to_owned().concat(name).concat(" がモデルにありません（").concat(list.as_str()).concat("）")
}

/// The zero of a joint that is held at `held` and, with the zero `old_zero`, reads
/// `position`.
pub open spec fn new_zero(held: Double, position: Double, old_zero: Double) -> Double {
    held.minus(position.minus(old_zero))
}

/// With its new zero, a joint that has not moved reads the angle that it was held
/// at, wherever its reading and the new zero were not rounded.
pub proof fn law_a_held_joint_reads_its_pose(map: JointMap, motor: Double, held: Double)
    requires
        is_sign(map.sign),
        motor.finite(),
        map.zero_pose_rad.finite(),
        held.finite(),
        map.model_angle(motor).finite(),
        new_zero(held, map.model_angle(motor), map.zero_pose_rad).finite(),
        map.model_angle(motor).value() == map.model_rate(motor).value() + map.zero_pose_rad.value(),
        new_zero(held, map.model_angle(motor), map.zero_pose_rad).value() == held.value()
            - map.model_rate(motor).value(),
    ensures
        (JointMap {
            zero_pose_rad: new_zero(held, map.model_angle(motor), map.zero_pose_rad),
            ..map
        }).model_angle(motor).is_equal(held),
{
    let new = new_zero(held, map.model_angle(motor), map.zero_pose_rad);
    lemma_unit_product(map.sign, motor);
    lemma_exact_sum(map.model_rate(motor), new, held);
}

/// With its new zero, a joint that has not moved reads the angle that it was held at,
/// within a trillionth.
pub proof fn law_a_held_joint_reads_near_its_pose(map: JointMap, motor: Double, held: Double)
    requires
        is_sign(map.sign),
        ordinary(motor),
        ordinary(map.zero_pose_rad),
        ordinary(held),
    ensures
        near(
            (JointMap {
                zero_pose_rad: new_zero(held, map.model_angle(motor), map.zero_pose_rad),
                ..map
            }).model_angle(motor),
            held,
            1real / 1000000000000real,
        ),
{
    let zero = map.zero_pose_rad;
    let rate = map.model_rate(motor);
    let read = map.model_angle(motor);
    let turned = read.minus(zero);
    let new = new_zero(held, read, zero);
    lemma_unit_product(map.sign, motor);
    lemma_worth_negates(motor);
    lemma_sum_within(rate, zero, 2048real);
    lemma_difference_within(read, zero, 1025real);
    lemma_difference_within(held, turned, 2050real);
    lemma_sum_within(rate, new, 1028real);
    let back = (JointMap { zero_pose_rad: new, ..map }).model_angle(motor);
    let e = eps();
    lemma_unit();
    assert(6151real * e + 4real * tiny() < 1real / 1000000000000real) by (nonlinear_arith)
        requires
            tiny() <= e * e,
            e == 1real / 9007199254740992real,
    ;
}

/// How far a rounded sum strays that is no larger than `most`.
proof fn lemma_sum_within(a: Double, b: Double, most: real)
    requires
        a.finite(),
        b.finite(),
        bare(worth(a) + worth(b)) <= most <= 4096real,
    ensures
        a.plus(b).finite(),
        bare(worth(a.plus(b)) - (worth(a) + worth(b))) <= most * eps() + tiny(),
        most * eps() + tiny() <= 1real / 1000real,
{
    lemma_unit();
    lemma_sum_is_finite(a, b);
    lemma_sum_strays(a, b);
    let size = bare(worth(a) + worth(b));
    let e = eps();
    assert(size * e <= most * e) by (nonlinear_arith)
        requires
            size <= most,
            e == 1real / 9007199254740992real,
    ;
    assert(most * e + tiny() <= 1real / 1000real) by (nonlinear_arith)
        requires
            most <= 4096real,
            tiny() <= e * e,
            e == 1real / 9007199254740992real,
    ;
}

/// How far a rounded difference strays that is no larger than `most`.
proof fn lemma_difference_within(a: Double, b: Double, most: real)
    requires
        a.finite(),
        b.finite(),
        bare(worth(a) - worth(b)) <= most <= 4096real,
    ensures
        a.minus(b).finite(),
        bare(worth(a.minus(b)) - (worth(a) - worth(b))) <= most * eps() + tiny(),
        most * eps() + tiny() <= 1real / 1000real,
{
    lemma_worth_negates(b);
    lemma_sum_within(a, b.neg(), most);
}

/// Whether the bus at a place has the zeros of its leg, of the first `n` joints.
pub open spec fn bus_zeroed(
    old_hw: HardwareConfig,
    hw: HardwareConfig,
    i: int,
    held: PerJoint<Double>,
    states: PerJoint<JointState>,
    n: int,
) -> bool {
    let before = old_hw.legs.bus[i];
    let after = hw.legs.bus[i];
    &&& after.leg == before.leg
    &&& after.port == before.port
    &&& after.motors.len() == before.motors.len()
    &&& forall|k: int|
        0 <= k < after.motors.len() ==> #[trigger] after.motors[k] == (MotorConfig {
            zero_pose_rad: if k < n {
                new_zero(
                    held.at(k),
                    states.at(k).position_rad,
                    before.motors[k].zero_pose_rad,
                )
            } else {
                before.motors[k].zero_pose_rad
            },
            ..before.motors[k]
        })
}

/// Whether all buses but those of legs still to come are zeroed: the first `done`
/// legs are, the others are as before.
pub open spec fn zeroed(
    old_hw: HardwareConfig,
    hw: HardwareConfig,
    held: JointVec,
    states: PerLeg<PerJoint<JointState>>,
    done: nat,
) -> bool {
    &&& hw == (HardwareConfig { legs: hw.legs, ..old_hw })
    &&& hw.legs == (LegsConfig { bus: hw.legs.bus, ..old_hw.legs })
    &&& hw.legs.bus.len() == old_hw.legs.bus.len()
    &&& forall|i: int|
        0 <= i < hw.legs.bus.len() ==> {
            let leg = LegSlot::named((#[trigger] hw.legs.bus[i]).leg@);
            if leg is Some && leg->Some_0.place() < done {
                bus_zeroed(
                    old_hw,
                    hw,
                    i,
                    held.legs.of(leg->Some_0),
                    states.of(leg->Some_0),
                    3,
                )
            } else {
                hw.legs.bus[i] == old_hw.legs.bus[i]
            }
        }
}

/// Whether a joint is the first, in leg order, whose state is old.
pub open spec fn first_silent(states: PerLeg<PerJoint<JointState>>, leg: LegSlot, k: int) -> bool {
    &&& 0 <= k < 3
    &&& !states.of(leg).at(k).ok
    &&& forall|l: LegSlot, j: int|
        0 <= j < 3 && (l.place() < leg.place() || (l == leg && j < k)) ==> (
        #[trigger] states.of(l).at(j)).ok
}

/// The configuration with the zeros of a robot that is held in a pose and reads the
/// given states. A joint that cannot be read stops it.
pub fn zero_offsets(hw: HardwareConfig, held: &JointVec, states: &PerLeg<PerJoint<JointState>>) -> (r:
    Result<HardwareConfig, String>)
    requires
        hw.complaint() is None,
    ensures
        match r {
            Ok(out) => zeroed(hw, out, *held, *states, 4) && forall|leg: LegSlot, k: int|
                0 <= k < 3 ==> (#[trigger] states.of(leg).at(k)).ok,
            Err(e) => exists|leg: LegSlot, k: int| #[trigger]
                first_silent(*states, leg, k) && e@ == leg.name() + " 軸"@ + decimal(k as nat)
                    + " の状態が読めません（モータ電源とバスを確認してください）"@,
        },
{
    let ghost before = hw;
    proof {
        crate::hal::config::law_a_valid_configuration_is_wired_once(hw);
    }
    let mut hw = hw;
    for n in 0usize..4
        invariant
            before.complaint() is None,
            before.legs.bus.len() == 4,
            forall|leg: LegSlot| before.has_leg(leg),
            forall|i: int, j: int|
                0 <= i < j < 4 ==> LegSlot::named((#[trigger] before.legs.bus[i]).leg@)
                    != LegSlot::named((#[trigger] before.legs.bus[j]).leg@),
            forall|i: int, k: int|
                0 <= i < 4 && 0 <= k < 3 ==> (#[trigger] before.legs.bus[i].motors[k]).id != 0
                    && before.legs.bus[i].motors.len() == 3,
            zeroed(before, hw, *held, *states, n as nat),
            forall|l: LegSlot, j: int|
                0 <= j < 3 && l.place() < n ==> (#[trigger] states.of(l).at(j)).ok,
    {
        let leg = LegSlot::from_index(n);
        let ghost start = hw;
        proof {
            lemma_legs_stay(before, hw, *held, *states, n as nat);
        }
        let i: usize = match bus_index(&hw, leg) {
            Ok(i) => i,
            Err(e) => {
                proof {
                    let j = choose|j: int|
                        0 <= j < before.legs.bus.len() && LegSlot::named(
                            (#[trigger] before.legs.bus[j]).leg@,
                        ) == Some(leg);
                    assert(before.has_leg(leg));
                    assert(LegSlot::named(hw.legs.bus[j].leg@) == Some(leg));
                }
                return Err(e);
            },
        };
        let leg_states = states.get(leg);
        let angles = held.legs.get(leg);
        assert(hw.legs.bus[i as int] == before.legs.bus[i as int]);
        assert(before.legs.bus[i as int].motors[0].id != 0);
        for k in 0usize..3
            invariant
                n < 4,
                leg == LegSlot::at(n as nat),
                leg_states == states.of(leg),
                angles == held.legs.of(leg),
                i < 4,
                before.legs.bus.len() == 4,
                start.legs.bus.len() == 4,
                hw.legs.bus.len() == 4,
                before.legs.bus[i as int].motors.len() == 3,
                start.legs.bus[i as int] == before.legs.bus[i as int],
                hw == (HardwareConfig { legs: hw.legs, ..start }),
                hw.legs == (LegsConfig { bus: hw.legs.bus, ..start.legs }),
                hw.legs.bus@ == start.legs.bus@.update(i as int, hw.legs.bus[i as int]),
                bus_zeroed(before, hw, i as int, angles, leg_states, k as int),
                forall|l: LegSlot, j: int|
                    0 <= j < 3 && l.place() < n ==> (#[trigger] states.of(l).at(j)).ok,
                forall|j: int| 0 <= j < k ==> (#[trigger] states.of(leg).at(j)).ok,
        {
            let state = leg_states.get(k);
            if !state.ok {
                proof {
                    assert forall|l: LegSlot, j: int|
                        0 <= j < 3 && (l.place() < leg.place() || (l == leg && j < k)) implies (
                    #[trigger] states.of(l).at(j)).ok by {
                        crate::hal::joint::law_places_round_trip(l, 0);
                    }
                    assert(first_silent(*states, leg, k as int));
                }
                return Err(
                    leg.prefix().to_owned().concat(" 軸").concat(
                        decimal_text(k as u64).as_str(),
                    ).concat(" の状態が読めません（モータ電源とバスを確認してください）"),
                );
            }
            let old_zero = hw.legs.bus[i].motors[k].zero_pose_rad;
            let zero = angles.get(k).minus(state.position_rad.minus(old_zero));
            hw.legs.bus[i].motors[k].zero_pose_rad = zero;
        }
        proof {
            assert(zeroed(before, hw, *held, *states, (n + 1) as nat)) by {
                assert forall|j: int| 0 <= j < hw.legs.bus.len() implies {
                    let l = LegSlot::named((#[trigger] hw.legs.bus[j]).leg@);
                    if l is Some && l->Some_0.place() < n + 1 {
                        bus_zeroed(
                            before,
                            hw,
                            j,
                            held.legs.of(l->Some_0),
                            states.of(l->Some_0),
                            3,
                        )
                    } else {
                        hw.legs.bus[j] == before.legs.bus[j]
                    }
                } by {
                    if j == i {
                        assert(LegSlot::named(before.legs.bus[j].leg@) == Some(leg));
                    } else {
                        assert(hw.legs.bus[j] == start.legs.bus[j]);
                        let l = LegSlot::named(start.legs.bus[j].leg@);
                        assert(LegSlot::named(before.legs.bus[j].leg@) == l);
                        if j < i {
                            assert(LegSlot::named(before.legs.bus[j].leg@) != LegSlot::named(
                                before.legs.bus[i as int].leg@,
                            ));
                        } else {
                            assert(LegSlot::named(before.legs.bus[i as int].leg@) != LegSlot::named(
                                before.legs.bus[j].leg@,
                            ));
                        }
                        if l is Some {
                            crate::hal::joint::law_places_round_trip(l->Some_0, 0);
                            assert(l->Some_0.place() != n);
                        }
                    }
                }
            }
            assert forall|l: LegSlot, j: int| 0 <= j < 3 && l.place() < n + 1 implies (
            #[trigger] states.of(l).at(j)).ok by {
                crate::hal::joint::law_places_round_trip(l, 0);
                if l.place() == n {
                    assert(l == leg);
                }
            }
        }
    }
    proof {
        assert forall|leg: LegSlot, k: int| 0 <= k < 3 implies (#[trigger] states.of(leg).at(k)).ok by {
            crate::hal::joint::law_places_round_trip(leg, 0);
        }
    }
    Ok(hw)
}

/// Zeroing leaves every bus with its leg.
proof fn lemma_legs_stay(
    before: HardwareConfig,
    hw: HardwareConfig,
    held: JointVec,
    states: PerLeg<PerJoint<JointState>>,
    n: nat,
)
    requires
        zeroed(before, hw, held, states, n),
    ensures
        forall|i: int|
            0 <= i < hw.legs.bus.len() ==> (#[trigger] hw.legs.bus[i]).leg@
                == before.legs.bus[i].leg@,
{
    assert forall|i: int| 0 <= i < hw.legs.bus.len() implies (#[trigger] hw.legs.bus[i]).leg@
        == before.legs.bus[i].leg@ by {
        let leg = LegSlot::named(hw.legs.bus[i].leg@);
    }
}

/// What a single-turn reading means.
#[derive(Debug, Clone, Copy)]
pub struct SingleTurn {
    /// The motor's angle (degrees) and the joint's within one turn; `None` if it
    /// could not be read.
    pub angles: Option<(Double, Double)>,
    /// How far the joint goes in one turn of the motor (degrees).
    pub wrap_deg: Double,
}

/// What a reading of hundredths of a degree means at a gear ratio.
pub fn single_turn(raw: Option<u32>, gear: Double) -> (r: SingleTurn)
    ensures
        r == (SingleTurn {
            angles: match raw {
                Some(c) => Some(
                    (
                        whole(c as nat).over(double(HUNDRED)),
                        whole(c as nat).over(double(HUNDRED)).over(gear),
                    ),
                ),
                None => None,
            },
            wrap_deg: double(FULL_TURN).over(gear),
        }),
{
    let angles = match raw {
        Some(c) => {
            let motor = from_u64(c as u64).over(double(HUNDRED));
            Some((motor, motor.over(gear)))
        },
        None => None,
    };
    SingleTurn { angles, wrap_deg: double(FULL_TURN).over(gear) }
}

/// The gear ratio of a joint; that of the buses where none is configured.
pub open spec fn gear_of(hw: HardwareConfig, leg: LegSlot, k: int) -> Double {
    if exists|i: int| hw.first_bus_of(leg, i) {
        let bus = hw.legs.bus[choose|i: int| hw.first_bus_of(leg, i)];
        if 0 <= k < bus.motors.len() {
            match bus.motors[k].gear_ratio {
                Some(ratio) => ratio,
                None => hw.legs.gear_ratio,
            }
        } else {
            hw.legs.gear_ratio
        }
    } else {
        hw.legs.gear_ratio
    }
}

pub fn joint_gear(hw: &HardwareConfig, leg: LegSlot, k: usize) -> (r: Double)
    ensures
        r == gear_of(*hw, leg, k as int),
{
    match bus_index(hw, leg) {
        Ok(i) => {
            proof {
                let j = choose|j: int| hw.first_bus_of(leg, j);
                crate::control::calib::lemma_one_first_bus(*hw, leg, i as int, j);
            }
            if k < hw.legs.bus[i].motors.len() {
                hw.legs.bus[i].motors[k].gear_ratio_or(hw.legs.gear_ratio)
            } else {
                hw.legs.gear_ratio
            }
        },
        Err(_) => {
            assert forall|i: int| !hw.first_bus_of(leg, i) by {
                if hw.first_bus_of(leg, i) {
                    assert(LegSlot::named(hw.legs.bus[i].leg@) == Some(leg));
                }
            }
            hw.legs.gear_ratio
        },
    }
}

/// The joints of a leg that could not be read, by name, from a place on.
pub open spec fn unread_from(leg: LegSlot, raw: PerJoint<Option<u32>>, k: int) -> Seq<Seq<char>>
    decreases 3 - k,
{
    if k >= 3 {
        Seq::empty()
    } else if raw.at(k) is None {
        seq![leg.name() + " "@ + LEG_JOINT_KINDS[k]@] + unread_from(leg, raw, k + 1)
    } else {
        unread_from(leg, raw, k + 1)
    }
}

/// Adds the names of the joints of a leg that could not be read.
pub fn collect_unread(missing: &mut Vec<String>, leg: LegSlot, raw: &PerJoint<Option<u32>>)
    ensures
        views(final(missing)@) == views(old(missing)@) + unread_from(leg, *raw, 0),
{
    let ghost before = views(missing@);
    for k in 0usize..3
        invariant
            before + unread_from(leg, *raw, 0) == views(missing@) + unread_from(leg, *raw, k as int),
    {
        let ghost now = missing@;
        if raw.get(k).is_none() {
            missing.push(leg.prefix().to_owned().concat(" ").concat(LEG_JOINT_KINDS[k]));
            proof {
                assert(views(missing@) =~= views(now).push(leg.name() + " "@ + LEG_JOINT_KINDS[k as int]@));
                assert(views(now) + unread_from(leg, *raw, k as int) =~= views(missing@) + unread_from(
                    leg,
                    *raw,
                    k + 1,
                ));
            }
        }
    }
    assert(views(missing@) + Seq::<Seq<char>>::empty() =~= views(missing@));
}

/// What is said at the end of a single-turn reading.
pub open spec fn single_turn_verdict_text(missing: Seq<Seq<char>>) -> Seq<Seq<char>> {
    if missing.len() == 0 {
        seq![
            "**raw を控えておくこと。** 電源 OFF/ON をまたいで一致すれば、"@,
            "ここを基準にした電源非依存のゼロ点が作れる。"@,
        ]
    } else {
        seq!["**読めなかった軸がある: "@ + joined(missing, ", "@) + "**"@, "直近エラー:"@]
    }
}

pub fn single_turn_verdict(missing: &Vec<String>) -> (r: Vec<String>)
    ensures
        views(r@) == single_turn_verdict_text(views(missing@)),
{
    let r = if missing.len() == 0 {
        vec![
            "**raw を控えておくこと。** 電源 OFF/ON をまたいで一致すれば、".to_owned(),
            "ここを基準にした電源非依存のゼロ点が作れる。".to_owned(),
        ]
    } else {
        vec![
            "**読めなかった軸がある: ".to_owned().concat(join_text(missing, ", ").as_str()).concat(
                "**",
            ),
            "直近エラー:".to_owned(),
        ]
    };
    assert(views(r@) =~= single_turn_verdict_text(views(missing@)));
    r
}

} // verus!
