//! Between the gait and the robot's joints: which gait is built, and what its
//! output means for the model.
use vstd::prelude::*;
use vstd::string::*;

use crate::control::config::GaitTuning;
use crate::control::jointvec::JointVec;
use crate::control::pose::{overlaid, overlay, PoseLibrary};
use crate::control::teleop::GaitSelect;
use crate::double::{double, Double};
use crate::hal::joint::{joint_named, lookup, LegSlot, PerJoint, PerLeg};
use crate::text::same_text;

verus! {

/// The footfall pattern of a gait.
#[derive(Debug, Clone, Copy, PartialEq, Eq, Structural)]
pub enum GaitType {
    Crawl,
    Walk,
    Trot,
}

/// The planner that runs a gait.
#[derive(Debug, Clone, Copy, PartialEq, Eq, Structural)]
pub enum GaitMode {
    Champ,
    LinearCrawl,
}

/// What a gait controller is built with. The knees all point backward.
#[derive(Debug, Clone, Copy, PartialEq, Eq, Structural)]
pub struct GaitPlan {
    pub gait: GaitType,
    pub mode: GaitMode,
    pub swing_height_m: Double,
    /// The cycle (s); without one, the gait's own.
    pub cycle_s: Option<Double>,
    pub stance_height_m: Double,
    /// Where the feet stand below the body (m). Most planners take the standing
    /// height from here alone.
    pub foot_z_m: Double,
}

/// A speed for the gait.
#[derive(Debug, Clone, Copy, PartialEq, Eq, Structural)]
pub struct VelocityCmd {
    pub vx: Double,
    pub vy: Double,
    pub wz: Double,
}

impl VelocityCmd {
    pub open spec fn still() -> VelocityCmd {
        VelocityCmd { vx: double(0), vy: double(0), wz: double(0) }
    }
}

/// The pattern of a chosen gait.
pub open spec fn pattern_of(select: GaitSelect) -> GaitType {
    match select {
        GaitSelect::Crawl => GaitType::Crawl,
        GaitSelect::Walk => GaitType::Walk,
        GaitSelect::Trot => GaitType::Trot,
    }
}

/// The planner of a chosen gait. The straight-line planner takes neither sideways
/// nor turning commands, so it runs only the crawl, and only where asked for.
pub open spec fn planner_of(select: GaitSelect, crawl_use_linear: bool) -> GaitMode {
    if select is Crawl && crawl_use_linear { GaitMode::LinearCrawl } else { GaitMode::Champ }
}

/// The configured cycle of a chosen gait.
pub open spec fn cycle_of(tuning: GaitTuning, select: GaitSelect) -> Option<Double> {
    match select {
        GaitSelect::Crawl => tuning.crawl_cycle_s,
        GaitSelect::Walk => tuning.walk_cycle_s,
        GaitSelect::Trot => tuning.trot_cycle_s,
    }
}

pub fn gait_type_of(select: GaitSelect) -> (r: GaitType)
    ensures
        r == pattern_of(select),
{
    match select {
        GaitSelect::Crawl => GaitType::Crawl,
        GaitSelect::Walk => GaitType::Walk,
        GaitSelect::Trot => GaitType::Trot,
    }
}

pub fn gait_mode_of(select: GaitSelect, crawl_use_linear: bool) -> (r: GaitMode)
    ensures
        r == planner_of(select, crawl_use_linear),
{
    match select {
        GaitSelect::Crawl => if crawl_use_linear { GaitMode::LinearCrawl } else { GaitMode::Champ },
        _ => GaitMode::Champ,
    }
}

/// Whether the planner takes a change of the body's height while it runs. The
/// others drop it without a word.
pub fn gait_supports_body_height(mode: GaitMode) -> (r: bool)
    ensures
        r == (mode is LinearCrawl),
{
    match mode {
        GaitMode::LinearCrawl => true,
        GaitMode::Champ => false,
    }
}

pub fn cycle_period_of(tuning: &GaitTuning, select: GaitSelect) -> (r: Option<Double>)
    ensures
        r == cycle_of(*tuning, select),
{
    match select {
        GaitSelect::Crawl => tuning.crawl_cycle_s,
        GaitSelect::Walk => tuning.walk_cycle_s,
        GaitSelect::Trot => tuning.trot_cycle_s,
    }
}

pub fn velocity_cmd(vx: Double, vy: Double, wz: Double) -> (r: VelocityCmd)
    ensures
        r == (VelocityCmd { vx, vy, wz }),
{
    VelocityCmd { vx, vy, wz }
}

/// What the controller of a chosen gait is built with.
pub fn build_gait(tuning: &GaitTuning, select: GaitSelect) -> (r: GaitPlan)
    ensures
        r == (GaitPlan {
            gait: pattern_of(select),
            mode: planner_of(select, tuning.crawl_use_linear),
            swing_height_m: tuning.swing_height_m,
            cycle_s: cycle_of(*tuning, select),
            stance_height_m: tuning.stance_height_m,
            foot_z_m: tuning.stance_height_m.neg(),
        }),
{
    GaitPlan {
        gait: gait_type_of(select),
        mode: gait_mode_of(select, tuning.crawl_use_linear),
        swing_height_m: tuning.swing_height_m,
        cycle_s: cycle_period_of(tuning, select),
        stance_height_m: tuning.stance_height_m,
        foot_z_m: tuning.stance_height_m.neg(),
    }
}

/// A gait's output laid over the angles: each joint's angle with its sign.
pub open spec fn signed_over(
    targets: Seq<(String, Double)>,
    signs: PerLeg<PerJoint<Double>>,
    q: JointVec,
) -> JointVec
    decreases targets.len(),
{
    if targets.len() == 0 {
        q
    } else {
        let before = signed_over(targets.drop_last(), signs, q);
        let (name, angle) = targets.last();
        match joint_named(name@) {
            Some((leg, k)) => JointVec {
                legs: before.legs.with(
                    leg,
                    before.legs.of(leg).with(k as int, angle.times(signs.of(leg).at(k as int))),
                ),
                ..before
            },
            None => before,
        }
    }
}

/// A gait's output in the model's frame. The gait does not know the arm, whose
/// angle is passed through.
pub open spec fn model_joints(
    targets: Seq<(String, Double)>,
    signs: PerLeg<PerJoint<Double>>,
    arm: Double,
) -> JointVec {
    signed_over(targets, signs, JointVec { arm, ..JointVec::zero() })
}

/// A gait's output, by joint name and in the gait's signs, as joint angles of the
/// model. Unknown joints are passed over.
pub fn output_to_joints(
    targets: &Vec<(String, Double)>,
    signs: &PerLeg<PerJoint<Double>>,
    arm: Double,
) -> (r: JointVec)
    ensures
        r == model_joints(targets@, *signs, arm),
        r.arm == arm,
{
    let mut q = JointVec::zeros();
    q.arm = arm;
    let ghost start = q;
    let mut i: usize = 0;
    while i < targets.len()
        invariant
            i <= targets.len(),
            start == (JointVec { arm, ..JointVec::zero() }),
            q == signed_over(targets@.take(i as int), *signs, start),
            q.arm == arm,
        decreases targets.len() - i,
    {
        if let Some((leg, k)) = lookup(targets[i].0.as_str()) {
            proof {
                crate::control::jointvec::lemma_place_is_small(targets[i as int].0@);
            }
            let mut joints = q.legs.get(leg);
            joints.set(k, targets[i].1.times(signs.get(leg).get(k)));
            q.legs.set(leg, joints);
        }
        proof {
            let done = targets@.take(i + 1);
            assert(done.drop_last() =~= targets@.take(i as int));
            assert(done.last() == targets@[i as int]);
        }
        i = i + 1;
    }
    assert(targets@.take(targets.len() as int) =~= targets@);
    q
}

/// The posture by which the kinematics are found: the named pose, or, if the model
/// lacks it, the home pose. A model with other names should still start.
pub fn resolve_kinematics_posture(poses: &PoseLibrary, name: &str) -> (r: JointVec)
    ensures
        r == (match poses.find_pose(name@) {
            Some(pose) => overlaid(pose.angles@, JointVec::zero()),
            None => poses.home,
        }),
{
    match poses.pose(name) {
        Some(pose) => overlay(&pose.angles, JointVec::zeros()),
        None => poses.home(),
    }
}

/// Whether the joint at a place is the first of the given name.
pub open spec fn first_joint(joints: Seq<(String, usize)>, name: Seq<char>, i: int) -> bool {
    &&& 0 <= i < joints.len()
    &&& joints[i].0@ == name
    &&& forall|j: int| 0 <= j < i ==> (#[trigger] joints[j]).0@ != name
}

/// Where a model keeps the angle of the given joint.
pub open spec fn slot_of(joints: Seq<(String, usize)>, name: Seq<char>) -> Option<usize> {
    if exists|i: int| first_joint(joints, name, i) {
        Some(joints[choose|i: int| first_joint(joints, name, i)].1)
    } else {
        None
    }
}

/// A model's angles with one joint's written; a joint that the model lacks changes
/// nothing.
pub open spec fn written(q: Seq<Double>, joints: Seq<(String, usize)>, name: Seq<char>, value: Double)
    -> Seq<Double> {
    match slot_of(joints, name) {
        Some(at) => q.update(at as int, value),
        None => q,
    }
}

/// The names of the first `n` joints of a posture.
pub open spec fn name_at(i: int) -> Seq<char> {
    if i < 12 {
        crate::hal::joint::JOINT_NAMES[i / 3][i % 3]@
    } else {
        crate::hal::joint::ARM_JOINT_NAME@
    }
}

/// A model's angles with the first `n` joints of a posture written.
pub open spec fn spread(q: Seq<Double>, joints: Seq<(String, usize)>, angles: Seq<Double>, n: nat) -> Seq<
    Double,
>
    decreases n,
{
    if n == 0 {
        q
    } else {
        written(spread(q, joints, angles, (n - 1) as nat), joints, name_at(n - 1), angles[n - 1])
    }
}

/// A posture as the model's own vector. `neutral` is the model's neutral vector,
/// and `joints` says by name where in it an angle is kept.
pub fn build_q(neutral: Vec<Double>, joints: &Vec<(String, usize)>, posture: &JointVec) -> (r: Vec<
    Double,
>)
    requires
        forall|i: int| 0 <= i < joints.len() ==> (#[trigger] joints[i]).1 < neutral.len(),
    ensures
        r@ == spread(neutral@, joints@, posture.flat(), 13),
        r.len() == neutral.len(),
{
    let named = posture.iter_named();
    let ghost start = neutral@;
    let mut q = neutral;
    for n in 0usize..13
        invariant
            named.len() == 13,
            forall|i: int| 0 <= i < 13 ==> (#[trigger] named[i]).1 == posture.flat()[i],
            forall|i: int| 0 <= i < 13 ==> (#[trigger] named[i]).0@ == name_at(i),
            q@ == spread(start, joints@, posture.flat(), n as nat),
            q.len() == start.len(),
            forall|i: int| 0 <= i < joints.len() ==> (#[trigger] joints[i]).1 < start.len(),
    {
        set_joint(&mut q, joints, named[n].0, named[n].1);
    }
    q
}

fn set_joint(q: &mut Vec<Double>, joints: &Vec<(String, usize)>, name: &str, value: Double)
    requires
        forall|i: int| 0 <= i < joints.len() ==> (#[trigger] joints[i]).1 < old(q).len(),
    ensures
        final(q)@ == written(old(q)@, joints@, name@, value),
        final(q).len() == old(q).len(),
{
    let mut i: usize = 0;
    while i < joints.len()
        invariant
            i <= joints.len(),
            q@ == old(q)@,
            forall|j: int| 0 <= j < joints.len() ==> (#[trigger] joints[j]).1 < old(q).len(),
            forall|j: int| 0 <= j < i ==> (#[trigger] joints[j]).0@ != name@,
        decreases joints.len() - i,
    {
        if same_text(joints[i].0.as_str(), name) {
            proof {
                assert(first_joint(joints@, name@, i as int));
                let k = choose|k: int| first_joint(joints@, name@, k);
                if k < i {
                    assert(joints[k].0@ != name@);
                }
                if k > i {
                    assert(joints@[i as int].0@ != name@);
                }
            }
            let at: usize = joints[i].1;
            q.set(at, value);
            return;
        }
        i = i + 1;
    }
}

/// The arm's angle is passed through a gait's output, which leaves no trace of it in
/// the legs.
pub proof fn law_the_gait_does_not_know_the_arm(
    targets: Seq<(String, Double)>,
    signs: PerLeg<PerJoint<Double>>,
    arm: Double,
    other: Double,
)
    ensures
        model_joints(targets, signs, arm).arm == arm,
        model_joints(targets, signs, arm).legs == model_joints(targets, signs, other).legs,
    decreases targets.len(),
{
    if targets.len() > 0 {
        law_the_gait_does_not_know_the_arm(targets.drop_last(), signs, arm, other);
    }
}

/// Each joint that a gait's output names last at a place gets the angle told there in
/// its own sign, and a joint that it does not name is at zero.
pub proof fn law_each_joint_is_told_by_its_name(
    targets: Seq<(String, Double)>,
    signs: PerLeg<PerJoint<Double>>,
    arm: Double,
    leg: LegSlot,
    k: usize,
)
    requires
        k < 3,
    ensures
        ({
            let q = model_joints(targets, signs, arm).legs.of(leg).at(k as int);
            &&& forall|i: int|
                0 <= i < targets.len() && joint_named((#[trigger] targets[i]).0@) == Some((leg, k))
                    && (forall|j: int|
                    i < j < targets.len() ==> joint_named((#[trigger] targets[j]).0@) != Some((leg, k)))
                    ==> q == targets[i].1.times(signs.of(leg).at(k as int))
            &&& (forall|i: int|
                0 <= i < targets.len() ==> joint_named((#[trigger] targets[i]).0@) != Some((leg, k)))
                ==> q == double(0)
        }),
    decreases targets.len(),
{
    if targets.len() > 0 {
        let front = targets.drop_last();
        law_each_joint_is_told_by_its_name(front, signs, arm, leg, k);
        let last = targets.len() - 1;
        crate::control::jointvec::lemma_place_is_small(targets[last].0@);
        assert forall|i: int| 0 <= i < last implies front[i] == targets[i] by {}
    }
}

/// A posture is written into the model's vector joint by joint: each joint at the place
/// that the model keeps it, whatever the order of the model; a place that no joint of the
/// robot has stays neutral.
pub proof fn law_a_posture_is_written_by_name(
    q: Seq<Double>,
    joints: Seq<(String, usize)>,
    angles: Seq<Double>,
    n: nat,
)
    requires
        n <= angles.len(),
        forall|i: int, j: int|
            0 <= i < n && 0 <= j < n && i != j && slot_of(joints, #[trigger] name_at(i)) is Some
                && slot_of(joints, #[trigger] name_at(j)) is Some ==> slot_of(joints, name_at(i))
                != slot_of(joints, name_at(j)),
        forall|i: int| 0 <= i < joints.len() ==> (#[trigger] joints[i]).1 < q.len(),
    ensures
        spread(q, joints, angles, n).len() == q.len(),
        forall|i: int|
            0 <= i < n ==> (slot_of(joints, #[trigger] name_at(i)) matches Some(at) ==> at < q.len()
                && spread(q, joints, angles, n)[at as int] == angles[i]),
        forall|at: int|
            0 <= at < q.len() && (forall|i: int|
                0 <= i < n ==> slot_of(joints, #[trigger] name_at(i)) != Some(at as usize))
                ==> #[trigger] spread(q, joints, angles, n)[at] == q[at],
    decreases n,
{
    if n > 0 {
        law_a_posture_is_written_by_name(q, joints, angles, (n - 1) as nat);
        let before = spread(q, joints, angles, (n - 1) as nat);
        let name = name_at(n - 1);
        if exists|i: int| first_joint(joints, name, i) {
            let i = choose|i: int| first_joint(joints, name, i);
            assert(joints[i].1 < q.len());
        }
        assert forall|i: int| 0 <= i < n implies (slot_of(joints, #[trigger] name_at(i)) matches Some(
            at,
        ) ==> at < q.len() && spread(q, joints, angles, n)[at as int] == angles[i]) by {
            if i < n - 1 {
                if let Some(at) = slot_of(joints, name_at(i)) {
                    assert(before[at as int] == angles[i]);
                    assert(slot_of(joints, name_at(n - 1)) != Some(at));
                }
            }
        }
        assert forall|at: int|
            0 <= at < q.len() && (forall|i: int|
                0 <= i < n ==> slot_of(joints, #[trigger] name_at(i)) != Some(at as usize))
            implies #[trigger] spread(q, joints, angles, n)[at] == q[at] by {
            assert(slot_of(joints, name_at(n - 1)) != Some(at as usize));
            assert(before[at] == q[at]);
        }
    }
}

/// The joints of a posture are named in their flat order, the arm's last.
pub proof fn law_a_posture_is_named_in_flat_order(leg: LegSlot, k: int)
    requires
        0 <= k < 3,
    ensures
        name_at(3 * leg.place() + k) == crate::hal::joint::joint_name(leg, k),
        name_at(12) == crate::hal::joint::ARM_JOINT_NAME@,
{
}

} // verus!
