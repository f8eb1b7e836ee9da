//! The thirteen joint angles: twelve of the legs and the arm's.
use vstd::prelude::*;

use crate::double::{double, Double};
use crate::hal::joint::{
    joint_name, joint_named, law_lookup_round_trips, law_the_arm_is_no_leg_joint, lookup, LegSlot,
    PerJoint, PerLeg, ARM_JOINT_NAME, JOINT_NAMES,
};
use crate::text::same_text;

verus! {

/// Twelve leg joints and the arm.
pub const DOF: usize = 13;

/// Joint angles in the model's frame (rad).
#[derive(Debug, Clone, Copy, PartialEq, Eq, Structural)]
pub struct JointVec {
    pub legs: PerLeg<PerJoint<Double>>,
    pub arm: Double,
}

/// The entry of a sequence, or zero past its end.
pub open spec fn entry(v: Seq<Double>, i: int) -> Double {
    if i < v.len() { v[i] } else { double(0) }
}

/// The three entries from `i` on, as a leg.
pub open spec fn leg_from(v: Seq<Double>, i: int) -> PerJoint<Double> {
    PerJoint { hip: entry(v, i), thigh: entry(v, i + 1), calf: entry(v, i + 2) }
}

/// The larger of a difference and what came before, over the first `n` entries.
pub open spec fn worst_gap(a: Seq<Double>, b: Seq<Double>, n: nat) -> Double
    decreases n,
{
    if n == 0 {
        double(0)
    } else {
        worst_gap(a, b, (n - 1) as nat).max(a[n - 1].minus(b[n - 1]).abs())
    }
}

impl JointVec {
    pub open spec fn zero() -> JointVec {
        JointVec { legs: PerLeg::all(PerJoint::all(double(0))), arm: double(0) }
    }

    /// The angles in the order of the joint names, the arm last.
    pub open spec fn flat(self) -> Seq<Double> {
        seq![
            self.legs.fl.hip, self.legs.fl.thigh, self.legs.fl.calf,
            self.legs.fr.hip, self.legs.fr.thigh, self.legs.fr.calf,
            self.legs.rl.hip, self.legs.rl.thigh, self.legs.rl.calf,
            self.legs.rr.hip, self.legs.rr.thigh, self.legs.rr.calf,
            self.arm,
        ]
    }

    /// The angles of a flat sequence; what it lacks is zero.
    pub open spec fn unflat(v: Seq<Double>) -> JointVec {
        JointVec {
            legs: PerLeg { fl: leg_from(v, 0), fr: leg_from(v, 3), rl: leg_from(v, 6), rr: leg_from(v, 9) },
            arm: entry(v, 12),
        }
    }

    /// The angle of a joint by name.
    pub open spec fn named(self, name: Seq<char>) -> Option<Double> {
        if name == ARM_JOINT_NAME@ {
            Some(self.arm)
        } else {
            match joint_named(name) {
                Some((leg, k)) => Some(self.legs.of(leg).at(k as int)),
                None => None,
            }
        }
    }

    /// The angles with one joint's replaced; an unknown joint changes nothing.
    pub open spec fn with(self, name: Seq<char>, value: Double) -> JointVec {
        if name == ARM_JOINT_NAME@ {
            JointVec { arm: value, ..self }
        } else {
            match joint_named(name) {
                Some((leg, k)) => JointVec {
                    legs: self.legs.with(leg, self.legs.of(leg).with(k as int, value)),
                    ..self
                },
                None => self,
            }
        }
    }

    /// The larger of all differences.
    pub open spec fn gap(self, other: JointVec) -> Double {
        worst_gap(self.flat(), other.flat(), 13)
    }

    pub fn zeros() -> (r: JointVec)
        ensures
            r == JointVec::zero(),
    {
        JointVec { legs: PerLeg::filled(PerJoint::filled(double(0))), arm: double(0) }
    }

    /// The angle of a joint; `None` for an unknown name.
    pub fn get(&self, name: &str) -> (r: Option<Double>)
        ensures
            r == self.named(name@),
    {
        if same_text(name, ARM_JOINT_NAME) {
            return Some(self.arm);
        }
        match lookup(name) {
            Some((leg, k)) => {
                proof {
                    lemma_place_is_small(name@);
                }
                Some(self.legs.get(leg).get(k))
            },
            None => None,
        }
    }

    /// Sets the angle of a joint; `false` for an unknown name.
    pub fn set(&mut self, name: &str, value: Double) -> (r: bool)
        ensures
            *final(self) == old(self).with(name@, value),
            r == (old(self).named(name@) is Some),
    {
        if same_text(name, ARM_JOINT_NAME) {
            self.arm = value;
            return true;
        }
        match lookup(name) {
            Some((leg, k)) => {
                proof {
                    lemma_place_is_small(name@);
                }
                let mut joints = self.legs.get(leg);
                joints.set(k, value);
                self.legs.set(leg, joints);
                true
            },
            None => false,
        }
    }

    /// The angles as a flat vector.
    pub fn to_vec(self) -> (r: Vec<Double>)
        ensures
            r@ == self.flat(),
    {
        let r = vec![
            self.legs.fl.hip, self.legs.fl.thigh, self.legs.fl.calf,
            self.legs.fr.hip, self.legs.fr.thigh, self.legs.fr.calf,
            self.legs.rl.hip, self.legs.rl.thigh, self.legs.rl.calf,
            self.legs.rr.hip, self.legs.rr.thigh, self.legs.rr.calf,
            self.arm,
        ];
        assert(r@ =~= self.flat());
        r
    }

    /// The angles of a flat vector. What it lacks stays zero.
    pub fn from_slice(v: &[Double]) -> (r: JointVec)
        ensures
            r == JointVec::unflat(v@),
    {
        JointVec {
            legs: PerLeg { fl: leg_at(v, 0), fr: leg_at(v, 3), rl: leg_at(v, 6), rr: leg_at(v, 9) },
            arm: entry_at(v, 12),
        }
    }

    /// The names of the joints with their angles, in flat order.
    pub fn iter_named(&self) -> (r: Vec<(&'static str, Double)>)
        ensures
            r.len() == 13,
            forall|i: int| 0 <= i < 13 ==> (#[trigger] r[i]).1 == self.flat()[i],
            forall|i: int| 0 <= i < 12 ==> (#[trigger] r[i]).0@ == JOINT_NAMES[i / 3][i % 3]@,
            r[12].0@ == ARM_JOINT_NAME@,
    {
        let angles = self.to_vec();
        let mut r: Vec<(&'static str, Double)> = Vec::new();
        for i in 0usize..12
            invariant
                r.len() == i,
                angles@ == self.flat(),
                forall|j: int| 0 <= j < i ==> (#[trigger] r[j]).1 == self.flat()[j],
                forall|j: int| 0 <= j < i ==> (#[trigger] r[j]).0@ == JOINT_NAMES[j / 3][j % 3]@,
        {
            r.push((JOINT_NAMES[i / 3][i % 3], angles[i]));
        }
        r.push((ARM_JOINT_NAME, self.arm));
        r
    }

    /// The largest difference between two poses (rad).
    pub fn max_abs_diff(&self, other: &JointVec) -> (r: Double)
        ensures
            r == self.gap(*other),
    {
        let a = self.to_vec();
        let b = other.to_vec();
        let mut worst = double(0);
        for i in 0usize..13
            invariant
                a@ == self.flat(),
                b@ == other.flat(),
                worst == worst_gap(a@, b@, i as nat),
        {
            worst = worst.max(a[i].minus(b[i]).abs());
        }
        worst
    }
}

impl Default for JointVec {
    fn default() -> (r: Self)
        ensures
            r == JointVec::zero(),
    {
        JointVec::zeros()
    }
}

fn entry_at(v: &[Double], i: usize) -> (r: Double)
    ensures
        r == entry(v@, i as int),
{
    if i < v.len() { v[i] } else { double(0) }
}

fn leg_at(v: &[Double], i: usize) -> (r: PerJoint<Double>)
    requires
        i <= 9,
    ensures
        r == leg_from(v@, i as int),
{
    PerJoint { hip: entry_at(v, i), thigh: entry_at(v, i + 1), calf: entry_at(v, i + 2) }
}

/// A joint that is found has one of the three places.
pub proof fn lemma_place_is_small(name: Seq<char>)
    ensures
        joint_named(name) matches Some((leg, k)) ==> k < 3,
{
}

/// The flat vector leads back to the angles.
pub proof fn law_flat_vector_round_trips(q: JointVec)
    ensures
        JointVec::unflat(q.flat()) == q,
        q.flat().len() == DOF,
{
}

/// What is set under a name is read back under it, and no other joint changes.
pub proof fn law_set_then_get(q: JointVec, name: Seq<char>, value: Double, other: Seq<char>)
    requires
        q.named(name) is Some,
        joint_named(name) != joint_named(other) || (name == ARM_JOINT_NAME@) != (other == ARM_JOINT_NAME@)
            || name == other,
    ensures
        q.with(name, value).named(name) == Some(value),
        other != name ==> q.with(name, value).named(other) == q.named(other),
{
    law_the_arm_is_no_leg_joint();
    lemma_place_is_small(name);
    lemma_place_is_small(other);
    if other != name {
        if let Some((leg, k)) = joint_named(name) {
            if let Some((l, j)) = joint_named(other) {
                assert(l != leg || j != k || name == ARM_JOINT_NAME@ || other == ARM_JOINT_NAME@);
            }
        }
    }
}

/// The flat order is leg by leg in the order of the legs' places, joint by joint, with
/// the arm last, and names lead to the same angles.
pub proof fn law_the_flat_order_is_that_of_the_names(q: JointVec, leg: LegSlot, k: usize)
    requires
        k < 3,
    ensures
        q.flat()[3 * leg.place() + k] == q.legs.of(leg).at(k as int),
        q.flat()[12] == q.arm,
        q.named(joint_name(leg, k as int)) == Some(q.legs.of(leg).at(k as int)),
        q.named(ARM_JOINT_NAME@) == Some(q.arm),
        JOINT_NAMES[leg.place() as int][k as int]@ == joint_name(leg, k as int),
{
    law_the_arm_is_no_leg_joint();
    law_lookup_round_trips(leg, k);
}

/// The largest difference is one of the differences, and none is larger.
pub proof fn law_the_largest_difference_is_the_largest(a: JointVec, b: JointVec)
    requires
        forall|i: int| 0 <= i < 13 ==> !(#[trigger] a.flat()[i]).minus(b.flat()[i]).nan(),
    ensures
        forall|i: int|
            0 <= i < 13 ==> (#[trigger] a.flat()[i]).minus(b.flat()[i]).abs().is_at_most(a.gap(b)),
        a.gap(b) == double(0) || exists|i: int|
            0 <= i < 13 && (#[trigger] a.flat()[i]).minus(b.flat()[i]).abs() == a.gap(b),
{
    lemma_worst_gap(a.flat(), b.flat(), 13);
}

proof fn lemma_worst_gap(a: Seq<Double>, b: Seq<Double>, n: nat)
    requires
        n <= a.len(),
        n <= b.len(),
        forall|i: int| 0 <= i < n ==> !(#[trigger] a[i]).minus(b[i]).nan(),
    ensures
        !worst_gap(a, b, n).nan(),
        forall|i: int|
            0 <= i < n ==> (#[trigger] a[i]).minus(b[i]).abs().is_at_most(worst_gap(a, b, n)),
        worst_gap(a, b, n) == double(0) || exists|i: int|
            0 <= i < n && (#[trigger] a[i]).minus(b[i]).abs() == worst_gap(a, b, n),
    decreases n,
{
    if n > 0 {
        lemma_worst_gap(a, b, (n - 1) as nat);
        let d = a[n - 1].minus(b[n - 1]);
        assert(d.abs().magnitude() == d.magnitude());
    }
}

} // verus!
