//! The order of the joints, and the values that command and describe one.
//!
//! Legs come in the order FL, FR, RL, RR, and the joints of a leg in the order
//! hip, thigh, calf. The gait, the model and the wiring all count on this one
//! order: if any of them drifts, the symptom is a single leg behaving oddly.
use vstd::prelude::*;

use crate::double::{double, Double};
use crate::text::same_text;

verus! {

/// The slot of a leg.
#[derive(Debug, Clone, Copy, PartialEq, Eq, PartialOrd, Ord, Structural)]
pub enum LegSlot {
    Fl,
    Fr,
    Rl,
    Rr,
}

impl LegSlot {
    /// All legs, in slot order.
    pub const ALL: [LegSlot; 4] = [LegSlot::Fl, LegSlot::Fr, LegSlot::Rl, LegSlot::Rr];

    /// The place of the slot in [`LegSlot::ALL`].
    pub open spec fn place(self) -> nat {
        match self {
            LegSlot::Fl => 0,
            LegSlot::Fr => 1,
            LegSlot::Rl => 2,
            LegSlot::Rr => 3,
        }
    }

    /// The slot at a place below four.
    pub open spec fn at(place: nat) -> LegSlot {
        if place == 0 {
            LegSlot::Fl
        } else if place == 1 {
            LegSlot::Fr
        } else if place == 2 {
            LegSlot::Rl
        } else {
            LegSlot::Rr
        }
    }

    /// The prefix that the model gives the leg's joints.
    pub open spec fn name(self) -> Seq<char> {
        match self {
            LegSlot::Fl => "FL"@,
            LegSlot::Fr => "FR"@,
            LegSlot::Rl => "RL"@,
            LegSlot::Rr => "RR"@,
        }
    }

    /// The slot that a prefix names.
    pub open spec fn named(name: Seq<char>) -> Option<LegSlot> {
        if name == "FL"@ {
            Some(LegSlot::Fl)
        } else if name == "FR"@ {
            Some(LegSlot::Fr)
        } else if name == "RL"@ {
            Some(LegSlot::Rl)
        } else if name == "RR"@ {
            Some(LegSlot::Rr)
        } else {
            None
        }
    }

    pub fn index(self) -> (r: usize)
        ensures
            r == self.place(),
            r < 4,
    {
        match self {
            LegSlot::Fl => 0,
            LegSlot::Fr => 1,
            LegSlot::Rl => 2,
            LegSlot::Rr => 3,
        }
    }

    /// The slot at the place `index`.
    pub fn from_index(index: usize) -> (r: LegSlot)
        requires
            index < 4,
        ensures
            r == LegSlot::at(index as nat),
    {
        if index == 0 {
            LegSlot::Fl
        } else if index == 1 {
            LegSlot::Fr
        } else if index == 2 {
            LegSlot::Rl
        } else {
            LegSlot::Rr
        }
    }

    /// The prefix of the leg's joints in the model: the `FL` of `FL_hip_joint`.
    pub fn prefix(self) -> (r: &'static str)
        ensures
            r@ == self.name(),
    {
        match self {
            LegSlot::Fl => "FL",
            LegSlot::Fr => "FR",
            LegSlot::Rl => "RL",
            LegSlot::Rr => "RR",
        }
    }

    pub fn from_prefix(s: &str) -> (r: Option<LegSlot>)
        ensures
            r == LegSlot::named(s@),
    {
        if same_text(s, "FL") {
            Some(LegSlot::Fl)
        } else if same_text(s, "FR") {
            Some(LegSlot::Fr)
        } else if same_text(s, "RL") {
            Some(LegSlot::Rl)
        } else if same_text(s, "RR") {
            Some(LegSlot::Rr)
        } else {
            None
        }
    }
}

/// A slot and its place determine each other.
pub proof fn law_places_round_trip(leg: LegSlot, place: nat)
    requires
        place < 4,
    ensures
        LegSlot::at(leg.place()) == leg,
        LegSlot::at(place).place() == place,
        leg.place() < 4,
{
}

/// The prefix of a leg leads back to the leg.
pub proof fn law_prefix_round_trips(leg: LegSlot)
    ensures
        LegSlot::named(leg.name()) == Some(leg),
{
    reveal_strlit("FL");
    reveal_strlit("FR");
    reveal_strlit("RL");
    reveal_strlit("RR");
    assert("FL"@[0] != "RL"@[0]);
    assert("FL"@[1] != "FR"@[1]);
    assert("RL"@[1] != "RR"@[1]);
    assert("FL"@[0] != "RR"@[0]);
    assert("FR"@[0] != "RL"@[0]);
    assert("FR"@[0] != "RR"@[0]);
}

/// The joints of a leg, in the order of motor ids 1, 2, 3.
pub const LEG_JOINT_KINDS: [&'static str; 3] = ["hip", "thigh", "calf"];

/// The joint names by leg and kind.
pub const JOINT_NAMES: [[&'static str; 3]; 4] = [
    ["FL_hip_joint", "FL_thigh_joint", "FL_calf_joint"],
    ["FR_hip_joint", "FR_thigh_joint", "FR_calf_joint"],
    ["RL_hip_joint", "RL_thigh_joint", "RL_calf_joint"],
    ["RR_hip_joint", "RR_thigh_joint", "RR_calf_joint"],
];

/// The name of the arm's joint.
pub const ARM_JOINT_NAME: &'static str = "arm_pitch_joint";

/// The name of a leg's joint.
pub open spec fn joint_name(leg: LegSlot, kind: int) -> Seq<char> {
    JOINT_NAMES[leg.place() as int][kind]@
}

/// Whether a joint of the given leg and kind has the given name.
pub open spec fn is_named(name: Seq<char>, leg: LegSlot, kind: usize) -> bool {
    kind < 3 && joint_name(leg, kind as int) == name
}

/// The leg and kind of the joint with the given name.
pub open spec fn joint_named(name: Seq<char>) -> Option<(LegSlot, usize)> {
    if exists|leg: LegSlot, kind: usize| is_named(name, leg, kind) {
        let (leg, kind) = choose|leg: LegSlot, kind: usize| is_named(name, leg, kind);
        Some((leg, kind))
    } else {
        None
    }
}

/// No two joints share a name, so that a joint's name leads back to the joint.
pub proof fn law_lookup_round_trips(leg: LegSlot, kind: usize)
    requires
        kind < 3,
    ensures
        joint_named(joint_name(leg, kind as int)) == Some((leg, kind)),
{
    let name = joint_name(leg, kind as int);
    assert(is_named(name, leg, kind));
    let (l, k) = choose|l: LegSlot, k: usize| is_named(name, l, k);
    lemma_name_letters(leg, kind as int);
    lemma_name_letters(l, k as int);
}

/// The arm's joint is no joint of a leg.
pub proof fn law_the_arm_is_no_leg_joint()
    ensures
        joint_named(ARM_JOINT_NAME@) == None::<(LegSlot, usize)>,
{
    reveal_strlit("arm_pitch_joint");
    assert forall|leg: LegSlot, kind: usize| kind < 3 implies !is_named(
        ARM_JOINT_NAME@,
        leg,
        kind,
    ) by {
        lemma_name_letters(leg, kind as int);
    }
}

/// The letters that tell the joint names apart.
proof fn lemma_name_letters(leg: LegSlot, kind: int)
    requires
        0 <= kind < 3,
    ensures
        joint_name(leg, kind).len() > 3,
        joint_name(leg, kind)[0] == (if leg.place() < 2 { 'F' } else { 'R' }),
        joint_name(leg, kind)[1] == (if leg.place() % 2 == 0 { 'L' } else { 'R' }),
        joint_name(leg, kind)[3] == (if kind == 0 { 'h' } else if kind == 1 { 't' } else { 'c' }),
{
    reveal_strlit("FL_hip_joint");
    reveal_strlit("FL_thigh_joint");
    reveal_strlit("FL_calf_joint");
    reveal_strlit("FR_hip_joint");
    reveal_strlit("FR_thigh_joint");
    reveal_strlit("FR_calf_joint");
    reveal_strlit("RL_hip_joint");
    reveal_strlit("RL_thigh_joint");
    reveal_strlit("RL_calf_joint");
    reveal_strlit("RR_hip_joint");
    reveal_strlit("RR_thigh_joint");
    reveal_strlit("RR_calf_joint");
}

/// The leg and kind of a joint; `None` for the arm and for unknown names.
pub fn lookup(name: &str) -> (r: Option<(LegSlot, usize)>)
    ensures
        r == joint_named(name@),
{
    for i in 0usize..4
        invariant
            forall|leg: LegSlot, kind: usize| leg.place() < i ==> !is_named(name@, leg, kind),
    {
        let leg = LegSlot::from_index(i);
        for k in 0usize..3
            invariant
                0 <= i < 4,
                leg == LegSlot::at(i as nat),
                forall|kind: usize| kind < k ==> !is_named(name@, leg, kind),
        {
            if same_text(JOINT_NAMES[i][k], name) {
                proof {
                    assert(is_named(name@, leg, k));
                    law_lookup_round_trips(leg, k);
                }
                return Some((leg, k));
            }
        }
        proof {
            assert forall|l: LegSlot, kind: usize| l.place() < i + 1 implies !is_named(name@, l, kind) by {
                law_places_round_trip(l, 0);
                if l.place() == i {
                    assert(l == leg);
                }
            }
        }
    }
    proof {
        assert forall|l: LegSlot, kind: usize| !is_named(name@, l, kind) by {
            law_places_round_trip(l, 0);
        }
    }
    None
}

/// How a joint is driven.
///
/// `Idle` sends nothing and only reads. It is where every joint starts and where
/// an emergency stop leaves it, so that a joint which nobody has commanded yet
/// never sets off toward zero.
#[derive(Debug, Clone, Copy, PartialEq, Eq, Structural)]
pub enum JointMode {
    Idle,
    Position,
    Torque,
}

/// A command to one joint.
#[derive(Debug, Clone, Copy, PartialEq, Eq, Structural)]
pub struct JointCommand {
    pub mode: JointMode,
    /// The joint angle in the model's frame (rad).
    pub position_rad: Double,
    /// The speed limit under position control (rad/s at the output).
    pub max_speed_rad_s: Double,
    /// The torque (N·m at the output), used in torque mode only.
    pub torque_nm: Double,
}

impl JointCommand {
    /// The command that does nothing.
    pub open spec fn idle() -> JointCommand {
        JointCommand {
            mode: JointMode::Idle,
            position_rad: double(0),
            max_speed_rad_s: double(0),
            torque_nm: double(0),
        }
    }
}

impl Default for JointCommand {
    fn default() -> (r: Self)
        ensures
            r == JointCommand::idle(),
    {
        JointCommand {
            mode: JointMode::Idle,
            position_rad: double(0),
            max_speed_rad_s: double(0),
            torque_nm: double(0),
        }
    }
}

/// What was measured of one joint.
#[derive(Debug, Clone, Copy, PartialEq, Eq, Structural)]
pub struct JointState {
    /// The joint angle in the model's frame (rad).
    pub position_rad: Double,
    pub velocity_rad_s: Double,
    pub torque_nm: Double,
    pub temperature_c: Double,
    /// Whether the last transaction succeeded; otherwise the values may be old.
    pub ok: bool,
}

impl JointState {
    /// The state before anything was measured.
    pub open spec fn unknown() -> JointState {
        JointState {
            position_rad: double(0),
            velocity_rad_s: double(0),
            torque_nm: double(0),
            temperature_c: double(0),
            ok: false,
        }
    }
}

impl Default for JointState {
    fn default() -> (r: Self)
        ensures
            r == JointState::unknown(),
    {
        JointState {
            position_rad: double(0),
            velocity_rad_s: double(0),
            torque_nm: double(0),
            temperature_c: double(0),
            ok: false,
        }
    }
}

/// One value for each joint of a leg.
#[derive(Debug, Clone, Copy, PartialEq, Eq, Structural)]
pub struct PerJoint<T> {
    pub hip: T,
    pub thigh: T,
    pub calf: T,
}

impl<T> PerJoint<T> {
    /// The value of the joint at the given place.
    pub open spec fn at(self, k: int) -> T {
        if k == 0 { self.hip } else if k == 1 { self.thigh } else { self.calf }
    }

    /// The values with that of one joint replaced.
    pub open spec fn with(self, k: int, value: T) -> PerJoint<T> {
        if k == 0 {
            PerJoint { hip: value, ..self }
        } else if k == 1 {
            PerJoint { thigh: value, ..self }
        } else {
            PerJoint { calf: value, ..self }
        }
    }

    /// The same value for every joint.
    pub open spec fn all(value: T) -> PerJoint<T> {
        PerJoint { hip: value, thigh: value, calf: value }
    }
}

impl<T: Copy> PerJoint<T> {
    pub fn get(&self, k: usize) -> (r: T)
        requires
            k < 3,
        ensures
            r == self.at(k as int),
    {
        if k == 0 { self.hip } else if k == 1 { self.thigh } else { self.calf }
    }

    pub fn set(&mut self, k: usize, value: T)
        requires
            k < 3,
        ensures
            *final(self) == old(self).with(k as int, value),
    {
        if k == 0 {
            self.hip = value;
        } else if k == 1 {
            self.thigh = value;
        } else {
            self.calf = value;
        }
    }

    pub fn filled(value: T) -> (r: PerJoint<T>)
        ensures
            r == PerJoint::all(value),
    {
        PerJoint { hip: value, thigh: value, calf: value }
    }
}

/// One value for each leg.
#[derive(Debug, Clone, Copy, PartialEq, Eq, Structural)]
pub struct PerLeg<T> {
    pub fl: T,
    pub fr: T,
    pub rl: T,
    pub rr: T,
}

impl<T> PerLeg<T> {
    /// The value of a leg.
    pub open spec fn of(self, leg: LegSlot) -> T {
        match leg {
            LegSlot::Fl => self.fl,
            LegSlot::Fr => self.fr,
            LegSlot::Rl => self.rl,
            LegSlot::Rr => self.rr,
        }
    }

    /// The values with that of one leg replaced.
    pub open spec fn with(self, leg: LegSlot, value: T) -> PerLeg<T> {
        match leg {
            LegSlot::Fl => PerLeg { fl: value, ..self },
            LegSlot::Fr => PerLeg { fr: value, ..self },
            LegSlot::Rl => PerLeg { rl: value, ..self },
            LegSlot::Rr => PerLeg { rr: value, ..self },
        }
    }

    /// The same value for every leg.
    pub open spec fn all(value: T) -> PerLeg<T> {
        PerLeg { fl: value, fr: value, rl: value, rr: value }
    }
}

impl<T: Copy> PerLeg<T> {
    pub fn get(&self, leg: LegSlot) -> (r: T)
        ensures
            r == self.of(leg),
    {
        match leg {
            LegSlot::Fl => self.fl,
            LegSlot::Fr => self.fr,
            LegSlot::Rl => self.rl,
            LegSlot::Rr => self.rr,
        }
    }

    pub fn set(&mut self, leg: LegSlot, value: T)
        ensures
            *final(self) == old(self).with(leg, value),
    {
        match leg {
            LegSlot::Fl => {
                self.fl = value;
            },
            LegSlot::Fr => {
                self.fr = value;
            },
            LegSlot::Rl => {
                self.rl = value;
            },
            LegSlot::Rr => {
                self.rr = value;
            },
        }
    }

    pub fn filled(value: T) -> (r: PerLeg<T>)
        ensures
            r == PerLeg::all(value),
    {
        PerLeg { fl: value, fr: value, rl: value, rr: value }
    }
}

/// A joint's name is made of its leg's prefix and its kind.
pub proof fn law_a_joint_is_named_after_its_leg_and_kind(leg: LegSlot, k: int)
    requires
        0 <= k < 3,
    ensures
        joint_name(leg, k) == leg.name() + "_"@ + LEG_JOINT_KINDS[k]@ + "_joint"@,
        leg.name() == seq![
            if leg is Fl || leg is Fr { 'F' } else { 'R' },
            if leg is Fl || leg is Rl { 'L' } else { 'R' },
        ],
        LEG_JOINT_KINDS[0]@ == "hip"@,
        LEG_JOINT_KINDS[1]@ == "thigh"@,
        LEG_JOINT_KINDS[2]@ == "calf"@,
{
    reveal_strlit("FL_hip_joint");
    reveal_strlit("FL_thigh_joint");
    reveal_strlit("FL_calf_joint");
    reveal_strlit("FR_hip_joint");
    reveal_strlit("FR_thigh_joint");
    reveal_strlit("FR_calf_joint");
    reveal_strlit("RL_hip_joint");
    reveal_strlit("RL_thigh_joint");
    reveal_strlit("RL_calf_joint");
    reveal_strlit("RR_hip_joint");
    reveal_strlit("RR_thigh_joint");
    reveal_strlit("RR_calf_joint");
    reveal_strlit("FL");
    reveal_strlit("FR");
    reveal_strlit("RL");
    reveal_strlit("RR");
    reveal_strlit("hip");
    reveal_strlit("thigh");
    reveal_strlit("calf");
    reveal_strlit("_");
    reveal_strlit("_joint");
    assert(joint_name(leg, k) =~= leg.name() + "_"@ + LEG_JOINT_KINDS[k]@ + "_joint"@);
}

/// What is set for a joint of a leg is there afterwards, and nowhere else; the places
/// are those of hip, thigh and calf.
pub proof fn law_a_place_holds_what_was_put_there<T>(q: PerJoint<T>, k: int, j: int, value: T)
    requires
        0 <= k < 3,
        0 <= j < 3,
    ensures
        q.with(k, value).at(k) == value,
        j != k ==> q.with(k, value).at(j) == q.at(j),
        q.at(0) == q.hip,
        q.at(1) == q.thigh,
        q.at(2) == q.calf,
        PerJoint::all(value).at(k) == value,
{
}

/// What is set for a leg is there afterwards, and nowhere else.
pub proof fn law_a_leg_holds_what_was_put_there<T>(q: PerLeg<T>, leg: LegSlot, other: LegSlot, value: T)
    ensures
        q.with(leg, value).of(leg) == value,
        other != leg ==> q.with(leg, value).of(other) == q.of(other),
        q.of(LegSlot::Fl) == q.fl,
        q.of(LegSlot::Fr) == q.fr,
        q.of(LegSlot::Rl) == q.rl,
        q.of(LegSlot::Rr) == q.rr,
        PerLeg::all(value).of(leg) == value,
{
}

} // verus!
