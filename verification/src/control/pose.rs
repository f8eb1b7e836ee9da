//! Poses and sequences of the model, and playing them.
//!
//! A pose names only the joints that it moves: the others keep the value they have
//! when it starts. How a transition is interpolated is left to the caller: the
//! player asks for the angles at a time ([`PosePlayer::ask`]) and is told them
//! ([`PosePlayer::told`]).
use vstd::prelude::*;
use vstd::string::*;

use crate::control::jointvec::JointVec;
use crate::double::{double, Double};
use crate::text::{debug_text, join_text, joined, quoted, same_text, views};

verus! {

/// How a transition is shaped in time. Shapes of the model that the program never
/// names itself are carried by number.
#[derive(Debug, Clone, Copy, PartialEq, Eq, Structural)]
pub enum Interpolation {
    Linear,
    QuinticSmooth,
    Other(u8),
}

/// A named pose: the angles of the joints that it moves.
#[derive(Debug, Clone)]
pub struct Pose {
    pub name: String,
    pub angles: Vec<(String, Double)>,
    pub duration: Double,
    pub kind: Interpolation,
}

/// One step of a sequence.
#[derive(Debug, Clone)]
pub struct SequenceStep {
    pub pose_name: String,
    pub duration: Double,
    pub kind: Interpolation,
}

/// A named sequence of poses.
#[derive(Debug, Clone)]
pub struct Sequence {
    pub name: String,
    pub steps: Vec<SequenceStep>,
}

/// The poses and sequences of the model.
#[derive(Debug, Clone)]
pub struct PoseLibrary {
    pub poses: Vec<Pose>,
    pub sequences: Vec<Sequence>,
    pub home: JointVec,
}

/// One step of what is played.
#[derive(Debug, Clone)]
pub struct PoseStep {
    pub name: String,
    pub target: JointVec,
    pub duration_s: Double,
    pub kind: Interpolation,
}

/// A [`PoseStep`] with its name as a sequence.
pub ghost struct Leg {
    pub name: Seq<char>,
    pub target: JointVec,
    pub duration_s: Double,
    pub kind: Interpolation,
}

impl View for PoseStep {
    type V = Leg;

    open spec fn view(&self) -> Leg {
        Leg { name: self.name@, target: self.target, duration_s: self.duration_s, kind: self.kind }
    }
}

/// The steps as their views.
pub open spec fn legs(steps: Seq<PoseStep>) -> Seq<Leg> {
    steps.map_values(|s: PoseStep| s@)
}

/// The angles with those of a pose laid over them.
pub open spec fn overlaid(angles: Seq<(String, Double)>, current: JointVec) -> JointVec
    decreases angles.len(),
{
    if angles.len() == 0 {
        current
    } else {
        overlaid(angles.drop_last(), current).with(angles.last().0@, angles.last().1)
    }
}

/// A list of names as errors show it.
pub open spec fn list_text(names: Seq<Seq<char>>) -> Seq<char> {
    "["@ + joined(names, ", "@) + "]"@
}

/// The names in quotes.
pub open spec fn quoted_names(names: Seq<Seq<char>>) -> Seq<Seq<char>> {
    names.map_values(|s: Seq<char>| debug_text(s))
}

impl PoseLibrary {
    /// Whether the pose at a place is the first with the given name.
    pub open spec fn first_pose(self, name: Seq<char>, i: int) -> bool {
        &&& 0 <= i < self.poses.len()
        &&& self.poses[i].name@ == name
        &&& forall|j: int| 0 <= j < i ==> (#[trigger] self.poses[j]).name@ != name
    }

    /// Whether the sequence at a place is the first with the given name.
    pub open spec fn first_sequence(self, name: Seq<char>, i: int) -> bool {
        &&& 0 <= i < self.sequences.len()
        &&& self.sequences[i].name@ == name
        &&& forall|j: int| 0 <= j < i ==> (#[trigger] self.sequences[j]).name@ != name
    }

    /// The pose of the given name.
    pub open spec fn find_pose(self, name: Seq<char>) -> Option<Pose> {
        if exists|i: int| self.first_pose(name, i) {
            Some(self.poses[choose|i: int| self.first_pose(name, i)])
        } else {
            None
        }
    }

    /// The sequence of the given name.
    pub open spec fn find_sequence(self, name: Seq<char>) -> Option<Sequence> {
        if exists|i: int| self.first_sequence(name, i) {
            Some(self.sequences[choose|i: int| self.first_sequence(name, i)])
        } else {
            None
        }
    }

    /// The names of the poses.
    pub open spec fn poses_named(self) -> Seq<Seq<char>> {
        self.poses@.map_values(|p: Pose| p.name@)
    }

    /// The names of the sequences.
    pub open spec fn sequences_named(self) -> Seq<Seq<char>> {
        self.sequences@.map_values(|s: Sequence| s.name@)
    }

    /// The first `n` steps of a sequence, played from `from`. Every pose that they
    /// name exists.
    pub open spec fn walk(self, steps: Seq<SequenceStep>, n: nat, from: JointVec) -> Seq<Leg>
        decreases n,
    {
        if n == 0 {
            Seq::empty()
        } else {
            let before = self.walk(steps, (n - 1) as nat, from);
            let cursor = if n == 1 { from } else { before[n - 2].target };
            let step = steps[n - 1];
            before.push(
                Leg {
                    name: step.pose_name@,
                    target: overlaid(self.find_pose(step.pose_name@)->Some_0.angles@, cursor),
                    duration_s: step.duration.max(double(0)),
                    kind: step.kind,
                },
            )
        }
    }

    /// Whether the step at a place is the first that names a missing pose.
    pub open spec fn first_ghost(self, steps: Seq<SequenceStep>, i: int) -> bool {
        &&& 0 <= i < steps.len()
        &&& self.find_pose(steps[i].pose_name@) is None
        &&& forall|j: int|
            0 <= j < i ==> self.find_pose((#[trigger] steps[j]).pose_name@) is Some
    }

    /// What the error says of a step that names a missing pose.
    pub open spec fn ghost_text(name: Seq<char>, pose: Seq<char>) -> Seq<char> {
        "シーケンス "@ + name + " が参照するポーズ "@ + pose + " がモデルにありません"@
    }

    /// What the error says of a name that the model lacks.
    pub open spec fn unknown_text(name: Seq<char>, poses: Seq<Seq<char>>, sequences: Seq<Seq<char>>)
        -> Seq<char> {
        "ポーズ / シーケンス "@ + name + " がモデルにありません（pose: "@ + list_text(poses)
            + ", sequence: "@ + list_text(sequences) + "）"@
    }

    /// Whether `r` is what the given name means, played from `from`: a sequence,
    /// else a pose, else an error.
    pub open spec fn plans(self, name: Seq<char>, from: JointVec, r: Result<Vec<PoseStep>, String>)
        -> bool {
        match self.find_sequence(name) {
            Some(sequence) => {
                let steps = sequence.steps@;
                match r {
                    Ok(plan) => {
                        &&& forall|i: int|
                            0 <= i < steps.len() ==> self.find_pose((#[trigger] steps[i]).pose_name@) is Some
                        &&& steps.len() > 0
                        &&& legs(plan@) == self.walk(steps, steps.len(), from)
                    },
                    Err(e) => if steps.len() == 0 {
                        e@ == "シーケンス "@ + debug_text(name) + " に手順がありません"@
                    } else {
                        exists|i: int| #[trigger]
                            self.first_ghost(steps, i) && e@ == Self::ghost_text(
                                debug_text(name),
                                debug_text(steps[i].pose_name@),
                            )
                    },
                }
            },
            None => match (self.find_pose(name), r) {
                (Some(pose), Ok(plan)) => legs(plan@) == seq![
                    Leg {
                        name,
                        target: overlaid(pose.angles@, from),
                        duration_s: pose.duration.max(double(0)),
                        kind: pose.kind,
                    },
                ],
                (Some(_), Err(_)) => false,
                (None, Ok(_)) => false,
                (None, Err(e)) => e@ == Self::unknown_text(
                    debug_text(name),
                    quoted_names(self.poses_named()),
                    quoted_names(self.sequences_named()),
                ),
            },
        }
    }

    /// The steps that a name means, played from `from`; `None` where it means none.
    pub open spec fn planned(self, name: Seq<char>, from: JointVec) -> Option<Seq<Leg>> {
        match self.find_sequence(name) {
            Some(sequence) => {
                let steps = sequence.steps@;
                if steps.len() == 0 || exists|i: int| self.first_ghost(steps, i) {
                    None
                } else {
                    Some(self.walk(steps, steps.len(), from))
                }
            },
            None => match self.find_pose(name) {
                Some(pose) => Some(
                    seq![
                        Leg {
                            name,
                            target: overlaid(pose.angles@, from),
                            duration_s: pose.duration.max(double(0)),
                            kind: pose.kind,
                        },
                    ],
                ),
                None => None,
            },
        }
    }

    pub fn new(poses: Vec<Pose>, sequences: Vec<Sequence>, home: JointVec) -> (r: PoseLibrary)
        ensures
            r == (PoseLibrary { poses, sequences, home }),
    {
        PoseLibrary { poses, sequences, home }
    }

    /// The library of a model: its poses, its sequences and the angles of its home
    /// pose by name.
    pub fn from_model(poses: Vec<Pose>, sequences: Vec<Sequence>, home: Vec<(String, Double)>) -> (r:
        PoseLibrary)
        ensures
            r.poses == poses,
            r.sequences == sequences,
            r.home == overlaid(home@, JointVec::zero()),
    {
        let home = overlay(&home, JointVec::zeros());
        PoseLibrary { poses, sequences, home }
    }

    pub fn pose_names(&self) -> (r: Vec<String>)
        ensures
            views(r@) == self.poses_named(),
    {
        let mut r: Vec<String> = Vec::new();
        for i in 0..self.poses.len()
            invariant
                r.len() == i,
                forall|j: int| 0 <= j < i ==> (#[trigger] r[j])@ == self.poses[j].name@,
        {
            r.push(self.poses[i].name.clone());
        }
        assert(views(r@) =~= self.poses_named());
        r
    }

    pub fn sequence_names(&self) -> (r: Vec<String>)
        ensures
            views(r@) == self.sequences_named(),
    {
        let mut r: Vec<String> = Vec::new();
        for i in 0..self.sequences.len()
            invariant
                r.len() == i,
                forall|j: int| 0 <= j < i ==> (#[trigger] r[j])@ == self.sequences[j].name@,
        {
            r.push(self.sequences[i].name.clone());
        }
        assert(views(r@) =~= self.sequences_named());
        r
    }

    pub fn pose(&self, name: &str) -> (r: Option<&Pose>)
        ensures
            match r {
                Some(p) => self.find_pose(name@) == Some(*p),
                None => self.find_pose(name@) is None,
            },
    {
        let mut i: usize = 0;
        while i < self.poses.len()
            invariant
                i <= self.poses.len(),
                forall|j: int| 0 <= j < i ==> (#[trigger] self.poses[j]).name@ != name@,
            decreases self.poses.len() - i,
        {
            if same_text(self.poses[i].name.as_str(), name) {
                proof {
                    assert(self.first_pose(name@, i as int));
                    let k = choose|k: int| self.first_pose(name@, k);
                    assert(k == i) by {
                        if k < i {
                            assert(self.poses[k].name@ != name@);
                        }
                        if k > i {
                            assert(self.poses[i as int].name@ != name@);
                        }
                    }
                }
                return Some(&self.poses[i]);
            }
            i = i + 1;
        }
        None
    }

    pub fn sequence(&self, name: &str) -> (r: Option<&Sequence>)
        ensures
            match r {
                Some(s) => self.find_sequence(name@) == Some(*s),
                None => self.find_sequence(name@) is None,
            },
    {
        let mut i: usize = 0;
        while i < self.sequences.len()
            invariant
                i <= self.sequences.len(),
                forall|j: int| 0 <= j < i ==> (#[trigger] self.sequences[j]).name@ != name@,
            decreases self.sequences.len() - i,
        {
            if same_text(self.sequences[i].name.as_str(), name) {
                proof {
                    assert(self.first_sequence(name@, i as int));
                    let k = choose|k: int| self.first_sequence(name@, k);
                    assert(k == i) by {
                        if k < i {
                            assert(self.sequences[k].name@ != name@);
                        }
                        if k > i {
                            assert(self.sequences[i as int].name@ != name@);
                        }
                    }
                }
                return Some(&self.sequences[i]);
            }
            i = i + 1;
        }
        None
    }

    /// The angles of the model's home pose.
    pub fn home(&self) -> (r: JointVec)
        ensures
            r == self.home,
    {
        self.home
    }

    /// The angles of a pose laid over the current ones. Joints that this robot does
    /// not have are passed over.
    pub fn resolve(&self, angles: &Vec<(String, Double)>, current: JointVec) -> (r: JointVec)
        ensures
            r == overlaid(angles@, current),
    {
        overlay(angles, current)
    }

    /// The steps that a name means: of a sequence, or of a single pose.
    pub fn plan(&self, name: &str, from: JointVec) -> (r: Result<Vec<PoseStep>, String>)
        ensures
            self.plans(name@, from, r),
            match r {
                Ok(steps) => self.planned(name@, from) == Some(legs(steps@)),
                Err(_) => self.planned(name@, from) is None,
            },
    {
        if let Some(sequence) = self.sequence(name) {
            let mut plan: Vec<PoseStep> = Vec::new();
            let mut cursor = from;
            let mut i: usize = 0;
            assert(legs(plan@) =~= self.walk(sequence.steps@, 0, from));
            while i < sequence.steps.len()
                invariant
                    i <= sequence.steps.len(),
                    self.find_sequence(name@) == Some(*sequence),
                    plan.len() == i,
                    legs(plan@) == self.walk(sequence.steps@, i as nat, from),
                    cursor == if i == 0 { from } else { plan[i - 1].target },
                    forall|j: int|
                        0 <= j < i ==> self.find_pose((#[trigger] sequence.steps[j]).pose_name@) is Some,
                decreases sequence.steps.len() - i,
            {
                let step = &sequence.steps[i];
                let pose = match self.pose(step.pose_name.as_str()) {
                    Some(pose) => pose,
                    None => {
                        assert(self.first_ghost(sequence.steps@, i as int));
                        return Err(
                            ghost_pose_text(
                                quoted(name).as_str(),
                                quoted(step.pose_name.as_str()).as_str(),
                            ),
                        );
                    },
                };
                let target = overlay(&pose.angles, cursor);
                let ghost before = plan@;
                plan.push(
                    PoseStep {
                        name: step.pose_name.clone(),
                        target,
                        duration_s: step.duration.max(double(0)),
                        kind: step.kind,
                    },
                );
                proof {
                    if i > 0 {
                        assert(legs(before)[i - 1] == before[i - 1]@);
                    }
                    assert(legs(plan@) =~= legs(before).push(plan@[i as int]@));
                    assert(legs(plan@) =~= self.walk(sequence.steps@, (i + 1) as nat, from));
                }
                cursor = target;
                i = i + 1;
            }
            if plan.len() == 0 {
                return Err(empty_sequence_text(quoted(name).as_str()));
            }
            return Ok(plan);
        }
        if let Some(pose) = self.pose(name) {
            let step = PoseStep {
                name: pose.name.clone(),
                target: overlay(&pose.angles, from),
                duration_s: pose.duration.max(double(0)),
                kind: pose.kind,
            };
            let plan = vec![step];
            assert(legs(plan@) =~= seq![step@]);
            return Ok(plan);
        }
        let poses = quote_all(&self.pose_names());
        let sequences = quote_all(&self.sequence_names());
        Err(unknown_name_text(quoted(name).as_str(), &poses, &sequences))
    }
}

/// The names in quotes.
fn quote_all(names: &Vec<String>) -> (r: Vec<String>)
    ensures
        views(r@) == quoted_names(views(names@)),
{
    let mut r: Vec<String> = Vec::new();
    for i in 0..names.len()
        invariant
            r.len() == i,
            forall|j: int| 0 <= j < i ==> (#[trigger] r[j])@ == debug_text(names[j]@),
    {
        r.push(quoted(names[i].as_str()));
    }
    assert(views(r@) =~= quoted_names(views(names@)));
    r
}

/// The error of a step that names a missing pose; both names come in quotes.
pub fn ghost_pose_text(name: &str, pose: &str) -> (r: String)
    ensures
        r@ == PoseLibrary::ghost_text(name@, pose@),
{
    "シーケンス ".to_owned().concat(name).concat(" が参照するポーズ ").concat(pose).concat(
        " がモデルにありません",
    )
}

/// The error of a sequence without steps; the name comes in quotes.
pub fn empty_sequence_text(name: &str) -> (r: String)
    ensures
        r@ == "シーケンス "@ + name@ + " に手順がありません"@,
{
    "シーケンス ".to_owned().concat(name).concat(" に手順がありません")
}

/// The error of a name that the model lacks; the names come in quotes.
pub fn unknown_name_text(name: &str, poses: &Vec<String>, sequences: &Vec<String>) -> (r: String)
    ensures
        r@ == PoseLibrary::unknown_text(name@, views(poses@), views(sequences@)),
{
    let poses_list = "[".to_owned().concat(join_text(poses, ", ").as_str()).concat("]");
    let sequences_list = "[".to_owned().concat(join_text(sequences, ", ").as_str()).concat("]");
    "ポーズ / シーケンス ".to_owned().concat(name).concat(" がモデルにありません（pose: ").concat(
        poses_list.as_str(),
    ).concat(", sequence: ").concat(sequences_list.as_str()).concat("）")
}

/// The angles of a pose laid over the current ones.
pub fn overlay(angles: &Vec<(String, Double)>, current: JointVec) -> (r: JointVec)
    ensures
        r == overlaid(angles@, current),
{
    let mut out = current;
    let mut i: usize = 0;
    while i < angles.len()
        invariant
            i <= angles.len(),
            out == overlaid(angles@.take(i as int), current),
        decreases angles.len() - i,
    {
        out.set(angles[i].0.as_str(), angles[i].1);
        proof {
            let done = angles@.take(i + 1);
            assert(done.drop_last() =~= angles@.take(i as int));
            assert(done.last() == angles@[i as int]);
        }
        i = i + 1;
    }
    assert(angles@.take(angles.len() as int) =~= angles@);
    out
}

/// A transition to evaluate: from one pose to another over a time, at the time `t`.
#[derive(Debug, Clone, Copy, PartialEq, Eq, Structural)]
pub struct Query {
    pub from: JointVec,
    pub to: JointVec,
    pub duration_s: Double,
    pub kind: Interpolation,
    pub t: Double,
}

/// Plays poses one after another.
#[derive(Debug, Clone)]
pub struct PosePlayer {
    pub steps: Vec<PoseStep>,
    pub index: usize,
    pub t: Double,
    /// Where the transition of the moment starts.
    pub from: JointVec,
    pub current: JointVec,
    /// Whether the transition of the moment has reached its end.
    pub ended: bool,
}

/// A [`PosePlayer`] with its steps as a sequence.
pub ghost struct Play {
    pub steps: Seq<Leg>,
    pub index: nat,
    pub t: Double,
    pub from: JointVec,
    pub current: JointVec,
    pub ended: bool,
}

impl Play {
    pub open spec fn wf(self) -> bool {
        self.index < self.steps.len()
    }

    /// A play of the given steps before its first tick. A step without a length is
    /// at its target from the start.
    pub open spec fn fresh(steps: Seq<Leg>, from: JointVec) -> Play {
        Play {
            steps,
            index: 0,
            t: double(0),
            from,
            current: if steps[0].duration_s.equals(double(0)) { steps[0].target } else { from },
            ended: steps[0].duration_s.equals(double(0)),
        }
    }

    /// The play of a single transition.
    pub open spec fn transition(from: JointVec, to: JointVec, duration_s: Double, kind: Interpolation) -> Play {
        Play::fresh(
            seq![
                Leg { name: "<transition>"@, target: to, duration_s: duration_s.max(double(0)), kind },
            ],
            from,
        )
    }

    /// Some time later.
    pub open spec fn later(self, dt: Double) -> Play {
        Play { t: self.t.plus(dt), ..self }
    }

    /// What is to be evaluated.
    pub open spec fn query(self) -> Query {
        let step = self.steps[self.index as int];
        Query {
            from: self.from,
            to: step.target,
            duration_s: step.duration_s,
            kind: step.kind,
            t: self.t,
        }
    }

    /// Whether a step that has ended leads to another.
    pub open spec fn moves_on(self, ended: bool) -> bool {
        ended && self.index + 1 < self.steps.len()
    }

    /// The play once it was told the angles of the moment and whether the step has
    /// ended: the next step starts from them, with the time left over.
    pub open spec fn told(self, angles: JointVec, ended: bool) -> Play {
        if self.moves_on(ended) {
            Play {
                t: self.t.minus(self.steps[self.index as int].duration_s),
                index: self.index + 1,
                from: angles,
                current: angles,
                ended,
                ..self
            }
        } else {
            Play { current: angles, ended, ..self }
        }
    }

    /// The play once it was told all that is due, as an interpolation answers.
    pub open spec fn settled(self, shape: spec_fn(Query) -> (JointVec, bool)) -> Play
        decreases self.steps.len() - self.index,
    {
        let (angles, ended) = shape(self.query());
        if self.moves_on(ended) {
            self.told(angles, ended).settled(shape)
        } else {
            self.told(angles, ended)
        }
    }

    /// The play after a tick of `dt`.
    pub open spec fn ticked(self, dt: Double, shape: spec_fn(Query) -> (JointVec, bool)) -> Play {
        self.later(dt).settled(shape)
    }

    /// Whether the last step has ended.
    pub open spec fn is_done(self) -> bool {
        self.index + 1 >= self.steps.len() && self.ended
    }
}

/// Whether a function answers as an interpolation does.
pub open spec fn answers_as<F: Fn(Query) -> (JointVec, bool)>(
    evaluate: F,
    shape: spec_fn(Query) -> (JointVec, bool),
) -> bool {
    forall|q: Query, r: (JointVec, bool)| #[trigger]
        call_ensures(evaluate, (q,), r) ==> r == shape(q)
}

impl View for PosePlayer {
    type V = Play;

    open spec fn view(&self) -> Play {
        Play {
            steps: legs(self.steps@),
            index: self.index as nat,
            t: self.t,
            from: self.from,
            current: self.current,
            ended: self.ended,
        }
    }
}

impl PosePlayer {
    /// Starts what a name means, from the current pose.
    pub fn start(lib: &PoseLibrary, name: &str, from: JointVec) -> (r: Result<PosePlayer, String>)
        ensures
            match r {
                Ok(player) => player@ == Play::fresh(player@.steps, from) && player@.wf()
                    && lib.plans(name@, from, Ok(player.steps)) && lib.planned(name@, from) == Some(
                    player@.steps,
                ),
                Err(e) => lib.plans(name@, from, Err(e)) && lib.planned(name@, from) is None,
            },
    {
        match lib.plan(name, from) {
            Ok(steps) => {
                proof {
                    if lib.find_sequence(name@) is Some {
                        lemma_walk_length(
                            *lib,
                            lib.find_sequence(name@)->Some_0.steps@,
                            lib.find_sequence(name@)->Some_0.steps@.len(),
                            from,
                        );
                    }
                    assert(legs(steps@).len() == steps@.len());
                }
                Ok(PosePlayer::of_steps(steps, from))
            },
            Err(e) => Err(e),
        }
    }

    fn of_steps(steps: Vec<PoseStep>, from: JointVec) -> (r: PosePlayer)
        requires
            steps.len() > 0,
        ensures
            r@ == Play::fresh(legs(steps@), from),
            r.steps == steps,
    {
        let ended: bool = steps[0].duration_s.equals(double(0));
        let current = if ended { steps[0].target } else { from };
        PosePlayer { steps, index: 0, t: double(0), from, current, ended }
    }

    /// A single transition.
    pub fn to_pose(from: JointVec, to: JointVec, duration_s: Double, kind: Interpolation) -> (r:
        PosePlayer)
        ensures
            r@ == Play::transition(from, to, duration_s, kind),
            r@.wf(),
    {
        let step = PoseStep {
            name: "<transition>".to_owned(),
            target: to,
            duration_s: duration_s.max(double(0)),
            kind,
        };
        let steps = vec![step];
        assert(legs(steps@) =~= seq![step@]);
        PosePlayer::of_steps(steps, from)
    }

    /// Lets `dt` pass. What [`PosePlayer::ask`] then asks for is due.
    pub fn advance(&mut self, dt: Double)
        ensures
            final(self)@ == old(self)@.later(dt),
            final(self).steps == old(self).steps,
    {
        self.t = self.t.plus(dt);
    }

    /// The transition to evaluate.
    pub fn ask(&self) -> (r: Query)
        requires
            self@.wf(),
        ensures
            r == self@.query(),
    {
        let step = &self.steps[self.index];
        assert(legs(self.steps@)[self.index as int] == step@);
        Query {
            from: self.from,
            to: step.target,
            duration_s: step.duration_s,
            kind: step.kind,
            t: self.t,
        }
    }

    /// Takes in the angles of the moment and whether the transition has ended.
    /// `true` if the next step began, whose angles are due at once: a long `dt` may
    /// pass several steps.
    pub fn told(&mut self, angles: JointVec, ended: bool) -> (r: bool)
        requires
            old(self)@.wf(),
        ensures
            final(self)@ == old(self)@.told(angles, ended),
            final(self)@.wf(),
            r == old(self)@.moves_on(ended),
    {
        self.current = angles;
        self.ended = ended;
        if ended && self.index < self.steps.len() - 1 {
            assert(legs(self.steps@)[self.index as int] == self.steps[self.index as int]@);
            self.t = self.t.minus(self.steps[self.index].duration_s);
            self.index = self.index + 1;
            self.from = angles;
            true
        } else {
            false
        }
    }

    /// Lets `dt` pass and gives the target of the moment; `evaluate` is the
    /// interpolation, asked as often as steps end.
    pub fn tick<F: Fn(Query) -> (JointVec, bool)>(&mut self, dt: Double, evaluate: F) -> (r: JointVec)
        requires
            old(self)@.wf(),
            forall|q: Query| #[trigger] call_requires(evaluate, (q,)),
        ensures
            final(self)@.wf(),
            final(self)@.steps == old(self)@.steps,
            r == final(self)@.current,
            forall|shape: spec_fn(Query) -> (JointVec, bool)|
                answers_as(evaluate, shape) ==> final(self)@ == #[trigger] old(self)@.ticked(
                    dt,
                    shape,
                ),
    {
        self.advance(dt);
        let ghost start = self@;
        let mut due: bool = true;
        while due
            invariant
                self@.wf(),
                self@.steps == start.steps,
                forall|q: Query| #[trigger] call_requires(evaluate, (q,)),
                forall|shape: spec_fn(Query) -> (JointVec, bool)|
                    answers_as(evaluate, shape) ==> (#[trigger] start.settled(shape)) == if due {
                        self@.settled(shape)
                    } else {
                        self@
                    },
            decreases self@.steps.len() - self@.index + if due { 1int } else { 0int },
        {
            let (angles, ended) = evaluate(self.ask());
            due = self.told(angles, ended);
        }
        self.current
    }

    pub fn is_done(&self) -> (r: bool)
        requires
            self@.wf(),
        ensures
            r == self@.is_done(),
    {
        self.index >= self.steps.len() - 1 && self.ended
    }

    /// The target of the moment.
    pub fn current(&self) -> (r: JointVec)
        ensures
            r == self@.current,
    {
        self.current
    }

    /// The name of the step being played.
    pub fn step_name(&self) -> (r: &str)
        requires
            self@.wf(),
        ensures
            r@ == self@.steps[self@.index as int].name,
    {
        assert(legs(self.steps@)[self.index as int] == self.steps[self.index as int]@);
        self.steps[self.index].name.as_str()
    }
}

proof fn lemma_walk_length(lib: PoseLibrary, steps: Seq<SequenceStep>, n: nat, from: JointVec)
    ensures
        lib.walk(steps, n, from).len() == n,
    decreases n,
{
    if n > 0 {
        lemma_walk_length(lib, steps, (n - 1) as nat, from);
    }
}

/// A joint that a pose does not name keeps its value.
pub proof fn law_an_unlisted_joint_keeps_its_value(angles: Seq<(String, Double)>, current: JointVec, name: Seq<char>)
    requires
        forall|i: int| 0 <= i < angles.len() ==> (#[trigger] angles[i]).0@ != name,
    ensures
        overlaid(angles, current).named(name) == current.named(name),
    decreases angles.len(),
{
    if angles.len() > 0 {
        let front = angles.drop_last();
        assert forall|i: int| 0 <= i < front.len() implies (#[trigger] front[i]).0@ != name by {
            assert(front[i] == angles[i]);
        }
        law_an_unlisted_joint_keeps_its_value(front, current, name);
        let q = overlaid(front, current);
        let last = angles.last();
        assert(last == angles[angles.len() - 1]);
        if q.named(last.0@) is Some && q.named(name) is Some {
            lemma_names_tell_joints_apart(last.0@, name);
            crate::control::jointvec::law_set_then_get(q, last.0@, last.1, name);
        }
    }
}

/// Two known names are one joint only if they are one name.
proof fn lemma_names_tell_joints_apart(a: Seq<char>, b: Seq<char>)
    requires
        JointVec::zero().named(a) is Some,
        JointVec::zero().named(b) is Some,
        a != b,
    ensures
        crate::hal::joint::joint_named(a) != crate::hal::joint::joint_named(b) || (a
            == crate::hal::joint::ARM_JOINT_NAME@) != (b == crate::hal::joint::ARM_JOINT_NAME@),
{
    if let Some((leg, k)) = crate::hal::joint::joint_named(a) {
        if let Some((l, j)) = crate::hal::joint::joint_named(b) {
            if leg == l && k == j {
                assert(crate::hal::joint::is_named(a, leg, k));
                assert(crate::hal::joint::is_named(b, l, j));
            }
        }
    }
}

/// A play starts at the angles that it was started from, toward its first target.
pub proof fn law_a_play_starts_where_it_was_started(steps: Seq<Leg>, from: JointVec, dt: Double)
    requires
        steps.len() > 0,
    ensures
        ({
            let p = Play::fresh(steps, from);
            &&& p.query().from == from
            &&& p.query().to == steps[0].target
            &&& p.query().duration_s == steps[0].duration_s
            &&& p.query().kind == steps[0].kind
            &&& p.query().t == double(0)
            &&& p.later(dt).query() == (Query { t: double(0).plus(dt), ..p.query() })
            &&& !steps[0].duration_s.is_equal(double(0)) ==> p.current == from && !p.is_done()
            &&& steps[0].duration_s.is_equal(double(0)) ==> p.current == steps[0].target && p.is_done() == (
            steps.len() == 1)
        }),
{
}

/// When a step ends and another follows, the next one starts at the angles at which the
/// step arrived, with the time that is left over, so that what is played does not jump.
/// Otherwise the way stays the same. Either way the angles that were told are the target
/// of the moment.
pub proof fn law_a_step_starts_where_the_last_one_arrived(p: Play, angles: JointVec, ended: bool)
    requires
        p.index < p.steps.len(),
    ensures
        ({
            let next = p.told(angles, ended);
            &&& next.current == angles
            &&& next.steps == p.steps
            &&& if ended && p.index + 1 < p.steps.len() {
                let step = p.steps[p.index as int + 1];
                &&& next.query() == (Query {
                    from: angles,
                    to: step.target,
                    duration_s: step.duration_s,
                    kind: step.kind,
                    t: p.query().t.minus(p.query().duration_s),
                })
                &&& next.index == p.index + 1
            } else {
                &&& next.query() == p.query()
                &&& next.is_done() == (ended && p.index + 1 == p.steps.len())
            }
        }),
{
}

/// With an interpolation that begins at its start and ends at its target, a step that
/// ends leads on without a jump: at the moment of the change the next step is asked for
/// where the last one arrived.
pub proof fn law_what_is_played_is_continuous(p: Play, shape: spec_fn(Query) -> (JointVec, bool))
    requires
        p.index < p.steps.len(),
        p.index + 1 < p.steps.len(),
        shape(p.query()).1,
        forall|q: Query| q.t == double(0) ==> (#[trigger] shape(q)).0 == q.from,
        p.query().t.minus(p.query().duration_s) == double(0),
    ensures
        ({
            let (angles, ended) = shape(p.query());
            shape(p.told(angles, ended).query()).0 == angles
        }),
{
    let (angles, ended) = shape(p.query());
    law_a_step_starts_where_the_last_one_arrived(p, angles, ended);
}

/// A joint that a pose names gets the angle that the pose names last for it.
pub proof fn law_a_listed_joint_gets_its_value(
    angles: Seq<(String, Double)>,
    current: JointVec,
    i: int,
)
    requires
        0 <= i < angles.len(),
        current.named(angles[i].0@) is Some,
        forall|j: int| i < j < angles.len() ==> (#[trigger] angles[j]).0@ != angles[i].0@,
    ensures
        overlaid(angles, current).named(angles[i].0@) == Some(angles[i].1),
    decreases angles.len(),
{
    let front = angles.drop_last();
    let q = overlaid(front, current);
    let last = angles.last();
    let name = angles[i].0@;
    lemma_overlaid_names(front, current, name);
    if i == angles.len() - 1 {
        crate::control::jointvec::law_set_then_get(q, name, last.1, name);
    } else {
        assert forall|j: int| i < j < front.len() implies (#[trigger] front[j]).0@ != front[i].0@ by {
            assert(front[j] == angles[j]);
        }
        law_a_listed_joint_gets_its_value(front, current, i);
        assert(last == angles[angles.len() - 1]);
        if q.named(last.0@) is Some {
            lemma_names_tell_joints_apart(last.0@, name);
            crate::control::jointvec::law_set_then_get(q, last.0@, last.1, name);
        }
    }
}

/// Laying a pose over angles changes no name.
proof fn lemma_overlaid_names(angles: Seq<(String, Double)>, current: JointVec, name: Seq<char>)
    ensures
        (overlaid(angles, current).named(name) is Some) == (current.named(name) is Some),
{
}

/// A name means the first pose that has it.
pub proof fn law_a_name_means_the_first_pose_of_it(lib: PoseLibrary, name: Seq<char>, i: int)
    requires
        0 <= i < lib.poses.len(),
        lib.poses[i].name@ == name,
        forall|j: int| 0 <= j < i ==> (#[trigger] lib.poses[j]).name@ != name,
    ensures
        lib.find_pose(name) == Some(lib.poses[i]),
{
    assert(lib.first_pose(name, i));
    let k = choose|k: int| lib.first_pose(name, k);
    if k < i {
        assert(lib.poses[k].name@ != name);
    }
    if i < k {
        assert(lib.poses[i].name@ != name);
    }
}

/// A name means the first sequence that has it.
pub proof fn law_a_name_means_the_first_sequence_of_it(lib: PoseLibrary, name: Seq<char>, i: int)
    requires
        0 <= i < lib.sequences.len(),
        lib.sequences[i].name@ == name,
        forall|j: int| 0 <= j < i ==> (#[trigger] lib.sequences[j]).name@ != name,
    ensures
        lib.find_sequence(name) == Some(lib.sequences[i]),
{
    assert(lib.first_sequence(name, i));
    let k = choose|k: int| lib.first_sequence(name, k);
    if k < i {
        assert(lib.sequences[k].name@ != name);
    }
    if i < k {
        assert(lib.sequences[i].name@ != name);
    }
}

/// Whether a span is the one that was configured, or none where that is not positive.
pub open spec fn lasts(span: Double, configured: Double) -> bool {
    if double(0).is_below(configured) {
        span == configured
    } else {
        span.is_equal(double(0))
    }
}

/// What a name means is planned as the model says: a sequence before a pose, step by
/// step, each step from where the one before it leads, over its own time and in its own
/// shape. A name that means neither, a sequence without steps and one that names a
/// missing pose mean nothing.
pub proof fn law_a_name_is_planned_as_the_model_says(lib: PoseLibrary, name: Seq<char>, from: JointVec)
    ensures
        match lib.find_sequence(name) {
            Some(sequence) => {
                let steps = sequence.steps@;
                &&& lib.planned(name, from) is None <==> (steps.len() == 0 || exists|i: int|
                    0 <= i < steps.len() && lib.find_pose((#[trigger] steps[i]).pose_name@) is None)
                &&& lib.planned(name, from) matches Some(plan) ==> {
                    &&& plan.len() == steps.len()
                    &&& forall|i: int|
                        0 <= i < steps.len() ==> {
                            let start = if i == 0 { from } else { plan[i - 1].target };
                            &&& (#[trigger] plan[i]).name == steps[i].pose_name@
                            &&& plan[i].target == overlaid(
                                lib.find_pose(steps[i].pose_name@)->Some_0.angles@,
                                start,
                            )
                            &&& lasts(plan[i].duration_s, steps[i].duration)
                            &&& plan[i].kind == steps[i].kind
                        }
                }
            },
            None => match lib.find_pose(name) {
                Some(pose) => lib.planned(name, from) matches Some(plan) && {
                    &&& plan.len() == 1
                    &&& plan[0].name == name
                    &&& plan[0].target == overlaid(pose.angles@, from)
                    &&& lasts(plan[0].duration_s, pose.duration)
                    &&& plan[0].kind == pose.kind
                },
                None => lib.planned(name, from) is None,
            },
        },
{
    crate::double::lemma_scale_of_zero();
    if let Some(sequence) = lib.find_sequence(name) {
        let steps = sequence.steps@;
        lemma_walk_steps(lib, steps, steps.len(), from);
        if exists|i: int| 0 <= i < steps.len() && lib.find_pose((#[trigger] steps[i]).pose_name@) is None {
            let i = choose|i: int|
                0 <= i < steps.len() && lib.find_pose((#[trigger] steps[i]).pose_name@) is None;
            lemma_some_ghost(lib, steps, i);
        }
    }
}

proof fn lemma_some_ghost(lib: PoseLibrary, steps: Seq<SequenceStep>, i: int)
    requires
        0 <= i < steps.len(),
        lib.find_pose(steps[i].pose_name@) is None,
    ensures
        exists|k: int| lib.first_ghost(steps, k),
    decreases i,
{
    if exists|j: int| 0 <= j < i && lib.find_pose((#[trigger] steps[j]).pose_name@) is None {
        let j = choose|j: int|
            0 <= j < i && lib.find_pose((#[trigger] steps[j]).pose_name@) is None;
        lemma_some_ghost(lib, steps, j);
    } else {
        assert(lib.first_ghost(steps, i));
    }
}

proof fn lemma_walk_steps(lib: PoseLibrary, steps: Seq<SequenceStep>, n: nat, from: JointVec)
    requires
        n <= steps.len(),
    ensures
        ({
            let plan = lib.walk(steps, n, from);
            &&& plan.len() == n
            &&& forall|i: int|
                0 <= i < n ==> {
                    let start = if i == 0 { from } else { plan[i - 1].target };
                    &&& (#[trigger] plan[i]).name == steps[i].pose_name@
                    &&& plan[i].target == overlaid(
                        lib.find_pose(steps[i].pose_name@)->Some_0.angles@,
                        start,
                    )
                    &&& lasts(plan[i].duration_s, steps[i].duration)
                    &&& plan[i].kind == steps[i].kind
                }
        }),
    decreases n,
{
    crate::double::lemma_scale_of_zero();
    if n > 0 {
        lemma_walk_steps(lib, steps, (n - 1) as nat, from);
        let before = lib.walk(steps, (n - 1) as nat, from);
        let plan = lib.walk(steps, n, from);
        assert forall|i: int| 0 <= i < n implies {
            let start = if i == 0 { from } else { plan[i - 1].target };
            &&& (#[trigger] plan[i]).name == steps[i].pose_name@
            &&& plan[i].target == overlaid(
                lib.find_pose(steps[i].pose_name@)->Some_0.angles@,
                start,
            )
            &&& lasts(plan[i].duration_s, steps[i].duration)
            &&& plan[i].kind == steps[i].kind
        } by {
            if i < n - 1 {
                assert(plan[i] == before[i]);
                if i > 0 {
                    assert(plan[i - 1] == before[i - 1]);
                }
            } else if n > 1 {
                assert(plan[n - 2] == before[n - 2]);
            }
        }
    }
}

} // verus!
