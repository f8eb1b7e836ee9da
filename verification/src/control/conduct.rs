//! What can be relied on of the machine, whatever the operator does.
use vstd::prelude::*;

use crate::control::controller::{
    arm_aimed, creeps, finished, goes_on, greets, heads_back, lemma_ramp_step_is_a_number,
    play_ticked, question, ramp_reach, ramp_step, ramps, runs, runs_active, runs_play, runs_relaxed, sets_out,
    starts, steps_on, waits_for, walked, Answer, Ask, Core, GaitReport, Mind, Setup, State, Tick,
    Waiting, Warnings, CREEP_M_S, SETTLE_TIMEOUT_S,
};
use crate::control::jointvec::JointVec;
use crate::control::robot::VelocityCmd;
use crate::double::{double, Double};

verus! {

/// Whether a tick that is over and was to go limp has done so.
pub open spec fn limp_if_asked(asked: bool, m: Mind) -> bool {
    asked && m.core.waiting is Nothing ==> m.core.state is Relaxed
}

proof fn lemma_finished_is_limp()
    ensures
        forall|x: Mind|
            x.core.tick.cmd.mode is Relax ==> (#[trigger] finished(x)).core.state is Relaxed,
{
    reveal(finished);
}

proof fn lemma_play_ticked_is_limp(setup: Setup, m: Mind, done: bool)
    ensures
        limp_if_asked(m.core.tick.cmd.mode is Relax, play_ticked(setup, m, done)),
{
    lemma_finished_is_limp();
    reveal(play_ticked);
}

proof fn lemma_runs_active_is_limp(setup: Setup, m: Mind)
    ensures
        limp_if_asked(m.core.tick.cmd.mode is Relax, runs_active(setup, m)),
{
    lemma_finished_is_limp();
    reveal(runs_active);
    reveal(greets);
    reveal(heads_back);
    reveal(steps_on);
    reveal(sets_out);
}

proof fn lemma_runs_is_limp(setup: Setup, m: Mind)
    ensures
        limp_if_asked(m.core.tick.cmd.mode is Relax, runs(setup, m)),
{
    lemma_finished_is_limp();
    reveal(runs);
    match m.core.state {
        State::Relaxed => {
            reveal(runs_relaxed);
            reveal(sets_out);
        },
        State::Active => {
            lemma_runs_active_is_limp(setup, m);
        },
        State::HoldingStart => {},
        _ => {
            reveal(runs_play);
            lemma_play_ticked_is_limp(setup, m, true);
        },
    }
}

proof fn lemma_walked_is_limp(setup: Setup, m: Mind, report: GaitReport)
    ensures
        limp_if_asked(m.core.tick.cmd.mode is Relax, walked(setup, m, report)),
{
    lemma_finished_is_limp();
    reveal(walked);
    reveal(arm_aimed);
}

/// A wish to go limp is met by the end of the tick, whatever the state was, and the
/// legs are then not driven.
pub proof fn law_relax_takes_effect_from_any_state(setup: Setup, m: Mind, tick: Tick, answer: Answer)
    ensures
        limp_if_asked(tick.cmd.mode is Relax, starts(setup, m, tick)),
        !(m.core.waiting is Nothing) ==> limp_if_asked(
            m.core.tick.cmd.mode is Relax,
            goes_on(setup, m, answer),
        ),
        m.core.waiting is Nothing && m.core.state is Relaxed ==> (question(setup, m) matches Ask::Done(
            out,
        ) && out.leg_mode is Idle),
{
    let core = Core {
        tick,
        before: m.core.state,
        warnings: Warnings::none(),
        waiting: Waiting::Nothing,
        ..m.core
    };
    lemma_runs_is_limp(setup, Mind { core, ..m });
    lemma_runs_is_limp(setup, waits_for(m, Waiting::Nothing));
    lemma_finished_is_limp();
    match (m.core.waiting, answer) {
        (Waiting::StanceForStart, Answer::Gait(report)) => {
            reveal(sets_out);
        },
        (Waiting::StanceToGoTo, Answer::Gait(report)) => {
            reveal(sets_out);
        },
        (Waiting::Walked, Answer::Gait(report)) => {
            lemma_walked_is_limp(setup, m, report);
        },
        (Waiting::Evaluated, Answer::Angles { angles, ended }) => {
            if let Some(play) = m.play {
                let at = JointVec::unflat(angles@);
                let told = play.told(at, ended);
                let next = Mind { core: Core { targets: at, ..m.core }, play: Some(told) };
                lemma_play_ticked_is_limp(setup, next, told.is_done());
            }
        },
        _ => {},
    }
}

/// Whether a tick that found the robot limp has got past the building of a gait, and
/// then has the targets where the joints are.
pub open spec fn at_the_joints(m: Mind) -> bool {
    m.core.waiting is Built || m.core.targets == m.core.tick.measured
}

/// While the robot is limp its targets are where its joints are, so that rising
/// starts there: from the start of the tick, or from when another gait was built, to
/// its end.
pub proof fn law_limp_targets_follow_the_joints(setup: Setup, m: Mind, tick: Tick, answer: Answer)
    requires
        m.core.state is Relaxed,
    ensures
        at_the_joints(starts(setup, m, tick)),
        starts(setup, m, tick).core.tick == tick,
        starts(setup, m, tick).play matches Some(play) ==> m.play is None ==> play.from == tick.measured,
        m.core.waiting is Built || m.core.waiting is StanceForStart ==> {
            let after = goes_on(setup, m, answer);
            &&& at_the_joints(m) ==> at_the_joints(after)
            &&& after.core.tick == m.core.tick
            &&& after.play matches Some(play) ==> m.play is None ==> play.from
                == m.core.tick.measured
        },
{
    reveal(runs);
    reveal(runs_relaxed);
    reveal(sets_out);
    reveal(finished);
}

/// Whether the gait is the same, and none is being built.
spec fn same_gait(before: Mind, m: Mind) -> bool {
    m.core.gait_select == before.core.gait_select && !(m.core.waiting is Built)
}

proof fn lemma_finished_keeps_the_gait()
    ensures
        forall|x: Mind| same_gait(x, #[trigger] finished(x)),
{
    reveal(finished);
}

proof fn lemma_play_ticked_keeps_the_gait(setup: Setup, m: Mind, done: bool)
    ensures
        same_gait(m, play_ticked(setup, m, done)),
{
    lemma_finished_keeps_the_gait();
    reveal(play_ticked);
}

proof fn lemma_steps_on_keeps_the_gait(setup: Setup, m: Mind)
    ensures
        same_gait(m, steps_on(setup, m)),
{
    reveal(steps_on);
    reveal(ramps);
}

proof fn lemma_runs_keeps_the_gait(setup: Setup, m: Mind)
    requires
        !(m.core.waiting is Built),
    ensures
        same_gait(m, runs(setup, m)),
{
    lemma_finished_keeps_the_gait();
    reveal(runs);
    match m.core.state {
        State::Relaxed => {
            reveal(runs_relaxed);
            reveal(sets_out);
        },
        State::Active => {
            lemma_steps_on_keeps_the_gait(setup, m);
            reveal(runs_active);
            reveal(greets);
            reveal(heads_back);
            reveal(sets_out);
        },
        State::HoldingStart => {},
        _ => {
            reveal(runs_play);
            lemma_play_ticked_keeps_the_gait(setup, m, true);
        },
    }
}

proof fn lemma_walked_keeps_the_gait(setup: Setup, m: Mind, report: GaitReport)
    ensures
        same_gait(m, walked(setup, m, report)),
{
    lemma_finished_keeps_the_gait();
    reveal(walked);
    reveal(arm_aimed);
}

/// The gait is never exchanged under stepping feet: not as a tick starts, and not in
/// what follows.
pub proof fn law_the_gait_stays_while_stepping(setup: Setup, m: Mind, tick: Tick, answer: Answer)
    ensures
        m.core.state is Active || m.core.state is PlayingPose ==> {
            let begun = starts(setup, m, tick);
            begun.core.gait_select == m.core.gait_select && !(begun.core.waiting is Built)
        },
        goes_on(setup, m, answer).core.gait_select == m.core.gait_select,
{
    let core = Core {
        tick,
        before: m.core.state,
        warnings: Warnings::none(),
        waiting: Waiting::Nothing,
        ..m.core
    };
    lemma_runs_keeps_the_gait(setup, Mind { core, ..m });
    lemma_runs_keeps_the_gait(setup, waits_for(m, Waiting::Nothing));
    lemma_finished_keeps_the_gait();
    reveal(sets_out);
    match (m.core.waiting, answer) {
        (Waiting::Walked, Answer::Gait(report)) => {
            lemma_walked_keeps_the_gait(setup, m, report);
        },
        (Waiting::Evaluated, Answer::Angles { angles, ended }) => {
            if let Some(play) = m.play {
                let at = JointVec::unflat(angles@);
                let told = play.told(at, ended);
                let next = Mind { core: Core { targets: at, ..m.core }, play: Some(told) };
                lemma_play_ticked_keeps_the_gait(setup, next, told.is_done());
            }
        },
        _ => {},
    }
}

/// Whether the machine is short of the gait: limp, or at or on the way to the start
/// pose, and not about to leave it.
pub open spec fn short_of_the_gait(m: Mind) -> bool {
    &&& m.core.state is Relaxed || m.core.state is GoingToStart || m.core.state is HoldingStart
    &&& !(m.core.waiting is StanceToGoTo) && !(m.core.waiting is Reset) && !(m.core.waiting is Walked)
    &&& m.core.waiting is Evaluated ==> m.core.state is GoingToStart
}

/// As long as the operator only asks to stand, the machine stops at the start pose
/// and never enters the gait.
pub proof fn law_standing_stops_at_the_start_pose(setup: Setup, m: Mind, tick: Tick, answer: Answer)
    requires
        short_of_the_gait(m),
    ensures
        tick.cmd.mode is Stand ==> short_of_the_gait(starts(setup, m, tick)),
        m.core.tick.cmd.mode is Stand ==> short_of_the_gait(goes_on(setup, m, answer)),
{
    reveal(runs);
    reveal(runs_relaxed);
    reveal(runs_play);
    reveal(play_ticked);
    reveal(sets_out);
    reveal(finished);
}

/// Whether the legs of the start pose are held: where they are, and, but for the
/// building of another gait, with the tick over.
pub open spec fn legs_held(setup: Setup, before: Mind, m: Mind) -> bool {
    &&& m.core.state is HoldingStart
    &&& m.core.targets.legs == before.core.targets.legs
    &&& m.core.waiting is Built || (question(setup, m) matches Ask::Done(out) && out.leg_mode
        is Position && out.targets.legs == before.core.targets.legs)
}

/// Holding the start pose moves no leg, whether another gait is built or not.
pub proof fn law_the_start_pose_is_held(setup: Setup, m: Mind, tick: Tick, answer: Answer)
    requires
        m.core.state is HoldingStart,
    ensures
        tick.cmd.mode is Stand ==> legs_held(setup, m, starts(setup, m, tick)),
        m.core.tick.cmd.mode is Stand && m.core.waiting is Built ==> legs_held(
            setup,
            m,
            goes_on(setup, m, answer),
        ),
{
    reveal(runs);
    reveal(finished);
}

/// Where the arm cannot be driven, its target in a step is what was observed, or
/// else what it was.
pub proof fn law_an_undriven_arm_is_only_watched(setup: Setup, m: Mind, report: GaitReport)
    requires
        !setup.arm_app_driven,
    ensures
        arm_aimed(setup, m.core).1 == (match m.core.tick.cmd.arm_rad {
            Some(arm) => arm,
            None => m.core.targets.arm,
        }),
        arm_aimed(setup, m.core).0.chicken == m.core.chicken,
{
    reveal(arm_aimed);
}

/// In one period no speed changes by more than its ramp allows, whichever way it
/// changes.
pub proof fn law_speeds_change_no_faster_than_their_ramp(
    full: Double,
    ramp_s: Double,
    dt: Double,
    want: Double,
    from: Double,
)
    requires
        !ramp_s.at_most(double(0)),
        !dt.at_most(double(0)),
        !ramp_reach(full, ramp_s, dt).nan(),
        from.finite(),
        !want.nan(),
    ensures
        ramp_step(full, ramp_s, dt, want, from).is_at_most(
            from.plus(ramp_reach(full, ramp_s, dt)),
        ),
        from.minus(ramp_reach(full, ramp_s, dt)).is_at_most(
            ramp_step(full, ramp_s, dt, want, from),
        ),
{
    let step = ramp_reach(full, ramp_s, dt);
    lemma_ramp_step_is_a_number(full, ramp_s, dt);
    crate::double::lemma_finite_difference(want, from);
    let held = want.minus(from).clamp(step.neg(), step);
    assert(step.neg().is_at_most(held) && held.is_at_most(step));
    crate::double::lemma_sum_is_monotone(from, held, step);
    crate::double::lemma_sum_is_monotone(from, step.neg(), held);
}

/// The gait is only stopped with all feet down, or after the wait for them has run
/// out, unless no ramp is configured or the ramp itself has come to rest.
pub proof fn law_the_gait_stops_on_its_feet(setup: Setup, core: Core, want: VelocityCmd)
    requires
        !setup.gait.velocity_ramp_s.at_most(double(0)),
        !core.tick.dt.at_most(double(0)),
        want == VelocityCmd::still(),
        !(core.body_view.stance.fl && core.body_view.stance.fr && core.body_view.stance.rl
            && core.body_view.stance.rr),
        !double(SETTLE_TIMEOUT_S).at_most(core.settling_s),
    ensures
        ({
            let (after, speed) = ramps(setup, core, want);
            let slow = creeps(after.ramped.vx) && creeps(after.ramped.vy) && creeps(after.ramped.wz);
            speed == if slow {
                VelocityCmd { vx: double(CREEP_M_S), vy: double(0), wz: double(0) }
            } else {
                after.ramped
            }
        }),
        ramps(setup, core, want).1 != VelocityCmd::still(),
{
    reveal(ramps);
    crate::double::lemma_order(double(0), double(0));
    crate::double::lemma_order(double(0).abs(), double(CREEP_M_S));
    crate::double::lemma_order(double(CREEP_M_S), double(0));
}

} // verus!
