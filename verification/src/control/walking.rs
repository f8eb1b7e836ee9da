//! What a tick of the machine is for: that the operator's speeds reach the gait, and
//! that a wish leads from mode to mode.
use vstd::prelude::*;

use crate::control::controller::{
    arm_aimed, creeps, finished, goes_on, greets, heads_back, play_ticked, question, ramp_reach,
    ramp_step, ramps, runs, runs_active, runs_play, runs_relaxed, sets_out, starts, steps_on, waits_for,
    walked, Answer, Ask, ControlOutput, Core, GaitReport, Mind, Setup, State, Tick, Waiting, Warnings,
    CREEP_M_S, SETTLE_TIMEOUT_S,
};
use crate::control::jointvec::JointVec;
use crate::control::pose::{overlaid, Play, Query};
use crate::control::robot::{model_joints, GaitType, VelocityCmd};
use crate::control::teleop::GaitSelect;
use crate::double::{double, lemma_scale_of_zero, Double};
use crate::hal::joint::JointMode;
use crate::measure::{bare, lemma_worth, lemma_worth_negates, lemma_worth_orders, worth};
use crate::reckon::{
    heads_for, is_about, lemma_constant, lemma_heads_for, lemma_product_is_near, lemma_product_sign,
    lemma_quotient_is_near, lemma_quotient_sign, slack,
};

verus! {

/// Whether a tick of the gait is to take a step at the operator's speed.
pub open spec fn is_to_walk(m: Mind, tick: Tick) -> bool {
    &&& m.core.state is Active
    &&& tick.cmd.mode is Walk
    &&& !tick.cmd.play_pose
}

/// While the operator walks the robot, each tick asks the gait for one step: over the
/// tick's own time, with the body's own roll and pitch, at the standing height and what
/// the operator adds to it. Without a ramp the speeds are the operator's, each on its
/// own axis.
pub proof fn law_the_gait_is_handed_the_operators_speeds(setup: Setup, m: Mind, tick: Tick)
    requires
        is_to_walk(m, tick),
    ensures
        question(setup, starts(setup, m, tick)) matches Ask::Walk { height_m, velocity, roll, pitch, dt }
            && {
            &&& height_m == setup.gait.stance_height_m.plus(tick.cmd.height_offset_m)
            &&& roll == tick.roll
            &&& pitch == tick.pitch
            &&& dt == tick.dt
            &&& setup.gait.velocity_ramp_s.is_at_most(double(0)) ==> {
                &&& velocity.vx == tick.cmd.vx_m_s
                &&& velocity.vy == tick.cmd.vy_m_s
                &&& velocity.wz == tick.cmd.wz_rad_s
            }
        },
        starts(setup, m, tick).core.state is Active,
        starts(setup, m, tick).core.targets == m.core.targets,
{
    reveal(runs);
    reveal(runs_active);
    reveal(steps_on);
    reveal(ramps);
}

/// Whether a ramp of ordinary size is configured for a speed whose limit is `full`:
/// it reaches the limit in `ramp_s` seconds.
pub open spec fn ramps_ordinarily(full: Double, ramp_s: Double, dt: Double) -> bool {
    &&& full.finite() && bare(worth(full)) <= 1024real
    &&& ramp_s.finite() && worth(ramp_s) > 0real
    &&& dt.finite() && 0real < worth(dt) <= 1real
    &&& bare(worth(full)) <= 16384real * worth(ramp_s)
}

/// How far a speed gets in `dt` if it takes `ramp_s` to its limit.
pub open spec fn gain(full: Double, ramp_s: Double, dt: Double) -> real {
    bare(worth(full)) / worth(ramp_s) * worth(dt)
}

proof fn lemma_ramp_reach(full: Double, ramp_s: Double, dt: Double)
    requires
        ramps_ordinarily(full, ramp_s, dt),
    ensures
        ramp_reach(full, ramp_s, dt).finite(),
        !ramp_reach(full, ramp_s, dt).negative(),
        bare(worth(ramp_reach(full, ramp_s, dt)) - gain(full, ramp_s, dt)) <= slack() / 10real,
{
    let top = full.abs();
    lemma_worth(full);
    lemma_worth(top);
    lemma_worth(ramp_s);
    lemma_worth(dt);
    lemma_worth_negates(full);
    let f = worth(top);
    assert(f == bare(worth(full)));
    let s = worth(ramp_s);
    let d = worth(dt);
    let x = f / s;
    assert(x * s == f && 0real <= x <= 16384real) by (nonlinear_arith)
        requires
            x == f / s,
            s > 0real,
            0real <= f <= 16384real * s,
    ;
    lemma_quotient_is_near(top, ramp_s, x);
    let rate = top.over(ramp_s);
    let r = worth(rate);
    crate::measure::lemma_unit();
    let e = crate::measure::eps();
    assert(x * e + crate::measure::tiny() <= slack() / 100real) by (nonlinear_arith)
        requires
            0real <= x <= 16384real,
            crate::measure::tiny() <= e * e,
            e == 1real / 9007199254740992real,
            slack() == 1real / 1000000000real,
    ;
    assert(bare(r - x) <= slack() / 100real);
    assert(bare(r) <= 16385real);
    assert(bare(r) * bare(d) <= 16385real) by (nonlinear_arith)
        requires
            0real <= bare(r) <= 16385real,
            bare(d) <= 1real,
            0real <= bare(d),
    ;
    lemma_product_is_near(rate, dt);
    let p = worth(rate.times(dt));
    assert(bare(r * d) * e + crate::measure::tiny() <= slack() / 100real) by (nonlinear_arith)
        requires
            0real <= bare(r * d) <= 16385real,
            crate::measure::tiny() <= e * e,
            e == 1real / 9007199254740992real,
            slack() == 1real / 1000000000real,
    ;
    let q = r - x;
    assert(r * d == x * d + q * d) by (nonlinear_arith)
        requires
            q == r - x,
    ;
    assert(bare(q * d) <= slack() / 100real) by (nonlinear_arith)
        requires
            -(slack() / 100real) <= q <= slack() / 100real,
            0real <= d <= 1real,
            bare(q * d) == if q * d < 0real { -(q * d) } else { q * d },
    ;
    assert(gain(full, ramp_s, dt) == x * d);
    lemma_scale_of_zero();
    lemma_quotient_sign(top, ramp_s);
    lemma_product_sign(rate, dt);
}

/// What a ramp makes of a speed.
proof fn lemma_ramp_heads_for(full: Double, ramp_s: Double, dt: Double, want: Double, from: Double)
    requires
        ramps_ordinarily(full, ramp_s, dt),
        from.finite() && bare(worth(from)) <= 1024real,
        want.finite() && bare(worth(want)) <= 1024real,
    ensures
        ramp_step(full, ramp_s, dt, want, from).finite(),
        heads_for(
            worth(from),
            worth(ramp_step(full, ramp_s, dt, want, from)),
            worth(want),
            gain(full, ramp_s, dt),
        ),
{
    lemma_ramp_reach(full, ramp_s, dt);
    lemma_heads_for(from, want, ramp_reach(full, ramp_s, dt), gain(full, ramp_s, dt));
}

/// Whether all three speeds of a tick and of the ramp are of ordinary size.
pub open spec fn speeds_are_ordinary(setup: Setup, m: Mind, tick: Tick) -> bool {
    let g = setup.gait;
    &&& ramps_ordinarily(g.max_vx_m_s, g.velocity_ramp_s, tick.dt)
    &&& ramps_ordinarily(g.max_vy_m_s, g.velocity_ramp_s, tick.dt)
    &&& ramps_ordinarily(g.max_wz_rad_s, g.velocity_ramp_s, tick.dt)
    &&& is_about(m.core.ramped.vx, 0real, 1024real)
    &&& is_about(m.core.ramped.vy, 0real, 1024real)
    &&& is_about(m.core.ramped.wz, 0real, 1024real)
    &&& is_about(tick.cmd.vx_m_s, 0real, 1024real)
    &&& is_about(tick.cmd.vy_m_s, 0real, 1024real)
    &&& is_about(tick.cmd.wz_rad_s, 0real, 1024real)
}

/// With a ramp, each of the three speeds asked of the gait is on the way from its last
/// value to the operator's on the same axis, by what takes it to its own limit in the
/// configured time, and is remembered for the next tick. Where the operator asks for no
/// speed at all the end of the way is the stop, see
/// [`law_the_robot_comes_to_a_stop_on_its_feet`].
pub proof fn law_speeds_are_ramped_axis_by_axis(setup: Setup, m: Mind, tick: Tick)
    requires
        is_to_walk(m, tick),
        speeds_are_ordinary(setup, m, tick),
        worth(tick.cmd.vx_m_s) != 0real || worth(tick.cmd.vy_m_s) != 0real || worth(
            tick.cmd.wz_rad_s,
        ) != 0real,
    ensures
        question(setup, starts(setup, m, tick)) matches Ask::Walk { velocity, .. } && {
            let g = setup.gait;
            let before = m.core.ramped;
            &&& heads_for(
                worth(before.vx),
                worth(velocity.vx),
                worth(tick.cmd.vx_m_s),
                gain(g.max_vx_m_s, g.velocity_ramp_s, tick.dt),
            )
            &&& heads_for(
                worth(before.vy),
                worth(velocity.vy),
                worth(tick.cmd.vy_m_s),
                gain(g.max_vy_m_s, g.velocity_ramp_s, tick.dt),
            )
            &&& heads_for(
                worth(before.wz),
                worth(velocity.wz),
                worth(tick.cmd.wz_rad_s),
                gain(g.max_wz_rad_s, g.velocity_ramp_s, tick.dt),
            )
            &&& starts(setup, m, tick).core.ramped == velocity
        },
{
    let g = setup.gait;
    let cmd = tick.cmd;
    lemma_ramp_heads_for(g.max_vx_m_s, g.velocity_ramp_s, tick.dt, cmd.vx_m_s, m.core.ramped.vx);
    lemma_ramp_heads_for(g.max_vy_m_s, g.velocity_ramp_s, tick.dt, cmd.vy_m_s, m.core.ramped.vy);
    lemma_ramp_heads_for(g.max_wz_rad_s, g.velocity_ramp_s, tick.dt, cmd.wz_rad_s, m.core.ramped.wz);
    let zero = double(0);
    lemma_scale_of_zero();
    lemma_worth(zero);
    lemma_worth_orders(cmd.vx_m_s, zero);
    lemma_worth_orders(cmd.vy_m_s, zero);
    lemma_worth_orders(cmd.wz_rad_s, zero);
    lemma_worth_orders(g.velocity_ramp_s, zero);
    lemma_worth_orders(tick.dt, zero);
    reveal(runs);
    reveal(runs_active);
    reveal(steps_on);
    reveal(ramps);
}

/// Whether all feet are on the ground, as the gait last told.
pub open spec fn is_on_its_feet(m: Mind) -> bool {
    let stance = m.core.body_view.stance;
    stance.fl && stance.fr && stance.rl && stance.rr
}

/// Asked for no speed, the robot slows down on each axis as it speeds up. When no axis
/// is faster than a creep, it stops if all feet are down or two seconds were waited for
/// them; else it creeps forward, and goes on waiting.
pub proof fn law_the_robot_comes_to_a_stop_on_its_feet(setup: Setup, m: Mind, tick: Tick)
    requires
        is_to_walk(m, tick),
        speeds_are_ordinary(setup, m, tick),
        worth(tick.cmd.vx_m_s) == 0real,
        worth(tick.cmd.vy_m_s) == 0real,
        worth(tick.cmd.wz_rad_s) == 0real,
        m.core.settling_s.finite(),
    ensures
        question(setup, starts(setup, m, tick)) matches Ask::Walk { velocity, .. } && exists|
            vx: Double,
            vy: Double,
            wz: Double,
        | #[trigger]
            slows_down(setup, m, tick, vx, vy, wz) && {
                let after = starts(setup, m, tick).core;
                let slow = bare(worth(vx)) <= worth(double(CREEP_M_S)) && bare(worth(vy)) <= worth(
                    double(CREEP_M_S),
                ) && bare(worth(wz)) <= worth(double(CREEP_M_S));
                if !slow {
                    &&& velocity == (VelocityCmd { vx, vy, wz })
                    &&& after.ramped == velocity
                    &&& after.settling_s == double(0)
                } else if is_on_its_feet(m) || worth(double(SETTLE_TIMEOUT_S)) <= worth(
                    m.core.settling_s,
                ) {
                    &&& worth(velocity.vx) == 0real && worth(velocity.vy) == 0real && worth(velocity.wz)
                        == 0real
                    &&& after.ramped == velocity
                    &&& after.settling_s == double(0)
                } else {
                    &&& velocity.vx == double(CREEP_M_S) && worth(velocity.vy) == 0real && worth(
                        velocity.wz,
                    ) == 0real
                    &&& after.ramped == (VelocityCmd { vx, vy, wz })
                    &&& after.settling_s == m.core.settling_s.plus(tick.dt)
                }
            },
{
    let g = setup.gait;
    let cmd = tick.cmd;
    lemma_ramp_heads_for(g.max_vx_m_s, g.velocity_ramp_s, tick.dt, cmd.vx_m_s, m.core.ramped.vx);
    lemma_ramp_heads_for(g.max_vy_m_s, g.velocity_ramp_s, tick.dt, cmd.vy_m_s, m.core.ramped.vy);
    lemma_ramp_heads_for(g.max_wz_rad_s, g.velocity_ramp_s, tick.dt, cmd.wz_rad_s, m.core.ramped.wz);
    let zero = double(0);
    lemma_scale_of_zero();
    lemma_worth(zero);
    lemma_worth_orders(cmd.vx_m_s, zero);
    lemma_worth_orders(cmd.vy_m_s, zero);
    lemma_worth_orders(cmd.wz_rad_s, zero);
    lemma_worth_orders(g.velocity_ramp_s, zero);
    lemma_worth_orders(tick.dt, zero);
    let vx = ramp_step(g.max_vx_m_s, g.velocity_ramp_s, tick.dt, cmd.vx_m_s, m.core.ramped.vx);
    let vy = ramp_step(g.max_vy_m_s, g.velocity_ramp_s, tick.dt, cmd.vy_m_s, m.core.ramped.vy);
    let wz = ramp_step(g.max_wz_rad_s, g.velocity_ramp_s, tick.dt, cmd.wz_rad_s, m.core.ramped.wz);
    lemma_creeps(vx);
    lemma_creeps(vy);
    lemma_creeps(wz);
    lemma_worth_orders(double(SETTLE_TIMEOUT_S), m.core.settling_s);
    reveal(runs);
    reveal(runs_active);
    reveal(steps_on);
    reveal(ramps);
    assert(slows_down(setup, m, tick, vx, vy, wz));
}

/// Whether the speeds are on the way to the operator's, each on its own axis.
pub open spec fn slows_down(setup: Setup, m: Mind, tick: Tick, vx: Double, vy: Double, wz: Double) -> bool {
    let g = setup.gait;
    let before = m.core.ramped;
    &&& heads_for(
        worth(before.vx),
        worth(vx),
        0real,
        gain(g.max_vx_m_s, g.velocity_ramp_s, tick.dt),
    )
    &&& heads_for(
        worth(before.vy),
        worth(vy),
        0real,
        gain(g.max_vy_m_s, g.velocity_ramp_s, tick.dt),
    )
    &&& heads_for(
        worth(before.wz),
        worth(wz),
        0real,
        gain(g.max_wz_rad_s, g.velocity_ramp_s, tick.dt),
    )
}

proof fn lemma_creeps(v: Double)
    requires
        v.finite(),
    ensures
        creeps(v) <==> bare(worth(v)) <= worth(double(CREEP_M_S)),
{
    lemma_worth(v);
    lemma_worth(v.abs());
    lemma_worth_negates(v);
    lemma_worth_orders(v.abs(), double(CREEP_M_S));
    lemma_scale_of_zero();
}

/// A creep is a millimetre a second, and feet are waited for during two seconds.
pub proof fn law_the_robot_creeps_slowly()
    ensures
        is_about(double(CREEP_M_S), 1real / 1000real, slack()),
        worth(double(SETTLE_TIMEOUT_S)) == 2real,
{
    vstd::arithmetic::power2::lemma2_to64();
    vstd::arithmetic::power2::lemma2_to64_rest();
    lemma_constant(double(CREEP_M_S), 4611686018427388, 1012, 62);
    lemma_constant(double(SETTLE_TIMEOUT_S), 4503599627370496, 1023, 51);
    assert(vstd::arithmetic::power2::pow2(62) as real == 4611686018427387904real);
    assert(vstd::arithmetic::power2::pow2(51) as real == 2251799813685248real);
}

/// Whether a tick is over with the legs driven, in a state, with the given targets.
pub open spec fn is_driven(ask: Ask, state: State, targets: JointVec) -> bool {
    ask == Ask::Done(ControlOutput { targets, leg_mode: JointMode::Position, state })
}

/// Whether a smooth transition is about to begin, over the given span; without one, at
/// once.
pub open spec fn glides(m: Mind, from: JointVec, to: JointVec, span: Double) -> bool {
    m.play matches Some(p) && {
        let q = p.query();
        &&& p.steps.len() == 1
        &&& p.index == 0
        &&& q.from == from
        &&& q.to == to
        &&& q.kind is QuinticSmooth
        &&& q.t == double(0)
        &&& if double(0).is_below(span) {
            q.duration_s == span
        } else {
            q.duration_s.is_equal(double(0))
        }
    }
}

/// Whether the operator wants the gait that is there, or the machine is where none is
/// exchanged.
pub open spec fn keeps_the_gait(m: Mind, tick: Tick) -> bool {
    tick.cmd.gait == m.core.gait_select || m.core.state is Active || m.core.state is PlayingPose
}

/// A limp robot that is to stand or walk rises: the legs are driven from where they are
/// to the start pose. Without a start pose it asks for the gait's stance, and rises to
/// that.
pub proof fn law_a_limp_robot_rises_to_its_start_pose(
    setup: Setup,
    m: Mind,
    tick: Tick,
    report: GaitReport,
)
    requires
        m.core.state is Relaxed,
        keeps_the_gait(m, tick),
        !(tick.cmd.mode is Relax),
    ensures
        ({
            let begun = starts(setup, m, tick);
            match setup.poses.find_pose(setup.start_pose@) {
                Some(pose) => {
                    &&& is_driven(question(setup, begun), State::GoingToStart, tick.measured)
                    &&& glides(
                        begun,
                        tick.measured,
                        overlaid(pose.angles@, tick.measured),
                        setup.transition_s,
                    )
                    &&& !begun.core.warnings.start_pose_missing
                },
                None => {
                    let stance = model_joints(report.targets@, setup.signs, tick.measured.arm);
                    let risen = goes_on(setup, begun, Answer::Gait(report));
                    &&& question(setup, begun) == (Ask::Stance { height_m: setup.gait.stance_height_m })
                    &&& begun.core.warnings.start_pose_missing
                    &&& is_driven(question(setup, risen), State::GoingToStart, tick.measured)
                    &&& glides(risen, tick.measured, stance, setup.transition_s)
                },
            }
        }),
{
    reveal(runs);
    reveal(runs_relaxed);
    reveal(sets_out);
    reveal(finished);
    lemma_scale_of_zero();
}

/// A limp robot that is to stay limp is not driven, and its targets are where its
/// joints are.
pub proof fn law_a_limp_robot_stays_limp(setup: Setup, m: Mind, tick: Tick)
    requires
        m.core.state is Relaxed,
        keeps_the_gait(m, tick),
        tick.cmd.mode is Relax,
    ensures
        question(setup, starts(setup, m, tick)) == Ask::Done(
            ControlOutput {
                targets: tick.measured,
                leg_mode: JointMode::Idle,
                state: State::Relaxed,
            },
        ),
{
    reveal(runs);
    reveal(runs_relaxed);
    reveal(finished);
}

/// Each tick of a transition or a play asks for the angles at a time later by the
/// tick, on the way that it is on.
pub proof fn law_a_play_goes_on_with_time(setup: Setup, m: Mind, tick: Tick)
    requires
        m.core.state is GoingToStart || m.core.state is GoingToStance || m.core.state is PlayingPose,
        keeps_the_gait(m, tick),
        m.play is Some,
    ensures
        question(setup, starts(setup, m, tick)) == Ask::Transition(
            Query { t: m.play->Some_0.query().t.plus(tick.dt), ..m.play->Some_0.query() },
        ),
        starts(setup, m, tick).core.state == m.core.state,
{
    reveal(runs);
    reveal(runs_play);
}

/// What a play is told becomes the target of the tick. As long as it is not over the
/// state stays, unless the operator wants the robot limp, or to walk while a pose is
/// played.
pub proof fn law_what_is_played_is_driven(setup: Setup, m: Mind, angles: Vec<Double>, ended: bool)
    requires
        m.core.waiting is Evaluated,
        m.core.state is GoingToStart || m.core.state is GoingToStance || m.core.state is PlayingPose,
        m.play matches Some(p) && p.index < p.steps.len(),
        !(m.core.tick.cmd.mode is Relax),
    ensures
        ({
            let after = goes_on(setup, m, Answer::Angles { angles, ended });
            let at = JointVec::unflat(angles@);
            let p = m.play->Some_0;
            let observed = match m.core.tick.cmd.arm_rad {
                Some(arm) => if m.core.state is PlayingPose && !setup.arm_app_driven {
                    JointVec { arm, ..at }
                } else {
                    at
                },
                None => at,
            };
            if ended && p.index + 1 < p.steps.len() {
                // The next step is due in the same tick.
                &&& question(setup, after) is Transition
                &&& after.core.state == m.core.state
                &&& after.core.targets == at
            } else if !ended && !(m.core.state is PlayingPose && m.core.tick.cmd.mode is Walk) {
                &&& is_driven(question(setup, after), m.core.state, observed)
                &&& after.play is Some
            } else if m.core.state is GoingToStance {
                &&& question(setup, after) is Reset
                &&& after.core.targets == at
            } else if m.core.state is GoingToStart && m.core.tick.cmd.mode is Stand {
                &&& is_driven(question(setup, after), State::HoldingStart, at)
                &&& after.play is None
            } else {
                &&& question(setup, after) == (Ask::Stance { height_m: setup.gait.stance_height_m })
                &&& after.core.targets == if m.core.state is PlayingPose { observed } else { at }
            }
        }),
{
    reveal(play_ticked);
    reveal(finished);
}

/// From the start pose, or from a pose that was played, the robot goes to the stance
/// that the gait told, from where it is; there the gait starts over, and then walks.
pub proof fn law_the_way_to_the_gait_leads_over_its_stance(
    setup: Setup,
    m: Mind,
    tick: Tick,
    report: GaitReport,
)
    requires
        tick.cmd.mode is Walk,
        m.core.tick.cmd.mode is Walk,
    ensures
        m.core.state is HoldingStart && keeps_the_gait(m, tick) ==> {
            let begun = starts(setup, m, tick);
            &&& question(setup, begun) == (Ask::Stance { height_m: setup.gait.stance_height_m })
            &&& begun.core.targets.legs == m.core.targets.legs
        },
        m.core.waiting is StanceToGoTo ==> {
            let after = goes_on(setup, m, Answer::Gait(report));
            &&& is_driven(question(setup, after), State::GoingToStance, m.core.targets)
            &&& glides(
                after,
                m.core.targets,
                model_joints(report.targets@, setup.signs, m.core.targets.arm),
                setup.transition_s,
            )
        },
        m.core.waiting is Reset ==> is_driven(
            question(setup, goes_on(setup, m, Answer::Done)),
            State::Active,
            m.core.targets,
        ),
{
    reveal(runs);
    reveal(sets_out);
    reveal(finished);
    lemma_scale_of_zero();
}

/// Out of the gait the robot goes back to its start pose when it is to stand, from
/// where it is. Without a start pose it stays, and says so.
pub proof fn law_standing_leads_back_to_the_start_pose(setup: Setup, m: Mind, tick: Tick)
    requires
        m.core.state is Active,
        tick.cmd.mode is Stand,
        !tick.cmd.play_pose,
    ensures
        ({
            let begun = starts(setup, m, tick);
            match setup.poses.find_pose(setup.start_pose@) {
                Some(pose) => {
                    &&& is_driven(question(setup, begun), State::GoingToStart, m.core.targets)
                    &&& glides(
                        begun,
                        m.core.targets,
                        overlaid(pose.angles@, m.core.targets),
                        setup.transition_s,
                    )
                },
                None => {
                    &&& is_driven(question(setup, begun), State::Active, m.core.targets)
                    &&& begun.core.warnings.start_pose_missing
                },
            }
        }),
{
    reveal(runs);
    reveal(runs_active);
    reveal(heads_back);
    reveal(sets_out);
    reveal(finished);
    lemma_scale_of_zero();
}

/// The pose switch plays the greeting out of the gait, from where the robot is: the
/// other greeting where that is chosen and has a name. One that the model lacks is
/// refused, and the gait goes on.
pub proof fn law_the_pose_switch_plays_the_greeting(setup: Setup, m: Mind, tick: Tick)
    requires
        m.core.state is Active,
        tick.cmd.play_pose,
        !(tick.cmd.mode is Relax),
    ensures
        ({
            let begun = starts(setup, m, tick);
            let name = if tick.cmd.play_alt && setup.greeting_alt@.len() > 0 {
                setup.greeting_alt@
            } else {
                setup.greeting@
            };
            match setup.poses.planned(name, m.core.targets) {
                Some(steps) => {
                    &&& is_driven(question(setup, begun), State::PlayingPose, m.core.targets)
                    &&& begun.play matches Some(p) && p.steps == steps && p.index == 0 && p.t == double(0)
                        && p.from == m.core.targets
                    &&& !begun.core.warnings.pose_refused
                },
                None => {
                    &&& is_driven(question(setup, begun), State::Active, m.core.targets)
                    &&& begun.core.warnings.pose_refused
                },
            }
        }),
{
    reveal(runs);
    reveal(runs_active);
    reveal(greets);
    reveal(finished);
}

/// Where the operator chooses another gait and no foot is stepping, it is built first:
/// its own footfall pattern and cycle, with the configured heights, by the
/// straight-line planner only for a crawl that is to use it. The tick then goes on as
/// if that gait had always been there.
pub proof fn law_another_gait_is_built_first(setup: Setup, m: Mind, tick: Tick)
    requires
        !keeps_the_gait(m, tick),
    ensures
        ({
            let g = setup.gait;
            let begun = starts(setup, m, tick);
            question(setup, begun) matches Ask::Build(plan) && {
                &&& plan.gait == (match tick.cmd.gait {
                    GaitSelect::Crawl => GaitType::Crawl,
                    GaitSelect::Walk => GaitType::Walk,
                    GaitSelect::Trot => GaitType::Trot,
                })
                &&& (plan.mode is LinearCrawl) == (tick.cmd.gait is Crawl && g.crawl_use_linear)
                &&& plan.cycle_s == (match tick.cmd.gait {
                    GaitSelect::Crawl => g.crawl_cycle_s,
                    GaitSelect::Walk => g.walk_cycle_s,
                    GaitSelect::Trot => g.trot_cycle_s,
                })
                &&& plan.swing_height_m == g.swing_height_m
                &&& plan.stance_height_m == g.stance_height_m
                &&& plan.foot_z_m == g.stance_height_m.neg()
                &&& goes_on(setup, begun, Answer::Done) == starts(
                    setup,
                    Mind {
                        core: Core { gait_select: tick.cmd.gait, warned_body_height: false, ..m.core },
                        ..m
                    },
                    tick,
                )
            }
        }),
{
    let changed = Mind {
        core: Core { gait_select: tick.cmd.gait, warned_body_height: false, ..m.core },
        ..m
    };
    let inner = Core {
        tick,
        before: m.core.state,
        warnings: Warnings::none(),
        waiting: Waiting::Nothing,
        ..changed.core
    };
    assert(starts(setup, changed, tick) == runs(setup, Mind { core: inner, ..m }));
}

/// A step of the gait is driven as the gait told it, joint by joint in the model's
/// signs, and shown where the gait put the body.
pub proof fn law_a_step_is_driven_as_the_gait_told_it(setup: Setup, m: Mind, report: GaitReport)
    requires
        m.core.waiting is Walked,
        m.core.state is Active,
        !(m.core.tick.cmd.mode is Relax),
    ensures
        ({
            let after = goes_on(setup, m, Answer::Gait(report));
            let body = after.core.body_view;
            &&& question(setup, after) matches Ask::Done(out) && {
                &&& out.leg_mode is Position
                &&& out.state is Active
                &&& out.targets.legs == model_joints(report.targets@, setup.signs, double(0)).legs
                &&& !setup.arm_app_driven ==> out.targets.arm == (match m.core.tick.cmd.arm_rad {
                    Some(arm) => arm,
                    None => m.core.targets.arm,
                })
                &&& setup.arm_app_driven ==> out.targets.arm == m.core.chicken.after(
                    m.core.tick.cmd.chicken_head,
                    m.core.tick.pitch,
                    m.core.tick.dt,
                ).q && after.core.chicken.q == out.targets.arm
            }
            &&& body.x == report.x && body.y == report.y && body.yaw == report.yaw
            &&& body.z == setup.gait.stance_height_m.plus(m.core.tick.cmd.height_offset_m)
            &&& body.stance == report.stance
            &&& body.roll.is_equal(double(0)) && body.pitch.is_equal(double(0))
        }),
{
    reveal(walked);
    reveal(arm_aimed);
    reveal(finished);
    let (_, arm) = arm_aimed(setup, m.core);
    crate::control::robot::law_the_gait_does_not_know_the_arm(
        report.targets@,
        setup.signs,
        arm,
        double(0),
    );
}

/// The change of state that is reported is the one since the tick began.
pub proof fn law_a_change_of_state_is_told(setup: Setup, m: Mind, tick: Tick, answer: Answer)
    ensures
        question(setup, starts(setup, m, tick)) matches Ask::Done(out) ==> starts(
            setup,
            m,
            tick,
        ).core.just_changed == (out.state != m.core.state),
        starts(setup, m, tick).core.before == m.core.state,
        !(m.core.waiting is Nothing) ==> (question(setup, goes_on(setup, m, answer)) matches Ask::Done(
            out,
        ) ==> goes_on(setup, m, answer).core.just_changed == (out.state != m.core.before)),
{
    let core = Core {
        tick,
        before: m.core.state,
        warnings: Warnings::none(),
        waiting: Waiting::Nothing,
        ..m.core
    };
    lemma_told_runs(setup, Mind { core, ..m });
    match (m.core.waiting, answer) {
        (Waiting::Built, Answer::Done) => {
            lemma_told_runs(setup, waits_for(m, Waiting::Nothing));
        },
        (Waiting::StanceForStart, Answer::Gait(_)) => {
            lemma_told_out(m);
        },
        (Waiting::StanceToGoTo, Answer::Gait(_)) => {
            lemma_told_out(m);
        },
        (Waiting::Reset, Answer::Done) => {
            reveal(finished);
        },
        (Waiting::Walked, Answer::Gait(report)) => {
            lemma_told_walked(setup, m, report);
        },
        (Waiting::Evaluated, Answer::Angles { angles, ended }) => {
            if let Some(play) = m.play {
                let at = JointVec::unflat(angles@);
                let told = play.told(at, ended);
                let next = Mind { core: Core { targets: at, ..m.core }, play: Some(told) };
                lemma_told_play(setup, next, told.is_done());
            }
        },
        _ => {},
    }
}

/// Whether a change of state is told once the tick is over.
spec fn is_told(before: State, m: Mind) -> bool {
    &&& m.core.before == before
    &&& m.core.waiting is Nothing ==> m.core.just_changed == (m.core.state != before)
}

proof fn lemma_told_out(m: Mind)
    ensures
        forall|play: Play, state: State| is_told(m.core.before, #[trigger] sets_out(m, play, state)),
{
    reveal(sets_out);
    reveal(finished);
}

proof fn lemma_told_play(setup: Setup, m: Mind, done: bool)
    ensures
        is_told(m.core.before, play_ticked(setup, m, done)),
{
    reveal(play_ticked);
    reveal(finished);
}

proof fn lemma_told_walked(setup: Setup, m: Mind, report: GaitReport)
    ensures
        is_told(m.core.before, walked(setup, m, report)),
{
    reveal(walked);
    reveal(arm_aimed);
    reveal(finished);
}

proof fn lemma_told_steps(setup: Setup, m: Mind)
    ensures
        is_told(m.core.before, steps_on(setup, m)),
{
    reveal(steps_on);
    reveal(ramps);
}

proof fn lemma_told_runs(setup: Setup, m: Mind)
    requires
        m.core.waiting is Nothing,
    ensures
        is_told(m.core.before, runs(setup, m)),
{
    reveal(runs);
    match m.core.state {
        State::Relaxed => {
            reveal(runs_relaxed);
            reveal(sets_out);
            reveal(finished);
        },
        State::Active => {
            lemma_told_steps(setup, m);
            reveal(runs_active);
            reveal(greets);
            reveal(heads_back);
            reveal(sets_out);
            reveal(finished);
        },
        State::HoldingStart => {
            reveal(finished);
        },
        _ => {
            reveal(runs_play);
            lemma_told_play(setup, m, true);
        },
    }
}

} // verus!
