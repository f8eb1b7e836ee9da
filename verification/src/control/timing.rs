//! That a play comes to its end once its time has passed.
use vstd::prelude::*;

use crate::control::jointvec::JointVec;
use crate::control::pose::{Leg, Play, PoseLibrary, Query, SequenceStep};
use crate::double::{double, lemma_exact_sum, lemma_scale_of_zero, lemma_sum_is_monotone, Double};
use crate::hal::joint::LegSlot;
use crate::measure::{
    bare, eps, lemma_sum_strays, lemma_unit, lemma_worth, lemma_worth_negates, lemma_worth_orders,
    near, tiny, worth,
};
use crate::rounding::{lemma_nearest, lemma_scale_orders, INFINITE};

verus! {

impl JointVec {
    /// Whether the angles are those of another, or each is less than `gap` from its
    /// own.
    pub open spec fn is_by(self, other: JointVec, gap: real) -> bool {
        ||| self == other
        ||| near(self.arm, other.arm, gap) && forall|leg: LegSlot, k: int|
            0 <= k < 3 ==> near(#[trigger] self.legs.of(leg).at(k), other.legs.of(leg).at(k), gap)
    }
}

/// Whether an interpolation ends exactly when its time has passed, and is then at its
/// target, or less than `gap` from it. With a `gap` of zero it is exactly there.
///
/// The interpolation is the caller's, so nothing here shows that one does.
pub open spec fn keeps_time(shape: spec_fn(Query) -> (JointVec, bool), gap: real) -> bool {
    forall|q: Query|
        (#[trigger] shape(q)).1 == q.duration_s.is_at_most(q.t) && (shape(q).1
            ==> shape(q).0.is_by(q.to, gap))
}

/// Whether a span of time is one: finite, and not negative.
pub open spec fn is_span(x: Double) -> bool {
    x.finite() && double(0).is_at_most(x)
}

/// Whether every step has a length.
pub open spec fn timed(steps: Seq<Leg>) -> bool {
    forall|i: int| 0 <= i < steps.len() ==> is_span((#[trigger] steps[i]).duration_s)
}

/// Whether no tick goes back in time; one may last for ever.
pub open spec fn go_on(dts: Seq<Double>) -> bool {
    forall|i: int| 0 <= i < dts.len() ==> double(0).is_at_most(#[trigger] dts[i])
}

/// Whether a tick lasts for ever.
pub open spec fn endless(dts: Seq<Double>) -> bool {
    exists|i: int| 0 <= i < dts.len() && !(#[trigger] dts[i]).finite()
}

/// How long the first `n` steps last (s).
pub open spec fn length(steps: Seq<Leg>, n: nat) -> real
    decreases n,
{
    if n == 0 {
        0real
    } else {
        length(steps, (n - 1) as nat) + worth(steps[n - 1].duration_s)
    }
}

/// How much time passes in all (s).
pub open spec fn total(dts: Seq<Double>) -> real
    decreases dts.len(),
{
    if dts.len() == 0 {
        0real
    } else {
        total(dts.drop_last()) + worth(dts.last())
    }
}

/// What one operation on a time up to `most` may stray by.
pub open spec fn slip(most: real) -> real {
    most * eps() + tiny()
}

/// Whether ticks outlast steps by more than the clock strays, which is by at most
/// [`slip`] in each tick and at each step.
pub open spec fn outlast(dts: Seq<Double>, steps: Seq<Leg>) -> bool {
    ||| endless(dts)
    ||| total(dts) >= length(steps, steps.len()) + (dts.len() + steps.len()) as real * slip(
        total(dts),
    )
}

impl Play {
    /// The play after ticks.
    pub open spec fn after(self, dts: Seq<Double>, shape: spec_fn(Query) -> (JointVec, bool)) -> Play
        decreases dts.len(),
    {
        if dts.len() == 0 {
            self
        } else {
            self.after(dts.drop_last(), shape).ticked(dts.last(), shape)
        }
    }

    /// Whether the play is over and stands at the target of its last step, or less
    /// than `gap` from it.
    pub open spec fn rests(self, gap: real) -> bool {
        &&& self.steps.len() > 0
        &&& self.index == self.steps.len() - 1
        &&& self.is_done()
        &&& self.steps.last().duration_s.is_at_most(self.t)
        &&& self.current.is_by(self.steps.last().target, gap)
    }
}

/// Whether a time is at least `y`; an infinite one is at least anything.
spec fn at_least(t: Double, y: real) -> bool {
    double(0).is_at_most(t) && (t.finite() ==> worth(t) >= y)
}

/// `n` times what one operation strays by.
spec fn slips(n: nat, w: real) -> real {
    n as real * w
}

proof fn lemma_slips(n: nat, w: real)
    ensures
        slips(n + 1, w) == slips(n, w) + w,
        slips(0, w) == 0real,
        w >= 0real ==> slips(n, w) >= 0real,
{
    let x = n as real;
    let y = (n + 1) as real;
    assert(y * w == x * w + w) by (nonlinear_arith)
        requires
            y == x + 1real,
    ;
    assert(0real * w == 0real) by (nonlinear_arith);
    assert(w >= 0real ==> x * w >= 0real) by (nonlinear_arith)
        requires
            x >= 0real,
    ;
}

/// A rounded time is hardly less than the exact one.
proof fn lemma_round_down(r: real, x: real, y: real, most: real)
    requires
        bare(r - x) <= bare(x) * eps() + tiny(),
        x >= 0real,
        x >= y,
        y <= most,
        most >= 0real,
    ensures
        r >= y - slip(most),
{
    lemma_unit();
    let e = eps();
    let t = tiny();
    let xe = x * e;
    assert(0real < e <= 1real / 2real);
    assert(r >= x - xe - t);
    let me = most * e;
    assert(x - xe >= y - me) by (nonlinear_arith)
        requires
            xe == x * e,
            me == most * e,
            x >= 0real,
            x >= y,
            y <= most,
            most >= 0real,
            0real < e <= 1real / 2real,
    ;
}

/// A time that goes on.
proof fn lemma_time_goes_on(t: Double, dt: Double, y: real, most: real)
    requires
        at_least(t, y),
        is_span(dt),
        y + worth(dt) <= most,
        most >= 0real,
    ensures
        at_least(t.plus(dt), y + worth(dt) - slip(most)),
{
    lemma_scale_of_zero();
    lemma_worth(double(0));
    lemma_worth_orders(double(0), t);
    lemma_worth_orders(double(0), dt);
    lemma_sum_is_a_time(t, dt);
    if t.finite() && t.plus(dt).finite() {
        lemma_sum_strays(t, dt);
        lemma_round_down(
            worth(t.plus(dt)),
            worth(t) + worth(dt),
            y + worth(dt),
            most,
        );
    }
}

/// The time that is left after a step.
proof fn lemma_time_is_left(t: Double, span: Double, y: real, most: real)
    requires
        at_least(t, y),
        is_span(span),
        span.is_at_most(t),
        y <= most,
        most >= 0real,
    ensures
        at_least(t.minus(span), y - worth(span) - slip(most)),
{
    lemma_scale_of_zero();
    lemma_worth(double(0));
    lemma_worth_orders(double(0), t);
    lemma_worth_orders(double(0), span);
    lemma_worth_orders(span, t);
    lemma_worth_negates(span);
    lemma_difference_is_a_time(t, span);
    if t.finite() && t.minus(span).finite() {
        lemma_sum_strays(t, span.neg());
        lemma_round_down(
            worth(t.minus(span)),
            worth(t) - worth(span),
            y - worth(span),
            most,
        );
    }
}

proof fn lemma_sum_is_a_time(t: Double, dt: Double)
    requires
        double(0).is_at_most(t),
        double(0).is_at_most(dt),
    ensures
        double(0).is_at_most(t.plus(dt)),
        t.plus(dt).finite() ==> t.finite() && dt.finite(),
{
    reveal(Double::sum);
    lemma_scale_of_zero();
    lemma_scale_orders(0, INFINITE as nat);
    lemma_nearest(crate::double::size(t.value() + dt.value()), 1);
}

proof fn lemma_difference_is_a_time(t: Double, span: Double)
    requires
        is_span(span),
        span.is_at_most(t),
    ensures
        double(0).is_at_most(t.minus(span)),
        t.minus(span).finite() ==> t.finite(),
{
    reveal(Double::sum);
    lemma_scale_of_zero();
    assert(span.neg().value() == -span.value());
    lemma_nearest(crate::double::size(t.value() + span.neg().value()), 1);
}

/// What holds of a play that was told all that was due.
spec fn stands(p: Play, gap: real) -> bool {
    &&& p.wf()
    &&& p.ended == p.steps[p.index as int].duration_s.is_at_most(p.t)
    &&& p.ended ==> p.index == p.steps.len() - 1 && p.current.is_by(
        p.steps[p.index as int].target,
        gap,
    )
}

proof fn lemma_settles(
    p: Play,
    shape: spec_fn(Query) -> (JointVec, bool),
    gap: real,
    y: real,
    most: real,
)
    requires
        p.wf(),
        timed(p.steps),
        keeps_time(shape, gap),
        at_least(p.t, y),
        y <= most,
        most >= 0real,
    ensures
        ({
            let q = p.settled(shape);
            &&& q.steps == p.steps
            &&& q.index >= p.index
            &&& stands(q, gap)
            &&& !p.t.finite() ==> !q.t.finite()
            &&& at_least(
                q.t,
                y - (length(p.steps, q.index) - length(p.steps, p.index)) - slips(
                    (q.index - p.index) as nat,
                    slip(most),
                ),
            )
        }),
    decreases p.steps.len() - p.index,
{
    let (angles, ended) = shape(p.query());
    let w = slip(most);
    lemma_slip(most);
    lemma_slips(0, w);
    let step = p.steps[p.index as int];
    assert(is_span(step.duration_s));
    if p.moves_on(ended) {
        let next = p.told(angles, ended);
        let left = y - worth(step.duration_s) - w;
        lemma_time_is_left(p.t, step.duration_s, y, most);
        lemma_scale_of_zero();
        lemma_worth(double(0));
        lemma_worth_orders(double(0), step.duration_s);
        lemma_difference_is_a_time(p.t, step.duration_s);
        lemma_settles(next, shape, gap, left, most);
        let q = p.settled(shape);
        lemma_slips((q.index - next.index) as nat, w);
        assert((q.index - next.index) as nat + 1 == (q.index - p.index) as nat);
        assert(length(p.steps, next.index) == length(p.steps, p.index) + worth(step.duration_s));
    }
}

proof fn lemma_slip(most: real)
    requires
        most >= 0real,
    ensures
        slip(most) > 0real,
{
    lemma_unit();
    assert(most * eps() >= 0real) by (nonlinear_arith)
        requires
            most >= 0real,
            eps() == 1real / 9007199254740992real,
    ;
}

proof fn lemma_length(steps: Seq<Leg>, n: nat, top: nat)
    requires
        timed(steps),
        n <= top <= steps.len(),
    ensures
        0real <= length(steps, n) <= length(steps, top),
    decreases top,
{
    lemma_scale_of_zero();
    lemma_worth(double(0));
    if n == top {
        if n > 0 {
            lemma_length(steps, (n - 1) as nat, (n - 1) as nat);
            assert(is_span(steps[n - 1].duration_s));
            lemma_worth_orders(double(0), steps[n - 1].duration_s);
        }
    } else {
        lemma_length(steps, n, (top - 1) as nat);
        assert(is_span(steps[top - 1].duration_s));
        lemma_worth_orders(double(0), steps[top - 1].duration_s);
    }
}

/// The play after ticks, whatever their lengths.
proof fn lemma_after_any(
    steps: Seq<Leg>,
    from: JointVec,
    dts: Seq<Double>,
    shape: spec_fn(Query) -> (JointVec, bool),
    gap: real,
)
    requires
        steps.len() > 0,
        timed(steps),
        go_on(dts),
        keeps_time(shape, gap),
    ensures
        ({
            let p = Play::fresh(steps, from).after(dts, shape);
            &&& p.steps == steps
            &&& p.wf()
            &&& dts.len() > 0 ==> stands(p, gap)
            &&& double(0).is_at_most(p.t)
            &&& endless(dts) ==> !p.t.finite()
        }),
    decreases dts.len(),
{
    lemma_scale_of_zero();
    lemma_worth(double(0));
    if dts.len() > 0 {
        let front = dts.drop_last();
        let dt = dts.last();
        lemma_front_goes_on(dts);
        lemma_after_any(steps, from, front, shape, gap);
        let p = Play::fresh(steps, from).after(front, shape);
        lemma_sum_is_a_time(p.t, dt);
        let next = p.later(dt);
        if next.t.finite() {
            lemma_worth_orders(double(0), next.t);
        }
        lemma_settles(next, shape, gap, 0real, 0real);
        if endless(dts) {
            let i = choose|i: int| 0 <= i < dts.len() && !(#[trigger] dts[i]).finite();
            if i < front.len() {
                assert(!front[i].finite());
                assert(endless(front));
            }
        }
    }
}

proof fn lemma_front_goes_on(dts: Seq<Double>)
    requires
        go_on(dts),
        dts.len() > 0,
    ensures
        go_on(dts.drop_last()),
        double(0).is_at_most(dts.last()),
        !endless(dts) ==> !endless(dts.drop_last()) && dts.last().finite(),
{
    let front = dts.drop_last();
    assert forall|i: int| 0 <= i < front.len() implies double(0).is_at_most(#[trigger] front[i]) by {
        assert(front[i] == dts[i]);
    }
    assert(dts.last() == dts[dts.len() - 1]);
    if endless(front) {
        let i = choose|i: int| 0 <= i < front.len() && !(#[trigger] front[i]).finite();
        assert(!dts[i].finite());
    }
}

/// The play after ticks that end.
proof fn lemma_after(
    steps: Seq<Leg>,
    from: JointVec,
    dts: Seq<Double>,
    shape: spec_fn(Query) -> (JointVec, bool),
    gap: real,
    most: real,
)
    requires
        steps.len() > 0,
        timed(steps),
        go_on(dts),
        !endless(dts),
        keeps_time(shape, gap),
        total(dts) <= most,
    ensures
        total(dts) >= 0real,
        ({
            let p = Play::fresh(steps, from).after(dts, shape);
            at_least(
                p.t,
                total(dts) - length(steps, p.index) - slips((dts.len() + p.index) as nat, slip(most)),
            )
        }),
    decreases dts.len(),
{
    lemma_scale_of_zero();
    lemma_worth(double(0));
    if dts.len() == 0 {
        lemma_slips(0, slip(most));
    } else {
        let front = dts.drop_last();
        let dt = dts.last();
        lemma_front_goes_on(dts);
        lemma_worth_orders(double(0), dt);
        lemma_after(steps, from, front, shape, gap, most);
        lemma_after_any(steps, from, front, shape, gap);
        let p = Play::fresh(steps, from).after(front, shape);
        let w = slip(most);
        lemma_slip(most);
        let n = (front.len() + p.index) as nat;
        lemma_slips(n, w);
        lemma_length(steps, 0, p.index);
        let y = total(front) - length(steps, p.index) - slips(n, w);
        lemma_time_goes_on(p.t, dt, y, most);
        let z = y + worth(dt) - w;
        lemma_settles(p.later(dt), shape, gap, z, most);
        let q = p.ticked(dt, shape);
        let gone = (q.index - p.index) as nat;
        lemma_slips_add(n + 1, gone, w);
        assert(n + 1 + gone == (dts.len() + q.index) as nat);
    }
}

proof fn lemma_slips_add(a: nat, b: nat, w: real)
    ensures
        slips(a + b, w) == slips(a, w) + slips(b, w),
{
    let x = a as real;
    let y = b as real;
    let z = (a + b) as real;
    assert(z * w == x * w + y * w) by (nonlinear_arith)
        requires
            z == x + y,
    ;
}

/// A play whose time has passed rests at the target of its last step, however the
/// time was split: in many short ticks, or in one that passes every step.
pub proof fn law_a_play_whose_time_has_passed_rests(
    steps: Seq<Leg>,
    from: JointVec,
    dts: Seq<Double>,
    shape: spec_fn(Query) -> (JointVec, bool),
    gap: real,
)
    requires
        steps.len() > 0,
        timed(steps),
        go_on(dts),
        keeps_time(shape, gap),
        outlast(dts, steps),
    ensures
        Play::fresh(steps, from).after(dts, shape).rests(gap),
{
    lemma_after_any(steps, from, dts, shape, gap);
    let p = Play::fresh(steps, from).after(dts, shape);
    let span = steps[p.index as int].duration_s;
    assert(is_span(span));
    if !endless(dts) {
        let most = total(dts);
        let w = slip(most);
        lemma_after(steps, from, dts, shape, gap, most);
        lemma_slip(most);
        lemma_length(steps, 0, steps.len());
        if dts.len() == 0 {
            let m = (steps.len() - 1) as nat;
            lemma_slips(m, w);
            assert(slips(steps.len(), w) > 0real);
        }
        let n = (dts.len() + p.index) as nat;
        let more = (steps.len() - p.index - 1) as nat;
        lemma_slips(n, w);
        lemma_slips(more, w);
        lemma_slips_add(n + 1, more, w);
        assert(n + 1 + more == dts.len() + steps.len());
        lemma_length(steps, (p.index + 1) as nat, steps.len());
        assert(length(steps, (p.index + 1) as nat) == length(steps, p.index) + worth(span));
    }
    if p.t.finite() {
        lemma_worth_orders(span, p.t);
    } else {
        lemma_scale_orders(span.magnitude(), INFINITE as nat);
        lemma_scale_of_zero();
    }
    assert(span.is_at_most(p.t));
    assert(steps.last() == steps[p.index as int]);
}

/// Over an hour and a million ticks the clock strays by less than a millionth of a
/// second: ticks that are longer than the steps by that much outlast them.
pub proof fn law_a_microsecond_is_enough(dts: Seq<Double>, steps: Seq<Leg>)
    requires
        0real <= total(dts) <= 4096real,
        dts.len() + steps.len() <= 1048576,
        total(dts) >= length(steps, steps.len()) + 1real / 1000000real,
    ensures
        outlast(dts, steps),
{
    lemma_unit();
    let n = (dts.len() + steps.len()) as real;
    let e = eps();
    let t = total(dts);
    let w = t * e + tiny();
    assert(0real <= w <= 4097real * e) by (nonlinear_arith)
        requires
            w == t * e + tiny(),
            0real <= t <= 4096real,
            0real < tiny() <= e * e,
            e == 1real / 9007199254740992real,
    ;
    assert(n * w <= 1048576real * (4097real * e)) by (nonlinear_arith)
        requires
            0real <= n <= 1048576real,
            0real <= w <= 4097real * e,
    ;
    assert(1048576real * (4097real * e) <= 1real / 1000000real) by (nonlinear_arith)
        requires
            e == 1real / 9007199254740992real,
    ;
}

/// A play that rests goes on resting there.
pub proof fn law_a_resting_play_goes_on_resting(
    p: Play,
    dt: Double,
    shape: spec_fn(Query) -> (JointVec, bool),
    gap: real,
)
    requires
        p.rests(gap),
        timed(p.steps),
        double(0).is_at_most(dt),
        keeps_time(shape, gap),
    ensures
        p.ticked(dt, shape).rests(gap),
        p.ticked(dt, shape).steps == p.steps,
{
    let span = p.steps.last().duration_s;
    assert(is_span(p.steps[p.steps.len() - 1].duration_s));
    lemma_scale_of_zero();
    if p.t.finite() && dt.finite() {
        lemma_exact_sum(p.t, double(0), p.t);
        lemma_sum_is_monotone(p.t, double(0), dt);
    } else {
        reveal(Double::sum);
        lemma_scale_orders(span.magnitude(), INFINITE as nat);
    }
    assert(span.is_at_most(p.t.plus(dt)));
}

/// Whatever the model means by a name, once it was started and its time has passed it
/// is over and stands at the target of its last step, however the time was split, and
/// every further tick leaves it so.
pub proof fn law_what_was_started_comes_to_rest(
    lib: PoseLibrary,
    name: Seq<char>,
    from: JointVec,
    dts: Seq<Double>,
    further: Seq<Double>,
    shape: spec_fn(Query) -> (JointVec, bool),
    gap: real,
)
    requires
        lib.planned(name, from) is Some,
        ({
            let steps = lib.planned(name, from)->Some_0;
            &&& forall|i: int| 0 <= i < steps.len() ==> (#[trigger] steps[i]).duration_s.finite()
            &&& outlast(dts, steps)
        }),
        go_on(dts),
        go_on(further),
        keeps_time(shape, gap),
    ensures
        ({
            let steps = lib.planned(name, from)->Some_0;
            let play = Play::fresh(steps, from).after(dts + further, shape);
            &&& play.steps == steps
            &&& play.rests(gap)
            &&& play.is_done()
            &&& play.current.is_by(steps.last().target, gap)
        }),
    decreases further.len(),
{
    let steps = lib.planned(name, from)->Some_0;
    law_no_planned_step_has_a_negative_length(lib, name, from);
    assert(timed(steps)) by {
        assert forall|i: int| 0 <= i < steps.len() implies is_span((#[trigger] steps[i]).duration_s) by {}
    }
    if further.len() == 0 {
        assert(dts + further =~= dts);
        law_a_play_whose_time_has_passed_rests(steps, from, dts, shape, gap);
        lemma_after_any(steps, from, dts, shape, gap);
    } else {
        lemma_front_goes_on(further);
        law_what_was_started_comes_to_rest(
            lib,
            name,
            from,
            dts,
            further.drop_last(),
            shape,
            gap,
        );
        let all = dts + further;
        assert(all.drop_last() =~= dts + further.drop_last());
        assert(all.last() == further.last());
        law_a_resting_play_goes_on_resting(
            Play::fresh(steps, from).after(all.drop_last(), shape),
            all.last(),
            shape,
            gap,
        );
    }
}

/// What is planned has at least one step, and none of negative length, so that its
/// lengths are spans wherever those of the library are finite.
pub proof fn law_no_planned_step_has_a_negative_length(
    lib: PoseLibrary,
    name: Seq<char>,
    from: JointVec,
)
    ensures
        lib.planned(name, from) matches Some(steps) ==> {
            &&& steps.len() > 0
            &&& forall|i: int|
                0 <= i < steps.len() ==> double(0).is_at_most((#[trigger] steps[i]).duration_s)
        },
{
    if let Some(sequence) = lib.find_sequence(name) {
        lemma_walk_is_timed(lib, sequence.steps@, sequence.steps@.len(), from);
    } else if let Some(pose) = lib.find_pose(name) {
        lemma_larger_is_positive(pose.duration);
    }
}

proof fn lemma_walk_is_timed(lib: PoseLibrary, steps: Seq<SequenceStep>, n: nat, from: JointVec)
    ensures
        lib.walk(steps, n, from).len() == n,
        forall|i: int|
            0 <= i < n ==> double(0).is_at_most((#[trigger] lib.walk(steps, n, from)[i]).duration_s),
    decreases n,
{
    if n > 0 {
        lemma_walk_is_timed(lib, steps, (n - 1) as nat, from);
        lemma_larger_is_positive(steps[n - 1].duration);
    }
}

proof fn lemma_larger_is_positive(x: Double)
    ensures
        double(0).is_at_most(x.max(double(0))),
{
    lemma_scale_of_zero();
}

} // verus!
