//! The chicken head: the arm holds its attitude while the body pitches.
//!
//! The arm has one degree of freedom, so only the body's pitch can be cancelled.
//! The output passes a first-order lag, since the raw pitch would make the servo
//! hum:
//!
//! ```text
//! q_arm = base - gain * pitch
//! ```
use vstd::arithmetic::power2::*;
use vstd::prelude::*;

use crate::control::config::PoseConfig;
use crate::double::{double, lemma_scale_of_zero, Double, ONE};
use crate::measure::{bare, lemma_worth, lemma_worth_orders, worth};
use crate::reckon::{
    fine, is_about, lemma_about_difference, lemma_about_product, lemma_about_sum, lemma_constant,
    lemma_quotient_is_near, lemma_stray_is_fine,
};

verus! {

/// The compensator.
#[derive(Debug, Clone, Copy, PartialEq, Eq, Structural)]
pub struct ChickenHead {
    pub base_rad: Double,
    pub gain: Double,
    pub tau_s: Double,
    /// The output: the state of the lag.
    pub q: Double,
}

impl ChickenHead {
    /// Where the output is heading.
    pub open spec fn goal(self, enabled: bool, body_pitch_rad: Double) -> Double {
        if enabled {
            self.base_rad.minus(self.gain.times(body_pitch_rad))
        } else {
            self.base_rad
        }
    }

    /// The share of the way that one step takes.
    pub open spec fn share(self, dt: Double) -> Double {
        if double(0).below(self.tau_s) { dt.over(self.tau_s.plus(dt)) } else { double(ONE) }
    }

    /// The compensator one step later.
    pub open spec fn after(self, enabled: bool, body_pitch_rad: Double, dt: Double) -> ChickenHead {
        let goal = self.goal(enabled, body_pitch_rad);
        ChickenHead {
            q: self.q.plus(
                goal.minus(self.q).times(self.share(dt).clamp(double(0), double(ONE))),
            ),
            ..self
        }
    }

    /// The compensator at its base angle.
    pub open spec fn at_base(self) -> ChickenHead {
        ChickenHead { q: self.base_rad, ..self }
    }

    /// The compensator that a configuration asks for.
    pub open spec fn configured(base_rad: Double, gain: Double, tau_s: Double) -> ChickenHead {
        ChickenHead { base_rad, gain, tau_s: tau_s.max(double(0)), q: base_rad }
    }

    pub fn new(cfg: &PoseConfig) -> (r: ChickenHead)
        ensures
            r == ChickenHead::configured(
                cfg.chicken_head_base_rad,
                cfg.chicken_head_gain,
                cfg.chicken_head_tau_s,
            ),
    {
        ChickenHead {
            base_rad: cfg.chicken_head_base_rad,
            gain: cfg.chicken_head_gain,
            tau_s: cfg.chicken_head_tau_s.max(double(0)),
            q: cfg.chicken_head_base_rad,
        }
    }

    /// One step on; the arm's target. Switched off, it eases back to the base
    /// angle with the same lag, so that the arm does not jump.
    pub fn update(&mut self, enabled: bool, body_pitch_rad: Double, dt: Double) -> (r: Double)
        ensures
            *final(self) == old(self).after(enabled, body_pitch_rad, dt),
            r == final(self).q,
    {
        let goal = if enabled {
            self.base_rad.minus(self.gain.times(body_pitch_rad))
        } else {
            self.base_rad
        };
        let share = if double(0).below(self.tau_s) {
            dt.over(self.tau_s.plus(dt))
        } else {
            double(ONE)
        };
        proof {
            crate::double::lemma_order(double(0), double(ONE));
        }
        self.q = self.q.plus(goal.minus(self.q).times(share.clamp(double(0), double(ONE))));
        self.q
    }

    /// Back to the base angle at once.
    pub fn reset(&mut self)
        ensures
            *final(self) == old(self).at_base(),
    {
        self.q = self.base_rad;
    }

    /// The current output.
    pub fn position(&self) -> (r: Double)
        ensures
            r == self.q,
    {
        self.q
    }
}

/// Where the arm is to be: turned against the body's pitch while the compensation is on,
/// and at its base angle while it is off.
pub open spec fn counter(c: ChickenHead, enabled: bool, pitch: Double) -> real {
    if enabled {
        worth(c.base_rad) - worth(c.gain) * worth(pitch)
    } else {
        worth(c.base_rad)
    }
}

/// The share of its way that a lag takes in `dt`; without a lag all of it.
pub open spec fn lag(c: ChickenHead, dt: Double) -> real {
    if worth(c.tau_s) > 0real { worth(dt) / (worth(c.tau_s) + worth(dt)) } else { 1real }
}

/// In each step the arm goes its share of the way to where it holds its attitude against
/// the body's pitch, or back to its base angle.
pub proof fn law_the_head_holds_its_attitude(c: ChickenHead, enabled: bool, pitch: Double, dt: Double)
    requires
        is_about(c.base_rad, 0real, 100real),
        is_about(c.gain, 0real, 10real),
        is_about(c.q, 0real, 100real),
        is_about(pitch, 0real, 10real),
        c.tau_s.finite() && 0real <= worth(c.tau_s) <= 100real,
        dt.finite() && 1real / 10000real <= worth(dt) <= 1real,
    ensures
        is_about(
            c.after(enabled, pitch, dt).q,
            worth(c.q) + (counter(c, enabled, pitch) - worth(c.q)) * lag(c, dt),
            1real / 100000real,
        ),
        c.after(enabled, pitch, dt).base_rad == c.base_rad,
        c.at_base().q == c.base_rad,
{
    let g = counter(c, enabled, pitch);
    let goal = c.goal(enabled, pitch);
    let (a, p) = (worth(c.gain), worth(pitch));
    assert(bare(a) * bare(p) <= 100real && bare(a * p) <= 100real) by (nonlinear_arith)
        requires
            -10real <= a <= 10real,
            -10real <= p <= 10real,
            bare(a) == if a < 0real { -a } else { a },
            bare(p) == if p < 0real { -p } else { p },
            bare(a * p) == if a * p < 0real { -(a * p) } else { a * p },
    ;
    lemma_about_product(c.gain, a, 0real, pitch, p, 0real);
    assert(bare(a) * 0real == 0real && bare(p) * 0real == 0real && 0real * 0real == 0real)
        by (nonlinear_arith);
    lemma_about_difference(
        c.base_rad,
        worth(c.base_rad),
        0real,
        c.gain.times(pitch),
        a * p,
        fine(),
    );
    assert(is_about(goal, g, 2real * fine()));
    let q = worth(c.q);
    lemma_about_difference(goal, g, 2real * fine(), c.q, q, 0real);
    let way = goal.minus(c.q);
    let share = c.share(dt).clamp(double(0), double(ONE));
    lemma_share(c, dt);
    let d = g - q;
    let s = lag(c, dt);
    assert(bare(d) * bare(s) <= 300real) by (nonlinear_arith)
        requires
            0real <= bare(d) <= 300real,
            0real <= bare(s) <= 1real,
    ;
    lemma_about_product(way, d, 3real * fine(), share, s, 1real / 40000000real);
    assert(bare(d) * (1real / 40000000real) + bare(s) * (3real * fine()) + 3real * fine() * (1real
        / 40000000real) + fine() <= 1real / 125000real) by (nonlinear_arith)
        requires
            0real <= bare(d) <= 300real,
            0real <= bare(s) <= 1real,
            fine() == 1real / 1000000000000real,
    ;
    assert(bare(d * s) <= 300real) by (nonlinear_arith)
        requires
            -300real <= d <= 300real,
            0real <= s <= 1real,
            bare(d * s) == if d * s < 0real { -(d * s) } else { d * s },
    ;
    lemma_about_sum(c.q, q, 0real, way.times(share), d * s, 1real / 125000real);
}

proof fn lemma_share(c: ChickenHead, dt: Double)
    requires
        c.tau_s.finite() && 0real <= worth(c.tau_s) <= 100real,
        dt.finite() && 1real / 10000real <= worth(dt) <= 1real,
    ensures
        is_about(c.share(dt).clamp(double(0), double(ONE)), lag(c, dt), 1real / 40000000real),
        0real <= lag(c, dt) <= 1real,
{
    let zero = double(0);
    let one = double(ONE);
    lemma2_to64();
    lemma2_to64_rest();
    lemma_constant(one, 4503599627370496, 1022, 52);
    assert(pow2(52) as real == 4503599627370496real);
    lemma_scale_of_zero();
    lemma_worth(zero);
    lemma_worth_orders(c.tau_s, zero);
    lemma_worth_orders(zero, c.tau_s);
    lemma_worth_orders(one, zero);
    lemma_worth_orders(one, one);
    if worth(c.tau_s) > 0real {
        let (t, d) = (worth(c.tau_s), worth(dt));
        lemma_about_sum(c.tau_s, t, 0real, dt, d, 0real);
        let sum = c.tau_s.plus(dt);
        let b = worth(sum);
        let w = t + d;
        assert(b >= 1real / 20000real);
        let x = d / b;
        let y = d / w;
        assert(x * b == d && 0real <= x <= 2real) by (nonlinear_arith)
            requires
                x == d / b,
                b >= 1real / 20000real,
                0real <= d,
                d <= 2real * b,
        ;
        assert(y * w == d && 0real <= y <= 1real) by (nonlinear_arith)
            requires
                y == d / w,
                w >= 1real / 20000real,
                0real <= d <= w,
        ;
        lemma_quotient_is_near(dt, sum, x);
        lemma_stray_is_fine(worth(dt.over(sum)), x);
        let z = x - y;
        let h = b - w;
        assert(z * b == -(y * h)) by (nonlinear_arith)
            requires
                x * b == d,
                y * w == d,
                z == x - y,
                h == b - w,
        ;
        assert(bare(y * h) <= fine()) by (nonlinear_arith)
            requires
                0real <= y <= 1real,
                -fine() <= h <= fine(),
                bare(y * h) == if y * h < 0real { -(y * h) } else { y * h },
        ;
        assert(bare(z) <= 20000real * fine()) by (nonlinear_arith)
            requires
                bare(z * b) <= fine(),
                b >= 1real / 20000real,
                bare(z) == if z < 0real { -z } else { z },
                bare(z * b) == if z * b < 0real { -(z * b) } else { z * b },
        ;
        let r = dt.over(sum);
        lemma_worth_orders(r, zero);
        lemma_worth_orders(zero, r);
        lemma_worth_orders(one, r);
        lemma_worth_orders(r, one);
    }
}

} // verus!
