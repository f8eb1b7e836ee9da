//! What a chain of roundings comes to, in real numbers.
//!
//! A law about a computed number says which real number it is about, and by how much
//! it may miss it.
use vstd::arithmetic::power2::*;
use vstd::prelude::*;

use crate::double::{
    double, lemma_exact_sum, lemma_negation_is_below, lemma_scale_of_zero, lemma_sum_is_monotone,
    seconds_of, whole, Double, BILLION,
};
use crate::measure::{
    bare, eps, lemma_product_strays, lemma_quotient_strays, lemma_sum_is_finite, lemma_sum_strays,
    lemma_unit, lemma_worth, lemma_worth_negates, lemma_worth_orders,
    lemma_whole_strays, strays, tiny, worth,
};
use crate::rounding::{
    lemma_nearest, lemma_nearest_is_exact, lemma_nearest_is_monotone, lemma_scale_of_steps,
    lemma_scale_orders, nearest, scale, FRACTION_SPAN, INFINITE,
};

verus! {

/// Whether a number misses a real number by at most `gap`.
pub open spec fn is_about(x: Double, v: real, gap: real) -> bool {
    x.finite() && bare(worth(x) - v) <= gap
}

/// A trillionth.
pub open spec fn fine() -> real {
    1real / 1000000000000real
}

/// A billionth.
pub open spec fn slack() -> real {
    1real / 1000000000real
}

/// Whether `to` is on the way from `from` to `want`: as far as `reach` goes, and no
/// further than `want`, within a billionth.
pub open spec fn heads_for(from: real, to: real, want: real, reach: real) -> bool {
    if from <= want {
        &&& from <= to <= want + slack()
        &&& to <= from + reach + slack()
        &&& want - slack() <= to || from + reach - slack() <= to
    } else {
        &&& want - slack() <= to <= from
        &&& from - reach - slack() <= to
        &&& to <= want + slack() || to <= from - reach + slack()
    }
}

/// The rounding of an ordinary number is less than a trillionth.
pub proof fn lemma_stray_is_fine(r: real, x: real)
    requires
        strays(r, x),
        bare(x) <= 4100real,
    ensures
        bare(r - x) <= fine(),
{
    lemma_unit();
    let e = eps();
    let t = tiny();
    let s = bare(x);
    assert(s * e + t <= fine()) by (nonlinear_arith)
        requires
            0real <= s <= 4100real,
            t <= e * e,
            e == 1real / 9007199254740992real,
            fine() == 1real / 1000000000000real,
    ;
}

pub proof fn lemma_about_sum(a: Double, u: real, g: real, b: Double, v: real, h: real)
    requires
        is_about(a, u, g),
        is_about(b, v, h),
        bare(u + v) <= 4096real,
        g <= 1real,
        h <= 1real,
    ensures
        is_about(a.plus(b), u + v, g + h + fine()),
{
    lemma_sum_is_finite(a, b);
    lemma_sum_strays(a, b);
    lemma_stray_is_fine(worth(a.plus(b)), worth(a) + worth(b));
}

pub proof fn lemma_about_difference(a: Double, u: real, g: real, b: Double, v: real, h: real)
    requires
        is_about(a, u, g),
        is_about(b, v, h),
        bare(u - v) <= 4096real,
        g <= 1real,
        h <= 1real,
    ensures
        is_about(a.minus(b), u - v, g + h + fine()),
{
    lemma_worth_negates(b);
    lemma_about_sum(a, u, g, b.neg(), -v, h);
}

/// 2^16, as bits.
pub const WIDE: u64 = 0x40f0_0000_0000_0000;

/// What is at most 2^16 rounds to a finite number.
proof fn lemma_wide_is_finite(n: nat, d: nat)
    requires
        d > 0,
        n <= 65536 * pow2(1074) * d,
    ensures
        nearest(n, d) < INFINITE,
{
    lemma2_to64();
    lemma2_to64_rest();
    lemma_scale_of_steps(FRACTION_SPAN as nat, 1038);
    lemma_pow2_adds(52, 1038);
    lemma_pow2_adds(16, 1074);
    assert(scale(WIDE as nat) == 65536 * pow2(1074));
    lemma_nearest_is_exact(WIDE as nat, d);
    let top = scale(WIDE as nat) * d;
    assert(n * d <= top * d) by (nonlinear_arith)
        requires
            n <= top,
    ;
    lemma_nearest_is_monotone(n, d, scale(WIDE as nat) * d, d);
}

/// A product of ordinary size is finite, and strays by its rounding.
pub proof fn lemma_product_is_near(a: Double, b: Double)
    requires
        a.finite(),
        b.finite(),
        bare(worth(a)) * bare(worth(b)) <= 65536real,
    ensures
        a.times(b).finite(),
        strays(worth(a.times(b)), worth(a) * worth(b)),
        bare(worth(a) * worth(b)) == bare(worth(a)) * bare(worth(b)),
{
    lemma_worth(a);
    lemma_worth(b);
    lemma_unit();
    let u = pow2(1074) as real;
    let x = bare(worth(a));
    let y = bare(worth(b));
    let sa = scale(a.magnitude());
    let sb = scale(b.magnitude());
    let n = sa * sb;
    let p = x * y;
    assert(n as real == p * (u * u)) by (nonlinear_arith)
        requires
            n == sa * sb,
            x * u == sa as real,
            y * u == sb as real,
            p == x * y,
    ;
    assert(p * (u * u) <= 65536real * (u * u)) by (nonlinear_arith)
        requires
            p <= 65536real,
            u > 0real,
    ;
    let d = pow2(1074);
    lemma_pow2_pos(1074);
    assert(n <= 65536 * d * d) by (nonlinear_arith)
        requires
            n as real <= 65536real * (u * u),
            u == d as real,
    ;
    reveal(Double::product);
    lemma_wide_is_finite(n, d);
    lemma_product_strays(a, b);
    let r = a.times(b);
    lemma_worth(r);
    let v = worth(a);
    let w = worth(b);
    assert(bare(v * w) == x * y && (v >= 0real && w >= 0real ==> v * w >= 0real) && (v <= 0real && w
        <= 0real ==> v * w >= 0real) && (v >= 0real && w <= 0real ==> v * w <= 0real) && (v <= 0real
        && w >= 0real ==> v * w <= 0real)) by {
        lemma_sizes_multiply(v, w);
    }
}

pub proof fn lemma_sizes_multiply(v: real, w: real)
    ensures
        bare(v * w) == bare(v) * bare(w),
        (v >= 0real && w >= 0real) || (v <= 0real && w <= 0real) ==> v * w >= 0real,
        (v >= 0real && w <= 0real) || (v <= 0real && w >= 0real) ==> v * w <= 0real,
{
    assert((v >= 0real && w >= 0real) || (v <= 0real && w <= 0real) ==> v * w >= 0real)
        by (nonlinear_arith);
    assert((v >= 0real && w <= 0real) || (v <= 0real && w >= 0real) ==> v * w <= 0real)
        by (nonlinear_arith);
    assert((-v) * w == -(v * w) && v * (-w) == -(v * w) && (-v) * (-w) == v * w)
        by (nonlinear_arith);
}

/// What the factors of a product miss, the product misses.
pub proof fn lemma_about_product(a: Double, u: real, g: real, b: Double, v: real, h: real)
    requires
        is_about(a, u, g),
        is_about(b, v, h),
        bare(u) <= 1024real,
        bare(v) <= 1024real,
        bare(u) * bare(v) <= 4000real,
        g <= 1real / 100000real,
        h <= 1real / 100000real,
    ensures
        is_about(a.times(b), u * v, bare(u) * h + bare(v) * g + g * h + fine()),
{
    let x = worth(a);
    let y = worth(b);
    lemma_factors_miss(x, u, g, y, v, h);
    lemma_sizes_multiply(u, v);
    lemma_sizes_multiply(x, y);
    assert(bare(u) * h <= 1024real * (1real / 100000real)) by (nonlinear_arith)
        requires
            0real <= bare(u) <= 1024real,
            0real <= h <= 1real / 100000real,
    ;
    assert(bare(v) * g <= 1024real * (1real / 100000real)) by (nonlinear_arith)
        requires
            0real <= bare(v) <= 1024real,
            0real <= g <= 1real / 100000real,
    ;
    assert(g * h <= 1real) by (nonlinear_arith)
        requires
            0real <= g <= 1real / 100000real,
            0real <= h <= 1real / 100000real,
    ;
    assert(bare(x * y) <= 4100real);
    lemma_product_is_near(a, b);
    lemma_stray_is_fine(worth(a.times(b)), x * y);
}

proof fn lemma_factors_miss(x: real, u: real, g: real, y: real, v: real, h: real)
    requires
        bare(x - u) <= g,
        bare(y - v) <= h,
    ensures
        bare(x * y - u * v) <= bare(u) * h + bare(v) * g + g * h,
{
    let p = x - u;
    let q = y - v;
    assert(x * y - u * v == u * q + v * p + p * q) by (nonlinear_arith)
        requires
            p == x - u,
            q == y - v,
    ;
    lemma_sizes_multiply(u, q);
    lemma_sizes_multiply(v, p);
    lemma_sizes_multiply(p, q);
    let (bu, bv, bp, bq) = (bare(u), bare(v), bare(p), bare(q));
    assert(bu * bq <= bu * h) by (nonlinear_arith)
        requires
            0real <= bu,
            bq <= h,
    ;
    assert(bv * bp <= bv * g) by (nonlinear_arith)
        requires
            0real <= bv,
            bp <= g,
    ;
    assert(bp * bq <= g * h) by (nonlinear_arith)
        requires
            0real <= bp <= g,
            0real <= bq <= h,
    ;
}

/// A quotient of ordinary size is finite, and strays by its rounding.
pub proof fn lemma_quotient_is_near(a: Double, b: Double, x: real)
    requires
        a.finite(),
        b.finite(),
        worth(b) != 0real,
        x * worth(b) == worth(a),
        bare(x) <= 65536real,
    ensures
        a.over(b).finite(),
        strays(worth(a.over(b)), x),
{
    lemma_worth(a);
    lemma_worth(b);
    lemma_unit();
    lemma_scale_of_zero();
    lemma_scale_orders(0, b.magnitude());
    assert(b.magnitude() > 0);
    let u = pow2(1074) as real;
    let d = pow2(1074);
    let y = bare(worth(b));
    let w = bare(worth(a));
    let q = bare(x);
    lemma_sizes_multiply(x, worth(b));
    assert(q * y == w);
    let sa = scale(a.magnitude());
    let sb = scale(b.magnitude());
    assert(sa as real == q * sb as real) by (nonlinear_arith)
        requires
            w * u == sa as real,
            y * u == sb as real,
            q * y == w,
    ;
    assert(q * sb as real <= 65536real * sb as real) by (nonlinear_arith)
        requires
            q <= 65536real,
            sb as real >= 0real,
    ;
    assert(sa <= 65536 * sb);
    let n = sa * d;
    assert(n <= 65536 * d * sb) by (nonlinear_arith)
        requires
            sa <= 65536 * sb,
            n == sa * d,
    ;
    reveal(Double::quotient);
    lemma_wide_is_finite(n, sb);
    lemma_quotient_strays(a, b, q);
    let r = a.over(b);
    lemma_worth(r);
    let (p, t) = (worth(a), worth(b));
    assert((p >= 0real) == (t > 0real) || p == 0real ==> x >= 0real) by (nonlinear_arith)
        requires
            x * t == p,
            t != 0real,
    ;
    assert((p <= 0real) == (t > 0real) || p == 0real ==> x <= 0real) by (nonlinear_arith)
        requires
            x * t == p,
            t != 0real,
    ;
}

/// A step toward a number reaches as far as it may.
pub proof fn lemma_heads_for(from: Double, want: Double, step: Double, reach: real)
    requires
        from.finite() && bare(worth(from)) <= 1024real,
        want.finite() && bare(worth(want)) <= 1024real,
        !step.nan() && !step.negative(),
        (step.finite() && bare(worth(step) - reach) <= slack() / 10real) || (reach >= 3000real && (
        step.infinite() || worth(step) >= 2900real)),
    ensures
        ({
            let to = from.plus(want.minus(from).clamp(step.neg(), step));
            to.finite() && heads_for(worth(from), worth(to), worth(want), reach)
        }),
{
    let f = worth(from);
    let w = worth(want);
    let gap = want.minus(from);
    lemma_about_difference(want, w, 0real, from, f, 0real);
    lemma_scale_of_zero();
    lemma_scale_orders(step.magnitude(), INFINITE as nat);
    lemma_scale_orders(gap.magnitude(), INFINITE as nat);
    lemma_negation_is_below(step);
    lemma_worth(step);
    lemma_worth_negates(step);
    lemma_worth_orders(gap, step);
    lemma_worth_orders(step.neg(), gap);
    lemma_worth_orders(step, gap);
    lemma_worth_orders(gap, step.neg());
    lemma_difference_keeps_its_side(want, from);
    let held = gap.clamp(step.neg(), step);
    assert(held.finite());
    let h = worth(held);
    assert(held == gap || held == step || held == step.neg());
    let to = from.plus(held);
    assert(bare(h) <= bare(worth(gap)));
    lemma_about_sum(from, f, 0real, held, h, 0real);
    lemma_sum_keeps_its_side(from, held);
}

/// A difference is on the side of the exact one.
proof fn lemma_difference_keeps_its_side(a: Double, b: Double)
    requires
        a.finite(),
        b.finite(),
    ensures
        worth(b) <= worth(a) ==> worth(a.minus(b)) >= 0real,
        worth(a) <= worth(b) ==> worth(a.minus(b)) <= 0real,
{
    lemma_worth_orders(a, b);
    lemma_worth_orders(b, a);
    reveal(Double::sum);
    assert(b.neg().value() == -b.value());
    lemma_scale_of_zero();
    lemma_worth(a.minus(b));
    let exact = a.value() + b.neg().value();
    lemma_nearest(crate::double::size(exact), 1);
}

/// Adding what is not negative does not lessen, and the other way round.
proof fn lemma_sum_keeps_its_side(a: Double, b: Double)
    requires
        a.finite(),
        b.finite(),
        a.plus(b).finite(),
    ensures
        worth(b) >= 0real ==> worth(a) <= worth(a.plus(b)),
        worth(b) <= 0real ==> worth(a.plus(b)) <= worth(a),
{
    let zero = double(0);
    lemma_scale_of_zero();
    lemma_worth(zero);
    lemma_worth_orders(zero, b);
    lemma_worth_orders(b, zero);
    lemma_exact_sum(a, zero, a);
    lemma_worth_orders(a, a.plus(b));
    lemma_worth_orders(a.plus(b), a);
    if worth(b) >= 0real {
        lemma_sum_is_monotone(a, zero, b);
    }
    if worth(b) <= 0real {
        lemma_sum_is_monotone(a, b, zero);
    }
}

/// The sign of a product is that of its factors taken together.
pub proof fn lemma_product_sign(a: Double, b: Double)
    requires
        a.finite(),
        b.finite(),
    ensures
        a.times(b).negative() == (a.negative() != b.negative()),
        !a.times(b).nan(),
{
    reveal(Double::product);
    lemma_pow2_pos(1074);
    lemma_nearest(scale(a.magnitude()) * scale(b.magnitude()), pow2(1074));
}

/// The sign of a quotient is that of its parts taken together.
pub proof fn lemma_quotient_sign(a: Double, b: Double)
    requires
        a.finite(),
        b.finite(),
        b.magnitude() > 0,
    ensures
        a.over(b).negative() == (a.negative() != b.negative()),
        !a.over(b).nan(),
{
    reveal(Double::quotient);
    lemma_scale_of_zero();
    lemma_scale_orders(0, b.magnitude());
    lemma_nearest(scale(a.magnitude()) * pow2(1074), scale(b.magnitude()));
}

/// The worth of a number that is written as bits: `k` parts of 2^-p.
pub proof fn lemma_constant(x: Double, k: nat, e: nat, p: nat)
    requires
        !x.negative(),
        x.magnitude() == k + e * FRACTION_SPAN as nat,
        FRACTION_SPAN <= k < 2 * FRACTION_SPAN,
        e + p == 1074,
    ensures
        worth(x) * pow2(p) as real == k as real,
{
    lemma_scale_of_steps(k, e);
    lemma_pow2_adds(e, p);
    lemma_pow2_pos(e);
    lemma_worth(x);
    let (a, b, c) = (pow2(e), pow2(p), pow2(1074));
    let w = worth(x);
    assert(c as real == a as real * b as real) by (nonlinear_arith)
        requires
            c == a * b,
    ;
    assert((k * a) as real == k as real * a as real) by (nonlinear_arith);
    assert(w * b as real == k as real) by (nonlinear_arith)
        requires
            w * c as real == k as real * a as real,
            c as real == a as real * b as real,
            a as real > 0real,
    ;
}

/// A small whole number is itself.
pub proof fn lemma_whole_is_near(n: nat)
    requires
        n <= 4096,
    ensures
        is_about(whole(n), n as real, fine()),
        !whole(n).negative(),
{
    lemma_whole_strays(n);
    lemma_stray_is_fine(worth(whole(n)), n as real);
}

/// A span of nanoseconds in seconds is a billionth of it, within a hundred-billionth.
pub proof fn lemma_seconds_are_near(ns: nat)
    requires
        ns <= 4_000_000_000_000,
    ensures
        is_about(seconds_of(ns), ns as real / 1000000000real, slack() / 100real),
        !seconds_of(ns).negative(),
{
    let s = ns / 1_000_000_000;
    let m = ns % 1_000_000_000;
    let b = double(BILLION);
    lemma_whole_is_near(s);
    lemma_whole_strays(m);
    lemma2_to64();
    lemma2_to64_rest();
    lemma_constant(b, 8388608000000000, 1051, 23);
    assert(pow2(23) as real == 8388608real);
    let w = worth(b);
    assert(w == 1000000000real);
    lemma_unit();
    let e = eps();
    let t = tiny();
    let q = worth(whole(m));
    let x = q / w;
    assert(x * w == q) by (nonlinear_arith)
        requires
            x == q / w,
            w == 1000000000real,
    ;
    let z = m as real / 1000000000real;
    assert(bare(q - m as real) <= m as real * e + t);
    assert(m as real * e + t <= 1real) by (nonlinear_arith)
        requires
            0real <= m as real <= 1000000000real,
            t <= e * e,
            e == 1real / 9007199254740992real,
    ;
    assert(bare(q - m as real) <= 1real / 1000000real) by (nonlinear_arith)
        requires
            bare(q - m as real) <= m as real * e + t,
            0real <= m as real <= 1000000000real,
            t <= e * e,
            e == 1real / 9007199254740992real,
    ;
    assert(bare(x) <= 2real);
    lemma_quotient_is_near(whole(m), b, x);
    lemma_stray_is_fine(worth(whole(m).over(b)), x);
    lemma_about_sum(whole(s), s as real, fine(), whole(m).over(b), z, slack() / 1000real);
    lemma_scale_of_zero();
    lemma_quotient_sign(whole(m), b);
    lemma_sum_is_positive(whole(s), whole(m).over(b));
}

/// The sum of two numbers that are not negative is not negative.
proof fn lemma_sum_is_positive(a: Double, b: Double)
    requires
        a.finite() && !a.negative(),
        b.finite() && !b.negative(),
    ensures
        !a.plus(b).negative(),
{
    reveal(Double::sum);
    lemma_scale_of_zero();
    lemma_nearest(crate::double::size(a.value() + b.value()), 1);
}

} // verus!
