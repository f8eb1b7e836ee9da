//! What the sticks can ask for: never more than their ends, and nothing in the
//! middle.
use vstd::arithmetic::power2::*;
use vstd::prelude::*;

use crate::control::teleop::{
    band_of, banded, eased, expo_of, minus_one, raw_of, sign_of, AxisMap, Teleop, WIDEST_DEADBAND,
};
use crate::double::{
    double, lemma_exact_sum, lemma_order, lemma_scale_of_zero, lemma_unit_product, size, whole, Double,
    ONE,
};
use crate::measure::{
    bare, eps, lemma_sum_is_finite, lemma_sum_strays, lemma_unit, lemma_worth, lemma_worth_negates,
    lemma_worth_orders, near, tiny, worth,
};
use crate::root::root;
use crate::rounding::{
    lemma_nearest, lemma_nearest_is_exact, lemma_nearest_is_monotone, lemma_scale_of_steps,
    lemma_scale_orders, lemma_steps_of, nearest, scale, FRACTION_SPAN,
};

verus! {

/// Whether a number lies between -1 and 1.
pub open spec fn within_one(v: Double) -> bool {
    v.magnitude() <= ONE
}

/// 2^16, as bits.
const BIG: u64 = 0x40f0_0000_0000_0000;

/// 2^17, as bits.
const BIGGER: u64 = 0x4100_0000_0000_0000;

proof fn lemma_scale_of_one()
    ensures
        scale(ONE as nat) == pow2(1074),
        scale((ONE + 1) as nat) == pow2(1074) + pow2(1022),
        scale(BIG as nat) == pow2(1090),
        scale(BIGGER as nat) == pow2(1091),
{
    lemma2_to64();
    lemma2_to64_rest();
    lemma_scale_of_steps(FRACTION_SPAN as nat, 1022);
    lemma_scale_of_steps((FRACTION_SPAN + 1) as nat, 1022);
    lemma_scale_of_steps(FRACTION_SPAN as nat, 1038);
    lemma_scale_of_steps(FRACTION_SPAN as nat, 1039);
    lemma_pow2_adds(52, 1022);
    lemma_pow2_adds(52, 1038);
    lemma_pow2_adds(52, 1039);
    assert((FRACTION_SPAN + 1) as nat * pow2(1022) == FRACTION_SPAN as nat * pow2(1022) + pow2(1022))
        by (nonlinear_arith);
}

/// A product with a number between -1 and 1 is no larger than the other factor.
pub proof fn lemma_product_shrinks(a: Double, b: Double)
    requires
        within_one(b),
        a.finite(),
    ensures
        a.product(b).magnitude() <= a.magnitude(),
        a.product(b).finite(),
{
    reveal(Double::product);
    lemma_scale_of_one();
    lemma_scale_orders(b.magnitude(), ONE as nat);
    lemma_pow2_pos(1074);
    let n = scale(a.magnitude()) * scale(b.magnitude());
    let d = pow2(1074);
    assert(n <= scale(a.magnitude()) * d) by (nonlinear_arith)
        requires
            n == scale(a.magnitude()) * scale(b.magnitude()),
            scale(b.magnitude()) <= d,
    ;
    assert(n * d <= (scale(a.magnitude()) * d) * d) by (nonlinear_arith)
        requires
            n <= scale(a.magnitude()) * d,
    ;
    lemma_nearest_is_monotone(n, d, scale(a.magnitude()) * d, d);
    lemma_nearest_is_exact(a.magnitude(), d);
}

/// A quotient of a number by a larger one is at most 1.
pub proof fn lemma_quotient_shrinks(a: Double, b: Double)
    requires
        a.magnitude() <= b.magnitude(),
        b.finite(),
        b.magnitude() > 0,
    ensures
        within_one(a.quotient(b)),
{
    reveal(Double::quotient);
    lemma_scale_of_one();
    lemma_scale_orders(a.magnitude(), b.magnitude());
    lemma_scale_orders(0, b.magnitude());
    lemma_scale_of_zero();
    let d = scale(b.magnitude());
    let one = pow2(1074);
    let n = scale(a.magnitude()) * one;
    assert(n * d <= (one * d) * d) by (nonlinear_arith)
        requires
            n == scale(a.magnitude()) * one,
            scale(a.magnitude()) <= d,
    ;
    lemma_nearest_is_monotone(n, d, one * d, d);
    lemma_nearest_is_exact(ONE as nat, d);
}

/// The magnitude of a sum of finite numbers is that of the rounded exact sum.
proof fn lemma_sum_magnitude(a: Double, b: Double)
    requires
        a.finite(),
        b.finite(),
    ensures
        a.sum(b).magnitude() == nearest(size(a.value() + b.value()), 1),
        !a.sum(b).nan(),
{
    reveal(Double::sum);
    lemma_nearest(size(a.value() + b.value()), 1);
    lemma_scale_of_zero();
    lemma_nearest_is_exact(0, 1);
}

/// A small integer is a finite number.
proof fn lemma_small_whole(n: nat)
    requires
        n <= 0xffff,
    ensures
        whole(n).magnitude() <= BIG,
        !whole(n).negative(),
{
    lemma_scale_of_one();
    lemma2_to64();
    lemma_pow2_adds(16, 1074);
    assert(n * pow2(1074) <= pow2(1090)) by (nonlinear_arith)
        requires
            n <= pow2(16),
            pow2(1090) == pow2(16) * pow2(1074),
    ;
    lemma_nearest_is_monotone(n * pow2(1074), 1, scale(BIG as nat), 1);
    lemma_nearest_is_exact(BIG as nat, 1);
    assert(scale(BIG as nat) * 1 == scale(BIG as nat));
}

proof fn lemma_bounded_difference(a: Double, b: Double)
    requires
        a.magnitude() <= BIG,
        b.magnitude() <= BIG,
    ensures
        a.difference(b).magnitude() <= BIGGER,
{
    lemma_scale_of_one();
    lemma_scale_orders(a.magnitude(), BIG as nat);
    lemma_scale_orders(b.magnitude(), BIG as nat);
    lemma_pow2_unfold(1091);
    lemma_sum_magnitude(a, b.negation());
    let n = size(a.value() + b.negation().value());
    assert(n <= scale(BIGGER as nat));
    lemma_nearest_is_monotone(n, 1, scale(BIGGER as nat), 1);
    lemma_nearest_is_exact(BIGGER as nat, 1);
    assert(scale(BIGGER as nat) * 1 == scale(BIGGER as nat));
}

/// Where a stick stands is between its ends.
pub proof fn lemma_reading_is_within_one(axis: AxisMap, raw: u16)
    ensures
        within_one(axis.reading(raw)),
{
    let x = whole(raw as nat);
    let center = whole(axis.raw_center as nat);
    let span = axis.span(raw);
    lemma_small_whole(raw as nat);
    lemma_small_whole(axis.raw_center as nat);
    lemma_small_whole(axis.raw_max as nat);
    lemma_small_whole(axis.raw_min as nat);
    lemma_bounded_difference(x, center);
    lemma_bounded_difference(whole(axis.raw_max as nat), center);
    lemma_bounded_difference(center, whole(axis.raw_min as nat));
    let top = if raw >= axis.raw_center {
        whole(axis.raw_max as nat).minus(center)
    } else {
        center.minus(whole(axis.raw_min as nat))
    };
    lemma_order(top, double(ONE));
    assert(span.finite() && span.magnitude() > 0);
    let q = x.minus(center).over(span);
    lemma_quotient_is_a_number(x.minus(center), span);
    lemma_order(q, minus_one());
    lemma_order(double(ONE), q);
    lemma_order(double(ONE), minus_one());
    lemma_order(minus_one(), double(ONE));
}

proof fn lemma_quotient_is_a_number(a: Double, b: Double)
    requires
        a.finite(),
        b.finite(),
        b.magnitude() > 0,
    ensures
        !a.quotient(b).nan(),
{
    reveal(Double::quotient);
    lemma_scale_orders(0, b.magnitude());
    lemma_scale_of_zero();
    lemma_nearest(scale(a.magnitude()) * pow2(1074), scale(b.magnitude()));
}

/// Rounding at most 1 errs by at most half the last place below 1.
proof fn lemma_error_below_one(n: nat)
    requires
        n <= pow2(1074),
    ensures
        scale(nearest(n, 1)) <= n + pow2(1020),
        nearest(n, 1) <= ONE,
{
    lemma_scale_of_one();
    lemma_nearest(n, 1);
    lemma_nearest_is_monotone(n, 1, scale(ONE as nat), 1);
    lemma_nearest_is_exact(ONE as nat, 1);
    assert(scale(ONE as nat) * 1 == scale(ONE as nat));
    let m = nearest(n, 1);
    lemma_scale_of_zero();
    if m > 0 {
        let (k, e) = lemma_steps_of((m - 1) as nat);
        lemma_scale_of_steps(k + 1, e);
        assert(m == k + 1 + e * FRACTION_SPAN as nat);
        assert((k + 1) * pow2(e) == k * pow2(e) + pow2(e)) by (nonlinear_arith);
        assert(e <= 1021) by (nonlinear_arith)
            requires
                e == 0 || (e + 1) * FRACTION_SPAN as nat <= m - 1,
                m - 1 < 1023 * FRACTION_SPAN,
                FRACTION_SPAN > 0,
        ;
        if e < 1021 {
            lemma_pow2_strictly_increases(e, 1021);
        }
        lemma_pow2_unfold(1021);
    }
}

/// What lies less than half the first place above 1 rounds to at most 1.
proof fn lemma_rounds_to_one(n: nat)
    requires
        n <= pow2(1074) + pow2(1020),
    ensures
        nearest(n, 1) <= ONE,
{
    lemma_scale_of_one();
    lemma_nearest(n, 1);
    let m = nearest(n, 1);
    lemma_pow2_unfold(1021);
    lemma_pow2_unfold(1022);
    lemma_pow2_pos(1020);
    if m > ONE {
        lemma_scale_orders(ONE as nat, (m - 1) as nat);
        lemma_scale_orders((ONE + 1) as nat, m);
        assert((scale((m - 1) as nat) + scale(m)) * 1 == scale((m - 1) as nat) + scale(m));
        assert(false);
    }
}

/// Without the deadband, a stick value is still between -1 and 1.
pub proof fn lemma_banded_is_within_one(v: Double, deadband: Double)
    requires
        within_one(v),
        !deadband.nan(),
    ensures
        within_one(banded(v, deadband)),
{
    let band = band_of(deadband);
    let wide = double(WIDEST_DEADBAND);
    lemma_order(deadband, double(0));
    lemma_order(wide, deadband);
    lemma_order(wide, double(0));
    lemma_order(v.abs(), band);
    lemma_order(band, v.abs());
    assert(!band.nan() && band.magnitude() <= WIDEST_DEADBAND);
    assert(!band.negative() || band.magnitude() == 0);
    if !v.abs().at_most(band) {
        lemma_scale_of_one();
        lemma_scale_of_zero();
        lemma_scale_orders(band.magnitude(), v.magnitude());
        lemma_scale_orders(v.magnitude(), ONE as nat);
        lemma_scale_orders(band.magnitude(), ONE as nat);
        let a = v.abs().minus(band);
        let b = double(ONE).minus(band);
        lemma_sum_magnitude(v.abs(), band.neg());
        lemma_sum_magnitude(double(ONE), band.neg());
        let na = (scale(v.magnitude()) - scale(band.magnitude())) as nat;
        let nb = (pow2(1074) - scale(band.magnitude())) as nat;
        assert(size(v.abs().value() + band.neg().value()) == na);
        assert(size(double(ONE).value() + band.neg().value()) == nb);
        lemma_nearest_is_monotone(na, 1, nb, 1);
        lemma_error_below_one(nb);
        assert(nb >= 1);
        lemma_scale_of_steps(1, 0);
        lemma2_to64();
        lemma_nearest_is_monotone(1, 1, nb, 1);
        lemma_nearest_is_exact(1, 1);
        lemma_quotient_shrinks(a, b);
        let q = a.over(b);
        lemma_product_commutes(sign_of(v), q);
        lemma_product_shrinks(q, sign_of(v));
    }
}

/// The magnitude of a product does not depend on the order of its factors.
pub proof fn lemma_product_commutes(a: Double, b: Double)
    ensures
        a.product(b) == b.product(a),
{
    reveal(Double::product);
    assert(scale(a.magnitude()) * scale(b.magnitude()) == scale(b.magnitude()) * scale(a.magnitude()))
        by (nonlinear_arith);
}

/// With the middle dulled, a stick value is still between -1 and 1.
proof fn lemma_eased_is_within_one(v: Double, expo: Double)
    requires
        within_one(v),
        !expo.nan(),
    ensures
        within_one(eased(v, expo)),
{
    let e = expo_of(expo);
    let one = double(ONE);
    lemma_order(expo, double(0));
    lemma_order(one, expo);
    lemma_order(one, double(0));
    assert(!e.nan() && e.magnitude() <= ONE);
    assert(!e.negative() || e.magnitude() == 0);
    lemma_scale_of_one();
    lemma_scale_of_zero();
    lemma_scale_orders(e.magnitude(), ONE as nat);
    let c = one.minus(e);
    lemma_sum_magnitude(one, e.neg());
    let n = (pow2(1074) - scale(e.magnitude())) as nat;
    assert(size(one.value() + e.neg().value()) == n);
    lemma_error_below_one(n);
    let t1 = c.times(v);
    lemma_product_shrinks(c, v);
    let e1 = e.times(v);
    lemma_product_shrinks(e, v);
    let e2 = e1.times(v);
    lemma_product_shrinks(e1, v);
    let e3 = e2.times(v);
    lemma_product_shrinks(e2, v);
    lemma_scale_orders(t1.magnitude(), c.magnitude());
    lemma_scale_orders(e3.magnitude(), e.magnitude());
    lemma_sum_magnitude(t1, e3);
    let s = size(t1.value() + e3.value());
    assert(s <= scale(c.magnitude()) + scale(e.magnitude()));
    lemma_rounds_to_one(s);
}

/// A stick asks for a share between -1 and 1, whatever its channel carries.
pub proof fn law_sticks_stay_between_their_ends(axis: AxisMap, channels: Seq<u16>)
    requires
        !axis.deadband.nan(),
        !axis.expo.nan(),
    ensures
        minus_one().is_at_most(axis.stick(channels)),
        axis.stick(channels).is_at_most(double(ONE)),
{
    lemma_stick_is_within_one(axis, channels);
    lemma_order(minus_one(), axis.stick(channels));
    lemma_order(axis.stick(channels), double(ONE));
}

pub proof fn lemma_stick_is_within_one(axis: AxisMap, channels: Seq<u16>)
    requires
        !axis.deadband.nan(),
        !axis.expo.nan(),
    ensures
        within_one(axis.stick(channels)),
{
    if let Some(raw) = raw_of(axis.channel, channels) {
        lemma_reading_is_within_one(axis, raw);
        lemma_banded_is_within_one(axis.reading(raw), axis.deadband);
        lemma_eased_is_within_one(banded(axis.reading(raw), axis.deadband), axis.expo);
    }
}

/// A stick in the middle asks for nothing, nor does one on no channel.
pub proof fn law_a_centred_stick_is_zero(axis: AxisMap, channels: Seq<u16>)
    requires
        raw_of(axis.channel, channels) == Some(axis.raw_center) || raw_of(axis.channel, channels)
            is None,
        !axis.deadband.nan(),
        !axis.expo.nan(),
    ensures
        axis.stick(channels).is_equal(double(0)),
{
    let raw = axis.raw_center;
    let x = whole(raw as nat);
    lemma_small_whole(raw as nat);
    lemma_small_whole(axis.raw_max as nat);
    lemma_scale_of_zero();
    let gap = x.minus(x);
    lemma_sum_magnitude(x, x.neg());
    lemma_nearest_is_exact(0, 1);
    assert(gap.magnitude() == 0);
    let top = whole(axis.raw_max as nat).minus(x);
    lemma_bounded_difference(whole(axis.raw_max as nat), x);
    lemma_order(top, double(ONE));
    let span = axis.span(raw);
    assert(span.finite() && span.magnitude() > 0);
    let q = gap.over(span);
    lemma_quotient_shrinks(gap, span);
    assert(q.magnitude() == 0) by {
        reveal(Double::quotient);
        lemma_scale_orders(0, span.magnitude());
        lemma_nearest_is_exact(0, scale(span.magnitude()));
        assert(scale(0) * scale(span.magnitude()) == 0) by (nonlinear_arith)
            requires
                scale(0) == 0,
        ;
        assert(scale(0) * pow2(1074) == 0) by (nonlinear_arith)
            requires
                scale(0) == 0,
        ;
    }
    lemma_order(q, minus_one());
    lemma_order(double(ONE), q);
    let v = axis.reading(raw);
    assert(v.magnitude() == 0);
    let band = band_of(axis.deadband);
    lemma_order(axis.deadband, double(0));
    lemma_order(double(WIDEST_DEADBAND), axis.deadband);
    lemma_order(double(WIDEST_DEADBAND), double(0));
    lemma_order(v.abs(), band);
    assert(banded(v, axis.deadband) == double(0));
    let e = expo_of(axis.expo);
    lemma_order(axis.expo, double(0));
    lemma_order(double(ONE), axis.expo);
    lemma_order(double(ONE), double(0));
    let c = double(ONE).minus(e);
    lemma_scale_of_one();
    lemma_scale_orders(e.magnitude(), ONE as nat);
    lemma_sum_magnitude(double(ONE), e.neg());
    assert(size(double(ONE).value() + e.neg().value()) == pow2(1074) - scale(e.magnitude()));
    lemma_error_below_one((pow2(1074) - scale(e.magnitude())) as nat);
    let zero = double(0);
    let t1 = c.times(zero);
    let e1 = e.times(zero);
    let e2 = e1.times(zero);
    let e3 = e2.times(zero);
    lemma_product_commutes(c, zero);
    lemma_product_shrinks(zero, c);
    lemma_product_commutes(e, zero);
    lemma_product_shrinks(zero, e);
    lemma_product_commutes(e1, zero);
    lemma_product_shrinks(zero, e1);
    lemma_product_commutes(e2, zero);
    lemma_product_shrinks(zero, e2);
    lemma_sum_magnitude(t1, e3);
    lemma_order(axis.stick(channels), zero);
}

/// A multiple of a power of two that is not too long is a magnitude's value.
proof fn lemma_on_grid(k: nat, e: nat) -> (m: nat)
    requires
        k < 2 * FRACTION_SPAN,
    ensures
        scale(m) == k * pow2(e),
    decreases e,
{
    if e == 0 || k >= FRACTION_SPAN {
        lemma_scale_of_steps(k, e);
        k + e * FRACTION_SPAN as nat
    } else {
        lemma_pow2_unfold(e);
        assert((2 * k) * pow2((e - 1) as nat) == k * pow2(e)) by (nonlinear_arith)
            requires
                pow2(e) == 2 * pow2((e - 1) as nat),
        ;
        lemma_on_grid(2 * k, (e - 1) as nat)
    }
}

/// A small integer is a number itself.
pub proof fn lemma_small_whole_is_exact(n: nat)
    requires
        n <= 0xffff,
    ensures
        whole(n).value() == n * pow2(1074),
        whole(n).finite(),
        !whole(n).negative(),
{
    lemma_small_whole(n);
    let m = lemma_on_grid(n, 1074);
    lemma_scale_of_one();
    lemma2_to64();
    lemma_pow2_adds(16, 1074);
    assert(n * pow2(1074) <= pow2(1090)) by (nonlinear_arith)
        requires
            n <= pow2(16),
            pow2(1090) == pow2(16) * pow2(1074),
    ;
    lemma_scale_orders(BIG as nat, m);
    lemma_nearest_is_exact(m, 1);
    assert(scale(m) * 1 == scale(m));
}

/// The difference of small integers is exact.
pub proof fn lemma_small_difference(a: nat, b: nat)
    requires
        b < a <= 0xffff,
    ensures
        whole(a).difference(whole(b)).value() == (a - b) * pow2(1074),
        whole(b).difference(whole(a)).value() == -((a - b) * pow2(1074)),
        whole(a).difference(whole(b)).finite(),
        whole(b).difference(whole(a)).finite(),
        (a - b) * pow2(1074) >= pow2(1074),
{
    lemma_small_whole_is_exact(a);
    lemma_small_whole_is_exact(b);
    let c = (a - b) as nat;
    lemma_small_whole_is_exact(c);
    assert(a * pow2(1074) - b * pow2(1074) == c * pow2(1074)) by (nonlinear_arith)
        requires
            c == a - b,
    ;
    assert(c * pow2(1074) >= pow2(1074)) by (nonlinear_arith)
        requires
            c >= 1,
    ;
    lemma_exact_sum(whole(a), whole(b).negation(), whole(c));
    lemma_exact_sum(whole(b), whole(a).negation(), whole(c).negation());
    lemma_bounded_difference_of_wholes(a, b);
    lemma_bounded_difference_of_wholes(b, a);
}

proof fn lemma_bounded_difference_of_wholes(a: nat, b: nat)
    requires
        a <= 0xffff,
        b <= 0xffff,
    ensures
        whole(a).difference(whole(b)).finite(),
{
    lemma_small_whole(a);
    lemma_small_whole(b);
    lemma_bounded_difference(whole(a), whole(b));
}

/// A quotient of a number by one that is no larger is at least 1.
proof fn lemma_quotient_grows(a: Double, b: Double)
    requires
        b.magnitude() <= a.magnitude(),
        a.finite(),
        b.finite(),
        b.magnitude() > 0,
    ensures
        a.quotient(b).magnitude() >= ONE,
        !a.quotient(b).nan(),
        a.quotient(b).negative() == (a.negative() != b.negative()),
{
    reveal(Double::quotient);
    lemma_scale_of_one();
    lemma_scale_orders(b.magnitude(), a.magnitude());
    lemma_scale_orders(0, b.magnitude());
    lemma_scale_of_zero();
    let d = scale(b.magnitude());
    let one = pow2(1074);
    let n = scale(a.magnitude()) * one;
    assert((one * d) * d <= n * d) by (nonlinear_arith)
        requires
            n == scale(a.magnitude()) * one,
            scale(a.magnitude()) >= d,
    ;
    lemma_nearest_is_monotone(one * d, d, n, d);
    lemma_nearest_is_exact(ONE as nat, d);
    lemma_nearest(n, d);
}

/// At or past an end a stick reads that end.
proof fn lemma_full_reading(axis: AxisMap, raw: u16)
    requires
        axis.raw_min < axis.raw_center < axis.raw_max,
    ensures
        raw >= axis.raw_max ==> axis.reading(raw) == double(ONE),
        raw <= axis.raw_min ==> axis.reading(raw) == minus_one(),
{
    lemma_scale_of_one();
    lemma_pow2_pos(1074);
    let center = axis.raw_center as nat;
    let x = whole(raw as nat).minus(whole(center));
    let span = axis.span(raw);
    let q = x.over(span);
    if raw >= axis.raw_max {
        lemma_small_difference(raw as nat, center);
        lemma_small_difference(axis.raw_max as nat, center);
        let top = whole(axis.raw_max as nat).minus(whole(center));
        assert((raw - center) * pow2(1074) >= (axis.raw_max - center) * pow2(1074))
            by (nonlinear_arith)
            requires
                raw >= axis.raw_max,
        ;
        assert(span == top);
        lemma_scale_of_zero();
        lemma_scale_orders(top.magnitude(), x.magnitude());
        lemma_scale_orders(0, top.magnitude());
        lemma_quotient_grows(x, top);
        lemma_order(q, minus_one());
        lemma_order(double(ONE), q);
    }
    if raw <= axis.raw_min {
        lemma_small_difference(center, raw as nat);
        lemma_small_difference(center, axis.raw_min as nat);
        let top = whole(center).minus(whole(axis.raw_min as nat));
        assert((center - raw) * pow2(1074) >= (center - axis.raw_min) * pow2(1074))
            by (nonlinear_arith)
            requires
                raw <= axis.raw_min,
        ;
        assert(span == top);
        lemma_scale_of_zero();
        lemma_scale_orders(top.magnitude(), x.magnitude());
        lemma_scale_orders(0, top.magnitude());
        lemma_quotient_grows(x, top);
        lemma_order(q, minus_one());
        lemma_order(double(ONE), q);
        lemma_order(double(ONE), minus_one());
    }
}

/// The deadband leaves the ends where they are.
proof fn lemma_full_banded(v: Double, deadband: Double)
    requires
        v == double(ONE) || v == minus_one(),
        !deadband.nan(),
    ensures
        banded(v, deadband) == v,
{
    let band = band_of(deadband);
    let wide = double(WIDEST_DEADBAND);
    lemma_order(deadband, double(0));
    lemma_order(wide, deadband);
    lemma_order(wide, double(0));
    lemma_order(v.abs(), band);
    assert(!band.nan() && band.magnitude() <= WIDEST_DEADBAND);
    assert(!band.negative() || band.magnitude() == 0);
    lemma_scale_of_one();
    lemma_scale_of_zero();
    lemma_scale_orders(band.magnitude(), ONE as nat);
    let a = double(ONE).minus(band);
    lemma_sum_magnitude(double(ONE), band.neg());
    let n = (pow2(1074) - scale(band.magnitude())) as nat;
    assert(size(double(ONE).value() + band.neg().value()) == n);
    lemma_error_below_one(n);
    lemma_scale_of_steps(1, 0);
    lemma2_to64();
    lemma_nearest_is_monotone(1, 1, n, 1);
    lemma_nearest_is_exact(1, 1);
    assert(a.finite() && a.magnitude() > 0);
    lemma_quotient_shrinks(a, a);
    lemma_quotient_grows(a, a);
    let q = a.over(a);
    assert(q == double(ONE));
    lemma_order(sign_of(v), double(ONE));
    lemma_order(sign_of(v), minus_one());
    lemma_unit_product(sign_of(v), q);
}

/// The dulling leaves the ends where they are, but for rounding.
proof fn lemma_full_eased(v: Double, expo: Double)
    requires
        v == double(ONE) || v == minus_one(),
        !expo.nan(),
    ensures
        near(eased(v, expo), v, 1real / 1000000000real),
{
    let e = expo_of(expo);
    let one = double(ONE);
    lemma_order(expo, double(0));
    lemma_order(one, expo);
    lemma_order(one, double(0));
    lemma_order(v, one);
    lemma_order(v, minus_one());
    assert(!e.nan() && e.magnitude() <= ONE);
    assert(!e.negative() || e.magnitude() == 0);
    lemma_scale_of_one();
    lemma_scale_of_zero();
    lemma_unit();
    lemma_worth(one);
    lemma_worth(e);
    lemma_worth_negates(e);
    lemma_worth_negates(one);
    lemma_scale_orders(e.magnitude(), ONE as nat);
    let u = pow2(1074) as real;
    assert(worth(one) == 1real) by (nonlinear_arith)
        requires
            worth(one) * u == u,
            u > 0real,
    ;
    lemma_worth_orders(e, one);
    lemma_worth_orders(double(0), e);
    lemma_worth(double(0));
    let x = worth(e);
    assert(0real <= x <= 1real);
    let c = one.minus(e);
    lemma_sum_is_finite(one, e.neg());
    lemma_sum_strays(one, e.neg());
    let y = worth(c);
    lemma_unit_product(v, c);
    lemma_product_commutes(c, v);
    let e1 = e.times(v);
    lemma_unit_product(v, e);
    lemma_product_commutes(e, v);
    let e2 = e1.times(v);
    lemma_unit_product(v, e1);
    lemma_product_commutes(e1, v);
    let e3 = e2.times(v);
    lemma_unit_product(v, e2);
    lemma_product_commutes(e2, v);
    let t1 = c.times(v);
    assert(t1.finite() && e3.finite());
    assert(t1.value() == if v.negative() { -c.value() } else { c.value() });
    assert(e3.value() == if v.negative() { -e.value() } else { e.value() });
    lemma_worth_of_values(t1, c, v.negative());
    lemma_worth_of_values(e3, e, v.negative());
    assert(bare(y - (1real - x)) <= eps() + tiny()) by (nonlinear_arith)
        requires
            bare(y - (1real - x)) <= bare(1real - x) * eps() + tiny(),
            bare(1real - x) <= 1real,
            eps() == 1real / 9007199254740992real,
    ;
    assert(eps() + tiny() <= 1real / 10000000000real) by (nonlinear_arith)
        requires
            tiny() <= eps() * eps(),
            eps() == 1real / 9007199254740992real,
    ;
    let s = worth(t1) + worth(e3);
    assert(bare(s) <= 2real);
    lemma_sum_is_finite(t1, e3);
    lemma_sum_strays(t1, e3);
    let r = worth(t1.plus(e3));
    assert(bare(r - s) <= 2real * eps() + tiny()) by (nonlinear_arith)
        requires
            bare(r - s) <= bare(s) * eps() + tiny(),
            bare(s) <= 2real,
            eps() == 1real / 9007199254740992real,
    ;
    assert(2real * eps() + tiny() <= 1real / 10000000000real) by (nonlinear_arith)
        requires
            tiny() <= eps() * eps(),
            eps() == 1real / 9007199254740992real,
    ;
    assert(worth(v) == if v.negative() { -1real } else { 1real });
}

/// Equal or opposite values have equal or opposite worths.
proof fn lemma_worth_of_values(a: Double, b: Double, opposite: bool)
    requires
        !b.nan(),
        a.value() == if opposite { -b.value() } else { b.value() },
    ensures
        worth(a) == if opposite { -worth(b) } else { worth(b) },
{
    lemma_worth_negates(b);
    assert(b.negation().value() == -b.value());
}

/// A stick at or past an end asks for all, within a billionth, whatever its deadband
/// and its dulling.
pub proof fn law_a_stick_at_its_end_asks_for_all(axis: AxisMap, channels: Seq<u16>, raw: u16)
    requires
        axis.raw_min < axis.raw_center < axis.raw_max,
        raw_of(axis.channel, channels) == Some(raw),
        raw >= axis.raw_max || raw <= axis.raw_min,
        !axis.deadband.nan(),
        !axis.expo.nan(),
    ensures
        near(
            axis.stick(channels),
            if (raw >= axis.raw_max) != axis.reverse { double(ONE) } else { minus_one() },
            1real / 1000000000real,
        ),
{
    let v = axis.reading(raw);
    lemma_full_reading(axis, raw);
    lemma_full_banded(v, axis.deadband);
    lemma_full_eased(v, axis.expo);
    lemma_worth_negates(eased(v, axis.expo));
    lemma_worth_negates(v);
}

/// A stick that is turned over asks for the opposite.
pub proof fn law_a_reversed_stick_asks_for_the_opposite(axis: AxisMap, channels: Seq<u16>)
    requires
        !axis.deadband.nan(),
        !axis.expo.nan(),
    ensures
        (AxisMap { reverse: !axis.reverse, ..axis }).stick(channels).is_equal(
            axis.stick(channels).neg(),
        ),
{
    lemma_stick_is_within_one(axis, channels);
    lemma_scale_of_zero();
}

/// However the sticks are held, no speed exceeds its configured limit.
pub proof fn law_speeds_stay_within_their_limits(teleop: Teleop, channels: Seq<u16>)
    requires
        !teleop.cfg.vx.deadband.nan(),
        !teleop.cfg.vx.expo.nan(),
        !teleop.cfg.vy.deadband.nan(),
        !teleop.cfg.vy.expo.nan(),
        !teleop.cfg.wz.deadband.nan(),
        !teleop.cfg.wz.expo.nan(),
        !teleop.cfg.height.deadband.nan(),
        !teleop.cfg.height.expo.nan(),
        teleop.max_vx.finite(),
        teleop.max_vy.finite(),
        teleop.max_wz.finite(),
        teleop.height_range.finite(),
    ensures
        teleop.command(channels).vx_m_s.abs().is_at_most(teleop.max_vx.abs()),
        teleop.command(channels).vy_m_s.abs().is_at_most(teleop.max_vy.abs()),
        teleop.command(channels).wz_rad_s.abs().is_at_most(teleop.max_wz.abs()),
        teleop.command(channels).height_offset_m.abs().is_at_most(teleop.height_range.abs()),
{
    lemma_share_is_bounded(teleop.cfg.vx, channels, teleop.max_vx);
    lemma_share_is_bounded(teleop.cfg.vy, channels, teleop.max_vy);
    lemma_share_is_bounded(teleop.cfg.wz, channels, teleop.max_wz);
    lemma_share_is_bounded(teleop.cfg.height, channels, teleop.height_range);
    lemma_order(double(0).abs(), teleop.max_vy.abs());
    lemma_order(double(0).abs(), teleop.max_wz.abs());
    lemma_order(double(0).abs(), teleop.height_range.abs());
}

/// However the sticks are held, no angle of the body exceeds its configured limit.
pub proof fn law_the_body_tilts_no_further_than_its_limit(teleop: Teleop, channels: Seq<u16>)
    requires
        !teleop.cfg.vy.deadband.nan(),
        !teleop.cfg.vy.expo.nan(),
        !teleop.cfg.wz.deadband.nan(),
        !teleop.cfg.wz.expo.nan(),
        !teleop.cfg.height.deadband.nan(),
        !teleop.cfg.height.expo.nan(),
        teleop.attitude_max.finite(),
        double(0).is_at_most(teleop.attitude_max),
    ensures
        teleop.command(channels).body_attitude_rad.roll.abs().is_at_most(teleop.attitude_max),
        teleop.command(channels).body_attitude_rad.pitch.abs().is_at_most(teleop.attitude_max),
        teleop.command(channels).body_attitude_rad.yaw.abs().is_at_most(teleop.attitude_max),
{
    let most = teleop.attitude_max;
    let r = teleop.cfg.vy.stick(channels).times(most);
    let p = teleop.cfg.height.stick(channels).times(most);
    let n = root(r.times(r).plus(p.times(p)));
    let k = if most.below(n) && double(0).below(n) { most.over(n) } else { double(ONE) };
    lemma_order(double(0), most);
    lemma_order(most.abs(), most);
    if most.below(n) && double(0).below(n) {
        lemma_order(most, n);
        lemma_order(double(0), n);
        if n.finite() {
            lemma_quotient_shrinks(most, n);
        } else {
            reveal(Double::quotient);
        }
    }
    lemma_share_is_bounded(teleop.cfg.vy, channels, most);
    lemma_share_is_bounded(teleop.cfg.height, channels, most);
    lemma_share_is_bounded(teleop.cfg.wz, channels, most);
    lemma_order(r.abs(), most.abs());
    lemma_order(p.abs(), most.abs());
    lemma_product_shrinks(r, k);
    lemma_product_shrinks(p, k);
    lemma_order(r.times(k).abs(), most);
    lemma_order(p.times(k).abs(), most);
    lemma_order(double(0).abs(), most);
}

proof fn lemma_share_is_bounded(axis: AxisMap, channels: Seq<u16>, most: Double)
    requires
        !axis.deadband.nan(),
        !axis.expo.nan(),
        most.finite(),
    ensures
        axis.stick(channels).times(most).abs().is_at_most(most.abs()),
{
    let v = axis.stick(channels);
    lemma_stick_is_within_one(axis, channels);
    lemma_product_commutes(v, most);
    lemma_product_shrinks(most, v);
    lemma_order(v.times(most).abs(), most.abs());
}

} // verus!
