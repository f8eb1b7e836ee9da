//! Integer steps of double-precision arithmetic: from an exact result, cut off
//! far enough below its last place, to the nearest magnitude.
use vstd::arithmetic::power2::*;
use vstd::prelude::*;

use crate::rounding::{
    lemma_nearest, lemma_rounding_of_scaled, lemma_rounds_from_bracket, lemma_rounds_to_infinite,
    lemma_scale_of_steps, lemma_scale_orders, nearest, scale, FRACTION_SPAN, INFINITE,
};

verus! {

/// Whether the integer `m`, taken at the weight 2^p, is `n / d` cut off below
/// that weight; `sticky` says that the cut lost something.
pub open spec fn cuts(n: nat, d: nat, m: nat, p: int, sticky: bool) -> bool {
    let up: nat = lift(p);
    let weight: nat = d * pow2(if p < 0 { 0 } else { p as nat });
    &&& m * weight <= n * up < (m + 1) * weight
    &&& sticky <==> m * weight != n * up
}

/// What a negative weight 2^p is multiplied by to become an integer.
pub open spec fn lift(p: int) -> nat {
    pow2(if p < 0 { (-p) as nat } else { 0 })
}

/// Two to the power `k`.
pub(crate) fn power(k: u32) -> (r: u128)
    requires
        k <= 127,
    ensures
        r == pow2(k as nat),
{
    let mut r: u128 = 1;
    proof {
        lemma2_to64();
    }
    for i in 0..k
        invariant
            r == pow2(i as nat),
            k <= 127,
    {
        proof {
            lemma_pow2_unfold((i + 1) as nat);
            lemma_pow2_127((i + 1) as nat);
        }
        r = r * 2;
    }
    r
}

proof fn lemma_pow2_127(k: nat)
    ensures
        pow2(127) == 0x8000_0000_0000_0000_0000_0000_0000_0000,
        pow2(128) == 0x1_0000_0000_0000_0000_0000_0000_0000_0000,
        k <= 127 ==> pow2(k) <= pow2(127),
        k >= 127 ==> pow2(k) >= pow2(127),
{
    lemma2_to64();
    lemma2_to64_rest();
    lemma_pow2_adds(63, 64);
    lemma_pow2_adds(64, 64);
    if k < 127 {
        lemma_pow2_strictly_increases(k, 127);
    } else if k > 127 {
        lemma_pow2_strictly_increases(127, k);
    }
}

/// The number of binary digits of `m`.
fn bit_length(m: u128) -> (r: u32)
    requires
        m > 0,
    ensures
        1 <= r <= 128,
        pow2((r - 1) as nat) <= m < pow2(r as nat),
{
    let mut weight: u128 = 1;
    let mut k: u32 = 0;
    proof {
        lemma2_to64();
    }
    while m / weight >= 2
        invariant
            0 <= k <= 127,
            weight == pow2(k as nat),
            0 < weight <= m,
        decreases 128 - k,
    {
        proof {
            assert(2 * weight <= m) by (nonlinear_arith)
                requires
                    m / weight >= 2,
                    weight > 0,
            ;
            lemma_pow2_unfold((k + 1) as nat);
            if k == 127 {
                lemma_pow2_127(128);
            }
        }
        weight = weight * 2;
        k = k + 1;
    }
    proof {
        assert(m < 2 * weight) by (nonlinear_arith)
            requires
                m / weight < 2,
                weight > 0,
        ;
        lemma_pow2_unfold((k + 1) as nat);
    }
    k + 1
}

/// The rounding step: `q` steps of size 2^e, with the rest `r` of `half * 2`.
proof fn lemma_round_steps(n: nat, d: nat, e: nat, q: nat, r: nat, half: nat, w: nat, sticky: bool)
    requires
        d > 0,
        w > 0,
        half > 0,
        2 * half * w == d * pow2(e),
        q < 2 * FRACTION_SPAN,
        e == 0 || q >= FRACTION_SPAN,
        r < 2 * half,
        (q * (2 * half) + r) * w <= n < (q * (2 * half) + r + 1) * w,
        sticky <==> n != (q * (2 * half) + r) * w,
    ensures
        ({
            let up = r > half || (r == half && (sticky || q % 2 == 1));
            let m = q + e * FRACTION_SPAN as nat + if up { 1nat } else { 0nat };
            m >= INFINITE ==> nearest(n, d) == INFINITE
        }),
        ({
            let up = r > half || (r == half && (sticky || q % 2 == 1));
            let m = q + e * FRACTION_SPAN as nat + if up { 1nat } else { 0nat };
            m <= INFINITE ==> nearest(n, d) == m
        }),
{
    let span = FRACTION_SPAN as nat;
    let low: nat = q + e * span;
    let u = pow2(e);
    let h = half * w;
    lemma_pow2_pos(e);
    lemma_scale_of_steps(q, e);
    lemma_scale_of_steps(q + 1, e);
    lemma_nearest(n, d);
    assert((low + 1) == (q + 1) + e * span);
    // In units of the weight: n lies between q and q + 1 steps of 2 * h.
    assert(scale(low) * d == q * (2 * h)) by (nonlinear_arith)
        requires
            scale(low) == q * u,
            2 * half * w == d * u,
            h == half * w,
    ;
    assert(scale(low + 1) * d == (q + 1) * (2 * h)) by (nonlinear_arith)
        requires
            scale(low + 1) == (q + 1) * u,
            2 * half * w == d * u,
            h == half * w,
    ;
    assert((q * (2 * half) + r) * w == q * (2 * h) + r * w) by (nonlinear_arith)
        requires
            h == half * w,
    ;
    assert((q * (2 * half) + r + 1) * w == q * (2 * h) + (r + 1) * w) by (nonlinear_arith)
        requires
            h == half * w,
    ;
    assert((q + 1) * (2 * h) == q * (2 * h) + 2 * h) by (nonlinear_arith);
    assert((r + 1) * w <= 2 * h) by (nonlinear_arith)
        requires
            r + 1 <= 2 * half,
            h == half * w,
    ;
    assert(r * w >= 0) by (nonlinear_arith);
    assert(h > 0) by (nonlinear_arith)
        requires
            h == half * w,
            half > 0,
            w > 0,
    ;
    assert((scale(low) + scale(low + 1)) * d == 2 * (q * (2 * h)) + 2 * h) by (nonlinear_arith)
        requires
            scale(low) * d == q * (2 * h),
            scale(low + 1) * d == q * (2 * h) + 2 * h,
    ;
    if r < half {
        assert((r + 1) * w <= h) by (nonlinear_arith)
            requires
                r + 1 <= half,
                h == half * w,
        ;
    } else if r > half {
        assert(r * w >= h + w) by (nonlinear_arith)
            requires
                r >= half + 1,
                h == half * w,
        ;
    }
    if low < INFINITE {
        assert(low % 2 == q % 2) by {
            assert(e * span == 2 * (e * (span / 2))) by (nonlinear_arith)
                requires
                    span == 2 * (span / 2),
            ;
        }
        lemma_rounds_from_bracket(n, d, low);
    } else {
        lemma_scale_orders(INFINITE as nat, low);
        assert(scale(INFINITE as nat) * d <= scale(low) * d) by (nonlinear_arith)
            requires
                scale(INFINITE as nat) <= scale(low),
        ;
        lemma_rounds_to_infinite(n, d);
        if low == INFINITE {
            assert(q >= 0);
        }
    }
}

/// The magnitude nearest to `n / d`, from an integer that cuts it off.
pub(crate) fn round_cut(m: u128, p: i32, sticky: bool, Ghost(n): Ghost<nat>, Ghost(d): Ghost<nat>)
    -> (r: u64)
    requires
        d > 0,
        0 < m,
        m < 0x8000_0000_0000_0000_0000_0000_0000_0000,
        sticky ==> m >= 0x40_0000_0000_0000,
        -4000 <= p <= 4000,
        cuts(n, d, m as nat, p as int, sticky),
    ensures
        r == nearest(n, d),
        r <= INFINITE,
{
    let mut m: u128 = m;
    let mut p: i32 = p;
    if m < 0x40_0000_0000_0000 {
        proof {
            lemma_cut_extends(n, d, m as nat, p as int);
        }
        m = m * 0x80_0000_0000_0000;
        p = p - 55;
    }
    let length: u32 = bit_length(m);
    proof {
        lemma2_to64();
        lemma2_to64_rest();
        if length < 55 {
            if length < 54 { lemma_pow2_strictly_increases(length as nat, 54); }
            assert(false);
        }
        if length == 128 {
            lemma_pow2_127(128);
            assert(false);
        }
    }
    let over: i32 = length as i32 + p - 53;
    let e: i32 = if over > 0 { over } else { 0 };
    let shift: i32 = e - p;
    let ghost up = lift(p as int);
    let ghost w = d * pow2(if p < 0 { 0 } else { p as nat });
    proof {
        lemma_weights(d, p as int, e as nat, shift as nat);
        lemma_pow2_pos(if p < 0 { (-p) as nat } else { 0 });
        lemma_pow2_pos(if p < 0 { 0 } else { p as nat });
        assert(w > 0) by (nonlinear_arith)
            requires
                w == d * pow2(if p < 0 { 0 } else { p as nat }),
                d > 0,
                pow2(if p < 0 { 0 } else { p as nat }) > 0,
        ;
        assert(d * up > 0) by (nonlinear_arith)
            requires
                d > 0,
                up > 0,
        ;
        assert((d * up) * pow2(e as nat) == w * pow2(shift as nat));
    }
    if shift >= 128 {
        proof {
            let half = pow2((shift - 1) as nat);
            lemma_pow2_unfold(shift as nat);
            lemma_pow2_127((shift - 1) as nat);
            assert(e == 0);
            lemma_pow2_pos((shift - 1) as nat);
            assert(2 * half * w == (d * up) * pow2(0)) by (nonlinear_arith)
                requires
                    pow2(shift as nat) == 2 * half,
                    (d * up) * pow2(0) == w * pow2(shift as nat),
            ;
            assert((0 * (2 * half) + m as nat) == m as nat);
            lemma_round_steps(n * up, d * up, 0, 0, m as nat, half, w, sticky);
            lemma_nearest(n * up, d * up);
            lemma_rounding_of_scaled(n, d, up, 0);
            lemma_nearest(n, d);
        }
        return 0;
    }
    let half: u128 = power((shift - 1) as u32);
    let step: u128 = power(shift as u32);
    proof {
        lemma_pow2_pos(shift as nat);
    }
    let q: u128 = m / step;
    let rest: u128 = m % step;
    proof {
        lemma_pow2_unfold(shift as nat);
        assert(step == 2 * half);
        assert(m == q * step + rest) by {
            vstd::arithmetic::div_mod::lemma_fundamental_div_mod(m as int, step as int);
            assert(step * q == q * step) by (nonlinear_arith);
        }
        lemma_quotient_length(m as nat, length as nat, shift as nat, q as nat, rest as nat);
        lemma_pow2_pos((shift - 1) as nat);
        assert(2 * half as nat * w == (d * up) * pow2(e as nat)) by (nonlinear_arith)
            requires
                pow2(shift as nat) == 2 * half,
                (d * up) * pow2(e as nat) == w * pow2(shift as nat),
        ;
        lemma_round_steps(
            n * up,
            d * up,
            e as nat,
            q as nat,
            rest as nat,
            half as nat,
            w,
            sticky,
        );
        lemma_nearest(n * up, d * up);
        lemma_rounding_of_scaled(n, d, up, nearest(n * up, d * up));
        lemma_nearest(n, d);
    }
    if e >= 2047 {
        return INFINITE;
    }
    let carry: u64 = if rest > half || (rest == half && (sticky || q % 2 == 1)) { 1 } else { 0 };
    let r: u64 = q as u64 + e as u64 * FRACTION_SPAN + carry;
    if r >= INFINITE {
        INFINITE
    } else {
        r
    }
}

/// An exact cut may be taken further down.
proof fn lemma_cut_extends(n: nat, d: nat, m: nat, p: int)
    requires
        d > 0,
        cuts(n, d, m, p, false),
    ensures
        cuts(n, d, m * 0x80_0000_0000_0000, p - 55, false),
{
    let big: nat = 0x80_0000_0000_0000;
    lemma2_to64();
    lemma2_to64_rest();
    assert(pow2(55) == big);
    let w0 = pow2(if p < 0 { 0 } else { p as nat });
    let u0 = lift(p);
    let p1 = p - 55;
    let w1 = pow2(if p1 < 0 { 0 } else { p1 as nat });
    let u1 = lift(p1);
    lemma_pow2_pos(if p1 < 0 { 0 } else { p1 as nat });
    assert(pow2(0) == 1);
    // w0 * u1 == big * w1 * u0
    if p < 0 {
        lemma_pow2_adds((-p) as nat, 55);
        assert(u1 == u0 * big);
    } else if p1 >= 0 {
        lemma_pow2_adds(p1 as nat, 55);
        assert(w0 == w1 * big);
    } else {
        lemma_pow2_adds((-p1) as nat, p as nat);
        assert(u1 * w0 == big);
    }
    assert(m * (d * w0) == n * u0);
    if p < 0 {
        assert((m * big) * (d * w1) == n * u1) by (nonlinear_arith)
            requires
                m * (d * w0) == n * u0,
                w0 == 1,
                w1 == 1,
                u1 == u0 * big,
        ;
    } else if p1 >= 0 {
        assert((m * big) * (d * w1) == n * u1) by (nonlinear_arith)
            requires
                m * (d * w0) == n * u0,
                u0 == 1,
                u1 == 1,
                w0 == w1 * big,
        ;
    } else {
        assert((m * big) * (d * w1) == n * u1) by (nonlinear_arith)
            requires
                m * (d * w0) == n * u0,
                u0 == 1,
                w1 == 1,
                u1 * w0 == big,
        ;
    }
    assert((m * big + 1) * (d * w1) == (m * big) * (d * w1) + d * w1) by (nonlinear_arith);
    assert(d * w1 > 0) by (nonlinear_arith)
        requires
            d > 0,
            w1 > 0,
    ;
}

proof fn lemma_weights(d: nat, p: int, e: nat, shift: nat)
    requires
        e == p + shift,
    ensures
        (d * lift(p)) * pow2(e) == (d * pow2(if p < 0 { 0 } else { p as nat })) * pow2(shift),
{
    lemma2_to64();
    assert(pow2(0) == 1);
    if p < 0 {
        lemma_pow2_adds((-p) as nat, e);
        assert((d * lift(p)) * pow2(e) == d * (lift(p) * pow2(e))) by (nonlinear_arith);
    } else {
        lemma_pow2_adds(p as nat, shift);
        assert((d * pow2(p as nat)) * pow2(shift) == d * (pow2(p as nat) * pow2(shift)))
            by (nonlinear_arith);
    }
}

/// A quotient by 2^shift has `shift` binary digits fewer.
proof fn lemma_quotient_length(m: nat, length: nat, shift: nat, q: nat, rest: nat)
    requires
        length >= 55,
        pow2((length - 1) as nat) <= m < pow2(length),
        shift >= length - 53,
        m == q * pow2(shift) + rest,
        rest < pow2(shift),
    ensures
        q < 2 * FRACTION_SPAN,
        shift == length - 53 ==> q >= FRACTION_SPAN,
{
    lemma2_to64();
    lemma2_to64_rest();
    let s = pow2(shift);
    lemma_pow2_pos(shift);
    let top = pow2((length - 53) as nat);
    lemma_pow2_pos((length - 53) as nat);
    lemma_pow2_adds((length - 53) as nat, 53);
    lemma_pow2_adds((length - 53) as nat, 52);
    if shift > length - 53 {
        lemma_pow2_strictly_increases((length - 53) as nat, shift);
    }
    assert(top <= s);
    if q >= 2 * FRACTION_SPAN {
        assert(q * s >= (2 * FRACTION_SPAN) as nat * top) by (nonlinear_arith)
            requires
                q >= 2 * FRACTION_SPAN,
                s >= top,
        ;
        assert((2 * FRACTION_SPAN) as nat * top == top * pow2(53)) by (nonlinear_arith)
            requires
                pow2(53) == 2 * FRACTION_SPAN,
        ;
        assert(length - 53 + 53 == length);
        assert(false);
    }
    if shift == length - 53 && q < FRACTION_SPAN {
        assert((q + 1) * s <= FRACTION_SPAN as nat * s) by (nonlinear_arith)
            requires
                q + 1 <= FRACTION_SPAN,
        ;
        assert((q + 1) * s == q * s + s) by (nonlinear_arith);
        assert(s == top && pow2(52) == FRACTION_SPAN);
        assert(FRACTION_SPAN as nat * s == top * pow2(52)) by (nonlinear_arith)
            requires
                s == top,
                pow2(52) == FRACTION_SPAN,
        ;
        assert(length - 53 + 52 == length - 1);
        assert(false);
    }
}

} // verus!
