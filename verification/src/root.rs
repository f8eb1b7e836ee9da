//! The square root, exact to the last bit.
use vstd::arithmetic::power2::*;
use vstd::prelude::*;

use crate::arith::{cuts, lift, power, round_cut};
use crate::double::{double, normalized, of_bits, signed, Double, NAN};
use crate::rounding::{
    lemma_nearest, lemma_nearest_is_exact, lemma_scale_of_steps, lemma_scale_orders, lemma_steps_of,
    rounds_to, scale, FRACTION_SPAN, INFINITE,
};

verus! {

/// Twice the middle between a magnitude and the next.
pub open spec fn twice_middle(m: nat) -> nat {
    scale(m) + scale(m + 1)
}

/// Whether `m` is the magnitude nearest to the square root of `n`, where a tie
/// goes to the even magnitude.
pub open spec fn roots_to(n: nat, m: nat) -> bool {
    &&& m <= INFINITE
    &&& m > 0 ==> {
        let c = twice_middle((m - 1) as nat);
        c * c < 4 * n || (c * c == 4 * n && m % 2 == 0)
    }
    &&& m < INFINITE ==> {
        let c = twice_middle(m);
        4 * n < c * c || (c * c == 4 * n && m % 2 == 0)
    }
}

/// The magnitude nearest to the square root of `n`.
pub open spec fn nearest_root(n: nat) -> nat {
    choose|m: nat| roots_to(n, m)
}

/// The square root, rounded once. A negative number has none.
#[verifier::opaque]
pub open spec fn root(x: Double) -> Double {
    if x.nan() {
        of_bits(NAN)
    } else if x.magnitude() == 0 {
        x
    } else if x.negative() {
        of_bits(NAN)
    } else if x.infinite() {
        x
    } else {
        signed(false, nearest_root(scale(x.magnitude()) * pow2(1074)))
    }
}

/// Every number has a nearest root at or below a magnitude that is no lower.
proof fn lemma_some_root(n: nat, m: nat) -> (r: nat)
    requires
        m <= INFINITE,
        m < INFINITE ==> {
            let c = twice_middle(m);
            4 * n < c * c || (c * c == 4 * n && m % 2 == 0)
        },
    ensures
        roots_to(n, r),
    decreases m,
{
    if m == 0 {
        m
    } else {
        let c = twice_middle((m - 1) as nat);
        if c * c < 4 * n || (c * c == 4 * n && m % 2 == 0) {
            m
        } else {
            lemma_some_root(n, (m - 1) as nat)
        }
    }
}

/// The nearest root is one.
pub proof fn lemma_nearest_root(n: nat)
    ensures
        roots_to(n, nearest_root(n)),
{
    let r = lemma_some_root(n, INFINITE as nat);
}

proof fn lemma_root_is_unique(n: nat, m1: nat, m2: nat)
    requires
        roots_to(n, m1),
        roots_to(n, m2),
    ensures
        m1 >= m2,
{
    if m1 < m2 {
        lemma_roots_clash(n, m1, m2);
    }
}

proof fn lemma_roots_clash(n: nat, m1: nat, m2: nat)
    requires
        roots_to(n, m1),
        roots_to(n, m2),
        m1 < m2,
    ensures
        m1 % 2 != m2 % 2,
        m1 % 2 == m2 % 2,
{
    let a = twice_middle(m1);
    let b = twice_middle((m2 - 1) as nat);
    lemma_scale_orders(m1, (m2 - 1) as nat);
    lemma_scale_orders(m1 + 1, m2);
    assert(a <= b);
    assert(a * a <= b * b) by (nonlinear_arith)
        requires
            a <= b,
    ;
    assert(a * a == b * b);
    assert(a == b) by (nonlinear_arith)
        requires
            a * a == b * b,
            a >= 0,
            b >= 0,
    ;
}

/// The integer part of a square root.
fn whole_root(m: u128) -> (r: u64)
    requires
        m < 0x1_0000_0000_0000_0000_0000_0000_0000,
    ensures
        r * r <= m < (r + 1) * (r + 1),
{
    let mut low: u64 = 0;
    let mut high: u64 = 0x100_0000_0000_0000;
    assert(0x100_0000_0000_0000 * 0x100_0000_0000_0000 == 0x1_0000_0000_0000_0000_0000_0000_0000);
    while high - low > 1
        invariant
            low < high <= 0x100_0000_0000_0000,
            low * low <= m < high * high,
        decreases high - low,
    {
        let middle: u64 = low + (high - low) / 2;
        assert(middle * middle <= 0x100_0000_0000_0000 * 0x100_0000_0000_0000) by (nonlinear_arith)
            requires
                middle <= 0x100_0000_0000_0000,
        ;
        let square: u128 = middle as u128 * middle as u128;
        if square <= m {
            low = middle;
        } else {
            high = middle;
        }
    }
    assert(high == low + 1);
    low
}

/// The value of a magnitude past the grid of `q` is a multiple of 2^q.
proof fn lemma_divides(m: nat, q: nat) -> (g: nat)
    requires
        m >= FRACTION_SPAN as nat * (q + 1),
    ensures
        scale(m) == g * pow2(q),
{
    let (k, e) = lemma_steps_of(m);
    assert(q <= e) by (nonlinear_arith)
        requires
            m == k + e * FRACTION_SPAN as nat,
            k < 2 * FRACTION_SPAN,
            m >= FRACTION_SPAN as nat * (q + 1),
            FRACTION_SPAN > 0,
    ;
    lemma_pow2_adds((e - q) as nat, q);
    let g: nat = k * pow2((e - q) as nat);
    assert(g * pow2(q) == k * (pow2((e - q) as nat) * pow2(q))) by (nonlinear_arith)
        requires
            g == k * pow2((e - q) as nat),
    ;
    g
}

/// From the whole root `s` of `top`, at the weight 2^p, to the root of `n`.
proof fn lemma_root_from_cut(n: nat, top: nat, s: nat, p: nat, low: nat, cut: nat, m: nat)
    requires
        n == top * (pow2(p) * pow2(p)),
        s * s <= top < (s + 1) * (s + 1),
        s >= 0x40_0000_0000_0000,
        low == if s * s == top { 0nat } else { 1nat },
        cut == (2 * s + low) * pow2(p),
        p <= 2000,
        rounds_to(cut, 2, m),
    ensures
        roots_to(n, m),
{
    let w = pow2(p);
    lemma_pow2_pos(p);
    lemma_pow2_unfold(p + 1);
    lemma_pow2_adds(2, p);
    lemma2_to64();
    let span = FRACTION_SPAN as nat;
    // m lies past the grid of p + 2.
    let m0: nat = span + (p + 2) * span;
    if m < m0 {
        lemma_scale_of_steps(span, p + 2);
        lemma_nearest_is_exact(m0, 2);
        lemma_nearest(scale(m0) * 2, 2);
        assert(scale(m0) * 2 <= cut) by (nonlinear_arith)
            requires
                scale(m0) == span * (4 * w),
                span == 0x10_0000_0000_0000,
                cut == (2 * s + low) * w,
                s >= 0x40_0000_0000_0000,
                low >= 0,
        ;
        crate::rounding::lemma_rounding_is_monotone(scale(m0) * 2, 2, m0, cut, 2, m);
        assert(false);
    }
    assert((m - 1) >= span * (p + 1 + 1)) by (nonlinear_arith)
        requires
            m >= span + (p + 2) * span,
            span > 0,
    ;
    let a = lemma_divides((m - 1) as nat, p + 1);
    assert(m >= span * (p + 1 + 1) && m + 1 >= span * (p + 1 + 1));
    let b = lemma_divides(m, p + 1);
    let c = lemma_divides(m + 1, p + 1);
    assert(twice_middle((m - 1) as nat) == (a + b) * (2 * w)) by (nonlinear_arith)
        requires
            twice_middle((m - 1) as nat) == a * (2 * w) + b * (2 * w),
    ;
    assert(twice_middle(m) == (b + c) * (2 * w)) by (nonlinear_arith)
        requires
            twice_middle(m) == b * (2 * w) + c * (2 * w),
    ;
    lemma_side(n, top, s, w, low, cut, twice_middle((m - 1) as nat), a + b);
    lemma_side(n, top, s, w, low, cut, twice_middle(m), b + c);
}

/// Where twice a middle is twice a multiple `g` of the weight, it compares with
/// the cut as its square does with `n`.
proof fn lemma_side(n: nat, top: nat, s: nat, w: nat, low: nat, cut: nat, c: nat, g: nat)
    requires
        w > 0,
        n == top * (w * w),
        s * s <= top < (s + 1) * (s + 1),
        low == if s * s == top { 0nat } else { 1nat },
        cut == (2 * s + low) * w,
        c == g * (2 * w),
    ensures
        c * 2 < 2 * cut ==> c * c < 4 * n,
        c * 2 > 2 * cut ==> c * c > 4 * n,
        c * 2 == 2 * cut ==> c * c == 4 * n,
{
    assert(c == (2 * g) * w) by (nonlinear_arith)
        requires
            c == g * (2 * w),
    ;
    let x = 2 * g;
    let y = 2 * s + low;
    assert(x * w < y * w <==> x < y) by (nonlinear_arith)
        requires
            w > 0,
    ;
    assert(x * w > y * w <==> x > y) by (nonlinear_arith)
        requires
            w > 0,
    ;
    assert(c * c == (4 * (g * g)) * (w * w)) by (nonlinear_arith)
        requires
            c == (2 * g) * w,
    ;
    assert(4 * n == (4 * top) * (w * w)) by (nonlinear_arith)
        requires
            n == top * (w * w),
    ;
    assert(w * w > 0) by (nonlinear_arith)
        requires
            w > 0,
    ;
    let ww = w * w;
    let gg = g * g;
    if x < y {
        if low == 0 {
            assert(gg < s * s) by (nonlinear_arith)
                requires
                    gg == g * g,
                    g < s,
            ;
        } else {
            assert(gg <= s * s) by (nonlinear_arith)
                requires
                    gg == g * g,
                    g <= s,
            ;
        }
        assert((4 * gg) * ww < (4 * top) * ww) by (nonlinear_arith)
            requires
                gg < top,
                ww > 0,
        ;
    } else if x > y {
        assert(g >= s + 1);
        assert(gg >= (s + 1) * (s + 1)) by (nonlinear_arith)
            requires
                gg == g * g,
                g >= s + 1,
        ;
        assert((4 * gg) * ww > (4 * top) * ww) by (nonlinear_arith)
            requires
                gg > top,
                ww > 0,
        ;
    } else {
        assert(low == 0 && g == s);
    }
}

/// The square root of a number.
pub fn square_root(x: Double) -> (r: Double)
    ensures
        r == root(x),
{
    proof {
        reveal(root);
    }
    let (negative, m) = x.split();
    if m > INFINITE {
        return double(NAN);
    }
    if m == 0 {
        return x;
    }
    if negative {
        return double(NAN);
    }
    if m == INFINITE {
        return x;
    }
    let (k, e) = x.parts();
    let (ka, lost) = normalized(k);
    // The exponent of the radicand, made even.
    let weight: u32 = 1074 + e - lost;
    let t: u32 = if weight % 2 == 0 { 58 } else { 59 };
    let step: u128 = power(t);
    proof {
        lemma2_to64();
        lemma2_to64_rest();
        assert(0x10_0000_0000_0000 * 0x400_0000_0000_0000 <= ka * step < 0x20_0000_0000_0000 * 0x800_0000_0000_0000 + 1)
            by (nonlinear_arith)
            requires
                0x10_0000_0000_0000 <= ka < 0x20_0000_0000_0000,
                0x400_0000_0000_0000 <= step <= 0x800_0000_0000_0000,
        ;
        assert(ka * step < 0x20_0000_0000_0000 * 0x800_0000_0000_0000) by (nonlinear_arith)
            requires
                ka < 0x20_0000_0000_0000,
                0 < step <= 0x800_0000_0000_0000,
        ;
    }
    let top: u128 = ka as u128 * step;
    let s: u64 = whole_root(top);
    let p: u32 = (weight - t) / 2;
    proof {
        assert(s * s <= s * 0xffff_ffff_ffff_ffff) by (nonlinear_arith)
            requires
                0 <= s <= 0xffff_ffff_ffff_ffff,
        ;
    }
    let exact: bool = s as u128 * s as u128 == top;
    let low: u128 = if exact { 0 } else { 1 };
    let doubled: u128 = 2 * s as u128 + low;
    let ghost n = scale(x.magnitude()) * pow2(1074);
    let ghost cut = (2 * s as nat + low as nat) * pow2(p as nat);
    proof {
        assert(s >= 0x40_0000_0000_0000) by (nonlinear_arith)
            requires
                top < (s + 1) * (s + 1),
                top >= 0x10_0000_0000_0000 * 0x400_0000_0000_0000,
                s >= 0,
        ;
        lemma_radicand(n, k as nat, e as nat, ka as nat, lost as nat, t as nat, p as nat, top as nat);
        lemma_doubled_cut(cut, doubled as nat, p as nat);
    }
    let r: u64 = round_cut(doubled, p as i32 - 1, false, Ghost(cut), Ghost(2));
    proof {
        lemma_nearest(cut, 2);
        lemma_root_from_cut(
            n,
            top as nat,
            s as nat,
            p as nat,
            low as nat,
            cut,
            r as nat,
        );
        let chosen = nearest_root(n);
        assert(roots_to(n, chosen));
        if chosen < r {
            lemma_root_is_unique(n, chosen, r as nat);
        } else if chosen > r {
            lemma_root_is_unique(n, r as nat, chosen);
        }
    }
    Double::join(false, r)
}

/// The radicand in units of the root's weight.
proof fn lemma_radicand(n: nat, k: nat, e: nat, ka: nat, lost: nat, t: nat, p: nat, top: nat)
    requires
        n == (k * pow2(e)) * pow2(1074),
        ka == k * pow2(lost),
        lost <= 52,
        top == ka * pow2(t),
        t + 2 * p + lost == 1074 + e,
    ensures
        n == top * (pow2(p) * pow2(p)),
{
    lemma_pow2_adds(e, 1074);
    lemma_pow2_adds(p, p);
    lemma_pow2_adds(lost, t);
    lemma_pow2_adds(lost + t, p + p);
    assert(lost + t + (p + p) == e + 1074);
    assert(n == k * (pow2(e) * pow2(1074))) by (nonlinear_arith)
        requires
            n == (k * pow2(e)) * pow2(1074),
    ;
    let w = pow2(p) * pow2(p);
    assert(top * w == k * ((pow2(lost) * pow2(t)) * w)) by (nonlinear_arith)
        requires
            top == (k * pow2(lost)) * pow2(t),
    ;
}

/// The doubled root, at half its weight, cuts off nothing.
proof fn lemma_doubled_cut(cut: nat, doubled: nat, p: nat)
    requires
        p >= 1,
        cut == doubled * pow2(p),
    ensures
        cuts(cut, 2, doubled, p - 1, false),
{
    lemma2_to64();
    lemma_pow2_unfold(p);
    let weight: nat = 2 * pow2((p - 1) as nat);
    assert(weight == pow2(p));
    assert(lift(p - 1) == 1);
    lemma_pow2_pos(p);
    assert((doubled + 1) * weight == doubled * weight + weight) by (nonlinear_arith);
    assert(cut * 1 == cut);
}

} // verus!
