//! The grid of double-precision magnitudes, and rounding to the nearest of them.
//!
//! A magnitude is the lower 63 bits of a double: eleven exponent bits above
//! fifty-two fraction bits. Its value is counted in units of 2^-1074, the
//! smallest positive double, so that every finite magnitude is a natural number.
use vstd::arithmetic::power2::*;
use vstd::prelude::*;

verus! {

/// The weight of the lowest exponent bit: 2^52.
pub const FRACTION_SPAN: u64 = 0x10_0000_0000_0000;

/// The magnitude of an infinity; every larger magnitude is not a number.
pub const INFINITE: u64 = 0x7ff0_0000_0000_0000;

/// The value of the magnitude `m` in units of 2^-1074.
///
/// At the magnitude of infinity this is the value that the next exponent would
/// have: the point from which rounding counts as an overflow.
pub open spec fn scale(m: nat) -> nat {
    let exponent: nat = m / FRACTION_SPAN as nat;
    let fraction: nat = m % FRACTION_SPAN as nat;
    if exponent == 0 {
        fraction
    } else {
        (FRACTION_SPAN as nat + fraction) * pow2((exponent - 1) as nat)
    }
}

/// Whether `m` is the magnitude nearest to the rational `n / d`, in units of
/// 2^-1074, where a tie goes to the even magnitude.
pub open spec fn rounds_to(n: nat, d: nat, m: nat) -> bool {
    &&& m <= INFINITE
    &&& m > 0 ==> {
        let twice_middle: nat = (scale((m - 1) as nat) + scale(m)) * d;
        twice_middle < 2 * n || (twice_middle == 2 * n && m % 2 == 0)
    }
    &&& m < INFINITE ==> {
        let twice_middle: nat = (scale(m) + scale(m + 1)) * d;
        2 * n < twice_middle || (twice_middle == 2 * n && m % 2 == 0)
    }
}

/// The magnitude nearest to `n / d`, for a positive `d`.
pub open spec fn nearest(n: nat, d: nat) -> nat {
    choose|m: nat| rounds_to(n, d, m)
}

/// A magnitude written as `k` steps of size 2^e above the start of its grid.
pub proof fn lemma_scale_of_steps(k: nat, e: nat)
    requires
        k <= 2 * FRACTION_SPAN,
        e == 0 || k >= FRACTION_SPAN,
    ensures
        scale(k + e * FRACTION_SPAN as nat) == k * pow2(e),
{
    let span = FRACTION_SPAN as nat;
    let m: nat = k + e * span;
    lemma2_to64();
    lemma_pow2_unfold(e + 1);
    if k < span {
        assert(e == 0);
        assert(m / span == 0 && m % span == k);
    } else if k < 2 * span {
        let f: nat = (k - span) as nat;
        assert(m == f + (e + 1) * span) by (nonlinear_arith)
            requires
                m == k + e * span,
                k == f + span,
        ;
        vstd::arithmetic::div_mod::lemma_fundamental_div_mod_converse(
            m as int,
            span as int,
            (e + 1) as int,
            f as int,
        );
    } else {
        assert(m == (e + 2) * span) by (nonlinear_arith)
            requires
                m == k + e * span,
                k == 2 * span,
        ;
        vstd::arithmetic::div_mod::lemma_fundamental_div_mod_converse(
            m as int,
            span as int,
            (e + 2) as int,
            0,
        );
        assert(span * (2 * pow2(e)) == (2 * span) * pow2(e)) by (nonlinear_arith);
    }
}

/// Every magnitude lies on the grid of some exponent.
pub proof fn lemma_steps_of(m: nat) -> (r: (nat, nat))
    ensures
        m == r.0 + r.1 * FRACTION_SPAN as nat,
        r.0 < 2 * FRACTION_SPAN,
        r.1 == 0 || r.0 >= FRACTION_SPAN,
        scale(m) == r.0 * pow2(r.1),
{
    let span = FRACTION_SPAN as nat;
    let e: nat = if m < span { 0 } else { (m / span - 1) as nat };
    let k: nat = (m - e * span) as nat;
    vstd::arithmetic::div_mod::lemma_fundamental_div_mod(m as int, span as int);
    assert(m >= span ==> e * span == span * (m / span) - span) by (nonlinear_arith)
        requires
            m >= span ==> e == m / span - 1,
    ;
    assert(m < span ==> e * span == 0);
    lemma_scale_of_steps(k, e);
    (k, e)
}

/// A larger magnitude has a larger value: one step.
pub proof fn lemma_scale_step(m: nat)
    ensures
        scale(m) < scale(m + 1),
{
    let (k, e) = lemma_steps_of(m);
    lemma_scale_of_steps(k + 1, e);
    lemma_pow2_pos(e);
    assert(k * pow2(e) < (k + 1) * pow2(e)) by (nonlinear_arith)
        requires
            pow2(e) > 0,
    ;
}

/// A larger magnitude has a larger value.
pub proof fn lemma_scale_increases(a: nat, b: nat)
    requires
        a < b,
    ensures
        scale(a) < scale(b),
    decreases b - a,
{
    lemma_scale_step(a);
    if a + 1 < b {
        lemma_scale_increases(a + 1, b);
    }
}

/// The order of magnitudes is the order of their values.
pub proof fn lemma_scale_orders(a: nat, b: nat)
    ensures
        a < b <==> scale(a) < scale(b),
        a == b <==> scale(a) == scale(b),
{
    if a < b {
        lemma_scale_increases(a, b);
    } else if b < a {
        lemma_scale_increases(b, a);
    }
}

/// Some magnitude is the last whose value does not exceed `n / d`.
proof fn lemma_bracket(n: nat, d: nat, m: nat) -> (r: nat)
    requires
        m < INFINITE ==> n < scale(m + 1) * d,
        m <= INFINITE,
    ensures
        r <= INFINITE,
        scale(r) * d <= n,
        r < INFINITE ==> n < scale(r + 1) * d,
    decreases m,
{
    if scale(m) * d <= n {
        m
    } else if m == 0 {
        lemma_scale_of_steps(0, 0);
        assert(0 * d == 0) by (nonlinear_arith);
        assert(false);
        m
    } else {
        lemma_bracket(n, d, (m - 1) as nat)
    }
}

/// Rounding down to `r`, or up to the next magnitude, by which is nearer.
pub proof fn lemma_rounds_from_bracket(n: nat, d: nat, r: nat)
    requires
        d > 0,
        r < INFINITE,
        scale(r) * d <= n < scale(r + 1) * d,
    ensures
        ({
            let twice_middle = (scale(r) + scale(r + 1)) * d;
            let up = 2 * n > twice_middle || (2 * n == twice_middle && r % 2 == 1);
            rounds_to(n, d, if up { r + 1 } else { r })
        }),
{
    let a = scale(r);
    let b = scale(r + 1);
    let c = scale(r + 2);
    lemma_scale_step(r);
    lemma_scale_step(r + 1);
    assert((b + c) * d > 2 * (b * d)) by (nonlinear_arith)
        requires
            c > b,
            d > 0,
    ;
    if r > 0 {
        let z = scale((r - 1) as nat);
        lemma_scale_step((r - 1) as nat);
        assert((z + a) * d < 2 * (a * d)) by (nonlinear_arith)
            requires
                z < a,
                d > 0,
        ;
    }
}

/// At or past the value of the infinite magnitude, rounding overflows.
pub proof fn lemma_rounds_to_infinite(n: nat, d: nat)
    requires
        d > 0,
        scale(INFINITE as nat) * d <= n,
    ensures
        rounds_to(n, d, INFINITE as nat),
{
    let z = scale((INFINITE - 1) as nat);
    let a = scale(INFINITE as nat);
    lemma_scale_step((INFINITE - 1) as nat);
    assert((z + a) * d < 2 * (a * d)) by (nonlinear_arith)
        requires
            z < a,
            d > 0,
    ;
}

/// Every rational has a nearest magnitude, and no other.
pub proof fn lemma_nearest(n: nat, d: nat)
    requires
        d > 0,
    ensures
        rounds_to(n, d, nearest(n, d)),
        forall|m: nat| rounds_to(n, d, m) ==> m == nearest(n, d),
{
    let r = lemma_bracket(n, d, INFINITE as nat);
    if r < INFINITE {
        lemma_rounds_from_bracket(n, d, r);
    } else {
        lemma_rounds_to_infinite(n, d);
    }
    assert forall|m: nat| rounds_to(n, d, m) implies m == nearest(n, d) by {
        lemma_rounding_is_monotone(n, d, m, n, d, nearest(n, d));
        lemma_rounding_is_monotone(n, d, nearest(n, d), n, d, m);
    }
}

/// A larger rational never rounds to a smaller magnitude.
pub proof fn lemma_rounding_is_monotone(n1: nat, d1: nat, m1: nat, n2: nat, d2: nat, m2: nat)
    requires
        d1 > 0,
        d2 > 0,
        n1 * d2 <= n2 * d1,
        rounds_to(n1, d1, m1),
        rounds_to(n2, d2, m2),
    ensures
        m1 <= m2,
{
    if m1 > m2 {
        let lo = scale(m2);
        let hi = scale(m2 + 1);
        let lo1 = scale((m1 - 1) as nat);
        let hi1 = scale(m1);
        lemma_scale_orders((m1 - 1) as nat, m2);
        lemma_scale_orders(m1, m2 + 1);
        assert((lo + hi) * d1 <= (lo1 + hi1) * d1) by (nonlinear_arith)
            requires
                lo <= lo1,
                hi <= hi1,
        ;
        assert((lo + hi) * d1 <= 2 * n1);
        assert(2 * n2 <= (lo + hi) * d2);
        assert(((lo + hi) * d1) * d2 <= (2 * n1) * d2) by (nonlinear_arith)
            requires
                (lo + hi) * d1 <= 2 * n1,
        ;
        assert((2 * n2) * d1 <= ((lo + hi) * d2) * d1) by (nonlinear_arith)
            requires
                2 * n2 <= (lo + hi) * d2,
        ;
        assert(((lo + hi) * d2) * d1 == ((lo + hi) * d1) * d2) by (nonlinear_arith);
        assert((2 * n1) * d2 == 2 * (n1 * d2)) by (nonlinear_arith);
        assert((2 * n2) * d1 == 2 * (n2 * d1)) by (nonlinear_arith);
        assert(((lo + hi) * d1) * d2 == (2 * n1) * d2);
        assert((lo + hi) * d1 == 2 * n1) by (nonlinear_arith)
            requires
                ((lo + hi) * d1) * d2 == (2 * n1) * d2,
                d2 > 0,
        ;
        assert((lo + hi) * d2 == 2 * n2) by (nonlinear_arith)
            requires
                ((lo + hi) * d2) * d1 == (2 * n2) * d1,
                d1 > 0,
        ;
        assert((lo1 + hi1) * d1 == (lo + hi) * d1);
        assert(lo1 + hi1 == lo + hi) by (nonlinear_arith)
            requires
                (lo1 + hi1) * d1 == (lo + hi) * d1,
                d1 > 0,
        ;
        assert(m1 == m2 + 1);
        assert(false);
    }
}

/// Scaling both sides of the fraction changes nothing.
pub proof fn lemma_rounding_of_scaled(n: nat, d: nat, c: nat, m: nat)
    requires
        c > 0,
        rounds_to(n * c, d * c, m),
    ensures
        rounds_to(n, d, m),
{
    if m > 0 {
        let s: nat = scale((m - 1) as nat) + scale(m);
        lemma_cancel(s, n, d, c);
    }
    if m < INFINITE {
        let s: nat = scale(m) + scale(m + 1);
        lemma_cancel(s, n, d, c);
    }
}

proof fn lemma_cancel(s: nat, n: nat, d: nat, c: nat)
    requires
        c > 0,
    ensures
        s * (d * c) < 2 * (n * c) <==> s * d < 2 * n,
        s * (d * c) == 2 * (n * c) <==> s * d == 2 * n,
{
    let a = s * d;
    let b = 2 * n;
    assert(s * (d * c) == a * c) by (nonlinear_arith)
        requires
            a == s * d,
    ;
    assert(2 * (n * c) == b * c) by (nonlinear_arith)
        requires
            b == 2 * n,
    ;
    assert(a * c < b * c <==> a < b) by (nonlinear_arith)
        requires
            c > 0,
    ;
    assert(a * c == b * c <==> a == b) by (nonlinear_arith)
        requires
            c > 0,
    ;
}

/// A value on the grid rounds to itself.
pub proof fn lemma_nearest_is_exact(m: nat, d: nat)
    requires
        d > 0,
        m <= INFINITE,
    ensures
        nearest(scale(m) * d, d) == m,
{
    let n = scale(m) * d;
    lemma_nearest(n, d);
    if m < INFINITE {
        lemma_scale_step(m);
        let b = scale(m + 1);
        assert(n < b * d) by (nonlinear_arith)
            requires
                n == scale(m) * d,
                scale(m) < b,
                d > 0,
        ;
        assert((scale(m) + b) * d > 2 * n) by (nonlinear_arith)
            requires
                n == scale(m) * d,
                scale(m) < b,
                d > 0,
        ;
        lemma_rounds_from_bracket(n, d, m);
    } else {
        lemma_rounds_to_infinite(n, d);
    }
}

/// A larger rational never has a smaller nearest magnitude.
pub proof fn lemma_nearest_is_monotone(n1: nat, d1: nat, n2: nat, d2: nat)
    requires
        d1 > 0,
        d2 > 0,
        n1 * d2 <= n2 * d1,
    ensures
        nearest(n1, d1) <= nearest(n2, d2),
{
    lemma_nearest(n1, d1);
    lemma_nearest(n2, d2);
    lemma_rounding_is_monotone(n1, d1, nearest(n1, d1), n2, d2, nearest(n2, d2));
}

/// Rounding errs by at most half the last place: a share of 2^-53, or half a unit.
pub proof fn lemma_rounding_error(n: nat, d: nat)
    requires
        d > 0,
    ensures
        ({
            let span = FRACTION_SPAN as nat;
            let s = scale(nearest(n, d)) * d;
            &&& 2 * span * s <= 2 * span * n + n + span * d
            &&& nearest(n, d) < INFINITE ==> 2 * span * n <= 2 * span * s + n + span * d
        }),
{
    lemma_nearest(n, d);
    let span = FRACTION_SPAN as nat;
    let m = nearest(n, d);
    let s = scale(m) * d;
    if m == 0 {
        lemma_scale_of_steps(0, 0);
        assert(scale(0) * d == 0) by (nonlinear_arith)
            requires
                scale(0) == 0,
        ;
    } else {
        let (k, e) = lemma_steps_of((m - 1) as nat);
        lemma_scale_of_steps(k + 1, e);
        lemma_pow2_pos(e);
        lemma2_to64();
        lemma_error_above(n, d, span, k, pow2(e));
    }
    if m < INFINITE {
        let (k, e) = lemma_steps_of(m);
        lemma_scale_of_steps(k + 1, e);
        lemma_pow2_pos(e);
        lemma2_to64();
        lemma_error_below(n, d, span, k, pow2(e));
    }
}

proof fn lemma_error_above(n: nat, d: nat, span: nat, k: nat, w: nat)
    requires
        w == 1 || k >= span,
        (k * w + (k + 1) * w) * d <= 2 * n,
    ensures
        2 * span * (((k + 1) * w) * d) <= 2 * span * n + n + span * d,
{
    let g = w * d;
    assert((k * w + (k + 1) * w) * d == (2 * k + 1) * g) by (nonlinear_arith)
        requires
            g == w * d,
    ;
    assert(((k + 1) * w) * d == (k + 1) * g) by (nonlinear_arith)
        requires
            g == w * d,
    ;
    assert(2 * ((k + 1) * g) == (2 * k + 1) * g + g) by (nonlinear_arith);
    let x = (k + 1) * g;
    assert(2 * x <= 2 * n + g);
    assert(span * g <= n + span * d) by (nonlinear_arith)
        requires
            g == w * d,
            w == 1 || k >= span,
            (2 * k + 1) * g <= 2 * n,
    ;
    assert(2 * span * x <= 2 * span * n + span * g) by (nonlinear_arith)
        requires
            2 * x <= 2 * n + g,
    ;
}

proof fn lemma_error_below(n: nat, d: nat, span: nat, k: nat, w: nat)
    requires
        w == 1 || k >= span,
        2 * n <= (k * w + (k + 1) * w) * d,
    ensures
        2 * span * n <= 2 * span * ((k * w) * d) + n + span * d,
{
    let g = w * d;
    assert((k * w + (k + 1) * w) * d == (2 * k + 1) * g) by (nonlinear_arith)
        requires
            g == w * d,
    ;
    assert((k * w) * d == k * g) by (nonlinear_arith)
        requires
            g == w * d,
    ;
    assert((2 * k + 1) * g == 2 * (k * g) + g) by (nonlinear_arith);
    let x = k * g;
    assert(2 * n <= 2 * x + g);
    if n > x {
        assert(span * g <= n + span * d) by (nonlinear_arith)
            requires
                g == w * d,
                w == 1 || k >= span,
                k * g <= n,
        ;
        assert(2 * span * n <= 2 * span * x + span * g) by (nonlinear_arith)
            requires
                2 * n <= 2 * x + g,
        ;
    } else {
        assert(2 * span * n <= 2 * span * x) by (nonlinear_arith)
            requires
                n <= x,
        ;
        assert(span * d >= 0) by (nonlinear_arith);
    }
}

} // verus!
