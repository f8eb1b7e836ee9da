//! How far the body leans: roll and pitch taken together.
use vstd::prelude::*;

use crate::control::stick::{
    lemma_product_commutes, lemma_product_shrinks, lemma_quotient_shrinks, lemma_stick_is_within_one,
    within_one,
};
use crate::control::teleop::{tilt, Teleop};
use crate::double::{double, lemma_order, lemma_scale_of_zero, lemma_unit_product, Double, ONE};
use crate::measure::{
    bare, eps, lemma_product_strays, lemma_quotient_strays, lemma_root_strays, lemma_sum_strays,
    lemma_unit, lemma_worth, lemma_worth_orders, tiny, worth,
};
use crate::root::{lemma_nearest_root, root};
use crate::rounding::{lemma_nearest, lemma_scale_orders, scale};

verus! {

/// Whether roll and pitch, taken together, lean at most `most`.
pub open spec fn leans_within(roll: Double, pitch: Double, most: real) -> bool {
    &&& roll.finite()
    &&& pitch.finite()
    &&& worth(roll) * worth(roll) + worth(pitch) * worth(pitch) <= most * most
}

/// What the sum of two squares is, as far as its computed root tells.
proof fn lemma_squares_below(q: real, s: real, n: real, e: real, t: real)
    requires
        0real < e <= 1real / 1000000real,
        0real < t <= e * e,
        n >= 0real,
        q >= 0real,
        q * (1real - e) * (1real - e) - 3real * t <= s,
        s <= (n + n * e + t) * (n + n * e + t),
    ensures
        q <= n * n * (1real + 6real * e) + 8real * t,
{
    let nn = n * n;
    assert(nn >= 0real) by (nonlinear_arith)
        requires
            nn == n * n,
    ;
    assert((n + n * e + t) * (n + n * e + t) <= nn * (1real + 3real * e) + 4real * t)
        by (nonlinear_arith)
        requires
            nn == n * n,
            0real < e <= 1real / 1000000real,
            0real < t <= e * e,
            n >= 0real,
    {
        let y = n * (1real + e);
        assert((n + n * e + t) * (n + n * e + t) == y * y + 2real * y * t + t * t);
        assert(y * y == nn * (1real + 2real * e + e * e));
        assert(2real * n <= nn + 1real);
        assert(2real * y * t <= (nn + 1real) * (1real + e) * t);
        assert((nn + 1real) * (1real + e) * t <= 2real * nn * t + 2real * t);
        assert(2real * nn * t <= 2real * nn * (e * e));
        assert(nn * (1real + 2real * e + e * e) + 2real * nn * (e * e) <= nn * (1real + 3real * e));
        assert(t * t <= t);
    }
    assert(q * (1real - 2real * e) <= q * (1real - e) * (1real - e)) by (nonlinear_arith)
        requires
            q >= 0real,
    ;
    let z = nn * (1real + 3real * e) + 7real * t;
    assert(q * (1real - 2real * e) <= z);
    assert(z <= (nn * (1real + 6real * e) + 8real * t) * (1real - 2real * e)) by (nonlinear_arith)
        requires
            z == nn * (1real + 3real * e) + 7real * t,
            nn >= 0real,
            0real < e <= 1real / 1000000real,
            t > 0real,
    ;
    assert(q <= nn * (1real + 6real * e) + 8real * t) by (nonlinear_arith)
        requires
            q * (1real - 2real * e) <= (nn * (1real + 6real * e) + 8real * t) * (1real - 2real * e),
            0real < e <= 1real / 1000000real,
    ;
}

/// The computed root of two squares is not far above the larger of what was squared.
proof fn lemma_root_is_bounded(m: real, s: real, n: real, e: real, t: real)
    requires
        0real < e <= 1real / 1000000real,
        0real < t <= e * e,
        m >= 0real,
        n >= 0real,
        s <= 3real * (m * m) + 1real / 4real,
        n - n * e - t > 0real ==> (n - n * e - t) * (n - n * e - t) <= s,
    ensures
        n <= 2real * m + 1real,
{
    if n > 2real * m + 1real {
        let less = n - n * e - t;
        let low = (19real / 10real) * m + 9real / 10real;
        assert(less >= low) by (nonlinear_arith)
            requires
                less == n - n * e - t,
                n > 2real * m + 1real,
                m >= 0real,
                low == (19real / 10real) * m + 9real / 10real,
                0real < e <= 1real / 1000000real,
                0real < t <= e * e,
        ;
        assert(less * less >= low * low) by (nonlinear_arith)
            requires
                less >= low >= 0real,
        ;
        assert(low * low > 3real * (m * m) + 1real / 4real) by (nonlinear_arith)
            requires
                low == (19real / 10real) * m + 9real / 10real,
                m >= 0real,
        ;
        assert(false);
    }
}

/// Products keep the order of their factors.
proof fn lemma_mono(a: real, b: real, c: real)
    requires
        a <= b,
        0real <= c,
    ensures
        a * c <= b * c,
{
    assert(a * c <= b * c) by (nonlinear_arith)
        requires
            a <= b,
            0real <= c,
    ;
}

/// The share shortens the computed length to the limit, but for rounding.
proof fn lemma_share(m: real, n: real, k: real, e: real, t: real)
    requires
        0real < e <= 1real / 1000000real,
        0real < t <= e * e,
        0real <= m < n,
        n <= 2real * m + 1real,
        0real <= k,
        k * n <= m * (1real + e) + t * n,
    ensures
        k * n <= m * (1real + 2real * e) + t,
        k <= 2real,
{
    assert(t <= e / 2real && e * e <= e / 1000000real) by (nonlinear_arith)
        requires
            0real < t <= e * e,
            0real < e <= 1real / 1000000real,
    ;
    let tn = t * n;
    let tm = t * m;
    let em = e * m;
    assert(tn <= 2real * tm + t) by (nonlinear_arith)
        requires
            tn == t * n,
            tm == t * m,
            n <= 2real * m + 1real,
            t > 0real,
    ;
    assert(2real * tm <= em) by (nonlinear_arith)
        requires
            tm == t * m,
            em == e * m,
            t <= e / 2real,
            m >= 0real,
    ;
    let kn = k * n;
    assert(m * (1real + e) == m + em && m * (1real + 2real * e) == m + 2real * em)
        by (nonlinear_arith)
        requires
            em == e * m,
    ;
    assert(kn <= m + em + tn);
    assert(tn <= n / 2real && em <= n / 2real) by (nonlinear_arith)
        requires
            tn == t * n,
            em == e * m,
            0real < t <= e / 2real,
            0real < e <= 1real / 1000000real,
            0real <= m < n,
    ;
    assert(kn <= 2real * n);
    assert(k <= 2real) by (nonlinear_arith)
        requires
            kn == k * n,
            kn <= 2real * n,
            n > 0real,
    ;
}

/// The squares of two angles that were shortened.
proof fn lemma_shortened_squares(q: real, n: real, k: real, z: real, e: real, t: real)
    requires
        0real < e,
        0real < t,
        q <= n * n * (1real + 6real * e) + 8real * t,
        0real <= k <= 2real,
        0real <= n,
        k * n <= z,
    ensures
        (k * k) * q <= (z * z) * (1real + 6real * e) + 32real * t,
{
    let kk = k * k;
    let kn = k * n;
    let nn = n * n;
    assert(0real <= kk <= 4real && 0real <= kn) by (nonlinear_arith)
        requires
            kk == k * k,
            kn == k * n,
            0real <= k <= 2real,
            0real <= n,
    ;
    let f = 1real + 6real * e;
    let y = nn * f;
    lemma_mono(q, y + 8real * t, kk);
    assert(kk * y == (kn * kn) * f) by (nonlinear_arith)
        requires
            kk == k * k,
            kn == k * n,
            y == (n * n) * f,
    ;
    assert(kn * kn <= z * z) by (nonlinear_arith)
        requires
            0real <= kn <= z,
    ;
    lemma_mono(kn * kn, z * z, f);
    assert((y + 8real * t) * kk == kk * y + 8real * (t * kk)) by (nonlinear_arith);
    assert(t * kk <= 4real * t) by (nonlinear_arith)
        requires
            0real <= kk <= 4real,
            t > 0real,
    ;
    assert(q * kk == kk * q) by (nonlinear_arith);
}

/// The square of the limit with its errors.
proof fn lemma_limit_square(m: real, e: real, t: real)
    requires
        0real < e <= 1real / 1000000real,
        0real < t <= e * e,
        0real <= m,
    ensures
        ({
            let z = m * (1real + 2real * e) + t;
            z * z <= (m * m) * (1real + 5real * e) + 3real * (t * m) + t
        }),
{
    let z = m * (1real + 2real * e) + t;
    let mm = m * m;
    let tm = t * m;
    let em = e * m;
    assert(z == m + 2real * em + t) by (nonlinear_arith)
        requires
            z == m * (1real + 2real * e) + t,
            em == e * m,
    ;
    let e2m = 2real * em;
    assert(z * z == m * m + 2real * (m * e2m) + e2m * e2m + 2real * (m * t) + 2real * (e2m * t)
        + t * t) by (nonlinear_arith)
        requires
            z == m + e2m + t,
    ;
    assert(m * e2m == 2real * (e * mm)) by (nonlinear_arith)
        requires
            e2m == 2real * em,
            em == e * m,
            mm == m * m,
    ;
    assert(e2m * e2m == 4real * (e * (e * mm))) by (nonlinear_arith)
        requires
            e2m == 2real * em,
            em == e * m,
            mm == m * m,
    ;
    assert(e2m * t == 2real * (e * tm)) by (nonlinear_arith)
        requires
            e2m == 2real * em,
            em == e * m,
            tm == t * m,
    ;
    assert(m * t == tm) by (nonlinear_arith)
        requires
            tm == t * m,
    ;
    let emm = e * mm;
    assert(emm >= 0real && tm >= 0real) by (nonlinear_arith)
        requires
            emm == e * (m * m),
            tm == t * m,
            e > 0real,
            t > 0real,
            m >= 0real,
    ;
    assert(4real * (e * emm) <= emm) by (nonlinear_arith)
        requires
            emm >= 0real,
            0real < e <= 1real / 1000000real,
    ;
    assert(4real * (e * tm) <= tm) by (nonlinear_arith)
        requires
            tm >= 0real,
            0real < e <= 1real / 1000000real,
    ;
    assert(t * t <= t) by (nonlinear_arith)
        requires
            0real < t <= e * e,
            0real < e <= 1real / 1000000real,
    ;
    assert(mm * (1real + 5real * e) == mm + 5real * emm) by (nonlinear_arith)
        requires
            emm == e * mm,
    ;
}

/// An error of a part more, multiplied out.
proof fn lemma_times_part(mm: real, tm: real, t: real, a: real, b: real, c: real, g: real, e: real)
    requires
        0real < e <= 1real / 1000000real,
        0real <= mm,
        0real <= tm,
        0real < t,
        0real <= a <= 15real,
        0real <= b <= 10real,
        0real <= c <= 100real,
        0real <= g <= 6real,
    ensures
        (mm * (1real + a * e) + b * tm + c * t) * (1real + g * e) <= mm * (1real + (a + g
            + 1real / 1000real) * e) + (b + 1real / 1000real) * tm + (c + 1real / 1000real) * t,
{
    let emm = e * mm;
    let h = g * e;
    assert(0real <= h <= 6real / 1000000real) by (nonlinear_arith)
        requires
            h == g * e,
            0real <= g <= 6real,
            0real < e <= 1real / 1000000real,
    ;
    let pa = a * emm;
    let pb = b * tm;
    let pc = c * t;
    let x = mm + pa + pb + pc;
    assert(mm * (1real + a * e) == mm + pa) by (nonlinear_arith)
        requires
            pa == a * emm,
            emm == e * mm,
    ;
    assert(x * (1real + h) == x + h * mm + h * pa + h * pb + h * pc) by (nonlinear_arith)
        requires
            x == mm + pa + pb + pc,
    ;
    assert(h * mm == g * emm) by (nonlinear_arith)
        requires
            h == g * e,
            emm == e * mm,
    ;
    assert(emm >= 0real) by (nonlinear_arith)
        requires
            emm == e * mm,
            e > 0real,
            mm >= 0real,
    ;
    lemma_small_share(h, a, emm, 15real);
    lemma_small_share(h, b, tm, 10real);
    lemma_small_share(h, c, t, 100real);
    let all = a + g + 1real / 1000real;
    assert(mm * (1real + all * e) == mm + all * emm) by (nonlinear_arith)
        requires
            emm == e * mm,
    ;
    assert(all * emm == a * emm + g * emm + emm / 1000real) by (nonlinear_arith)
        requires
            all == a + g + 1real / 1000real,
    ;
    assert((b + 1real / 1000real) * tm == b * tm + tm / 1000real) by (nonlinear_arith);
    assert((c + 1real / 1000real) * t == c * t + t / 1000real) by (nonlinear_arith);
}

proof fn lemma_small_share(h: real, a: real, x: real, most: real)
    requires
        0real <= h <= 6real / 1000000real,
        0real <= a <= most,
        most <= 100real,
        0real <= x,
    ensures
        h * (a * x) <= x / 1000real,
{
    let ax = a * x;
    assert(0real <= ax <= 100real * x) by (nonlinear_arith)
        requires
            ax == a * x,
            0real <= a <= 100real,
            0real <= x,
    ;
    assert(h * ax <= x / 1000real) by (nonlinear_arith)
        requires
            0real <= ax <= 100real * x,
            0real <= h <= 6real / 1000000real,
            0real <= x,
    ;
}

/// The squares of two results that stray from what they should be.
proof fn lemma_strayed_squares(r: real, p: real, x: real, y: real, m: real, t: real)
    requires
        0real <= r <= x + t,
        0real <= p <= y + t,
        0real <= x <= 3real * m,
        0real <= y <= 3real * m,
        0real < t <= 1real / 1000000real,
    ensures
        r * r + p * p <= x * x + y * y + 12real * (t * m) + t,
{
    assert(r * r <= x * x + 2real * (x * t) + t * t) by (nonlinear_arith)
        requires
            0real <= r <= x + t,
    ;
    assert(p * p <= y * y + 2real * (y * t) + t * t) by (nonlinear_arith)
        requires
            0real <= p <= y + t,
    ;
    assert(x * t <= 3real * (t * m)) by (nonlinear_arith)
        requires
            x <= 3real * m,
            t > 0real,
    ;
    assert(y * t <= 3real * (t * m)) by (nonlinear_arith)
        requires
            y <= 3real * m,
            t > 0real,
    ;
    assert(t * t <= t / 2real) by (nonlinear_arith)
        requires
            0real < t <= 1real / 1000000real,
    ;
}

/// What roll and pitch add up to, squared, if the limit is `m`.
spec fn leaned(m: real) -> real {
    (m * m) * (1real + 15real * eps()) + 16real * (tiny() * m) + 35real * tiny()
}

/// What is left of two angles that were shortened by the computed share.
proof fn lemma_shortened(m: real, a: real, b: real, n: real, k: real, r: real, p: real)
    requires
        0real <= a <= m,
        0real <= b <= m,
        0real <= m < n,
        n <= 2real * m + 1real,
        a * a + b * b <= n * n * (1real + 6real * eps()) + 8real * tiny(),
        0real <= k,
        k * n <= m * (1real + eps()) + tiny() * n,
        0real <= r <= a * k * (1real + eps()) + tiny(),
        0real <= p <= b * k * (1real + eps()) + tiny(),
    ensures
        r * r + p * p <= leaned(m),
{
    let e = eps();
    let t = tiny();
    lemma_unit();
    lemma_small_errors();
    let z = m * (1real + 2real * e) + t;
    let q = a * a + b * b;
    let kk = k * k;
    let zz = z * z;
    let mm = m * m;
    let tm = t * m;
    lemma_share(m, n, k, e, t);
    lemma_shortened_squares(q, n, k, z, e, t);
    lemma_limit_square(m, e, t);
    assert(mm >= 0real && tm >= 0real && kk >= 0real && q >= 0real) by (nonlinear_arith)
        requires
            mm == m * m,
            tm == t * m,
            kk == k * k,
            q == a * a + b * b,
            t > 0real,
            m >= 0real,
    ;
    lemma_mono(zz, mm * (1real + 5real * e) + 3real * tm + 1real * t, 1real + 6real * e);
    lemma_times_part(mm, tm, t, 5real, 3real, 1real, 6real, e);
    let a1 = 11001real / 1000real;
    let b1 = 3001real / 1000real;
    let c1 = 33001real / 1000real;
    let w = mm * (1real + a1 * e) + b1 * tm + c1 * t;
    let y = kk * q;
    assert(5real + 6real + 1real / 1000real == a1);
    assert(y <= w);
    assert(y >= 0real) by (nonlinear_arith)
        requires
            y == kk * q,
            kk >= 0real,
            q >= 0real,
    ;
    let f = (1real + e) * (1real + e);
    assert(1real <= f <= 1real + 3real * e) by (nonlinear_arith)
        requires
            f == (1real + e) * (1real + e),
            0real < e <= 1real / 1000000real,
    ;
    lemma_mono(y, w, f);
    lemma_mono(f, 1real + 3real * e, w);
    assert(w * f == f * w && w * (1real + 3real * e) == (1real + 3real * e) * w)
        by (nonlinear_arith);
    lemma_times_part(mm, tm, t, a1, b1, c1, 3real, e);
    assert(a1 + 3real + 1real / 1000real == 14002real / 1000real);
    let xa = a * k;
    let xb = b * k;
    assert(0real <= xa <= 2real * m) by (nonlinear_arith)
        requires
            xa == a * k,
            0real <= a <= m,
            0real <= k <= 2real,
    ;
    assert(0real <= xb <= 2real * m) by (nonlinear_arith)
        requires
            xb == b * k,
            0real <= b <= m,
            0real <= k <= 2real,
    ;
    let x1 = xa * (1real + e);
    let x2 = xb * (1real + e);
    assert(0real <= x1 <= 3real * m) by (nonlinear_arith)
        requires
            x1 == xa * (1real + e),
            0real <= xa <= 2real * m,
            0real < e <= 1real / 1000000real,
    ;
    assert(0real <= x2 <= 3real * m) by (nonlinear_arith)
        requires
            x2 == xb * (1real + e),
            0real <= xb <= 2real * m,
            0real < e <= 1real / 1000000real,
    ;
    assert(x1 * x1 == (xa * xa) * f) by (nonlinear_arith)
        requires
            x1 == xa * (1real + e),
            f == (1real + e) * (1real + e),
    ;
    assert(x2 * x2 == (xb * xb) * f) by (nonlinear_arith)
        requires
            x2 == xb * (1real + e),
            f == (1real + e) * (1real + e),
    ;
    assert(xa * xa + xb * xb == y) by (nonlinear_arith)
        requires
            xa == a * k,
            xb == b * k,
            y == (k * k) * (a * a + b * b),
    ;
    assert((xa * xa) * f + (xb * xb) * f == y * f) by (nonlinear_arith)
        requires
            xa * xa + xb * xb == y,
    ;
    lemma_strayed_squares(r, p, x1, x2, m, t);
    lemma_part_grows(mm, 14002real / 1000real, 15real, e);
}

proof fn lemma_part_grows(mm: real, a: real, b: real, e: real)
    requires
        mm >= 0real,
        a <= b,
        e > 0real,
    ensures
        mm * (1real + a * e) <= mm * (1real + b * e),
{
    assert(a * e <= b * e) by (nonlinear_arith)
        requires
            a <= b,
            e > 0real,
    ;
    let x = 1real + a * e;
    let y = 1real + b * e;
    assert(mm * x <= mm * y) by (nonlinear_arith)
        requires
            x <= y,
            mm >= 0real,
    ;
}

proof fn lemma_small_errors()
    ensures
        0real < eps() <= 1real / 1000000real,
        0real < tiny() <= 1real / 1000000real,
        tiny() <= eps() * eps(),
{
    lemma_unit();
    assert(eps() * eps() <= 1real / 1000000real) by (nonlinear_arith)
        requires
            eps() == 1real / 9007199254740992real,
    ;
}

/// The errors stay within a part of the limit, and within a billionth where it is of
/// ordinary size.
proof fn lemma_leaned(m: real)
    requires
        m >= 0real,
    ensures
        ({
            let wide = m + m / 4398046511104real + 1real / 4398046511104real;
            leaned(m) <= wide * wide
        }),
        m <= 1024real ==> leaned(m) <= (m + 1real / 1000000000real) * (m + 1real / 1000000000real),
{
    lemma_small_errors();
    let e = eps();
    let t = tiny();
    let mm = m * m;
    let c = 1real / 4398046511104real;
    let d = 1real / 1000000000real;
    assert(mm * (1real + 15real * e) == mm + 15real * (e * mm)) by (nonlinear_arith);
    assert(mm >= 0real) by (nonlinear_arith)
        requires
            mm == m * m,
    ;
    let wide = m + m / 4398046511104real + c;
    assert(wide == m + m * c + c) by (nonlinear_arith)
        requires
            wide == m + m / 4398046511104real + c,
            c == 1real / 4398046511104real,
    ;
    let mc = m * c;
    assert(wide * wide == mm + 2real * (m * mc) + mc * mc + 2real * (m * c) + 2real * (mc * c) + c * c)
        by (nonlinear_arith)
        requires
            wide == m + mc + c,
            mm == m * m,
    ;
    assert(mc >= 0real && m * mc == mm * c) by (nonlinear_arith)
        requires
            mc == m * c,
            mm == m * m,
            m >= 0real,
            c == 1real / 4398046511104real,
    ;
    assert(mc * mc >= 0real && mc * c >= 0real) by (nonlinear_arith)
        requires
            mc >= 0real,
            c == 1real / 4398046511104real,
    ;
    assert(15real * (e * mm) <= 2real * (mm * c)) by (nonlinear_arith)
        requires
            mm >= 0real,
            e == 1real / 9007199254740992real,
            c == 1real / 4398046511104real,
    ;
    assert(t <= c * c / 1000real) by (nonlinear_arith)
        requires
            t <= e * e,
            e == 1real / 9007199254740992real,
            c == 1real / 4398046511104real,
    ;
    assert(c * c <= c) by (nonlinear_arith)
        requires
            c == 1real / 4398046511104real,
    ;
    assert(16real * (t * m) <= 2real * mc) by (nonlinear_arith)
        requires
            mc == m * c,
            m >= 0real,
            0real < t <= c / 1000real,
    ;
    if m <= 1024real {
        let near = m + d;
        assert(near * near == mm + 2real * (m * d) + d * d) by (nonlinear_arith)
            requires
                near == m + d,
                mm == m * m,
        ;
        assert(mm <= 1024real * m) by (nonlinear_arith)
            requires
                mm == m * m,
                0real <= m <= 1024real,
        ;
        assert(15real * (e * mm) <= m * d) by (nonlinear_arith)
            requires
                0real <= mm <= 1024real * m,
                e == 1real / 9007199254740992real,
                d == 1real / 1000000000real,
        ;
        assert(16real * (t * m) <= m * d) by (nonlinear_arith)
            requires
                m >= 0real,
                t <= c / 1000real,
                c == 1real / 4398046511104real,
                d == 1real / 1000000000real,
        ;
        assert(35real * t <= d * d) by (nonlinear_arith)
            requires
                t <= c * c / 1000real,
                c == 1real / 4398046511104real,
                d == 1real / 1000000000real,
        ;
    }
}

/// The square of a number is at most what its rounding gives, and a little.
pub proof fn lemma_square(r: Double)
    requires
        r.finite(),
    ensures
        !r.times(r).nan(),
        !r.times(r).negative(),
        r.times(r).finite() ==> {
            let a = bare(worth(r));
            &&& worth(r.times(r)) >= 0real
            &&& a * a - (a * a) * eps() - tiny() <= worth(r.times(r)) <= a * a + (a * a) * eps() + tiny()
        },
{
    assert(!r.times(r).nan() && !r.times(r).negative()) by {
        reveal(Double::product);
        vstd::arithmetic::power2::lemma_pow2_pos(1074);
        lemma_nearest(
            scale(r.magnitude()) * scale(r.magnitude()),
            vstd::arithmetic::power2::pow2(1074),
        );
    }
    if r.times(r).finite() {
        lemma_product_strays(r, r);
        lemma_worth(r.times(r));
    }
}

/// A sum of numbers that are not negative is none either, and is finite only if they
/// are.
pub proof fn lemma_sum_of_squares(a: Double, b: Double)
    requires
        !a.nan(),
        !b.nan(),
        !a.negative(),
        !b.negative(),
    ensures
        !a.sum(b).nan(),
        !a.sum(b).negative(),
        a.sum(b).finite() ==> a.finite() && b.finite(),
{
    reveal(Double::sum);
    lemma_nearest(crate::double::size(a.value() + b.value()), 1);
}

/// The root of a number that is not negative is none either, and is finite only if
/// the number is.
proof fn lemma_root_of(x: Double)
    requires
        !x.nan(),
        !x.negative(),
    ensures
        !root(x).nan(),
        !root(x).negative(),
        root(x).finite() ==> x.finite(),
{
    reveal(root);
    lemma_nearest_root(scale(x.magnitude()) * vstd::arithmetic::power2::pow2(1074));
}

/// The length of two angles as computed, against what it is.
proof fn lemma_length(r: Double, p: Double, m: real)
    requires
        r.finite(),
        p.finite(),
        bare(worth(r)) <= m,
        bare(worth(p)) <= m,
        root(r.times(r).plus(p.times(p))).finite(),
    ensures
        ({
            let a = bare(worth(r));
            let b = bare(worth(p));
            let n = worth(root(r.times(r).plus(p.times(p))));
            &&& n >= 0real
            &&& n <= 2real * m + 1real
            &&& a * a + b * b <= n * n * (1real + 6real * eps()) + 8real * tiny()
        }),
{
    let e = eps();
    let t = tiny();
    lemma_small_errors();
    let rr = r.times(r);
    let pp = p.times(p);
    let sum = rr.plus(pp);
    lemma_square(r);
    lemma_square(p);
    lemma_sum_of_squares(rr, pp);
    lemma_root_of(sum);
    lemma_sum_strays(rr, pp);
    lemma_worth(sum);
    lemma_root_strays(sum);
    let a = bare(worth(r));
    let b = bare(worth(p));
    let n = worth(root(sum));
    let s = worth(sum);
    let aa = a * a;
    let bb = b * b;
    let q = aa + bb;
    let mm = m * m;
    assert(0real <= aa <= mm) by (nonlinear_arith)
        requires
            aa == a * a,
            mm == m * m,
            0real <= a <= m,
    ;
    assert(0real <= bb <= mm) by (nonlinear_arith)
        requires
            bb == b * b,
            mm == m * m,
            0real <= b <= m,
    ;
    let x = worth(rr);
    let y = worth(pp);
    let qe = q * e;
    assert(aa * e + bb * e == qe) by (nonlinear_arith)
        requires
            q == aa + bb,
            qe == q * e,
    ;
    assert(q - qe - 2real * t <= x + y <= q + qe + 2real * t);
    assert(qe >= 0real && qe <= q) by (nonlinear_arith)
        requires
            qe == q * e,
            q >= 0real,
            0real < e <= 1real / 1000000real,
    ;
    let v = x + y;
    let ve = v * e;
    assert(v - ve - t <= s <= v + ve + t);
    assert(v * (1real - e) == v - ve) by (nonlinear_arith)
        requires
            ve == v * e,
    ;
    let low = q - qe - 2real * t;
    lemma_mono(low, v, 1real - e);
    assert(low * (1real - e) == q * (1real - e) * (1real - e) - 2real * t + 2real * (t * e))
        by (nonlinear_arith)
        requires
            low == q - qe - 2real * t,
            qe == q * e,
    ;
    assert(t * e >= 0real) by (nonlinear_arith)
        requires
            t > 0real,
            e > 0real,
    ;
    lemma_squares_below(q, s, n, e, t);
    assert(ve <= v / 1000000real && qe <= q / 1000000real) by (nonlinear_arith)
        requires
            ve == v * e,
            qe == q * e,
            v >= 0real,
            q >= 0real,
            0real < e <= 1real / 1000000real,
    ;
    assert(s <= 3real * mm + 1real / 4real);
    lemma_root_is_bounded(m, s, n, e, t);
}

/// Roll and pitch lean no further than the limit, but for rounding.
proof fn lemma_tilt_leans(roll: Double, pitch: Double, yaw: Double, most: Double)
    requires
        within_one(roll),
        within_one(pitch),
        most.finite(),
        double(0).is_at_most(most),
    ensures
        ({
            let a = tilt(roll, pitch, yaw, most);
            &&& a.roll.finite()
            &&& a.pitch.finite()
            &&& worth(a.roll) * worth(a.roll) + worth(a.pitch) * worth(a.pitch) <= leaned(
                worth(most),
            )
        }),
{
    let e = eps();
    let t = tiny();
    lemma_small_errors();
    lemma_scale_of_zero();
    let r = roll.times(most);
    let p = pitch.times(most);
    lemma_product_commutes(roll, most);
    lemma_product_shrinks(most, roll);
    lemma_product_commutes(pitch, most);
    lemma_product_shrinks(most, pitch);
    let m = worth(most);
    lemma_worth(most);
    lemma_worth(double(0));
    lemma_worth_orders(double(0), most);
    lemma_bare_orders(r, most);
    lemma_bare_orders(p, most);
    let sum = r.times(r).plus(p.times(p));
    let n = root(sum);
    lemma_square(r);
    lemma_square(p);
    lemma_sum_of_squares(r.times(r), p.times(p));
    lemma_root_of(sum);
    lemma_order(most, n);
    lemma_order(double(0), n);
    lemma_order(double(0), most);
    let k = if most.below(n) && double(0).below(n) { most.over(n) } else { double(ONE) };
    let a = r.times(k);
    let b = p.times(k);
    if !n.finite() {
        assert(k.magnitude() == 0) by {
            reveal(Double::quotient);
        }
        lemma_product_shrinks(r, k);
        lemma_product_shrinks(p, k);
        lemma_product_commutes(r, k);
        lemma_product_commutes(p, k);
        lemma_product_of_nothing(k, r);
        lemma_product_of_nothing(k, p);
        lemma_worth(a);
        lemma_worth(b);
        assert(worth(a) == 0real && worth(b) == 0real);
        assert(leaned(m) >= 0real) by {
            lemma_leaned_is_positive(m);
        }
        assert(0real * 0real == 0real) by (nonlinear_arith);
    } else {
        lemma_length(r, p, m);
        lemma_worth(n);
        lemma_worth_orders(most, n);
        lemma_worth_orders(n, most);
        let nw = worth(n);
        if most.below(n) && double(0).below(n) {
            lemma_quotient_shrinks(most, n);
            lemma_product_shrinks(r, k);
            lemma_product_shrinks(p, k);
            lemma_share_of(most, n);
            lemma_worth(k);
            lemma_product_strays(r, k);
            lemma_product_strays(p, k);
            let x = bare(worth(r)) * bare(worth(k));
            let y = bare(worth(p)) * bare(worth(k));
            assert(x * (1real + e) == x + x * e && y * (1real + e) == y + y * e)
                by (nonlinear_arith);
            lemma_shortened(
                m,
                bare(worth(r)),
                bare(worth(p)),
                nw,
                bare(worth(k)),
                bare(worth(a)),
                bare(worth(b)),
            );
            lemma_bare_square(worth(a));
            lemma_bare_square(worth(b));
        } else {
            lemma_order(double(ONE), double(ONE));
            lemma_unit_product(k, r);
            lemma_unit_product(k, p);
            lemma_product_commutes(r, k);
            lemma_product_commutes(p, k);
            assert(a == r && b == p);
            lemma_bare_square(worth(r));
            lemma_bare_square(worth(p));
            assert(nw <= m);
            lemma_unshortened(m, nw, worth(r) * worth(r) + worth(p) * worth(p));
        }
    }
}

/// What was not shortened was short enough.
proof fn lemma_unshortened(m: real, n: real, q: real)
    requires
        0real <= n <= m,
        q <= n * n * (1real + 6real * eps()) + 8real * tiny(),
    ensures
        q <= leaned(m),
{
    lemma_small_errors();
    let e = eps();
    let t = tiny();
    let mm = m * m;
    let nn = n * n;
    assert(0real <= nn <= mm) by (nonlinear_arith)
        requires
            nn == n * n,
            mm == m * m,
            0real <= n <= m,
    ;
    lemma_mono(nn, mm, 1real + 6real * e);
    lemma_part_grows(mm, 6real, 15real, e);
    assert(t * m >= 0real) by (nonlinear_arith)
        requires
            t > 0real,
            m >= 0real,
    ;
}

proof fn lemma_leaned_is_positive(m: real)
    requires
        m >= 0real,
    ensures
        leaned(m) >= 0real,
{
    lemma_small_errors();
    assert(0real * 0real * (1real + 6real * eps()) == 0real) by (nonlinear_arith);
    lemma_unshortened(m, 0real, 0real);
}

proof fn lemma_bare_square(x: real)
    ensures
        bare(x) * bare(x) == x * x,
{
    assert((-x) * (-x) == x * x) by (nonlinear_arith);
}

/// A smaller magnitude is a smaller real.
pub proof fn lemma_bare_orders(a: Double, b: Double)
    requires
        a.magnitude() <= b.magnitude(),
    ensures
        bare(worth(a)) <= bare(worth(b)),
{
    lemma_unit();
    lemma_worth(a);
    lemma_worth(b);
    lemma_scale_orders(a.magnitude(), b.magnitude());
    let u = vstd::arithmetic::power2::pow2(1074) as real;
    let x = bare(worth(a));
    let y = bare(worth(b));
    let sx = scale(a.magnitude()) as real;
    let sy = scale(b.magnitude()) as real;
    assert(x <= y) by (nonlinear_arith)
        requires
            x * u == sx,
            y * u == sy,
            sx <= sy,
            u > 0real,
    ;
}

/// The computed share of the limit in a longer length.
proof fn lemma_share_of(most: Double, n: Double)
    requires
        most.finite(),
        n.finite(),
        worth(most) >= 0real,
        worth(n) > 0real,
        most.quotient(n).finite(),
    ensures
        bare(worth(most.quotient(n))) * worth(n) <= worth(most) * (1real + eps()) + tiny() * worth(n),
{
    let m = worth(most);
    let w = worth(n);
    let x = m / w;
    lemma_scale_of_zero();
    lemma_worth(n);
    assert(x * w == m) by (nonlinear_arith)
        requires
            x == m / w,
            w > 0real,
    ;
    lemma_quotient_strays(most, n, x);
    let k = bare(worth(most.quotient(n)));
    let e = eps();
    let t = tiny();
    assert(k <= x + x * e + t);
    assert(k * w <= m * (1real + e) + t * w) by (nonlinear_arith)
        requires
            k <= x + x * e + t,
            x * w == m,
            w > 0real,
    ;
}

/// Nothing of a number is nothing.
proof fn lemma_product_of_nothing(zero: Double, x: Double)
    requires
        zero.magnitude() == 0,
        x.finite(),
    ensures
        zero.product(x).magnitude() == 0,
{
    lemma_scale_of_zero();
    reveal(Double::product);
    vstd::arithmetic::power2::lemma_pow2_pos(1074);
    crate::rounding::lemma_nearest_is_exact(0, vstd::arithmetic::power2::pow2(1074));
    let d = vstd::arithmetic::power2::pow2(1074);
    let s = scale(x.magnitude());
    assert(0 * s == 0 && 0 * d == 0) by (nonlinear_arith);
}

/// However the sticks are held, roll and pitch taken together lean no further than
/// the configured limit, but for rounding: a part in 2^42 of it and 2^-42, which is
/// less than a billionth of a radian for a limit of up to 1024.
pub proof fn law_roll_and_pitch_together_stay_within_the_limit(teleop: Teleop, channels: Seq<u16>)
    requires
        !teleop.cfg.vy.deadband.nan(),
        !teleop.cfg.vy.expo.nan(),
        !teleop.cfg.height.deadband.nan(),
        !teleop.cfg.height.expo.nan(),
        teleop.attitude_max.finite(),
        double(0).is_at_most(teleop.attitude_max),
    ensures
        ({
            let lean = teleop.command(channels).body_attitude_rad;
            let most = worth(teleop.attitude_max);
            &&& leans_within(
                lean.roll,
                lean.pitch,
                most + most / 4398046511104real + 1real / 4398046511104real,
            )
            &&& most <= 1024real ==> leans_within(
                lean.roll,
                lean.pitch,
                most + 1real / 1000000000real,
            )
        }),
{
    let most = teleop.attitude_max;
    lemma_scale_of_zero();
    lemma_worth(double(0));
    lemma_worth_orders(double(0), most);
    lemma_leaned(worth(most));
    lemma_leaned_is_positive(worth(most));
    if teleop.cfg.chicken_head.at(channels) > 0 {
        lemma_stick_is_within_one(teleop.cfg.vy, channels);
        lemma_stick_is_within_one(teleop.cfg.height, channels);
        lemma_tilt_leans(
            teleop.cfg.vy.stick(channels),
            teleop.cfg.height.stick(channels),
            teleop.cfg.wz.stick(channels),
            most,
        );
    } else {
        assert(0real * 0real == 0real) by (nonlinear_arith);
    }
}

} // verus!
