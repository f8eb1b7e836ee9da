//! How far rounding strays, in real numbers.
//!
//! The operations of [`Double`] are exact to the last bit; what a chain of them
//! computes is near to what the same chain of real operations would. An operation
//! strays by at most [`eps`] of its result, and [`tiny`].
use vstd::arithmetic::power2::*;
use vstd::prelude::*;

use crate::double::{lemma_scale_of_zero, size, whole, Double};
use crate::root::{lemma_nearest_root, nearest_root, root};
use crate::rounding::{
    lemma_nearest, lemma_nearest_is_exact, lemma_nearest_is_monotone, lemma_rounding_error,
    lemma_scale_of_steps, lemma_scale_orders, lemma_steps_of, nearest, scale, FRACTION_SPAN,
    INFINITE,
};

verus! {

/// 2^-53.
pub open spec fn eps() -> real {
    1real / 9007199254740992real
}

/// 2^-1074.
pub open spec fn tiny() -> real {
    1real / pow2(1074) as real
}

/// The real number that a finite number is.
pub open spec fn worth(x: Double) -> real {
    x.value() as real / pow2(1074) as real
}

/// The size of a real number without its sign.
pub open spec fn bare(x: real) -> real {
    if x < 0real { -x } else { x }
}

/// Whether two finite numbers are less than `gap` apart.
pub open spec fn near(a: Double, b: Double, gap: real) -> bool {
    a.finite() && b.finite() && bare(worth(a) - worth(b)) < gap
}

pub proof fn lemma_unit()
    ensures
        pow2(1074) as real > 0real,
        tiny() * pow2(1074) as real == 1real,
        0real < tiny() <= eps() * eps(),
{
    lemma2_to64();
    lemma2_to64_rest();
    lemma_pow2_adds(60, 60);
    lemma_pow2_strictly_increases(120, 1074);
    let u = pow2(1074) as real;
    let big = 9007199254740992real * 9007199254740992real;
    assert(pow2(60) * pow2(60) == 1329227995784915872903807060280344576int) by (nonlinear_arith)
        requires
            pow2(60) == 1152921504606846976,
    ;
    assert(u >= big);
    assert(tiny() * u == 1real && 0real < tiny()) by (nonlinear_arith)
        requires
            tiny() == 1real / u,
            u > 0real,
    ;
    assert(tiny() <= eps() * eps()) by (nonlinear_arith)
        requires
            tiny() * u == 1real,
            tiny() > 0real,
            u >= big,
            big == 9007199254740992real * 9007199254740992real,
            eps() == 1real / 9007199254740992real,
    ;
}

/// A value in units is the unit's share of its worth.
pub proof fn lemma_worth(x: Double)
    ensures
        worth(x) * pow2(1074) as real == x.value() as real,
        x.negative() ==> worth(x) <= 0real,
        !x.negative() ==> worth(x) >= 0real,
        worth(x) == 0real <==> x.value() == 0,
        bare(worth(x)) * pow2(1074) as real == scale(x.magnitude()) as real,
{
    lemma_unit();
    let u = pow2(1074) as real;
    let v = x.value() as real;
    assert(worth(x) * u == v) by (nonlinear_arith)
        requires
            worth(x) == v / u,
            u > 0real,
    ;
    assert(v >= 0real ==> worth(x) >= 0real) by (nonlinear_arith)
        requires
            worth(x) * u == v,
            u > 0real,
    ;
    assert(v <= 0real ==> worth(x) <= 0real) by (nonlinear_arith)
        requires
            worth(x) * u == v,
            u > 0real,
    ;
    assert(worth(x) == 0real <==> v == 0real) by (nonlinear_arith)
        requires
            worth(x) * u == v,
            u > 0real,
    ;
    assert((-worth(x)) * u == -v) by (nonlinear_arith)
        requires
            worth(x) * u == v,
    ;
}

/// A negation has the opposite worth.
pub proof fn lemma_worth_negates(x: Double)
    requires
        !x.nan(),
    ensures
        worth(x.negation()) == -worth(x),
        x.negation().magnitude() == x.magnitude(),
{
    lemma_unit();
    let u = pow2(1074) as real;
    let v = x.value() as real;
    assert(x.negation().value() == -x.value());
    assert((-v) / u == -(v / u)) by (nonlinear_arith)
        requires
            u > 0real,
    ;
}

/// The order of finite numbers is that of their worths.
pub proof fn lemma_worth_orders(a: Double, b: Double)
    ensures
        a.value() <= b.value() <==> worth(a) <= worth(b),
        a.value() == b.value() <==> worth(a) == worth(b),
{
    lemma_unit();
    lemma_worth(a);
    lemma_worth(b);
    let u = pow2(1074) as real;
    let x = a.value() as real;
    let y = b.value() as real;
    assert(x <= y <==> worth(a) <= worth(b)) by (nonlinear_arith)
        requires
            worth(a) * u == x,
            worth(b) * u == y,
            u > 0real,
    ;
    assert(y <= x <==> worth(b) <= worth(a)) by (nonlinear_arith)
        requires
            worth(a) * u == x,
            worth(b) * u == y,
            u > 0real,
    ;
}

/// The error of rounding `n / d`, in units.
proof fn lemma_error_of_fraction(n: nat, d: nat, q: real)
    requires
        d > 0,
        q * d as real == n as real,
    ensures
        ({
            let s = scale(nearest(n, d)) as real;
            &&& s <= q + q * eps() + 1real
            &&& nearest(n, d) < INFINITE ==> q <= s + q * eps() + 1real
        }),
{
    lemma_rounding_error(n, d);
    let span = FRACTION_SPAN as nat;
    let m = nearest(n, d);
    let k = scale(m) * d;
    let s = scale(m) as real;
    let e = d as real;
    let x = n as real;
    let y = k as real;
    assert(y == s * e) by (nonlinear_arith)
        requires
            k == scale(m) * d,
            s == scale(m) as real,
            e == d as real,
            y == k as real,
    ;
    assert(2 * span * k == 9007199254740992 * k && 2 * span * n == 9007199254740992 * n && span * d
        == 4503599627370496 * d) by (nonlinear_arith)
        requires
            span == 4503599627370496,
    ;
    assert(9007199254740992real * y <= 9007199254740992real * x + x + 4503599627370496real * e)
        by (nonlinear_arith)
        requires
            9007199254740992 * k <= 9007199254740992 * n + n + 4503599627370496 * d,
            y == k as real,
            x == n as real,
            e == d as real,
    ;
    assert(s <= q + q * eps() + 1real) by (nonlinear_arith)
        requires
            9007199254740992real * y <= 9007199254740992real * x + x + 4503599627370496real * e,
            y == s * e,
            q * e == x,
            e > 0real,
            eps() == 1real / 9007199254740992real,
    ;
    if m < INFINITE {
        assert(9007199254740992real * x <= 9007199254740992real * y + x + 4503599627370496real * e)
            by (nonlinear_arith)
            requires
                9007199254740992 * n <= 9007199254740992 * k + n + 4503599627370496 * d,
                y == k as real,
                x == n as real,
                e == d as real,
        ;
        assert(q <= s + q * eps() + 1real) by (nonlinear_arith)
            requires
                9007199254740992real * x <= 9007199254740992real * y + x + 4503599627370496real * e,
                y == s * e,
                q * e == x,
                e > 0real,
                eps() == 1real / 9007199254740992real,
        ;
    }
}

/// What a result strays by if it is `exact` before rounding.
pub open spec fn strays(result: real, exact: real) -> bool {
    bare(result - exact) <= bare(exact) * eps() + tiny()
}

/// From units to worths.
proof fn lemma_strays(s: real, q: real, w: real, x: real)
    requires
        w * pow2(1074) as real == s,
        x * pow2(1074) as real == q,
        s <= q + q * eps() + 1real,
        q <= s + q * eps() + 1real,
        q >= 0real,
    ensures
        x >= 0real,
        strays(w, x),
{
    lemma_unit();
    let u = pow2(1074) as real;
    let t = tiny();
    let e = eps();
    assert(x >= 0real) by (nonlinear_arith)
        requires
            x * u == q,
            q >= 0real,
            u > 0real,
    ;
    assert(w <= x + x * e + t) by (nonlinear_arith)
        requires
            w * u == s,
            x * u == q,
            t * u == 1real,
            s <= q + q * e + 1real,
            u > 0real,
    ;
    assert(x <= w + x * e + t) by (nonlinear_arith)
        requires
            w * u == s,
            x * u == q,
            t * u == 1real,
            q <= s + q * e + 1real,
            u > 0real,
    ;
}

/// A sum strays by its rounding.
pub proof fn lemma_sum_strays(a: Double, b: Double)
    requires
        a.finite(),
        b.finite(),
        a.sum(b).finite(),
    ensures
        strays(worth(a.sum(b)), worth(a) + worth(b)),
{
    reveal(Double::sum);
    lemma_unit();
    lemma_worth(a);
    lemma_worth(b);
    let r = a.sum(b);
    lemma_worth(r);
    lemma_scale_of_zero();
    let u = pow2(1074) as real;
    let exact = a.value() + b.value();
    let n = size(exact);
    let x = worth(a) + worth(b);
    assert(x * u == exact as real) by (nonlinear_arith)
        requires
            x == worth(a) + worth(b),
            worth(a) * u == a.value() as real,
            worth(b) * u == b.value() as real,
            exact == a.value() + b.value(),
    ;
    lemma_nearest(n, 1);
    if exact == 0 {
        assert(x == 0real) by (nonlinear_arith)
            requires
                x * u == 0real,
                u > 0real,
        ;
    } else {
        lemma_error_of_fraction(n, 1, n as real);
        let s = scale(nearest(n, 1)) as real;
        if exact < 0 {
            assert((-x) * u == n as real) by (nonlinear_arith)
                requires
                    x * u == -(n as real),
            ;
            assert((-worth(r)) * u == s) by (nonlinear_arith)
                requires
                    worth(r) * u == -s,
            ;
            lemma_strays(s, n as real, -worth(r), -x);
        } else {
            lemma_strays(s, n as real, worth(r), x);
        }
    }
}

/// 2^16, as bits.
const WIDE: u64 = 0x40f0_0000_0000_0000;

/// A sum of ordinary size is finite.
pub proof fn lemma_sum_is_finite(a: Double, b: Double)
    requires
        a.finite(),
        b.finite(),
        bare(worth(a) + worth(b)) <= 65536real,
    ensures
        a.sum(b).finite(),
{
    reveal(Double::sum);
    lemma_unit();
    lemma_worth(a);
    lemma_worth(b);
    lemma2_to64();
    lemma2_to64_rest();
    lemma_scale_of_steps(FRACTION_SPAN as nat, 1038);
    lemma_pow2_adds(52, 1038);
    lemma_pow2_adds(16, 1074);
    let u = pow2(1074) as real;
    let exact = a.value() + b.value();
    let n = size(exact);
    let x = worth(a) + worth(b);
    assert(x * u == exact as real) by (nonlinear_arith)
        requires
            x == worth(a) + worth(b),
            worth(a) * u == a.value() as real,
            worth(b) * u == b.value() as real,
            exact == a.value() + b.value(),
    ;
    assert(-65536real * u <= exact as real <= 65536real * u) by (nonlinear_arith)
        requires
            x * u == exact as real,
            -65536real <= x <= 65536real,
            u > 0real,
    ;
    assert(-65536 * pow2(1074) <= exact <= 65536 * pow2(1074)) by (nonlinear_arith)
        requires
            -65536real * u <= exact as real <= 65536real * u,
            u == pow2(1074) as real,
    ;
    assert(scale(WIDE as nat) == 65536 * pow2(1074));
    assert(n * 1 <= scale(WIDE as nat) * 1);
    lemma_nearest_is_monotone(n, 1, scale(WIDE as nat) * 1, 1);
    lemma_nearest_is_exact(WIDE as nat, 1);
    lemma_scale_of_zero();
}

/// A product strays by its rounding.
pub proof fn lemma_product_strays(a: Double, b: Double)
    requires
        a.finite(),
        b.finite(),
        a.product(b).finite(),
    ensures
        strays(bare(worth(a.product(b))), bare(worth(a)) * bare(worth(b))),
        bare(worth(a)) * bare(worth(b)) >= 0real,
{
    reveal(Double::product);
    lemma_unit();
    lemma_worth(a);
    lemma_worth(b);
    let r = a.product(b);
    lemma_worth(r);
    let u = pow2(1074) as real;
    let sa = scale(a.magnitude());
    let sb = scale(b.magnitude());
    let n = sa * sb;
    let x = bare(worth(a)) * bare(worth(b));
    let q = x * u;
    assert(n as real == sa as real * sb as real) by (nonlinear_arith)
        requires
            n == sa * sb,
    ;
    assert(q * u == n as real) by (nonlinear_arith)
        requires
            q == (bare(worth(a)) * bare(worth(b))) * u,
            bare(worth(a)) * u == sa as real,
            bare(worth(b)) * u == sb as real,
            n as real == sa as real * sb as real,
    ;
    lemma_pow2_pos(1074);
    lemma_error_of_fraction(n, pow2(1074), q);
    lemma_nearest(n, pow2(1074));
    assert(q >= 0real) by (nonlinear_arith)
        requires
            q * u == n as real,
            n as real >= 0real,
            u > 0real,
    ;
    lemma_strays(scale(nearest(n, pow2(1074))) as real, q, bare(worth(r)), x);
}

/// A quotient strays by its rounding.
pub proof fn lemma_quotient_strays(a: Double, b: Double, x: real)
    requires
        a.finite(),
        b.finite(),
        b.magnitude() > 0,
        a.quotient(b).finite(),
        x * bare(worth(b)) == bare(worth(a)),
    ensures
        strays(bare(worth(a.quotient(b))), x),
        x >= 0real,
{
    reveal(Double::quotient);
    lemma_unit();
    lemma_worth(a);
    lemma_worth(b);
    let r = a.quotient(b);
    lemma_worth(r);
    lemma_scale_of_zero();
    lemma_scale_orders(0, b.magnitude());
    let u = pow2(1074) as real;
    let sa = scale(a.magnitude());
    let sb = scale(b.magnitude());
    let n = sa * pow2(1074);
    let q = x * u;
    assert(n as real == sa as real * u) by (nonlinear_arith)
        requires
            n == sa * pow2(1074),
            u == pow2(1074) as real,
    ;
    assert(q * sb as real == n as real) by (nonlinear_arith)
        requires
            q == x * u,
            x * bare(worth(b)) == bare(worth(a)),
            bare(worth(a)) * u == sa as real,
            bare(worth(b)) * u == sb as real,
            n as real == sa as real * u,
    ;
    lemma_error_of_fraction(n, sb, q);
    lemma_nearest(n, sb);
    assert(q >= 0real) by (nonlinear_arith)
        requires
            q * sb as real == n as real,
            n as real >= 0real,
            sb as real > 0real,
    ;
    lemma_strays(scale(nearest(n, sb)) as real, q, bare(worth(r)), x);
}

/// A root strays by its rounding: what it squares to, a little more of it exceeds,
/// and a little less does not reach.
pub proof fn lemma_root_strays(x: Double)
    requires
        x.finite(),
        worth(x) >= 0real,
        root(x).finite(),
    ensures
        ({
            let r = worth(root(x));
            let more = r + r * eps() + tiny();
            let less = r - r * eps() - tiny();
            &&& r >= 0real
            &&& worth(x) <= more * more
            &&& less > 0real ==> less * less <= worth(x)
        }),
{
    reveal(root);
    lemma_unit();
    lemma_worth(x);
    lemma_scale_of_zero();
    let u = pow2(1074) as real;
    let y = root(x);
    lemma_worth(y);
    if x.magnitude() == 0 {
        assert(worth(x) == 0real && worth(y) == 0real);
        assert((0real + 0real * eps() + tiny()) * (0real + 0real * eps() + tiny()) >= 0real)
            by (nonlinear_arith);
    } else {
        lemma_scale_orders(0, x.magnitude());
        let n = scale(x.magnitude()) * pow2(1074);
        lemma_nearest_root(n);
        let m = nearest_root(n);
        assert(!x.negative());
        let r = worth(y);
        let w = worth(x);
        assert(n as real == (w * u) * u) by (nonlinear_arith)
            requires
                n == scale(x.magnitude()) * pow2(1074),
                w * u == scale(x.magnitude()) as real,
                u == pow2(1074) as real,
        ;
        let (k, e) = lemma_steps_of(m);
        lemma_scale_of_steps(k + 1, e);
        lemma_pow2_pos(e);
        lemma2_to64();
        lemma_root_above(n, r, w, k, pow2(e));
        if m > 0 {
            let (k, e) = lemma_steps_of((m - 1) as nat);
            lemma_scale_of_steps(k + 1, e);
            lemma_pow2_pos(e);
            lemma_root_below(n, r, w, k, pow2(e));
        }
    }
}

proof fn lemma_root_above(n: nat, r: real, w: real, k: nat, g: nat)
    requires
        n as real == (w * pow2(1074) as real) * pow2(1074) as real,
        r * pow2(1074) as real == (k * g) as real,
        4 * n <= (k * g + (k + 1) * g) * (k * g + (k + 1) * g),
        g == 1 || k >= FRACTION_SPAN,
        g > 0,
        r >= 0real,
    ensures
        w <= (r + r * eps() + tiny()) * (r + r * eps() + tiny()),
{
    lemma_unit();
    let u = pow2(1074) as real;
    let t = tiny();
    let e = eps();
    let more = r + r * e + t;
    let c = k * g + (k + 1) * g;
    let s = k * g;
    assert(c == 2 * s + g) by (nonlinear_arith)
        requires
            c == k * g + (k + 1) * g,
            s == k * g,
    ;
    assert(4503599627370496 * g <= s + 4503599627370496) by (nonlinear_arith)
        requires
            s == k * g,
            g == 1 || k >= 4503599627370496,
            g > 0,
    ;
    let cr = c as real;
    let sr = s as real;
    assert(cr <= 2real * sr + sr / 4503599627370496real + 1real);
    assert(cr <= 2real * (more * u)) by (nonlinear_arith)
        requires
            cr <= 2real * sr + sr / 4503599627370496real + 1real,
            sr == r * u,
            more == r + r * e + t,
            t * u == 1real,
            e == 1real / 9007199254740992real,
    ;
    assert((c * c) as real == cr * cr) by (nonlinear_arith)
        requires
            cr == c as real,
    ;
    assert(cr * cr <= (2real * (more * u)) * (2real * (more * u))) by (nonlinear_arith)
        requires
            0real <= cr <= 2real * (more * u),
    ;
    assert(4real * ((w * u) * u) <= cr * cr);
    assert(w <= more * more) by (nonlinear_arith)
        requires
            4real * ((w * u) * u) <= (2real * (more * u)) * (2real * (more * u)),
            u > 0real,
    ;
}

proof fn lemma_root_below(n: nat, r: real, w: real, k: nat, g: nat)
    requires
        n as real == (w * pow2(1074) as real) * pow2(1074) as real,
        r * pow2(1074) as real == ((k + 1) * g) as real,
        (k * g + (k + 1) * g) * (k * g + (k + 1) * g) <= 4 * n,
        g == 1 || k >= FRACTION_SPAN,
        g > 0,
        r >= 0real,
    ensures
        ({
            let less = r - r * eps() - tiny();
            less > 0real ==> less * less <= w
        }),
{
    lemma_unit();
    let u = pow2(1074) as real;
    let t = tiny();
    let e = eps();
    let less = r - r * e - t;
    let c = k * g + (k + 1) * g;
    let s = (k + 1) * g;
    assert(c + g == 2 * s) by (nonlinear_arith)
        requires
            c == k * g + (k + 1) * g,
            s == (k + 1) * g,
    ;
    assert(4503599627370496 * g <= s + 4503599627370496) by (nonlinear_arith)
        requires
            s == (k + 1) * g,
            g == 1 || k >= 4503599627370496,
            g > 0,
    ;
    let cr = c as real;
    let sr = s as real;
    assert(cr >= 2real * sr - sr / 4503599627370496real - 1real);
    assert(cr >= 2real * (less * u)) by (nonlinear_arith)
        requires
            cr >= 2real * sr - sr / 4503599627370496real - 1real,
            sr == r * u,
            less == r - r * e - t,
            t * u == 1real,
            e == 1real / 9007199254740992real,
    ;
    assert((c * c) as real == cr * cr) by (nonlinear_arith)
        requires
            cr == c as real,
    ;
    if less > 0real {
        assert(less * u >= 0real) by (nonlinear_arith)
            requires
                less > 0real,
                u > 0real,
        ;
        assert((2real * (less * u)) * (2real * (less * u)) <= cr * cr) by (nonlinear_arith)
            requires
                0real <= 2real * (less * u) <= cr,
        ;
        assert(less * less <= w) by (nonlinear_arith)
            requires
                (2real * (less * u)) * (2real * (less * u)) <= 4real * ((w * u) * u),
                u > 0real,
        ;
    }
}

/// 2^41, as bits.
const VAST: u64 = 0x4280_0000_0000_0000;

/// The double nearest to a whole number strays by its rounding.
pub proof fn lemma_whole_strays(n: nat)
    requires
        n <= 2199023255552,
    ensures
        whole(n).finite(),
        !whole(n).negative(),
        strays(worth(whole(n)), n as real),
{
    lemma2_to64();
    lemma2_to64_rest();
    lemma_unit();
    lemma_scale_of_steps(FRACTION_SPAN as nat, 1063);
    lemma_pow2_adds(52, 1063);
    lemma_pow2_adds(41, 1074);
    let d = pow2(1074);
    let u = d as real;
    let exact = n * d;
    assert(scale(VAST as nat) == 2199023255552 * d);
    assert(exact <= 2199023255552 * d) by (nonlinear_arith)
        requires
            n <= 2199023255552,
            exact == n * d,
    ;
    lemma_nearest_is_exact(VAST as nat, 1);
    lemma_nearest_is_monotone(exact, 1, scale(VAST as nat) * 1, 1);
    lemma_nearest(exact, 1);
    let r = whole(n);
    lemma_worth(r);
    lemma_error_of_fraction(exact, 1, exact as real);
    assert(n as real * u == exact as real) by (nonlinear_arith)
        requires
            exact == n * d,
            u == d as real,
    ;
    lemma_strays(scale(nearest(exact, 1)) as real, exact as real, worth(r), n as real);
}

} // verus!
