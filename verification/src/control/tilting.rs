//! How the sticks tilt the body: what share of its limit each angle gets.
use vstd::arithmetic::power2::*;
use vstd::prelude::*;

use crate::control::handling::{asks, handles, lemma_its_share, lemma_ones, lemma_share, raw};
use crate::control::lean::{lemma_bare_orders, lemma_square, lemma_sum_of_squares};
use crate::control::stick::{
    lemma_product_commutes, lemma_product_shrinks, lemma_quotient_shrinks, lemma_stick_is_within_one,
};
use crate::control::teleop::{AxisMap, Teleop};
use crate::double::{double, lemma_order, lemma_scale_of_zero, Double, ONE};
use crate::measure::{
    bare, eps, lemma_root_strays, lemma_unit, lemma_worth, lemma_worth_orders, tiny, worth,
};
use crate::reckon::{
    fine, is_about, lemma_about_product, lemma_about_sum, lemma_quotient_is_near, lemma_quotient_sign,
    lemma_sizes_multiply, slack, WIDE,
};
use crate::root::{lemma_nearest_root, nearest_root, root, twice_middle};
use crate::rounding::{lemma_scale_of_steps, lemma_scale_orders, scale, FRACTION_SPAN, INFINITE};

verus! {

/// Whether a number is the part `k` of a stick's share of a limit, within a few
/// billionths of it.
pub open spec fn is_part_of_its_share(
    x: Double,
    axis: AxisMap,
    channels: Seq<u16>,
    most: Double,
    k: real,
) -> bool {
    is_about(
        x,
        asks(axis, raw(axis, channels)) * worth(most) * k,
        4real * slack() * (1real + bare(worth(most))),
    )
}

/// Whether the body is tilted by the part `k` of what the sticks ask for: rolled as the
/// sideways stick asks, pitched as the height stick asks, and both shortened alike. It is
/// shortened only as far as the limit, within a thousandth in the square.
pub open spec fn is_tilted_by(teleop: Teleop, channels: Seq<u16>, k: real) -> bool {
    let a = teleop.command(channels).body_attitude_rad;
    let most = teleop.attitude_max;
    &&& 0real <= k <= 1real
    &&& is_part_of_its_share(a.roll, teleop.cfg.vy, channels, most, k)
    &&& is_part_of_its_share(a.pitch, teleop.cfg.height, channels, most, k)
    &&& k < 1real ==> worth(a.roll) * worth(a.roll) + worth(a.pitch) * worth(a.pitch) >= worth(most)
        * worth(most) - 1real / 1000real
}

/// A root of ordinary size is finite.
proof fn lemma_small_root(x: Double)
    requires
        x.finite(),
        !x.negative(),
        worth(x) <= 4096real,
    ensures
        root(x).finite(),
{
    reveal(root);
    if x.magnitude() > 0 {
        let u = pow2(1074);
        let s = scale(x.magnitude());
        lemma_worth(x);
        lemma_unit();
        let w = worth(x);
        assert(s as real <= 4096real * u as real) by (nonlinear_arith)
            requires
                w * u as real == s as real,
                w <= 4096real,
                u as real > 0real,
        ;
        assert(s <= 4096 * u);
        let n = s * u;
        lemma_nearest_root(n);
        let m = nearest_root(n);
        if m == INFINITE {
            lemma2_to64();
            lemma2_to64_rest();
            lemma_scale_of_steps(FRACTION_SPAN as nat, 1038);
            lemma_pow2_adds(52, 1038);
            lemma_pow2_adds(16, 1074);
            assert(scale(WIDE as nat) == 65536 * u);
            lemma_scale_orders(WIDE as nat, (INFINITE - 1) as nat);
            lemma_scale_orders(WIDE as nat, INFINITE as nat);
            let c = twice_middle((INFINITE - 1) as nat);
            assert(c >= 131072 * u);
            assert(u > 0);
            assert(c * c > 4 * n) by (nonlinear_arith)
                requires
                    c >= 131072 * u,
                    s <= 4096 * u,
                    n == s * u,
                    u > 0,
            ;
        }
    }
}

/// What is close to a number squares to little less.
proof fn lemma_near_square(a: real, v: real)
    requires
        bare(v) <= 32real,
        bare(a - v) <= fine(),
    ensures
        a * a >= v * v - 1real / 10000real,
{
    let d = a - v;
    assert(v * d >= -(1real / 100000real)) by (nonlinear_arith)
        requires
            -32real <= v <= 32real,
            -(1real / 1000000000000real) <= d <= 1real / 1000000000000real,
    ;
    assert(a * a == v * v + 2real * (v * d) + d * d && d * d >= 0real) by (nonlinear_arith)
        requires
            a == v + d,
    ;
}

/// What is shortened to its limit reaches it.
proof fn lemma_reaches(x: real, y: real, c: real, l: real, m: real, a: real, b: real)
    requires
        bare(x) <= 32real,
        bare(y) <= 32real,
        0real <= c <= 1real,
        0real <= l,
        0real <= m <= 32real,
        bare(a - x * c) <= fine(),
        bare(b - y * c) <= fine(),
        l * l <= x * x + y * y + 1real / 1000000real,
        m - slack() <= c * l,
    ensures
        a * a + b * b >= m * m - 1real / 1000real,
{
    let xc = x * c;
    let yc = y * c;
    lemma_sizes_multiply(x, c);
    lemma_sizes_multiply(y, c);
    lemma_at_most_all(bare(x), c);
    lemma_at_most_all(bare(y), c);
    lemma_near_square(a, xc);
    lemma_near_square(b, yc);
    let cc = c * c;
    let xx = x * x;
    let yy = y * y;
    let ll = l * l;
    let q = xx + yy;
    assert(xc * xc == cc * xx) by (nonlinear_arith)
        requires
            xc == x * c,
            cc == c * c,
            xx == x * x,
    ;
    assert(yc * yc == cc * yy) by (nonlinear_arith)
        requires
            yc == y * c,
            cc == c * c,
            yy == y * y,
    ;
    assert(cc * xx + cc * yy == cc * q) by (nonlinear_arith)
        requires
            q == xx + yy,
    ;
    assert(0real <= cc <= 1real) by (nonlinear_arith)
        requires
            cc == c * c,
            0real <= c <= 1real,
    ;
    assert(cc * ll <= cc * q + 1real / 1000000real) by (nonlinear_arith)
        requires
            0real <= cc <= 1real,
            ll <= q + 1real / 1000000real,
    ;
    let w = c * l;
    assert(cc * ll == w * w && w >= 0real) by (nonlinear_arith)
        requires
            cc == c * c,
            ll == l * l,
            w == c * l,
            c >= 0real,
            l >= 0real,
    ;
    assert(w * w >= m * m - 1real / 1000000real) by (nonlinear_arith)
        requires
            w >= 0real,
            0real <= m <= 32real,
            m - 1real / 1000000000real <= w,
    ;
}

proof fn lemma_at_most_all(b: real, c: real)
    requires
        0real <= b,
        0real <= c <= 1real,
    ensures
        0real <= b * c <= b,
{
    assert(0real <= b * c <= b) by (nonlinear_arith)
        requires
            0real <= b,
            0real <= c <= 1real,
    ;
}

/// A part of a share.
proof fn lemma_part_of_its_share(
    x: Double,
    axis: AxisMap,
    channels: Seq<u16>,
    most: Double,
    k: Double,
)
    requires
        is_about(
            x,
            asks(axis, raw(axis, channels)) * worth(most),
            3real * slack() * (1real + bare(worth(most))),
        ),
        x.finite() && bare(worth(x)) <= 32real,
        bare(worth(most)) <= 32real,
        k.finite(),
        0real <= worth(k) <= 1real,
    ensures
        is_part_of_its_share(x.times(k), axis, channels, most, worth(k)),
        is_about(x.times(k), worth(x) * worth(k), fine()),
{
    let v = asks(axis, raw(axis, channels)) * worth(most);
    let g = 3real * slack() * (1real + bare(worth(most)));
    let c = worth(k);
    let b = bare(worth(most));
    assert(0real <= g <= 1real / 1000000real && g + fine() <= 4real * slack() * (1real + b))
        by (nonlinear_arith)
        requires
            g == 3real * slack() * (1real + b),
            0real <= b <= 32real,
            slack() == 1real / 1000000000real,
            fine() == 1real / 1000000000000real,
    ;
    assert(bare(v) <= 33real);
    lemma_at_most_all(bare(v), c);
    lemma_at_most_all(bare(worth(x)), c);
    lemma_at_most_all(g, c);
    lemma_about_product(x, v, g, k, c, 0real);
    lemma_about_product(x, worth(x), 0real, k, c, 0real);
    let bv = bare(v);
    let bx = bare(worth(x));
    assert(bv * 0real == 0real && bx * 0real == 0real && c * 0real == 0real && g * 0real == 0real)
        by (nonlinear_arith);
    assert(c * g == g * c) by (nonlinear_arith);
}

/// With the chicken head on, the sideways stick rolls the body and the height stick
/// pitches it, each by its share of the limit. Both are shortened by the same part, and
/// only where together they would pass the limit, which they then reach.
pub proof fn law_the_sticks_roll_and_pitch_the_body(teleop: Teleop, channels: Seq<u16>)
    requires
        handles(teleop, channels),
        teleop.command(channels).chicken_head,
        0real < worth(teleop.attitude_max) <= 32real,
    ensures
        exists|k: real| is_tilted_by(teleop, channels, k),
{
    let cfg = teleop.cfg;
    let most = teleop.attitude_max;
    let m = worth(most);
    let r = cfg.vy.stick(channels).times(most);
    let p = cfg.height.stick(channels).times(most);
    lemma_its_share(cfg.vy, channels, most);
    lemma_its_share(cfg.height, channels, most);
    lemma_stick_is_within_one(cfg.vy, channels);
    lemma_stick_is_within_one(cfg.height, channels);
    lemma_product_commutes(cfg.vy.stick(channels), most);
    lemma_product_shrinks(most, cfg.vy.stick(channels));
    lemma_product_commutes(cfg.height.stick(channels), most);
    lemma_product_shrinks(most, cfg.height.stick(channels));
    lemma_bare_orders(r, most);
    lemma_bare_orders(p, most);
    let x = worth(r);
    let y = worth(p);
    let xx = x * x;
    let yy = y * y;
    lemma_ordinary_square(r);
    lemma_ordinary_square(p);
    let rr = r.times(r);
    let pp = p.times(p);
    lemma_about_sum(rr, xx, fine(), pp, yy, fine());
    lemma_square(r);
    lemma_square(p);
    lemma_sum_of_squares(rr, pp);
    let sum = rr.plus(pp);
    let s = worth(sum);
    lemma_worth(sum);
    lemma_small_root(sum);
    lemma_root_strays(sum);
    let n = root(sum);
    let nw = worth(n);
    lemma_worth(n);
    lemma_worth(most);
    lemma_scale_of_zero();
    lemma_worth(double(0));
    lemma_order(most, n);
    lemma_order(double(0), n);
    lemma_worth_orders(most, n);
    lemma_worth_orders(n, most);
    lemma_worth_orders(double(0), n);
    let k = if most.below(n) && double(0).below(n) { most.over(n) } else { double(ONE) };
    let c = worth(k);
    if most.below(n) && double(0).below(n) {
        assert(m < nw);
        let x0 = m / nw;
        assert(x0 * nw == m && 0real <= x0 <= 1real) by (nonlinear_arith)
            requires
                x0 == m / nw,
                0real < m < nw,
        ;
        lemma_worth_orders(double(0), most);
        lemma_scale_orders(most.magnitude(), n.magnitude());
        lemma_scale_orders(0, n.magnitude());
        lemma_quotient_is_near(most, n, x0);
        lemma_quotient_shrinks(most, n);
        lemma_quotient_sign(most, n);
        lemma_share(k);
        lemma_worth(k);
        assert(0real <= c <= 1real);
        lemma_part_of_its_share(r, cfg.vy, channels, most, k);
        lemma_part_of_its_share(p, cfg.height, channels, most, k);
        lemma_length_reaches(m, nw, x0, c, xx + yy, s);
        let e = eps();
        let t = tiny();
        let l = nw - nw * e - t;
        if l > 0real {
            lemma_reaches(x, y, c, l, m, worth(r.times(k)), worth(p.times(k)));
        } else {
            let a = worth(r.times(k));
            let b = worth(p.times(k));
            assert(a * a >= 0real && b * b >= 0real) by (nonlinear_arith);
        }
    } else {
        lemma_ones();
        lemma_part_of_its_share(r, cfg.vy, channels, most, k);
        lemma_part_of_its_share(p, cfg.height, channels, most, k);
    }
    assert(is_tilted_by(teleop, channels, c));
}

/// The square of an angle of ordinary size.
proof fn lemma_ordinary_square(r: Double)
    requires
        r.finite(),
        bare(worth(r)) <= 32real,
    ensures
        is_about(r.times(r), worth(r) * worth(r), fine()),
        0real <= worth(r) * worth(r) <= 1024real,
{
    let x = worth(r);
    let b = bare(x);
    lemma_sizes_multiply(x, x);
    assert(0real <= b * b <= 1024real) by (nonlinear_arith)
        requires
            0real <= b <= 32real,
    ;
    assert(b * 0real == 0real && 0real * 0real == 0real) by (nonlinear_arith);
    lemma_about_product(r, x, 0real, r, x, 0real);
}

/// A limit that is passed is a part of the length, and that part of a little less than
/// the length is hardly below the limit.
proof fn lemma_length_reaches(m: real, n: real, x: real, c: real, q: real, s: real)
    requires
        0real < m <= 32real,
        m < n,
        x * n == m,
        0real <= x <= 1real,
        0real <= c <= 1real,
        bare(c - x) <= bare(x) * eps() + tiny(),
        bare(s - q) <= 3real * fine(),
        0real <= q <= 2048real,
        n - n * eps() - tiny() > 0real ==> (n - n * eps() - tiny()) * (n - n * eps() - tiny()) <= s,
    ensures
        ({
            let l = n - n * eps() - tiny();
            &&& l > 0real ==> l * l <= q + 1real / 1000000real && m - slack() <= c * l
            &&& l <= 0real ==> m * m <= 1real / 1000real
        }),
{
    lemma_unit();
    let e = eps();
    let t = tiny();
    assert(0real < e <= 1real / 1000000000000000real);
    assert(0real < t <= 1real / 1000000000000000real) by (nonlinear_arith)
        requires
            0real < t <= e * e,
            0real < e <= 1real / 1000000000000000real,
    ;
    let ne = n * e;
    let l = n - ne - t;
    assert(0real <= ne <= n / 1000000real) by (nonlinear_arith)
        requires
            ne == n * e,
            n > 0real,
            0real < e <= 1real / 1000000real,
    ;
    if l > 0real {
        assert(l <= 50real) by (nonlinear_arith)
            requires
                l > 0real,
                l * l <= 2049real,
        ;
        assert(n <= 51real);
        assert(ne <= 1real / 10000000000real) by (nonlinear_arith)
            requires
                ne == n * e,
                0real < n <= 51real,
                0real < e <= 1real / 1000000000000000real,
        ;
        let xe = x * e;
        assert(0real <= xe <= e) by (nonlinear_arith)
            requires
                xe == x * e,
                0real <= x <= 1real,
                e > 0real,
        ;
        assert(c >= x - 1real / 100000000000000real);
        assert(c * n >= m - 1real / 10000000000real) by (nonlinear_arith)
            requires
                c >= x - 1real / 100000000000000real,
                x * n == m,
                0real < n <= 51real,
        ;
        let d = ne + t;
        assert(c * l == c * n - c * d) by (nonlinear_arith)
            requires
                l == n - d,
        ;
        assert(c * d <= d) by (nonlinear_arith)
            requires
                0real <= c <= 1real,
                d >= 0real,
        ;
    } else {
        assert(n <= 1real / 1000real);
        assert(m * m <= 1real / 1000real) by (nonlinear_arith)
            requires
                0real < m < 1real / 1000real,
        ;
    }
}

} // verus!
