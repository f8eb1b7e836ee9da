//! What a stick and a switch mean, in real numbers.
use vstd::arithmetic::power2::*;
use vstd::prelude::*;

use crate::control::stick::{
    lemma_small_difference, lemma_small_whole_is_exact, lemma_stick_is_within_one, within_one,
};
use crate::control::teleop::{
    band_of, banded, eased, expo_of, minus_one, reached, sign_of, AxisMap, SwitchMap, Teleop, HALF,
    WIDEST_DEADBAND,
};
use crate::double::{
    double, lemma_exact_sum, lemma_order, lemma_scale_of_zero, lemma_unit_product, whole, Double, ONE,
};
use crate::measure::{
    bare, eps, lemma_unit, lemma_worth, lemma_worth_negates, lemma_worth_orders, tiny, worth,
};
use crate::reckon::{
    fine, is_about, lemma_about_difference, lemma_about_product, lemma_about_sum, lemma_constant,
    lemma_quotient_is_near, lemma_stray_is_fine, slack,
};

use crate::rounding::lemma_scale_orders;

verus! {

/// A number held between two others.
pub open spec fn between(x: real, low: real, high: real) -> real {
    if x < low { low } else if x > high { high } else { x }
}

/// How far a stick is pushed: the share of the way from the middle to the end on its
/// side, 1 and -1 at and past the ends.
pub open spec fn push(axis: AxisMap, raw: u16) -> real {
    if raw >= axis.raw_center {
        between((raw - axis.raw_center) as real / (axis.raw_max - axis.raw_center) as real, -1real, 1real)
    } else {
        between((raw - axis.raw_center) as real / (axis.raw_center - axis.raw_min) as real, -1real, 1real)
    }
}

/// A push without the band around the middle: nothing within the band, and from its edge
/// on rising to 1 at the end.
pub open spec fn past_the_band(x: real, band: real) -> real {
    if bare(x) <= band {
        0real
    } else if x < 0real {
        -((bare(x) - band) / (1real - band))
    } else {
        (bare(x) - band) / (1real - band)
    }
}

/// A push with its middle dulled: a share of it is cubed.
pub open spec fn dulled(x: real, expo: real) -> real {
    (1real - expo) * x + expo * (x * x * x)
}

/// What a stick asks for.
pub open spec fn asks(axis: AxisMap, raw: u16) -> real {
    let band = between(worth(axis.deadband), 0real, worth(double(WIDEST_DEADBAND)));
    let expo = between(worth(axis.expo), 0real, 1real);
    let v = dulled(past_the_band(push(axis, raw), band), expo);
    if axis.reverse { -v } else { v }
}

pub proof fn lemma_ones()
    ensures
        worth(double(ONE)) == 1real,
        worth(minus_one()) == -1real,
        worth(double(HALF)) == 1real / 2real,
        is_about(double(WIDEST_DEADBAND), 9real / 10real, fine()),
        worth(double(0)) == 0real,
        double(ONE).finite() && minus_one().finite() && double(HALF).finite() && double(0).finite(),
{
    lemma2_to64();
    lemma2_to64_rest();
    lemma_constant(double(ONE), 4503599627370496, 1022, 52);
    lemma_constant(double(HALF), 4503599627370496, 1021, 53);
    lemma_constant(double(WIDEST_DEADBAND), 8106479329266893, 1021, 53);
    assert(pow2(52) as real == 4503599627370496real);
    assert(pow2(53) as real == 9007199254740992real);
    lemma_worth_negates(double(ONE));
    lemma_scale_of_zero();
    lemma_worth(double(0));
}

/// A reading is the push, but for rounding.
proof fn lemma_reading(axis: AxisMap, raw: u16)
    requires
        axis.raw_min < axis.raw_center < axis.raw_max,
    ensures
        is_about(axis.reading(raw), push(axis, raw), slack() / 100real),
{
    lemma_ones();
    lemma_unit();
    let c = axis.raw_center as nat;
    let x = whole(raw as nat).minus(whole(c));
    let n = (raw - axis.raw_center) as real;
    lemma_whole_difference(raw as nat, c);
    let (top, d) = if raw >= axis.raw_center {
        lemma_whole_difference(axis.raw_max as nat, c);
        (whole(axis.raw_max as nat).minus(whole(c)), (axis.raw_max - axis.raw_center) as real)
    } else {
        lemma_whole_difference(c, axis.raw_min as nat);
        (whole(c).minus(whole(axis.raw_min as nat)), (axis.raw_center - axis.raw_min) as real)
    };
    assert(worth(top) == d && d >= 1real);
    lemma_worth_orders(top, double(ONE));
    lemma_worth_orders(double(ONE), top);
    let span = axis.span(raw);
    assert(worth(span) == d && span.finite());
    let q = n / d;
    assert(q * d == n && bare(q) <= 65536real) by (nonlinear_arith)
        requires
            q == n / d,
            d >= 1real,
            -65536real <= n <= 65536real,
            bare(q) == if q < 0real { -q } else { q },
    ;
    lemma_quotient_is_near(x, span, q);
    let r = x.over(span);
    let e = eps();
    let s = bare(q);
    assert(s * e + tiny() <= slack() / 100real) by (nonlinear_arith)
        requires
            0real <= s <= 65536real,
            tiny() <= e * e,
            e == 1real / 9007199254740992real,
            slack() == 1real / 1000000000real,
    ;
    assert(is_about(r, q, slack() / 100real));
    lemma_worth_orders(r, minus_one());
    lemma_worth_orders(minus_one(), r);
    lemma_worth_orders(double(ONE), r);
    lemma_worth_orders(r, double(ONE));
    lemma_worth_orders(minus_one(), double(ONE));
    lemma_worth_orders(double(ONE), minus_one());
}

/// The difference of two raw values is exact.
proof fn lemma_whole_difference(a: nat, b: nat)
    requires
        a <= 0xffff,
        b <= 0xffff,
    ensures
        whole(a).minus(whole(b)).finite(),
        worth(whole(a).minus(whole(b))) == a as real - b as real,
{
    lemma_unit();
    let u = pow2(1074) as real;
    let r = whole(a).minus(whole(b));
    let n = a - b;
    lemma_scale_of_zero();
    lemma_worth(r);
    let v = r.value();
    if a > b {
        lemma_small_difference(a, b);
    } else if b > a {
        lemma_small_difference(b, a);
        assert(-((b - a) * pow2(1074)) == n * pow2(1074)) by (nonlinear_arith)
            requires
                n == a - b,
        ;
    } else {
        lemma_small_whole_is_exact(a);
        lemma_exact_sum(whole(a), whole(a).neg(), double(0));
        lemma_scale_orders(r.magnitude(), 0);
        assert(0 * pow2(1074) == 0) by (nonlinear_arith);
    }
    assert(v as real == n as real * u) by (nonlinear_arith)
        requires
            v == n * pow2(1074),
            u == pow2(1074) as real,
    ;
    let w = worth(r);
    assert(w == n as real) by (nonlinear_arith)
        requires
            w * u == n as real * u,
            u > 0real,
    ;
}

/// Without the band, but for rounding.
proof fn lemma_banded(v: Double, deadband: Double)
    requires
        v.finite() && bare(worth(v)) <= 1real,
        deadband.finite(),
    ensures
        is_about(
            banded(v, deadband),
            past_the_band(
                worth(v),
                between(worth(deadband), 0real, worth(double(WIDEST_DEADBAND))),
            ),
            slack() / 20real,
        ),
{
    lemma_ones();
    lemma_unit();
    let wide = double(WIDEST_DEADBAND);
    let zero = double(0);
    lemma_worth_orders(deadband, zero);
    lemma_worth_orders(zero, deadband);
    lemma_worth_orders(wide, deadband);
    lemma_worth_orders(deadband, wide);
    lemma_worth_orders(wide, zero);
    let band = band_of(deadband);
    let b = worth(band);
    assert(b == between(worth(deadband), 0real, worth(wide)));
    assert(band.finite());
    lemma_worth(v);
    lemma_worth_negates(v);
    let a = v.abs();
    lemma_worth(a);
    assert(worth(a) == bare(worth(v)));
    assert(a.finite());
    lemma_worth_orders(a, band);
    if worth(a) > b {
        let one = double(ONE);
        lemma_about_difference(a, worth(a), 0real, band, b, 0real);
        lemma_about_difference(one, 1real, 0real, band, b, 0real);
        let p = a.minus(band);
        let r = one.minus(band);
        let (x, y) = (worth(p), worth(r));
        let (u, w) = (worth(a) - b, 1real - b);
        assert(w >= 1real / 11real && y >= 1real / 11real);
        let q = x / y;
        assert(q * y == x && bare(q) <= 22real) by (nonlinear_arith)
            requires
                q == x / y,
                y >= 1real / 11real,
                -2real <= x <= 2real,
                bare(q) == if q < 0real { -q } else { q },
        ;
        lemma_quotient_is_near(p, r, q);
        lemma_stray_is_fine(worth(p.over(r)), q);
        let z = u / w;
        assert(z * w == u && 0real <= z <= 1real) by (nonlinear_arith)
            requires
                z == u / w,
                w >= 1real / 11real,
                0real <= u <= w,
        ;
        let (g, h) = (x - u, y - w);
        assert((q - z) * y == g - z * h) by (nonlinear_arith)
            requires
                q * y == x,
                z * w == u,
                g == x - u,
                h == y - w,
        ;
        assert(bare(z * h) <= fine()) by (nonlinear_arith)
            requires
                0real <= z <= 1real,
                -fine() <= h <= fine(),
                bare(z * h) == if z * h < 0real { -(z * h) } else { z * h },
        ;
        let k = q - z;
        assert(bare(k) <= 22real * fine()) by (nonlinear_arith)
            requires
                bare(k * y) <= 2real * fine(),
                y >= 1real / 11real,
                bare(k) == if k < 0real { -k } else { k },
                bare(k * y) == if k * y < 0real { -(k * y) } else { k * y },
        ;
        let res = p.over(r);
        lemma_worth_orders(sign_of(v), one);
        lemma_order(sign_of(v), one);
        lemma_order(sign_of(v), minus_one());
        lemma_order(one, one);
        lemma_order(minus_one(), minus_one());
        lemma_unit_product(sign_of(v), res);
        lemma_worth_negates(res);
        lemma_worth_orders(sign_of(v).times(res), res);
        lemma_worth_orders(sign_of(v).times(res), res.neg());
        assert(res.neg().value() == -res.value());
    }
}

/// The band makes no jump: what is near is near without it.
proof fn lemma_band_is_smooth(s: real, t: real, b: real, gap: real)
    requires
        0real <= b <= 10real / 11real,
        bare(s - t) <= gap,
    ensures
        bare(past_the_band(s, b) - past_the_band(t, b)) <= 22real * gap,
{
    let w = 1real - b;
    let x = (bare(s) - b) / w;
    let y = (bare(t) - b) / w;
    assert(x * w == bare(s) - b && y * w == bare(t) - b) by (nonlinear_arith)
        requires
            x == (bare(s) - b) / w,
            y == (bare(t) - b) / w,
            w >= 1real / 11real,
    ;
    let d = x - y;
    assert(d * w == x * w - y * w) by (nonlinear_arith)
        requires
            d == x - y,
    ;
    assert(bare(d) <= 11real * gap) by (nonlinear_arith)
        requires
            d * w == bare(s) - bare(t),
            bare(bare(s) - bare(t)) <= gap,
            w >= 1real / 11real,
            d == x - y,
            bare(d) == if d < 0real { -d } else { d },
            bare(bare(s) - bare(t)) == if bare(s) - bare(t) < 0real {
                -(bare(s) - bare(t))
            } else {
                bare(s) - bare(t)
            },
    ;
    assert(bare(s) <= b + gap ==> x <= 11real * gap) by (nonlinear_arith)
        requires
            x * w == bare(s) - b,
            w >= 1real / 11real,
            gap >= 0real,
    ;
    assert(bare(t) <= b + gap ==> y <= 11real * gap) by (nonlinear_arith)
        requires
            y * w == bare(t) - b,
            w >= 1real / 11real,
            gap >= 0real,
    ;
    assert(bare(s) > b ==> x > 0real) by (nonlinear_arith)
        requires
            x * w == bare(s) - b,
            w >= 1real / 11real,
    ;
    assert(bare(t) > b ==> y > 0real) by (nonlinear_arith)
        requires
            y * w == bare(t) - b,
            w >= 1real / 11real,
    ;
}

/// With the middle dulled, but for rounding.
proof fn lemma_eased(v: Double, expo: Double)
    requires
        v.finite() && bare(worth(v)) <= 1real,
        expo.finite(),
    ensures
        is_about(
            eased(v, expo),
            dulled(worth(v), between(worth(expo), 0real, 1real)),
            slack() / 50real,
        ),
{
    lemma_ones();
    let one = double(ONE);
    let zero = double(0);
    lemma_worth_orders(expo, zero);
    lemma_worth_orders(zero, expo);
    lemma_worth_orders(one, expo);
    lemma_worth_orders(expo, one);
    lemma_worth_orders(one, zero);
    let e = expo_of(expo);
    let x = worth(e);
    assert(x == between(worth(expo), 0real, 1real) && e.finite());
    let t = worth(v);
    lemma_about_difference(one, 1real, 0real, e, x, 0real);
    let c = one.minus(e);
    lemma_small_product(c, 1real - x, fine(), v, t, 0real);
    lemma_small_product(e, x, 0real, v, t, 0real);
    let e1 = e.times(v);
    lemma_shares_stay_small(x, t);
    lemma_small_product(e1, x * t, fine(), v, t, 0real);
    let e2 = e1.times(v);
    lemma_shares_stay_small(x * t, t);
    lemma_small_product(e2, x * t * t, 3real * fine(), v, t, 0real);
    lemma_shares_stay_small(x * t * t, t);
    lemma_shares_stay_small(1real - x, t);
    let e3 = e2.times(v);
    assert(x * t * t * t == x * (t * t * t)) by (nonlinear_arith);
    lemma_about_sum(c.times(v), (1real - x) * t, 3real * fine(), e3, x * t * t * t, 7real * fine());
}

proof fn lemma_shares_stay_small(x: real, t: real)
    requires
        bare(x) <= 1real,
        bare(t) <= 1real,
    ensures
        bare(x * t) <= 1real,
{
    assert(-1real <= x * t <= 1real) by (nonlinear_arith)
        requires
            -1real <= x <= 1real,
            -1real <= t <= 1real,
    ;
}

/// A product of shares.
proof fn lemma_small_product(a: Double, u: real, g: real, b: Double, v: real, h: real)
    requires
        is_about(a, u, g),
        is_about(b, v, h),
        bare(u) <= 1real,
        bare(v) <= 1real,
        g <= 1real / 1000000real,
        h <= 1real / 1000000real,
    ensures
        is_about(a.times(b), u * v, 2real * g + 2real * h + fine()),
{
    let (x, y) = (bare(u), bare(v));
    assert(x * y <= 1real && x * h <= h && y * g <= g && g * h <= g) by (nonlinear_arith)
        requires
            0real <= x <= 1real,
            0real <= y <= 1real,
            0real <= g <= 1real / 1000000real,
            0real <= h <= 1real / 1000000real,
    ;
    lemma_about_product(a, u, g, b, v, h);
}

/// Dulling makes no jump.
proof fn lemma_dulling_is_smooth(s: real, t: real, e: real, gap: real)
    requires
        0real <= e <= 1real,
        bare(s) <= 1real,
        bare(t) <= 1real,
        bare(s - t) <= gap,
    ensures
        bare(dulled(s, e) - dulled(t, e)) <= 4real * gap,
{
    let d = s - t;
    let c = s * s + s * t + t * t;
    assert(s * s * s - t * t * t == d * c) by (nonlinear_arith)
        requires
            d == s - t,
            c == s * s + s * t + t * t,
    ;
    lemma_shares_stay_small(s, s);
    lemma_shares_stay_small(s, t);
    lemma_shares_stay_small(t, t);
    assert(bare(c) <= 3real);
    let k = d * c;
    assert(bare(k) <= 3real * gap) by (nonlinear_arith)
        requires
            k == d * c,
            -gap <= d <= gap,
            -3real <= c <= 3real,
            bare(k) == if k < 0real { -k } else { k },
    ;
    let f = 1real - e;
    assert(dulled(s, e) - dulled(t, e) == f * d + e * k) by (nonlinear_arith)
        requires
            dulled(s, e) == f * s + e * (s * s * s),
            dulled(t, e) == f * t + e * (t * t * t),
            d == s - t,
            s * s * s - t * t * t == k,
    ;
    assert(bare(f * d) <= gap) by (nonlinear_arith)
        requires
            0real <= f <= 1real,
            -gap <= d <= gap,
            bare(f * d) == if f * d < 0real { -(f * d) } else { f * d },
    ;
    assert(bare(e * k) <= 3real * gap) by (nonlinear_arith)
        requires
            0real <= e <= 1real,
            -(3real * gap) <= k <= 3real * gap,
            bare(e * k) == if e * k < 0real { -(e * k) } else { e * k },
    ;
}

/// A stick asks for what it is pushed, past the band and with its middle dulled, turned
/// over where it is to be: everywhere on its way, within two billionths. A channel that
/// is missing asks for nothing.
pub proof fn law_a_stick_asks_for_what_it_is_pushed(axis: AxisMap, channels: Seq<u16>)
    requires
        axis.raw_min < axis.raw_center < axis.raw_max,
        axis.deadband.finite(),
        axis.expo.finite(),
    ensures
        1 <= axis.channel <= channels.len() ==> is_about(
            axis.stick(channels),
            asks(axis, channels[axis.channel - 1]),
            2real * slack(),
        ),
        !(1 <= axis.channel <= channels.len()) ==> worth(axis.stick(channels)) == 0real,
{
    lemma_ones();
    if 1 <= axis.channel <= channels.len() {
        let raw = channels[axis.channel - 1];
        let t = push(axis, raw);
        let band = between(worth(axis.deadband), 0real, worth(double(WIDEST_DEADBAND)));
        let expo = between(worth(axis.expo), 0real, 1real);
        lemma_push(axis, raw);
        lemma_reading(axis, raw);
        let v = axis.reading(raw);
        lemma_reading_is_a_share(axis, raw);
        lemma_banded(v, axis.deadband);
        lemma_band_is_smooth(worth(v), t, band, slack() / 100real);
        let p = banded(v, axis.deadband);
        lemma_past_is_a_share(t, band);
        lemma_banded_is_a_share(v, axis.deadband);
        lemma_eased(p, axis.expo);
        lemma_dulling_is_smooth(
            worth(p),
            past_the_band(t, band),
            expo,
            slack() / 20real + 22real * (slack() / 100real),
        );
        lemma_worth_negates(eased(p, axis.expo));
    }
}

proof fn lemma_push(axis: AxisMap, raw: u16)
    ensures
        bare(push(axis, raw)) <= 1real,
{
}

proof fn lemma_past_is_a_share(x: real, b: real)
    requires
        bare(x) <= 1real,
        0real <= b <= 10real / 11real,
    ensures
        bare(past_the_band(x, b)) <= 1real,
{
    let w = 1real - b;
    let u = bare(x) - b;
    let y = u / w;
    assert(u >= 0real ==> 0real <= y <= 1real) by (nonlinear_arith)
        requires
            y == u / w,
            w >= 1real / 11real,
            u <= w,
    ;
}

proof fn lemma_reading_is_a_share(axis: AxisMap, raw: u16)
    ensures
        axis.reading(raw).finite() && bare(worth(axis.reading(raw))) <= 1real,
{
    crate::control::stick::lemma_reading_is_within_one(axis, raw);
    lemma_share(axis.reading(raw));
}

proof fn lemma_banded_is_a_share(v: Double, deadband: Double)
    requires
        v.finite() && bare(worth(v)) <= 1real,
        deadband.finite(),
    ensures
        banded(v, deadband).finite() && bare(worth(banded(v, deadband))) <= 1real,
{
    lemma_within_one(v);
    crate::control::stick::lemma_banded_is_within_one(v, deadband);
    lemma_share(banded(v, deadband));
}

/// What is within one is a share.
pub proof fn lemma_share(v: Double)
    requires
        within_one(v),
    ensures
        v.finite(),
        bare(worth(v)) <= 1real,
{
    lemma_ones();
    let one = double(ONE);
    lemma_worth(v);
    lemma_worth_negates(v);
    lemma_scale_orders(v.magnitude(), ONE as nat);
    lemma_worth_orders(v.abs(), one);
    lemma_worth(v.abs());
}

proof fn lemma_within_one(v: Double)
    requires
        v.finite(),
        bare(worth(v)) <= 1real,
    ensures
        within_one(v),
{
    lemma_ones();
    let one = double(ONE);
    lemma_worth(v);
    lemma_worth_negates(v);
    lemma_scale_orders(ONE as nat, v.magnitude());
    lemma_scale_orders(v.magnitude(), ONE as nat);
    lemma_worth_orders(v.abs(), one);
    lemma_worth(v.abs());
}

/// Whether an axis is configured in an ordinary way.
pub open spec fn is_ordinary(axis: AxisMap) -> bool {
    &&& axis.raw_min < axis.raw_center < axis.raw_max
    &&& axis.deadband.finite()
    &&& axis.expo.finite()
}

/// Whether a channel is there.
pub open spec fn is_there(axis: AxisMap, channels: Seq<u16>) -> bool {
    1 <= axis.channel <= channels.len()
}

/// The raw value of a stick.
pub open spec fn raw(axis: AxisMap, channels: Seq<u16>) -> u16 {
    channels[axis.channel - 1]
}

/// Whether a number is a stick's share of a limit, within a few billionths of it.
pub open spec fn is_its_share(x: Double, axis: AxisMap, channels: Seq<u16>, most: Double) -> bool {
    is_about(
        x,
        asks(axis, raw(axis, channels)) * worth(most),
        3real * slack() * (1real + bare(worth(most))),
    )
}

pub proof fn lemma_its_share(axis: AxisMap, channels: Seq<u16>, most: Double)
    requires
        is_ordinary(axis),
        is_there(axis, channels),
        most.finite() && bare(worth(most)) <= 1024real,
    ensures
        is_its_share(axis.stick(channels).times(most), axis, channels, most),
{
    law_a_stick_asks_for_what_it_is_pushed(axis, channels);
    lemma_stick_is_within_one(axis, channels);
    let v = axis.stick(channels);
    let u = asks(axis, raw(axis, channels));
    lemma_share(v);
    let m = worth(most);
    let b = bare(m);
    assert(bare(u) <= 2real);
    assert(bare(u) * b <= 2048real) by (nonlinear_arith)
        requires
            0real <= bare(u) <= 2real,
            0real <= b <= 1024real,
    ;
    lemma_about_product(v, u, 2real * slack(), most, m, 0real);
    assert(bare(u) * 0real == 0real && 2real * slack() * 0real == 0real) by (nonlinear_arith);
    assert(b * (2real * slack()) + fine() <= 3real * slack() * (1real + b)) by (nonlinear_arith)
        requires
            b >= 0real,
            slack() == 1real / 1000000000real,
            fine() == 1real / 1000000000000real,
    ;
}

/// The sticks are configured in an ordinary way, and their limits are of ordinary size.
pub open spec fn handles(teleop: Teleop, channels: Seq<u16>) -> bool {
    &&& is_ordinary(teleop.cfg.vx) && is_there(teleop.cfg.vx, channels)
    &&& is_ordinary(teleop.cfg.vy) && is_there(teleop.cfg.vy, channels)
    &&& is_ordinary(teleop.cfg.wz) && is_there(teleop.cfg.wz, channels)
    &&& is_ordinary(teleop.cfg.height) && is_there(teleop.cfg.height, channels)
    &&& is_about(teleop.max_vx, 0real, 1024real)
    &&& is_about(teleop.max_vy, 0real, 1024real)
    &&& is_about(teleop.max_wz, 0real, 1024real)
    &&& is_about(teleop.height_range, 0real, 1024real)
    &&& is_about(teleop.attitude_max, 0real, 1024real)
}

/// With the chicken head off, each speed of the command, and the height, is its own
/// stick's share of its own limit, and the body is level. With it on, the robot only goes
/// forward and back, and the turning stick turns the body by its share of the limit of
/// the attitude.
pub proof fn law_each_stick_has_its_own_share(teleop: Teleop, channels: Seq<u16>)
    requires
        handles(teleop, channels),
    ensures
        ({
            let cmd = teleop.command(channels);
            let cfg = teleop.cfg;
            &&& is_its_share(cmd.vx_m_s, cfg.vx, channels, teleop.max_vx)
            &&& !cmd.chicken_head ==> {
                &&& is_its_share(cmd.vy_m_s, cfg.vy, channels, teleop.max_vy)
                &&& is_its_share(cmd.wz_rad_s, cfg.wz, channels, teleop.max_wz)
                &&& is_its_share(cmd.height_offset_m, cfg.height, channels, teleop.height_range)
                &&& worth(cmd.body_attitude_rad.roll) == 0real
                &&& worth(cmd.body_attitude_rad.pitch) == 0real
                &&& worth(cmd.body_attitude_rad.yaw) == 0real
            }
            &&& cmd.chicken_head ==> {
                &&& worth(cmd.vy_m_s) == 0real
                &&& worth(cmd.wz_rad_s) == 0real
                &&& worth(cmd.height_offset_m) == 0real
                &&& is_its_share(cmd.body_attitude_rad.yaw, cfg.wz, channels, teleop.attitude_max)
            }
            &&& cmd.link_ok
        }),
{
    let cfg = teleop.cfg;
    lemma_its_share(cfg.vx, channels, teleop.max_vx);
    lemma_its_share(cfg.vy, channels, teleop.max_vy);
    lemma_its_share(cfg.wz, channels, teleop.max_wz);
    lemma_its_share(cfg.height, channels, teleop.height_range);
    lemma_its_share(cfg.wz, channels, teleop.attitude_max);
    lemma_ones();
}

/// A stick at or past an end asks for its whole limit, one way or the other, whatever its
/// band and its dulling.
pub proof fn law_a_full_stick_asks_for_its_whole_limit(teleop: Teleop, channels: Seq<u16>)
    requires
        handles(teleop, channels),
        !teleop.command(channels).chicken_head,
    ensures
        ({
            let cmd = teleop.command(channels);
            let cfg = teleop.cfg;
            &&& is_all_of(cmd.vx_m_s, cfg.vx, channels, teleop.max_vx)
            &&& is_all_of(cmd.vy_m_s, cfg.vy, channels, teleop.max_vy)
            &&& is_all_of(cmd.wz_rad_s, cfg.wz, channels, teleop.max_wz)
            &&& is_all_of(cmd.height_offset_m, cfg.height, channels, teleop.height_range)
        }),
{
    law_each_stick_has_its_own_share(teleop, channels);
    let cfg = teleop.cfg;
    lemma_a_full_push(cfg.vx, channels, teleop.max_vx);
    lemma_a_full_push(cfg.vy, channels, teleop.max_vy);
    lemma_a_full_push(cfg.wz, channels, teleop.max_wz);
    lemma_a_full_push(cfg.height, channels, teleop.height_range);
}

/// Whether a number is all of a limit where the stick is at an end: with the limit's
/// sign at the upper end, against it at the lower, and the other way round for a stick
/// that is turned over.
pub open spec fn is_all_of(x: Double, axis: AxisMap, channels: Seq<u16>, most: Double) -> bool {
    let gap = 3real * slack() * (1real + bare(worth(most)));
    let up = if axis.reverse { -worth(most) } else { worth(most) };
    &&& raw(axis, channels) >= axis.raw_max ==> is_about(x, up, gap)
    &&& raw(axis, channels) <= axis.raw_min ==> is_about(x, -up, gap)
}

proof fn lemma_a_full_push(axis: AxisMap, channels: Seq<u16>, most: Double)
    requires
        is_ordinary(axis),
    ensures
        raw(axis, channels) >= axis.raw_max ==> asks(axis, raw(axis, channels)) * worth(most)
            == if axis.reverse { -worth(most) } else { worth(most) },
        raw(axis, channels) <= axis.raw_min ==> asks(axis, raw(axis, channels)) * worth(most)
            == if axis.reverse { worth(most) } else { -worth(most) },
{
    lemma_ones();
    let n = raw(axis, channels);
    let c = axis.raw_center;
    let band = between(worth(axis.deadband), 0real, worth(double(WIDEST_DEADBAND)));
    let expo = between(worth(axis.expo), 0real, 1real);
    let m = worth(most);
    if n >= axis.raw_max {
        let (x, d) = ((n - c) as real, (axis.raw_max - c) as real);
        assert(x / d >= 1real) by (nonlinear_arith)
            requires
                x >= d,
                d >= 1real,
        ;
        assert(push(axis, n) == 1real);
    }
    if n <= axis.raw_min {
        let (x, d) = ((n - c) as real, (c - axis.raw_min) as real);
        assert(x / d <= -1real) by (nonlinear_arith)
            requires
                x <= -d,
                d >= 1real,
        ;
        assert(push(axis, n) == -1real);
    }
    if n >= axis.raw_max || n <= axis.raw_min {
        let w = 1real - band;
        assert(w / w == 1real) by (nonlinear_arith)
            requires
                w >= 1real / 11real,
        ;
        let p = push(axis, n);
        assert(past_the_band(p, band) == p);
        assert(dulled(p, expo) == p) by (nonlinear_arith)
            requires
                p == 1real || p == -1real,
                dulled(p, expo) == (1real - expo) * p + expo * (p * p * p),
        ;
        assert(1real * m == m && -1real * m == -m) by (nonlinear_arith);
    }
}

/// How many positions a switch has passed: the number of thresholds at or below its
/// value, which for ascending ones is the place of the last of them.
pub proof fn law_a_switch_counts_the_thresholds_it_passed(switch: SwitchMap, channels: Seq<u16>, n: nat)
    requires
        1 <= switch.channel <= channels.len(),
        n <= switch.thresholds.len(),
        forall|i: int|
            0 <= i < n ==> #[trigger] switch.thresholds[i] <= channels[switch.channel - 1],
        forall|i: int|
            n <= i < switch.thresholds.len() ==> channels[switch.channel - 1]
                < #[trigger] switch.thresholds[i],
    ensures
        switch.at(channels) == n,
{
    lemma_reached(switch.thresholds@, channels[switch.channel - 1], n);
}

proof fn lemma_reached(thresholds: Seq<u16>, value: u16, n: nat)
    requires
        n <= thresholds.len(),
        forall|i: int| 0 <= i < n ==> #[trigger] thresholds[i] <= value,
        forall|i: int| n <= i < thresholds.len() ==> value < #[trigger] thresholds[i],
    ensures
        reached(thresholds, value) == n,
    decreases thresholds.len(),
{
    if thresholds.len() > 0 {
        let front = thresholds.drop_last();
        let top = thresholds.len() - 1;
        assert(thresholds.last() == thresholds[top]);
        lemma_reached(front, value, if n > top { top as nat } else { n });
    }
}

/// The switches mean what they stand for: the mode from limp over standing to walking,
/// the gait from crawl over walk to trot, a pose on the press of its switch, the chicken
/// head and the choice of the greeting while theirs is on. A missing channel is the first
/// position.
pub proof fn law_the_switches_mean_what_they_stand_for(teleop: Teleop, channels: Seq<u16>)
    ensures
        ({
            let cmd = teleop.command(channels);
            let cfg = teleop.cfg;
            let mode = cfg.mode.at(channels);
            let gait = cfg.gait.at(channels);
            &&& cmd.mode is Relax <==> mode == 0
            &&& cmd.mode is Stand <==> mode == 1
            &&& cmd.mode is Walk <==> mode >= 2
            &&& cmd.gait is Crawl <==> gait == 0
            &&& cmd.gait is Walk <==> gait == 1
            &&& cmd.gait is Trot <==> gait >= 2
            &&& cmd.play_pose <==> cfg.pose.at(channels) > 0 && !teleop.prev_pose_on
            &&& cmd.chicken_head <==> cfg.chicken_head.at(channels) > 0
            &&& cmd.play_alt <==> cfg.pose_select.at(channels) > 0
            &&& !(1 <= cfg.mode.channel <= channels.len()) ==> cmd.mode is Relax
            &&& cmd.arm_rad is Some <==> cfg.arm is Some
        }),
{
}

/// The arm's angle as seen is its channel's share of the way through its range: the least
/// angle at the lower end, the greatest at the upper, and the middle in the middle.
pub proof fn law_the_arm_is_seen_across_its_range(teleop: Teleop, channels: Seq<u16>, axis: AxisMap)
    requires
        teleop.cfg.arm == Some(axis),
        is_ordinary(axis),
        is_there(axis, channels),
        is_about(teleop.arm_min, 0real, 100real),
        is_about(teleop.arm_max, 0real, 100real),
    ensures
        ({
            let low = worth(teleop.arm_min);
            let high = worth(teleop.arm_max);
            teleop.command(channels).arm_rad matches Some(angle) && is_about(
                angle,
                low + (asks(axis, raw(axis, channels)) + 1real) / 2real * (high - low),
                1real / 1000000real,
            )
        }),
{
    lemma_ones();
    law_a_stick_asks_for_what_it_is_pushed(axis, channels);
    lemma_stick_is_within_one(axis, channels);
    let v = axis.stick(channels);
    lemma_share(v);
    let u = asks(axis, raw(axis, channels));
    let one = double(ONE);
    let half = double(HALF);
    lemma_about_sum(v, u, 2real * slack(), one, 1real, 0real);
    let s = v.plus(one);
    let g = 2real * slack() + fine();
    assert(bare(u) <= 2real);
    assert(bare(u + 1real) * (1real / 2real) <= 2real) by (nonlinear_arith)
        requires
            bare(u + 1real) <= 3real,
    ;
    lemma_about_product(s, u + 1real, g, half, 1real / 2real, 0real);
    let w = (u + 1real) * (1real / 2real);
    let h = 2real * slack();
    assert(bare(u + 1real) * 0real == 0real && g * 0real == 0real) by (nonlinear_arith);
    assert(is_about(s.times(half), w, h));
    let (low, high) = (worth(teleop.arm_min), worth(teleop.arm_max));
    lemma_about_difference(teleop.arm_max, high, 0real, teleop.arm_min, low, 0real);
    let range = teleop.arm_max.minus(teleop.arm_min);
    let d = high - low;
    assert(bare(w) <= 2real);
    assert(bare(w) * bare(d) <= 400real) by (nonlinear_arith)
        requires
            0real <= bare(w) <= 2real,
            0real <= bare(d) <= 200real,
    ;
    lemma_about_product(s.times(half), w, h, range, d, fine());
    assert(bare(w) * fine() + bare(d) * h + h * fine() + fine() <= 1real / 2000000real)
        by (nonlinear_arith)
        requires
            0real <= bare(w) <= 2real,
            0real <= bare(d) <= 200real,
            h == 2real * (1real / 1000000000real),
            fine() == 1real / 1000000000000real,
    ;
    assert(bare(w * d) <= 400real) by (nonlinear_arith)
        requires
            -2real <= w <= 2real,
            -200real <= d <= 200real,
            bare(w * d) == if w * d < 0real { -(w * d) } else { w * d },
    ;
    lemma_about_sum(
        teleop.arm_min,
        low,
        0real,
        s.times(half).times(range),
        w * d,
        1real / 2000000real,
    );
    assert(w == (u + 1real) / 2real);
}

} // verus!
