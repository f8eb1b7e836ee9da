//! Double-precision numbers as bit patterns, with arithmetic that is exact to
//! the last bit.
//!
//! A [`Double`] is the bit pattern of an IEEE 754 double. Its operations give the
//! bits that a conforming processor gives, rounding to nearest with ties to
//! even, and are stated over integers: the value of a finite number counted in
//! units of 2^-1074.
use vstd::arithmetic::power2::*;
use vstd::prelude::*;

use crate::arith::{cuts, lift, power, round_cut};
use crate::rounding::{
    lemma_nearest, lemma_nearest_is_exact, lemma_nearest_is_monotone, lemma_scale_of_steps,
    lemma_scale_orders, nearest, scale, FRACTION_SPAN, INFINITE,
};

verus! {

/// The sign bit.
pub const SIGN: u64 = 0x8000_0000_0000_0000;

/// The bit pattern of a double.
#[derive(Clone, Copy, Debug, PartialEq, Eq, Structural)]
pub struct Double {
    pub bits: u64,
}

/// The bits of one.
pub const ONE: u64 = 0x3ff0_0000_0000_0000;

/// The bits of the quiet NaN that invalid operations return.
pub const NAN: u64 = 0x7ff8_0000_0000_0000;

/// The number with the given bits.
pub open spec fn of_bits(bits: u64) -> Double {
    Double { bits }
}

#[verifier::when_used_as_spec(of_bits)]
pub fn double(bits: u64) -> (r: Double)
    ensures
        r == of_bits(bits),
{
    Double { bits }
}

/// The number with the given sign and magnitude.
pub open spec fn signed(negative: bool, magnitude: nat) -> Double {
    Double { bits: (magnitude + if negative { SIGN as nat } else { 0 }) as u64 }
}

/// The size of an integer without its sign.
pub open spec fn size(x: int) -> nat {
    if x < 0 { (-x) as nat } else { x as nat }
}

impl Double {
    /// Whether the sign bit is set.
    pub open spec fn negative(self) -> bool {
        self.bits >= SIGN
    }

    /// The bits without the sign.
    pub open spec fn magnitude(self) -> nat {
        if self.bits >= SIGN { (self.bits - SIGN) as nat } else { self.bits as nat }
    }

    /// Whether this is not a number.
    pub open spec fn nan(self) -> bool {
        self.magnitude() > INFINITE
    }

    /// Whether this is positive or negative infinity.
    pub open spec fn infinite(self) -> bool {
        self.magnitude() == INFINITE
    }

    /// Whether this is a finite number.
    pub open spec fn finite(self) -> bool {
        self.magnitude() < INFINITE
    }

    /// The value in units of 2^-1074. An infinity counts as the first value
    /// past the finite ones.
    pub open spec fn value(self) -> int {
        if self.negative() { -(scale(self.magnitude()) as int) } else { scale(self.magnitude()) as int }
    }

    /// `self < other`; false where either is not a number.
    pub open spec fn is_below(self, other: Double) -> bool {
        !self.nan() && !other.nan() && self.value() < other.value()
    }

    /// `self <= other`; false where either is not a number.
    pub open spec fn is_at_most(self, other: Double) -> bool {
        !self.nan() && !other.nan() && self.value() <= other.value()
    }

    /// `self == other` as numbers: the two zeros are equal, and nothing equals a NaN.
    pub open spec fn is_equal(self, other: Double) -> bool {
        !self.nan() && !other.nan() && self.value() == other.value()
    }

    /// The number with the other sign.
    pub open spec fn negation(self) -> Double {
        signed(!self.negative(), self.magnitude())
    }

    /// The number without its sign.
    pub open spec fn absolute(self) -> Double {
        signed(false, self.magnitude())
    }

    /// The sum, rounded once.
    #[verifier::opaque]
    pub open spec fn sum(self, other: Double) -> Double {
        if self.nan() || other.nan() {
            of_bits(NAN)
        } else if self.infinite() && other.infinite() {
            if self.negative() == other.negative() { self } else { of_bits(NAN) }
        } else if self.infinite() {
            self
        } else if other.infinite() {
            other
        } else {
            let exact = self.value() + other.value();
            if exact == 0 {
                signed(self.negative() && other.negative(), 0)
            } else {
                signed(exact < 0, nearest(size(exact), 1))
            }
        }
    }

    /// The difference, rounded once.
    pub open spec fn difference(self, other: Double) -> Double {
        self.sum(other.negation())
    }

    /// The product, rounded once.
    #[verifier::opaque]
    pub open spec fn product(self, other: Double) -> Double {
        let negative = self.negative() != other.negative();
        if self.nan() || other.nan() {
            of_bits(NAN)
        } else if self.infinite() || other.infinite() {
            if self.magnitude() == 0 || other.magnitude() == 0 {
                of_bits(NAN)
            } else {
                signed(negative, INFINITE as nat)
            }
        } else {
            signed(
                negative,
                nearest(scale(self.magnitude()) * scale(other.magnitude()), pow2(1074)),
            )
        }
    }

    /// The quotient, rounded once.
    #[verifier::opaque]
    pub open spec fn quotient(self, other: Double) -> Double {
        let negative = self.negative() != other.negative();
        if self.nan() || other.nan() {
            of_bits(NAN)
        } else if self.infinite() {
            if other.infinite() { of_bits(NAN) } else { signed(negative, INFINITE as nat) }
        } else if other.infinite() {
            signed(negative, 0)
        } else if other.magnitude() == 0 {
            if self.magnitude() == 0 { of_bits(NAN) } else { signed(negative, INFINITE as nat) }
        } else {
            signed(
                negative,
                nearest(scale(self.magnitude()) * pow2(1074), scale(other.magnitude())),
            )
        }
    }

    /// The number held to the range from `low` to `high`; a NaN stays one.
    pub open spec fn clamped(self, low: Double, high: Double) -> Double {
        let x = if self.is_below(low) { low } else { self };
        if high.is_below(x) { high } else { x }
    }

    /// The larger of two numbers, or the one that is a number.
    pub open spec fn larger(self, other: Double) -> Double {
        if self.nan() { other } else if self.is_below(other) { other } else { self }
    }

    /// The smaller of two numbers, or the one that is a number.
    pub open spec fn smaller(self, other: Double) -> Double {
        if self.nan() { other } else if other.is_below(self) { other } else { self }
    }

    /// The sign and the magnitude.
    pub(crate) fn split(self) -> (r: (bool, u64))
        ensures
            r.0 == self.negative(),
            r.1 == self.magnitude(),
            r.1 < SIGN,
    {
        if self.bits >= SIGN { (true, self.bits - SIGN) } else { (false, self.bits) }
    }

    pub(crate) fn join(negative: bool, magnitude: u64) -> (r: Double)
        requires
            magnitude <= INFINITE,
        ensures
            r == signed(negative, magnitude as nat),
    {
        if negative { Double { bits: magnitude + SIGN } } else { Double { bits: magnitude } }
    }

    #[verifier::when_used_as_spec(nan)]
    pub fn is_nan(self) -> (r: bool)
        ensures
            r == self.nan(),
    {
        self.split().1 > INFINITE
    }

    #[verifier::when_used_as_spec(finite)]
    pub fn is_finite(self) -> (r: bool)
        ensures
            r == self.finite(),
    {
        self.split().1 < INFINITE
    }

    #[verifier::when_used_as_spec(is_below)]
    pub fn below(self, other: Double) -> (r: bool)
        ensures
            r == self.is_below(other),
    {
        let (s, a) = self.split();
        let (t, b) = other.split();
        proof {
            lemma_order(self, other);
        }
        if a > INFINITE || b > INFINITE {
            false
        } else if s {
            if t { b < a } else { a > 0 || b > 0 }
        } else {
            !t && a < b
        }
    }

    #[verifier::when_used_as_spec(is_at_most)]
    pub fn at_most(self, other: Double) -> (r: bool)
        ensures
            r == self.is_at_most(other),
    {
        !self.is_nan() && !other.is_nan() && !other.below(self)
    }

    #[verifier::when_used_as_spec(is_equal)]
    pub fn equals(self, other: Double) -> (r: bool)
        ensures
            r == self.is_equal(other),
    {
        self.at_most(other) && other.at_most(self)
    }

    #[verifier::when_used_as_spec(negation)]
    pub fn neg(self) -> (r: Double)
        ensures
            r == self.negation(),
    {
        if self.bits >= SIGN { Double { bits: self.bits - SIGN } } else { Double { bits: self.bits + SIGN } }
    }

    #[verifier::when_used_as_spec(absolute)]
    pub fn abs(self) -> (r: Double)
        ensures
            r == self.absolute(),
    {
        Double { bits: self.split().1 }
    }

    #[verifier::when_used_as_spec(clamped)]
    pub fn clamp(self, low: Double, high: Double) -> (r: Double)
        requires
            low.is_at_most(high),
        ensures
            r == self.clamped(low, high),
    {
        let x = if self.below(low) { low } else { self };
        if high.below(x) { high } else { x }
    }

    #[verifier::when_used_as_spec(larger)]
    pub fn max(self, other: Double) -> (r: Double)
        ensures
            r == self.larger(other),
    {
        if self.is_nan() { other } else if self.below(other) { other } else { self }
    }

    #[verifier::when_used_as_spec(smaller)]
    pub fn min(self, other: Double) -> (r: Double)
        ensures
            r == self.smaller(other),
    {
        if self.is_nan() { other } else if other.below(self) { other } else { self }
    }

    /// The significand and the exponent of a finite number.
    pub(crate) fn parts(self) -> (r: (u64, u32))
        requires
            self.finite(),
        ensures
            scale(self.magnitude()) == r.0 * pow2(r.1 as nat),
            r.0 < 2 * FRACTION_SPAN,
            r.1 == 0 || r.0 >= FRACTION_SPAN,
            r.1 <= 2045,
            r.0 == 0 <==> self.magnitude() == 0,
    {
        let m: u64 = self.split().1;
        let top: u64 = m / FRACTION_SPAN;
        let low: u64 = m % FRACTION_SPAN;
        let k: u64 = if top == 0 { low } else { low + FRACTION_SPAN };
        let e: u32 = if top == 0 { 0 } else { (top - 1) as u32 };
        proof {
            lemma_scale_of_steps(k as nat, e as nat);
            assert(m == k + e * FRACTION_SPAN);
        }
        (k, e)
    }

    #[verifier::when_used_as_spec(product)]
    pub fn times(self, other: Double) -> (r: Double)
        ensures
            r == self.product(other),
    {
        proof {
            reveal(Double::product);
        }
        let (s, a) = self.split();
        let (t, b) = other.split();
        let negative: bool = s != t;
        if a > INFINITE || b > INFINITE {
            return double(NAN);
        }
        if a == INFINITE || b == INFINITE {
            if a == 0 || b == 0 {
                return double(NAN);
            }
            return Double::join(negative, INFINITE);
        }
        let (ka, ea) = self.parts();
        let (kb, eb) = other.parts();
        let ghost n = scale(self.magnitude()) * scale(other.magnitude());
        let ghost d = pow2(1074);
        proof {
            lemma_pow2_pos(1074);
            assert(ka * kb < 0x80_0000_0000_0000 * 0x80_0000_0000_0000) by (nonlinear_arith)
                requires
                    ka < 0x80_0000_0000_0000,
                    kb < 0x80_0000_0000_0000,
            ;
        }
        let m: u128 = ka as u128 * kb as u128;
        if m == 0 {
            proof {
                assert(ka == 0 || kb == 0) by (nonlinear_arith)
                    requires
                        ka * kb == 0,
                ;
                assert(n == 0) by (nonlinear_arith)
                    requires
                        n == (ka * pow2(ea as nat)) * (kb * pow2(eb as nat)),
                        ka == 0 || kb == 0,
                ;
                lemma_nearest_of_zero(d);
            }
            return Double::join(negative, 0);
        }
        let p: i32 = ea as i32 + eb as i32 - 1074;
        proof {
            lemma_product_cut(n, ka as nat, ea as nat, kb as nat, eb as nat);
            assert(cuts(n, d, m as nat, p as int, false));
        }
        Double::join(negative, round_cut(m, p, false, Ghost(n), Ghost(d)))
    }

    #[verifier::when_used_as_spec(quotient)]
    pub fn over(self, other: Double) -> (r: Double)
        ensures
            r == self.quotient(other),
    {
        proof {
            reveal(Double::quotient);
        }
        let (s, a) = self.split();
        let (t, b) = other.split();
        let negative: bool = s != t;
        if a > INFINITE || b > INFINITE {
            return double(NAN);
        }
        if a == INFINITE {
            return if b == INFINITE { double(NAN) } else { Double::join(negative, INFINITE) };
        }
        if b == INFINITE {
            return Double::join(negative, 0);
        }
        if b == 0 {
            return if a == 0 { double(NAN) } else { Double::join(negative, INFINITE) };
        }
        let (ka, ea) = self.parts();
        let (kb, eb) = other.parts();
        let ghost n = scale(self.magnitude()) * pow2(1074);
        let ghost d = scale(other.magnitude());
        proof {
            lemma_pow2_pos(eb as nat);
            assert(d > 0) by (nonlinear_arith)
                requires
                    d == kb * pow2(eb as nat),
                    kb > 0,
                    pow2(eb as nat) > 0,
            ;
        }
        if a == 0 {
            proof {
                lemma_scale_of_zero();
                assert(n == 0) by (nonlinear_arith)
                    requires
                        n == 0 * pow2(1074),
                ;
                lemma_nearest_of_zero(d);
            }
            return Double::join(negative, 0);
        }
        let (ma, lost) = normalized(ka);
        let numerator: u128 = ma as u128 * 0x1_0000_0000_0000_0000;
        let m: u128 = numerator / kb as u128;
        let rest: u128 = numerator % kb as u128;
        let p: i32 = ea as i32 - lost as i32 - eb as i32 + 1010;
        proof {
            vstd::arithmetic::div_mod::lemma_fundamental_div_mod(numerator as int, kb as int);
            assert(m * kb + rest == numerator) by (nonlinear_arith)
                requires
                    numerator == kb * m + rest,
            ;
            assert(m >= 0x40_0000_0000_0000) by (nonlinear_arith)
                requires
                    m * kb + rest == numerator,
                    rest < kb,
                    kb < 0x20_0000_0000_0000,
                    numerator >= 0x10_0000_0000_0000 * 0x1_0000_0000_0000_0000,
            ;
            assert(m <= numerator) by (nonlinear_arith)
                requires
                    m * kb + rest == numerator,
                    kb >= 1,
                    rest >= 0,
                    m >= 0,
            ;
            lemma_quotient_cut(
                n,
                d,
                ka as nat,
                ea as nat,
                lost as nat,
                kb as nat,
                eb as nat,
                m as nat,
                rest as nat,
            );
        }
        Double::join(negative, round_cut(m, p, rest != 0, Ghost(n), Ghost(d)))
    }

    #[verifier::when_used_as_spec(sum)]
    pub fn plus(self, other: Double) -> (r: Double)
        ensures
            r == self.sum(other),
    {
        proof {
            reveal(Double::sum);
        }
        let (s, a) = self.split();
        let (t, b) = other.split();
        if a > INFINITE || b > INFINITE {
            return double(NAN);
        }
        if a == INFINITE {
            return if b == INFINITE && s != t { double(NAN) } else { self };
        }
        if b == INFINITE {
            return other;
        }
        proof {
            lemma_scale_orders(a as nat, b as nat);
            lemma_scale_orders(a as nat, 0);
            lemma_scale_orders(b as nat, 0);
            lemma_scale_of_zero();
        }
        if s == t {
            if a == 0 && b == 0 {
                return Double::join(s, 0);
            }
            let m: u64 = if a >= b { total(self, other) } else { total(other, self) };
            return Double::join(s, m);
        }
        if a == b {
            return Double::join(false, 0);
        }
        if a > b {
            Double::join(s, gap(self, other))
        } else {
            Double::join(t, gap(other, self))
        }
    }

    #[verifier::when_used_as_spec(difference)]
    pub fn minus(self, other: Double) -> (r: Double)
        ensures
            r == self.difference(other),
    {
        self.plus(other.neg())
    }
}

/// A nonzero significand brought up to full length, and by how many places.
pub(crate) fn normalized(k: u64) -> (r: (u64, u32))
    requires
        0 < k < 2 * FRACTION_SPAN,
    ensures
        r.0 == k * pow2(r.1 as nat),
        FRACTION_SPAN <= r.0 < 2 * FRACTION_SPAN,
        r.1 <= 52,
{
    let mut m: u64 = k;
    let mut lost: u32 = 0;
    proof {
        lemma2_to64();
    }
    while m < FRACTION_SPAN
        invariant
            0 < k,
            0 < m < 2 * FRACTION_SPAN,
            m == k * pow2(lost as nat),
            lost <= 52,
            m >= pow2(lost as nat),
        decreases 2 * FRACTION_SPAN - m,
    {
        proof {
            lemma_pow2_unfold((lost + 1) as nat);
            assert(k * (2 * pow2(lost as nat)) == 2 * (k * pow2(lost as nat))) by (nonlinear_arith);
            lemma2_to64();
            lemma2_to64_rest();
            if lost == 52 {
                assert(false);
            }
        }
        m = m * 2;
        lost = lost + 1;
    }
    (m, lost)
}

/// The magnitude of the sum of two finite numbers of one sign.
fn total(x: Double, y: Double) -> (r: u64)
    requires
        x.finite(),
        y.finite(),
        x.magnitude() >= y.magnitude(),
        x.magnitude() > 0,
    ensures
        r == nearest(scale(x.magnitude()) + scale(y.magnitude()), 1),
        r <= INFINITE,
{
    let (ka, ea) = x.parts();
    let (kb, eb) = y.parts();
    let ghost n = scale(x.magnitude()) + scale(y.magnitude());
    proof {
        lemma_exponents_follow(x, y, ka as nat, ea as nat, kb as nat, eb as nat);
        lemma2_to64();
        lemma2_to64_rest();
    }
    if ea - eb <= 66 {
        let step: u128 = power(ea - eb);
        proof {
            lemma_small_power((ea - eb) as nat);
            assert(ka * step <= 0x20_0000_0000_0000 * 0x4_0000_0000_0000_0000) by (nonlinear_arith)
                requires
                    ka < 0x20_0000_0000_0000,
                    step <= 0x4_0000_0000_0000_0000,
            ;
        }
        let m: u128 = ka as u128 * step + kb as u128;
        proof {
            lemma_aligned(ka as nat, ea as nat, eb as nat);
            assert(m * pow2(eb as nat) == n) by (nonlinear_arith)
                requires
                    m == ka * step + kb,
                    (ka * step) * pow2(eb as nat) == ka * pow2(ea as nat),
                    n == ka * pow2(ea as nat) + kb * pow2(eb as nat),
            ;
            lemma_exact_cut(n, m as nat, eb as nat);
            assert(ka * step >= ka) by (nonlinear_arith) requires step >= 1;
        }
        round_cut(m, eb as i32, false, Ghost(n), Ghost(1))
    } else {
        let m: u128 = ka as u128 * 2048;
        let p: i32 = ea as i32 - 11;
        proof {
            lemma_aligned(ka as nat, ea as nat, p as nat);
            lemma_far_below(kb as nat, eb as nat, p as nat);
            lemma_inexact_cut(n, m as nat, p as nat, kb as nat * pow2(eb as nat));
        }
        round_cut(m, p, kb != 0, Ghost(n), Ghost(1))
    }
}

/// The magnitude of the difference of two finite numbers of one sign.
fn gap(x: Double, y: Double) -> (r: u64)
    requires
        x.finite(),
        y.finite(),
        x.magnitude() > y.magnitude(),
    ensures
        r == nearest((scale(x.magnitude()) - scale(y.magnitude())) as nat, 1),
        r <= INFINITE,
{
    let (ka, ea) = x.parts();
    let (kb, eb) = y.parts();
    proof {
        lemma_scale_orders(y.magnitude(), x.magnitude());
    }
    let ghost n = (scale(x.magnitude()) - scale(y.magnitude())) as nat;
    proof {
        lemma_exponents_follow(x, y, ka as nat, ea as nat, kb as nat, eb as nat);
        lemma2_to64();
        lemma2_to64_rest();
    }
    if ea - eb <= 66 {
        let step: u128 = power(ea - eb);
        proof {
            lemma_small_power((ea - eb) as nat);
            assert(ka * step <= 0x20_0000_0000_0000 * 0x4_0000_0000_0000_0000) by (nonlinear_arith)
                requires
                    ka < 0x20_0000_0000_0000,
                    step <= 0x4_0000_0000_0000_0000,
            ;
            lemma_aligned(ka as nat, ea as nat, eb as nat);
            assert(ka * step > kb) by (nonlinear_arith)
                requires
                    (ka * step) * pow2(eb as nat) == ka * pow2(ea as nat),
                    ka * pow2(ea as nat) > kb * pow2(eb as nat),
            ;
        }
        let m: u128 = ka as u128 * step - kb as u128;
        proof {
            assert(m * pow2(eb as nat) == n) by (nonlinear_arith)
                requires
                    m == ka * step - kb,
                    (ka * step) * pow2(eb as nat) == ka * pow2(ea as nat),
                    n == ka * pow2(ea as nat) - kb * pow2(eb as nat),
            ;
            lemma_exact_cut(n, m as nat, eb as nat);
        }
        round_cut(m, eb as i32, false, Ghost(n), Ghost(1))
    } else {
        let whole: u128 = ka as u128 * 2048;
        let p: i32 = ea as i32 - 11;
        let m: u128 = if kb == 0 { whole } else { whole - 1 };
        proof {
            lemma_aligned(ka as nat, ea as nat, p as nat);
            lemma_far_below(kb as nat, eb as nat, p as nat);
            let step = pow2(p as nat);
            assert((whole - 1) * step == whole * step - step) by (nonlinear_arith);
            if kb == 0 {
                lemma_exact_cut(n, m as nat, p as nat);
            } else {
                lemma_inexact_cut(n, m as nat, p as nat, (step - kb * pow2(eb as nat)) as nat);
            }
        }
        round_cut(m, p, kb != 0, Ghost(n), Ghost(1))
    }
}

/// The larger of two magnitudes has no smaller exponent.
proof fn lemma_exponents_follow(x: Double, y: Double, ka: nat, ea: nat, kb: nat, eb: nat)
    requires
        x.magnitude() >= y.magnitude(),
        scale(x.magnitude()) == ka * pow2(ea),
        scale(y.magnitude()) == kb * pow2(eb),
        ka < 2 * FRACTION_SPAN,
        eb == 0 || kb >= FRACTION_SPAN,
    ensures
        ea >= eb,
{
    lemma_scale_orders(y.magnitude(), x.magnitude());
    if ea < eb {
        lemma_pow2_unfold(eb);
        if ea + 1 < eb {
            lemma_pow2_strictly_increases(ea, (eb - 1) as nat);
        }
        lemma_pow2_pos(ea);
        assert(ka * pow2(ea) < kb * pow2(eb)) by (nonlinear_arith)
            requires
                pow2(eb) >= 2 * pow2(ea),
                pow2(ea) > 0,
                ka < 2 * FRACTION_SPAN,
                kb >= FRACTION_SPAN,
        ;
    }
}

proof fn lemma_small_power(k: nat)
    requires
        k <= 66,
    ensures
        1 <= pow2(k) <= 0x4_0000_0000_0000_0000,
{
    lemma2_to64();
    lemma2_to64_rest();
    lemma_pow2_adds(64, 2);
    lemma_pow2_pos(k);
    if k < 66 {
        lemma_pow2_strictly_increases(k, 66);
    }
}

/// A significand moved down to the exponent `low`.
proof fn lemma_aligned(k: nat, e: nat, low: nat)
    requires
        low <= e,
    ensures
        (k * pow2((e - low) as nat)) * pow2(low) == k * pow2(e),
{
    lemma_pow2_adds((e - low) as nat, low);
    assert((k * pow2((e - low) as nat)) * pow2(low) == k * (pow2((e - low) as nat) * pow2(low)))
        by (nonlinear_arith);
}

/// A number whose exponent is far smaller lies below one step.
proof fn lemma_far_below(k: nat, e: nat, p: nat)
    requires
        k < 2 * FRACTION_SPAN,
        e + 53 <= p,
    ensures
        k * pow2(e) < pow2(p),
        k * pow2(e) == 0 <==> k == 0,
{
    lemma2_to64();
    lemma2_to64_rest();
    lemma_pow2_pos(e);
    lemma_pow2_adds(53, e);
    if e + 53 < p {
        lemma_pow2_strictly_increases(e + 53, p);
    }
    assert(k * pow2(e) < pow2(53) * pow2(e)) by (nonlinear_arith)
        requires
            k < pow2(53),
            pow2(e) > 0,
    ;
    assert(k > 0 ==> k * pow2(e) > 0) by (nonlinear_arith)
        requires
            pow2(e) > 0,
    ;
    assert(0 * pow2(e) == 0);
}

proof fn lemma_exact_cut(n: nat, m: nat, p: nat)
    requires
        m * pow2(p) == n,
    ensures
        cuts(n, 1, m, p as int, false),
{
    lemma_pow2_pos(p);
    lemma_inexact_cut(n, m, p, 0);
}

proof fn lemma_inexact_cut(n: nat, m: nat, p: nat, rest: nat)
    requires
        m * pow2(p) + rest == n,
        rest < pow2(p),
    ensures
        cuts(n, 1, m, p as int, rest != 0),
{
    lemma2_to64();
    assert(lift(p as int) == 1);
    assert((m + 1) * pow2(p) == m * pow2(p) + pow2(p)) by (nonlinear_arith);
    assert(n * lift(p as int) == n);
    assert(1 * pow2(p) == pow2(p));
}

/// The quotient of two significands cuts off the exact quotient.
proof fn lemma_quotient_cut(
    n: nat,
    d: nat,
    ka: nat,
    ea: nat,
    lost: nat,
    kb: nat,
    eb: nat,
    m: nat,
    rest: nat,
)
    requires
        n == (ka * pow2(ea)) * pow2(1074),
        d == kb * pow2(eb),
        rest < kb,
        lost <= 52,
        m * kb + rest == ka * pow2(lost) * 0x1_0000_0000_0000_0000,
    ensures
        cuts(n, d, m, ea - lost - eb + 1010, rest != 0),
{
    let p = ea - lost - eb + 1010;
    let big: nat = 0x1_0000_0000_0000_0000;
    let t = pow2(if p < 0 { 0 } else { p as nat });
    let top = ka * pow2(lost) * big;
    lemma2_to64();
    assert(pow2(64) == big);
    // Both sides carry the common factor c.
    let c: nat = if p < 0 { pow2(eb) } else { pow2(eb + p as nat) };
    if p < 0 {
        lemma_pow2_pos(eb);
        lemma_pow2_adds(ea, 1074);
        lemma_pow2_adds(ea + 1074, (-p) as nat);
        lemma_pow2_adds(lost, 64);
        lemma_pow2_adds(lost + 64, eb);
        assert(ea + 1074 + -p == lost + 64 + eb);
        assert(n * lift(p) == top * c) by (nonlinear_arith)
            requires
                n == (ka * pow2(ea)) * pow2(1074),
                lift(p) == pow2((-p) as nat),
                (pow2(ea) * pow2(1074)) * pow2((-p) as nat) == (pow2(lost) * big) * c,
                top == ka * pow2(lost) * big,
        ;
        assert(d * t == kb * c);
    } else {
        lemma_pow2_pos(eb + p as nat);
        lemma_pow2_adds(ea, 1074);
        lemma_pow2_adds(lost, 64);
        lemma_pow2_adds(lost + 64, eb + p as nat);
        lemma_pow2_adds(eb, p as nat);
        assert(ea + 1074 == lost + 64 + eb + p);
        assert(n * lift(p) == top * c) by (nonlinear_arith)
            requires
                n == (ka * pow2(ea)) * pow2(1074),
                lift(p) == 1,
                pow2(ea) * pow2(1074) == (pow2(lost) * big) * c,
                top == ka * pow2(lost) * big,
        ;
        assert(d * t == kb * c) by (nonlinear_arith)
            requires
                d == kb * pow2(eb),
                c == pow2(eb) * t,
        ;
    }
    assert(m * (kb * c) == (m * kb) * c) by (nonlinear_arith);
    assert((m + 1) * (kb * c) == (m * kb + kb) * c) by (nonlinear_arith);
    assert((m * kb) * c + rest * c == top * c) by (nonlinear_arith)
        requires
            m * kb + rest == top,
    ;
    assert((m * kb + kb) * c == (m * kb) * c + kb * c) by (nonlinear_arith);
    assert(rest * c < kb * c) by (nonlinear_arith)
        requires
            rest < kb,
            c > 0,
    ;
    assert(rest * c == 0 <==> rest == 0) by (nonlinear_arith)
        requires
            c > 0,
    ;
}

/// Whether `a < b`, told from the bits.
pub open spec fn bits_below(a: Double, b: Double) -> bool {
    if a.nan() || b.nan() {
        false
    } else if a.negative() {
        if b.negative() { b.magnitude() < a.magnitude() } else { a.magnitude() > 0 || b.magnitude() > 0 }
    } else {
        !b.negative() && a.magnitude() < b.magnitude()
    }
}

/// The order of numbers is the order of their bits.
pub proof fn lemma_order(a: Double, b: Double)
    ensures
        a.is_below(b) <==> bits_below(a, b),
        a.is_at_most(b) <==> !a.nan() && !b.nan() && !bits_below(b, a),
        a.is_equal(b) <==> !a.nan() && !b.nan() && !bits_below(b, a) && !bits_below(a, b),
{
    lemma_scale_orders(a.magnitude(), b.magnitude());
    lemma_scale_orders(a.magnitude(), 0);
    lemma_scale_orders(b.magnitude(), 0);
    lemma_scale_of_zero();
}

/// The double nearest to a natural number.
pub open spec fn whole(n: nat) -> Double {
    signed(false, nearest(n * pow2(1074), 1))
}

/// The double nearest to an integer.
pub fn from_u64(n: u64) -> (r: Double)
    ensures
        r == whole(n as nat),
{
    let ghost exact = n as nat * pow2(1074);
    if n == 0 {
        proof {
            assert(exact == 0) by (nonlinear_arith)
                requires
                    exact == 0nat * pow2(1074),
            ;
            lemma_nearest_of_zero(1);
        }
        return double(0);
    }
    proof {
        lemma_exact_cut(exact, n as nat, 1074);
    }
    Double::join(false, round_cut(n as u128, 1074, false, Ghost(exact), Ghost(1)))
}

/// 10^9, as bits.
pub const BILLION: u64 = 0x41cd_cd65_0000_0000;

/// A span of nanoseconds in seconds: the whole seconds and the rest, added.
pub open spec fn seconds_of(ns: nat) -> Double {
    whole(ns / 1_000_000_000).sum(whole(ns % 1_000_000_000).quotient(of_bits(BILLION)))
}

/// A span of nanoseconds in seconds.
pub fn seconds(ns: u64) -> (r: Double)
    ensures
        r == seconds_of(ns as nat),
{
    from_u64(ns / 1_000_000_000).plus(from_u64(ns % 1_000_000_000).over(double(BILLION)))
}

/// The smallest integer that is not below `n / d`.
pub open spec fn ceiling(n: nat, d: nat) -> nat {
    if n % d == 0 { n / d } else { n / d + 1 }
}

/// A number rounded up to a count: 0 for what is not positive, and the largest
/// count for what is larger.
pub open spec fn count_up(x: Double) -> nat {
    if x.nan() || x.value() <= 0 {
        0
    } else if x.infinite() || ceiling(x.value() as nat, pow2(1074)) > u64::MAX {
        u64::MAX as nat
    } else {
        ceiling(x.value() as nat, pow2(1074))
    }
}

/// A number rounded up to a count.
pub fn ceil_count(x: Double) -> (r: u64)
    ensures
        r == count_up(x),
{
    let (negative, m) = x.split();
    proof {
        lemma_scale_of_zero();
        lemma_scale_orders(m as nat, 0);
        lemma_pow2_pos(1074);
    }
    if m > INFINITE || negative || m == 0 {
        return 0;
    }
    if m == INFINITE {
        return u64::MAX;
    }
    let (k, e) = x.parts();
    let ghost d = pow2(1074);
    let ghost n = scale(m as nat);
    if e >= 1074 {
        let shift: u32 = e - 1074;
        proof {
            lemma_pow2_adds(1074, shift as nat);
            lemma_pow2_pos(shift as nat);
            assert(n == (k * pow2(shift as nat)) * d) by (nonlinear_arith)
                requires
                    n == k * pow2(e as nat),
                    pow2(e as nat) == d * pow2(shift as nat),
            ;
            vstd::arithmetic::div_mod::lemma_fundamental_div_mod_converse(
                n as int,
                d as int,
                k * pow2(shift as nat),
                0,
            );
        }
        if shift > 11 {
            proof {
                lemma2_to64();
                if shift > 12 {
                    lemma_pow2_strictly_increases(12, shift as nat);
                }
                assert(k * pow2(shift as nat) > u64::MAX) by (nonlinear_arith)
                    requires
                        k >= 0x10_0000_0000_0000,
                        pow2(shift as nat) >= 4096,
                ;
            }
            return u64::MAX;
        }
        let step: u128 = power(shift);
        proof {
            lemma2_to64();
            if shift < 11 {
                lemma_pow2_strictly_increases(shift as nat, 11);
            }
            assert(k * step <= 0x20_0000_0000_0000 * 2048) by (nonlinear_arith)
                requires
                    k < 0x20_0000_0000_0000,
                    step <= 2048,
            ;
        }
        let whole_part: u128 = k as u128 * step;
        if whole_part > u64::MAX as u128 {
            return u64::MAX;
        }
        return whole_part as u64;
    }
    let shift: u32 = 1074 - e;
    proof {
        lemma_pow2_adds(e as nat, shift as nat);
        lemma_pow2_pos(e as nat);
        lemma_pow2_pos(shift as nat);
    }
    let ghost w = pow2(e as nat);
    if shift > 60 {
        proof {
            lemma2_to64();
            lemma2_to64_rest();
            lemma_pow2_strictly_increases(60, shift as nat);
            assert(n < d) by (nonlinear_arith)
                requires
                    n == k * w,
                    d == w * pow2(shift as nat),
                    k < pow2(shift as nat),
                    w > 0,
            ;
            lemma_small_fraction(n, d);
        }
        return 1;
    }
    let step: u128 = power(shift);
    let q: u64 = (k as u128 / step) as u64;
    let rest: u128 = k as u128 % step;
    proof {
        vstd::arithmetic::div_mod::lemma_fundamental_div_mod(k as int, step as int);
        assert(k as u128 / step <= k) by (nonlinear_arith)
            requires
                step >= 1,
        ;
        lemma_scaled_division(n, d, w, k as nat, step as nat, k as nat / step as nat, rest as nat);
    }
    if rest == 0 { q } else { q + 1 }
}

proof fn lemma_small_fraction(n: nat, d: nat)
    requires
        0 < n < d,
    ensures
        ceiling(n, d) == 1,
{
    vstd::arithmetic::div_mod::lemma_fundamental_div_mod_converse(n as int, d as int, 0, n as int);
}

proof fn lemma_scaled_division(n: nat, d: nat, w: nat, k: nat, step: nat, q: nat, rest: nat)
    requires
        w > 0,
        step > 0,
        n == k * w,
        d == w * step,
        k == step * q + rest,
        rest < step,
    ensures
        ceiling(n, d) == if rest == 0 { q } else { q + 1 },
{
    assert(n == q * d + rest * w) by (nonlinear_arith)
        requires
            n == k * w,
            d == w * step,
            k == step * q + rest,
    ;
    assert(0 <= rest * w < d) by (nonlinear_arith)
        requires
            rest < step,
            w > 0,
            d == w * step,
    ;
    assert(rest * w == 0 <==> rest == 0) by (nonlinear_arith)
        requires
            w > 0,
    ;
    vstd::arithmetic::div_mod::lemma_fundamental_div_mod_converse(
        n as int,
        d as int,
        q as int,
        (rest * w) as int,
    );
}

/// Whether `r` is the integer nearest to `n / d`, where a tie goes to the even one.
pub open spec fn nearest_whole(n: nat, d: nat, r: nat) -> bool {
    &&& 2 * n <= (2 * r + 1) * d
    &&& (2 * r) * d <= 2 * n + d
    &&& 2 * n == (2 * r + 1) * d || (2 * r) * d == 2 * n + d ==> r % 2 == 0
}

/// Whether a span of seconds, rounded to nanoseconds, is a `u64`.
pub open spec fn countable(span: Double) -> bool {
    &&& span.finite()
    &&& span.value() >= 0
    &&& 2 * (span.value() * 1_000_000_000) < (2 * u64::MAX + 1) * pow2(1074)
}

/// A span of seconds in nanoseconds, rounded to the nearest. `None` for a span
/// that is negative, not a number, or too long for a `u64`.
pub fn nanoseconds(span: Double) -> (r: Option<u64>)
    ensures
        match r {
            Some(ns) => countable(span) && nearest_whole(
                (span.value() * 1_000_000_000) as nat,
                pow2(1074),
                ns as nat,
            ),
            None => !countable(span),
        },
{
    let (negative, m) = span.split();
    proof {
        lemma_scale_of_zero();
        lemma_scale_orders(m as nat, 0);
        lemma_pow2_pos(1074);
    }
    if m >= INFINITE || (negative && m > 0) {
        return None;
    }
    let (k, e) = span.parts();
    let top: u128 = k as u128 * 1_000_000_000;
    let ghost d = pow2(1074);
    let ghost n = scale(m as nat) * 1_000_000_000;
    proof {
        assert(n == top * pow2(e as nat)) by (nonlinear_arith)
            requires
                n == (k * pow2(e as nat)) * 1_000_000_000,
                top == k * 1_000_000_000,
        ;
    }
    if e >= 1074 {
        proof {
            if e > 1074 {
                lemma_pow2_strictly_increases(1074, e as nat);
            }
            assert(2 * n >= (2 * u64::MAX + 1) * d) by (nonlinear_arith)
                requires
                    n == top * pow2(e as nat),
                    pow2(e as nat) >= d,
                    2 * top >= 2 * u64::MAX + 1,
            ;
        }
        return None;
    }
    let shift: u32 = 1074 - e;
    proof {
        lemma_pow2_adds(e as nat, shift as nat);
        lemma_pow2_pos(e as nat);
        lemma_pow2_pos(shift as nat);
    }
    if shift > 100 {
        proof {
            lemma2_to64();
            lemma2_to64_rest();
            lemma_pow2_adds(60, 40);
            lemma_pow2_strictly_increases(100, shift as nat);
            assert(2 * n < d) by (nonlinear_arith)
                requires
                    n == top * pow2(e as nat),
                    d == pow2(e as nat) * pow2(shift as nat),
                    2 * top < pow2(shift as nat),
                    pow2(e as nat) > 0,
            ;
            assert((2 * 0 + 1) * d == d && (2 * 0) * d == 0) by (nonlinear_arith);
            assert(nearest_whole(n, d, 0));
            assert((2 * u64::MAX + 1) * d >= d) by (nonlinear_arith);
        }
        return Some(0);
    }
    let step: u128 = power(shift);
    let q: u128 = top / step;
    let rest: u128 = top % step;
    proof {
        vstd::arithmetic::div_mod::lemma_fundamental_div_mod(top as int, step as int);
    }
    let up: bool = rest > step - rest || (rest == step - rest && q % 2 == 1);
    let last: u128 = 0xffff_ffff_ffff_ffff;
    if q > last || (q == last && up) {
        proof {
            assert(2 * top >= (2 * u64::MAX + 1) * step) by (nonlinear_arith)
                requires
                    top == step * q + rest,
                    q > u64::MAX || (q == u64::MAX && 2 * rest >= step),
                    step > 0,
            ;
            assert(2 * n >= (2 * u64::MAX + 1) * d) by (nonlinear_arith)
                requires
                    n == top * pow2(e as nat),
                    d == pow2(e as nat) * step,
                    2 * top >= (2 * u64::MAX + 1) * step,
            ;
        }
        return None;
    }
    let ns: u64 = if up { q as u64 + 1 } else { q as u64 };
    proof {
        assert(2 * top < (2 * u64::MAX + 1) * step) by (nonlinear_arith)
            requires
                top == step * q + rest,
                rest < step,
                q < u64::MAX || (q == u64::MAX && 2 * rest < step),
        ;
        assert(2 * n < (2 * u64::MAX + 1) * d) by (nonlinear_arith)
            requires
                n == top * pow2(e as nat),
                d == pow2(e as nat) * step,
                2 * top < (2 * u64::MAX + 1) * step,
                pow2(e as nat) > 0,
        ;
    }
    proof {
        lemma_round_whole(n, d, pow2(e as nat), top as nat, step as nat, q as nat, rest as nat, ns as nat);
    }
    Some(ns)
}

proof fn lemma_round_whole(n: nat, d: nat, w: nat, top: nat, step: nat, q: nat, rest: nat, r: nat)
    requires
        w > 0,
        step > 0,
        n == top * w,
        d == w * step,
        top == step * q + rest,
        rest < step,
        r == if 2 * rest > step || (2 * rest == step && q % 2 == 1) { q + 1 } else { q },
    ensures
        nearest_whole(n, d, r),
{
    let base = step * q;
    assert((2 * r + 1) * d == (2 * (step * r) + step) * w) by (nonlinear_arith)
        requires
            d == w * step,
    ;
    assert((2 * r) * d == (2 * (step * r)) * w) by (nonlinear_arith)
        requires
            d == w * step,
    ;
    assert(2 * n == (2 * top) * w) by (nonlinear_arith)
        requires
            n == top * w,
    ;
    assert(2 * n + d == (2 * top + step) * w) by (nonlinear_arith)
        requires
            n == top * w,
            d == w * step,
    ;
    assert(step * (q + 1) == base + step) by (nonlinear_arith)
        requires
            base == step * q,
    ;
    let a = 2 * top;
    let b = 2 * (step * r) + step;
    let c = 2 * (step * r);
    assert(a <= b && c <= a + step);
    assert(a * w <= b * w) by (nonlinear_arith) requires a <= b;
    assert(c * w <= (a + step) * w) by (nonlinear_arith) requires c <= a + step;
    assert(a * w == b * w ==> a == b) by (nonlinear_arith) requires w > 0;
    assert(c * w == (a + step) * w ==> c == a + step) by (nonlinear_arith) requires w > 0;
}

/// The value that an exact sum is rounded to.
spec fn rounded(exact: int) -> int {
    let m = scale(nearest(size(exact), 1)) as int;
    if exact < 0 { -m } else { m }
}

proof fn lemma_sum_value(a: Double, b: Double)
    requires
        a.finite(),
        b.finite(),
    ensures
        !a.sum(b).nan(),
        a.sum(b).value() == rounded(a.value() + b.value()),
{
    reveal(Double::sum);
    let exact = a.value() + b.value();
    lemma_nearest(size(exact), 1);
    lemma_nearest_of_zero(1);
    lemma_scale_of_zero();
}

proof fn lemma_rounded_is_monotone(x: int, y: int)
    requires
        x <= y,
    ensures
        rounded(x) <= rounded(y),
        -(scale(INFINITE as nat) as int) <= rounded(x) <= scale(INFINITE as nat),
{
    lemma_nearest(size(x), 1);
    lemma_nearest(size(y), 1);
    lemma_scale_orders(nearest(size(x), 1), INFINITE as nat);
    lemma_scale_orders(nearest(size(x), 1), nearest(size(y), 1));
    if x >= 0 {
        lemma_nearest_is_monotone(size(x), 1, size(y), 1);
    } else if y < 0 {
        lemma_nearest_is_monotone(size(y), 1, size(x), 1);
    }
}

/// Adding to a larger number never gives a smaller sum.
pub proof fn lemma_sum_is_monotone(x: Double, a: Double, b: Double)
    requires
        x.finite(),
        a.is_at_most(b),
    ensures
        x.sum(a).is_at_most(x.sum(b)),
{
    reveal(Double::sum);
    lemma_scale_orders(a.magnitude(), INFINITE as nat);
    lemma_scale_orders(b.magnitude(), INFINITE as nat);
    lemma_rounded_is_monotone(0, 0);
    if a.finite() && b.finite() {
        lemma_sum_value(x, a);
        lemma_sum_value(x, b);
        lemma_rounded_is_monotone(x.value() + a.value(), x.value() + b.value());
    } else if a.finite() {
        lemma_sum_value(x, a);
        lemma_rounded_is_monotone(x.value() + a.value(), x.value() + a.value());
    } else if b.finite() {
        lemma_sum_value(x, b);
        lemma_rounded_is_monotone(x.value() + b.value(), x.value() + b.value());
    }
}

/// Subtracting a finite number leaves a number.
pub proof fn lemma_finite_difference(a: Double, b: Double)
    requires
        !a.nan(),
        b.finite(),
    ensures
        !a.difference(b).nan(),
{
    reveal(Double::sum);
    if a.finite() {
        lemma_sum_value(a, b.negation());
    }
}

/// The product of two numbers above zero is a number that is not negative.
pub proof fn lemma_product_of_positives(a: Double, b: Double)
    requires
        of_bits(0).is_below(a),
        of_bits(0).is_below(b),
    ensures
        !a.product(b).nan(),
        !a.product(b).negative(),
        of_bits(0).is_at_most(a.product(b)),
{
    reveal(Double::product);
    lemma_order(of_bits(0), a);
    lemma_order(of_bits(0), b);
    lemma_pow2_pos(1074);
    lemma_nearest(scale(a.magnitude()) * scale(b.magnitude()), pow2(1074));
    lemma_order(of_bits(0), a.product(b));
}

/// The negative of a number that is not negative is at most the number.
pub proof fn lemma_negation_is_below(a: Double)
    requires
        !a.nan(),
        !a.negative(),
    ensures
        a.negation().is_at_most(a),
        !a.negation().nan(),
        a.negation().value() == -a.value(),
{
    lemma_order(a.negation(), a);
}

proof fn lemma_nearest_of_zero(d: nat)
    requires
        d > 0,
    ensures
        nearest(0, d) == 0,
{
    lemma_scale_of_zero();
    lemma_nearest_is_exact(0, d);
    assert(0 * d == 0);
}

/// The product of two significands is the exact product, at its weight.
proof fn lemma_product_cut(n: nat, ka: nat, ea: nat, kb: nat, eb: nat)
    requires
        n == (ka * pow2(ea)) * (kb * pow2(eb)),
    ensures
        cuts(n, pow2(1074), ka * kb, ea + eb - 1074, false),
{
    let p = ea + eb - 1074;
    let m = ka * kb;
    lemma2_to64();
    lemma_pow2_pos(1074);
    lemma_pow2_adds(ea, eb);
    let t = pow2(ea + eb);
    assert(n == m * t) by (nonlinear_arith)
        requires
            n == (ka * pow2(ea)) * (kb * pow2(eb)),
            m == ka * kb,
            t == pow2(ea) * pow2(eb),
    ;
    let weight: nat = pow2(1074) * pow2(if p < 0 { 0 } else { p as nat });
    if p < 0 {
        lemma_pow2_adds((-p) as nat, ea + eb);
        assert(weight == t * lift(p)) by (nonlinear_arith)
            requires
                weight == pow2(1074) * 1,
                pow2(1074) == lift(p) * t,
        ;
    } else {
        lemma_pow2_adds(1074, p as nat);
        assert(1074 + p as nat == ea + eb);
        assert(lift(p) == 1);
        assert(t * 1 == t);
    }
    lemma_pow2_pos(ea + eb);
    lemma_pow2_pos(if p < 0 { (-p) as nat } else { 0 });
    assert(n * lift(p) == m * weight) by (nonlinear_arith)
        requires
            n == m * t,
            weight == t * lift(p),
    ;
    assert(weight > 0) by (nonlinear_arith)
        requires
            weight == t * lift(p),
            t > 0,
            lift(p) > 0,
    ;
    assert((m + 1) * weight == m * weight + weight) by (nonlinear_arith);
}

/// A product with 1 or -1 takes the sign and nothing else.
pub proof fn lemma_unit_product(unit: Double, x: Double)
    requires
        unit.is_equal(of_bits(ONE)) || unit.is_equal(of_bits(ONE).negation()),
        x.finite(),
    ensures
        unit.product(x) == signed(unit.negative() != x.negative(), x.magnitude()),
        unit.product(x).finite(),
        unit.product(x).value() == if unit.negative() { -x.value() } else { x.value() },
{
    reveal(Double::product);
    lemma2_to64();
    lemma2_to64_rest();
    lemma_scale_of_steps(FRACTION_SPAN as nat, 1022);
    lemma_pow2_adds(52, 1022);
    lemma_scale_orders(unit.magnitude(), ONE as nat);
    lemma_pow2_pos(1074);
    let d = pow2(1074);
    assert(scale(unit.magnitude()) * scale(x.magnitude()) == scale(x.magnitude()) * d)
        by (nonlinear_arith)
        requires
            scale(unit.magnitude()) == d,
    ;
    lemma_nearest_is_exact(x.magnitude(), d);
}

/// A sum that is a number itself is not rounded.
pub proof fn lemma_exact_sum(a: Double, b: Double, x: Double)
    requires
        a.finite(),
        b.finite(),
        x.finite(),
        x.value() == a.value() + b.value(),
    ensures
        a.sum(b).is_equal(x),
{
    lemma_sum_value(a, b);
    lemma_nearest_is_exact(x.magnitude(), 1);
    assert(scale(x.magnitude()) * 1 == scale(x.magnitude()));
}

pub proof fn lemma_scale_of_zero()
    ensures
        scale(0) == 0,
{
    lemma_scale_of_steps(0, 0);
}

} // verus!
