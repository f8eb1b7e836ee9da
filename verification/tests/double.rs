//! The arithmetic gives the bits that the processor gives.
use namiashi::double::{ceil_count, double, from_u64, nanoseconds, seconds, Double};
use namiashi::root::square_root;

fn d(x: f64) -> Double {
    double(x.to_bits())
}

fn same(got: Double, want: f64) -> bool {
    let x = f64::from_bits(got.bits);
    (x.is_nan() && want.is_nan()) || got.bits == want.to_bits()
}

struct Source(u64);

impl Source {
    fn next(&mut self) -> u64 {
        self.0 = self.0.wrapping_mul(6364136223846793005).wrapping_add(1442695040888963407);
        let x = self.0;
        (x ^ (x >> 29)).wrapping_mul(0xbf58_476d_1ce4_e5b9)
    }
}

fn samples() -> Vec<f64> {
    let mut out = vec![
        0.0,
        -0.0,
        1.0,
        -1.0,
        0.1,
        0.2,
        0.3,
        3.0,
        1e300,
        -1e300,
        1e-300,
        5e-324,
        -5e-324,
        f64::MAX,
        f64::MIN,
        f64::MIN_POSITIVE,
        f64::MIN_POSITIVE / 2.0,
        f64::INFINITY,
        f64::NEG_INFINITY,
        f64::NAN,
        9007199254740992.0,
        9007199254740993.0,
        0.5,
        1.0 + f64::EPSILON,
        1.0 - f64::EPSILON / 2.0,
    ];
    let mut source = Source(42);
    for _ in 0..60 {
        out.push(f64::from_bits(source.next()));
    }
    for _ in 0..40 {
        // Numbers of like size, whose sums and differences cancel.
        let bits = (source.next() & 0x800f_ffff_ffff_ffff) | 0x3fe0_0000_0000_0000;
        out.push(f64::from_bits(bits));
    }
    out
}

#[test]
fn sums_and_differences_match_the_processor() {
    let xs = samples();
    for &a in &xs {
        for &b in &xs {
            assert!(same(d(a).plus(d(b)), a + b), "{a:e} + {b:e}");
            assert!(same(d(a).minus(d(b)), a - b), "{a:e} - {b:e}");
        }
    }
}

#[test]
fn products_match_the_processor() {
    let xs = samples();
    for &a in &xs {
        for &b in &xs {
            assert!(same(d(a).times(d(b)), a * b), "{a:e} * {b:e}");
        }
    }
}

#[test]
fn quotients_match_the_processor() {
    let xs = samples();
    for &a in &xs {
        for &b in &xs {
            assert!(same(d(a).over(d(b)), a / b), "{a:e} / {b:e}");
        }
    }
}

#[test]
fn roots_match_the_processor() {
    for &a in &samples() {
        assert!(same(square_root(d(a)), a.sqrt()), "sqrt {a:e}");
    }
    assert_eq!(square_root(d(2.0)).bits, 2.0f64.sqrt().to_bits());
    assert_eq!(square_root(d(9.0)).bits, 3.0f64.to_bits());
}

#[test]
fn comparisons_match_the_processor() {
    let xs = samples();
    for &a in &xs {
        for &b in &xs {
            assert_eq!(d(a).below(d(b)), a < b, "{a:e} < {b:e}");
            assert_eq!(d(a).at_most(d(b)), a <= b, "{a:e} <= {b:e}");
            assert_eq!(d(a).equals(d(b)), a == b, "{a:e} == {b:e}");
            assert!(same(d(a).max(d(b)), a.max(b)) || a == b, "max {a:e} {b:e}");
            assert!(same(d(a).min(d(b)), a.min(b)) || a == b, "min {a:e} {b:e}");
            if b <= 1.0 {
                assert!(same(d(a).clamp(d(b), d(1.0)), a.clamp(b, 1.0)), "clamp {a:e} {b:e}");
            }
        }
        assert_eq!(d(a).is_finite(), a.is_finite());
        assert_eq!(d(a).is_nan(), a.is_nan());
        assert!(same(d(a).neg(), -a));
        assert!(same(d(a).abs(), a.abs()));
    }
}

#[test]
fn integers_convert_to_the_nearest_double() {
    let mut source = Source(7);
    for n in [0, 1, 2, 3, u64::MAX, 1 << 53, (1 << 53) + 1, (1 << 53) + 3, 1811, 992] {
        assert_eq!(from_u64(n).bits, (n as f64).to_bits(), "{n}");
    }
    for _ in 0..200 {
        let n = source.next();
        assert_eq!(from_u64(n).bits, (n as f64).to_bits(), "{n}");
        let m = n >> (n % 60);
        assert_eq!(from_u64(m).bits, (m as f64).to_bits(), "{m}");
    }
}

#[test]
fn spans_convert_both_ways() {
    for ns in [0u64, 1, 999_999_999, 1_000_000_000, 2_000_000, 5_000_000, 1_234_567_890_123] {
        let want = std::time::Duration::from_nanos(ns).as_secs_f64();
        assert_eq!(seconds(ns).bits, want.to_bits(), "{ns}");
    }
    for x in [0.0, 0.002, 0.005, 1.0 / 500.0, 1.0 / 3.0, 1e-9, 4e-10, 6e-10, 12.75, 1e6, 5e-324] {
        let want = std::time::Duration::from_secs_f64(x).as_nanos() as u64;
        assert_eq!(nanoseconds(d(x)), Some(want), "{x}");
    }
    assert_eq!(nanoseconds(d(-1.0)), None);
    assert_eq!(nanoseconds(d(f64::NAN)), None);
    assert_eq!(nanoseconds(d(f64::INFINITY)), None);
    assert_eq!(nanoseconds(d(1e300)), None);
    // Past half the range of a `u64`, and at its end.
    assert_eq!(nanoseconds(d(1e10)), Some(10_000_000_000_000_000_000));
    assert_eq!(nanoseconds(d(18_446_744_073.0)), Some(18_446_744_073_000_000_000));
    assert_eq!(nanoseconds(d(18_446_744_074.0)), None);
    assert_eq!(nanoseconds(d(-0.0)), Some(0));
}

#[test]
fn counts_round_up_and_saturate() {
    for x in [0.0, -0.0, -3.5, 0.25, 1.0, 1.5, 799.0000001, 800.0, 1e15, 1e18, 1e19, 1e300, 5e-324] {
        assert_eq!(ceil_count(d(x)), x.ceil() as u64, "{x}");
    }
    assert_eq!(ceil_count(d(f64::NAN)), 0);
    assert_eq!(ceil_count(d(f64::INFINITY)), u64::MAX);
}
