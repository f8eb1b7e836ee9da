//! The IMU (UART5): what its receiving thread keeps.
//!
//! Reading a sample blocks until acceleration, rates and angles are together, so
//! a thread of its own reads, and the control loop takes the newest sample. Values
//! are in SI units: rad, rad/s, m/s².
use vstd::arithmetic::power2::*;
use vstd::prelude::*;
use vstd::string::*;

use crate::double::{double, from_u64, seconds, seconds_of, whole, Double, ONE};
use crate::hal::wait::{look, waits, Wait};
use crate::hal::worker::{since, span};
use crate::measure::{bare, worth};
use crate::reckon::{
    fine, is_about, lemma_about_difference, lemma_about_product, lemma_constant,
    lemma_quotient_is_near, lemma_stray_is_fine, slack,
};

verus! {

/// Standard gravity, as bits: 9.80665 m/s².
pub const G: u64 = 0x4023_9d01_3a92_a305;

/// Pi, as bits.
pub const PI: u64 = 0x4009_21fb_5444_2d18;

/// 180, as bits.
pub const HALF_TURN: u64 = 0x4066_8000_0000_0000;

/// A sample as the sensor gives it.
#[derive(Debug, Clone, Copy)]
pub struct RawSample {
    pub angle_deg: [Double; 3],
    pub gyro_dps: [Double; 3],
    pub accel_g: [Double; 3],
    pub temperature_c: Double,
}

/// The newest values of the IMU.
#[derive(Debug, Clone, Copy)]
pub struct ImuSample {
    /// Roll, pitch and yaw (rad), corrected for the mounting.
    pub rpy_rad: [Double; 3],
    /// Rates (rad/s) in the sensor's frame.
    pub gyro_rad_s: [Double; 3],
    /// Acceleration with gravity (m/s²) in the sensor's frame.
    pub accel_m_s2: [Double; 3],
    pub temperature_c: Double,
    /// When the sample came (ns).
    pub stamp: u64,
}

/// One degree in radians.
pub open spec fn degree() -> Double {
    double(PI).over(double(HALF_TURN))
}

impl ImuSample {
    /// Whether this is the sample of a level robot at rest.
    pub open spec fn is_level(self, now: u64) -> bool {
        &&& self.rpy_rad@ == seq![double(0), double(0), double(0)]
        &&& self.gyro_rad_s@ == seq![double(0), double(0), double(0)]
        &&& self.accel_m_s2@ == seq![double(0), double(0), double(G)]
        &&& self.temperature_c == double(0)
        &&& self.stamp == now
    }

    /// Level and at rest: what stands in for a sensor that is not there must not
    /// look tilted.
    pub fn placeholder(now: u64) -> (r: ImuSample)
        ensures
            r.is_level(now),
    {
        let r = ImuSample {
            rpy_rad: [double(0), double(0), double(0)],
            gyro_rad_s: [double(0), double(0), double(0)],
            accel_m_s2: [double(0), double(0), double(G)],
            temperature_c: double(0),
            stamp: now,
        };
        assert(r.rpy_rad@ =~= seq![double(0), double(0), double(0)]);
        assert(r.gyro_rad_s@ =~= seq![double(0), double(0), double(0)]);
        assert(r.accel_m_s2@ =~= seq![double(0), double(0), double(G)]);
        r
    }

    /// Whether the sample is no older than `max_age` (ns).
    pub fn is_fresh(&self, max_age: u64, now: u64) -> (r: bool)
        ensures
            r == (since(self.stamp, now) <= max_age),
    {
        span(self.stamp, now) <= max_age
    }

    /// Whether this is a raw sample in SI units, corrected for the mounting.
    pub open spec fn converts(self, raw: RawSample, mount: [Double; 3], now: u64) -> bool {
        &&& forall|i: int|
            0 <= i < 3 ==> #[trigger] self.rpy_rad[i] == raw.angle_deg[i].times(degree()).minus(
                mount[i],
            )
        &&& forall|i: int|
            0 <= i < 3 ==> #[trigger] self.gyro_rad_s[i] == raw.gyro_dps[i].times(degree())
        &&& forall|i: int|
            0 <= i < 3 ==> #[trigger] self.accel_m_s2[i] == raw.accel_g[i].times(double(G))
        &&& self.temperature_c == raw.temperature_c
        &&& self.stamp == now
    }
}

/// A raw sample in SI units, corrected for the mounting.
pub fn convert(raw: &RawSample, mount: [Double; 3], now: u64) -> (r: ImuSample)
    ensures
        r.converts(*raw, mount, now),
{
    let rad = double(PI).over(double(HALF_TURN));
    let g = double(G);
    ImuSample {
        rpy_rad: [
            raw.angle_deg[0].times(rad).minus(mount[0]),
            raw.angle_deg[1].times(rad).minus(mount[1]),
            raw.angle_deg[2].times(rad).minus(mount[2]),
        ],
        gyro_rad_s: [
            raw.gyro_dps[0].times(rad),
            raw.gyro_dps[1].times(rad),
            raw.gyro_dps[2].times(rad),
        ],
        accel_m_s2: [
            raw.accel_g[0].times(g),
            raw.accel_g[1].times(g),
            raw.accel_g[2].times(g),
        ],
        temperature_c: raw.temperature_c,
        stamp: now,
    }
}

/// How the receiver is doing.
#[derive(Debug, Clone, Copy, PartialEq, Eq, Structural)]
pub struct ImuStats {
    pub samples: u64,
    pub errors: u64,
    pub rate_hz: Double,
    /// Bytes lost to resynchronisation. Far from 0, the wiring or the baud rate is
    /// to blame.
    pub resync_bytes: u64,
}

impl ImuStats {
    pub open spec fn zero() -> ImuStats {
        ImuStats { samples: 0, errors: 0, rate_hz: double(0), resync_bytes: 0 }
    }
}

impl Default for ImuStats {
    fn default() -> (r: Self)
        ensures
            r == ImuStats::zero(),
    {
        ImuStats { samples: 0, errors: 0, rate_hz: double(0), resync_bytes: 0 }
    }
}

/// What the receiving thread keeps.
#[derive(Debug, Clone, Copy)]
pub struct ImuLog {
    /// The newest sample; `None` until the first.
    pub sample: Option<ImuSample>,
    pub stats: ImuStats,
    pub window_start: u64,
    pub window_samples: u64,
}

impl ImuLog {
    pub fn new(now: u64) -> (r: ImuLog)
        ensures
            r.sample is None,
            r.stats == ImuStats::zero(),
            r.window_start == now,
            r.window_samples == 0,
    {
        ImuLog { sample: None, stats: ImuStats::default(), window_start: now, window_samples: 0 }
    }

    /// A sample came.
    pub fn received(&mut self, raw: &RawSample, mount: [Double; 3], resync_bytes: u64, now: u64)
        ensures
            final(self).sample is Some,
            final(self).sample->Some_0.converts(*raw, mount, now),
            ({
                let window = seconds_of(since(old(self).window_start, now));
                let full = double(ONE).at_most(window);
                let count = old(self).window_samples.wrapping_add(1);
                &&& final(self).stats == (ImuStats {
                    samples: old(self).stats.samples.wrapping_add(1),
                    errors: old(self).stats.errors,
                    rate_hz: if full {
                        whole(count as nat).over(window)
                    } else {
                        old(self).stats.rate_hz
                    },
                    resync_bytes,
                })
                &&& final(self).window_samples == if full { 0 } else { count }
                &&& final(self).window_start == if full { now } else { old(self).window_start }
            }),
    {
        self.sample = Some(convert(raw, mount, now));
        let count: u64 = self.window_samples.wrapping_add(1);
        let window = seconds(span(self.window_start, now));
        let full: bool = double(ONE).at_most(window);
        self.stats = ImuStats {
            samples: self.stats.samples.wrapping_add(1),
            errors: self.stats.errors,
            rate_hz: if full { from_u64(count).over(window) } else { self.stats.rate_hz },
            resync_bytes,
        };
        self.window_samples = if full { 0 } else { count };
        self.window_start = if full { now } else { self.window_start };
    }

    /// A read failed. A timeout may only mean that the parts are not together yet,
    /// but it counts all the same.
    pub fn failed(&mut self)
        ensures
            *final(self) == (ImuLog {
                stats: ImuStats {
                    errors: old(self).stats.errors.wrapping_add(1),
                    ..old(self).stats
                },
                ..*old(self)
            }),
    {
        self.stats = ImuStats {
            samples: self.stats.samples,
            errors: self.stats.errors.wrapping_add(1),
            rate_hz: self.stats.rate_hz,
            resync_bytes: self.stats.resync_bytes,
        };
    }

    /// The newest sample, or a level one while none has come.
    pub fn sample_or_level(&self, now: u64) -> (r: ImuSample)
        ensures
            match self.sample {
                Some(s) => r == s,
                None => r.is_level(now),
            },
    {
        match self.sample {
            Some(s) => s,
            None => ImuSample::placeholder(now),
        }
    }

    /// Waiting for the first sample.
    pub fn wait_ready(&self, port: &str, now: u64, deadline: u64, timeout_ms: u64) -> (r: Wait)
        ensures
            waits(
                r,
                self.sample is Some,
                "IMU ("@ + port@ + ")"@,
                5_000_000,
                now,
                deadline,
                timeout_ms,
            ),
    {
        let what = "IMU (".to_owned().concat(port).concat(")");
        look(self.sample.is_some(), what, 5_000_000, now, deadline, timeout_ms)
    }
}

/// Pi to 16 digits.
pub open spec fn pi() -> real {
    31415926535897932real / 10000000000000000real
}

/// A degree, and gravity.
proof fn lemma_units()
    ensures
        is_about(degree(), pi() / 180real, fine() * 2real),
        is_about(double(G), 980665real / 100000real, fine()),
{
    lemma2_to64();
    lemma2_to64_rest();
    lemma_constant(double(PI), 7074237752028440, 1023, 51);
    lemma_constant(double(HALF_TURN), 6333186975989760, 1029, 45);
    lemma_constant(double(G), 5520653160719109, 1025, 49);
    assert(pow2(51) as real == 2251799813685248real);
    assert(pow2(45) as real == 35184372088832real);
    assert(pow2(49) as real == 562949953421312real);
    let (p, h) = (worth(double(PI)), worth(double(HALF_TURN)));
    assert(h == 180real);
    let x = p / 180real;
    lemma_quotient_is_near(double(PI), double(HALF_TURN), x);
    lemma_stray_is_fine(worth(degree()), x);
}

pub proof fn lemma_degree_is_near()
    ensures
        is_about(degree(), pi() / 180real, fine() * 2real),
{
    lemma_units();
}

/// A raw value of ordinary size times a unit.
pub proof fn lemma_in_units(raw: Double, unit: Double, u: real)
    requires
        raw.finite() && bare(worth(raw)) <= 400real,
        is_about(unit, u, fine() * 2real),
        bare(u) <= 10real,
    ensures
        is_about(raw.times(unit), worth(raw) * u, 2real * slack()),
        bare(worth(raw) * u) <= 4000real,
{
    let r = bare(worth(raw));
    assert(r * bare(u) <= 4000real) by (nonlinear_arith)
        requires
            0real <= r <= 400real,
            0real <= bare(u) <= 10real,
    ;
    lemma_about_product(raw, worth(raw), 0real, unit, u, fine() * 2real);
    assert(r * (fine() * 2real) <= 800real * fine()) by (nonlinear_arith)
        requires
            0real <= r <= 400real,
            fine() == 1real / 1000000000000real,
    ;
    assert(bare(u) * 0real == 0real && 0real * (fine() * 2real) == 0real) by (nonlinear_arith);
    let w = worth(raw);
    assert(bare(w * u) <= 4000real) by (nonlinear_arith)
        requires
            -400real <= w <= 400real,
            -10real <= u <= 10real,
            bare(w * u) == if w * u < 0real { -(w * u) } else { w * u },
    ;
}

/// A sample is in SI units: degrees are turned into radians and gravities into metres per
/// second squared, axis by axis, and of the angles the mounting is taken off.
pub proof fn law_a_sample_is_in_si_units(
    sample: ImuSample,
    raw: RawSample,
    mount: [Double; 3],
    now: u64,
    i: int,
)
    requires
        sample.converts(raw, mount, now),
        0 <= i < 3,
        is_about(raw.angle_deg[i], 0real, 400real),
        is_about(raw.gyro_dps[i], 0real, 400real),
        is_about(raw.accel_g[i], 0real, 64real),
        is_about(mount[i], 0real, 8real),
    ensures
        is_about(
            sample.rpy_rad[i],
            worth(raw.angle_deg[i]) * (pi() / 180real) - worth(mount[i]),
            3real * slack(),
        ),
        is_about(sample.gyro_rad_s[i], worth(raw.gyro_dps[i]) * (pi() / 180real), 3real * slack()),
        is_about(
            sample.accel_m_s2[i],
            worth(raw.accel_g[i]) * (980665real / 100000real),
            3real * slack(),
        ),
        sample.temperature_c == raw.temperature_c,
        sample.stamp == now,
{
    lemma_units();
    let u = pi() / 180real;
    lemma_in_units(raw.angle_deg[i], degree(), u);
    lemma_in_units(raw.gyro_dps[i], degree(), u);
    lemma_in_units(raw.accel_g[i], double(G), 980665real / 100000real);
    lemma_about_difference(
        raw.angle_deg[i].times(degree()),
        worth(raw.angle_deg[i]) * u,
        2real * slack(),
        mount[i],
        worth(mount[i]),
        0real,
    );
}

} // verus!
