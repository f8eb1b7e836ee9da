//! Live view: the frames that show the robot's pose, and how often one is sent.
//!
//! Commanded and measured poses go out under two keys, since a channel keeps only
//! the newest frame. A pair carries one sequence number. Angles are the model's,
//! the same that go to the motors. Sending blocks, so it happens on another thread;
//! a full queue drops frames, and the drops are counted.
use vstd::arithmetic::power2::*;
use vstd::prelude::*;
use vstd::string::*;

use crate::control::jointvec::JointVec;
use crate::control::stick::lemma_quotient_shrinks;
use crate::double::{
    countable, double, lemma_order, lemma_scale_of_zero, nanoseconds, nearest_whole, Double, ONE,
};
use crate::hal::joint::{LegSlot, PerLeg};
use crate::rounding::{
    lemma_nearest, lemma_scale_of_steps, lemma_scale_orders, scale, FRACTION_SPAN,
};
use crate::text::{decimal, decimal_text, same_text};

verus! {

/// 100, as bits.
pub const VIZ_RATE_HZ: u64 = 0x4059_0000_0000_0000;

/// What the command line says about the live view.
#[derive(Debug, Clone)]
pub struct VizConfig {
    pub enabled: bool,
    /// The key of commanded poses.
    pub key_planned: String,
    /// The key of measured poses, which must be another.
    pub key_measured: String,
    /// Frames per second.
    pub rate_hz: Double,
    /// Where to listen, on hosts without multicast.
    pub endpoint: Option<String>,
}

impl VizConfig {
    pub open spec fn is_default(self) -> bool {
        &&& !self.enabled
        &&& self.key_planned@ == "go2/gait/planned"@
        &&& self.key_measured@ == "go2/gait/measured"@
        &&& self.rate_hz == double(VIZ_RATE_HZ)
        &&& self.endpoint is None
    }

    /// Refuses one key for both streams: the channel would keep only the newer.
    pub fn check(&self) -> (r: Result<(), String>)
        ensures
            r is Ok <==> self.key_planned@ != self.key_measured@,
            r matches Err(e) ==> e@ == "--viz-key と --viz-key-measured が同じです ('"@
                + self.key_planned@
                + "')。チャネルは latest-wins なので 1 本に両方流すと上書きし合います"@,
    {
        if same_text(self.key_planned.as_str(), self.key_measured.as_str()) {
            return Err(
                "--viz-key と --viz-key-measured が同じです ('".to_owned().concat(
                    self.key_planned.as_str(),
                ).concat("')。チャネルは latest-wins なので 1 本に両方流すと上書きし合います"),
            );
        }
        Ok(())
    }
}

impl Default for VizConfig {
    fn default() -> (r: Self)
        ensures
            r.is_default(),
    {
        VizConfig {
            enabled: false,
            key_planned: "go2/gait/planned".to_owned(),
            key_measured: "go2/gait/measured".to_owned(),
            rate_hz: double(VIZ_RATE_HZ),
            endpoint: None,
        }
    }
}

/// By default the two streams have two keys.
pub proof fn law_the_two_keys_differ_by_default(config: VizConfig)
    requires
        config.is_default(),
    ensures
        config.key_planned@ != config.key_measured@,
{
    reveal_strlit("go2/gait/planned");
    reveal_strlit("go2/gait/measured");
    assert("go2/gait/planned"@.len() != "go2/gait/measured"@.len());
}

/// Where the body is, as far as the gait knows.
#[derive(Debug, Clone, Copy, PartialEq, Eq, Structural)]
pub struct BodyView {
    /// The position in the world (m).
    pub x: Double,
    pub y: Double,
    pub yaw: Double,
    /// The height over the ground (m).
    pub z: Double,
    /// Roll and pitch (rad): level where planned, the IMU's where measured.
    pub roll: Double,
    pub pitch: Double,
    /// Which feet are on the ground.
    pub stance: PerLeg<bool>,
}

impl BodyView {
    pub open spec fn origin() -> BodyView {
        BodyView {
            x: double(0),
            y: double(0),
            yaw: double(0),
            z: double(0),
            roll: double(0),
            pitch: double(0),
            stance: PerLeg::all(false),
        }
    }
}

impl Default for BodyView {
    fn default() -> (r: Self)
        ensures
            r == BodyView::origin(),
    {
        BodyView {
            x: double(0),
            y: double(0),
            yaw: double(0),
            z: double(0),
            roll: double(0),
            pitch: double(0),
            stance: PerLeg::filled(false),
        }
    }
}

/// One frame of the live view.
#[derive(Debug, Clone, Copy)]
pub struct VizFrame {
    pub version: u32,
    pub seq: u64,
    /// Seconds since the start.
    pub t_s: Double,
    /// x, y, z and yaw.
    pub pose: [Double; 4],
    /// Roll and pitch.
    pub pose_rp: [Double; 2],
    /// FL, FR, RL, RR, each hip, thigh, calf.
    pub joints: [Double; 12],
    /// FL, FR, RL, RR.
    pub stance: [bool; 4],
}

impl VizFrame {
    /// Whether this is the frame of the given pose.
    pub open spec fn shows(self, version: u32, seq: u64, t_s: Double, q: JointVec, body: BodyView) -> bool {
        &&& self.version == version
        &&& self.seq == seq
        &&& self.t_s == t_s
        &&& self.pose@ == seq![body.x, body.y, body.z, body.yaw]
        &&& self.pose_rp@ == seq![body.roll, body.pitch]
        &&& self.joints@ == q.flat().take(12)
        &&& self.stance@ == seq![body.stance.fl, body.stance.fr, body.stance.rl, body.stance.rr]
    }
}

/// The frame of a pose. The version is that of the receiver's format.
pub fn frame(version: u32, seq: u64, t_s: Double, q: &JointVec, body: &BodyView) -> (r: VizFrame)
    ensures
        r.shows(version, seq, t_s, *q, *body),
{
    let r = VizFrame {
        version,
        seq,
        t_s,
        pose: [body.x, body.y, body.z, body.yaw],
        pose_rp: [body.roll, body.pitch],
        joints: [
            q.legs.fl.hip, q.legs.fl.thigh, q.legs.fl.calf,
            q.legs.fr.hip, q.legs.fr.thigh, q.legs.fr.calf,
            q.legs.rl.hip, q.legs.rl.thigh, q.legs.rl.calf,
            q.legs.rr.hip, q.legs.rr.thigh, q.legs.rr.calf,
        ],
        stance: [body.stance.fl, body.stance.fr, body.stance.rl, body.stance.rr],
    };
    assert(r.pose@ =~= seq![body.x, body.y, body.z, body.yaw]);
    assert(r.pose_rp@ =~= seq![body.roll, body.pitch]);
    assert(r.joints@ =~= q.flat().take(12));
    assert(r.stance@ =~= seq![body.stance.fl, body.stance.fr, body.stance.rl, body.stance.rr]);
    r
}

/// What one tick sends. A pair carries one sequence number.
#[derive(Debug, Clone, Copy)]
pub struct Frames {
    pub planned: Option<VizFrame>,
    pub measured: Option<VizFrame>,
}

impl Frames {
    /// A commanded pose alone.
    pub fn planned(f: VizFrame) -> (r: Frames)
        ensures
            r == (Frames { planned: Some(f), measured: None }),
    {
        Frames { planned: Some(f), measured: None }
    }

    /// A measured pose alone.
    pub fn measured(f: VizFrame) -> (r: Frames)
        ensures
            r == (Frames { planned: None, measured: Some(f) }),
    {
        Frames { planned: None, measured: Some(f) }
    }

    /// Both.
    pub fn both(planned: VizFrame, measured: VizFrame) -> (r: Frames)
        ensures
            r == (Frames { planned: Some(planned), measured: Some(measured) }),
    {
        Frames { planned: Some(planned), measured: Some(measured) }
    }
}

/// How deep the queue to the sending thread is. It is for dropping, not for
/// keeping: a deep queue would show the past.
pub const QUEUE_DEPTH: usize = 8;

/// When frames are due, and what became of them.
#[derive(Debug, Clone, Copy, PartialEq, Eq, Structural)]
pub struct Publisher {
    pub period: u64,
    pub next: u64,
    pub seq: u64,
    pub queued: u64,
    pub dropped: u64,
}

/// The time between two frames (ns): at least one a second.
pub fn frame_period(rate_hz: Double) -> (r: u64)
    ensures
        nearest_whole(
            (double(ONE).over(rate_hz.max(double(ONE))).value() * 1_000_000_000) as nat,
            pow2(1074),
            r as nat,
        ),
{
    let rate = rate_hz.max(double(ONE));
    proof {
        lemma_short_period(rate_hz);
    }
    match nanoseconds(double(ONE).over(rate)) {
        Some(ns) => ns,
        None => 0,
    }
}

/// The period of a rate of at least 1 is at most a second.
proof fn lemma_short_period(rate_hz: Double)
    ensures
        countable(double(ONE).over(rate_hz.max(double(ONE)))),
{
    let rate = rate_hz.max(double(ONE));
    let period = double(ONE).over(rate);
    lemma_order(rate_hz, double(ONE));
    lemma_scale_of_zero();
    assert(!rate.nan() && !rate.negative() && rate.magnitude() >= ONE);
    assert(period.magnitude() <= ONE && !period.negative()) by {
        if rate.finite() {
            lemma_quotient_shrinks(double(ONE), rate);
        }
        reveal(Double::quotient);
        lemma_scale_orders(0, rate.magnitude());
        lemma_nearest(scale(ONE as nat) * pow2(1074), scale(rate.magnitude()));
    }
    lemma_scale_orders(period.magnitude(), ONE as nat);
    lemma2_to64();
    lemma2_to64_rest();
    lemma_scale_of_steps(FRACTION_SPAN as nat, 1022);
    lemma_pow2_adds(52, 1022);
    lemma_pow2_pos(1074);
    assert(2 * (period.value() * 1_000_000_000) < (2 * u64::MAX + 1) * pow2(1074))
        by (nonlinear_arith)
        requires
            0 <= period.value() <= pow2(1074),
            pow2(1074) > 0,
    ;
}

impl Publisher {
    pub fn new(period: u64, now: u64) -> (r: Publisher)
        ensures
            r == (Publisher { period, next: now, seq: 0, queued: 0, dropped: 0 }),
    {
        Publisher { period, next: now, seq: 0, queued: 0, dropped: 0 }
    }

    /// The sequence number of the frame to send now; `None` if none is due.
    pub fn due(&mut self, now: u64) -> (r: Option<u64>)
        ensures
            now < old(self).next ==> r is None && *final(self) == *old(self),
            now >= old(self).next ==> r == Some(old(self).seq) && *final(self) == (Publisher {
                next: crate::hal::worker::saturating(now, old(self).period),
                seq: old(self).seq.wrapping_add(1),
                ..*old(self)
            }),
    {
        if now < self.next {
            return None;
        }
        let seq: u64 = self.seq;
        self.next = now.saturating_add(self.period);
        self.seq = seq.wrapping_add(1);
        Some(seq)
    }

    /// Counts a frame that the queue took, or had no room for.
    pub fn handed_over(&mut self, taken: bool)
        ensures
            *final(self) == (if taken {
                Publisher { queued: old(self).queued.wrapping_add(1), ..*old(self) }
            } else {
                Publisher { dropped: old(self).dropped.wrapping_add(1), ..*old(self) }
            }),
    {
        if taken {
            self.queued = self.queued.wrapping_add(1);
        } else {
            self.dropped = self.dropped.wrapping_add(1);
        }
    }

    /// The account at the end: a jam must not pass for a healthy stream.
    pub open spec fn account(self, put: u64) -> Seq<char> {
        if self.dropped > 0 {
            "ライブ可視化: "@ + decimal(self.queued as nat) + " tick を配信、"@ + decimal(
                self.dropped as nat,
            ) + " tick を取りこぼしました（送信が制御周期に追いつかず捨てた分。put "@ + decimal(
                put as nat,
            ) + " 件）"@
        } else {
            "ライブ可視化: "@ + decimal(self.queued as nat)
                + " tick を配信しました（取りこぼし無し、put "@ + decimal(put as nat) + " 件）"@
        }
    }

    pub fn summary(&self, put: u64) -> (r: String)
        ensures
            r@ == self.account(put),
    {
        if self.dropped > 0 {
            "ライブ可視化: ".to_owned().concat(decimal_text(self.queued).as_str()).concat(
                " tick を配信、",
            ).concat(decimal_text(self.dropped).as_str()).concat(
                " tick を取りこぼしました（送信が制御周期に追いつかず捨てた分。put ",
            ).concat(decimal_text(put).as_str()).concat(" 件）")
        } else {
            "ライブ可視化: ".to_owned().concat(decimal_text(self.queued).as_str()).concat(
                " tick を配信しました（取りこぼし無し、put ",
            ).concat(decimal_text(put).as_str()).concat(" 件）")
        }
    }
}

/// A frame shows each joint at its place, leg by leg, each foot at its leg's, and the body
/// where it is.
pub proof fn law_a_frame_shows_each_joint_at_its_place(
    f: VizFrame,
    version: u32,
    seq: u64,
    t_s: Double,
    q: JointVec,
    body: BodyView,
    leg: LegSlot,
    k: int,
)
    requires
        f.shows(version, seq, t_s, q, body),
        0 <= k < 3,
    ensures
        f.joints@.len() == 12,
        f.joints@[3 * leg.place() + k] == q.legs.of(leg).at(k),
        f.stance@[leg.place() as int] == body.stance.of(leg),
        f.pose@[0] == body.x,
        f.pose@[1] == body.y,
        f.pose@[2] == body.z,
        f.pose@[3] == body.yaw,
        f.pose_rp@[0] == body.roll,
        f.pose_rp@[1] == body.pitch,
        f.seq == seq,
        f.t_s == t_s,
        f.version == version,
{
    crate::control::jointvec::law_the_flat_order_is_that_of_the_names(q, leg, k as usize);
}

} // verus!
