//! What is shown of the robot without moving it.
//!
//! Numbers with a fraction arrive here in decimal already.
use vstd::prelude::*;
use vstd::string::*;

use crate::control::config::AppConfig;
use crate::control::jointvec::JointVec;
use crate::control::pose::PoseLibrary;
use crate::control::teleop::{ModeRequest, OperatorCommand, TeleopConfig};
use crate::control::viz::BodyView;
use crate::double::Double;
use crate::hal::ch348::Ch348Port;
use crate::hal::config::{LegBusConfig, MotorConfig};
use crate::hal::joint::{JointState, LegSlot, PerJoint, PerLeg};
use crate::hal::sbus::SbusState;
use crate::text::{blank_text, blanks, decimal, decimal_text, join_text, joined, views};

verus! {

/// What a UART of the board is for.
pub open spec fn role_text(uart: u16) -> Seq<char> {
    if uart == 0 {
        "LEG1 (FL) RS485"@
    } else if uart == 1 {
        "LEG2 (RL) RS485"@
    } else if uart == 2 {
        "LEG3 (FR) RS485"@
    } else if uart == 3 {
        "LEG4 (RR) RS485"@
    } else if uart == 4 {
        "ARMA (RS485/TTL)"@
    } else if uart == 5 {
        "IMU (TTL)"@
    } else if uart == 6 {
        "S.BUS (受信専用)"@
    } else if uart == 7 {
        "ARMB (RS485/TTL)"@
    } else {
        "-"@
    }
}

pub fn role_of(uart: u16) -> (r: &'static str)
    ensures
        r@ == role_text(uart),
{
    match uart {
        0 => "LEG1 (FL) RS485",
        1 => "LEG2 (RL) RS485",
        2 => "LEG3 (FR) RS485",
        3 => "LEG4 (RR) RS485",
        4 => "ARMA (RS485/TTL)",
        5 => "IMU (TTL)",
        6 => "S.BUS (受信専用)",
        7 => "ARMB (RS485/TTL)",
        _ => "-",
    }
}

/// A text filled up on the left.
pub open spec fn right(s: Seq<char>, cols: nat) -> Seq<char> {
    blanks((if s.len() < cols { cols - s.len() } else { 0 }) as nat) + s
}

fn right_text(s: &str, cols: usize) -> (r: String)
    ensures
        r@ == right(s@, cols as nat),
{
    let n: usize = s.unicode_len();
    let fill: usize = if n < cols { cols - n } else { 0 };
    blank_text(fill).concat(s)
}

/// A text filled up on the right.
pub open spec fn left(s: Seq<char>, cols: nat) -> Seq<char> {
    s + blanks((if s.len() < cols { cols - s.len() } else { 0 }) as nat)
}

fn left_text(s: &str, cols: usize) -> (r: String)
    ensures
        r@ == left(s@, cols as nat),
{
    let n: usize = s.unicode_len();
    let fill: usize = if n < cols { cols - n } else { 0 };
    s.to_owned().concat(blank_text(fill).as_str())
}

/// One line of the list of ports.
pub fn port_line(port: &Ch348Port) -> (r: String)
    ensures
        r@ == right(decimal(port.uart_index as nat), 4) + "  "@ + left(port.path@, 24) + "  "@
            + role_text(port.uart_index),
{
    right_text(decimal_text(port.uart_index as u64).as_str(), 4).concat("  ").concat(
        left_text(port.path.as_str(), 24).as_str(),
    ).concat("  ").concat(role_of(port.uart_index))
}

/// Why a link is down. Frames keep coming in failsafe, so that frames alone do not
/// show a link.
pub open spec fn link_reasons(failsafe: bool, frame_lost: bool) -> Seq<Seq<char>> {
    let none = Seq::<Seq<char>>::empty();
    if !failsafe && !frame_lost {
        none.push("TIMEOUT"@)
    } else {
        (if failsafe { none.push("FAILSAFE"@) } else { none }) + (if frame_lost {
            none.push("FRAME_LOST"@)
        } else {
            none
        })
    }
}

/// How the link stands.
pub open spec fn link_text(failsafe: bool, frame_lost: bool, ok: bool) -> Seq<char> {
    if ok {
        "link=OK"@
    } else {
        "link=NG("@ + joined(link_reasons(failsafe, frame_lost), "+"@) + ")"@
    }
}

pub fn link_status(state: &SbusState, ok: bool) -> (r: String)
    ensures
        r@ == link_text(state.failsafe, state.frame_lost, ok),
{
    if ok {
        return "link=OK".to_owned();
    }
    let mut why: Vec<String> = Vec::new();
    if state.failsafe {
        why.push("FAILSAFE".to_owned());
    }
    if state.frame_lost {
        why.push("FRAME_LOST".to_owned());
    }
    if why.len() == 0 {
        why.push("TIMEOUT".to_owned());
    }
    assert(views(why@) =~= link_reasons(state.failsafe, state.frame_lost));
    "link=NG(".to_owned().concat(join_text(&why, "+").as_str()).concat(")")
}

/// A voltage; one that never came must not pass for 0 V.
pub open spec fn volts_text(volts: Option<Seq<char>>) -> Seq<char> {
    match volts {
        Some(v) => v + "V"@,
        None => "---"@,
    }
}

/// The characters of a text, if there is one.
pub open spec fn option_view(s: Option<String>) -> Option<Seq<char>> {
    match s {
        Some(t) => Some(t@),
        None => None,
    }
}

fn volts(value: &Option<String>) -> (r: String)
    ensures
        r@ == volts_text(option_view(*value)),
{
    match value {
        Some(v) => v.clone().concat("V"),
        None => "---".to_owned(),
    }
}

/// The receiver's telemetry. Slots of an unknown kind leave old voltages behind, so
/// their count is shown.
pub open spec fn telemetry_text(sbus2: bool, unknown: u64, rx: Option<Seq<char>>, external: Option<Seq<char>>)
    -> Seq<char> {
    if !sbus2 {
        "S.BUS1(テレメトリ無)"@
    } else {
        "S.BUS2 Rx-Batt="@ + volts_text(rx) + " Ext-Volt="@ + volts_text(external) + (if unknown > 0 {
            " unknown="@ + decimal(unknown as nat)
        } else {
            Seq::<char>::empty()
        })
    }
}

/// The receiver's telemetry; the voltages come in decimal.
pub fn telemetry(state: &SbusState, rx: &Option<String>, external: &Option<String>) -> (r: String)
    ensures
        r@ == telemetry_text(
            state.sbus2,
            state.counters.unknown_slots,
            option_view(*rx),
            option_view(*external),
        ),
{
    if !state.sbus2 {
        return "S.BUS1(テレメトリ無)".to_owned();
    }
    let unknown = if state.counters.unknown_slots > 0 {
        " unknown=".to_owned().concat(decimal_text(state.counters.unknown_slots).as_str())
    } else {
        String::new()
    };
    "S.BUS2 Rx-Batt=".to_owned().concat(volts(rx).as_str()).concat(" Ext-Volt=").concat(
        volts(external).as_str(),
    ).concat(unknown.as_str())
}

pub open spec fn flag_text(value: bool) -> Seq<char> {
    if value { "●"@ } else { "○"@ }
}

pub fn flag(value: bool) -> (r: &'static str)
    ensures
        r@ == flag_text(value),
{
    if value { "●" } else { "○" }
}

pub open spec fn warn_text(value: bool) -> Seq<char> {
    if value { "⚠YES"@ } else { "no"@ }
}

pub fn warn(value: bool) -> (r: &'static str)
    ensures
        r@ == warn_text(value),
{
    if value { "⚠YES" } else { "no" }
}

/// How many columns a character takes: two for kana, kanji and full-width signs.
/// Bars and dots take one.
pub open spec fn columns(c: char) -> nat {
    let u = c as u32;
    if 0x1100 <= u <= 0x115F || 0x2E80 <= u <= 0x303E || 0x3041 <= u <= 0x33FF || 0x3400 <= u
        <= 0x9FFF || 0xF900 <= u <= 0xFAFF || 0xFF00 <= u <= 0xFF60 || 0xFFE0 <= u <= 0xFFE6 {
        2
    } else {
        1
    }
}

pub fn char_cols(c: char) -> (r: usize)
    ensures
        r == columns(c),
{
    let u: u32 = c as u32;
    if (0x1100 <= u && u <= 0x115F) || (0x2E80 <= u && u <= 0x303E) || (0x3041 <= u && u <= 0x33FF)
        || (0x3400 <= u && u <= 0x9FFF) || (0xF900 <= u && u <= 0xFAFF) || (0xFF00 <= u && u
        <= 0xFF60) || (0xFFE0 <= u && u <= 0xFFE6) {
        2
    } else {
        1
    }
}

/// How many columns a text takes.
pub open spec fn width(s: Seq<char>) -> nat
    decreases s.len(),
{
    if s.len() == 0 { 0 } else { width(s.drop_last()) + columns(s.last()) }
}

proof fn lemma_width_grows(s: Seq<char>, i: int)
    requires
        0 <= i <= s.len(),
    ensures
        width(s.take(i)) <= width(s),
        width(s) <= 2 * s.len(),
    decreases s.len(),
{
    if i < s.len() {
        lemma_width_grows(s.drop_last(), i);
        assert(s.drop_last().take(i) =~= s.take(i));
    } else {
        assert(s.take(i) =~= s);
        if s.len() > 0 {
            lemma_width_grows(s.drop_last(), 0);
        }
    }
}

/// How many columns a text takes on a terminal.
pub fn disp_width(s: &str) -> (r: usize)
    requires
        width(s@) <= usize::MAX,
    ensures
        r == width(s@),
{
    let n: usize = s.unicode_len();
    let mut total: usize = 0;
    let mut i: usize = 0;
    assert(s@.take(0) =~= Seq::<char>::empty());
    while i < n
        invariant
            i <= n,
            n == s@.len(),
            total == width(s@.take(i as int)),
            width(s@) <= usize::MAX,
        decreases n - i,
    {
        proof {
            assert(s@.take(i + 1).drop_last() =~= s@.take(i as int));
            lemma_width_grows(s@, i + 1);
        }
        total = total + char_cols(s.get_char(i));
        i = i + 1;
    }
    assert(s@.take(n as int) =~= s@);
    total
}

/// A text filled up to a number of columns.
pub open spec fn fill_up(s: Seq<char>, cols: nat) -> Seq<char> {
    s + blanks((if width(s) < cols { cols - width(s) } else { 0 }) as nat)
}

/// A text filled up on the right, by columns and not by characters: kana would
/// break the table otherwise.
pub fn pad(s: &str, cols: usize) -> (r: String)
    requires
        width(s@) <= usize::MAX,
    ensures
        r@ == fill_up(s@, cols as nat),
{
    let n: usize = disp_width(s);
    let fill: usize = if n < cols { cols - n } else { 0 };
    s.to_owned().concat(blank_text(fill).as_str())
}

/// A bar of a raw channel value, of which `filled` columns are full.
pub open spec fn bar_of(filled: int, cols: nat) -> Seq<char> {
    Seq::new(cols, |i: int| if i < filled { '█' } else { '·' })
}

/// A bar of a raw channel value (0 to 2047).
pub fn bar(raw: u16, cols: usize) -> (r: String)
    requires
        raw * cols <= usize::MAX,
    ensures
        r@ == bar_of(raw as int * cols as int / 2047, cols as nat),
        forall|i: int|
            0 <= i < cols ==> ((#[trigger] r@[i]) == '█' <==> (i + 1) * 2047 <= raw as int
                * cols as int),
{
    let filled: usize = (raw as usize * cols) / 2047;
    let mut r = String::new();
    assert(r@ =~= bar_of(filled as int, 0));
    for i in 0..cols
        invariant
            r@ == bar_of(filled as int, i as nat),
    {
        proof {
            reveal_strlit("█");
            reveal_strlit("·");
        }
        if i < filled {
            r.append("█");
        } else {
            r.append("·");
        }
        assert(r@ =~= bar_of(filled as int, (i + 1) as nat));
    }
    proof {
        let all = raw as int * cols as int;
        assert forall|i: int| 0 <= i < cols implies ((#[trigger] r@[i]) == '█' <==> (i + 1) * 2047
            <= all) by {
            assert(i < all / 2047 <==> (i + 1) * 2047 <= all);
        }
    }
    r
}

/// The roles with one more channel's.
pub open spec fn assigned(roles: Seq<Seq<char>>, channel: usize, name: Seq<char>) -> Seq<Seq<char>> {
    if 1 <= channel <= 16 { roles.update(channel - 1, name) } else { roles }
}

/// The role of each channel; where two claim one channel, the later wins.
pub open spec fn roles_of(t: TeleopConfig) -> Seq<Seq<char>> {
    let none = Seq::new(16, |i: int| Seq::<char>::empty());
    let sticks = assigned(
        assigned(
            assigned(assigned(none, t.vx.channel, "前後"@), t.vy.channel, "左右"@),
            t.wz.channel,
            "旋回"@,
        ),
        t.height.channel,
        "高さ"@,
    );
    let switches = assigned(
        assigned(
            assigned(assigned(sticks, t.mode.channel, "モード"@), t.gait.channel, "歩容"@),
            t.pose.channel,
            "ポーズ"@,
        ),
        t.chicken_head.channel,
        "チキン"@,
    );
    match t.arm {
        Some(arm) => assigned(switches, arm.channel, "腕"@),
        None => switches,
    }
}

fn assign(roles: &mut Vec<String>, channel: usize, name: &str)
    requires
        old(roles).len() == 16,
    ensures
        final(roles).len() == 16,
        views(final(roles)@) == assigned(views(old(roles)@), channel, name@),
{
    let ghost before = roles@;
    if 1 <= channel && channel <= 16 {
        roles.set(channel - 1, name.to_owned());
    }
    assert(views(roles@) =~= assigned(views(before), channel, name@));
}

/// The role of each channel, counted from 0.
pub fn channel_roles(t: &TeleopConfig) -> (r: Vec<String>)
    ensures
        views(r@) == roles_of(*t),
        r.len() == 16,
        forall|i: int| 0 <= i < 16 ==> width((#[trigger] r[i])@) <= 100,
{
    let mut roles: Vec<String> = Vec::new();
    for i in 0usize..16
        invariant
            roles.len() == i,
            forall|j: int| 0 <= j < i ==> (#[trigger] roles[j])@ == Seq::<char>::empty(),
    {
        roles.push(String::new());
    }
    assert(views(roles@) =~= Seq::new(16, |i: int| Seq::<char>::empty()));
    assign(&mut roles, t.vx.channel, "前後");
    assign(&mut roles, t.vy.channel, "左右");
    assign(&mut roles, t.wz.channel, "旋回");
    assign(&mut roles, t.height.channel, "高さ");
    assign(&mut roles, t.mode.channel, "モード");
    assign(&mut roles, t.gait.channel, "歩容");
    assign(&mut roles, t.pose.channel, "ポーズ");
    assign(&mut roles, t.chicken_head.channel, "チキン");
    if let Some(arm) = &t.arm {
        assign(&mut roles, arm.channel, "腕");
    }
    proof {
        lemma_roles_are_short(*t);
        assert forall|i: int| 0 <= i < 16 implies width((#[trigger] roles[i])@) <= 100 by {
            assert(roles_of(*t)[i] == roles[i]@);
        }
    }
    roles
}

/// The numbers of the display, in decimal.
#[derive(Debug, Clone)]
pub struct Numbers {
    pub fps: String,
    pub vx: String,
    pub vy: String,
    pub wz: String,
    pub height: String,
    pub arm: Option<String>,
    pub rx_battery_v: Option<String>,
    pub external_v: Option<String>,
}

pub open spec fn mode_text(mode: ModeRequest) -> Seq<char> {
    match mode {
        ModeRequest::Relax => "Relax"@,
        ModeRequest::Stand => "Stand"@,
        ModeRequest::Walk => "Walk"@,
    }
}

fn mode_name(mode: ModeRequest) -> (r: &'static str)
    ensures
        r@ == mode_text(mode),
{
    match mode {
        ModeRequest::Relax => "Relax",
        ModeRequest::Stand => "Stand",
        ModeRequest::Walk => "Walk",
    }
}

pub open spec fn arm_text(arm: Option<Seq<char>>) -> Seq<char> {
    match arm {
        Some(q) => q + "rad"@,
        None => "-"@,
    }
}

fn arm_name(arm: &Option<String>) -> (r: String)
    ensures
        r@ == arm_text(option_view(*arm)),
{
    match arm {
        Some(q) => q.clone().concat("rad"),
        None => "-".to_owned(),
    }
}

/// A rule across the display.
pub open spec fn rule_text() -> Seq<char> {
    Seq::new(76, |i: int| '-')
}

fn rule() -> (r: String)
    ensures
        r@ == rule_text(),
{
    let mut r = String::new();
    for i in 0usize..76
        invariant
            r@ == Seq::new(i as nat, |j: int| '-'),
    {
        proof {
            reveal_strlit("-");
        }
        r.append("-");
        assert(r@ =~= Seq::new((i + 1) as nat, |j: int| '-'));
    }
    r
}

/// One channel of the display.
pub open spec fn cell_text(k: int, role: Seq<char>, raw: u16) -> Seq<char> {
    "CH"@ + right(decimal((k + 1) as nat), 2) + " "@ + fill_up(role, 8) + " "@ + right(
        decimal(raw as nat),
        4,
    ) + " "@ + bar_of(raw as int * 12 / 2047, 12)
}

fn cell(k: usize, role: &str, raw: u16) -> (r: String)
    requires
        k < 16,
        width(role@) <= usize::MAX,
    ensures
        r@ == cell_text(k as int, role@, raw),
{
    "CH".to_owned().concat(right_text(decimal_text((k + 1) as u64).as_str(), 2).as_str()).concat(
        " ",
    ).concat(pad(role, 8).as_str()).concat(" ").concat(
        right_text(decimal_text(raw as u64).as_str(), 4).as_str(),
    ).concat(" ").concat(bar(raw, 12).as_str())
}

/// One row of the display: two channels.
pub open spec fn row_text(row: int, roles: Seq<Seq<char>>, channels: Seq<u16>) -> Seq<char> {
    "  "@ + cell_text(2 * row, roles[2 * row], channels[2 * row]) + "   "@ + cell_text(
        2 * row + 1,
        roles[2 * row + 1],
        channels[2 * row + 1],
    )
}

/// The first two lines of the display, and its telemetry.
pub open spec fn head_text(port: Seq<char>, state: SbusState, ok: bool, n: Numbers) -> Seq<Seq<char>> {
    seq![
        "namiashi sbus  "@ + port + "  100000 8E2   "@ + n.fps@ + " fps  frames="@ + decimal(
            state.counters.frames as nat,
        ) + " slots="@ + decimal(state.counters.slots as nat) + " desync="@ + decimal(
            state.counters.desync_bytes as nat,
        ),
        link_text(state.failsafe, state.frame_lost, ok) + "   CH17:"@ + flag_text(state.ch17)
            + "  CH18:"@ + flag_text(state.ch18) + "   FRAME_LOST:"@ + warn_text(state.frame_lost)
            + "   FAILSAFE:"@ + warn_text(state.failsafe),
        telemetry_text(
            state.sbus2,
            state.counters.unknown_slots,
            option_view(n.rx_battery_v),
            option_view(n.external_v),
        ),
        rule_text(),
    ]
}

/// The channels, or that none came yet.
pub open spec fn body_text(state: SbusState, roles: Seq<Seq<char>>) -> Seq<Seq<char>> {
    if state.counters.frames == 0 {
        seq!["  (S.BUS フレーム待ち... 送信機と受信機の電源を確認してください)"@]
    } else {
        Seq::new(8, |row: int| row_text(row, roles, state.channels@))
    }
}

/// What the robot makes of it.
pub open spec fn foot_text(cmd: OperatorCommand, n: Numbers) -> Seq<Seq<char>> {
    seq![
        rule_text(),
        "  vx="@ + n.vx@ + " m/s   vy="@ + n.vy@ + " m/s   wz="@ + n.wz@ + " rad/s   高さ="@
            + n.height@ + " m"@,
        "  モード="@ + mode_text(cmd.mode) + "   歩容="@ + cmd.gait.name() + "   ポーズ="@ + (
        if cmd.play_pose { "再生"@ } else { "-"@ }) + "   チキンヘッド="@ + (if cmd.chicken_head {
            "on"@
        } else {
            "off"@
        }) + "   腕="@ + arm_text(option_view(n.arm)),
    ]
}

/// The display: the raw channels, and what the robot makes of them. A raw value
/// alone does not say what the robot is about to do.
pub fn monitor_lines(
    port: &str,
    state: &SbusState,
    cmd: &OperatorCommand,
    roles: &Vec<String>,
    n: &Numbers,
) -> (r: Vec<String>)
    requires
        roles.len() == 16,
        forall|i: int| 0 <= i < 16 ==> width((#[trigger] roles[i])@) <= usize::MAX,
    ensures
        views(r@) == head_text(port@, *state, cmd.link_ok, *n) + body_text(*state, views(roles@))
            + foot_text(*cmd, *n),
{
    let mut out: Vec<String> = Vec::new();
    out.push(
        "namiashi sbus  ".to_owned().concat(port).concat("  100000 8E2   ").concat(
            n.fps.as_str(),
        ).concat(" fps  frames=").concat(decimal_text(state.counters.frames).as_str()).concat(
            " slots=",
        ).concat(decimal_text(state.counters.slots).as_str()).concat(" desync=").concat(
            decimal_text(state.counters.desync_bytes).as_str(),
        ),
    );
    out.push(
        link_status(state, cmd.link_ok).concat("   CH17:").concat(flag(state.ch17)).concat(
            "  CH18:",
        ).concat(flag(state.ch18)).concat("   FRAME_LOST:").concat(warn(state.frame_lost)).concat(
            "   FAILSAFE:",
        ).concat(warn(state.failsafe)),
    );
    out.push(telemetry(state, &n.rx_battery_v, &n.external_v));
    out.push(rule());
    let ghost head = head_text(port@, *state, cmd.link_ok, *n);
    assert(views(out@) =~= head);
    if state.counters.frames == 0 {
        out.push("  (S.BUS フレーム待ち... 送信機と受信機の電源を確認してください)".to_owned());
        assert(views(out@) =~= head + body_text(*state, views(roles@)));
    } else {
        for row in 0usize..8
            invariant
                roles.len() == 16,
                forall|i: int| 0 <= i < 16 ==> width((#[trigger] roles[i])@) <= usize::MAX,
                head.len() == 4,
                views(out@) == head + Seq::new(
                    row as nat,
                    |i: int| row_text(i, views(roles@), state.channels@),
                ),
        {
            let ghost before = out@;
            let a = cell(2 * row, roles[2 * row].as_str(), state.channels[2 * row]);
            let b = cell(2 * row + 1, roles[2 * row + 1].as_str(), state.channels[2 * row + 1]);
            let line = "  ".to_owned().concat(a.as_str()).concat("   ").concat(b.as_str());
            proof {
                assert(views(roles@)[2 * row as int] == roles[2 * row as int]@);
                assert(views(roles@)[2 * row as int + 1] == roles[2 * row as int + 1]@);
                assert(line@ == row_text(row as int, views(roles@), state.channels@));
            }
            out.push(line);
            assert(views(out@) =~= views(before).push(line@));
            assert(views(out@) =~= head + Seq::new(
                (row + 1) as nat,
                |i: int| row_text(i, views(roles@), state.channels@),
            ));
        }
        assert(views(out@) =~= head + body_text(*state, views(roles@)));
    }
    let ghost so_far = views(out@);
    out.push(rule());
    out.push(
        "  vx=".to_owned().concat(n.vx.as_str()).concat(" m/s   vy=").concat(n.vy.as_str()).concat(
            " m/s   wz=",
        ).concat(n.wz.as_str()).concat(" rad/s   高さ=").concat(n.height.as_str()).concat(" m"),
    );
    out.push(
        "  モード=".to_owned().concat(mode_name(cmd.mode)).concat("   歩容=").concat(
            cmd.gait.label(),
        ).concat("   ポーズ=").concat(if cmd.play_pose { "再生" } else { "-" }).concat(
            "   チキンヘッド=",
        ).concat(if cmd.chicken_head { "on" } else { "off" }).concat("   腕=").concat(
            arm_name(&n.arm).as_str(),
        ),
    );
    assert(views(out@) =~= so_far + foot_text(*cmd, *n));
    out
}

/// The roles are short enough to show.
proof fn lemma_roles_are_short(t: TeleopConfig)
    ensures
        forall|i: int| 0 <= i < 16 ==> width(#[trigger] roles_of(t)[i]) <= 100,
{
    reveal_strlit("前後");
    reveal_strlit("左右");
    reveal_strlit("旋回");
    reveal_strlit("高さ");
    reveal_strlit("モード");
    reveal_strlit("歩容");
    reveal_strlit("ポーズ");
    reveal_strlit("チキン");
    reveal_strlit("腕");
    assert forall|i: int| 0 <= i < 16 implies width(#[trigger] roles_of(t)[i]) <= 100 by {
        lemma_width_grows(roles_of(t)[i], 0);
        assert(roles_of(t)[i].len() <= 3);
    }
}

/// The first eight channels on one line.
pub open spec fn raw_texts(channels: Seq<u16>) -> Seq<Seq<char>> {
    Seq::new(
        8,
        |i: int| decimal((i + 1) as nat) + ":"@ + right(decimal(channels[i] as nat), 4),
    )
}

pub open spec fn bool_text(b: bool) -> Seq<char> {
    if b { "true"@ } else { "false"@ }
}

fn bool_name(b: bool) -> (r: &'static str)
    ensures
        r@ == bool_text(b),
{
    if b { "true" } else { "false" }
}

/// Everything on one line, for logs.
pub fn plain_line(state: &SbusState, cmd: &OperatorCommand, n: &Numbers) -> (r: String)
    ensures
        r@ == joined(raw_texts(state.channels@), " "@) + "  |  v=("@ + n.vx@ + ","@ + n.vy@ + ","@
            + n.wz@ + ") h="@ + n.height@ + " mode="@ + mode_text(cmd.mode) + " gait="@
            + cmd.gait.name() + " pose="@ + bool_text(cmd.play_pose) + " chicken="@ + bool_text(
            cmd.chicken_head,
        ) + " arm="@ + arm_text(option_view(n.arm)) + " "@ + link_text(
            state.failsafe,
            state.frame_lost,
            cmd.link_ok,
        ) + " "@ + telemetry_text(
            state.sbus2,
            state.counters.unknown_slots,
            option_view(n.rx_battery_v),
            option_view(n.external_v),
        ) + " "@ + n.fps@ + "fps frames="@ + decimal(state.counters.frames as nat) + " desync="@
            + decimal(state.counters.desync_bytes as nat),
{
    let mut raw: Vec<String> = Vec::new();
    for i in 0usize..8
        invariant
            raw.len() == i,
            forall|j: int|
                0 <= j < i ==> (#[trigger] raw[j])@ == decimal((j + 1) as nat) + ":"@ + right(
                    decimal(state.channels[j] as nat),
                    4,
                ),
    {
        raw.push(
            decimal_text((i + 1) as u64).concat(":").concat(
                right_text(decimal_text(state.channels[i] as u64).as_str(), 4).as_str(),
            ),
        );
    }
    assert(views(raw@) =~= raw_texts(state.channels@));
    join_text(&raw, " ").concat("  |  v=(").concat(n.vx.as_str()).concat(",").concat(
        n.vy.as_str(),
    ).concat(",").concat(n.wz.as_str()).concat(") h=").concat(n.height.as_str()).concat(
        " mode=",
    ).concat(mode_name(cmd.mode)).concat(" gait=").concat(cmd.gait.label()).concat(" pose=").concat(
        bool_name(cmd.play_pose),
    ).concat(" chicken=").concat(bool_name(cmd.chicken_head)).concat(" arm=").concat(
        arm_name(&n.arm).as_str(),
    ).concat(" ").concat(link_status(state, cmd.link_ok).as_str()).concat(" ").concat(
        telemetry(state, &n.rx_battery_v, &n.external_v).as_str(),
    ).concat(" ").concat(n.fps.as_str()).concat("fps frames=").concat(
        decimal_text(state.counters.frames).as_str(),
    ).concat(" desync=").concat(decimal_text(state.counters.desync_bytes).as_str())
}

/// What is said of the telemetry at the end of a watch.
pub open spec fn farewell_text(state: SbusState) -> Option<Seq<char>> {
    if !state.sbus2 {
        Some(
            "\n注意: S.BUS1 で受信しています（テレメトリスロットが来ないので\nRx-Batt / Ext-Volt は取れません）。受信機の S.BUS2 ポートに繋いでください。"@,
        )
    } else if state.rx_battery_v is None && state.external_v is None {
        Some(
            "\n注意: S.BUS2 ですがスロット 0 が一度も来ていません（slots="@ + decimal(
                state.counters.slots as nat,
            ) + " unknown="@ + decimal(state.counters.unknown_slots as nat) + "）。"@,
        )
    } else {
        None
    }
}

pub fn farewell(state: &SbusState) -> (r: Option<String>)
    ensures
        option_view(r) == farewell_text(*state),
{
    if !state.sbus2 {
        Some(
            "\n注意: S.BUS1 で受信しています（テレメトリスロットが来ないので\nRx-Batt / Ext-Volt は取れません）。受信機の S.BUS2 ポートに繋いでください。".to_owned(),
        )
    } else if state.rx_battery_v.is_none() && state.external_v.is_none() {
        Some(
            "\n注意: S.BUS2 ですがスロット 0 が一度も来ていません（slots=".to_owned().concat(
                decimal_text(state.counters.slots).as_str(),
            ).concat(" unknown=").concat(decimal_text(state.counters.unknown_slots).as_str()).concat(
                "）。",
            ),
        )
    } else {
        None
    }
}

/// Whether a watch goes on: until it is stopped, or its time is up.
pub fn running(stopped: bool, elapsed_s: Double, seconds: Option<Double>) -> (r: bool)
    ensures
        r == (!stopped && (match seconds {
            Some(s) => elapsed_s.below(s),
            None => true,
        })),
{
    !stopped && match seconds {
        Some(s) => elapsed_s.below(s),
        None => true,
    }
}

/// How long a watch lasts; the seconds come in decimal.
pub fn deadline_label(seconds: &Option<String>) -> (r: String)
    ensures
        r@ == (match *seconds {
            Some(s) => s@ + " 秒"@,
            None => "Ctrl-C まで"@,
        }),
{
    match seconds {
        Some(s) => s.clone().concat(" 秒"),
        None => "Ctrl-C まで".to_owned(),
    }
}

/// The angles of a robot that is only watched.
pub open spec fn angles_of(states: PerLeg<PerJoint<JointState>>, arm: Double) -> JointVec {
    JointVec {
        legs: PerLeg {
            fl: leg_angles(states.fl),
            fr: leg_angles(states.fr),
            rl: leg_angles(states.rl),
            rr: leg_angles(states.rr),
        },
        arm,
    }
}

pub open spec fn leg_angles(states: PerJoint<JointState>) -> PerJoint<Double> {
    PerJoint {
        hip: states.hip.position_rad,
        thigh: states.thigh.position_rad,
        calf: states.calf.position_rad,
    }
}

fn read_leg(states: &PerJoint<JointState>) -> (r: PerJoint<Double>)
    ensures
        r == leg_angles(*states),
{
    PerJoint {
        hip: states.hip.position_rad,
        thigh: states.thigh.position_rad,
        calf: states.calf.position_rad,
    }
}

/// The measured angles of all joints.
pub fn measured(states: &PerLeg<PerJoint<JointState>>, arm: Double) -> (r: JointVec)
    ensures
        r == angles_of(*states, arm),
{
    JointVec {
        legs: PerLeg {
            fl: read_leg(&states.fl),
            fr: read_leg(&states.fr),
            rl: read_leg(&states.rl),
            rr: read_leg(&states.rr),
        },
        arm,
    }
}

/// Watching the legs: what is shown when.
#[derive(Debug, Clone, Copy, PartialEq, Eq, Structural)]
pub struct LegsWatch {
    /// Whether all joints were read once. Before that a frame would show a robot
    /// that has collapsed.
    pub measured_seen: bool,
    /// When the next text is due (ns).
    pub next_text: u64,
}

/// Half a second (ns).
pub const TEXT_PERIOD_NS: u64 = 500_000_000;

impl LegsWatch {
    pub fn new(now: u64) -> (r: LegsWatch)
        ensures
            r == (LegsWatch { measured_seen: false, next_text: now }),
    {
        LegsWatch { measured_seen: false, next_text: now }
    }

    /// Whether a frame of the measured pose may be shown.
    pub fn may_show(&mut self, states: &PerLeg<PerJoint<JointState>>) -> (r: bool)
        ensures
            r == final(self).measured_seen,
            final(self).measured_seen == (old(self).measured_seen || forall|leg: LegSlot, k: int|
                0 <= k < 3 ==> (#[trigger] states.of(leg).at(k)).ok),
            final(self).next_text == old(self).next_text,
    {
        if !self.measured_seen {
            self.measured_seen = crate::hal::legs::all_ok(states);
        }
        self.measured_seen
    }

    /// Whether text is due.
    pub fn text_due(&mut self, now: u64) -> (r: bool)
        ensures
            r == (now >= old(self).next_text),
            final(self).measured_seen == old(self).measured_seen,
            final(self).next_text == (if r {
                crate::hal::worker::saturating(old(self).next_text, TEXT_PERIOD_NS)
            } else {
                old(self).next_text
            }),
    {
        if now < self.next_text {
            return false;
        }
        self.next_text = self.next_text.saturating_add(TEXT_PERIOD_NS);
        true
    }
}

/// The body of a robot that is only watched: its attitude is measured, its height is
/// the configured one, so that it does not sink into the floor.
pub fn watched_body(stance_height_m: Double, roll: Double, pitch: Double, yaw: Double) -> (r: BodyView)
    ensures
        r == (BodyView { z: stance_height_m, roll, pitch, yaw, ..BodyView::origin() }),
{
    let mut body = BodyView::default();
    body.z = stance_height_m;
    body.roll = roll;
    body.pitch = pitch;
    body.yaw = yaw;
    body
}

/// The numbers of one bus, in decimal.
#[derive(Debug, Clone)]
pub struct BusNumbers {
    pub rate: String,
    pub worst_ms: String,
    pub q: [String; 3],
    pub celsius: [String; 3],
}

/// One line of a bus.
pub fn bus_line(leg: LegSlot, errors: u64, states: &PerJoint<JointState>, last_error: &str, n: &BusNumbers)
    -> (r: String)
    ensures
        r@ == leg.name() + " "@ + n.rate@ + "Hz 最悪"@ + n.worst_ms@ + "ms err="@ + left(
            decimal(errors as nat),
            4,
        ) + " q=["@ + n.q[0]@ + " "@ + n.q[1]@ + " "@ + n.q[2]@ + "] T=["@ + n.celsius[0]@ + " "@
            + n.celsius[1]@ + " "@ + n.celsius[2]@ + "]°C ok="@ + bool_text(
            states.hip.ok && states.thigh.ok && states.calf.ok,
        ) + (if last_error@.len() == 0 {
            Seq::<char>::empty()
        } else {
            " 直近エラー: "@ + last_error@
        }),
{
    let tail = if last_error.unicode_len() == 0 {
        String::new()
    } else {
        " 直近エラー: ".to_owned().concat(last_error)
    };
    leg.prefix().to_owned().concat(" ").concat(n.rate.as_str()).concat("Hz 最悪").concat(
        n.worst_ms.as_str(),
    ).concat("ms err=").concat(left_text(decimal_text(errors).as_str(), 4).as_str()).concat(
        " q=[",
    ).concat(n.q[0].as_str()).concat(" ").concat(n.q[1].as_str()).concat(" ").concat(
        n.q[2].as_str(),
    ).concat("] T=[").concat(n.celsius[0].as_str()).concat(" ").concat(n.celsius[1].as_str()).concat(
        " ",
    ).concat(n.celsius[2].as_str()).concat("]°C ok=").concat(
        bool_name(states.hip.ok && states.thigh.ok && states.calf.ok),
    ).concat(tail.as_str())
}

/// What a check finds missing in the model: the start pose, and what the pose switch
/// plays.
pub fn missing_poses(cfg: &AppConfig, poses: &PoseLibrary) -> (r: (bool, bool))
    ensures
        r.0 == (poses.find_pose(cfg.control.start_pose@) is None),
        r.1 == (poses.find_pose(cfg.poses.greeting@) is None && poses.find_sequence(
            cfg.poses.greeting@,
        ) is None),
{
    let start: bool = poses.pose(cfg.control.start_pose.as_str()).is_none();
    let greeting: bool = poses.pose(cfg.poses.greeting.as_str()).is_none() && poses.sequence(
        cfg.poses.greeting.as_str(),
    ).is_none();
    (start, greeting)
}

/// The assignment of the channels in words.
pub open spec fn teleop_text(t: TeleopConfig) -> Seq<Seq<char>> {
    seq![
        "プロポ割り当て:"@,
        "  CH"@ + decimal(t.vx.channel as nat) + " 前後  CH"@ + decimal(t.vy.channel as nat)
            + " 左右  CH"@ + decimal(t.wz.channel as nat) + " 旋回  CH"@ + decimal(
            t.height.channel as nat,
        ) + " 高さ"@,
        "  CH"@ + decimal(t.mode.channel as nat) + " モード(脱力/初期姿勢/歩行)  CH"@ + decimal(
            t.gait.channel as nat,
        ) + " 歩容(Crawl/Walk/Trot)  CH"@ + decimal(t.pose.channel as nat) + " ポーズ再生  CH"@
            + decimal(t.chicken_head.channel as nat) + " チキンヘッド"@,
        match t.arm {
            Some(arm) => "  CH"@ + decimal(arm.channel as nat)
                + " 腕（観測のみ。アプリからは駆動しない）"@,
            None => "  腕の観測チャンネルなし（腕の角度は不明のまま）"@,
        },
    ]
}

pub fn teleop_lines(t: &TeleopConfig) -> (r: Vec<String>)
    ensures
        views(r@) == teleop_text(*t),
{
    let arm = match &t.arm {
        Some(arm) => "  CH".to_owned().concat(decimal_text(arm.channel as u64).as_str()).concat(
            " 腕（観測のみ。アプリからは駆動しない）",
        ),
        None => "  腕の観測チャンネルなし（腕の角度は不明のまま）".to_owned(),
    };
    let r = vec![
        "プロポ割り当て:".to_owned(),
        "  CH".to_owned().concat(decimal_text(t.vx.channel as u64).as_str()).concat(
            " 前後  CH",
        ).concat(decimal_text(t.vy.channel as u64).as_str()).concat(" 左右  CH").concat(
            decimal_text(t.wz.channel as u64).as_str(),
        ).concat(" 旋回  CH").concat(decimal_text(t.height.channel as u64).as_str()).concat(" 高さ"),
        "  CH".to_owned().concat(decimal_text(t.mode.channel as u64).as_str()).concat(
            " モード(脱力/初期姿勢/歩行)  CH",
        ).concat(decimal_text(t.gait.channel as u64).as_str()).concat(
            " 歩容(Crawl/Walk/Trot)  CH",
        ).concat(decimal_text(t.pose.channel as u64).as_str()).concat(" ポーズ再生  CH").concat(
            decimal_text(t.chicken_head.channel as u64).as_str(),
        ).concat(" チキンヘッド"),
        arm,
    ];
    assert(views(r@) =~= teleop_text(*t));
    r
}

/// The motors of a bus by kind and id.
pub open spec fn motor_texts(motors: Seq<MotorConfig>) -> Seq<Seq<char>> {
    motors.map_values(|m: MotorConfig| m.kind@ + "="@ + decimal(m.id as nat))
}

/// The wiring of one bus in words.
pub fn wiring_line(bus: &LegBusConfig) -> (r: String)
    ensures
        r@ == "  "@ + bus.leg@ + " "@ + bus.port.label_text() + " ["@ + joined(
            motor_texts(bus.motors@),
            " "@,
        ) + "]"@,
{
    let mut ids: Vec<String> = Vec::new();
    for i in 0..bus.motors.len()
        invariant
            ids.len() == i,
            forall|j: int|
                0 <= j < i ==> (#[trigger] ids[j])@ == bus.motors[j].kind@ + "="@ + decimal(
                    bus.motors[j].id as nat,
                ),
    {
        ids.push(
            bus.motors[i].kind.clone().concat("=").concat(
                decimal_text(bus.motors[i].id as u64).as_str(),
            ),
        );
    }
    assert(views(ids@) =~= motor_texts(bus.motors@));
    "  ".to_owned().concat(bus.leg.as_str()).concat(" ").concat(bus.port.label().as_str()).concat(
        " [",
    ).concat(join_text(&ids, " ").as_str()).concat("]")
}

/// What a watch shows of each joint of each leg is what was read of that very joint.
pub proof fn law_each_joint_is_shown_as_it_was_read(
    states: PerLeg<PerJoint<JointState>>,
    arm: Double,
    leg: LegSlot,
    k: int,
)
    requires
        0 <= k < 3,
    ensures
        angles_of(states, arm).legs.of(leg).at(k) == states.of(leg).at(k).position_rad,
        angles_of(states, arm).arm == arm,
{
}

proof fn lemma_width_of_blanks(s: Seq<char>, n: nat)
    ensures
        width(s + blanks(n)) == width(s) + n,
    decreases n,
{
    if n == 0 {
        assert(s + blanks(n) =~= s);
    } else {
        lemma_width_of_blanks(s, (n - 1) as nat);
        let t = s + blanks(n);
        assert(t.drop_last() =~= s + blanks((n - 1) as nat));
        assert(t.last() == ' ');
    }
}

/// A text that is filled up stays at the left, and takes the asked number of columns;
/// one that takes as many or more is left as it is.
pub proof fn law_a_filled_text_takes_its_columns(s: Seq<char>, cols: nat)
    ensures
        s.is_prefix_of(fill_up(s, cols)),
        width(s) <= cols ==> width(fill_up(s, cols)) == cols,
        width(s) >= cols ==> fill_up(s, cols) == s,
{
    if width(s) < cols {
        lemma_width_of_blanks(s, (cols - width(s)) as nat);
    }
    assert(s.is_prefix_of(fill_up(s, cols)));
    assert(width(s) >= cols ==> fill_up(s, cols) =~= s);
}

/// Whether a channel is none of seven others.
pub open spec fn is_none_of(
    channel: usize,
    a: usize,
    b: usize,
    c: usize,
    d: usize,
    e: usize,
    f: usize,
    g: usize,
) -> bool {
    &&& channel != a && channel != b && channel != c && channel != d
    &&& channel != e && channel != f && channel != g
}

proof fn lemma_assigned(roles: Seq<Seq<char>>, channel: usize, name: Seq<char>, at: int)
    requires
        roles.len() == 16,
        1 <= at <= 16,
    ensures
        assigned(roles, channel, name).len() == 16,
        assigned(roles, channel, name)[at - 1] == if channel == at { name } else { roles[at - 1] },
{
}

/// A channel that only one stick or switch listens to shows what that one is for, and one
/// that none listens to shows nothing. A channel that the arm listens to shows that.
pub proof fn law_a_channel_shows_what_it_is_for(t: TeleopConfig, channel: usize)
    requires
        1 <= channel <= 16,
    ensures
        ({
            let role = roles_of(t)[channel - 1];
            let vx = t.vx.channel;
            let vy = t.vy.channel;
            let wz = t.wz.channel;
            let height = t.height.channel;
            let mode = t.mode.channel;
            let gait = t.gait.channel;
            let pose = t.pose.channel;
            let head = t.chicken_head.channel;
            match t.arm {
                Some(arm) if arm.channel == channel => role == "腕"@,
                _ => {
                    &&& channel == vx && is_none_of(channel, vy, wz, height, mode, gait, pose, head) ==> role == "前後"@
                    &&& channel == vy && is_none_of(channel, vx, wz, height, mode, gait, pose, head) ==> role == "左右"@
                    &&& channel == wz && is_none_of(channel, vx, vy, height, mode, gait, pose, head) ==> role == "旋回"@
                    &&& channel == height && is_none_of(channel, vx, vy, wz, mode, gait, pose, head) ==> role == "高さ"@
                    &&& channel == mode && is_none_of(channel, vx, vy, wz, height, gait, pose, head) ==> role == "モード"@
                    &&& channel == gait && is_none_of(channel, vx, vy, wz, height, mode, pose, head) ==> role == "歩容"@
                    &&& channel == pose && is_none_of(channel, vx, vy, wz, height, mode, gait, head) ==> role == "ポーズ"@
                    &&& channel == head && is_none_of(channel, vx, vy, wz, height, mode, gait, pose) ==> role == "チキン"@
                    &&& channel != vx && is_none_of(channel, vy, wz, height, mode, gait, pose, head)
                        ==> role.len() == 0
                },
            }
        }),
{
    let at = channel as int;
    let none = Seq::new(16, |i: int| Seq::<char>::empty());
    let with_vx = assigned(none, t.vx.channel, "前後"@);
    lemma_assigned(none, t.vx.channel, "前後"@, at);
    let with_vy = assigned(with_vx, t.vy.channel, "左右"@);
    lemma_assigned(with_vx, t.vy.channel, "左右"@, at);
    let with_wz = assigned(with_vy, t.wz.channel, "旋回"@);
    lemma_assigned(with_vy, t.wz.channel, "旋回"@, at);
    let with_height = assigned(with_wz, t.height.channel, "高さ"@);
    lemma_assigned(with_wz, t.height.channel, "高さ"@, at);
    let with_mode = assigned(with_height, t.mode.channel, "モード"@);
    lemma_assigned(with_height, t.mode.channel, "モード"@, at);
    let with_gait = assigned(with_mode, t.gait.channel, "歩容"@);
    lemma_assigned(with_mode, t.gait.channel, "歩容"@, at);
    let with_pose = assigned(with_gait, t.pose.channel, "ポーズ"@);
    lemma_assigned(with_gait, t.pose.channel, "ポーズ"@, at);
    let with_head = assigned(with_pose, t.chicken_head.channel, "チキン"@);
    lemma_assigned(with_pose, t.chicken_head.channel, "チキン"@, at);
    if let Some(arm) = t.arm {
        lemma_assigned(with_head, arm.channel, "腕"@, at);
    }
}

} // verus!
