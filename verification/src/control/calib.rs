//! Calibration: which motors answer, which way they turn, how far they go, and
//! where their zero is.
//!
//! Moving is kept small and to one joint at a time, and the configuration is only
//! written where that was asked for. Talking to the buses and to the operator is
//! left to the caller; what is asked of a bus, what a reading means and what is
//! written back are decided here.
use vstd::prelude::*;
use vstd::string::*;

use crate::control::cli::Cli;
use crate::double::Double;
use crate::hal::config::HardwareConfig;
use crate::hal::joint::{JointState, LegSlot, PerJoint, PerLeg, LEG_JOINT_KINDS};
use crate::hal::legs::{error_names, BusRequest, JointStatus};
use crate::text::{
    blank_text, blanks, debug_text, decimal, decimal_text, hex, hex_text, joined, quoted, same_text,
    views,
};

pub mod jog;
pub mod procedure;
pub mod range;
pub mod scan;
pub mod zero;

verus! {

/// How long a joint is given to settle (ms).
pub const SETTLE_MS: u64 = 300;

/// What can be calibrated.
#[derive(Debug, Clone, Copy, PartialEq, Eq, Structural)]
pub enum Subcommand {
    /// Count the motors that answer.
    Scan,
    /// Move one joint a little to find its sign.
    Move,
    /// Let one joint be moved by hand to find its range.
    Range,
    /// Record the zero pose.
    Zero,
    /// Set the multi-turn counters back.
    ClearMultiTurn,
    /// Read the single-turn angles.
    SingleTurn,
    /// Clear the error flags.
    ClearError,
    /// Restart the drivers.
    Restart,
}

impl Subcommand {
    pub open spec fn named(name: Seq<char>) -> Option<Subcommand> {
        if name == "scan"@ {
            Some(Subcommand::Scan)
        } else if name == "move"@ {
            Some(Subcommand::Move)
        } else if name == "range"@ {
            Some(Subcommand::Range)
        } else if name == "zero"@ {
            Some(Subcommand::Zero)
        } else if name == "clear-multiturn"@ {
            Some(Subcommand::ClearMultiTurn)
        } else if name == "single-turn"@ {
            Some(Subcommand::SingleTurn)
        } else if name == "clear-error"@ {
            Some(Subcommand::ClearError)
        } else if name == "restart"@ {
            Some(Subcommand::Restart)
        } else {
            None
        }
    }
}

/// What an unknown subcommand is told; its name comes in quotes.
pub open spec fn unknown_subcommand_text(name: Seq<char>) -> Seq<char> {
    "未知の calib サブコマンド "@ + name
        + "（scan|move|range|zero|clear-multiturn|single-turn|clear-error|restart）"@
}

/// The error of an unknown subcommand, whose name comes in quotes.
pub fn unknown_subcommand(name: &str) -> (r: String)
    ensures
        r@ == unknown_subcommand_text(name@),
{
    "未知の calib サブコマンド ".to_owned().concat(name).concat(
        "（scan|move|range|zero|clear-multiturn|single-turn|clear-error|restart）",
    )
}

/// The calibration that the command line asks for.
pub fn run(cli: &Cli) -> (r: Result<Subcommand, String>)
    ensures
        if cli@.positionals.len() < 2 {
            r matches Err(e) && e@
                == "calib のサブコマンドを指定してください（scan|move|range|zero|clear-multiturn）"@
        } else {
            match (Subcommand::named(cli@.positionals[1]), r) {
                (Some(sub), _) => r == Ok::<Subcommand, String>(sub),
                (None, Err(e)) => e@ == unknown_subcommand_text(debug_text(cli@.positionals[1])),
                (None, Ok(_)) => false,
            }
        },
{
    let name = match cli.positional(1) {
        Some(name) => name,
        None => return Err(
            "calib のサブコマンドを指定してください（scan|move|range|zero|clear-multiturn）".to_owned(),
        ),
    };
    if same_text(name, "scan") {
        Ok(Subcommand::Scan)
    } else if same_text(name, "move") {
        Ok(Subcommand::Move)
    } else if same_text(name, "range") {
        Ok(Subcommand::Range)
    } else if same_text(name, "zero") {
        Ok(Subcommand::Zero)
    } else if same_text(name, "clear-multiturn") {
        Ok(Subcommand::ClearMultiTurn)
    } else if same_text(name, "single-turn") {
        Ok(Subcommand::SingleTurn)
    } else if same_text(name, "clear-error") {
        Ok(Subcommand::ClearError)
    } else if same_text(name, "restart") {
        Ok(Subcommand::Restart)
    } else {
        Err(unknown_subcommand(quoted(name).as_str()))
    }
}

/// Whether a letter is the given one, in either case.
pub open spec fn either_case(c: char, upper: char, lower: char) -> bool {
    c == upper || c == lower
}

/// The leg that a prefix names, in either case.
pub open spec fn leg_any_case(s: Seq<char>) -> Option<LegSlot> {
    if s.len() != 2 {
        None
    } else {
        let front = either_case(s[0], 'F', 'f');
        let rear = either_case(s[0], 'R', 'r');
        let left = either_case(s[1], 'L', 'l');
        let right = either_case(s[1], 'R', 'r');
        if front && left {
            Some(LegSlot::Fl)
        } else if front && right {
            Some(LegSlot::Fr)
        } else if rear && left {
            Some(LegSlot::Rl)
        } else if rear && right {
            Some(LegSlot::Rr)
        } else {
            None
        }
    }
}

fn leg_of(s: &str) -> (r: Option<LegSlot>)
    ensures
        r == leg_any_case(s@),
{
    if s.unicode_len() != 2 {
        return None;
    }
    let a = s.get_char(0);
    let b = s.get_char(1);
    let left: bool = b == 'L' || b == 'l';
    let right: bool = b == 'R' || b == 'r';
    if a == 'F' || a == 'f' {
        if left {
            Some(LegSlot::Fl)
        } else if right {
            Some(LegSlot::Fr)
        } else {
            None
        }
    } else if a == 'R' || a == 'r' {
        if left {
            Some(LegSlot::Rl)
        } else if right {
            Some(LegSlot::Rr)
        } else {
            None
        }
    } else {
        None
    }
}

/// The leg that `--leg` names; `None` for all of them.
pub fn leg_filter(cli: &Cli) -> (r: Result<Option<LegSlot>, String>)
    requires
        cli.wf(),
    ensures
        match cli@.value("leg"@) {
            None => r == Ok::<Option<LegSlot>, String>(None),
            Some(s) => match (leg_any_case(s), r) {
                (Some(leg), _) => r == Ok::<Option<LegSlot>, String>(Some(leg)),
                (None, Err(e)) => e@ == bad_leg_text(debug_text(s)),
                (None, Ok(_)) => false,
            },
        },
{
    match cli.str("leg") {
        None => Ok(None),
        Some(s) => match leg_of(s) {
            Some(leg) => Ok(Some(leg)),
            None => Err(bad_leg(quoted(s).as_str())),
        },
    }
}

/// What a leg that does not exist is told; its name comes in quotes.
pub open spec fn bad_leg_text(name: Seq<char>) -> Seq<char> {
    "--leg "@ + name + " が不正です（FL/FR/RL/RR）"@
}

/// The error of a leg that does not exist, whose name comes in quotes.
pub fn bad_leg(name: &str) -> (r: String)
    ensures
        r@ == bad_leg_text(name@),
{
    "--leg ".to_owned().concat(name).concat(" が不正です（FL/FR/RL/RR）")
}

/// The place of a joint of the given kind.
pub open spec fn kind_place(name: Seq<char>) -> Option<usize> {
    if name == LEG_JOINT_KINDS[0]@ {
        Some(0)
    } else if name == LEG_JOINT_KINDS[1]@ {
        Some(1)
    } else if name == LEG_JOINT_KINDS[2]@ {
        Some(2)
    } else {
        None
    }
}

fn place_of(name: &str) -> (r: Option<usize>)
    ensures
        r == kind_place(name@),
        r matches Some(k) ==> k < 3,
{
    if same_text(name, LEG_JOINT_KINDS[0]) {
        Some(0)
    } else if same_text(name, LEG_JOINT_KINDS[1]) {
        Some(1)
    } else if same_text(name, LEG_JOINT_KINDS[2]) {
        Some(2)
    } else {
        None
    }
}

/// The error of a joint that does not exist, whose name comes in quotes.
pub fn bad_joint(name: &str) -> (r: String)
    ensures
        r@ == "--joint "@ + name@ + " が不正です（hip|thigh|calf）"@,
{
    "--joint ".to_owned().concat(name).concat(" が不正です（hip|thigh|calf）")
}

/// The joint that `--leg` and `--joint` name; both are needed.
pub fn target_joint(cli: &Cli) -> (r: Result<(LegSlot, usize), String>)
    requires
        cli.wf(),
    ensures
        match cli@.value("leg"@) {
            None => r matches Err(e) && e@ == "--leg FL|FR|RL|RR が必要です"@,
            Some(s) => match leg_any_case(s) {
                None => r matches Err(e) && e@ == bad_leg_text(debug_text(s)),
                Some(leg) => match cli@.value("joint"@) {
                    None => r matches Err(e) && e@ == "--joint hip|thigh|calf が必要です"@,
                    Some(joint) => match (kind_place(joint), r) {
                        (Some(k), _) => r == Ok::<(LegSlot, usize), String>((leg, k)) && k < 3,
                        (None, Err(e)) => e@ == "--joint "@ + debug_text(joint)
                            + " が不正です（hip|thigh|calf）"@,
                        (None, Ok(_)) => false,
                    },
                },
            },
        },
{
    let leg = match leg_filter(cli) {
        Ok(Some(leg)) => leg,
        Ok(None) => return Err("--leg FL|FR|RL|RR が必要です".to_owned()),
        Err(e) => return Err(e),
    };
    let joint = match cli.str("joint") {
        Some(joint) => joint,
        None => return Err("--joint hip|thigh|calf が必要です".to_owned()),
    };
    match place_of(joint) {
        Some(k) => Ok((leg, k)),
        None => Err(bad_joint(quoted(joint).as_str())),
    }
}

/// What a request goes to: all legs, one leg, or one joint of a leg.
#[derive(Debug, Clone, Copy, PartialEq, Eq, Structural)]
pub enum Scope {
    All,
    Leg(LegSlot),
    Joint(LegSlot, usize),
}

impl Scope {
    /// Whether a leg is meant.
    pub open spec fn covers(self, leg: LegSlot) -> bool {
        match self {
            Scope::All => true,
            Scope::Leg(l) => l == leg,
            Scope::Joint(l, _) => l == leg,
        }
    }

    /// Whether a joint is named.
    pub open spec fn wf(self) -> bool {
        self matches Scope::Joint(_, k) ==> k < 3
    }

    pub fn includes(self, leg: LegSlot) -> (r: bool)
        ensures
            r == self.covers(leg),
    {
        match self {
            Scope::All => true,
            Scope::Leg(l) => l == leg,
            Scope::Joint(l, _) => l == leg,
        }
    }
}

/// The scope that `--leg` and `--joint` name. A joint alone names none.
pub fn scope(cli: &Cli) -> (r: Result<Scope, String>)
    requires
        cli.wf(),
    ensures
        r matches Ok(s) ==> s.wf(),
        match cli@.value("leg"@) {
            Some(s) if leg_any_case(s) is None => r matches Err(e) && e@ == bad_leg_text(
                debug_text(s),
            ),
            found => {
                let leg: Option<LegSlot> = match found {
                    Some(s) => leg_any_case(s),
                    None => None,
                };
                match cli@.value("joint"@) {
                    None => r == Ok::<Scope, String>(
                        match leg {
                            Some(l) => Scope::Leg(l),
                            None => Scope::All,
                        },
                    ),
                    Some(joint) => match (kind_place(joint), leg) {
                        (None, _) => r matches Err(e) && e@ == "--joint "@ + debug_text(joint)
                            + " が不正です（hip/thigh/calf）"@,
                        (Some(_), None) => r matches Err(e) && e@
                            == "--joint を使うときは --leg も指定してください"@,
                        (Some(k), Some(l)) => r == Ok::<Scope, String>(Scope::Joint(l, k)),
                    },
                }
            },
        },
{
    let leg = match leg_filter(cli) {
        Ok(leg) => leg,
        Err(e) => return Err(e),
    };
    match cli.str("joint") {
        None => match leg {
            Some(l) => Ok(Scope::Leg(l)),
            None => Ok(Scope::All),
        },
        Some(joint) => match place_of(joint) {
            None => Err(
                "--joint ".to_owned().concat(quoted(joint).as_str()).concat(
                    " が不正です（hip/thigh/calf）",
                ),
            ),
            Some(k) => match leg {
                None => Err("--joint を使うときは --leg も指定してください".to_owned()),
                Some(l) => Ok(Scope::Joint(l, k)),
            },
        },
    }
}

/// The requests that reach a scope: one for each leg that it covers.
pub open spec fn requests_to(scope: Scope, each: BusRequest, one: BusRequest) -> Seq<
    (LegSlot, BusRequest),
> {
    match scope {
        Scope::All => seq![
            (LegSlot::Fl, each),
            (LegSlot::Fr, each),
            (LegSlot::Rl, each),
            (LegSlot::Rr, each),
        ],
        Scope::Leg(leg) => seq![(leg, each)],
        Scope::Joint(leg, _) => seq![(leg, one)],
    }
}

fn addressed(scope: Scope, each: BusRequest, one: BusRequest) -> (r: Vec<(LegSlot, BusRequest)>)
    ensures
        r@ == requests_to(scope, each, one),
{
    let r = match scope {
        Scope::All => vec![
            (LegSlot::Fl, each),
            (LegSlot::Fr, each),
            (LegSlot::Rl, each),
            (LegSlot::Rr, each),
        ],
        Scope::Leg(leg) => vec![(leg, each)],
        Scope::Joint(leg, _) => vec![(leg, one)],
    };
    assert(r@ =~= requests_to(scope, each, one));
    r
}

/// The place that a scope names, or the first.
pub open spec fn place_in(scope: Scope) -> usize {
    match scope {
        Scope::Joint(_, k) => k,
        _ => 0,
    }
}

/// The requests that restart the drivers of a scope.
pub fn restart_requests(scope: Scope) -> (r: Vec<(LegSlot, BusRequest)>)
    ensures
        r@ == requests_to(
            scope,
            BusRequest::Restart,
            BusRequest::RestartJoint(place_in(scope)),
        ),
{
    let k: usize = match scope {
        Scope::Joint(_, k) => k,
        _ => 0,
    };
    addressed(scope, BusRequest::Restart, BusRequest::RestartJoint(k))
}

/// The requests that set the multi-turn counters of a scope back.
pub fn clear_requests(scope: Scope) -> (r: Vec<(LegSlot, BusRequest)>)
    ensures
        r@ == requests_to(
            scope,
            BusRequest::ClearMultiTurn,
            BusRequest::ClearMultiTurnJoint(place_in(scope)),
        ),
{
    let k: usize = match scope {
        Scope::Joint(_, k) => k,
        _ => 0,
    };
    addressed(scope, BusRequest::ClearMultiTurn, BusRequest::ClearMultiTurnJoint(k))
}

/// The requests that go to every leg of a filter.
pub fn leg_requests(only: Option<LegSlot>, request: BusRequest) -> (r: Vec<(LegSlot, BusRequest)>)
    ensures
        r@ == requests_to(
            match only {
                Some(leg) => Scope::Leg(leg),
                None => Scope::All,
            },
            request,
            request,
        ),
{
    let scope = match only {
        Some(leg) => Scope::Leg(leg),
        None => Scope::All,
    };
    addressed(scope, request, request)
}

/// The announcement of what a scope is about to undergo.
pub open spec fn announcement(scope: Scope, what: Seq<char>) -> Seq<char> {
    match scope {
        Scope::Joint(leg, k) => "**"@ + leg.name() + " の "@ + LEG_JOINT_KINDS[k as int]@
            + " だけ**"@ + what,
        Scope::Leg(leg) => "**"@ + leg.name() + " の 3 軸**の"@ + what,
        Scope::All => "**12 軸すべて**の"@ + what,
    }
}

fn announce(scope: Scope, what: &str) -> (r: String)
    requires
        scope.wf(),
    ensures
        r@ == announcement(scope, what@),
{
    match scope {
        Scope::Joint(leg, k) => "**".to_owned().concat(leg.prefix()).concat(" の ").concat(
            LEG_JOINT_KINDS[k],
        ).concat(" だけ**").concat(what),
        Scope::Leg(leg) => "**".to_owned().concat(leg.prefix()).concat(" の 3 軸**の").concat(what),
        Scope::All => "**12 軸すべて**の".to_owned().concat(what),
    }
}

/// The announcement of a restart.
pub fn restart_headline(scope: Scope) -> (r: String)
    requires
        scope.wf(),
    ensures
        r@ == announcement(scope, "ドライバを再起動します（電源再投入と等価）。"@),
{
    announce(scope, "ドライバを再起動します（電源再投入と等価）。")
}

/// The announcement of cleared counters.
pub fn clear_headline(scope: Scope) -> (r: String)
    requires
        scope.wf(),
    ensures
        r@ == announcement(
            scope,
            "マルチターンカウンタを 0 に戻します（モータ電源 OFF/ON 相当）。"@,
        ),
{
    announce(scope, "マルチターンカウンタを 0 に戻します（モータ電源 OFF/ON 相当）。")
}

/// What a restart turned out to do, by how many joints were faulted before and
/// after.
pub open spec fn restart_verdict_text(before: nat, after: nat) -> Seq<Seq<char>> {
    if before > 0 && after == 0 {
        seq![
            "**異常が消えました。再起動は保護の解除に使えます。**"@,
            "バッテリ運用での復帰経路になり得ます（0x94 への移行と組み合わせ）。"@,
        ]
    } else if before > 0 {
        seq![
            "**"@ + decimal(after) + " 軸で異常が残りました。再起動では解除できません。**"@,
            "起動時の判定で再びトリップしている可能性が高いです。"@,
        ]
    } else {
        seq!["元から異常はありませんでした（再起動が効いたかは別途確認）。"@]
    }
}

pub fn restart_verdict(before: usize, after: usize) -> (r: Vec<String>)
    ensures
        views(r@) == restart_verdict_text(before as nat, after as nat),
{
    let r = if before > 0 && after == 0 {
        vec![
            "**異常が消えました。再起動は保護の解除に使えます。**".to_owned(),
            "バッテリ運用での復帰経路になり得ます（0x94 への移行と組み合わせ）。".to_owned(),
        ]
    } else if before > 0 {
        vec![
            "**".to_owned().concat(decimal_text(after as u64).as_str()).concat(
                " 軸で異常が残りました。再起動では解除できません。**",
            ),
            "起動時の判定で再びトリップしている可能性が高いです。".to_owned(),
        ]
    } else {
        vec!["元から異常はありませんでした（再起動が効いたかは別途確認）。".to_owned()]
    };
    assert(views(r@) =~= restart_verdict_text(before as nat, after as nat));
    r
}

/// What clearing the error flags turned out to do.
pub open spec fn clear_verdict_text(after: nat) -> Seq<Seq<char>> {
    if after == 0 {
        seq!["**消えました。**"@]
    } else {
        seq![
            "**"@ + decimal(after) + " 軸で消えませんでした。原因がまだ残っています。**"@,
            "マニュアル §2: 状態が正常に戻るまでフラグは消せません。"@,
            "  低電圧保護 … 電源電圧を確認（電流制限に当たっていませんか）"@,
            "  過熱       … 冷えるまで待つ"@,
        ]
    }
}

pub fn clear_verdict(after: usize) -> (r: Vec<String>)
    ensures
        views(r@) == clear_verdict_text(after as nat),
{
    let r = if after == 0 {
        vec!["**消えました。**".to_owned()]
    } else {
        vec![
            "**".to_owned().concat(decimal_text(after as u64).as_str()).concat(
                " 軸で消えませんでした。原因がまだ残っています。**",
            ),
            "マニュアル §2: 状態が正常に戻るまでフラグは消せません。".to_owned(),
            "  低電圧保護 … 電源電圧を確認（電流制限に当たっていませんか）".to_owned(),
            "  過熱       … 冷えるまで待つ".to_owned(),
        ]
    };
    assert(views(r@) =~= clear_verdict_text(after as nat));
    r
}

/// How the joints of a leg moved between two readings.
pub open spec fn moved(before: PerJoint<JointState>, after: PerJoint<JointState>) -> PerJoint<Double> {
    PerJoint {
        hip: after.hip.position_rad.minus(before.hip.position_rad),
        thigh: after.thigh.position_rad.minus(before.thigh.position_rad),
        calf: after.calf.position_rad.minus(before.calf.position_rad),
    }
}

/// How far each joint of a leg moved: anything but 0 says that the origin moved.
pub fn angle_changes(before: &PerJoint<JointState>, after: &PerJoint<JointState>) -> (r: PerJoint<
    Double,
>)
    ensures
        r == moved(*before, *after),
{
    PerJoint {
        hip: after.hip.position_rad.minus(before.hip.position_rad),
        thigh: after.thigh.position_rad.minus(before.thigh.position_rad),
        calf: after.calf.position_rad.minus(before.calf.position_rad),
    }
}

/// What is told of a joint's status.
#[derive(Debug, Clone, Copy, PartialEq, Eq, Structural)]
pub enum Health {
    Unread,
    Faulted,
    Sound,
}

pub open spec fn health_of(status: JointStatus) -> Health {
    if !status.valid {
        Health::Unread
    } else if status.error_raw != 0 {
        Health::Faulted
    } else {
        Health::Sound
    }
}

pub fn health(status: &JointStatus) -> (r: Health)
    ensures
        r == health_of(*status),
{
    if !status.valid {
        Health::Unread
    } else if status.faulted() {
        Health::Faulted
    } else {
        Health::Sound
    }
}

/// How many joints of a leg are faulted.
pub open spec fn faulted_in(status: PerJoint<JointStatus>) -> nat {
    (if status.hip.is_faulted() { 1nat } else { 0 }) + (if status.thigh.is_faulted() {
        1nat
    } else {
        0
    }) + (if status.calf.is_faulted() { 1nat } else { 0 })
}

/// How many joints of a scope are faulted.
pub open spec fn faulted_count(status: PerLeg<PerJoint<JointStatus>>, only: Option<LegSlot>) -> nat {
    match only {
        Some(leg) => faulted_in(status.of(leg)),
        None => faulted_in(status.fl) + faulted_in(status.fr) + faulted_in(status.rl) + faulted_in(
            status.rr,
        ),
    }
}

fn count_faulted(status: &PerJoint<JointStatus>) -> (r: usize)
    ensures
        r == faulted_in(*status),
        r <= 3,
{
    let mut n: usize = 0;
    if status.hip.faulted() {
        n = n + 1;
    }
    if status.thigh.faulted() {
        n = n + 1;
    }
    if status.calf.faulted() {
        n = n + 1;
    }
    n
}

/// How many joints of one leg, or of all, are faulted.
pub fn report_faults(status: &PerLeg<PerJoint<JointStatus>>, only: Option<LegSlot>) -> (r: usize)
    ensures
        r == faulted_count(*status, only),
{
    match only {
        Some(leg) => count_faulted(&status.get(leg)),
        None => count_faulted(&status.fl) + count_faulted(&status.fr) + count_faulted(&status.rl)
            + count_faulted(&status.rr),
    }
}

/// How a joint's status is shown; voltage and temperature come in decimal.
pub open spec fn health_text(leg: LegSlot, kind: Seq<char>, status: JointStatus, volts: Seq<char>, celsius: Seq<char>)
    -> Seq<char> {
    match health_of(status) {
        Health::Unread => "  "@ + leg.name() + " "@ + kind + " … 未読"@,
        Health::Faulted => "  "@ + leg.name() + " "@ + padded(kind) + " **"@ + joined(
            error_names(status.error_raw),
            " + "@,
        ) + "**（0x"@ + hex(status.error_raw) + "）  "@ + volts + " V / "@ + celsius + " °C"@,
        Health::Sound => "  "@ + leg.name() + " "@ + padded(kind) + " 正常  "@ + volts + " V / "@
            + celsius + " °C"@,
    }
}

/// A joint's kind, filled up to five characters.
pub open spec fn padded(kind: Seq<char>) -> Seq<char> {
    kind + blanks((if kind.len() < 5 { 5 - kind.len() } else { 0 }) as nat)
}

fn pad_kind(kind: &str) -> (r: String)
    ensures
        r@ == padded(kind@),
{
    let n: usize = kind.unicode_len();
    let fill: usize = if n < 5 { 5 - n } else { 0 };
    kind.to_owned().concat(blank_text(fill).as_str())
}

/// How a joint's status is shown; voltage and temperature come in decimal.
pub fn health_line(leg: LegSlot, k: usize, status: &JointStatus, volts: &str, celsius: &str) -> (r:
    String)
    requires
        k < 3,
    ensures
        r@ == health_text(leg, LEG_JOINT_KINDS[k as int]@, *status, volts@, celsius@),
{
    let kind = LEG_JOINT_KINDS[k];
    let head = "  ".to_owned().concat(leg.prefix()).concat(" ");
    match health(status) {
        Health::Unread => head.concat(kind).concat(" … 未読"),
        Health::Faulted => head.concat(pad_kind(kind).as_str()).concat(" **").concat(
            status.describe().as_str(),
        ).concat("**（0x").concat(hex_text(status.error_raw).as_str()).concat("）  ").concat(
            volts,
        ).concat(" V / ").concat(celsius).concat(" °C"),
        Health::Sound => head.concat(pad_kind(kind).as_str()).concat(" 正常  ").concat(volts).concat(
            " V / ",
        ).concat(celsius).concat(" °C"),
    }
}

/// The place of a leg's bus, or what is said of a leg without one.
pub fn bus_index(hw: &HardwareConfig, leg: LegSlot) -> (r: Result<usize, String>)
    ensures
        match r {
            Ok(i) => hw.first_bus_of(leg, i as int),
            Err(e) => !hw.has_leg(leg) && e@ == "脚 "@ + leg.name() + " の設定がありません"@,
        },
{
    let mut i: usize = 0;
    while i < hw.legs.bus.len()
        invariant
            i <= hw.legs.bus.len(),
            forall|j: int|
                0 <= j < i ==> LegSlot::named((#[trigger] hw.legs.bus[j]).leg@) != Some(leg),
        decreases hw.legs.bus.len() - i,
    {
        if let Some(slot) = LegSlot::from_prefix(hw.legs.bus[i].leg.as_str()) {
            if slot == leg {
                return Ok(i);
            }
        }
        i = i + 1;
    }
    Err("脚 ".to_owned().concat(leg.prefix()).concat(" の設定がありません"))
}

/// The id of a joint's motor, as far as one is configured.
pub open spec fn motor_id(hw: HardwareConfig, leg: LegSlot, k: int) -> u8 {
    if exists|i: int| hw.first_bus_of(leg, i) {
        let bus = hw.legs.bus[choose|i: int| hw.first_bus_of(leg, i)];
        if 0 <= k < bus.motors.len() { bus.motors[k].id } else { 0 }
    } else {
        0
    }
}

/// `FL_hip_joint (id 1)`: how a joint is called.
pub fn joint_label(hw: &HardwareConfig, leg: LegSlot, k: usize) -> (r: String)
    requires
        k < 3,
    ensures
        r@ == leg.name() + "_"@ + LEG_JOINT_KINDS[k as int]@ + "_joint (id "@ + decimal(
            motor_id(*hw, leg, k as int) as nat,
        ) + ")"@,
{
    let id: u8 = match bus_index(hw, leg) {
        Ok(i) => {
            proof {
                let j = choose|j: int| hw.first_bus_of(leg, j);
                lemma_one_first_bus(*hw, leg, i as int, j);
            }
            if k < hw.legs.bus[i].motors.len() { hw.legs.bus[i].motors[k].id } else { 0 }
        },
        Err(_) => {
            assert forall|i: int| !hw.first_bus_of(leg, i) by {
                if hw.first_bus_of(leg, i) {
                    assert(LegSlot::named(hw.legs.bus[i].leg@) == Some(leg));
                }
            }
            0
        },
    };
    leg.prefix().to_owned().concat("_").concat(LEG_JOINT_KINDS[k]).concat("_joint (id ").concat(
        decimal_text(id as u64).as_str(),
    ).concat(")")
}

/// A leg has one first bus.
pub proof fn lemma_one_first_bus(hw: HardwareConfig, leg: LegSlot, i: int, j: int)
    requires
        hw.first_bus_of(leg, i),
        hw.first_bus_of(leg, j),
    ensures
        i == j,
{
    if i < j {
        assert(LegSlot::named(hw.legs.bus[i].leg@) != Some(leg));
    }
    if j < i {
        assert(LegSlot::named(hw.legs.bus[j].leg@) != Some(leg));
    }
}

/// What a joint has moved by, joint by joint, is the difference of its angles.
pub proof fn law_a_joint_has_moved_by_its_difference(
    before: PerJoint<JointState>,
    after: PerJoint<JointState>,
    k: int,
)
    requires
        0 <= k < 3,
    ensures
        moved(before, after).at(k) == after.at(k).position_rad.minus(before.at(k).position_rad),
{
}

/// The faults that are counted are those of the joints asked about: none exactly where no
/// joint has one, and a leg's own where one leg is asked about.
pub proof fn law_faults_are_counted(status: PerLeg<PerJoint<JointStatus>>, only: Option<LegSlot>)
    ensures
        faulted_count(status, only) == 0 <==> forall|leg: LegSlot, k: int|
            0 <= k < 3 && (only is None || only == Some(leg)) ==> !((#[trigger] status.of(leg).at(
                k,
            )).valid && status.of(leg).at(k).error_raw != 0),
        only is None ==> faulted_count(status, only) == faulted_count(status, Some(LegSlot::Fl))
            + faulted_count(status, Some(LegSlot::Fr)) + faulted_count(status, Some(LegSlot::Rl))
            + faulted_count(status, Some(LegSlot::Rr)),
        faulted_count(status, only) <= 12,
{
    assert forall|leg: LegSlot|
        faulted_in(#[trigger] status.of(leg)) == 0 <==> forall|k: int|
            0 <= k < 3 ==> !((#[trigger] status.of(leg).at(k)).valid && status.of(leg).at(k).error_raw
                != 0) by {
        assert(status.of(leg).at(0) == status.of(leg).hip);
        assert(status.of(leg).at(1) == status.of(leg).thigh);
        assert(status.of(leg).at(2) == status.of(leg).calf);
    }
    assert(status.of(LegSlot::Fl) == status.fl);
    assert(status.of(LegSlot::Fr) == status.fr);
    assert(status.of(LegSlot::Rl) == status.rl);
    assert(status.of(LegSlot::Rr) == status.rr);
}

/// Every leg of a scope is asked, once, and for one joint the joint alone.
pub proof fn law_every_leg_of_a_scope_is_asked(
    scope: Scope,
    each: BusRequest,
    one: BusRequest,
    leg: LegSlot,
)
    ensures
        ({
            let asked = requests_to(scope, each, one);
            let request = if scope is Joint { one } else { each };
            &&& scope.covers(leg) <==> asked.contains((leg, request))
            &&& forall|i: int| 0 <= i < asked.len() ==> (#[trigger] asked[i]).1 == request
            &&& asked.len() == if scope is All { 4nat } else { 1 }
        }),
{
    let asked = requests_to(scope, each, one);
    match scope {
        Scope::All => {
            assert(asked[leg.place() as int] == (leg, each));
        },
        Scope::Leg(l) => {
            assert(asked[0] == (l, each));
        },
        Scope::Joint(l, _) => {
            assert(asked[0] == (l, one));
        },
    }
}

} // verus!
