//! What can go wrong below the control loop.
//!
//! Errors name the port they came from: with eight `/dev/ttyCH9344USB*` ports,
//! a nameless error does not help to find the fault.
use vstd::prelude::*;
use vstd::string::*;

use crate::double::{double, Double};
use crate::text::{debug_text, decimal, decimal_text, quoted};

verus! {

/// Why a hardware configuration is refused.
#[derive(Debug, Clone)]
pub enum Fault {
    /// There are not four leg buses but this many.
    BusCount { count: usize },
    /// A bus names no leg.
    LegName { leg: String },
    /// Two buses name the same leg.
    LegTwice { leg: String },
    /// A bus does not have three motors but this many.
    MotorCount { leg: String, count: usize },
    /// A motor is not of the kind that its place asks for.
    MotorKind { leg: String, place: usize, kind: String },
    /// A motor has the id 0; ids start at 1.
    MotorId { leg: String, kind: String },
    /// A motor's range is empty or not finite.
    MotorLimits { leg: String, kind: String, min: Double, max: Double },
    /// A motor's sign is neither 1 nor -1.
    MotorSign { leg: String, kind: String, sign: Double },
    /// Two motors of one bus share an id.
    MotorIdTwice { leg: String, id: u8 },
    /// The bus rate is not positive.
    BusRate,
    /// The arm's range is empty or not finite.
    ArmLimits,
    /// Any other complaint, as text.
    Other { text: String },
}

/// A [`Fault`] with its texts as sequences.
pub ghost enum Complaint {
    BusCount { count: nat },
    LegName { leg: Seq<char> },
    LegTwice { leg: Seq<char> },
    MotorCount { leg: Seq<char>, count: nat },
    MotorKind { leg: Seq<char>, place: nat, kind: Seq<char> },
    MotorId { leg: Seq<char>, kind: Seq<char> },
    MotorLimits { leg: Seq<char>, kind: Seq<char>, min: Double, max: Double },
    MotorSign { leg: Seq<char>, kind: Seq<char>, sign: Double },
    MotorIdTwice { leg: Seq<char>, id: u8 },
    BusRate,
    ArmLimits,
    Other { text: Seq<char> },
}

impl View for Fault {
    type V = Complaint;

    open spec fn view(&self) -> Complaint {
        match self {
            Fault::BusCount { count } => Complaint::BusCount { count: *count as nat },
            Fault::LegName { leg } => Complaint::LegName { leg: leg@ },
            Fault::LegTwice { leg } => Complaint::LegTwice { leg: leg@ },
            Fault::MotorCount { leg, count } => Complaint::MotorCount {
                leg: leg@,
                count: *count as nat,
            },
            Fault::MotorKind { leg, place, kind } => Complaint::MotorKind {
                leg: leg@,
                place: *place as nat,
                kind: kind@,
            },
            Fault::MotorId { leg, kind } => Complaint::MotorId { leg: leg@, kind: kind@ },
            Fault::MotorLimits { leg, kind, min, max } => Complaint::MotorLimits {
                leg: leg@,
                kind: kind@,
                min: *min,
                max: *max,
            },
            Fault::MotorSign { leg, kind, sign } => Complaint::MotorSign {
                leg: leg@,
                kind: kind@,
                sign: *sign,
            },
            Fault::MotorIdTwice { leg, id } => Complaint::MotorIdTwice { leg: leg@, id: *id },
            Fault::BusRate => Complaint::BusRate,
            Fault::ArmLimits => Complaint::ArmLimits,
            Fault::Other { text } => Complaint::Other { text: text@ },
        }
    }
}

/// An error of the hardware layer. What a driver reported is carried as text.
#[derive(Debug, Clone)]
pub enum Error {
    OpenPort { port: String, source: String },
    Discovery(String),
    Motor { port: String, motor_id: u8, source: String },
    Imu { port: String, source: String },
    SbusDriver { port: String, source: String },
    Config(Fault),
    Timeout { what: String, timeout_ms: u64 },
    Io(String),
}

/// The name of the joint at a place, in quotes.
pub open spec fn quoted_kind(place: nat) -> Seq<char> {
    if place == 0 { "\"hip\""@ } else if place == 1 { "\"thigh\""@ } else { "\"calf\""@ }
}

impl Complaint {
    /// The text that the complaint quotes.
    pub open spec fn quotes(self) -> Seq<char> {
        match self {
            Complaint::LegName { leg } => leg,
            Complaint::MotorKind { kind, .. } => kind,
            _ => Seq::empty(),
        }
    }

    /// The complaint in words; `quote` is the text that it quotes, in quotes, and
    /// `first` and `second` are its numbers, in decimal.
    pub open spec fn text(self, quote: Seq<char>, first: Seq<char>, second: Seq<char>) -> Seq<char> {
        match self {
            Complaint::BusCount { count } => "脚バスは 4 本必要ですが "@ + decimal(count)
                + " 本しかありません"@,
            Complaint::LegName { .. } => "脚の名前 "@ + quote + " が不正です (FL/FR/RL/RR)"@,
            Complaint::LegTwice { leg } => "脚 "@ + leg + " が 2 回定義されています"@,
            Complaint::MotorCount { leg, count } => "脚 "@ + leg + " のモータは 3 個必要ですが "@
                + decimal(count) + " 個です"@,
            Complaint::MotorKind { leg, place, .. } => "脚 "@ + leg + " の "@ + decimal(place)
                + " 番目は "@ + quoted_kind(place) + " であるべきですが "@ + quote
                + " です（並び順は hip, thigh, calf 固定）"@,
            Complaint::MotorId { leg, kind } => "脚 "@ + leg + " の "@ + kind
                + " の id が 0 です（LKMTech V3 の id は 1 始まり）"@,
            Complaint::MotorLimits { leg, kind, .. } => "脚 "@ + leg + " の "@ + kind
                + " の可動域が不正です (min "@ + first + " >= max "@ + second + ")"@,
            Complaint::MotorSign { leg, kind, .. } => "脚 "@ + leg + " の "@ + kind
                + " の sign は ±1.0 のみです ("@ + first + " が指定されました)"@,
            Complaint::MotorIdTwice { leg, id } => "脚 "@ + leg + " でモータ id "@ + decimal(
                id as nat,
            ) + " が重複しています（同一バス上では区別できません）"@,
            Complaint::BusRate => "legs.bus_rate_hz は正の値が必要です"@,
            Complaint::ArmLimits => "arm の可動域が不正です"@,
            Complaint::Other { text } => text,
        }
    }
}

impl Fault {
    /// The numbers that the message shows.
    pub fn numbers(&self) -> (r: (Double, Double))
        ensures
            r == (match self@ {
                Complaint::MotorLimits { min, max, .. } => (min, max),
                Complaint::MotorSign { sign, .. } => (sign, sign),
                _ => (double(0), double(0)),
            }),
    {
        match self {
            Fault::MotorLimits { min, max, .. } => (*min, *max),
            Fault::MotorSign { sign, .. } => (*sign, *sign),
            _ => (double(0), double(0)),
        }
    }

    /// The fault in words. `first` and `second` are its numbers, in decimal.
    pub fn message(&self, first: &str, second: &str) -> (r: String)
        ensures
            r@ == self@.text(debug_text(self@.quotes()), first@, second@),
    {
        match self {
            Fault::LegName { leg } => self.wording(quoted(leg.as_str()).as_str(), first, second),
            Fault::MotorKind { kind, .. } => self.wording(
                quoted(kind.as_str()).as_str(),
                first,
                second,
            ),
            _ => self.wording("", first, second),
        }
    }

    /// The fault in words, given the text that it quotes, in quotes.
    pub fn wording(&self, quote: &str, first: &str, second: &str) -> (r: String)
        ensures
            r@ == self@.text(quote@, first@, second@),
    {
        match self {
            Fault::BusCount { count } => "脚バスは 4 本必要ですが ".to_owned().concat(
                decimal_text(*count as u64).as_str(),
            ).concat(" 本しかありません"),
            Fault::LegName { .. } => "脚の名前 ".to_owned().concat(quote).concat(
                " が不正です (FL/FR/RL/RR)",
            ),
            Fault::LegTwice { leg } => "脚 ".to_owned().concat(leg.as_str()).concat(
                " が 2 回定義されています",
            ),
            Fault::MotorCount { leg, count } => "脚 ".to_owned().concat(leg.as_str()).concat(
                " のモータは 3 個必要ですが ",
            ).concat(decimal_text(*count as u64).as_str()).concat(" 個です"),
            Fault::MotorKind { leg, place, .. } => {
                let wanted = if *place == 0 {
                    "\"hip\""
                } else if *place == 1 {
                    "\"thigh\""
                } else {
                    "\"calf\""
                };
                "脚 ".to_owned().concat(leg.as_str()).concat(" の ").concat(
                    decimal_text(*place as u64).as_str(),
                ).concat(" 番目は ").concat(wanted).concat(" であるべきですが ").concat(quote).concat(
                    " です（並び順は hip, thigh, calf 固定）",
                )
            },
            Fault::MotorId { leg, kind } => "脚 ".to_owned().concat(leg.as_str()).concat(
                " の ",
            ).concat(kind.as_str()).concat(" の id が 0 です（LKMTech V3 の id は 1 始まり）"),
            Fault::MotorLimits { leg, kind, .. } => "脚 ".to_owned().concat(leg.as_str()).concat(
                " の ",
            ).concat(kind.as_str()).concat(" の可動域が不正です (min ").concat(first).concat(
                " >= max ",
            ).concat(second).concat(")"),
            Fault::MotorSign { leg, kind, .. } => "脚 ".to_owned().concat(leg.as_str()).concat(
                " の ",
            ).concat(kind.as_str()).concat(" の sign は ±1.0 のみです (").concat(first).concat(
                " が指定されました)",
            ),
            Fault::MotorIdTwice { leg, id } => "脚 ".to_owned().concat(leg.as_str()).concat(
                " でモータ id ",
            ).concat(decimal_text(*id as u64).as_str()).concat(
                " が重複しています（同一バス上では区別できません）",
            ),
            Fault::BusRate => "legs.bus_rate_hz は正の値が必要です".to_owned(),
            Fault::ArmLimits => "arm の可動域が不正です".to_owned(),
            Fault::Other { text } => text.clone(),
        }
    }
}

impl Error {
    /// The error in words; `quote`, `first` and `second` as for a complaint.
    pub open spec fn text(self, quote: Seq<char>, first: Seq<char>, second: Seq<char>) -> Seq<char> {
        match self {
            Error::OpenPort { port, source } => port@ + " を開けませんでした: "@ + source@,
            Error::Discovery(text) => "CH348 のポート探索に失敗しました: "@ + text@,
            Error::Motor { port, motor_id, source } => port@ + " (LKMTech id="@ + decimal(
                motor_id as nat,
            ) + "): "@ + source@,
            Error::Imu { port, source } => "IMU ("@ + port@ + "): "@ + source@,
            Error::SbusDriver { port, source } => "S.BUS ("@ + port@ + "): "@ + source@,
            Error::Config(fault) => "設定が不正です: "@ + fault@.text(quote, first, second),
            Error::Timeout { what, timeout_ms } => what@ + " が "@ + decimal(timeout_ms as nat)
                + " ms 以内に応答しませんでした"@,
            Error::Io(text) => text@,
        }
    }

    /// The text that the message quotes.
    pub open spec fn quotes(self) -> Seq<char> {
        match self {
            Error::Config(fault) => fault@.quotes(),
            _ => Seq::empty(),
        }
    }

    /// The error in words. `first` and `second` are the numbers of a
    /// configuration fault, in decimal.
    pub fn message(&self, first: &str, second: &str) -> (r: String)
        ensures
            r@ == self.text(debug_text(self.quotes()), first@, second@),
    {
        match self {
            Error::OpenPort { port, source } => port.clone().concat(" を開けませんでした: ").concat(
                source.as_str(),
            ),
            Error::Discovery(text) => "CH348 のポート探索に失敗しました: ".to_owned().concat(
                text.as_str(),
            ),
            Error::Motor { port, motor_id, source } => port.clone().concat(" (LKMTech id=").concat(
                decimal_text(*motor_id as u64).as_str(),
            ).concat("): ").concat(source.as_str()),
            Error::Imu { port, source } => "IMU (".to_owned().concat(port.as_str()).concat(
                "): ",
            ).concat(source.as_str()),
            Error::SbusDriver { port, source } => "S.BUS (".to_owned().concat(port.as_str()).concat(
                "): ",
            ).concat(source.as_str()),
            Error::Config(fault) => "設定が不正です: ".to_owned().concat(
                fault.message(first, second).as_str(),
            ),
            Error::Timeout { what, timeout_ms } => what.clone().concat(" が ").concat(
                decimal_text(*timeout_ms).as_str(),
            ).concat(" ms 以内に応答しませんでした"),
            Error::Io(text) => text.clone(),
        }
    }
}

/// Whether an error is a configuration fault in these words.
pub open spec fn complains(e: Error, text: Seq<char>) -> bool {
    e matches Error::Config(f) && f@ == (Complaint::Other { text })
}

/// A configuration error in these words.
pub fn config_error(text: String) -> (r: Error)
    ensures
        complains(r, text@),
{
    Error::Config(Fault::Other { text })
}

} // verus!
