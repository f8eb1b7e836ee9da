//! What is done to the motors as a whole, step by step: restarting them, setting
//! their counters back, clearing their errors and reading their angles.
//!
//! A procedure is a list of steps. The caller carries them out in order and stops at
//! the first that fails.
use vstd::prelude::*;
use vstd::string::*;

use crate::control::calib::{
    clear_requests, leg_requests, place_in, requests_to, restart_requests, Scope, SETTLE_MS,
};
use crate::hal::joint::LegSlot;
use crate::hal::legs::BusRequest;

verus! {

/// What is done.
#[derive(Debug, Clone, Copy, PartialEq, Eq, Structural)]
pub enum Procedure {
    Restart,
    ClearMultiTurn,
    ClearError,
    SingleTurn,
}

/// Why waiting for the frames may have failed.
#[derive(Debug, Clone, Copy, PartialEq, Eq, Structural)]
pub enum Blame {
    /// No power, or the wrong baud rate.
    Power,
    /// The drivers did not come back.
    Restart,
    /// The frame could not be read anew.
    Frame,
}

impl Blame {
    pub open spec fn hint(self) -> Seq<char> {
        match self {
            Blame::Power => "（モータ電源とボーレートを確認してください）"@,
            Blame::Restart => "（再起動後にモータが応答していません）"@,
            Blame::Frame => "（フレームの張り直しに失敗しました）"@,
        }
    }

    /// The error of a wait that failed.
    pub fn explain(self, error: &str) -> (r: String)
        ensures
            r@ == error@ + self.hint(),
    {
        let hint = match self {
            Blame::Power => "（モータ電源とボーレートを確認してください）",
            Blame::Restart => "（再起動後にモータが応答していません）",
            Blame::Frame => "（フレームの張り直しに失敗しました）",
        };
        error.to_owned().concat(hint)
    }
}

/// One step.
#[derive(Debug, Clone, Copy, PartialEq, Eq, Structural)]
pub enum Step {
    /// Let the operator agree.
    Confirm,
    /// Open the buses.
    Connect,
    /// Wait for the frames.
    WaitAnchored { timeout_ms: u64, blame: Blame },
    Sleep { ms: u64 },
    /// Show the status of the joints and count the faulted ones.
    Report,
    /// Go no further if none was faulted.
    StopIfSound,
    /// Send a request to a leg.
    Send { leg: LegSlot, request: BusRequest },
    /// Say what came of it.
    Verdict,
}

/// Requests as steps.
pub open spec fn sends(requests: Seq<(LegSlot, BusRequest)>) -> Seq<Step> {
    requests.map_values(|p: (LegSlot, BusRequest)| Step::Send { leg: p.0, request: p.1 })
}

/// The requests of a procedure.
pub open spec fn asked_of(procedure: Procedure, scope: Scope) -> Seq<(LegSlot, BusRequest)> {
    match procedure {
        Procedure::Restart => requests_to(
            scope,
            BusRequest::Restart,
            BusRequest::RestartJoint(place_in(scope)),
        ),
        Procedure::ClearMultiTurn => requests_to(
            scope,
            BusRequest::ClearMultiTurn,
            BusRequest::ClearMultiTurnJoint(place_in(scope)),
        ),
        Procedure::ClearError => requests_to(
            legs_of(scope),
            BusRequest::ClearError,
            BusRequest::ClearError,
        ),
        Procedure::SingleTurn => requests_to(
            legs_of(scope),
            BusRequest::ReadSingleTurn,
            BusRequest::ReadSingleTurn,
        ),
    }
}

/// A scope by its legs alone.
pub open spec fn legs_of(scope: Scope) -> Scope {
    match scope {
        Scope::Joint(leg, _) => Scope::Leg(leg),
        _ => scope,
    }
}

/// What comes before the requests.
pub open spec fn opening(procedure: Procedure, status_ms: u64) -> Seq<Step> {
    let wait = Step::WaitAnchored { timeout_ms: 3000, blame: Blame::Power };
    match procedure {
        Procedure::Restart => seq![
            Step::Confirm,
            Step::Connect,
            wait,
            Step::Sleep { ms: status_ms },
            Step::Report,
        ],
        Procedure::ClearMultiTurn => seq![Step::Confirm, Step::Connect, wait],
        Procedure::ClearError => seq![
            Step::Connect,
            wait,
            Step::Sleep { ms: status_ms },
            Step::Report,
            Step::StopIfSound,
        ],
        Procedure::SingleTurn => seq![Step::Connect, wait],
    }
}

/// What comes after them.
pub open spec fn closing(procedure: Procedure, status_ms: u64) -> Seq<Step> {
    match procedure {
        Procedure::Restart => seq![
            Step::Sleep { ms: 2000 },
            Step::WaitAnchored { timeout_ms: 5000, blame: Blame::Restart },
            Step::Sleep { ms: status_ms },
            Step::Report,
            Step::Verdict,
        ],
        Procedure::ClearMultiTurn => seq![
            Step::Sleep { ms: SETTLE_MS },
            Step::WaitAnchored { timeout_ms: 3000, blame: Blame::Frame },
            Step::Sleep { ms: SETTLE_MS },
            Step::Verdict,
        ],
        Procedure::ClearError => seq![Step::Sleep { ms: SETTLE_MS }, Step::Report, Step::Verdict],
        Procedure::SingleTurn => seq![Step::Sleep { ms: SETTLE_MS }, Step::Verdict],
    }
}

/// The steps of a procedure. `status_ms` is how long all joints take to report.
pub open spec fn steps_of(procedure: Procedure, scope: Scope, status_ms: u64) -> Seq<Step> {
    opening(procedure, status_ms) + sends(asked_of(procedure, scope)) + closing(procedure, status_ms)
}

/// How long all joints of the buses take to report (ms): each reading takes one.
pub fn status_wait(status_interval_ms: u64) -> (r: u64)
    ensures
        r == (if status_interval_ms * 4 > u64::MAX { u64::MAX as int } else { status_interval_ms * 4 }),
{
    if status_interval_ms > 0x3fff_ffff_ffff_ffff { u64::MAX } else { status_interval_ms * 4 }
}

/// The steps of a procedure.
pub fn steps(procedure: Procedure, scope: Scope, status_ms: u64) -> (r: Vec<Step>)
    ensures
        r@ == steps_of(procedure, scope, status_ms),
{
    let wait = Step::WaitAnchored { timeout_ms: 3000, blame: Blame::Power };
    let mut r: Vec<Step> = match procedure {
        Procedure::Restart => vec![
            Step::Confirm,
            Step::Connect,
            wait,
            Step::Sleep { ms: status_ms },
            Step::Report,
        ],
        Procedure::ClearMultiTurn => vec![Step::Confirm, Step::Connect, wait],
        Procedure::ClearError => vec![
            Step::Connect,
            wait,
            Step::Sleep { ms: status_ms },
            Step::Report,
            Step::StopIfSound,
        ],
        Procedure::SingleTurn => vec![Step::Connect, wait],
    };
    assert(r@ =~= opening(procedure, status_ms));
    let leg: Option<LegSlot> = match scope {
        Scope::All => None,
        Scope::Leg(leg) => Some(leg),
        Scope::Joint(leg, _) => Some(leg),
    };
    let requests = match procedure {
        Procedure::Restart => restart_requests(scope),
        Procedure::ClearMultiTurn => clear_requests(scope),
        Procedure::ClearError => leg_requests(leg, BusRequest::ClearError),
        Procedure::SingleTurn => leg_requests(leg, BusRequest::ReadSingleTurn),
    };
    assert(requests@ =~= asked_of(procedure, scope));
    let ghost front = r@;
    let mut i: usize = 0;
    while i < requests.len()
        invariant
            i <= requests.len(),
            r@ =~= front + sends(requests@).take(i as int),
        decreases requests.len() - i,
    {
        r.push(Step::Send { leg: requests[i].0, request: requests[i].1 });
        i = i + 1;
    }
    let tail: Vec<Step> = match procedure {
        Procedure::Restart => vec![
            Step::Sleep { ms: 2000 },
            Step::WaitAnchored { timeout_ms: 5000, blame: Blame::Restart },
            Step::Sleep { ms: status_ms },
            Step::Report,
            Step::Verdict,
        ],
        Procedure::ClearMultiTurn => vec![
            Step::Sleep { ms: SETTLE_MS },
            Step::WaitAnchored { timeout_ms: 3000, blame: Blame::Frame },
            Step::Sleep { ms: SETTLE_MS },
            Step::Verdict,
        ],
        Procedure::ClearError => vec![Step::Sleep { ms: SETTLE_MS }, Step::Report, Step::Verdict],
        Procedure::SingleTurn => vec![Step::Sleep { ms: SETTLE_MS }, Step::Verdict],
    };
    assert(tail@ =~= closing(procedure, status_ms));
    let ghost middle = r@;
    let mut i: usize = 0;
    while i < tail.len()
        invariant
            i <= tail.len(),
            r@ =~= middle + tail@.take(i as int),
        decreases tail.len() - i,
    {
        r.push(tail[i]);
        i = i + 1;
    }
    assert(r@ =~= steps_of(procedure, scope, status_ms));
    r
}

/// The origin of a motor is never moved before the operator has agreed.
pub proof fn law_nothing_moves_before_it_was_agreed_to(procedure: Procedure, scope: Scope, status_ms: u64, i: int)
    requires
        0 <= i < steps_of(procedure, scope, status_ms).len(),
        steps_of(procedure, scope, status_ms)[i] matches Step::Send { request, .. }
            && request.moves_origin(),
    ensures
        steps_of(procedure, scope, status_ms)[0] is Confirm,
{
    let all = steps_of(procedure, scope, status_ms);
    let front = opening(procedure, status_ms);
    let asked = sends(asked_of(procedure, scope));
    assert(all[0] == front[0]);
    if i < front.len() {
        assert(all[i] == front[i]);
    } else if i < front.len() + asked.len() {
        assert(all[i] == asked[i - front.len()]);
    } else {
        assert(all[i] == closing(procedure, status_ms)[i - front.len() - asked.len()]);
    }
}

/// A request goes only to the legs that were meant.
pub proof fn law_requests_stay_in_their_scope(procedure: Procedure, scope: Scope, status_ms: u64, i: int)
    requires
        0 <= i < steps_of(procedure, scope, status_ms).len(),
    ensures
        steps_of(procedure, scope, status_ms)[i] matches Step::Send { leg, .. } ==> scope.covers(leg),
{
    let all = steps_of(procedure, scope, status_ms);
    let front = opening(procedure, status_ms);
    let asked = sends(asked_of(procedure, scope));
    if i < front.len() {
        assert(all[i] == front[i]);
    } else if i < front.len() + asked.len() {
        assert(all[i] == asked[i - front.len()]);
    } else {
        assert(all[i] == closing(procedure, status_ms)[i - front.len() - asked.len()]);
    }
}

/// A procedure asks every leg in its scope for what it is for: a restart or a reset of
/// the counters of the joint where one joint is meant, and of the whole leg otherwise.
pub proof fn law_a_procedure_asks_for_what_it_is_for(
    procedure: Procedure,
    scope: Scope,
    status_ms: u64,
    leg: LegSlot,
)
    requires
        scope.covers(leg),
    ensures
        ({
            let request = match (procedure, scope) {
                (Procedure::Restart, Scope::Joint(_, k)) => BusRequest::RestartJoint(k),
                (Procedure::Restart, _) => BusRequest::Restart,
                (Procedure::ClearMultiTurn, Scope::Joint(_, k)) => BusRequest::ClearMultiTurnJoint(k),
                (Procedure::ClearMultiTurn, _) => BusRequest::ClearMultiTurn,
                (Procedure::ClearError, _) => BusRequest::ClearError,
                (Procedure::SingleTurn, _) => BusRequest::ReadSingleTurn,
            };
            let all = steps_of(procedure, scope, status_ms);
            &&& all.contains(Step::Send { leg, request })
            &&& all.last() is Verdict
            &&& forall|i: int|
                0 <= i < all.len() ==> ((#[trigger] all[i]) matches Step::Send { request: r, .. } ==> r
                    == request)
        }),
{
    let asked = asked_of(procedure, scope);
    let front = opening(procedure, status_ms);
    let sent = sends(asked);
    let back = closing(procedure, status_ms);
    let all = steps_of(procedure, scope, status_ms);
    let place: int = if scope is All { leg.place() as int } else { 0 };
    assert(asked[place].0 == leg);
    assert(all[front.len() + place] == sent[place]);
    assert(all.last() == back.last());
    assert forall|i: int| 0 <= i < all.len() implies ((#[trigger] all[i]) matches Step::Send {
        request: r,
        ..
    } ==> r == asked[place].1) by {
        if i < front.len() {
            assert(all[i] == front[i]);
        } else if i < front.len() + sent.len() {
            assert(all[i] == sent[i - front.len()]);
        } else {
            assert(all[i] == back[i - front.len() - sent.len()]);
        }
    }
}

} // verus!
