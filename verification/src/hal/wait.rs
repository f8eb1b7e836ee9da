//! Waiting with a deadline, one look at a time.
use vstd::prelude::*;

use crate::hal::error::Error;

verus! {

/// How a wait stands.
#[derive(Debug, Clone)]
pub enum Wait {
    /// What was waited for is there.
    Ready,
    /// Look again after this long (ns).
    Again { ns: u64 },
    /// The time is up.
    Late(Error),
}

/// How a wait stands, by whether it is over and whether its time is up.
pub open spec fn waits(r: Wait, done: bool, what: Seq<char>, pause: u64, now: u64, deadline: u64, timeout_ms: u64)
    -> bool {
    if now >= deadline {
        r matches Wait::Late(Error::Timeout { what: w, timeout_ms: t }) && w@ == what && t == timeout_ms
    } else if done {
        r is Ready
    } else {
        r == (Wait::Again { ns: pause })
    }
}

/// One look at what is waited for.
pub fn look(done: bool, what: String, pause: u64, now: u64, deadline: u64, timeout_ms: u64) -> (r: Wait)
    ensures
        waits(r, done, what@, pause, now, deadline, timeout_ms),
{
    if now >= deadline {
        Wait::Late(Error::Timeout { what, timeout_ms })
    } else if done {
        Wait::Ready
    } else {
        Wait::Again { ns: pause }
    }
}

/// A wait ends when what is waited for is there before the deadline, fails at the deadline
/// and with its own name and time, and is else looked at again after its pause.
pub proof fn law_a_wait_ends_by_its_deadline(
    r: Wait,
    done: bool,
    what: Seq<char>,
    pause: u64,
    now: u64,
    deadline: u64,
    timeout_ms: u64,
)
    requires
        waits(r, done, what, pause, now, deadline, timeout_ms),
    ensures
        r is Late <==> now >= deadline,
        r is Ready <==> now < deadline && done,
        r matches Wait::Again { ns } ==> ns == pause && !done,
        r matches Wait::Late(e) ==> (e matches Error::Timeout { what: w, timeout_ms: t } && w@ == what && t
            == timeout_ms),
{
}

} // verus!
