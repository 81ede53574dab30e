//! Backconnect retry loop (agent side).
//!
//! The agent dials the controller in a loop. Each iteration attempts one
//! connection and then consults `backconnect_step`: a successful connection
//! is handled — inline in single-shot mode, on its own thread in persistent
//! mode — and a failure is only logged. Single-shot mode then ends the
//! process successfully; persistent mode sleeps a jittered delay and dials
//! again, whatever the outcome, indefinitely.

use vstd::prelude::*;

use rand::Rng;

verus! {

/// Smallest inter-attempt delay, in seconds.
pub const SLEEP_MIN: u32 = 5;

/// Bound the inter-attempt delay stays under, in seconds.
pub const SLEEP_MAX: u32 = 15;

/// The agent's operating mode. `single_shot` true means: handle at most one
/// connection, inline, and end the process with status zero afterwards.
/// False is the persistent default: keep dialing forever.
pub struct AgentConfig {
    pub single_shot: bool,
}

/// Whether one dial attempt reached the controller.
#[derive(Clone, Copy, PartialEq, Eq, Structural, Debug)]
pub enum ConnectOutcome {
    Connected,
    ConnectFailed,
}

/// What to do with the attempt's result.
#[derive(Clone, Copy, PartialEq, Eq, Structural, Debug)]
pub enum SessionAction {
    /// Service the connection on the calling thread, before anything else.
    HandleInline,
    /// Service the connection on a thread of its own; the loop goes on at
    /// once.
    SpawnHandler,
    /// Nothing to service: log the failure.
    LogFailure,
}

/// What the loop does after the action.
#[derive(Clone, Copy, PartialEq, Eq, Structural, Debug)]
pub enum LoopDirective {
    /// End the process with status zero.
    ExitSuccess,
    /// Sleep this many seconds, then dial again.
    SleepThenRetry(u32),
}

/// The action taken on one dial outcome: a connection is handled — inline
/// in single-shot mode, spawned in persistent mode — and a failure is
/// logged.
pub open spec fn spec_session_action(single_shot: bool, outcome: ConnectOutcome) -> SessionAction {
    match outcome {
        ConnectOutcome::Connected => if single_shot {
            SessionAction::HandleInline
        } else {
            SessionAction::SpawnHandler
        },
        ConnectOutcome::ConnectFailed => SessionAction::LogFailure,
    }
}

/// Relies on `rand::thread_rng` and `rand::Rng::gen_range`: a number drawn
/// uniformly from `lo..hi`. The draw panics only on an empty range, which
/// the requires leaves out; nothing beyond the bounds holds of the result.
#[verifier::external_body]
fn random_in(lo: u32, hi: u32) -> (r: u32)
    requires
        lo < hi,
    ensures
        lo <= r < hi,
{
    rand::thread_rng().gen_range(lo..hi)
}

/// One step of the backconnect loop. In single-shot mode every step ends
/// the process with status zero — after servicing the connection inline if
/// one was made. In persistent mode no outcome ever ends the loop: every
/// step directs a sleep of 5 to strictly under 15 seconds, drawn uniformly,
/// and another dial.
pub fn backconnect_step(cfg: &AgentConfig, outcome: ConnectOutcome) -> (r: (
    SessionAction,
    LoopDirective,
))
    ensures
        r.0 == spec_session_action(cfg.single_shot, outcome),
        cfg.single_shot ==> r.1 == LoopDirective::ExitSuccess,
        !cfg.single_shot ==> (r.1 matches LoopDirective::SleepThenRetry(d) && SLEEP_MIN <= d
            < SLEEP_MAX),
{
    let action = match outcome {
        ConnectOutcome::Connected => if cfg.single_shot {
            SessionAction::HandleInline
        } else {
            SessionAction::SpawnHandler
        },
        ConnectOutcome::ConnectFailed => SessionAction::LogFailure,
    };
    let directive = if cfg.single_shot {
        LoopDirective::ExitSuccess
    } else {
        LoopDirective::SleepThenRetry(random_in(SLEEP_MIN, SLEEP_MAX))
    };
    (action, directive)
}

} // verus!
