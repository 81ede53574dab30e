//! Pseudo-terminal session lifecycle.
//!
//! A `SHELL` frame opens one pseudo-terminal session on the agent: allocate
//! a terminal of the requested size, spawn an interactive shell on its slave
//! side in a new session, bridge the master side with the socket, and tear
//! everything down when the shell exits. Allocation and spawn failures are
//! fatal. On the controller, the session may switch the local terminal to
//! raw mode; the mode is restored whenever it was switched, however the
//! bridging ends.

use vstd::prelude::*;

verus! {

/// The requested terminal size, in character cells.
#[derive(Clone, Copy, PartialEq, Eq, Structural, Debug)]
pub struct WindowSize {
    pub width: u16,
    pub height: u16,
}

/// Where one pseudo-terminal session stands.
#[derive(Clone, Copy, PartialEq, Eq, Structural, Debug)]
pub enum PtyState {
    /// A `SHELL` frame arrived; nothing allocated yet.
    Requested,
    /// The terminal pair exists, sized to the request.
    Allocated,
    /// The shell runs on the slave side; master and socket are bridged.
    Running,
    /// Terminal state, by exit or by failure; descriptors are released.
    Closed,
}

/// What happened to the session's underlying resources.
#[derive(Clone, Copy, PartialEq, Eq, Structural, Debug)]
pub enum PtyEvent {
    AllocSucceeded,
    AllocFailed,
    SpawnSucceeded,
    SpawnFailed,
    ChildExited,
}

/// What the agent does on entering the new state.
#[derive(Clone, Copy, PartialEq, Eq, Structural, Debug)]
pub enum PtyEffect {
    /// Spawn the interactive shell attached to the slave side, in a new
    /// session of its own.
    SpawnShell,
    /// Bridge master and socket both ways and wait for the shell to exit.
    BridgeAndWait,
    /// Unrecoverable resource failure: end the process.
    FatalError,
    /// Report the shell's exit status and release the descriptors.
    ReleaseAndReport,
}

/// The session's transition relation: which event is answered how in each
/// state. Events that cannot occur in a state have no transition.
pub open spec fn spec_pty_step(state: PtyState, event: PtyEvent) -> Option<(PtyState, PtyEffect)> {
    match (state, event) {
        (PtyState::Requested, PtyEvent::AllocSucceeded) => Some(
            (PtyState::Allocated, PtyEffect::SpawnShell),
        ),
        (PtyState::Requested, PtyEvent::AllocFailed) => Some(
            (PtyState::Closed, PtyEffect::FatalError),
        ),
        (PtyState::Allocated, PtyEvent::SpawnSucceeded) => Some(
            (PtyState::Running, PtyEffect::BridgeAndWait),
        ),
        (PtyState::Allocated, PtyEvent::SpawnFailed) => Some(
            (PtyState::Closed, PtyEffect::FatalError),
        ),
        (PtyState::Running, PtyEvent::ChildExited) => Some(
            (PtyState::Closed, PtyEffect::ReleaseAndReport),
        ),
        _ => None,
    }
}

/// Advances one pseudo-terminal session by one event, exactly as
/// `spec_pty_step` relates: allocation success leads to the spawn, spawn
/// success to the bridging, child exit to the teardown, and either failure
/// to the fatal end; anything else has no transition.
pub fn pty_step(state: PtyState, event: PtyEvent) -> (r: Option<(PtyState, PtyEffect)>)
    ensures
        r == spec_pty_step(state, event),
{
    match (state, event) {
        (PtyState::Requested, PtyEvent::AllocSucceeded) => Some(
            (PtyState::Allocated, PtyEffect::SpawnShell),
        ),
        (PtyState::Requested, PtyEvent::AllocFailed) => Some(
            (PtyState::Closed, PtyEffect::FatalError),
        ),
        (PtyState::Allocated, PtyEvent::SpawnSucceeded) => Some(
            (PtyState::Running, PtyEffect::BridgeAndWait),
        ),
        (PtyState::Allocated, PtyEvent::SpawnFailed) => Some(
            (PtyState::Closed, PtyEffect::FatalError),
        ),
        (PtyState::Running, PtyEvent::ChildExited) => Some(
            (PtyState::Closed, PtyEffect::ReleaseAndReport),
        ),
        _ => None,
    }
}

/// One step of the controller's terminal handling around an interactive
/// session.
#[derive(Clone, Copy, PartialEq, Eq, Structural, Debug)]
pub enum TermAction {
    /// Snapshot the local terminal attributes and switch to raw mode.
    SetRaw,
    /// Bridge local stdin/stdout with the socket until a direction ends.
    Bridge,
    /// Restore the snapshotted attributes.
    RestoreSane,
}

/// A terminal plan puts the attribute restoration last whenever it switched
/// the terminal to raw mode, so the operator's terminal is never left raw.
pub open spec fn plan_restores(v: Seq<TermAction>) -> bool {
    v.contains(TermAction::SetRaw) ==> v.len() > 0 && v.last() == TermAction::RestoreSane
}

/// The controller's plan for one interactive session: with raw mode
/// requested, switch to raw, bridge, and — however the bridging ended —
/// restore the snapshotted attributes as the last action; without it, only
/// bridge.
pub fn shell_session_plan(raw: bool) -> (v: Vec<TermAction>)
    ensures
        raw ==> v@ == seq![TermAction::SetRaw, TermAction::Bridge, TermAction::RestoreSane],
        !raw ==> v@ == seq![TermAction::Bridge],
        plan_restores(v@),
{
    let mut v: Vec<TermAction> = Vec::new();
    if raw {
        v.push(TermAction::SetRaw);
        v.push(TermAction::Bridge);
        v.push(TermAction::RestoreSane);
        proof {
            assert(v@ =~= seq![TermAction::SetRaw, TermAction::Bridge, TermAction::RestoreSane]);
        }
    } else {
        v.push(TermAction::Bridge);
        proof {
            assert(v@ =~= seq![TermAction::Bridge]);
            assert(forall|i: int| 0 <= i < v@.len() ==> v@[i] != TermAction::SetRaw);
            assert(!v@.contains(TermAction::SetRaw));
        }
    }
    v
}

} // verus!
