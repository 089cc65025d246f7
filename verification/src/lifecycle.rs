use vstd::prelude::*;

verus! {

/// The states a connection passes through, in order, with one silent
/// terminal reachable only before the peer's identity is known.
#[derive(Clone, Copy, PartialEq, Eq, Structural, Debug)]
pub enum ConnState {
    Accepted,
    HandshakeComplete,
    HostMatched,
    RequestRead,
    RequestValidated,
    Dispatched,
    ResponseSent,
    Closed,
    Dropped,
}

/// What happens to a connection at each stage.
#[derive(Clone, Copy, PartialEq, Eq, Structural, Debug)]
pub enum ConnEvent {
    HandshakeDone,
    HandshakeFailed,
    HostFound,
    HostMissing,
    LineRead,
    ReadFailed,
    Validated,
    Refused,
    DispatchDone,
    WriteDone,
    WriteFailed,
    ShutdownDone,
}

/// One step of the connection lifecycle. Failures before host matching drop
/// the connection silently — no response is meaningful before the identity
/// is known; from then on every failure is answered with a best-effort
/// status before closing, and a transport write error is terminal. An event
/// that does not belong to the state leaves the state unchanged.
pub open spec fn spec_step(s: ConnState, e: ConnEvent) -> ConnState {
    match (s, e) {
        (ConnState::Accepted, ConnEvent::HandshakeDone) => ConnState::HandshakeComplete,
        (ConnState::Accepted, ConnEvent::HandshakeFailed) => ConnState::Dropped,
        (ConnState::HandshakeComplete, ConnEvent::HostFound) => ConnState::HostMatched,
        (ConnState::HandshakeComplete, ConnEvent::HostMissing) => ConnState::Dropped,
        (ConnState::HostMatched, ConnEvent::LineRead) => ConnState::RequestRead,
        (ConnState::HostMatched, ConnEvent::ReadFailed) => ConnState::ResponseSent,
        (ConnState::RequestRead, ConnEvent::Validated) => ConnState::RequestValidated,
        (ConnState::RequestRead, ConnEvent::Refused) => ConnState::ResponseSent,
        (ConnState::RequestValidated, ConnEvent::DispatchDone) => ConnState::Dispatched,
        (ConnState::Dispatched, ConnEvent::WriteDone) => ConnState::ResponseSent,
        (ConnState::Dispatched, ConnEvent::WriteFailed) => ConnState::Closed,
        (ConnState::ResponseSent, ConnEvent::ShutdownDone) => ConnState::Closed,
        _ => s,
    }
}

/// Advances the lifecycle, as `spec_step` describes.
pub fn step(s: ConnState, e: ConnEvent) -> (r: ConnState)
    ensures
        r == spec_step(s, e),
{
    match (s, e) {
        (ConnState::Accepted, ConnEvent::HandshakeDone) => ConnState::HandshakeComplete,
        (ConnState::Accepted, ConnEvent::HandshakeFailed) => ConnState::Dropped,
        (ConnState::HandshakeComplete, ConnEvent::HostFound) => ConnState::HostMatched,
        (ConnState::HandshakeComplete, ConnEvent::HostMissing) => ConnState::Dropped,
        (ConnState::HostMatched, ConnEvent::LineRead) => ConnState::RequestRead,
        (ConnState::HostMatched, ConnEvent::ReadFailed) => ConnState::ResponseSent,
        (ConnState::RequestRead, ConnEvent::Validated) => ConnState::RequestValidated,
        (ConnState::RequestRead, ConnEvent::Refused) => ConnState::ResponseSent,
        (ConnState::RequestValidated, ConnEvent::DispatchDone) => ConnState::Dispatched,
        (ConnState::Dispatched, ConnEvent::WriteDone) => ConnState::ResponseSent,
        (ConnState::Dispatched, ConnEvent::WriteFailed) => ConnState::Closed,
        (ConnState::ResponseSent, ConnEvent::ShutdownDone) => ConnState::Closed,
        _ => s,
    }
}

/// A connection becomes silently dropped only from the states before its
/// identity is known — acceptance, the handshake, host matching — never
/// once a request has been read.
pub proof fn lemma_dropped_only_before_identity(s: ConnState, e: ConnEvent)
    requires
        spec_step(s, e) == ConnState::Dropped,
    ensures
        s == ConnState::Accepted || s == ConnState::HandshakeComplete || s == ConnState::HostMatched
            || s == ConnState::Dropped,
{
}

/// The closed and dropped states are terminal: no event leaves them.
pub proof fn lemma_terminal_states(s: ConnState, e: ConnEvent)
    requires
        s == ConnState::Closed || s == ConnState::Dropped,
    ensures
        spec_step(s, e) == s,
{
}

/// From request reading onward a failure is answered, never silent: the read
/// and validation failures lead to the response-sent state, and only a
/// transport write failure closes without one.
pub proof fn lemma_failures_answered(s: ConnState, e: ConnEvent)
    requires
        e == ConnEvent::ReadFailed || e == ConnEvent::Refused,
    ensures
        spec_step(s, e) == ConnState::ResponseSent || spec_step(s, e) == s,
{
}

/// The broadcast shutdown signal: a single writer bumps a version, and every
/// reader observes only the latest version — past signals are never queued.
pub struct ShutdownSignal {
    version: u64,
}

impl ShutdownSignal {
    pub closed spec fn spec_version(self) -> u64 {
        self.version
    }

    pub fn new() -> (s: ShutdownSignal)
        ensures
            s.spec_version() == 0,
    {
        ShutdownSignal { version: 0 }
    }

    /// Broadcasts once more: the latest value replaces every earlier one.
    pub fn notify(&mut self)
        requires
            old(self).spec_version() < u64::MAX,
        ensures
            final(self).spec_version() == old(self).spec_version() + 1,
    {
        self.version = self.version + 1;
    }

    /// Whether a reader that last saw `seen` observes a change.
    pub fn changed(&self, seen: u64) -> (r: bool)
        ensures
            r == (self.spec_version() != seen),
    {
        self.version != seen
    }

    pub fn version(&self) -> (v: u64)
        ensures
            v == self.spec_version(),
    {
        self.version
    }
}

/// The process signals the server reacts to.
#[derive(Clone, Copy, PartialEq, Eq, Structural, Debug)]
pub enum SignalKind {
    Interrupt,
    Terminate,
    Hangup,
}

/// What a signal causes: shutdown with immediate exit, or shutdown followed
/// by a configuration reload.
#[derive(Clone, Copy, PartialEq, Eq, Structural, Debug)]
pub enum SignalAction {
    ShutdownExit,
    Reload,
}

/// Interrupt and terminate signals broadcast shutdown and exit at once; the
/// hangup signal broadcasts shutdown so that the configuration is re-read
/// and serving resumes.
pub fn signal_action(k: SignalKind) -> (r: SignalAction)
    ensures
        k == SignalKind::Interrupt || k == SignalKind::Terminate ==> r
            == SignalAction::ShutdownExit,
        k == SignalKind::Hangup ==> r == SignalAction::Reload,
{
    match k {
        SignalKind::Interrupt => SignalAction::ShutdownExit,
        SignalKind::Terminate => SignalAction::ShutdownExit,
        SignalKind::Hangup => SignalAction::Reload,
    }
}

/// What an accept loop does after waiting on either an accepted connection
/// or the shutdown signal.
#[derive(Clone, Copy, PartialEq, Eq, Structural, Debug)]
pub enum AcceptAction {
    ExitLoop,
    HandleConnection,
}

/// A changed shutdown signal ends the accept loop without draining in-flight
/// connections; otherwise the accepted connection is handed to its own task
/// so that one slow connection never blocks another.
pub fn accept_step(signal_changed: bool) -> (r: AcceptAction)
    ensures
        r == AcceptAction::ExitLoop <==> signal_changed,
{
    if signal_changed {
        AcceptAction::ExitLoop
    } else {
        AcceptAction::HandleConnection
    }
}

} // verus!
