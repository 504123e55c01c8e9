//! The life of a proxied connection, from the first byte to the last.
//!
//! As long as the compositor is there, messages pass both ways.  When it goes
//! away the connection freezes: the client stays connected and what it sends is
//! taken note of and dropped.  Once the compositor is back and the connection
//! recovered, messages pass again.
use vstd::prelude::*;

verus! {

/// How long to wait, in milliseconds, before trying again to reach a
/// compositor that is not there yet.
pub const RETRY_MILLIS: u64 = 250;

/// Where a connection stands.
#[derive(Debug, Clone, Copy, PartialEq, Eq, Structural)]
pub enum Phase {
    /// Messages pass both ways.
    Relaying,
    /// The compositor is gone.
    Frozen,
    /// The compositor is back, and state is being recovered.
    Recovering,
}

/// What happened on a connection.
#[derive(Debug, Clone, Copy, PartialEq, Eq, Structural)]
pub enum ConnectionEvent {
    /// Bytes arrived from the client.
    ClientData,
    /// The client disconnected, or reading from it failed.
    ClientGone,
    /// Bytes arrived from the host.
    HostData,
    /// The host disconnected, or reading from it failed.
    HostGone,
    /// A fresh host connection was made.
    Reconnected,
    /// State was recovered on it.
    Recovered,
    /// It died before state was recovered.
    RecoveryFailed,
}

/// What to do about it.
#[derive(Debug, Clone, Copy, PartialEq, Eq, Structural)]
pub enum ConnectionAction {
    /// Relay what the client sent; `frozen` says that there is no host.
    RelayFromClient { frozen: bool },
    /// Relay what the host sent.
    RelayFromHost,
    /// Nothing but to wait.
    Wait,
    /// Enter a new generation of the shadow table and recover state.
    Recover,
    /// Release grabs, then let messages pass again and notify the user.
    Resume,
    /// Wait a moment, then try to reach the host again.
    RetryLater,
    /// End the connection.
    Finish,
}

/// The next phase, and what to do.
pub open spec fn reaction(phase: Phase, event: ConnectionEvent) -> (Phase, ConnectionAction) {
    match (phase, event) {
        (Phase::Relaying, ConnectionEvent::ClientData) => (
            Phase::Relaying,
            ConnectionAction::RelayFromClient { frozen: false },
        ),
        (Phase::Frozen, ConnectionEvent::ClientData) => (
            Phase::Frozen,
            ConnectionAction::RelayFromClient { frozen: true },
        ),
        (_, ConnectionEvent::ClientGone) => (phase, ConnectionAction::Finish),
        (Phase::Relaying, ConnectionEvent::HostData) => (
            Phase::Relaying,
            ConnectionAction::RelayFromHost,
        ),
        (Phase::Relaying, ConnectionEvent::HostGone) => (Phase::Frozen, ConnectionAction::Wait),
        (Phase::Frozen, ConnectionEvent::Reconnected) => (
            Phase::Recovering,
            ConnectionAction::Recover,
        ),
        (Phase::Recovering, ConnectionEvent::Recovered) => (
            Phase::Relaying,
            ConnectionAction::Resume,
        ),
        (Phase::Recovering, ConnectionEvent::RecoveryFailed) => (
            Phase::Frozen,
            ConnectionAction::RetryLater,
        ),
        _ => (phase, ConnectionAction::Wait),
    }
}

/// Follows a connection through its life.
pub struct Lifecycle {
    phase: Phase,
}

impl View for Lifecycle {
    type V = Phase;

    closed spec fn view(&self) -> Phase {
        self.phase
    }
}

impl Lifecycle {
    /// A connection with both sides present.
    pub fn new() -> (r: Lifecycle)
        ensures
            r@ == Phase::Relaying,
    {
        Lifecycle { phase: Phase::Relaying }
    }

    /// Whether to listen to the host.
    pub fn wants_host(&self) -> (r: bool)
        ensures
            r == (self@ is Relaying),
    {
        matches!(self.phase, Phase::Relaying)
    }

    /// Whether to try to reach the host again.
    pub fn wants_reconnect(&self) -> (r: bool)
        ensures
            r == (self@ is Frozen),
    {
        matches!(self.phase, Phase::Frozen)
    }

    /// Reacts to what happened.
    pub fn react(&mut self, event: ConnectionEvent) -> (r: ConnectionAction)
        ensures
            (final(self)@, r) == reaction(old(self)@, event),
    {
        let (phase, action) = match (self.phase, event) {
            (Phase::Relaying, ConnectionEvent::ClientData) => (
                Phase::Relaying,
                ConnectionAction::RelayFromClient { frozen: false },
            ),
            (Phase::Frozen, ConnectionEvent::ClientData) => (
                Phase::Frozen,
                ConnectionAction::RelayFromClient { frozen: true },
            ),
            (phase, ConnectionEvent::ClientGone) => (phase, ConnectionAction::Finish),
            (Phase::Relaying, ConnectionEvent::HostData) => (
                Phase::Relaying,
                ConnectionAction::RelayFromHost,
            ),
            (Phase::Relaying, ConnectionEvent::HostGone) => (
                Phase::Frozen,
                ConnectionAction::Wait,
            ),
            (Phase::Frozen, ConnectionEvent::Reconnected) => (
                Phase::Recovering,
                ConnectionAction::Recover,
            ),
            (Phase::Recovering, ConnectionEvent::Recovered) => (
                Phase::Relaying,
                ConnectionAction::Resume,
            ),
            (Phase::Recovering, ConnectionEvent::RecoveryFailed) => (
                Phase::Frozen,
                ConnectionAction::RetryLater,
            ),
            (phase, _) => (phase, ConnectionAction::Wait),
        };
        self.phase = phase;
        action
    }
}

/// Losing the compositor never costs the client its connection: only the
/// client's own leaving ends it.
pub proof fn lemma_only_the_client_ends_it(phase: Phase, event: ConnectionEvent)
    ensures
        reaction(phase, event).1 is Finish <==> event is ClientGone,
{
}

/// While frozen, nothing is relayed to or from the host, and the only way back
/// is through a recovery that succeeded.
pub proof fn lemma_frozen_until_recovered(phase: Phase, event: ConnectionEvent)
    ensures
        reaction(phase, event).1 is RelayFromHost ==> phase is Relaying,
        reaction(phase, event).1 == (ConnectionAction::RelayFromClient { frozen: false }) ==> phase
            is Relaying,
        reaction(phase, event).0 is Relaying && !(phase is Relaying) ==> phase is Recovering
            && event is Recovered && reaction(phase, event).1 is Resume,
{
}

/// One message on its way into a socket, which may take it in pieces.
pub struct MessageWrite {
    len: usize,
    sent: usize,
}

/// How far a message has gone.
pub struct WriteModel {
    pub len: usize,
    pub sent: usize,
}

impl View for MessageWrite {
    type V = WriteModel;

    closed spec fn view(&self) -> WriteModel {
        WriteModel { len: self.len, sent: self.sent }
    }
}

impl MessageWrite {
    /// A message of `len` bytes, none of them sent yet.
    pub fn new(len: usize) -> (r: MessageWrite)
        ensures
            r@ == (WriteModel { len, sent: 0 }),
    {
        MessageWrite { len, sent: 0 }
    }

    /// Where the next piece starts, and whether the descriptors go with it:
    /// they ride with the first byte and must not be attached again.  `None`
    /// once everything was sent.
    pub fn next_piece(&self) -> (r: Option<(usize, bool)>)
        ensures
            r == (if self@.sent < self@.len {
                Some((self@.sent, self@.sent == 0))
            } else {
                None
            }),
    {
        if self.sent < self.len {
            Some((self.sent, self.sent == 0))
        } else {
            None
        }
    }

    /// `n` more bytes were taken.
    pub fn wrote(&mut self, n: usize)
        requires
            old(self)@.sent + n <= old(self)@.len,
        ensures
            final(self)@.len == old(self)@.len,
            final(self)@.sent == old(self)@.sent + n,
    {
        self.sent = self.sent + n;
    }
}

} // verus!
