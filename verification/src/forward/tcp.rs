//! TCP port forwarding.
//!
//! * local-tcp  — connections to a local port go to a remote Yggdrasil address
//!   through the netstack.
//! * remote-tcp — connections to a netstack port on the node's own address go to
//!   a local address.
use vstd::prelude::*;
use crate::addr::{Endpoint, SocketAddr, socket_text};
use crate::mapping::TcpMapping;
use crate::stats::{
    ConnGuard, Entry, EntryId, ListenerStatsRegistry, change, closed, opened, registered,
};
use crate::text::{dec_text, owned, push_decimal, push_text};

verus! {

// ── Keys ──────────────────────────────────────────────────────────────────────

/// Registry key of a local-tcp mapping.
pub open spec fn local_tcp_key_text(listen: Endpoint, target: Endpoint) -> Seq<char> {
    "ltcp:"@ + socket_text(listen) + "->"@ + socket_text(target)
}

/// Registry key of a remote-tcp mapping.
pub open spec fn remote_tcp_key_text(listen: Endpoint, target: Endpoint) -> Seq<char> {
    "rtcp:"@ + dec_text(listen.port) + "->"@ + socket_text(target)
}

/// Registry key of a local-tcp mapping (`ltcp:<listen>-><target>`).
pub fn local_tcp_key(mapping: &TcpMapping) -> (r: String)
    ensures
        r@ == local_tcp_key_text(mapping.listen@, mapping.target@),
{
    let mut r = owned("ltcp:");
    push_text(&mut r, mapping.listen.to_text().as_str());
    push_text(&mut r, "->");
    push_text(&mut r, mapping.target.to_text().as_str());
    r
}

/// Registry key of a remote-tcp mapping (`rtcp:<port>-><target>`).
pub fn remote_tcp_key(mapping: &TcpMapping) -> (r: String)
    ensures
        r@ == remote_tcp_key_text(mapping.listen@, mapping.target@),
{
    let mut r = owned("rtcp:");
    push_decimal(&mut r, mapping.listen.port as u64);
    push_text(&mut r, "->");
    push_text(&mut r, mapping.target.to_text().as_str());
    r
}

// ── The forwarder ─────────────────────────────────────────────────────────────

/// How far a forwarder has come.
#[derive(Clone, Copy)]
pub enum TcpPhase {
    /// It does not listen yet.
    Starting,
    /// It accepts connections.
    Accepting,
    /// It has come to an end.
    Stopped,
}

/// What happened to a forwarder.
#[derive(Clone, Copy)]
pub enum TcpEvent {
    /// It listens.
    Bound,
    /// It could not listen.
    BindFailed,
    /// A connection came in.
    Accepted,
    /// A connection could not be accepted.
    AcceptFailed,
    /// It is to stop.
    Stop,
}

/// What a forwarder does next.
#[derive(Clone, Copy)]
pub enum TcpAction {
    /// Wait for the next connection.
    Accept,
    /// Relay the connection to the target in a task of its own, and wait for the
    /// next one.
    Relay { target: SocketAddr },
    /// Nothing: the event does not belong here.
    Ignore,
    /// Come to an end.
    Exit,
}

/// What an event leads to: the next phase, the action, and whether the registry
/// entry is dropped.
pub open spec fn tcp_next(phase: TcpPhase, target: SocketAddr, event: TcpEvent) -> (
    TcpPhase,
    TcpAction,
    bool,
) {
    match (phase, event) {
        (TcpPhase::Stopped, _) => (phase, TcpAction::Exit, false),
        (_, TcpEvent::Stop) => (TcpPhase::Stopped, TcpAction::Exit, true),
        (TcpPhase::Starting, TcpEvent::Bound) => (TcpPhase::Accepting, TcpAction::Accept, false),
        (TcpPhase::Starting, TcpEvent::BindFailed) => (TcpPhase::Stopped, TcpAction::Exit, true),
        (TcpPhase::Accepting, TcpEvent::Accepted) => (
            phase,
            TcpAction::Relay { target },
            false,
        ),
        (TcpPhase::Accepting, TcpEvent::AcceptFailed) => (phase, TcpAction::Accept, false),
        _ => (phase, TcpAction::Ignore, false),
    }
}

/// A TCP forwarder.
pub struct TcpForwarder {
    phase: TcpPhase,
    listen: SocketAddr,
    target: SocketAddr,
    key: String,
    entry: EntryId,
}

/// Start a local-tcp forwarder: register it under its key. The connections that
/// come in where the mapping listens go to its target.
pub fn spawn_local_tcp(mapping: TcpMapping, registry: &mut ListenerStatsRegistry) -> (r:
    TcpForwarder)
    requires
        old(registry).wf(),
        old(registry).next() < u64::MAX,
    ensures
        final(registry).wf(),
        final(registry)@ == registered(
            old(registry)@,
            old(registry).next(),
            local_tcp_key_text(mapping.listen@, mapping.target@),
            "local-tcp"@,
            socket_text(mapping.listen@),
            socket_text(mapping.target@),
        ),
        r.phase() is Starting,
        r.listens_on() == mapping.listen,
        r.target() == mapping.target,
        r.key_text() == local_tcp_key_text(mapping.listen@, mapping.target@),
        r.num() == final(registry)@[r.key_text()].id,
        final(registry).next() == old(registry).next() + if old(registry)@.contains_key(
            r.key_text(),
        ) {
            0int
        } else {
            1int
        },
{
    let key = local_tcp_key(&mapping);
    let listen = mapping.listen.to_text();
    let target = mapping.target.to_text();
    let entry = registry.entry(key.as_str(), "local-tcp", listen.as_str(), target.as_str());
    TcpForwarder {
        phase: TcpPhase::Starting,
        listen: mapping.listen,
        target: mapping.target,
        key,
        entry,
    }
}

/// Start a remote-tcp forwarder: register it under its key. The connections that
/// come in on the mapping's port of the node's own address go to its target.
pub fn spawn_remote_tcp(mapping: TcpMapping, registry: &mut ListenerStatsRegistry) -> (r:
    TcpForwarder)
    requires
        old(registry).wf(),
        old(registry).next() < u64::MAX,
    ensures
        final(registry).wf(),
        final(registry)@ == registered(
            old(registry)@,
            old(registry).next(),
            remote_tcp_key_text(mapping.listen@, mapping.target@),
            "remote-tcp"@,
            "ygg:"@ + dec_text(mapping.listen.port as nat),
            socket_text(mapping.target@),
        ),
        r.phase() is Starting,
        r.listens_on() == mapping.listen,
        r.target() == mapping.target,
        r.key_text() == remote_tcp_key_text(mapping.listen@, mapping.target@),
        r.num() == final(registry)@[r.key_text()].id,
        final(registry).next() == old(registry).next() + if old(registry)@.contains_key(
            r.key_text(),
        ) {
            0int
        } else {
            1int
        },
{
    let key = remote_tcp_key(&mapping);
    let mut listen = owned("ygg:");
    push_decimal(&mut listen, mapping.listen.port as u64);
    let target = mapping.target.to_text();
    let entry = registry.entry(key.as_str(), "remote-tcp", listen.as_str(), target.as_str());
    TcpForwarder {
        phase: TcpPhase::Starting,
        listen: mapping.listen,
        target: mapping.target,
        key,
        entry,
    }
}

impl TcpForwarder {
    /// How far it has come.
    pub closed spec fn phase(&self) -> TcpPhase {
        self.phase
    }

    /// Where connections go.
    pub closed spec fn target(&self) -> SocketAddr {
        self.target
    }

    /// Where it listens.
    pub closed spec fn listens_on(&self) -> SocketAddr {
        self.listen
    }

    /// The key that it is registered under.
    pub closed spec fn key_text(&self) -> Seq<char> {
        self.key@
    }

    /// The number of its entry.
    pub closed spec fn num(&self) -> nat {
        self.entry.num()
    }

    /// The key that it is registered under.
    pub fn key(&self) -> (r: String)
        ensures
            r@ == self.key_text(),
    {
        owned(self.key.as_str())
    }

    /// Where it listens: a local address, or a port of the node's own address.
    pub fn listen(&self) -> (r: SocketAddr)
        ensures
            r == self.listens_on(),
    {
        self.listen
    }

    /// The entry that its connections count on.
    pub fn entry(&self) -> (r: EntryId)
        ensures
            r.num() == self.num(),
    {
        self.entry
    }

    /// What to do after an event.
    pub fn step(&mut self, registry: &mut ListenerStatsRegistry, event: TcpEvent) -> (r: TcpAction)
        requires
            old(registry).wf(),
        ensures
            final(registry).wf(),
            final(registry).next() == old(registry).next(),
            (final(self).phase(), r) == ({
                let n = tcp_next(old(self).phase(), old(self).target(), event);
                (n.0, n.1)
            }),
            final(registry)@ == if tcp_next(old(self).phase(), old(self).target(), event).2 {
                old(registry)@.remove(old(self).key_text())
            } else {
                old(registry)@
            },
            final(self).target() == old(self).target(),
            final(self).listens_on() == old(self).listens_on(),
            final(self).key_text() == old(self).key_text(),
            final(self).num() == old(self).num(),
    {
        match (self.phase, event) {
            (TcpPhase::Stopped, _) => TcpAction::Exit,
            (_, TcpEvent::Stop) => {
                registry.remove(self.key.as_str());
                self.phase = TcpPhase::Stopped;
                TcpAction::Exit
            },
            (TcpPhase::Starting, TcpEvent::Bound) => {
                self.phase = TcpPhase::Accepting;
                TcpAction::Accept
            },
            (TcpPhase::Starting, TcpEvent::BindFailed) => {
                registry.remove(self.key.as_str());
                self.phase = TcpPhase::Stopped;
                TcpAction::Exit
            },
            (TcpPhase::Accepting, TcpEvent::Accepted) => TcpAction::Relay { target: self.target },
            (TcpPhase::Accepting, TcpEvent::AcceptFailed) => TcpAction::Accept,
            _ => TcpAction::Ignore,
        }
    }
}

// ── Relayed connections ───────────────────────────────────────────────────────

/// How far a relayed connection has come.
#[derive(Clone, Copy)]
pub enum RelayPhase {
    /// The connection to the target is being made.
    Connecting,
    /// Bytes are copied in both directions.
    Copying,
    /// It is over.
    Over,
}

/// What happened to a relayed connection.
#[derive(Clone, Copy)]
pub enum RelayEvent {
    /// The target was reached.
    Connected,
    /// The target was not reached.
    ConnectFailed,
    /// The target was not reached in time.
    ConnectTimedOut,
    /// One of the two copies came to an end, whichever way.
    CopyEnded,
    /// The forwarder stops.
    Stop,
}

/// What a relayed connection does next.
#[derive(Clone, Copy)]
pub enum RelayAction {
    /// Copy what comes from the Yggdrasil leg to the other, counted as received,
    /// and what comes from the other to the Yggdrasil leg, counted as sent.
    Copy,
    /// Close both connections.
    Close,
    /// Close the connection, and report why the target was not reached.
    Fail,
    /// Close the connection, and report that the local connect timed out.
    FailTimedOut,
    /// Nothing: the event does not belong here.
    Ignore,
}

/// What an event leads to: the next phase and the action.
pub open spec fn relay_next(phase: RelayPhase, event: RelayEvent) -> (RelayPhase, RelayAction) {
    match (phase, event) {
        (RelayPhase::Connecting, RelayEvent::Connected) => (RelayPhase::Copying, RelayAction::Copy),
        (RelayPhase::Connecting, RelayEvent::ConnectFailed) => (
            RelayPhase::Over,
            RelayAction::Fail,
        ),
        (RelayPhase::Connecting, RelayEvent::ConnectTimedOut) => (
            RelayPhase::Over,
            RelayAction::FailTimedOut,
        ),
        (RelayPhase::Copying, RelayEvent::CopyEnded) => (RelayPhase::Over, RelayAction::Close),
        (RelayPhase::Copying, RelayEvent::Stop) => (RelayPhase::Over, RelayAction::Close),
        _ => (phase, RelayAction::Ignore),
    }
}

/// The report on a local connect that timed out.
pub const LOCAL_CONNECT_TIMED_OUT: &'static str = "local connect timed out";

/// A connection between a client and the forwarding's target. It counts as
/// active until it is over.
pub struct TcpRelay {
    phase: RelayPhase,
    guard: ConnGuard,
}

impl TcpRelay {
    /// How far it has come.
    pub closed spec fn phase(&self) -> RelayPhase {
        self.phase
    }

    /// The number of its entry.
    pub closed spec fn num(&self) -> nat {
        self.guard.num()
    }

    /// It counts as active exactly until it is over.
    pub closed spec fn wf(&self) -> bool {
        self.guard.held() <==> !(self.phase is Over)
    }

    /// A connection came in: it counts as opened, and the target is to be
    /// reached.
    pub fn new(registry: &mut ListenerStatsRegistry, entry: EntryId) -> (r: Self)
        requires
            old(registry).wf(),
        ensures
            final(registry).wf(),
            final(registry)@ == change(old(registry)@, entry.num(), |e: Entry| opened(e)),
            final(registry).next() == old(registry).next(),
            r.wf(),
            r.phase() is Connecting,
            r.num() == entry.num(),
    {
        let guard = ConnGuard::new(registry, entry);
        TcpRelay { phase: RelayPhase::Connecting, guard }
    }

    /// What to do after an event. A connection that is over counts as closed.
    pub fn step(&mut self, registry: &mut ListenerStatsRegistry, event: RelayEvent) -> (r:
        RelayAction)
        requires
            old(self).wf(),
            old(registry).wf(),
        ensures
            final(self).wf(),
            final(registry).wf(),
            final(registry).next() == old(registry).next(),
            (final(self).phase(), r) == relay_next(old(self).phase(), event),
            final(registry)@ == if !(old(self).phase() is Over) && final(self).phase() is Over {
                change(old(registry)@, old(self).num(), |e: Entry| closed(e))
            } else {
                old(registry)@
            },
            final(self).num() == old(self).num(),
    {
        let (phase, action) = match (self.phase, event) {
            (RelayPhase::Connecting, RelayEvent::Connected) => (
                RelayPhase::Copying,
                RelayAction::Copy,
            ),
            (RelayPhase::Connecting, RelayEvent::ConnectFailed) => (
                RelayPhase::Over,
                RelayAction::Fail,
            ),
            (RelayPhase::Connecting, RelayEvent::ConnectTimedOut) => (
                RelayPhase::Over,
                RelayAction::FailTimedOut,
            ),
            (RelayPhase::Copying, RelayEvent::CopyEnded) => (RelayPhase::Over, RelayAction::Close),
            (RelayPhase::Copying, RelayEvent::Stop) => (RelayPhase::Over, RelayAction::Close),
            _ => (self.phase, RelayAction::Ignore),
        };
        self.phase = phase;
        if let RelayPhase::Over = phase {
            self.guard.release(registry);
        }
        action
    }

    /// The connection is given up, however far it has come.
    pub fn abandon(&mut self, registry: &mut ListenerStatsRegistry)
        requires
            old(self).wf(),
            old(registry).wf(),
        ensures
            final(self).wf(),
            final(self).phase() is Over,
            final(registry).wf(),
            final(registry).next() == old(registry).next(),
            final(registry)@ == if old(self).phase() is Over {
                old(registry)@
            } else {
                change(old(registry)@, old(self).num(), |e: Entry| closed(e))
            },
            final(self).num() == old(self).num(),
    {
        self.phase = RelayPhase::Over;
        self.guard.release(registry);
    }
}

} // verus!
