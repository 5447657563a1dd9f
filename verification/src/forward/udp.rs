//! UDP port forwarding.
//!
//! * local-udp  — datagrams that come in on a local socket go to a remote
//!   Yggdrasil address through the netstack.
//! * remote-udp — datagrams that come in on a netstack socket go to a local
//!   address.
//!
//! Every peer that sends something gets a session: a socket of its own, and a
//! listener that takes the replies back to it.
use vstd::prelude::*;
use crate::addr::{Endpoint, SocketAddr, socket_text};
use crate::forward::table::PeerTable;
use crate::mapping::UdpMapping;
use crate::stats::{
    ConnGuard, Dir, Entry, EntryId, ListenerStatsRegistry, change, closed, opened, registered,
    registry_after, relayed,
};
use crate::text::{dec_text, owned, push_decimal, push_text};

verus! {

/// Session timeout: sessions that are idle for this many seconds are evicted.
pub const SESSION_TTL_SECS: u64 = 30;

/// Seconds between two evictions.
pub const EVICT_TIMER_SECS: u64 = 10;

/// Nanoseconds of the session timeout.
pub const SESSION_TTL_NANOS: u64 = SESSION_TTL_SECS * 1_000_000_000;

// ── Keys ──────────────────────────────────────────────────────────────────────

/// Registry key of a local-udp mapping.
pub open spec fn local_udp_key_text(listen: Endpoint, target: Endpoint) -> Seq<char> {
    "ludp:"@ + socket_text(listen) + "->"@ + socket_text(target)
}

/// Registry key of a remote-udp mapping.
pub open spec fn remote_udp_key_text(listen: Endpoint, target: Endpoint) -> Seq<char> {
    "rudp:"@ + dec_text(listen.port) + "->"@ + socket_text(target)
}

/// Registry key of a local-udp mapping (`ludp:<listen>-><target>`).
pub fn local_udp_key(mapping: &UdpMapping) -> (r: String)
    ensures
        r@ == local_udp_key_text(mapping.listen@, mapping.target@),
{
    let mut r = owned("ludp:");
    push_text(&mut r, mapping.listen.to_text().as_str());
    push_text(&mut r, "->");
    push_text(&mut r, mapping.target.to_text().as_str());
    r
}

/// Registry key of a remote-udp mapping (`rudp:<port>-><target>`).
pub fn remote_udp_key(mapping: &UdpMapping) -> (r: String)
    ensures
        r@ == remote_udp_key_text(mapping.listen@, mapping.target@),
{
    let mut r = owned("rudp:");
    push_decimal(&mut r, mapping.listen.port as u64);
    push_text(&mut r, "->");
    push_text(&mut r, mapping.target.to_text().as_str());
    r
}

// ── Sessions ──────────────────────────────────────────────────────────────────

/// A peer's session: the socket that carries its datagrams on, when it was last
/// active, and the listener that takes replies back, where one runs.
#[derive(Clone, Copy)]
pub struct UdpSession {
    pub socket: u64,
    pub last_active: u64,
    pub listener: Option<u64>,
}

/// Whether a session has been idle for the session timeout.
pub open spec fn stale(s: UdpSession, now: nat) -> bool {
    s.last_active + SESSION_TTL_NANOS <= now
}

/// The sessions that are not stale.
pub open spec fn fresh(m: Map<Endpoint, UdpSession>, now: nat) -> Map<Endpoint, UdpSession> {
    Map::new(|k: Endpoint| m.contains_key(k) && !stale(m[k], now), |k: Endpoint| m[k])
}

/// Whether a listener belongs to one of the sessions.
pub open spec fn listens(m: Map<Endpoint, UdpSession>, task: u64) -> bool {
    exists|k: Endpoint| #[trigger] m.contains_key(k) && m[k].listener == Some(task)
}

/// Whether a listener belongs to one of the stale sessions.
pub open spec fn listens_stale(m: Map<Endpoint, UdpSession>, now: nat, task: u64) -> bool {
    exists|k: Endpoint| #[trigger]
        m.contains_key(k) && stale(m[k], now) && m[k].listener == Some(task)
}

/// Take the stale sessions out of a table. The result holds the listeners that
/// have to be aborted.
pub fn evict_stale(sessions: &mut PeerTable<UdpSession>, now: u64) -> (aborted: Vec<u64>)
    requires
        old(sessions).wf(),
    ensures
        final(sessions).wf(),
        final(sessions)@ == fresh(old(sessions)@, now as nat),
        forall|t: u64| #[trigger]
            aborted@.contains(t) <==> listens_stale(old(sessions)@, now as nat, t),
{
    let ghost m = sessions@;
    let mut aborted: Vec<u64> = Vec::new();
    let mut kept: PeerTable<UdpSession> = PeerTable::new();
    let mut done = false;
    while !done
        invariant
            sessions.wf(),
            kept.wf(),
            forall|k: Endpoint| #[trigger]
                sessions@.contains_key(k) ==> m.contains_key(k) && sessions@[k] == m[k],
            forall|k: Endpoint| #[trigger]
                kept@.contains_key(k) <==> m.contains_key(k) && !sessions@.contains_key(k)
                    && !stale(m[k], now as nat),
            forall|k: Endpoint| #[trigger] kept@.contains_key(k) ==> kept@[k] == m[k],
            forall|t: u64| #[trigger]
                aborted@.contains(t) ==> listens_stale(m, now as nat, t),
            forall|k: Endpoint| #[trigger]
                m.contains_key(k) && !sessions@.contains_key(k) && stale(m[k], now as nat)
                    && m[k].listener is Some ==> aborted@.contains(m[k].listener->0),
            done ==> sessions@ == Map::<Endpoint, UdpSession>::empty(),
        decreases
            sessions.size(),
            if done {
                0int
            } else {
                1int
            },
    {
        let ghost before = sessions@;
        let ghost tasks = aborted@;
        match sessions.pop() {
            Some((peer, s)) => {
                assert(m.contains_key(peer@));
                if now >= s.last_active && now - s.last_active >= SESSION_TTL_NANOS {
                    if let Some(t) = s.listener {
                        aborted.push(t);
                        assert(aborted@[tasks.len() as int] == t);
                        assert forall|u: u64| #[trigger] aborted@.contains(u) implies listens_stale(
                            m,
                            now as nat,
                            u,
                        ) by {
                            if u != t {
                                let i = choose|i: int| 0 <= i < aborted@.len() && aborted@[i] == u;
                                assert(tasks[i] == u);
                                assert(tasks.contains(u));
                            }
                        }
                        assert forall|k: Endpoint| #[trigger]
                            m.contains_key(k) && !sessions@.contains_key(k) && stale(
                                m[k],
                                now as nat,
                            ) && m[k].listener is Some implies aborted@.contains(
                            m[k].listener->0,
                        ) by {
                            if k != peer@ {
                                assert(!before.contains_key(k));
                                let u = m[k].listener->0;
                                assert(tasks.contains(u));
                                let i = choose|i: int| 0 <= i < tasks.len() && tasks[i] == u;
                                assert(aborted@[i] == u);
                            }
                        }
                    }
                } else {
                    kept.insert(peer, s);
                }
            },
            None => {
                done = true;
            },
        }
    }
    *sessions = kept;
    proof {
        assert(sessions@ =~= fresh(m, now as nat));
        assert forall|t: u64| #[trigger]
            aborted@.contains(t) <==> listens_stale(m, now as nat, t) by {
            if listens_stale(m, now as nat, t) {
                let k = choose|k: Endpoint| #[trigger]
                    m.contains_key(k) && stale(m[k], now as nat) && m[k].listener == Some(t);
                assert(aborted@.contains(m[k].listener->0));
            }
        }
    }
    aborted
}

/// Take every session out of a table. The result holds the listeners that have
/// to be aborted.
pub fn abort_all_sessions(sessions: &mut PeerTable<UdpSession>) -> (aborted: Vec<u64>)
    requires
        old(sessions).wf(),
    ensures
        final(sessions).wf(),
        final(sessions)@ == Map::<Endpoint, UdpSession>::empty(),
        forall|t: u64| #[trigger] aborted@.contains(t) <==> listens(old(sessions)@, t),
{
    let ghost m = sessions@;
    let mut aborted: Vec<u64> = Vec::new();
    let mut done = false;
    while !done
        invariant
            sessions.wf(),
            forall|k: Endpoint| #[trigger]
                sessions@.contains_key(k) ==> m.contains_key(k) && sessions@[k] == m[k],
            forall|t: u64| #[trigger] aborted@.contains(t) ==> listens(m, t),
            forall|k: Endpoint| #[trigger]
                m.contains_key(k) && !sessions@.contains_key(k) && m[k].listener is Some
                    ==> aborted@.contains(m[k].listener->0),
            done ==> sessions@ == Map::<Endpoint, UdpSession>::empty(),
        decreases
            sessions.size(),
            if done {
                0int
            } else {
                1int
            },
    {
        let ghost before = sessions@;
        let ghost tasks = aborted@;
        match sessions.pop() {
            Some((peer, s)) => {
                assert(m.contains_key(peer@));
                if let Some(t) = s.listener {
                    aborted.push(t);
                    assert(aborted@[tasks.len() as int] == t);
                    assert forall|u: u64| #[trigger] aborted@.contains(u) implies listens(m, u) by {
                        if u != t {
                            let i = choose|i: int| 0 <= i < aborted@.len() && aborted@[i] == u;
                            assert(tasks[i] == u);
                            assert(tasks.contains(u));
                        }
                    }
                    assert forall|k: Endpoint| #[trigger]
                        m.contains_key(k) && !sessions@.contains_key(k)
                            && m[k].listener is Some implies aborted@.contains(m[k].listener->0) by {
                        if k != peer@ {
                            assert(!before.contains_key(k));
                            let u = m[k].listener->0;
                            assert(tasks.contains(u));
                            let i = choose|i: int| 0 <= i < tasks.len() && tasks[i] == u;
                            assert(aborted@[i] == u);
                        }
                    }
                }
            },
            None => {
                done = true;
            },
        }
    }
    proof {
        assert forall|t: u64| #[trigger] aborted@.contains(t) <==> listens(m, t) by {
            if listens(m, t) {
                let k = choose|k: Endpoint| #[trigger]
                    m.contains_key(k) && m[k].listener == Some(t);
                assert(aborted@.contains(m[k].listener->0));
            }
        }
    }
    aborted
}

// ── The forwarder ─────────────────────────────────────────────────────────────

/// On which side datagrams come in.
#[derive(Clone, Copy)]
pub enum Side {
    /// On a local socket; they go to Yggdrasil.
    Local,
    /// On a netstack socket; they go to a local address.
    Remote,
}

/// What a forwarder is waiting for.
#[derive(Clone, Copy)]
pub enum UdpPhase {
    /// Its socket to be bound.
    Starting,
    /// The next datagram.
    Waiting,
    /// A socket for the sender of a datagram of this length.
    Opening { from: SocketAddr, len: usize },
    /// A datagram to be sent on.
    Sending { from: SocketAddr, len: usize, socket: u64, need_listener: bool },
    /// A listener to run.
    Listening { from: SocketAddr },
    /// Nothing any more.
    Stopped,
}

/// What happened to a forwarder.
#[derive(Clone, Copy)]
pub enum UdpEvent {
    /// Its socket was bound.
    Bound,
    /// Its socket could not be bound.
    BindFailed,
    /// A datagram came in. `listener_finished` says whether the listener of its
    /// sender's session, where there is one, has come to an end.
    Datagram { from: SocketAddr, len: usize, now: u64, listener_finished: bool },
    /// Receiving failed.
    ReceiveFailed,
    /// A socket was opened for a sender.
    Opened { socket: u64, now: u64 },
    /// No socket could be opened for a sender.
    OpenFailed,
    /// The datagram was sent on.
    Sent,
    /// The datagram could not be sent on.
    SendFailed,
    /// The listener of the sender's session runs.
    ListenerStarted { task: u64 },
}

/// What a forwarder does next.
#[derive(Clone, Copy)]
pub enum UdpAction {
    /// Wait for the next datagram.
    Receive,
    /// Open a socket for a sender.
    Open { from: SocketAddr },
    /// Send the first so many bytes of the datagram on.
    Send { socket: u64, to: SocketAddr, len: usize },
    /// Run a listener on a socket, for a peer.
    Listen { socket: u64, peer: SocketAddr },
    /// Nothing: the event does not belong here.
    Ignore,
    /// Come to an end.
    Exit,
}

/// The state of a forwarder.
pub ghost struct UdpState {
    pub side: Side,
    pub target: SocketAddr,
    pub phase: UdpPhase,
    pub sessions: Map<Endpoint, UdpSession>,
}

/// What an event leads to: the next state, the action, the bytes that count and
/// whether the registry entry is dropped.
pub ghost struct UdpOutcome {
    pub state: UdpState,
    pub action: UdpAction,
    pub counted: Option<(Dir, nat)>,
    pub dropped: bool,
}

/// A new phase and an action, with nothing counted or dropped.
pub open spec fn udp_goes(s: UdpState, phase: UdpPhase, action: UdpAction) -> UdpOutcome {
    UdpOutcome { state: UdpState { phase, ..s }, action, counted: None, dropped: false }
}

/// A datagram goes on to the target.
pub open spec fn udp_sends(
    s: UdpState,
    from: SocketAddr,
    len: usize,
    session: UdpSession,
    need_listener: bool,
) -> UdpOutcome {
    udp_goes(
        UdpState { sessions: s.sessions.insert(from@, session), ..s },
        UdpPhase::Sending { from, len, socket: session.socket, need_listener },
        UdpAction::Send { socket: session.socket, to: s.target, len },
    )
}

/// After a datagram was sent on: a listener where one is needed, else the next
/// datagram.
pub open spec fn udp_sent(
    s: UdpState,
    from: SocketAddr,
    socket: u64,
    need_listener: bool,
) -> UdpOutcome {
    if need_listener {
        udp_goes(s, UdpPhase::Listening { from }, UdpAction::Listen { socket, peer: from })
    } else {
        udp_goes(s, UdpPhase::Waiting, UdpAction::Receive)
    }
}

/// What an event leads to.
pub open spec fn udp_next(s: UdpState, event: UdpEvent) -> UdpOutcome {
    match (s.phase, event) {
        (UdpPhase::Starting, UdpEvent::Bound) => udp_goes(
            s,
            UdpPhase::Waiting,
            UdpAction::Receive,
        ),
        (UdpPhase::Starting, UdpEvent::BindFailed) => UdpOutcome {
            dropped: true,
            ..udp_goes(s, UdpPhase::Stopped, UdpAction::Exit)
        },
        (UdpPhase::Waiting, UdpEvent::Datagram { from, len, now, listener_finished }) => {
            let counted = match s.side {
                Side::Local => None,
                Side::Remote => Some((Dir::Rx, len as nat)),
            };
            if s.sessions.contains_key(from@) {
                let old = s.sessions[from@];
                UdpOutcome {
                    counted,
                    ..udp_sends(
                        s,
                        from,
                        len,
                        UdpSession { last_active: now, ..old },
                        old.listener is None || listener_finished,
                    )
                }
            } else {
                UdpOutcome {
                    counted,
                    ..udp_goes(s, UdpPhase::Opening { from, len }, UdpAction::Open { from })
                }
            }
        },
        (UdpPhase::Waiting, UdpEvent::ReceiveFailed) => udp_goes(
            s,
            UdpPhase::Waiting,
            UdpAction::Receive,
        ),
        (UdpPhase::Opening { from, len }, UdpEvent::Opened { socket, now }) => udp_sends(
            s,
            from,
            len,
            UdpSession { socket, last_active: now, listener: None },
            true,
        ),
        (UdpPhase::Opening { from, len }, UdpEvent::OpenFailed) => udp_goes(
            s,
            UdpPhase::Waiting,
            UdpAction::Receive,
        ),
        (UdpPhase::Sending { from, len, socket, need_listener }, UdpEvent::Sent) => UdpOutcome {
            counted: match s.side {
                Side::Local => Some((Dir::Tx, len as nat)),
                Side::Remote => None,
            },
            ..udp_sent(s, from, socket, need_listener)
        },
        (UdpPhase::Sending { from, len, socket, need_listener }, UdpEvent::SendFailed) => {
            match s.side {
                Side::Local => udp_goes(s, UdpPhase::Waiting, UdpAction::Receive),
                Side::Remote => udp_sent(s, from, socket, need_listener),
            }
        },
        (UdpPhase::Listening { from }, UdpEvent::ListenerStarted { task }) => {
            if s.sessions.contains_key(from@) {
                let session = UdpSession { listener: Some(task), ..s.sessions[from@] };
                udp_goes(
                    UdpState { sessions: s.sessions.insert(from@, session), ..s },
                    UdpPhase::Waiting,
                    UdpAction::Receive,
                )
            } else {
                udp_goes(s, UdpPhase::Waiting, UdpAction::Receive)
            }
        },
        (UdpPhase::Stopped, _) => udp_goes(s, s.phase, UdpAction::Exit),
        _ => udp_goes(s, s.phase, UdpAction::Ignore),
    }
}

/// A UDP forwarder.
pub struct UdpForwarder {
    side: Side,
    listen: SocketAddr,
    target: SocketAddr,
    phase: UdpPhase,
    sessions: PeerTable<UdpSession>,
    key: String,
    entry: EntryId,
}

impl View for UdpForwarder {
    type V = UdpState;

    closed spec fn view(&self) -> UdpState {
        UdpState {
            side: self.side,
            target: self.target,
            phase: self.phase,
            sessions: self.sessions@,
        }
    }
}

/// A forwarder before its socket is bound.
pub open spec fn udp_start(side: Side, target: SocketAddr) -> UdpState {
    UdpState { side, target, phase: UdpPhase::Starting, sessions: Map::empty() }
}

/// Start a local-udp forwarder: register it under its key. The datagrams that
/// come in where the mapping listens go to its target.
pub fn spawn_local_udp(mapping: UdpMapping, registry: &mut ListenerStatsRegistry) -> (r:
    UdpForwarder)
    requires
        old(registry).wf(),
        old(registry).next() < u64::MAX,
    ensures
        final(registry).wf(),
        final(registry)@ == registered(
            old(registry)@,
            old(registry).next(),
            local_udp_key_text(mapping.listen@, mapping.target@),
            "local-udp"@,
            socket_text(mapping.listen@),
            socket_text(mapping.target@),
        ),
        r.wf(),
        r@ == udp_start(Side::Local, mapping.target),
        r.listens_on() == mapping.listen,
        r.key_text() == local_udp_key_text(mapping.listen@, mapping.target@),
        r.num() == final(registry)@[r.key_text()].id,
        final(registry).next() == old(registry).next() + if old(registry)@.contains_key(
            r.key_text(),
        ) {
            0int
        } else {
            1int
        },
{
    let key = local_udp_key(&mapping);
    let listen = mapping.listen.to_text();
    let target = mapping.target.to_text();
    let entry = registry.entry(key.as_str(), "local-udp", listen.as_str(), target.as_str());
    UdpForwarder {
        side: Side::Local,
        listen: mapping.listen,
        target: mapping.target,
        phase: UdpPhase::Starting,
        sessions: PeerTable::new(),
        key,
        entry,
    }
}

/// Start a remote-udp forwarder: register it under its key. The datagrams that
/// come in on the mapping's port of the node's own address go to its target.
pub fn spawn_remote_udp(mapping: UdpMapping, registry: &mut ListenerStatsRegistry) -> (r:
    UdpForwarder)
    requires
        old(registry).wf(),
        old(registry).next() < u64::MAX,
    ensures
        final(registry).wf(),
        final(registry)@ == registered(
            old(registry)@,
            old(registry).next(),
            remote_udp_key_text(mapping.listen@, mapping.target@),
            "remote-udp"@,
            "ygg:"@ + dec_text(mapping.listen.port as nat),
            socket_text(mapping.target@),
        ),
        r.wf(),
        r@ == udp_start(Side::Remote, mapping.target),
        r.listens_on() == mapping.listen,
        r.key_text() == remote_udp_key_text(mapping.listen@, mapping.target@),
        r.num() == final(registry)@[r.key_text()].id,
        final(registry).next() == old(registry).next() + if old(registry)@.contains_key(
            r.key_text(),
        ) {
            0int
        } else {
            1int
        },
{
    let key = remote_udp_key(&mapping);
    let mut listen = owned("ygg:");
    push_decimal(&mut listen, mapping.listen.port as u64);
    let target = mapping.target.to_text();
    let entry = registry.entry(key.as_str(), "remote-udp", listen.as_str(), target.as_str());
    UdpForwarder {
        side: Side::Remote,
        listen: mapping.listen,
        target: mapping.target,
        phase: UdpPhase::Starting,
        sessions: PeerTable::new(),
        key,
        entry,
    }
}

impl UdpForwarder {
    /// One session per peer.
    pub closed spec fn wf(&self) -> bool {
        self.sessions.wf()
    }

    /// Where the forwarder listens.
    pub closed spec fn listens_on(&self) -> SocketAddr {
        self.listen
    }

    /// The key that the forwarder is registered under.
    pub closed spec fn key_text(&self) -> Seq<char> {
        self.key@
    }

    /// The number of its entry.
    pub closed spec fn num(&self) -> nat {
        self.entry.num()
    }

    /// The key that the forwarder is registered under.
    pub fn key(&self) -> (r: String)
        ensures
            r@ == self.key_text(),
    {
        owned(self.key.as_str())
    }

    /// Where the forwarder listens: a local address, or a port of the node's own
    /// address.
    pub fn listen(&self) -> (r: SocketAddr)
        ensures
            r == self.listens_on(),
    {
        self.listen
    }

    /// The entry that it counts on.
    pub fn entry(&self) -> (r: EntryId)
        ensures
            r.num() == self.num(),
    {
        self.entry
    }

    /// The listener of a peer's session.
    pub fn listener_of(&self, peer: &SocketAddr) -> (r: Option<u64>)
        requires
            self.wf(),
        ensures
            r == if self@.sessions.contains_key(peer@) {
                self@.sessions[peer@].listener
            } else {
                None
            },
    {
        match self.sessions.get(peer) {
            Some(s) => s.listener,
            None => None,
        }
    }

    /// Whether a peer has a session.
    pub fn has_session(&self, peer: &SocketAddr) -> (r: bool)
        requires
            self.wf(),
        ensures
            r == self@.sessions.contains_key(peer@),
    {
        match self.sessions.get(peer) {
            Some(_) => true,
            None => false,
        }
    }

    /// How many sessions there are.
    pub fn session_count(&self) -> (r: usize)
        requires
            self.wf(),
        ensures
            r == self@.sessions.dom().len(),
    {
        self.sessions.len()
    }

    fn send(&mut self, from: SocketAddr, len: usize, session: UdpSession, need_listener: bool) -> (r:
        UdpAction)
        requires
            old(self).wf(),
        ensures
            final(self).wf(),
            final(self)@ == udp_sends(old(self)@, from, len, session, need_listener).state,
            r == udp_sends(old(self)@, from, len, session, need_listener).action,
            final(self).listens_on() == old(self).listens_on(),
            final(self).key_text() == old(self).key_text(),
            final(self).num() == old(self).num(),
    {
        self.sessions.insert(from, session);
        self.phase = UdpPhase::Sending { from, len, socket: session.socket, need_listener };
        UdpAction::Send { socket: session.socket, to: self.target, len }
    }

    fn sent(&mut self, from: SocketAddr, socket: u64, need_listener: bool) -> (r: UdpAction)
        requires
            old(self).wf(),
        ensures
            final(self).wf(),
            final(self)@ == udp_sent(old(self)@, from, socket, need_listener).state,
            r == udp_sent(old(self)@, from, socket, need_listener).action,
            final(self).listens_on() == old(self).listens_on(),
            final(self).key_text() == old(self).key_text(),
            final(self).num() == old(self).num(),
    {
        if need_listener {
            self.phase = UdpPhase::Listening { from };
            UdpAction::Listen { socket, peer: from }
        } else {
            self.phase = UdpPhase::Waiting;
            UdpAction::Receive
        }
    }

    /// What to do after an event.
    pub fn step(&mut self, registry: &mut ListenerStatsRegistry, event: UdpEvent) -> (r: UdpAction)
        requires
            old(self).wf(),
            old(registry).wf(),
        ensures
            final(self).wf(),
            final(registry).wf(),
            final(self)@ == udp_next(old(self)@, event).state,
            r == udp_next(old(self)@, event).action,
            final(registry)@ == registry_after(
                old(registry)@,
                old(self).num(),
                old(self).key_text(),
                udp_next(old(self)@, event).counted,
                udp_next(old(self)@, event).dropped,
            ),
            final(registry).next() == old(registry).next(),
            final(self).listens_on() == old(self).listens_on(),
            final(self).key_text() == old(self).key_text(),
            final(self).num() == old(self).num(),
    {
        match (self.phase, event) {
            (UdpPhase::Starting, UdpEvent::Bound) => {
                self.phase = UdpPhase::Waiting;
                UdpAction::Receive
            },
            (UdpPhase::Starting, UdpEvent::BindFailed) => {
                registry.remove(self.key.as_str());
                self.phase = UdpPhase::Stopped;
                UdpAction::Exit
            },
            (UdpPhase::Waiting, UdpEvent::Datagram { from, len, now, listener_finished }) => {
                match self.side {
                    Side::Local => {},
                    Side::Remote => {
                        registry.relay(self.entry, Dir::Rx, len as u64);
                    },
                }
                match self.sessions.get(&from) {
                    Some(s) => {
                        let need_listener = s.listener.is_none() || listener_finished;
                        let session = UdpSession {
                            socket: s.socket,
                            last_active: now,
                            listener: s.listener,
                        };
                        self.send(from, len, session, need_listener)
                    },
                    None => {
                        self.phase = UdpPhase::Opening { from, len };
                        UdpAction::Open { from }
                    },
                }
            },
            (UdpPhase::Waiting, UdpEvent::ReceiveFailed) => UdpAction::Receive,
            (UdpPhase::Opening { from, len }, UdpEvent::Opened { socket, now }) => {
                let session = UdpSession { socket, last_active: now, listener: None };
                self.send(from, len, session, true)
            },
            (UdpPhase::Opening { .. }, UdpEvent::OpenFailed) => {
                self.phase = UdpPhase::Waiting;
                UdpAction::Receive
            },
            (UdpPhase::Sending { from, len, socket, need_listener }, UdpEvent::Sent) => {
                match self.side {
                    Side::Local => {
                        registry.relay(self.entry, Dir::Tx, len as u64);
                    },
                    Side::Remote => {},
                }
                self.sent(from, socket, need_listener)
            },
            (UdpPhase::Sending { from, len: _, socket, need_listener }, UdpEvent::SendFailed) => {
                match self.side {
                    Side::Local => {
                        self.phase = UdpPhase::Waiting;
                        UdpAction::Receive
                    },
                    Side::Remote => self.sent(from, socket, need_listener),
                }
            },
            (UdpPhase::Listening { from }, UdpEvent::ListenerStarted { task }) => {
                match self.sessions.get(&from) {
                    Some(s) => {
                        let session = UdpSession {
                            socket: s.socket,
                            last_active: s.last_active,
                            listener: Some(task),
                        };
                        self.sessions.insert(from, session);
                    },
                    None => {},
                }
                self.phase = UdpPhase::Waiting;
                UdpAction::Receive
            },
            (UdpPhase::Stopped, _) => UdpAction::Exit,
            _ => UdpAction::Ignore,
        }
    }

    /// Evict the stale sessions. The result holds the listeners to abort.
    pub fn tick(&mut self, now: u64) -> (aborted: Vec<u64>)
        requires
            old(self).wf(),
        ensures
            final(self).wf(),
            final(self)@ == (UdpState {
                sessions: fresh(old(self)@.sessions, now as nat),
                ..old(self)@
            }),
            forall|t: u64| #[trigger]
                aborted@.contains(t) <==> listens_stale(old(self)@.sessions, now as nat, t),
            final(self).listens_on() == old(self).listens_on(),
            final(self).key_text() == old(self).key_text(),
            final(self).num() == old(self).num(),
    {
        evict_stale(&mut self.sessions, now)
    }

    /// Stop: drop the registry entry and every session. The result holds the
    /// listeners to abort.
    pub fn stop(&mut self, registry: &mut ListenerStatsRegistry) -> (aborted: Vec<u64>)
        requires
            old(self).wf(),
            old(registry).wf(),
        ensures
            final(self).wf(),
            final(registry).wf(),
            final(self)@ == (UdpState {
                phase: UdpPhase::Stopped,
                sessions: Map::empty(),
                ..old(self)@
            }),
            final(registry)@ == old(registry)@.remove(old(self).key_text()),
            final(registry).next() == old(registry).next(),
            forall|t: u64| #[trigger]
                aborted@.contains(t) <==> listens(old(self)@.sessions, t),
            final(self).listens_on() == old(self).listens_on(),
            final(self).key_text() == old(self).key_text(),
            final(self).num() == old(self).num(),
    {
        registry.remove(self.key.as_str());
        self.phase = UdpPhase::Stopped;
        abort_all_sessions(&mut self.sessions)
    }
}

// ── Replies ───────────────────────────────────────────────────────────────────

/// Takes the replies of one session back to its peer.
pub struct UdpListener {
    guard: ConnGuard,
    entry: EntryId,
    side: Side,
    peer: SocketAddr,
}

/// The direction that replies count in.
pub open spec fn reply_dir(side: Side) -> Dir {
    match side {
        Side::Local => Dir::Rx,
        Side::Remote => Dir::Tx,
    }
}

impl UdpListener {
    /// The number of the entry that replies count on.
    pub closed spec fn num(&self) -> nat {
        self.entry.num()
    }

    /// Whether the session counts as active.
    pub closed spec fn active(&self) -> bool {
        self.guard.held()
    }

    /// The peer that replies go to.
    pub closed spec fn peer(&self) -> SocketAddr {
        self.peer
    }

    /// The side that datagrams come in on.
    pub closed spec fn side(&self) -> Side {
        self.side
    }

    /// The guard and the replies count on one entry.
    pub closed spec fn wf(&self) -> bool {
        self.guard.num() == self.entry.num()
    }

    /// Start: the session counts as active.
    pub fn new(
        registry: &mut ListenerStatsRegistry,
        entry: EntryId,
        side: Side,
        peer: SocketAddr,
    ) -> (r: Self)
        requires
            old(registry).wf(),
        ensures
            final(registry).wf(),
            final(registry)@ == change(old(registry)@, entry.num(), |e: Entry| opened(e)),
            final(registry).next() == old(registry).next(),
            r.wf(),
            r.active(),
            r.num() == entry.num(),
            r.peer() == peer,
            r.side() == side,
    {
        let guard = ConnGuard::new(registry, entry);
        UdpListener { guard, entry, side, peer }
    }

    /// A reply of `len` bytes came in: it counts, and goes to the peer that is
    /// returned.
    pub fn received(&self, registry: &mut ListenerStatsRegistry, len: usize) -> (r: SocketAddr)
        requires
            old(registry).wf(),
        ensures
            final(registry).wf(),
            final(registry)@ == change(
                old(registry)@,
                self.num(),
                |e: Entry| relayed(e, reply_dir(self.side()), len as nat),
            ),
            final(registry).next() == old(registry).next(),
            r == self.peer(),
    {
        match self.side {
            Side::Local => {
                registry.relay(self.entry, Dir::Rx, len as u64);
            },
            Side::Remote => {
                registry.relay(self.entry, Dir::Tx, len as u64);
            },
        }
        self.peer
    }

    /// The session is over: it no longer counts as active.
    pub fn ended(&mut self, registry: &mut ListenerStatsRegistry)
        requires
            old(self).wf(),
            old(registry).wf(),
        ensures
            final(self).wf(),
            final(registry).wf(),
            final(registry)@ == if old(self).active() {
                change(old(registry)@, old(self).num(), |e: Entry| closed(e))
            } else {
                old(registry)@
            },
            final(registry).next() == old(registry).next(),
            !final(self).active(),
            final(self).num() == old(self).num(),
            final(self).peer() == old(self).peer(),
            final(self).side() == old(self).side(),
    {
        self.guard.release(registry);
    }
}

} // verus!
