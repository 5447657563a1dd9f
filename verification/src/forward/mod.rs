//! TCP and UDP port forwarding (local ↔ Yggdrasil and remote ↔ local).
//!
//! This module holds plain forwarders, which keep no statistics and run until
//! they fail; [`tcp`] and [`udp`] hold those that are counted and can be stopped.
pub mod key_laws;
pub mod laws;
pub mod table;
pub mod tcp;
pub mod tcp_laws;
pub mod udp;
pub mod udp_laws;

use vstd::prelude::*;
use crate::addr::{Endpoint, SocketAddr, socket_text};
use crate::forward::table::PeerTable;
use crate::forward::udp::Side;
use crate::text::{dec_text, owned, push_decimal, push_text};

verus! {

/// Seconds after which a session that nothing comes back on is over.
pub const REPLY_TIMEOUT_SECS: u64 = 120;

/// How far a plain forwarder has come.
#[derive(Clone, Copy)]
pub enum PlainPhase {
    /// It does not listen yet.
    Starting,
    /// It waits for the next connection or datagram.
    Waiting,
    /// It waits for a socket for the sender of a datagram of this length.
    Opening { from: SocketAddr, len: usize },
    /// It has come to an end.
    Over,
}

// ── TCP ───────────────────────────────────────────────────────────────────────

/// A plain TCP forwarder: where it listens, and where connections go.
pub struct PlainTcp {
    pub side: Side,
    pub listen: SocketAddr,
    pub to: SocketAddr,
    pub phase: PlainPhase,
}

/// What happened to a plain TCP forwarder.
pub enum PlainTcpEvent {
    /// It listens.
    Bound,
    /// It could not listen, for this reason.
    BindFailed(String),
    /// A connection came in.
    Accepted,
    /// A connection could not be accepted, for this reason.
    AcceptFailed(String),
    /// No more connections will come in.
    Closed,
}

/// What a plain TCP forwarder does next.
pub enum PlainTcpAction {
    /// Wait for the next connection.
    Accept,
    /// Relay the connection in a task of its own, and wait for the next one.
    Relay(SocketAddr),
    /// Come to an end, with this result.
    Finish(Result<(), String>),
    /// Nothing: the event does not belong here.
    Ignore,
}

/// Why a plain TCP forwarder could not listen.
pub open spec fn tcp_bind_error(side: Side, listen: Endpoint, e: Seq<char>) -> Seq<char> {
    match side {
        Side::Local => "local-tcp bind "@ + socket_text(listen) + ": "@ + e,
        Side::Remote => "remote-tcp listen "@ + dec_text(listen.port) + ": "@ + e,
    }
}

/// Whether an action ends the forwarder with this error.
pub open spec fn tcp_fails_with(r: PlainTcpAction, message: Seq<char>) -> bool {
    match r {
        PlainTcpAction::Finish(Err(e)) => e@ == message,
        _ => false,
    }
}

/// Listen on a local address, and forward each connection to a remote one on the
/// Yggdrasil netstack (like `ssh -L`).
pub fn local_tcp(listen_addr: SocketAddr, remote: SocketAddr) -> (r: PlainTcp)
    ensures
        r == (PlainTcp {
            side: Side::Local,
            listen: listen_addr,
            to: remote,
            phase: PlainPhase::Starting,
        }),
{
    PlainTcp { side: Side::Local, listen: listen_addr, to: remote, phase: PlainPhase::Starting }
}

/// Listen where `listen` says on the Yggdrasil netstack, and forward each
/// connection to a local address (like `ssh -R`).
pub fn remote_tcp(listen: SocketAddr, local_target: SocketAddr) -> (r: PlainTcp)
    ensures
        r == (PlainTcp {
            side: Side::Remote,
            listen,
            to: local_target,
            phase: PlainPhase::Starting,
        }),
{
    PlainTcp { side: Side::Remote, listen, to: local_target, phase: PlainPhase::Starting }
}

impl PlainTcp {
    /// What to do after an event.
    pub fn step(&mut self, event: PlainTcpEvent) -> (r: PlainTcpAction)
        ensures
            final(self).side == old(self).side,
            final(self).listen == old(self).listen,
            final(self).to == old(self).to,
            match (old(self).phase, event) {
                (PlainPhase::Starting, PlainTcpEvent::Bound) => {
                    r is Accept && final(self).phase is Waiting
                },
                (PlainPhase::Starting, PlainTcpEvent::BindFailed(e)) => {
                    &&& tcp_fails_with(r, tcp_bind_error(old(self).side, old(self).listen@, e@))
                    &&& final(self).phase is Over
                },
                (PlainPhase::Waiting, PlainTcpEvent::Accepted) => {
                    r == PlainTcpAction::Relay(old(self).to) && final(self).phase is Waiting
                },
                (PlainPhase::Waiting, PlainTcpEvent::AcceptFailed(e)) => {
                    &&& tcp_fails_with(
                        r,
                        (match old(self).side {
                            Side::Local => "local-tcp accept: "@,
                            Side::Remote => "remote-tcp accept: "@,
                        }) + e@,
                    )
                    &&& final(self).phase is Over
                },
                (PlainPhase::Waiting, PlainTcpEvent::Closed) => {
                    r == PlainTcpAction::Finish(Ok(())) && final(self).phase is Over
                },
                _ => r is Ignore && final(self).phase == old(self).phase,
            },
    {
        match (self.phase, event) {
            (PlainPhase::Starting, PlainTcpEvent::Bound) => {
                self.phase = PlainPhase::Waiting;
                PlainTcpAction::Accept
            },
            (PlainPhase::Starting, PlainTcpEvent::BindFailed(e)) => {
                self.phase = PlainPhase::Over;
                let mut m = match self.side {
                    Side::Local => {
                        let mut m = owned("local-tcp bind ");
                        push_text(&mut m, self.listen.to_text().as_str());
                        m
                    },
                    Side::Remote => {
                        let mut m = owned("remote-tcp listen ");
                        push_decimal(&mut m, self.listen.port as u64);
                        m
                    },
                };
                push_text(&mut m, ": ");
                push_text(&mut m, e.as_str());
                PlainTcpAction::Finish(Err(m))
            },
            (PlainPhase::Waiting, PlainTcpEvent::Accepted) => PlainTcpAction::Relay(self.to),
            (PlainPhase::Waiting, PlainTcpEvent::AcceptFailed(e)) => {
                self.phase = PlainPhase::Over;
                let mut m = match self.side {
                    Side::Local => owned("local-tcp accept: "),
                    Side::Remote => owned("remote-tcp accept: "),
                };
                push_text(&mut m, e.as_str());
                PlainTcpAction::Finish(Err(m))
            },
            (PlainPhase::Waiting, PlainTcpEvent::Closed) => {
                self.phase = PlainPhase::Over;
                PlainTcpAction::Finish(Ok(()))
            },
            _ => PlainTcpAction::Ignore,
        }
    }
}

// ── UDP ───────────────────────────────────────────────────────────────────────

/// The local port for one more session, given how many there are.
pub open spec fn session_port(sessions: nat) -> nat {
    49152 + sessions % 65536
}

/// The local port for one more session. Flat allocation; fine for small numbers
/// of sessions.
pub fn alloc_udp_port_v2(sessions: usize) -> (r: u16)
    requires
        session_port(sessions as nat) <= 65535,
    ensures
        r == session_port(sessions as nat),
{
    49152 + (sessions % 65536) as u16
}

/// A plain UDP forwarder: where it listens, where datagrams go, and the channel
/// that carries on what each peer sends.
pub struct PlainUdp {
    pub side: Side,
    pub listen: SocketAddr,
    pub to: SocketAddr,
    pub phase: PlainPhase,
    pub sessions: PeerTable<u64>,
}

/// What happened to a plain UDP forwarder.
pub enum PlainUdpEvent {
    /// It listens.
    Bound,
    /// It could not listen, for this reason.
    BindFailed(String),
    /// A datagram came in.
    Datagram { from: SocketAddr, len: usize },
    /// Receiving failed, for this reason.
    ReceiveFailed(String),
    /// No more datagrams will come in.
    Closed,
    /// A channel was opened for the sender.
    Opened(u64),
    /// No channel could be opened for the sender.
    OpenFailed,
}

/// What a plain UDP forwarder does next.
pub enum PlainUdpAction {
    /// Wait for the next datagram.
    Receive,
    /// Send so many bytes on, over a channel, to where datagrams go; then wait
    /// for the next datagram.
    Forward { channel: u64, to: SocketAddr, len: usize },
    /// Open a netstack socket on this port, for the sender.
    Dial { port: u16 },
    /// Open a local socket on any port, for the sender.
    Bind,
    /// Send so many bytes on, and run a listener on the channel for the peer, in
    /// a task of its own; then wait for the next datagram.
    ForwardNew { channel: u64, to: SocketAddr, len: usize, peer: SocketAddr },
    /// Come to an end, with this result.
    Finish(Result<(), String>),
    /// Nothing: the event does not belong here.
    Ignore,
}

/// Why a plain UDP forwarder could not listen.
pub open spec fn udp_bind_error(side: Side, listen: Endpoint, e: Seq<char>) -> Seq<char> {
    match side {
        Side::Local => "local-udp bind "@ + socket_text(listen) + ": "@ + e,
        Side::Remote => "remote-udp listen "@ + dec_text(listen.port) + ": "@ + e,
    }
}

/// Whether an action ends the forwarder with this error.
pub open spec fn udp_fails_with(r: PlainUdpAction, message: Seq<char>) -> bool {
    match r {
        PlainUdpAction::Finish(Err(e)) => e@ == message,
        _ => false,
    }
}

/// Listen on a local address, and forward datagrams to a remote one on the
/// Yggdrasil netstack. Each local sender gets a session of its own.
pub fn local_udp_v2(listen_addr: SocketAddr, remote: SocketAddr) -> (r: PlainUdp)
    ensures
        r.side is Local,
        r.listen == listen_addr,
        r.to == remote,
        r.phase is Starting,
        r.sessions.wf(),
        r.sessions@ == Map::<Endpoint, u64>::empty(),
        r.sessions.size() == 0,
{
    PlainUdp {
        side: Side::Local,
        listen: listen_addr,
        to: remote,
        phase: PlainPhase::Starting,
        sessions: PeerTable::new(),
    }
}

/// Listen where `listen` says on the Yggdrasil netstack, and forward datagrams to
/// a local address. Each remote sender gets a session of its own.
pub fn remote_udp(listen: SocketAddr, local_target: SocketAddr) -> (r: PlainUdp)
    ensures
        r.side is Remote,
        r.listen == listen,
        r.to == local_target,
        r.phase is Starting,
        r.sessions.wf(),
        r.sessions@ == Map::<Endpoint, u64>::empty(),
        r.sessions.size() == 0,
{
    PlainUdp {
        side: Side::Remote,
        listen,
        to: local_target,
        phase: PlainPhase::Starting,
        sessions: PeerTable::new(),
    }
}

impl PlainUdp {
    /// What to do after an event.
    pub fn step(&mut self, event: PlainUdpEvent) -> (r: PlainUdpAction)
        requires
            old(self).sessions.wf(),
            old(self).phase is Waiting && old(self).side is Local && (event matches
                PlainUdpEvent::Datagram { from, .. } && !old(self).sessions@.contains_key(from@))
                ==> session_port(old(self).sessions.size()) <= 65535,
        ensures
            final(self).side == old(self).side,
            final(self).listen == old(self).listen,
            final(self).to == old(self).to,
            final(self).sessions.wf(),
            match (old(self).phase, event) {
                (PlainPhase::Starting, PlainUdpEvent::Bound) => {
                    &&& r is Receive
                    &&& final(self).phase is Waiting
                    &&& final(self).sessions@ == old(self).sessions@
                },
                (PlainPhase::Starting, PlainUdpEvent::BindFailed(e)) => {
                    &&& udp_fails_with(r, udp_bind_error(old(self).side, old(self).listen@, e@))
                    &&& final(self).phase is Over
                    &&& final(self).sessions@ == old(self).sessions@
                },
                (PlainPhase::Waiting, PlainUdpEvent::Datagram { from, len }) => {
                    &&& final(self).sessions@ == old(self).sessions@
                    &&& if old(self).sessions@.contains_key(from@) {
                        &&& r == (PlainUdpAction::Forward {
                            channel: old(self).sessions@[from@],
                            to: old(self).to,
                            len,
                        })
                        &&& final(self).phase is Waiting
                    } else {
                        &&& match old(self).side {
                            Side::Local => r matches PlainUdpAction::Dial { port } && port
                                == session_port(old(self).sessions.size()),
                            Side::Remote => r is Bind,
                        }
                        &&& final(self).phase == (PlainPhase::Opening { from, len })
                    }
                },
                (PlainPhase::Waiting, PlainUdpEvent::ReceiveFailed(e)) => {
                    &&& udp_fails_with(
                        r,
                        (match old(self).side {
                            Side::Local => "local-udp recv: "@,
                            Side::Remote => "remote-udp recv: "@,
                        }) + e@,
                    )
                    &&& final(self).phase is Over
                    &&& final(self).sessions@ == old(self).sessions@
                },
                (PlainPhase::Waiting, PlainUdpEvent::Closed) => {
                    &&& r == PlainUdpAction::Finish(Ok(()))
                    &&& final(self).phase is Over
                    &&& final(self).sessions@ == old(self).sessions@
                },
                (PlainPhase::Opening { from, len }, PlainUdpEvent::Opened(channel)) => {
                    &&& r == (PlainUdpAction::ForwardNew {
                        channel,
                        to: old(self).to,
                        len,
                        peer: from,
                    })
                    &&& final(self).phase is Waiting
                    &&& final(self).sessions@ == old(self).sessions@.insert(from@, channel)
                    &&& final(self).sessions.size() == old(self).sessions.size() + if old(
                        self,
                    ).sessions@.contains_key(from@) {
                        0int
                    } else {
                        1int
                    }
                },
                (PlainPhase::Opening { .. }, PlainUdpEvent::OpenFailed) => {
                    &&& r is Receive
                    &&& final(self).phase is Waiting
                    &&& final(self).sessions@ == old(self).sessions@
                },
                _ => {
                    &&& r is Ignore
                    &&& final(self).phase == old(self).phase
                    &&& final(self).sessions@ == old(self).sessions@
                },
            },
    {
        match (self.phase, event) {
            (PlainPhase::Starting, PlainUdpEvent::Bound) => {
                self.phase = PlainPhase::Waiting;
                PlainUdpAction::Receive
            },
            (PlainPhase::Starting, PlainUdpEvent::BindFailed(e)) => {
                self.phase = PlainPhase::Over;
                let mut m = match self.side {
                    Side::Local => {
                        let mut m = owned("local-udp bind ");
                        push_text(&mut m, self.listen.to_text().as_str());
                        m
                    },
                    Side::Remote => {
                        let mut m = owned("remote-udp listen ");
                        push_decimal(&mut m, self.listen.port as u64);
                        m
                    },
                };
                push_text(&mut m, ": ");
                push_text(&mut m, e.as_str());
                PlainUdpAction::Finish(Err(m))
            },
            (PlainPhase::Waiting, PlainUdpEvent::Datagram { from, len }) => {
                match self.sessions.get(&from) {
                    Some(channel) => PlainUdpAction::Forward { channel, to: self.to, len },
                    None => {
                        self.phase = PlainPhase::Opening { from, len };
                        match self.side {
                            Side::Local => PlainUdpAction::Dial {
                                port: alloc_udp_port_v2(self.sessions.len()),
                            },
                            Side::Remote => PlainUdpAction::Bind,
                        }
                    },
                }
            },
            (PlainPhase::Waiting, PlainUdpEvent::ReceiveFailed(e)) => {
                self.phase = PlainPhase::Over;
                let mut m = match self.side {
                    Side::Local => owned("local-udp recv: "),
                    Side::Remote => owned("remote-udp recv: "),
                };
                push_text(&mut m, e.as_str());
                PlainUdpAction::Finish(Err(m))
            },
            (PlainPhase::Waiting, PlainUdpEvent::Closed) => {
                self.phase = PlainPhase::Over;
                PlainUdpAction::Finish(Ok(()))
            },
            (PlainPhase::Opening { from, len }, PlainUdpEvent::Opened(channel)) => {
                self.sessions.insert(from, channel);
                self.phase = PlainPhase::Waiting;
                PlainUdpAction::ForwardNew { channel, to: self.to, len, peer: from }
            },
            (PlainPhase::Opening { .. }, PlainUdpEvent::OpenFailed) => {
                self.phase = PlainPhase::Waiting;
                PlainUdpAction::Receive
            },
            _ => PlainUdpAction::Ignore,
        }
    }

    /// A peer's listener came to an end: its session is over.
    pub fn session_over(&mut self, peer: &SocketAddr)
        requires
            old(self).sessions.wf(),
        ensures
            final(self).sessions.wf(),
            final(self).sessions@ == old(self).sessions@.remove(peer@),
            final(self).sessions.size() == old(self).sessions.size() - if old(
                self,
            ).sessions@.contains_key(peer@) {
                1int
            } else {
                0int
            },
            final(self).phase == old(self).phase,
            final(self).side == old(self).side,
            final(self).listen == old(self).listen,
            final(self).to == old(self).to,
    {
        self.sessions.remove(peer);
    }
}

} // verus!
