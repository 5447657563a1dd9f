//! What holds of UDP forwarding over several events.
use vstd::prelude::*;
use crate::addr::{Endpoint, SocketAddr};
use crate::forward::session_port;
use crate::forward::udp::{
    SESSION_TTL_NANOS, Side, UdpAction, UdpEvent, UdpPhase, UdpSession, UdpState, fresh, listens,
    listens_stale, stale, udp_next,
};

verus! {

/// An eviction leaves no session that has been idle for the session timeout, and
/// takes none that has not.
pub proof fn law_eviction_is_exact(m: Map<Endpoint, UdpSession>, now: nat, peer: Endpoint)
    ensures
        fresh(m, now).contains_key(peer) <==> m.contains_key(peer) && m[peer].last_active
            + SESSION_TTL_NANOS > now,
        fresh(m, now).contains_key(peer) ==> fresh(m, now)[peer] == m[peer],
{
}

/// A peer that has just sent something keeps its session through every eviction
/// until the session timeout has passed.
pub proof fn law_activity_keeps_session(
    s: UdpState,
    from: SocketAddr,
    len: usize,
    now: u64,
    finished: bool,
    later: nat,
)
    requires
        s.phase is Waiting,
        s.sessions.contains_key(from@),
        later < now + SESSION_TTL_NANOS,
    ensures
        ({
            let event = UdpEvent::Datagram { from, len, now, listener_finished: finished };
            let after = udp_next(s, event).state.sessions;
            fresh(after, later).contains_key(from@)
        }),
{
}

/// Whatever happens, a session that stays keeps its socket.
pub proof fn law_session_keeps_socket(s: UdpState, event: UdpEvent, peer: Endpoint)
    requires
        s.sessions.contains_key(peer),
        s.phase matches UdpPhase::Opening { from, .. } ==> from@ != peer,
    ensures
        udp_next(s, event).state.sessions.contains_key(peer),
        udp_next(s, event).state.sessions[peer].socket == s.sessions[peer].socket,
{
}

/// A socket is opened for peers without a session only.
pub proof fn law_opens_for_new_peers(s: UdpState, event: UdpEvent)
    requires
        udp_next(s, event).action matches UdpAction::Open { from },
    ensures
        udp_next(s, event).action matches UdpAction::Open { from } && !s.sessions.contains_key(
            from@,
        ),
{
}

/// Every datagram goes to the target.
pub proof fn law_datagrams_go_to_target(s: UdpState, event: UdpEvent)
    ensures
        udp_next(s, event).action matches UdpAction::Send { to, .. } ==> to == s.target,
{
}

/// A listener is started only for a session that had none, or whose listener has
/// come to an end: the datagram that asked for it found that.
pub proof fn law_one_listener_per_session(
    s: UdpState,
    from: SocketAddr,
    len: usize,
    now: u64,
    finished: bool,
    sent: bool,
)
    requires
        s.phase is Waiting,
        s.sessions.contains_key(from@),
        s.sessions[from@].listener is Some,
        !finished,
    ensures
        ({
            let event = UdpEvent::Datagram { from, len, now, listener_finished: finished };
            let next = if sent {
                UdpEvent::Sent
            } else {
                UdpEvent::SendFailed
            };
            udp_next(udp_next(s, event).state, next).action is Receive
        }),
{
}

/// A local forwarder counts a datagram as sent exactly where it was sent; a
/// remote one counts it as received exactly when it came in.
pub proof fn law_counting(s: UdpState, event: UdpEvent)
    ensures
        udp_next(s, event).counted matches Some((dir, n)) ==> match s.side {
            Side::Local => dir is Tx && event is Sent && (s.phase matches UdpPhase::Sending {
                len,
                ..
            } && len == n),
            Side::Remote => dir is Rx && (event matches UdpEvent::Datagram { len, .. } && len == n),
        },
        s.side is Local && s.phase is Sending && event is Sent ==> udp_next(s, event).counted is Some,
        s.side is Remote && s.phase is Waiting && event is Datagram ==> udp_next(
            s,
            event,
        ).counted is Some,
{
}

/// A forwarder that has stopped stays so, and holds nothing.
pub proof fn law_stopped_stays_stopped(s: UdpState, event: UdpEvent)
    requires
        s.phase is Stopped,
        s.sessions == Map::<Endpoint, UdpSession>::empty(),
    ensures
        udp_next(s, event).state == s,
        udp_next(s, event).action is Exit,
        forall|t: u64| !listens(s.sessions, t),
{
}

/// Where every listener belongs to one session, the listeners of the sessions
/// that stay are not among those that an eviction aborts.
pub proof fn law_eviction_spares_fresh_listeners(
    m: Map<Endpoint, UdpSession>,
    now: nat,
    peer: Endpoint,
)
    requires
        forall|a: Endpoint, b: Endpoint| #[trigger]
            m.contains_key(a) && #[trigger] m.contains_key(b) && a != b && m[a].listener is Some
                ==> m[a].listener != m[b].listener,
        fresh(m, now).contains_key(peer),
        m[peer].listener is Some,
    ensures
        !listens_stale(m, now, m[peer].listener->0),
{
    let t = m[peer].listener->0;
    if listens_stale(m, now, t) {
        let k = choose|k: Endpoint| #[trigger]
            m.contains_key(k) && stale(m[k], now) && m[k].listener == Some(t);
        assert(m.contains_key(peer));
    }
}

/// The ports of a plain forwarder's sessions are taken in order, so that no two of
/// those opened one after the other have the same.
pub proof fn law_session_ports_in_order(a: nat, b: nat)
    requires
        a < b,
        session_port(b) <= 65535,
        b < 65536,
    ensures
        session_port(a) == 49152 + a,
        session_port(b) == 49152 + b,
        session_port(a) < session_port(b),
{
}

} // verus!
