//! What holds of forwarders, from what they are told to what they do.
use vstd::prelude::*;
use crate::addr::{Endpoint, SocketAddr, socket_text};
use crate::forward::table::PeerTable;
use crate::forward::tcp::{
    RelayAction, RelayEvent, TcpAction, TcpEvent, TcpForwarder, TcpRelay, local_tcp_key,
    remote_tcp_key, spawn_local_tcp, spawn_remote_tcp,
};
use crate::forward::udp::{
    Side, UdpAction, UdpEvent, UdpForwarder, UdpListener, UdpPhase, UdpSession, abort_all_sessions,
    evict_stale, local_udp_key, remote_udp_key, spawn_local_udp, spawn_remote_udp, stale,
};
use crate::forward::{
    PlainPhase, PlainTcp, PlainTcpAction, PlainTcpEvent, PlainUdp, PlainUdpAction, PlainUdpEvent,
    alloc_udp_port_v2, local_tcp, local_udp_v2, remote_tcp, remote_udp,
};
use crate::mapping::{TcpMapping, UdpMapping};
use crate::stats::{Entry, EntryId, ListenerStatsRegistry};
use crate::stats_laws::{can_count, counted_on};
use crate::text::dec_text;

verus! {

// ── Keys ──────────────────────────────────────────────────────────────────────

/// The key of a forwarding names its kind, where it listens, by the port alone where
/// that is on the node's own address, and where it leads.
pub proof fn law_keys_name_the_forwarding(
    t: &TcpMapping,
    u: &UdpMapping,
    a: String,
    b: String,
    c: String,
    d: String,
)
    requires
        call_ensures(local_tcp_key, (t,), a),
        call_ensures(local_udp_key, (u,), b),
        call_ensures(remote_tcp_key, (t,), c),
        call_ensures(remote_udp_key, (u,), d),
    ensures
        a@ == "ltcp:"@ + socket_text(t.listen@) + "->"@ + socket_text(t.target@),
        b@ == "ludp:"@ + socket_text(u.listen@) + "->"@ + socket_text(u.target@),
        c@ == "rtcp:"@ + dec_text(t.listen.port as nat) + "->"@ + socket_text(t.target@),
        d@ == "rudp:"@ + dec_text(u.listen.port as nat) + "->"@ + socket_text(u.target@),
{
}

// ── Plain forwarders ──────────────────────────────────────────────────────────

/// A plain TCP forwarder listens where it was told, relays every connection that comes
/// in to where it was told, and ends where it cannot listen or accept, or no more
/// connections come, saying why.
pub proof fn law_plain_tcp(
    listen: SocketAddr,
    to: SocketAddr,
    l: PlainTcp,
    r: PlainTcp,
    p: &mut PlainTcp,
    e: PlainTcpEvent,
    a: PlainTcpAction,
)
    requires
        call_ensures(local_tcp, (listen, to), l),
        call_ensures(remote_tcp, (listen, to), r),
        call_ensures(PlainTcp::step, (p, e), a),
    ensures
        l.listen == listen && l.to == to && l.phase is Starting && l.side is Local,
        r.listen == listen && r.to == to && r.phase is Starting && r.side is Remote,
        final(p).listen == old(p).listen && final(p).to == old(p).to && final(p).side
            == old(p).side,
        a matches PlainTcpAction::Relay(x) ==> x == old(p).to,
        a is Relay <==> old(p).phase is Waiting && e is Accepted,
        a is Relay ==> final(p).phase is Waiting,
        old(p).phase is Starting && e is Bound ==> a is Accept && final(p).phase is Waiting,
        a is Accept ==> e is Bound,
        a is Finish <==> final(p).phase is Over && !(old(p).phase is Over),
        old(p).phase is Starting && (e matches PlainTcpEvent::BindFailed(m)) ==> (
        a matches PlainTcpAction::Finish(Err(f)) && f@ == (match old(p).side {
            Side::Local => "local-tcp bind "@ + socket_text(old(p).listen@),
            Side::Remote => "remote-tcp listen "@ + dec_text(old(p).listen.port as nat),
        }) + ": "@ + e->BindFailed_0@),
        old(p).phase is Waiting && (e matches PlainTcpEvent::AcceptFailed(m)) ==> (
        a matches PlainTcpAction::Finish(Err(f)) && f@ == (match old(p).side {
            Side::Local => "local-tcp accept: "@,
            Side::Remote => "remote-tcp accept: "@,
        }) + e->AcceptFailed_0@),
        old(p).phase is Waiting && e is Closed ==> a == PlainTcpAction::Finish(Ok(())),
        old(p).phase is Over ==> a is Ignore && final(p).phase is Over,
{
}

/// A plain UDP forwarder sends every datagram on to where it was told: over the channel
/// of its sender, where that has one, and else over a new channel, opened for that
/// sender and kept for it. Other senders keep theirs.
pub proof fn law_plain_udp(
    p: &mut PlainUdp,
    e: PlainUdpEvent,
    a: PlainUdpAction,
    other: Endpoint,
)
    requires
        call_ensures(PlainUdp::step, (p, e), a),
    ensures
        final(p).to == old(p).to && final(p).side == old(p).side && final(p).listen
            == old(p).listen,
        a matches PlainUdpAction::Forward { to, channel, len } ==> {
            &&& to == old(p).to
            &&& e matches PlainUdpEvent::Datagram { from, len: n } && n == len && old(p).sessions@.contains_key(from@) && channel == old(p).sessions@[from@]
        },
        a matches PlainUdpAction::ForwardNew { to, channel, len, peer } ==> {
            &&& to == old(p).to
            &&& e == PlainUdpEvent::Opened(channel)
            &&& old(p).phase matches PlainPhase::Opening { from, len: n } && from == peer && n == len
            &&& final(p).sessions@.contains_key(peer@) && final(p).sessions@[peer@] == channel
            &&& final(p).phase is Waiting
        },
        a is Dial || a is Bind ==> (e matches PlainUdpEvent::Datagram { from, len } && !old(p).sessions@.contains_key(from@) && final(p).phase == (PlainPhase::Opening { from, len })),
        a is Dial ==> old(p).side is Local,
        a is Bind ==> old(p).side is Remote,
        old(p).phase is Waiting && (e matches PlainUdpEvent::Datagram { from, .. } && old(p).sessions@.contains_key(from@)) ==> a is Forward,
        old(p).phase is Waiting && (e matches PlainUdpEvent::Datagram { from, .. } && !old(p).sessions@.contains_key(from@)) ==> a is Dial || a is Bind,
        old(p).phase is Opening && e is Opened ==> a is ForwardNew,
        old(p).phase is Opening && e is OpenFailed ==> a is Receive && final(p).phase is Waiting,
        !(old(p).phase matches PlainPhase::Opening { from, .. } && from@ == other) ==> (old(p).sessions@.contains_key(other) <==> final(p).sessions@.contains_key(other)) && (old(p).sessions@.contains_key(other) ==> final(p).sessions@[other] == old(p).sessions@[other]),
        old(p).phase is Waiting && e is Closed ==> a == PlainUdpAction::Finish(Ok(())),
        old(p).phase is Over ==> a is Ignore && final(p).phase is Over,
{
}

/// A peer whose listener ended loses its session, and no other peer does.
pub proof fn law_plain_sessions_end(p: &mut PlainUdp, peer: &SocketAddr, other: Endpoint)
    requires
        call_ensures(PlainUdp::session_over, (p, peer), ()),
    ensures
        !final(p).sessions@.contains_key(peer@),
        other != peer@ ==> (old(p).sessions@.contains_key(other) <==> final(p).sessions@.contains_key(other)) && (old(p).sessions@.contains_key(other) ==> final(p).sessions@[other] == old(p).sessions@[other]),
        final(p).to == old(p).to,
{
}

/// New plain UDP forwarders have no sessions, and their first session has the port
/// 49152, each further one the next.
pub proof fn law_new_plain_udp(
    listen: SocketAddr,
    to: SocketAddr,
    l: PlainUdp,
    r: PlainUdp,
    n: usize,
    port: u16,
)
    requires
        call_ensures(local_udp_v2, (listen, to), l),
        call_ensures(remote_udp, (listen, to), r),
        call_ensures(alloc_udp_port_v2, (n,), port),
    ensures
        l.listen == listen && l.to == to && l.phase is Starting && l.side is Local,
        r.listen == listen && r.to == to && r.phase is Starting && r.side is Remote,
        forall|k: Endpoint| !(#[trigger] l.sessions@.contains_key(k)),
        forall|k: Endpoint| !(#[trigger] r.sessions@.contains_key(k)),
        port == 49152 + n % 65536,
{
}

/// Why a plain UDP forwarder ended is told by its side, by where it listens, and by the
/// failure.
pub proof fn law_plain_udp_failures(p: &mut PlainUdp, m: String, a: PlainUdpAction)
    requires
        old(p).phase is Starting && call_ensures(
            PlainUdp::step,
            (p, PlainUdpEvent::BindFailed(m)),
            a,
        ) || old(p).phase is Waiting && call_ensures(
            PlainUdp::step,
            (p, PlainUdpEvent::ReceiveFailed(m)),
            a,
        ),
    ensures
        final(p).phase is Over,
        final(p).sessions@ == old(p).sessions@,
        a matches PlainUdpAction::Finish(Err(f)) && f@ == (match (old(p).phase, old(p).side) {
            (PlainPhase::Starting, Side::Local) => "local-udp bind "@ + socket_text(old(p).listen@)
                + ": "@,
            (PlainPhase::Starting, Side::Remote) => "remote-udp listen "@ + dec_text(
                old(p).listen.port as nat,
            ) + ": "@,
            (_, Side::Local) => "local-udp recv: "@,
            (_, Side::Remote) => "remote-udp recv: "@,
        }) + m@,
{
}

/// The session that the local side opens next has a port of its own, by how many there
/// are already.
pub proof fn law_sessions_have_ports(p: &mut PlainUdp, e: PlainUdpEvent, a: PlainUdpAction)
    requires
        call_ensures(PlainUdp::step, (p, e), a),
    ensures
        a matches PlainUdpAction::Dial { port } ==> port == 49152 + old(p).sessions@.dom().len()
            % 65536,
{
}

/// A plain UDP forwarder receives once it is bound, and goes on to receive until it
/// cannot.
pub proof fn law_plain_udp_receives(p: &mut PlainUdp, e: PlainUdpEvent, a: PlainUdpAction)
    requires
        call_ensures(PlainUdp::step, (p, e), a),
    ensures
        old(p).phase is Starting && e is Bound ==> a is Receive && final(p).phase is Waiting,
        a is Finish <==> final(p).phase is Over && !(old(p).phase is Over),
        a is Forward ==> final(p).phase is Waiting,
{
}

// ── TCP forwarders ────────────────────────────────────────────────────────────

/// A TCP forwarder is registered under the key of its forwarding, listens where that
/// says and leads where that says; other listeners stay registered as they are.
pub proof fn law_tcp_forwarders_start(
    m: TcpMapping,
    r: &mut ListenerStatsRegistry,
    f: TcpForwarder,
    s: &mut ListenerStatsRegistry,
    g: TcpForwarder,
    other: Seq<char>,
)
    requires
        call_ensures(spawn_local_tcp, (m, r), f),
        call_ensures(spawn_remote_tcp, (m, s), g),
    ensures
        f.listens_on() == m.listen && f.target() == m.target && f.phase() is Starting,
        g.listens_on() == m.listen && g.target() == m.target && g.phase() is Starting,
        f.key_text() == "ltcp:"@ + socket_text(m.listen@) + "->"@ + socket_text(m.target@),
        g.key_text() == "rtcp:"@ + dec_text(m.listen.port as nat) + "->"@ + socket_text(m.target@),
        final(r)@.contains_key(f.key_text()) && final(r)@[f.key_text()].id == f.num(),
        final(s)@.contains_key(g.key_text()) && final(s)@[g.key_text()].id == g.num(),
        !old(r)@.contains_key(f.key_text()) ==> final(r)@[f.key_text()].kind == "local-tcp"@
            && final(r)@[f.key_text()].listen == socket_text(m.listen@) && final(r)@[f.key_text()].target == socket_text(m.target@) && final(r)@[f.key_text()].active == 0,
        !old(s)@.contains_key(g.key_text()) ==> final(s)@[g.key_text()].kind == "remote-tcp"@
            && final(s)@[g.key_text()].listen == "ygg:"@ + dec_text(m.listen.port as nat) && final(s)@[g.key_text()].target == socket_text(m.target@) && final(s)@[g.key_text()].active == 0,
        old(r)@.contains_key(other) ==> final(r)@.contains_key(other) && final(r)@[other]
            == old(r)@[other],
        old(s)@.contains_key(other) ==> final(s)@.contains_key(other) && final(s)@[other]
            == old(s)@[other],
{
}

/// A TCP forwarder relays every connection that comes in while it accepts to its target
/// and to no other, goes on where one could not be accepted, and ends where it cannot
/// listen or is told to stop; its entry goes when it ends, and no other does.
pub proof fn law_tcp_forwarders_run(
    f: &mut TcpForwarder,
    r: &mut ListenerStatsRegistry,
    e: TcpEvent,
    a: TcpAction,
)
    requires
        call_ensures(TcpForwarder::step, (f, r, e), a),
    ensures
        final(f).target() == old(f).target() && final(f).listens_on() == old(f).listens_on(),
        final(f).key_text() == old(f).key_text() && final(f).num() == old(f).num(),
        a matches TcpAction::Relay { target } ==> target == old(f).target(),
        a is Relay <==> old(f).phase() is Accepting && e is Accepted,
        a is Relay ==> final(f).phase() is Accepting,
        old(f).phase() is Starting && e is Bound ==> a is Accept && final(f).phase() is Accepting,
        old(f).phase() is Accepting && e is AcceptFailed ==> a is Accept
            && final(f).phase() is Accepting,
        e is Stop ==> a is Exit && final(f).phase() is Stopped,
        old(f).phase() is Starting && e is BindFailed ==> a is Exit && final(f).phase() is Stopped,
        old(f).phase() is Stopped ==> a is Exit && final(f).phase() is Stopped && final(r)@
            == old(r)@,
        final(f).phase() is Stopped && !(old(f).phase() is Stopped) ==> !final(r)@.contains_key(
            old(f).key_text(),
        ),
        !(final(f).phase() is Stopped) ==> final(r)@ == old(r)@,
        forall|k: Seq<char>| #[trigger]
            old(r)@.contains_key(k) && k != old(f).key_text() ==> final(r)@.contains_key(k)
                && final(r)@[k] == old(r)@[k],
{
}

/// What a forwarder says of itself is what it was started with.
pub proof fn law_forwarders_say_what_they_are(
    f: &TcpForwarder,
    k: String,
    l: SocketAddr,
    e: EntryId,
    g: &UdpForwarder,
    uk: String,
    ul: SocketAddr,
    ue: EntryId,
)
    requires
        call_ensures(TcpForwarder::key, (f,), k),
        call_ensures(TcpForwarder::listen, (f,), l),
        call_ensures(TcpForwarder::entry, (f,), e),
        call_ensures(UdpForwarder::key, (g,), uk),
        call_ensures(UdpForwarder::listen, (g,), ul),
        call_ensures(UdpForwarder::entry, (g,), ue),
    ensures
        k@ == f.key_text() && l == f.listens_on() && e.num() == f.num(),
        uk@ == g.key_text() && ul == g.listens_on() && ue.num() == g.num(),
{
}

/// A relayed connection counts as active from the moment it came in until it is over,
/// however it ends, and once: bytes are copied once the target is reached, and until
/// one side ends or the forwarder stops.
pub proof fn law_relayed_connections(
    r: &mut ListenerStatsRegistry,
    entry: EntryId,
    n: TcpRelay,
    c: &mut TcpRelay,
    s: &mut ListenerStatsRegistry,
    e: RelayEvent,
    a: RelayAction,
)
    requires
        call_ensures(TcpRelay::new, (r, entry), n),
        call_ensures(TcpRelay::step, (c, s, e), a),
        can_count(old(r)@, entry.num(), 0, false),
        can_count(old(s)@, old(c).num(), 0, true),
    ensures
        n.phase() is Connecting && n.num() == entry.num(),
        counted_on(old(r)@, final(r)@, entry.num(), 1, 1, 0, 0),
        a is Copy <==> old(c).phase() is Connecting && e is Connected,
        a is Copy ==> final(c).phase() is Copying,
        old(c).phase() is Connecting && e is ConnectFailed ==> a is Fail && final(c).phase() is Over,
        old(c).phase() is Connecting && e is ConnectTimedOut ==> a is FailTimedOut
            && final(c).phase() is Over,
        old(c).phase() is Copying && (e is CopyEnded || e is Stop) <==> a is Close,
        a is Close ==> final(c).phase() is Over,
        old(c).phase() is Over ==> a is Ignore && final(c).phase() is Over,
        final(c).phase() is Over && !(old(c).phase() is Over) ==> counted_on(
            old(s)@,
            final(s)@,
            old(c).num(),
            -1,
            0,
            0,
            0,
        ),
        !(final(c).phase() is Over) || old(c).phase() is Over ==> final(s)@ == old(s)@,
{
}

/// A connection that is given up is over, and counts as closed where it was not over.
pub proof fn law_relays_are_given_up(c: &mut TcpRelay, r: &mut ListenerStatsRegistry)
    requires
        call_ensures(TcpRelay::abandon, (c, r), ()),
        can_count(old(r)@, old(c).num(), 0, true),
    ensures
        final(c).phase() is Over,
        old(c).phase() is Over ==> final(r)@ == old(r)@,
        !(old(c).phase() is Over) ==> counted_on(old(r)@, final(r)@, old(c).num(), -1, 0, 0, 0),
{
}

// ── UDP forwarders ────────────────────────────────────────────────────────────

/// A UDP forwarder is registered under the key of its forwarding, with no sessions, on
/// its side, and leads where that says; other listeners stay registered as they are.
pub proof fn law_udp_forwarders_start(
    m: UdpMapping,
    r: &mut ListenerStatsRegistry,
    f: UdpForwarder,
    s: &mut ListenerStatsRegistry,
    g: UdpForwarder,
    other: Seq<char>,
)
    requires
        call_ensures(spawn_local_udp, (m, r), f),
        call_ensures(spawn_remote_udp, (m, s), g),
    ensures
        f.listens_on() == m.listen && f@.target == m.target && f@.phase is Starting
            && f@.side is Local,
        g.listens_on() == m.listen && g@.target == m.target && g@.phase is Starting
            && g@.side is Remote,
        forall|k: Endpoint| !(#[trigger] f@.sessions.contains_key(k)),
        forall|k: Endpoint| !(#[trigger] g@.sessions.contains_key(k)),
        f.key_text() == "ludp:"@ + socket_text(m.listen@) + "->"@ + socket_text(m.target@),
        g.key_text() == "rudp:"@ + dec_text(m.listen.port as nat) + "->"@ + socket_text(m.target@),
        final(r)@.contains_key(f.key_text()) && final(r)@[f.key_text()].id == f.num(),
        final(s)@.contains_key(g.key_text()) && final(s)@[g.key_text()].id == g.num(),
        !old(r)@.contains_key(f.key_text()) ==> final(r)@[f.key_text()].kind == "local-udp"@
            && final(r)@[f.key_text()].listen == socket_text(m.listen@) && final(r)@[f.key_text()].target == socket_text(m.target@),
        !old(s)@.contains_key(g.key_text()) ==> final(s)@[g.key_text()].kind == "remote-udp"@
            && final(s)@[g.key_text()].listen == "ygg:"@ + dec_text(m.listen.port as nat) && final(s)@[g.key_text()].target == socket_text(m.target@),
        old(r)@.contains_key(other) ==> final(r)@.contains_key(other) && final(r)@[other]
            == old(r)@[other],
        old(s)@.contains_key(other) ==> final(s)@.contains_key(other) && final(s)@[other]
            == old(s)@[other],
{
}

/// A datagram of a peer with a session goes to the target, whole, over that session's
/// own socket, and marks the session as active at that time; for a peer without one a
/// socket is opened first. No other session changes.
pub proof fn law_datagrams_of_peers(
    f: &mut UdpForwarder,
    r: &mut ListenerStatsRegistry,
    from: SocketAddr,
    len: usize,
    now: u64,
    listener_finished: bool,
    a: UdpAction,
    other: Endpoint,
)
    requires
        call_ensures(
            UdpForwarder::step,
            (f, r, UdpEvent::Datagram { from, len, now, listener_finished }),
            a,
        ),
        old(f)@.phase is Waiting,
    ensures
        old(f)@.sessions.contains_key(from@) ==> ({
            let s = old(f)@.sessions[from@];
            let n = final(f)@.sessions[from@];
            &&& a == (UdpAction::Send { socket: s.socket, to: old(f)@.target, len })
            &&& final(f)@.sessions.contains_key(from@)
            &&& n.socket == s.socket && n.listener == s.listener && n.last_active == now
            &&& final(f)@.phase == (UdpPhase::Sending {
                from,
                len,
                socket: s.socket,
                need_listener: s.listener is None || listener_finished,
            })
        }),
        !old(f)@.sessions.contains_key(from@) ==> {
            &&& a == (UdpAction::Open { from })
            &&& final(f)@.phase == (UdpPhase::Opening { from, len })
            &&& !final(f)@.sessions.contains_key(from@)
        },
        other != from@ ==> (old(f)@.sessions.contains_key(other) <==> final(f)@.sessions.contains_key(other)) && (old(f)@.sessions.contains_key(other) ==> final(f)@.sessions[other] == old(f)@.sessions[other]),
        final(f)@.target == old(f)@.target && final(f)@.side == old(f)@.side,
        old(f)@.side is Local ==> final(r)@ == old(r)@,
        old(f)@.side is Remote && can_count(old(r)@, old(f).num(), len as nat, false) ==> counted_on(
            old(r)@,
            final(r)@,
            old(f).num(),
            0,
            0,
            len as int,
            0,
        ),
{
}

/// A socket that was opened for a peer is that peer's session from then on, and the
/// datagram that asked for it goes over it to the target; once that was sent, a
/// listener is run on that socket for that peer, and belongs to the session.
pub proof fn law_sessions_are_opened(
    fs: Seq<&mut UdpForwarder>,
    rs: Seq<&mut ListenerStatsRegistry>,
    es: Seq<UdpEvent>,
    acts: Seq<UdpAction>,
    from: SocketAddr,
    len: usize,
    socket: u64,
    now: u64,
    task: u64,
)
    requires
        fs.len() == 3 && rs.len() == 3 && es.len() == 3 && acts.len() == 3,
        forall|i: int|
            0 <= i < 3 ==> #[trigger] call_ensures(
                UdpForwarder::step,
                (fs[i], rs[i], es[i]),
                acts[i],
            ),
        forall|i: int| 0 <= i < 2 ==> *final(#[trigger] fs[i]) == *fs[i + 1],
        fs[0]@.phase == (UdpPhase::Opening { from, len }),
        es[0] == (UdpEvent::Opened { socket, now }),
        es[1] is Sent,
        es[2] == (UdpEvent::ListenerStarted { task }),
    ensures
        acts[0] == (UdpAction::Send { socket, to: fs[0]@.target, len }),
        acts[1] == (UdpAction::Listen { socket, peer: from }),
        acts[2] is Receive,
        final(fs[2])@.phase is Waiting,
        final(fs[2])@.sessions.contains_key(from@),
        final(fs[2])@.sessions[from@] == (UdpSession {
            socket,
            last_active: now,
            listener: Some(task),
        }),
        forall|k: Endpoint|
            #![trigger fs[0]@.sessions.contains_key(k)]
            k != from@ && fs[0]@.sessions.contains_key(k) ==> final(fs[2])@.sessions.contains_key(k)
                && final(fs[2])@.sessions[k] == fs[0]@.sessions[k],
{
    assert(call_ensures(UdpForwarder::step, (fs[0], rs[0], es[0]), acts[0]));
    assert(*final(fs[0]) == *fs[1]);
    assert(call_ensures(UdpForwarder::step, (fs[1], rs[1], es[1]), acts[1]));
    assert(*final(fs[1]) == *fs[2]);
    assert(call_ensures(UdpForwarder::step, (fs[2], rs[2], es[2]), acts[2]));
}

/// A datagram that was sent on is counted as sent where it goes to the network, and a
/// listener is run only where one is needed; one that could not be sent is given up.
pub proof fn law_sent_datagrams(
    f: &mut UdpForwarder,
    r: &mut ListenerStatsRegistry,
    e: UdpEvent,
    a: UdpAction,
    from: SocketAddr,
    len: usize,
    socket: u64,
    need_listener: bool,
)
    requires
        call_ensures(UdpForwarder::step, (f, r, e), a),
        old(f)@.phase == (UdpPhase::Sending { from, len, socket, need_listener }),
        can_count(old(r)@, old(f).num(), len as nat, false),
    ensures
        e is Sent && need_listener ==> a == (UdpAction::Listen { socket, peer: from })
            && final(f)@.phase == (UdpPhase::Listening { from }),
        e is Sent && !need_listener ==> a is Receive && final(f)@.phase is Waiting,
        e is Sent && old(f)@.side is Local ==> counted_on(
            old(r)@,
            final(r)@,
            old(f).num(),
            0,
            0,
            0,
            len as int,
        ),
        e is Sent && old(f)@.side is Remote ==> final(r)@ == old(r)@,
        e is SendFailed ==> final(r)@ == old(r)@,
        e is SendFailed && old(f)@.side is Local ==> a is Receive && final(f)@.phase is Waiting,
        e is Sent || e is SendFailed ==> final(f)@.sessions == old(f)@.sessions,
{
}

/// A UDP forwarder begins to receive once it is bound, survives failures to receive and
/// to open sockets, ends where it cannot be bound, and does nothing once it ended.
pub proof fn law_udp_forwarders_run(
    f: &mut UdpForwarder,
    r: &mut ListenerStatsRegistry,
    e: UdpEvent,
    a: UdpAction,
)
    requires
        call_ensures(UdpForwarder::step, (f, r, e), a),
    ensures
        old(f)@.phase is Starting && e is Bound ==> a is Receive && final(f)@.phase is Waiting,
        old(f)@.phase is Starting && e is BindFailed ==> {
            &&& a is Exit && final(f)@.phase is Stopped
            &&& !final(r)@.contains_key(old(f).key_text())
        },
        old(f)@.phase is Waiting && e is ReceiveFailed ==> a is Receive && final(f)@.phase is Waiting
            && final(f)@.sessions == old(f)@.sessions,
        old(f)@.phase is Opening && e is OpenFailed ==> a is Receive && final(f)@.phase is Waiting
            && final(f)@.sessions == old(f)@.sessions,
        old(f)@.phase is Stopped ==> a is Exit && final(f)@ == old(f)@ && final(r)@ == old(r)@,
        a matches UdpAction::Send { to, .. } ==> to == old(f)@.target,
        a is Exit ==> final(f)@.phase is Stopped,
        final(f)@.target == old(f)@.target && final(f)@.side == old(f)@.side,
        final(f).listens_on() == old(f).listens_on() && final(f).key_text() == old(f).key_text()
            && final(f).num() == old(f).num(),
        forall|k: Seq<char>| #[trigger]
            old(r)@.contains_key(k) && k != old(f).key_text() && old(r)@[k].id != old(f).num()
                ==> final(r)@.contains_key(k) && final(r)@[k] == old(r)@[k],
{
}

/// Sessions that nothing was sent in for thirty seconds are evicted, and only these:
/// their listeners are aborted, and those of no other session.
pub proof fn law_idle_sessions_are_evicted(
    f: &mut UdpForwarder,
    now: u64,
    aborted: Vec<u64>,
    k: Endpoint,
)
    requires
        call_ensures(UdpForwarder::tick, (f, now), aborted),
    ensures
        final(f)@.sessions.contains_key(k) <==> old(f)@.sessions.contains_key(k) && now < old(f)@.sessions[k].last_active + 30_000_000_000,
        final(f)@.sessions.contains_key(k) ==> final(f)@.sessions[k] == old(f)@.sessions[k],
        old(f)@.sessions.contains_key(k) && !final(f)@.sessions.contains_key(k) ==> (old(f)@.sessions[k].listener matches Some(t) ==> aborted@.contains(t)),
        forall|t: u64| #[trigger]
            aborted@.contains(t) ==> exists|j: Endpoint| #[trigger]
                old(f)@.sessions.contains_key(j) && !final(f)@.sessions.contains_key(j) && old(f)@.sessions[j].listener == Some(t),
        final(f)@.phase == old(f)@.phase && final(f)@.target == old(f)@.target,
{
    let m = old(f)@.sessions;
    assert forall|t: u64| #[trigger] aborted@.contains(t) implies exists|j: Endpoint| #[trigger]
        m.contains_key(j) && !final(f)@.sessions.contains_key(j) && m[j].listener == Some(t) by {
        let j = choose|j: Endpoint| #[trigger]
            m.contains_key(j) && stale(m[j], now as nat) && m[j].listener
                == Some(t);
        assert(m.contains_key(j));
    }
}

/// A UDP forwarder that is stopped has no sessions, aborts the listener of every one
/// that it had, and is no longer registered.
pub proof fn law_udp_forwarders_stop(
    f: &mut UdpForwarder,
    r: &mut ListenerStatsRegistry,
    aborted: Vec<u64>,
    k: Endpoint,
)
    requires
        call_ensures(UdpForwarder::stop, (f, r), aborted),
    ensures
        final(f)@.phase is Stopped,
        !final(f)@.sessions.contains_key(k),
        old(f)@.sessions.contains_key(k) ==> (old(f)@.sessions[k].listener matches Some(t)
            ==> aborted@.contains(t)),
        forall|t: u64| #[trigger]
            aborted@.contains(t) ==> exists|j: Endpoint| #[trigger]
                old(f)@.sessions.contains_key(j) && old(f)@.sessions[j].listener == Some(t),
        !final(r)@.contains_key(old(f).key_text()),
        forall|o: Seq<char>| #[trigger]
            old(r)@.contains_key(o) && o != old(f).key_text() ==> final(r)@.contains_key(o)
                && final(r)@[o] == old(r)@[o],
{
}

/// What a forwarder says of its sessions is so.
pub proof fn law_sessions_are_known(
    f: &UdpForwarder,
    peer: &SocketAddr,
    known: bool,
    listener: Option<u64>,
    n: usize,
)
    requires
        call_ensures(UdpForwarder::has_session, (f, peer), known),
        call_ensures(UdpForwarder::listener_of, (f, peer), listener),
        call_ensures(UdpForwarder::session_count, (f,), n),
    ensures
        known <==> f@.sessions.contains_key(peer@),
        known ==> listener == f@.sessions[peer@].listener,
        !known ==> listener is None,
        n == f@.sessions.dom().len(),
{
}

/// The replies of a session go to its own peer, and count as received where they come
/// from the network, and as sent where they go to it; the session counts as active
/// from its start to its end, once.
pub proof fn law_replies_go_to_the_peer(
    r: &mut ListenerStatsRegistry,
    entry: EntryId,
    side: Side,
    peer: SocketAddr,
    l: UdpListener,
    s: &mut ListenerStatsRegistry,
    len: usize,
    to: SocketAddr,
    m: &mut UdpListener,
    t: &mut ListenerStatsRegistry,
)
    requires
        call_ensures(UdpListener::new, (r, entry, side, peer), l),
        call_ensures(UdpListener::received, (&l, s, len), to),
        *m == l,
        call_ensures(UdpListener::ended, (m, t), ()),
        can_count(old(r)@, entry.num(), 0, false),
        can_count(old(s)@, entry.num(), len as nat, false),
        can_count(old(t)@, entry.num(), 0, true),
    ensures
        to == peer,
        counted_on(old(r)@, final(r)@, entry.num(), 1, 1, 0, 0),
        side is Local ==> counted_on(old(s)@, final(s)@, entry.num(), 0, 0, len as int, 0),
        side is Remote ==> counted_on(old(s)@, final(s)@, entry.num(), 0, 0, 0, len as int),
        counted_on(old(t)@, final(t)@, entry.num(), -1, 0, 0, 0),
        !final(m).active(),
{
}

/// A table has at most one item per peer: the one that it was given last.
pub proof fn law_tables_hold_one_item_per_peer(
    t: &mut PeerTable<u64>,
    peer: SocketAddr,
    item: u64,
    u: PeerTable<u64>,
    other: &SocketAddr,
    r: Option<u64>,
)
    requires
        call_ensures(PeerTable::<u64>::insert, (t, peer, item), ()),
        u == *final(t),
        call_ensures(PeerTable::<u64>::get, (&u, other), r),
    ensures
        other@ == peer@ ==> r == Some(item),
        other@ != peer@ ==> (r matches Some(v) <==> old(t)@.contains_key(other@)),
        other@ != peer@ && old(t)@.contains_key(other@) ==> r == Some(old(t)@[other@]),
{
}

/// Taking stale sessions out of a table takes those out that nothing was sent in for
/// thirty seconds, with their listeners, and leaves the others as they are.
pub proof fn law_stale_sessions_go(
    t: &mut PeerTable<UdpSession>,
    now: u64,
    aborted: Vec<u64>,
    k: Endpoint,
)
    requires
        call_ensures(evict_stale, (t, now), aborted),
    ensures
        final(t)@.contains_key(k) <==> old(t)@.contains_key(k) && now < old(t)@[k].last_active
            + 30_000_000_000,
        final(t)@.contains_key(k) ==> final(t)@[k] == old(t)@[k],
        old(t)@.contains_key(k) && !final(t)@.contains_key(k) ==> (old(t)@[k].listener matches Some(
            task,
        ) ==> aborted@.contains(task)),
        forall|task: u64| #[trigger]
            aborted@.contains(task) ==> exists|j: Endpoint| #[trigger]
                old(t)@.contains_key(j) && !final(t)@.contains_key(j) && old(t)@[j].listener
                    == Some(task),
{
    let m = old(t)@;
    assert forall|task: u64| #[trigger] aborted@.contains(task) implies exists|
        j: Endpoint,
    | #[trigger]
        m.contains_key(j) && !final(t)@.contains_key(j) && m[j].listener == Some(task) by {
        let j = choose|j: Endpoint| #[trigger]
            m.contains_key(j) && stale(m[j], now as nat) && m[j].listener == Some(task);
        assert(m.contains_key(j));
    }
}

/// Aborting all sessions leaves none, and aborts the listener of each.
pub proof fn law_all_sessions_go(t: &mut PeerTable<UdpSession>, aborted: Vec<u64>, k: Endpoint)
    requires
        call_ensures(abort_all_sessions, (t,), aborted),
    ensures
        !final(t)@.contains_key(k),
        old(t)@.contains_key(k) ==> (old(t)@[k].listener matches Some(task) ==> aborted@.contains(
            task,
        )),
        forall|task: u64| #[trigger]
            aborted@.contains(task) ==> exists|j: Endpoint| #[trigger]
                old(t)@.contains_key(j) && old(t)@[j].listener == Some(task),
{
}

/// A peer that is taken out of a table has no item, and the others keep theirs.
pub proof fn law_tables_forget_peers(
    t: &mut PeerTable<u64>,
    peer: &SocketAddr,
    u: PeerTable<u64>,
    other: &SocketAddr,
    r: Option<u64>,
)
    requires
        call_ensures(PeerTable::<u64>::remove, (t, peer), ()),
        u == *final(t),
        call_ensures(PeerTable::<u64>::get, (&u, other), r),
    ensures
        other@ == peer@ ==> r is None,
        other@ != peer@ ==> (r is Some <==> old(t)@.contains_key(other@)),
        other@ != peer@ && old(t)@.contains_key(other@) ==> r == Some(old(t)@[other@]),
{
}

/// Taking any item out gives one that was there and leaves the others; where there is
/// none, the table is empty. A new table is empty, and a table is as long as it has peers.
pub proof fn law_tables_are_emptied(
    n: PeerTable<u64>,
    t: &mut PeerTable<u64>,
    r: Option<(SocketAddr, u64)>,
    k: Endpoint,
    l: &PeerTable<u64>,
    len: usize,
)
    requires
        call_ensures(PeerTable::<u64>::new, (), n),
        call_ensures(PeerTable::<u64>::pop, (t,), r),
        call_ensures(PeerTable::<u64>::len, (l,), len),
    ensures
        !n@.contains_key(k),
        r is None ==> !old(t)@.contains_key(k) && !final(t)@.contains_key(k),
        r matches Some(p) ==> {
            &&& old(t)@.contains_key(p.0@) && old(t)@[p.0@] == p.1
            &&& final(t)@.contains_key(k) <==> old(t)@.contains_key(k) && k != p.0@
            &&& final(t)@.contains_key(k) ==> final(t)@[k] == old(t)@[k]
        },
        len == l@.dom().len(),
{
}

// ── Events that do not belong ─────────────────────────────────────────────────

/// A datagram of a remote peer that could not be sent on is given up, and the peer gets
/// its listener all the same, where it needs one; one of a local peer does not.
pub proof fn law_unsent_datagrams(
    f: &mut UdpForwarder,
    r: &mut ListenerStatsRegistry,
    a: UdpAction,
    from: SocketAddr,
    len: usize,
    socket: u64,
    need_listener: bool,
)
    requires
        call_ensures(UdpForwarder::step, (f, r, UdpEvent::SendFailed), a),
        old(f)@.phase == (UdpPhase::Sending { from, len, socket, need_listener }),
    ensures
        final(r)@ == old(r)@ && final(f)@.sessions == old(f)@.sessions,
        old(f)@.side is Remote && need_listener ==> a == (UdpAction::Listen { socket, peer: from })
            && final(f)@.phase == (UdpPhase::Listening { from }),
        old(f)@.side is Local || !need_listener ==> a is Receive && final(f)@.phase is Waiting,
{
}

/// A listener that runs belongs to the session of its peer, where that is still there.
pub proof fn law_listeners_belong_to_sessions(
    f: &mut UdpForwarder,
    r: &mut ListenerStatsRegistry,
    a: UdpAction,
    from: SocketAddr,
    task: u64,
    other: Endpoint,
)
    requires
        call_ensures(UdpForwarder::step, (f, r, UdpEvent::ListenerStarted { task }), a),
        old(f)@.phase == (UdpPhase::Listening { from }),
    ensures
        a is Receive && final(f)@.phase is Waiting && final(r)@ == old(r)@,
        old(f)@.sessions.contains_key(other) <==> final(f)@.sessions.contains_key(other),
        old(f)@.sessions.contains_key(other) ==> {
            let (was, now) = (old(f)@.sessions[other], final(f)@.sessions[other]);
            &&& now.socket == was.socket && now.last_active == was.last_active
            &&& now.listener == if other == from@ {
                Some(task)
            } else {
                was.listener
            }
        },
{
}

/// An event that does not belong where a forwarder or a relay is changes nothing.
pub proof fn law_stray_events_are_ignored(
    f: &mut UdpForwarder,
    r: &mut ListenerStatsRegistry,
    e: UdpEvent,
    a: UdpAction,
    g: &mut TcpForwarder,
    s: &mut ListenerStatsRegistry,
    d: TcpEvent,
    b: TcpAction,
    l: &mut TcpRelay,
    t: &mut ListenerStatsRegistry,
    h: RelayEvent,
    c: RelayAction,
)
    requires
        call_ensures(UdpForwarder::step, (f, r, e), a),
        call_ensures(TcpForwarder::step, (g, s, d), b),
        call_ensures(TcpRelay::step, (l, t, h), c),
    ensures
        a is Ignore ==> final(f)@ == old(f)@ && final(r)@ == old(r)@,
        b is Ignore ==> final(g).phase() == old(g).phase() && final(s)@ == old(s)@,
        c is Ignore ==> final(l).phase() == old(l).phase() && final(t)@ == old(t)@,
        ({
            let p = old(f)@.phase;
            a is Ignore <==> !(p is Stopped) && match e {
                UdpEvent::Bound => !(p is Starting),
                UdpEvent::BindFailed => !(p is Starting),
                UdpEvent::Datagram { .. } => !(p is Waiting),
                UdpEvent::ReceiveFailed => !(p is Waiting),
                UdpEvent::Opened { .. } => !(p is Opening),
                UdpEvent::OpenFailed => !(p is Opening),
                UdpEvent::Sent => !(p is Sending),
                UdpEvent::SendFailed => !(p is Sending),
                UdpEvent::ListenerStarted { .. } => !(p is Listening),
            }
        }),
        ({
            let p = old(g).phase();
            b is Ignore <==> !(p is Stopped) && match d {
                TcpEvent::Bound => !(p is Starting),
                TcpEvent::BindFailed => !(p is Starting),
                TcpEvent::Accepted => !(p is Accepting),
                TcpEvent::AcceptFailed => !(p is Accepting),
                TcpEvent::Stop => false,
            }
        }),
        ({
            let p = old(l).phase();
            c is Ignore <==> match h {
                RelayEvent::Connected => !(p is Connecting),
                RelayEvent::ConnectFailed => !(p is Connecting),
                RelayEvent::ConnectTimedOut => !(p is Connecting),
                RelayEvent::CopyEnded => !(p is Copying),
                RelayEvent::Stop => !(p is Copying),
            }
        }),
{
}

/// An event that does not belong where a plain forwarder is changes nothing.
pub proof fn law_plain_stray_events_are_ignored(
    p: &mut PlainTcp,
    e: PlainTcpEvent,
    a: PlainTcpAction,
    q: &mut PlainUdp,
    d: PlainUdpEvent,
    b: PlainUdpAction,
)
    requires
        call_ensures(PlainTcp::step, (p, e), a),
        call_ensures(PlainUdp::step, (q, d), b),
    ensures
        a is Ignore ==> final(p).phase == old(p).phase,
        b is Ignore ==> final(q).phase == old(q).phase && final(q).sessions@ == old(q).sessions@,
        a is Ignore <==> match e {
            PlainTcpEvent::Bound => !(old(p).phase is Starting),
            PlainTcpEvent::BindFailed(_) => !(old(p).phase is Starting),
            PlainTcpEvent::Accepted => !(old(p).phase is Waiting),
            PlainTcpEvent::AcceptFailed(_) => !(old(p).phase is Waiting),
            PlainTcpEvent::Closed => !(old(p).phase is Waiting),
        },
        b is Ignore <==> match d {
            PlainUdpEvent::Bound => !(old(q).phase is Starting),
            PlainUdpEvent::BindFailed(_) => !(old(q).phase is Starting),
            PlainUdpEvent::Datagram { .. } => !(old(q).phase is Waiting),
            PlainUdpEvent::ReceiveFailed(_) => !(old(q).phase is Waiting),
            PlainUdpEvent::Closed => !(old(q).phase is Waiting),
            PlainUdpEvent::Opened(_) => !(old(q).phase is Opening),
            PlainUdpEvent::OpenFailed => !(old(q).phase is Opening),
        },
{
}

} // verus!
