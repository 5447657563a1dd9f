//! What holds of calls of the netstack: what is dialled, accepted, sent and received.
use smoltcp::iface::{Interface, SocketHandle};
use vstd::prelude::*;
use crate::addr::{Ip, Ipv4Addr, Ipv6Addr, SocketAddr, parse_socket, read_socket, v4_text};
use crate::addr_laws::{is_endpoint, law_socket_round_trip, law_v4_round_trip};
use crate::error::{ErrorKind, NetError};
use crate::netstack::device::{YggDevice, packet_buffer, packets};
use crate::netstack::sockets::{
    RouteKind, RouteModel, SocketError, SocketModel, TcpModel, addresses_of, asked_delay,
    is_source_for, is_tcp, is_udp, is_unspecified, prefixes_of, routes_of, tcp_at, udp_at,
};
use crate::netstack::stack::{
    Ipv4Setup, Progress, ReadOutcome, TcpListener, TcpStream, UdpSocket, YggNetstack,
    connect_outcome, dial_target, ephemeral_port, in_use, ipv4_cidr, listener_on, parse_ipv4_cidr,
    transport_mtu,
};
use crate::netstack::{
    LoopEvent, NetstackState, PendingConnect, Polled, ReaderAction, capped_poll_delay, connects,
    listener_holds, reader_forwarded, reader_next, woken,
};
use crate::text::{
    dec_text, lemma_dec_round_trip, lemma_dec_text, lemma_find_from_is, parse_dec, trim, trim_end_ws,
    trim_start_ws,
};
use crate::netstack::frag::{FragReassembler, feed_step};
use crate::netstack::frag_laws::{carries, lemma_single_fragment, named, whole};

verus! {

// ── Accepting ─────────────────────────────────────────────────────────────────

proof fn lemma_listener_on<W>(ls: Seq<crate::netstack::Listener<W>>, port: nat, from: int)
    requires
        0 <= from,
    ensures
        match listener_on(ls, port, from) {
            Some(i) => from <= i < ls.len() && ls[i].port == port && forall|j: int|
                from <= j < i ==> (#[trigger] ls[j]).port != port,
            None => forall|j: int| from <= j < ls.len() ==> (#[trigger] ls[j]).port != port,
        },
    decreases ls.len() - from,
{
    if from < ls.len() && ls[from].port != port {
        lemma_listener_on(ls, port, from + 1);
    }
}

/// A connection that is handed out was the first to wait at a listener of the very
/// port that is accepted on, and waits there no longer.
pub proof fn law_connections_are_accepted_on_their_port<W, T>(
    l: &TcpListener,
    state: &mut NetstackState<W, T>,
    waker: W,
    r: Progress<TcpStream>,
)
    requires
        call_ensures(TcpListener::accept::<W, T>, (l, state, waker), r),
    ensures
        r matches Progress::Ready(s) ==> exists|i: int| #![trigger old(state).listening()[i]]
            {
                &&& 0 <= i < old(state).listening().len()
                &&& old(state).listening()[i].port == l.port
                &&& old(state).listening()[i].queue.len() > 0
                &&& s.handle == old(state).listening()[i].queue[0]
                &&& final(state).listening()[i].queue == old(state).listening()[i].queue.skip(1)
            },
{
    lemma_listener_on(old(state).listening(), l.port as nat, 0);
    if r is Ready {
        let i = listener_on(old(state).listening(), l.port as nat, 0).unwrap();
        assert(old(state).listening()[i].port == l.port);
    }
}

/// Accepting on one port touches neither the waiting connections nor the wakers of a
/// listener of another port, and no listener changes its address or port.
pub proof fn law_accepting_spares_other_ports<W, T>(
    l: &TcpListener,
    state: &mut NetstackState<W, T>,
    waker: W,
    r: Progress<TcpStream>,
)
    requires
        call_ensures(TcpListener::accept::<W, T>, (l, state, waker), r),
    ensures
        final(state).listening().len() == old(state).listening().len(),
        forall|j: int| #![trigger final(state).listening()[j]]
            0 <= j < old(state).listening().len() ==> {
                let (a, b) = (old(state).listening()[j], final(state).listening()[j]);
                &&& b.addr == a.addr && b.port == a.port && b.handle == a.handle
                &&& a.port != l.port ==> b == a
            },
        final(state).model() == old(state).model(),
        final(state).wakers == old(state).wakers,
        final(state).pending_connects == old(state).pending_connects,
{
    lemma_listener_on(old(state).listening(), l.port as nat, 0);
}

/// Where a connection waits at the one listener of a port, it is handed out; where
/// none does, the caller waits there, and nobody else has to wait.
pub proof fn law_waiting_connections_are_handed_out<W, T>(
    l: &TcpListener,
    state: &mut NetstackState<W, T>,
    waker: W,
    r: Progress<TcpStream>,
    i: int,
)
    requires
        call_ensures(TcpListener::accept::<W, T>, (l, state, waker), r),
        0 <= i < old(state).listening().len(),
        old(state).listening()[i].port == l.port,
        forall|j: int|
            0 <= j < i ==> (#[trigger] old(state).listening()[j]).port != l.port,
    ensures
        r is Ready <==> old(state).listening()[i].queue.len() > 0,
        r matches Progress::Ready(s) ==> s.handle == old(state).listening()[i].queue[0],
        r is Ready ==> final(state).listening()[i].wakers == old(state).listening()[i].wakers,
        r is Pending ==> final(state).listening()[i].wakers == old(state).listening()[i].wakers.push(waker),
        r is Pending ==> final(state).listening()[i].queue == old(state).listening()[i].queue,
{
    lemma_listener_on(old(state).listening(), l.port as nat, 0);
}

/// A listener that was started listens on the node's own address and on the port that
/// was asked for, and on no other.
pub proof fn law_listeners_listen_on_their_port<W, T>(
    n: &mut YggNetstack<W, T>,
    port: u16,
    r: Result<TcpListener, NetError>,
)
    requires
        call_ensures(YggNetstack::<W, T>::listen_tcp, (n, port), r),
    ensures
        r is Ok <==> port != 0,
        r matches Ok(l) ==> {
            let ls = final(n).state.listening();
            &&& l.port == port
            &&& ls.len() == old(n).state.listening().len() + 1
            &&& ls.drop_last() == old(n).state.listening()
            &&& ls.last().port == port
            &&& ls.last().addr == old(n).our_addr.octets@
            &&& ls.last().queue.len() == 0
            &&& final(n).state.model()[ls.last().handle] matches SocketModel::Tcp(t)
                && t.state is Listen && t.listen.port == port && t.listen.addr == Some(
                old(n).our_addr.octets@,
            )
        },
        r is Err ==> final(n).state.listening() == old(n).state.listening(),
        forall|h: SocketHandle| #[trigger]
            old(n).state.model().contains_key(h) ==> final(n).state.model().contains_key(h)
                && final(n).state.model()[h] == old(n).state.model()[h],
{
    if r is Ok {
        assert(final(n).state.listening().drop_last() =~= old(n).state.listening());
    }
}

/// Whether a connection that came can be accepted: it is established, or the other side
/// has closed it already but left something to read.
pub open spec fn can_be_accepted(t: TcpModel) -> bool {
    t.state is Established || t.state is CloseWait && t.rx.len() > 0
}

/// A connection that got established at a listener's own socket waits at that
/// listener, behind those that came before; a new socket listens in its place, on the
/// same address and port; those who wait there, and nobody else, are woken.
pub proof fn law_connections_wait_at_their_listener<W, T>(
    state: &mut NetstackState<W, T>,
    wake: Vec<W>,
    i: int,
)
    requires
        call_ensures(NetstackState::<W, T>::service_listeners, (state,), wake),
        0 <= i < old(state).listening().len(),
        old(state).listeners@.len() == old(state).listening().len(),
    ensures
        final(state).listening().len() == old(state).listening().len(),
        ({
            let (a, b) = (old(state).listening()[i], final(state).listening()[i]);
            let t = tcp_at(old(state).model(), a.handle);
            &&& b.addr == a.addr
            &&& b.port == a.port
            &&& can_be_accepted(t) ==> {
                &&& b.queue == a.queue.push(a.handle)
                &&& b.wakers.len() == 0
                &&& final(state).model()[b.handle] matches SocketModel::Tcp(u)
                    && u.state is Listen && u.listen.port == a.port && u.listen.addr == Some(a.addr)
            }
            &&& !can_be_accepted(t) ==> b == a
        }),
        forall|h: SocketHandle| #[trigger]
            old(state).model().contains_key(h) ==> final(state).model().contains_key(h)
                && final(state).model()[h] == old(state).model()[h],
{
}

/// Wakers that wait at listeners are woken where a connection came: all of that
/// listener's, and none of a listener where none came.
pub proof fn law_accepting_tasks_are_woken<W, T>(
    state: &mut NetstackState<W, T>,
    wake: Vec<W>,
    w: W,
)
    requires
        call_ensures(NetstackState::<W, T>::service_listeners, (state,), wake),
    ensures
        wake@.contains(w) <==> exists|i: int, k: int| #![trigger old(state).listening()[i].wakers[k]]
            0 <= i < old(state).listening().len() && 0 <= k < old(state).listening()[i].wakers.len() && can_be_accepted(
                tcp_at(old(state).model(), old(state).listening()[i].handle),
            ) && old(state).listening()[i].wakers[k] == w,
{
    lemma_woken(old(state).listening(), old(state).model(), w);
}

proof fn lemma_woken<W>(
    ls: Seq<crate::netstack::Listener<W>>,
    m: Map<SocketHandle, SocketModel>,
    w: W,
)
    ensures
        woken(ls, m).contains(w) <==> exists|i: int, k: int| #![trigger ls[i].wakers[k]]
            0 <= i < ls.len() && 0 <= k < ls[i].wakers.len() && can_be_accepted(
                tcp_at(m, ls[i].handle),
            ) && ls[i].wakers[k] == w,
    decreases ls.len(),
{
    if ls.len() > 0 {
        let d = ls.drop_last();
        lemma_woken(d, m, w);
        let first = woken(d, m);
        let n = ls.len() - 1;
        if can_be_accepted(tcp_at(m, ls.last().handle)) {
            let all = first + ls.last().wakers;
            if all.contains(w) {
                let j = choose|j: int| 0 <= j < all.len() && all[j] == w;
                if j < first.len() {
                    assert(first[j] == w);
                    let (i, k) = choose|i: int, k: int| #![trigger d[i].wakers[k]]
                        0 <= i < d.len() && 0 <= k < d[i].wakers.len() && can_be_accepted(
                            tcp_at(m, d[i].handle),
                        ) && d[i].wakers[k] == w;
                    assert(ls[i].wakers[k] == w);
                } else {
                    assert(ls[n].wakers[j - first.len()] == w);
                }
            }
            if exists|i: int, k: int| #![trigger ls[i].wakers[k]]
                0 <= i < ls.len() && 0 <= k < ls[i].wakers.len() && can_be_accepted(
                    tcp_at(m, ls[i].handle),
                ) && ls[i].wakers[k] == w {
                let (i, k) = choose|i: int, k: int| #![trigger ls[i].wakers[k]]
                    0 <= i < ls.len() && 0 <= k < ls[i].wakers.len() && can_be_accepted(
                        tcp_at(m, ls[i].handle),
                    ) && ls[i].wakers[k] == w;
                if i < n {
                    assert(d[i].wakers[k] == w);
                    let j = choose|j: int| 0 <= j < first.len() && first[j] == w;
                    assert(all[j] == w);
                } else {
                    assert(all[first.len() + k] == w);
                }
            }
        } else {
            if first.contains(w) {
                let (i, k) = choose|i: int, k: int| #![trigger d[i].wakers[k]]
                    0 <= i < d.len() && 0 <= k < d[i].wakers.len() && can_be_accepted(
                        tcp_at(m, d[i].handle),
                    ) && d[i].wakers[k] == w;
                assert(ls[i].wakers[k] == w);
            }
            if exists|i: int, k: int| #![trigger ls[i].wakers[k]]
                0 <= i < ls.len() && 0 <= k < ls[i].wakers.len() && can_be_accepted(
                    tcp_at(m, ls[i].handle),
                ) && ls[i].wakers[k] == w {
                let (i, k) = choose|i: int, k: int| #![trigger ls[i].wakers[k]]
                    0 <= i < ls.len() && 0 <= k < ls[i].wakers.len() && can_be_accepted(
                        tcp_at(m, ls[i].handle),
                    ) && ls[i].wakers[k] == w;
                assert(d[i].wakers[k] == w);
            }
        }
    }
}

// ── Dialling ──────────────────────────────────────────────────────────────────

/// Dialling queues one connection, to exactly the address that was dialled, from a
/// new socket and an ephemeral port, and answers to the caller's own slot; what was
/// queued before stays in front.
pub proof fn law_dials_queue_their_address<W, T>(
    n: &mut YggNetstack<W, T>,
    remote: SocketAddr,
    reply: T,
    r: Result<TcpStream, NetError>,
)
    requires
        call_ensures(YggNetstack::<W, T>::dial_tcp, (n, remote, reply), r),
    ensures
        r is Err <==> remote.ip is V4 && !old(n).ipv4,
        r matches Ok(s) ==> {
            let q = final(n).state.pending_connects@;
            &&& q.len() == old(n).state.pending_connects@.len() + 1
            &&& q.drop_last() == old(n).state.pending_connects@
            &&& q.last().remote == remote
            &&& q.last().handle == s.handle
            &&& q.last().reply == reply
            &&& q.last().local_port >= 49152
            &&& !old(n).state.model().contains_key(s.handle)
        },
        r matches Err(e) ==> e.kind == ErrorKind::InvalidInput && final(n).state == old(n).state,
        final(n).state.listeners == old(n).state.listeners,
{
    if r is Ok {
        assert(final(n).state.pending_connects@.drop_last() =~= old(n).state.pending_connects@);
    }
}

/// A dialled connection is begun to the address that was dialled: after the next
/// poll's connections were begun, its socket connects there, from the port it was
/// given.
pub proof fn law_dialled_connections_are_begun<W, T>(
    n: &mut YggNetstack<W, T>,
    remote: SocketAddr,
    reply: T,
    r: Result<TcpStream, NetError>,
    state: &mut NetstackState<W, T>,
    replies: Vec<(T, Result<(), SocketError>)>,
)
    requires
        call_ensures(YggNetstack::<W, T>::dial_tcp, (n, remote, reply), r),
        *state == final(n).state,
        call_ensures(NetstackState::<W, T>::process_connects, (state,), replies),
        r is Ok,
        forall|i: int|
            0 <= i < old(n).state.pending_connects@.len() ==> old(n).state.model().contains_key(
                (#[trigger] old(n).state.pending_connects@[i]).handle,
            ),
        remote.ip is V6,
        remote.port != 0,
        exists|k: int| 0 <= k < 16 && remote.ip@->V6_0[k] != 0,
        remote.ip@->V6_0.len() == 16,
    ensures
        replies@.len() == old(n).state.pending_connects@.len() + 1,
        replies@.last().0 == reply,
        replies@.last().1 is Ok,
        final(state).pending_connects@.len() == 0,
        final(state).model()[r->Ok_0.handle] matches SocketModel::Tcp(t) && t.state is SynSent
            && (t.peer matches Some((port, to)) && port >= 49152 && to.ip == remote.ip@ && to.port
            == remote.port),
{
    let h = r->Ok_0.handle;
    let q = final(n).state.pending_connects@;
    let before = old(n).state.pending_connects@;
    let m = final(n).state.model();
    let addresses = addresses_of(final(n).state.iface);
    assert(q.drop_last() =~= before);
    assert(q.last().handle == h && q.last().remote == remote && q.last().local_port >= 49152);
    assert forall|i: int| 0 <= i < before.len() implies (#[trigger] before[i]).handle != h by {
        assert(old(n).state.model().contains_key(before[i].handle));
    }
    lemma_connects_others(m, addresses, before, h);
    let k = choose|k: int| 0 <= k < 16 && remote.ip@->V6_0[k] != 0;
    assert(!is_unspecified(remote@.ip));
    let mid = connects(m, addresses, before);
    assert(mid.0[h] == m[h]);
    lemma_connects_len(m, addresses, q);
    lemma_connects_len(m, addresses, before);
    assert(replies@.last() == replies@[before.len() as int]);
}

/// Beginning connections leaves the other sockets alone.
proof fn lemma_connects_others<T>(
    m: Map<SocketHandle, SocketModel>,
    addresses: Seq<Ip>,
    pending: Seq<PendingConnect<T>>,
    h: SocketHandle,
)
    requires
        forall|i: int| 0 <= i < pending.len() ==> (#[trigger] pending[i]).handle != h,
    ensures
        connects(m, addresses, pending).0[h] == m[h],
        connects(m, addresses, pending).0.contains_key(h) == m.contains_key(h),
    decreases pending.len(),
{
    if pending.len() > 0 {
        let d = pending.drop_last();
        assert forall|i: int| 0 <= i < d.len() implies (#[trigger] d[i]).handle != h by {
            assert(d[i] == pending[i]);
        }
        lemma_connects_others(m, addresses, d, h);
        assert(pending.last() == pending[pending.len() - 1]);
    }
}

proof fn lemma_connects_len<T>(
    m: Map<SocketHandle, SocketModel>,
    addresses: Seq<Ip>,
    pending: Seq<PendingConnect<T>>,
)
    ensures
        connects(m, addresses, pending).1.len() == pending.len(),
    decreases pending.len(),
{
    if pending.len() > 0 {
        lemma_connects_len(m, addresses, pending.drop_last());
    }
}

/// Every caller that waits for a connection to be begun gets exactly one answer, in
/// order, and nothing stays queued; listeners are not touched.
pub proof fn law_every_dial_is_answered<W, T>(
    state: &mut NetstackState<W, T>,
    replies: Vec<(T, Result<(), SocketError>)>,
)
    requires
        call_ensures(NetstackState::<W, T>::process_connects, (state,), replies),
    ensures
        replies@.len() == old(state).pending_connects@.len(),
        forall|i: int|
            0 <= i < replies@.len() ==> (#[trigger] replies@[i]).0 == old(state).pending_connects@[i].reply,
        final(state).pending_connects@.len() == 0,
        final(state).listeners == old(state).listeners,
{
}

/// What came of beginning a connection is what the caller learns: that the stack is
/// gone, that it was refused, or that it was begun.
pub proof fn law_dial_outcomes(reply: Option<Result<(), SocketError>>, r: Result<(), NetError>)
    requires
        call_ensures(connect_outcome, (reply,), r),
    ensures
        r is Ok <==> (reply matches Some(Ok(_))),
        reply is None ==> (r matches Err(e) && e.kind == ErrorKind::BrokenPipe),
        reply matches Some(Err(_)) ==> (r matches Err(e) && e.kind == ErrorKind::ConnectionRefused),
{
}

/// A generic connection over TCP goes to the very address that its text writes; other
/// networks are not supported.
pub proof fn law_generic_dials_go_to_their_address(
    network: &str,
    address: &str,
    a: SocketAddr,
    r: Result<SocketAddr, NetError>,
)
    requires
        call_ensures(dial_target, (network, address), r),
        is_endpoint(a@),
        address@ == crate::addr::socket_text(a@),
    ensures
        network@ == "tcp"@ || network@ == "tcp6"@ ==> (r matches Ok(s) && s@ == a@),
        network@ != "tcp"@ && network@ != "tcp6"@ ==> (r matches Err(e) && e.kind
            == ErrorKind::Unsupported),
{
    law_socket_round_trip(a@);
}

/// A text that is no address with a port is not dialled.
pub proof fn law_unreadable_addresses_are_not_dialled(
    network: &str,
    address: &str,
    r: Result<SocketAddr, NetError>,
)
    requires
        call_ensures(dial_target, (network, address), r),
        parse_socket(address@) is None,
    ensures
        r matches Err(e) && e.kind == ErrorKind::InvalidInput,
{
}

/// Ephemeral ports are those from 49152 on, and every one of them can come up.
pub proof fn law_ephemeral_ports(random: u16, port: u16)
    requires
        call_ensures(ephemeral_port, (random,), port),
    ensures
        port >= 49152,
        random >= 49152 ==> port == random,
{
}

/// Whether an IPv6 address can be reached follows from the stack's addresses: it is
/// reached from a global address, wherever it is, unless it is local to a link.
pub proof fn law_global_addresses_reach<W, T>(
    n: &YggNetstack<W, T>,
    remote: &SocketAddr,
    r: bool,
    k: int,
)
    requires
        call_ensures(YggNetstack::<W, T>::can_reach, (n, remote), r),
        0 <= k < addresses_of(n.state.iface).len(),
        addresses_of(n.state.iface)[k] matches Ip::V6(o) && (o[0] == 2 || o[0] == 3),
        remote.ip@ matches Ip::V6(o) && o[0] != 0xfe,
    ensures
        r,
{
    let src = addresses_of(n.state.iface)[k]->V6_0;
    let dst = remote.ip@->V6_0;
    assert(is_source_for(dst, src));
    assert(addresses_of(n.state.iface)[k] == Ip::V6(src));
}

// ── Streams ───────────────────────────────────────────────────────────────────

/// A connection that is dialled is there once it is established, is refused where it
/// was closed before, and is waited for in between.
pub proof fn law_connections_are_awaited<W, T>(
    s: &TcpStream,
    state: &mut NetstackState<W, T>,
    waker: W,
    r: Progress<Result<(), NetError>>,
)
    requires
        call_ensures(TcpStream::wait_connected::<W, T>, (s, state, waker), r),
    ensures
        ({
            let t = tcp_at(old(state).model(), s.handle).state;
            &&& (r matches Progress::Ready(v) && v is Ok) <==> t is Established
            &&& (r matches Progress::Ready(v) && v is Err) <==> t is Closed || t is TimeWait
                || t is CloseWait
            &&& r matches Progress::Ready(Err(e)) ==> e.kind == ErrorKind::ConnectionRefused
            &&& r is Pending ==> final(state).wakers@ == old(state).wakers@.push(waker)
            &&& r is Ready ==> final(state).wakers@ == old(state).wakers@
        }),
        final(state).model() == old(state).model(),
{
}

/// What a read gives are the first bytes that were received, as many as there are and
/// fit; they are taken out, and what waits to be sent stays. The rest of the buffer,
/// and every other socket, is not touched.
pub proof fn law_reads_give_what_came<W, T>(
    s: &TcpStream,
    state: &mut NetstackState<W, T>,
    buf: &mut [u8],
    waker: W,
    r: ReadOutcome,
)
    requires
        call_ensures(TcpStream::poll_read::<W, T>, (s, state, buf, waker), r),
        is_tcp(old(state).model(), s.handle),
    ensures
        ({
            let t = tcp_at(old(state).model(), s.handle);
            let u = tcp_at(final(state).model(), s.handle);
            &&& r is Data <==> t.rx.len() > 0 && old(buf)@.len() > 0
            &&& r matches ReadOutcome::Data(n) ==> {
                &&& n == t.rx.len() || n == old(buf)@.len()
                &&& n <= t.rx.len() && n <= old(buf)@.len()
                &&& final(buf)@.take(n as int) == t.rx.take(n as int)
                &&& final(buf)@.skip(n as int) == old(buf)@.skip(n as int)
                &&& u.rx == t.rx.skip(n as int)
                &&& u.tx == t.tx
                &&& u.state == t.state
            }
            &&& !(r is Data) ==> final(buf)@ == old(buf)@ && final(state).model() == old(state).model()
            &&& r is Eof ==> !(t.state is Established)
            &&& t.state is CloseWait && t.rx.len() == 0 ==> r is Eof
            &&& t.state is Established && t.rx.len() == 0 ==> r is Pending
            &&& r is Pending ==> final(state).wakers@ == old(state).wakers@.push(waker)
        }),
        forall|h: SocketHandle| #[trigger]
            old(state).model().contains_key(h) && h != s.handle ==> final(state).model().contains_key(h) && final(state).model()[h] == old(state).model()[h],
{
    let t = tcp_at(old(state).model(), s.handle);
    assert(old(buf)@.len() == vstd::slice::spec_slice_len(&*old(buf)));
    if let ReadOutcome::Data(n) = r {
        let b = final(buf)@;
        assert(b.take(n as int) =~= t.rx.take(n as int));
        assert(b.skip(n as int) =~= old(buf)@.skip(n as int));
    }
}

/// What a write takes are the first bytes that were written, as many as there is room
/// for; they wait to be sent behind what waited before, and what was received stays.
/// No other socket is touched.
pub proof fn law_writes_are_sent_in_order<W, T>(
    s: &TcpStream,
    state: &mut NetstackState<W, T>,
    data: &[u8],
    waker: W,
    r: Progress<Result<usize, NetError>>,
)
    requires
        call_ensures(TcpStream::poll_write::<W, T>, (s, state, data, waker), r),
        is_tcp(old(state).model(), s.handle),
        tcp_at(old(state).model(), s.handle).tx.len() <= tcp_at(
            old(state).model(),
            s.handle,
        ).tx_capacity,
    ensures
        ({
            let t = tcp_at(old(state).model(), s.handle);
            let u = tcp_at(final(state).model(), s.handle);
            let open = t.state is Established || t.state is CloseWait;
            let room = t.tx_capacity - t.tx.len();
            &&& !open <==> (r matches Progress::Ready(Err(e)) && e.kind == ErrorKind::BrokenPipe)
            &&& open && room == 0 <==> r is Pending
            &&& r matches Progress::Ready(Ok(n)) ==> {
                &&& n == data@.len() || n == room
                &&& n <= data@.len() && n <= room
                &&& u.tx == t.tx + data@.take(n as int)
                &&& u.rx == t.rx
                &&& u.state == t.state
            }
            &&& !(r matches Progress::Ready(Ok(_))) ==> final(state).model() == old(state).model()
            &&& r is Pending ==> final(state).wakers@ == old(state).wakers@.push(waker)
        }),
        forall|h: SocketHandle| #[trigger]
            old(state).model().contains_key(h) && h != s.handle ==> final(state).model().contains_key(h) && final(state).model()[h] == old(state).model()[h],
{
}

/// Shutting a stream down ends its sending half, and loses nothing of what was
/// received or waits to be sent; closing it removes its socket. Other sockets stay.
pub proof fn law_streams_are_closed<W, T>(
    s: &TcpStream,
    a: &mut NetstackState<W, T>,
    b: &mut NetstackState<W, T>,
)
    requires
        call_ensures(TcpStream::poll_shutdown::<W, T>, (s, a), ()),
        call_ensures(TcpStream::close::<W, T>, (s, b), ()),
        is_tcp(old(a).model(), s.handle),
    ensures
        ({
            let t = tcp_at(old(a).model(), s.handle);
            let u = tcp_at(final(a).model(), s.handle);
            &&& !(u.state is Established) && !(u.state is CloseWait)
            &&& t.state is Established ==> u.state is FinWait1
            &&& t.state is CloseWait ==> u.state is LastAck
            &&& u.rx == t.rx && u.tx == t.tx
        }),
        !final(b).model().contains_key(s.handle),
        forall|h: SocketHandle|
            #![trigger old(a).model().contains_key(h)]
            #![trigger old(b).model().contains_key(h)]
            h != s.handle ==> {
                &&& old(a).model().contains_key(h) ==> final(a).model().contains_key(h)
                    && final(a).model()[h] == old(a).model()[h]
                &&& old(b).model().contains_key(h) ==> final(b).model().contains_key(h)
                    && final(b).model()[h] == old(b).model()[h]
            },
{
}

// ── Datagrams ─────────────────────────────────────────────────────────────────

/// A datagram that is received is the first that came, whole, with where it came
/// from; it comes out once. One that does not fit in the buffer is lost, and said to
/// be.
pub proof fn law_datagrams_are_received_in_order<W, T>(
    s: &UdpSocket,
    state: &mut NetstackState<W, T>,
    buf: &mut [u8],
    waker: W,
    r: Progress<Result<(usize, SocketAddr), NetError>>,
)
    requires
        call_ensures(UdpSocket::recv_from::<W, T>, (s, state, buf, waker), r),
        is_udp(old(state).model(), s.handle),
    ensures
        ({
            let u = udp_at(old(state).model(), s.handle);
            let v = udp_at(final(state).model(), s.handle);
            &&& r matches Progress::Ready(Ok(w)) ==> {
                &&& u.rx.len() > 0
                &&& w.0 == u.rx[0].1.len()
                &&& w.0 <= old(buf)@.len()
                &&& final(buf)@.take(w.0 as int) == u.rx[0].1
                &&& w.1@ == u.rx[0].0
                &&& v.rx == u.rx.skip(1)
                &&& v.tx == u.tx
            }
            &&& r is Ready && u.rx.len() > 0 && u.rx[0].1.len() <= old(buf)@.len()
                && u.rx[0].0.ip is V6 ==> (r matches Progress::Ready(Ok(_)))
            &&& r is Ready && u.rx.len() > 0 && u.rx[0].1.len() > old(buf)@.len() ==> (
            r matches Progress::Ready(Err(_))) && v.rx == u.rx.skip(1) && final(buf)@ == old(buf)@
            &&& r is Pending ==> u.rx.len() == 0 && final(state).wakers@ == old(state).wakers@.push(waker) && final(state).model() == old(state).model()
        }),
        forall|h: SocketHandle| #[trigger]
            old(state).model().contains_key(h) && h != s.handle ==> final(state).model().contains_key(h) && final(state).model()[h] == old(state).model()[h],
{
    let u = udp_at(old(state).model(), s.handle);
    if let Progress::Ready(Ok(w)) = r {
        assert(final(buf)@.take(w.0 as int) =~= u.rx[0].1);
    }
}

/// A datagram that is sent waits behind those that were sent before, whole, for the
/// address and port that it is sent to; one to an IPv4 address, to the unspecified
/// address or to port 0 is refused, and changes nothing.
pub proof fn law_datagrams_are_sent_where_asked<W, T>(
    s: &UdpSocket,
    state: &mut NetstackState<W, T>,
    data: &[u8],
    target: SocketAddr,
    waker: W,
    r: Progress<Result<usize, NetError>>,
)
    requires
        call_ensures(UdpSocket::send_to::<W, T>, (s, state, data, target, waker), r),
        is_udp(old(state).model(), s.handle),
    ensures
        ({
            let u = udp_at(old(state).model(), s.handle);
            let v = udp_at(final(state).model(), s.handle);
            &&& r matches Progress::Ready(Ok(n)) ==> {
                &&& n == data@.len()
                &&& target.ip is V6 && target.port != 0
                &&& v.tx.len() == u.tx.len() + 1
                &&& v.tx.drop_last() == u.tx
                &&& v.tx.last().0.ip == target.ip@
                &&& v.tx.last().0.port == target.port
                &&& v.tx.last().1 == data@
                &&& v.rx == u.rx
            }
            &&& target.ip is V4 ==> (r matches Progress::Ready(Err(e)) && e.kind
                == ErrorKind::InvalidInput)
            &&& target.port == 0 ==> !(r matches Progress::Ready(Ok(_)))
            &&& !(r matches Progress::Ready(Ok(_))) ==> final(state).model() == old(state).model()
            &&& r is Pending ==> final(state).wakers@ == old(state).wakers@.push(waker)
        }),
        forall|h: SocketHandle| #[trigger]
            old(state).model().contains_key(h) && h != s.handle ==> final(state).model().contains_key(h) && final(state).model()[h] == old(state).model()[h],
{
    let u = udp_at(old(state).model(), s.handle);
    let v = udp_at(final(state).model(), s.handle);
    if r matches Progress::Ready(Ok(_)) {
        assert(v.tx.drop_last() =~= u.tx);
    }
}

/// A socket that was bound is bound to the node's own address and to the port that was
/// asked for; one that was opened, to an ephemeral port of any address. Both are new,
/// and send at once whatever fits: a datagram of up to 65536 bytes with somewhere to
/// go.
pub proof fn law_udp_sockets_are_bound<W, T>(
    n: &mut YggNetstack<W, T>,
    port: u16,
    r: Result<UdpSocket, NetError>,
    m: &mut YggNetstack<W, T>,
    q: Result<UdpSocket, NetError>,
)
    requires
        call_ensures(YggNetstack::<W, T>::bind_udp, (n, port), r),
        call_ensures(YggNetstack::<W, T>::open_udp, (m,), q),
    ensures
        r is Ok <==> port != 0,
        q is Ok,
        r matches Ok(s) ==> {
            &&& !old(n).state.model().contains_key(s.handle)
            &&& final(n).state.model()[s.handle] matches SocketModel::Udp(u) && u.bound.port == port
                && u.bound.addr == Some(old(n).our_addr.octets@) && u.rx.len() == 0 && u.tx.len()
                == 0
        },
        q matches Ok(s) ==> {
            &&& !old(m).state.model().contains_key(s.handle)
            &&& final(m).state.model()[s.handle] matches SocketModel::Udp(u) && 49152
                <= u.bound.port <= 65535 && u.bound.addr is None && u.rx.len() == 0 && u.tx.len()
                == 0
        },
        forall|h: SocketHandle|
            #![trigger old(n).state.model().contains_key(h)]
            #![trigger old(m).state.model().contains_key(h)]
            {
                &&& old(n).state.model().contains_key(h) ==> final(n).state.model().contains_key(h)
                    && final(n).state.model()[h] == old(n).state.model()[h]
                &&& old(m).state.model().contains_key(h) ==> final(m).state.model().contains_key(h)
                    && final(m).state.model()[h] == old(m).state.model()[h]
            },
{
}

/// What a new socket is asked to send to an IPv6 address with a port, it sends.
pub proof fn law_new_sockets_send<W, T>(
    n: &mut YggNetstack<W, T>,
    q: Result<UdpSocket, NetError>,
    state: &mut NetstackState<W, T>,
    data: &[u8],
    target: SocketAddr,
    waker: W,
    r: Progress<Result<usize, NetError>>,
)
    requires
        call_ensures(YggNetstack::<W, T>::open_udp, (n,), q),
        *state == final(n).state,
        q is Ok,
        call_ensures(UdpSocket::send_to::<W, T>, (&q->Ok_0, state, data, target, waker), r),
        data@.len() <= 65536,
        target.port != 0,
        target.ip@ matches Ip::V6(o) && o.len() == 16 && o[0] != 0,
    ensures
        r matches Progress::Ready(Ok(len)) && len == data@.len(),
{
    assert(!is_unspecified(target@.ip));
}

/// Closing a UDP socket removes it, and no other.
pub proof fn law_udp_sockets_are_closed<W, T>(s: &UdpSocket, state: &mut NetstackState<W, T>)
    requires
        call_ensures(UdpSocket::close::<W, T>, (s, state), ()),
    ensures
        !final(state).model().contains_key(s.handle),
        forall|h: SocketHandle| #[trigger]
            old(state).model().contains_key(h) && h != s.handle ==> final(state).model().contains_key(h) && final(state).model()[h] == old(state).model()[h],
{
}

// ── The loop ──────────────────────────────────────────────────────────────────

/// After a poll everything that is to go out is handed out, in order, and everyone
/// who waited is woken; nothing of it is left, and what came in stays.
pub proof fn law_polls_hand_everything_out<W, T>(state: &mut NetstackState<W, T>, r: Polled<W>)
    requires
        call_ensures(NetstackState::<W, T>::finish_poll, (state,), r),
    ensures
        r.packets@ == old(state).device.tx_queue@,
        r.wakers@ == old(state).wakers@,
        final(state).device.tx_queue@.len() == 0,
        final(state).wakers@.len() == 0,
        final(state).device.rx_queue@ == old(state).device.rx_queue@,
        final(state).pending_connects == old(state).pending_connects,
        forall|i: int|
            0 <= i < old(state).listeners@.len() ==> {
                let (a, b) = (#[trigger] old(state).listening()[i], final(state).listening()[i]);
                &&& b.port == a.port && b.addr == a.addr
                &&& tcp_at(old(state).model(), a.handle).state is Established ==> b.queue
                    == a.queue.push(a.handle)
                &&& tcp_at(old(state).model(), a.handle).state is Listen ==> b == a
            },
{
}

/// The loop ends only where no more packets come in, and polls at least every fifty
/// milliseconds, sooner where the stack asks for it.
pub proof fn law_the_loop_goes_on<W, T>(
    state: &mut NetstackState<W, T>,
    f: &mut FragReassembler,
    e: LoopEvent,
    r: bool,
    asked: Option<u64>,
    delay: u64,
)
    requires
        call_ensures(NetstackState::<W, T>::on_event, (state, f, e), r),
        call_ensures(capped_poll_delay, (asked,), delay),
    ensures
        r <==> !(e is Closed),
        delay <= 50,
        asked matches Some(d) ==> delay <= d && (d <= 50 ==> delay == d),
        asked is None || asked.unwrap() > 50 ==> delay == 50,
{
}

/// Sockets that are closed are removed where no listener has them; every other socket
/// stays as it is.
pub proof fn law_only_closed_sockets_are_removed<W, T>(
    state: &mut NetstackState<W, T>,
    h: SocketHandle,
)
    requires
        call_ensures(NetstackState::<W, T>::gc_closed_tcp, (state,), ()),
        old(state).model().contains_key(h),
    ensures
        final(state).model().contains_key(h) ==> final(state).model()[h] == old(state).model()[h],
        !final(state).model().contains_key(h) <==> {
            &&& old(state).model()[h] matches SocketModel::Tcp(t) && (t.state is Closed
                || t.state is TimeWait)
            &&& forall|i: int| #![trigger old(state).listening()[i]]
                0 <= i < old(state).listening().len() ==> old(state).listening()[i].handle != h
                    && forall|k: int|
                    0 <= k < old(state).listening()[i].queue.len() ==> #[trigger] old(state).listening()[i].queue[k] != h
        },
{
    let ls = old(state).listening();
    if listener_holds(ls, h) {
        if exists|i: int| 0 <= i < ls.len() && (#[trigger] ls[i]).handle == h {
            let i = choose|i: int| 0 <= i < ls.len() && (#[trigger] ls[i]).handle == h;
            assert(ls[i].handle == h);
        } else {
            let (i, k) = choose|i: int, k: int|
                0 <= i < ls.len() && 0 <= k < ls[i].queue.len() && #[trigger] ls[i].queue[k] == h;
            assert(ls[i].queue[k] == h);
        }
    }
}

/// Of what is read from the overlay network, packets are handed on whole, empty reads
/// are passed over, and a failure ends the reading.
pub proof fn law_packets_are_handed_on(
    read: Option<usize>,
    a: ReaderAction,
    ok: bool,
    b: ReaderAction,
)
    requires
        call_ensures(reader_next, (read,), a),
        call_ensures(reader_forwarded, (ok,), b),
    ensures
        a matches ReaderAction::Forward(n) ==> read == Some(n) && n > 0,
        read matches Some(n) && n > 0 ==> a is Forward,
        read == Some(0usize) ==> a is Read,
        read is None <==> a is Exit,
        ok ==> b is Read,
        !ok ==> b is Exit,
{
}

/// The device hands packets out in the order in which they came in, each once, and
/// keeps those that go out in order.
pub proof fn law_devices_are_queues(
    d: &mut YggDevice,
    r: Option<crate::netstack::device::YggRxToken>,
    e: &mut YggDevice,
    out: Vec<Vec<u8>>,
)
    requires
        call_ensures(YggDevice::receive, (d,), r),
        call_ensures(YggDevice::take_outgoing, (e,), out),
    ensures
        r is Some <==> old(d).rx_queue@.len() > 0,
        r matches Some(t) ==> seq![t.0] + final(d).rx_queue@ == old(d).rx_queue@,
        r is None ==> final(d).rx_queue@ == old(d).rx_queue@,
        final(d).tx_queue@ == old(d).tx_queue@,
        out@ == old(e).tx_queue@,
        final(e).tx_queue@.len() == 0,
        final(e).rx_queue@ == old(e).rx_queue@,
{
    if let Some(t) = r {
        assert(seq![t.0] + final(d).rx_queue@ =~= old(d).rx_queue@);
    }
}

// ── Addresses of the stack ────────────────────────────────────────────────────

/// A new netstack on a fresh interface has the node's own address, as a single
/// address, and a default route through it, and nothing else.
pub proof fn law_new_stacks_have_the_own_address<W, T>(
    iface: Interface,
    device: YggDevice,
    own: Ipv6Addr,
    r: (YggNetstack<W, T>, bool),
)
    requires
        call_ensures(YggNetstack::<W, T>::new, (iface, device, own), r),
        addresses_of(iface).len() == 0,
        prefixes_of(iface).len() == 0,
        routes_of(iface).len() == 0,
    ensures
        r.1,
        r.0.our_addr == own,
        r.0.mtu == device.mtu,
        !r.0.ipv4,
        addresses_of(r.0.state.iface) == seq![Ip::V6(own.octets@)],
        prefixes_of(r.0.state.iface) == seq![128nat],
        routes_of(r.0.state.iface) == seq![
            RouteModel { kind: RouteKind::DefaultV6, via: Ip::V6(own.octets@) },
        ],
        r.0.state.model() == Map::<SocketHandle, SocketModel>::empty(),
        r.0.state.listeners@.len() == 0,
{
    assert(addresses_of(r.0.state.iface) =~= seq![Ip::V6(own.octets@)]);
    assert(prefixes_of(r.0.state.iface) =~= seq![128nat]);
    assert(routes_of(r.0.state.iface) =~= seq![
        RouteModel { kind: RouteKind::DefaultV6, via: Ip::V6(own.octets@) },
    ]);
}

proof fn lemma_digits_trim(s: Seq<char>)
    requires
        s.len() > 0,
        !crate::text::is_white_space(s[0]),
        !crate::text::is_white_space(s.last()),
    ensures
        trim(s) == s,
{
    assert(trim_start_ws(s) == s);
    assert(trim_end_ws(s) == s);
}

proof fn lemma_cidr(s: Seq<char>, o: Seq<u8>, prefix: nat)
    requires
        o.len() == 4,
        prefix <= 255,
        s == v4_text(o) + "/"@ + dec_text(prefix),
    ensures
        ipv4_cidr(s) == Some((o, prefix)),
        s.len() > 0,
{
    reveal_strlit("/");
    law_v4_round_trip(o);
    lemma_dec_text(prefix);
    lemma_dec_round_trip(prefix, 255);
    let a = v4_text(o);
    let d = dec_text(prefix);
    let n = a.len() as int;
    crate::addr_laws::lemma_v4_chars(a);
    assert(s[n] == '/');
    assert forall|k: int| 0 <= k < n implies s[k] != '/' by {
        assert(s[k] == a[k]);
        assert(crate::addr_laws::v4_char(a[k]));
    }
    lemma_find_from_is(s, '/', 0, n);
    assert(s.take(n) =~= a);
    assert(s.skip(n + 1) =~= d);
    assert(a.len() > 0) by {
        if a.len() == 0 {
            crate::text::lemma_find_none(a, '.');
            crate::text::lemma_split_first(a, '.');
        }
    }
    assert(crate::addr_laws::v4_char(a[0]));
    assert(crate::addr_laws::v4_char(a[a.len() - 1]));
    assert(crate::text::is_digit(d[0]) && crate::text::is_digit(d[d.len() - 1]));
    lemma_digits_trim(a);
    lemma_digits_trim(d);
}

/// An IPv4 address with the length of a prefix reads as that address and that length.
pub proof fn law_ipv4_setups_read_back(cidr: &str, o: Seq<u8>, prefix: nat, r: Option<(Ipv4Addr, u8)>)
    requires
        call_ensures(parse_ipv4_cidr, (cidr,), r),
        o.len() == 4,
        prefix <= 255,
        cidr@ == v4_text(o) + "/"@ + dec_text(prefix),
    ensures
        r matches Some(v) && v.0.octets@ == o && v.1 == prefix,
        ipv4_cidr(cidr@) == Some((o, prefix)),
{
    lemma_cidr(cidr@, o, prefix);
}

/// Where IPv4 is asked for and its address reads, a stack with one address gets that
/// address, with the length of its prefix, and a default route through it; where it is
/// not asked for or does not read, nothing changes.
pub proof fn law_ipv4_setup<W, T>(
    n: &mut YggNetstack<W, T>,
    enable: bool,
    cidr: &str,
    o: Seq<u8>,
    prefix: nat,
    r: Ipv4Setup,
)
    requires
        call_ensures(YggNetstack::<W, T>::configure_ipv4, (n, enable, cidr), r),
        o.len() == 4,
        prefix <= 32,
        cidr@ == v4_text(o) + "/"@ + dec_text(prefix),
        addresses_of(old(n).state.iface).len() == 1,
        prefixes_of(old(n).state.iface).len() == 1,
        routes_of(old(n).state.iface).len() == 1,
    ensures
        !enable ==> r is Off && final(n).state == old(n).state,
        enable ==> {
            &&& r matches Ipv4Setup::Assigned { routed } && routed
            &&& addresses_of(final(n).state.iface) == addresses_of(old(n).state.iface).push(
                Ip::V4(o),
            )
            &&& prefixes_of(final(n).state.iface) == prefixes_of(old(n).state.iface).push(prefix)
            &&& routes_of(final(n).state.iface).last() == (RouteModel {
                kind: RouteKind::DefaultV4,
                via: Ip::V4(o),
            })
        },
        final(n).state.sockets == old(n).state.sockets,
        final(n).state.listeners == old(n).state.listeners,
{
    lemma_cidr(cidr@, o, prefix);
    reveal_with_fuel(crate::netstack::sockets::first_route, 3);
}

/// The MTU that the stack uses is the transport's, up to 65535.
pub proof fn law_transport_mtu(mtu: u64, r: usize)
    requires
        call_ensures(transport_mtu, (mtu,), r),
    ensures
        r <= 65535,
        mtu <= 65535 ==> r == mtu,
        mtu > 65535 ==> r == 65535,
{
}

/// A packet of the overlay network that is no fragment waits for the stack as it came,
/// behind those that wait; so does one that came as a single fragment, once put together.
/// Only a packet does that, and it changes nothing else of the stack.
pub proof fn law_packets_come_in<W, T>(
    state: &mut NetstackState<W, T>,
    f: &mut FragReassembler,
    e: LoopEvent,
    r: bool,
    src: Seq<u8>,
    dst: Seq<u8>,
    number: nat,
    next_header: u8,
    body: Seq<u8>,
)
    requires
        call_ensures(NetstackState::<W, T>::on_event, (state, f, e), r) || (
        e matches LoopEvent::Packet(pkt) && call_ensures(
            NetstackState::<W, T>::packet_in,
            (state, f, pkt),
            (),
        )),
    ensures
        ({
            let before = packets(old(state).device.rx_queue@);
            let after = packets(final(state).device.rx_queue@);
            &&& e matches LoopEvent::Packet(pkt) ==> {
                &&& pkt@.len() < 40 || pkt@[6] != 44 ==> after == before.push(pkt@)
                &&& 40 <= pkt@.len() < 48 && pkt@[6] == 44 ==> after == before
                &&& carries(pkt@, src, dst, number, next_header, 0, false, body) && body.len()
                    <= 65535 && !old(f)@.contains_key(named(src, dst, number)) ==> after
                    == before.push(whole(src, dst, next_header, body))
                &&& after == before || after.len() == before.len() + 1 && after.drop_last()
                    == before
            }
            &&& !(e is Packet) ==> after == before && final(f)@ == old(f)@
        }),
        final(state).device.tx_queue@ == old(state).device.tx_queue@,
        final(state).device.mtu == old(state).device.mtu,
        final(state).iface == old(state).iface && final(state).sockets == old(state).sockets,
        final(state).wakers == old(state).wakers,
        final(state).pending_connects == old(state).pending_connects,
        final(state).listeners == old(state).listeners,
{
    if let LoopEvent::Packet(pkt) = e {
        let before = packets(old(state).device.rx_queue@);
        let after = packets(final(state).device.rx_queue@);
        let now = choose|now: u64|
            ({
                let step = #[trigger] feed_step(old(f)@, pkt@, now as nat);
                &&& final(f)@ == step.0
                &&& after == match step.1 {
                    Some(p) => before.push(p),
                    None => before,
                }
            });
        let step = feed_step(old(f)@, pkt@, now as nat);
        if step.1 is Some {
            assert(before.push(step.1->0).drop_last() =~= before);
        }
        if carries(pkt@, src, dst, number, next_header, 0, false, body) && body.len() <= 65535
            && !old(f)@.contains_key(named(src, dst, number)) {
            lemma_single_fragment(old(f)@, pkt@, now as nat, src, dst, number, next_header, body);
        }
    }
}

/// A new state has its interface and device, and no sockets, tasks, connections or
/// listeners.
pub proof fn law_new_states_are_empty<W, T>(
    iface: Interface,
    device: YggDevice,
    r: NetstackState<W, T>,
    h: SocketHandle,
)
    requires
        call_ensures(NetstackState::<W, T>::new, (iface, device), r),
    ensures
        r.iface == iface && r.device == device,
        !r.model().contains_key(h),
        r.wakers@.len() == 0 && r.pending_connects@.len() == 0 && r.listeners@.len() == 0,
{
}

/// A new socket is closed, holds nothing, and has room for 65536 bytes each way, and a
/// UDP socket for 64 datagrams; other sockets stay as they are.
pub proof fn law_new_sockets_have_room<W, T>(
    a: &mut NetstackState<W, T>,
    t: SocketHandle,
    b: &mut NetstackState<W, T>,
    u: SocketHandle,
    other: SocketHandle,
)
    requires
        call_ensures(NetstackState::<W, T>::new_tcp_socket, (a,), t),
        call_ensures(NetstackState::<W, T>::new_udp_socket, (b,), u),
    ensures
        !old(a).model().contains_key(t) && !old(b).model().contains_key(u),
        final(a).model().contains_key(t) && final(b).model().contains_key(u),
        final(a).model()[t] matches SocketModel::Tcp(s) && s.state is Closed && s.peer is None
            && s.rx.len() == 0 && s.tx.len() == 0 && s.rx_capacity == 65536 && s.tx_capacity
            == 65536 && s.listen.port == 0,
        final(b).model()[u] matches SocketModel::Udp(s) && s.bound.port == 0 && s.rx.len() == 0
            && s.tx.len() == 0 && s.rx_capacity.packets == 64 && s.rx_capacity.bytes == 65536
            && s.tx_capacity.packets == 64 && s.tx_capacity.bytes == 65536,
        old(a).model().contains_key(other) ==> final(a).model().contains_key(other) && final(a).model()[other] == old(a).model()[other],
        old(b).model().contains_key(other) ==> final(b).model().contains_key(other) && final(b).model()[other] == old(b).model()[other],
        final(a).listeners == old(a).listeners && final(b).listeners == old(b).listeners,
        final(a).wakers == old(a).wakers && final(b).wakers == old(b).wakers,
{
}

/// The stack is polled again within 50 milliseconds, and finding out when changes
/// nothing of it.
pub proof fn law_polls_are_never_late<W, T>(state: &mut NetstackState<W, T>, now: i64, r: u64)
    requires
        call_ensures(NetstackState::<W, T>::poll_delay_ms, (state, now), r),
    ensures
        r <= 50,
        asked_delay(old(state).iface, old(state).sockets, now) matches Some(d) ==> r <= d && (d < 50
            ==> r == d),
        asked_delay(old(state).iface, old(state).sockets, now) is None ==> r == 50,
        final(state).sockets == old(state).sockets && final(state).device == old(state).device,
        final(state).listeners == old(state).listeners && final(state).wakers == old(state).wakers,
        final(state).pending_connects == old(state).pending_connects,
{
}

/// A buffer for a packet has the length that was asked for, and holds zeros; an error of
/// a socket is told by its name.
pub proof fn law_buffers_and_names(len: usize, b: Vec<u8>, i: int, e: SocketError, n: &'static str)
    requires
        call_ensures(packet_buffer, (len,), b),
        call_ensures(SocketError::name, (e,), n),
    ensures
        b@.len() == len,
        0 <= i < len ==> b@[i] == 0,
        e is InvalidState ==> n@ == "InvalidState"@,
        e is Unaddressable ==> n@ == "Unaddressable"@,
        e is Finished ==> n@ == "Finished"@,
        e is BufferFull ==> n@ == "BufferFull"@,
        e is Exhausted ==> n@ == "Exhausted"@,
        e is Truncated ==> n@ == "Truncated"@,
{
}

// ── What is refused ───────────────────────────────────────────────────────────

/// A generic connection goes to the address that its text reads as, over the network
/// `tcp` or `tcp6`; a text that reads as none is refused, and so is any other network.
pub proof fn law_generic_dials(
    network: &str,
    address: &str,
    s: &[char],
    a: Option<SocketAddr>,
    r: Result<SocketAddr, NetError>,
)
    requires
        call_ensures(dial_target, (network, address), r),
        s@ == address@,
        call_ensures(read_socket, (s,), a),
    ensures
        ({
            let known = network@ == seq!['t', 'c', 'p'] || network@ == seq!['t', 'c', 'p', '6'];
            &&& r is Ok <==> a is Some && known
            &&& r matches Ok(t) ==> t@ == a->0@
            &&& a is None ==> (r matches Err(e) && e.kind == ErrorKind::InvalidInput && e.message@
                == "invalid socket address syntax"@)
            &&& a is Some && !known ==> (r matches Err(e) && e.kind == ErrorKind::Unsupported
                && e.message@ == "unsupported network "@ + network@)
        }),
{
    reveal_strlit("tcp");
    reveal_strlit("tcp6");
    assert("tcp"@ =~= seq!['t', 'c', 'p']);
    assert("tcp6"@ =~= seq!['t', 'c', 'p', '6']);
}

/// What came of beginning a connection is told: that the stack is gone, or the name of
/// the error.
pub proof fn law_failed_dials_say_why(
    reply: Option<Result<(), SocketError>>,
    r: Result<(), NetError>,
    e: SocketError,
    name: &'static str,
)
    requires
        call_ensures(connect_outcome, (reply,), r),
        call_ensures(SocketError::name, (e,), name),
    ensures
        r is Ok <==> reply matches Some(Ok(_)),
        reply is None ==> (r matches Err(f) && f.kind == ErrorKind::BrokenPipe && f.message@
            == "netstack closed"@),
        reply == Some(Err::<(), SocketError>(e)) ==> (r matches Err(f) && f.kind
            == ErrorKind::ConnectionRefused && f.message@ == name@),
{
}

/// Port 0 can be neither listened on nor bound.
pub proof fn law_port_zero_is_refused<W, T>(
    n: &mut YggNetstack<W, T>,
    l: Result<TcpListener, NetError>,
    m: &mut YggNetstack<W, T>,
    u: Result<UdpSocket, NetError>,
    port: u16,
)
    requires
        call_ensures(YggNetstack::<W, T>::listen_tcp, (n, port), l),
        call_ensures(YggNetstack::<W, T>::bind_udp, (m, port), u),
    ensures
        l is Err <==> port == 0,
        u is Err <==> port == 0,
        l matches Err(e) ==> e.kind == ErrorKind::AddrInUse && e.message@ == "Unaddressable"@ && final(n).state.listeners == old(n).state.listeners,
        u matches Err(e) ==> e.kind == ErrorKind::AddrInUse && e.message@ == "Unaddressable"@,
{
}

/// A connection that is established is ready; one that is closed, or was closed by the
/// other side, was refused; for any other the task waits, and it alone joins those that
/// wait.
pub proof fn law_connections_get_ready<W, T>(
    s: &TcpStream,
    state: &mut NetstackState<W, T>,
    waker: W,
    r: Progress<Result<(), NetError>>,
)
    requires
        call_ensures(TcpStream::wait_connected::<W, T>, (s, state, waker), r),
    ensures
        ({
            let t = tcp_at(old(state).model(), s.handle).state;
            let refused = t is Closed || t is TimeWait || t is CloseWait;
            &&& t is Established ==> (r matches Progress::Ready(Ok(_))) && *final(state) == *old(state)
            &&& refused ==> (r matches Progress::Ready(Err(e)) && e.kind
                == ErrorKind::ConnectionRefused && e.message@ == "connection refused"@) && *final(state) == *old(state)
            &&& !(t is Established) && !refused ==> r is Pending && final(state).wakers@ == old(state).wakers@.push(waker) && final(state).sockets == old(state).sockets && final(state).listeners == old(state).listeners && final(state).pending_connects == old(state).pending_connects
        }),
{
}

/// Nothing is written to a connection whose sending half is closed, and it is said so; a
/// datagram from an IPv4 address is lost, and so is one that does not fit.
pub proof fn law_lost_data<W, T>(
    s: &TcpStream,
    a: &mut NetstackState<W, T>,
    data: &[u8],
    w: W,
    r: Progress<Result<usize, NetError>>,
    u: &UdpSocket,
    b: &mut NetstackState<W, T>,
    buf: &mut [u8],
    v: W,
    q: Progress<Result<(usize, SocketAddr), NetError>>,
)
    requires
        call_ensures(TcpStream::poll_write::<W, T>, (s, a, data, w), r),
        call_ensures(UdpSocket::recv_from::<W, T>, (u, b, buf, v), q),
    ensures
        r matches Progress::Ready(Err(e)) ==> e.kind == ErrorKind::BrokenPipe && e.message@
            == "socket closed"@ && *final(a) == *old(a),
        ({
            let rx = udp_at(old(b).model(), u.handle).rx;
            &&& q is Ready && rx.len() > 0 && rx[0].1.len() > old(buf)@.len() ==> (
            q matches Progress::Ready(Err(e)) && e.kind == ErrorKind::Other && e.message@
                == "Truncated"@) && final(buf)@ == old(buf)@
            &&& q is Ready && rx.len() > 0 && rx[0].1.len() <= old(buf)@.len() && rx[0].0.ip is V4
                ==> (q matches Progress::Ready(Err(e)) && e.kind == ErrorKind::InvalidData
                && e.message@ == "non-IPv6 source"@)
        }),
{
}

/// An IPv4 address is dialled only where the stack was set up for it.
pub proof fn law_ipv4_must_be_set_up<W, T>(
    n: &mut YggNetstack<W, T>,
    remote: SocketAddr,
    reply: T,
    r: Result<TcpStream, NetError>,
)
    requires
        call_ensures(YggNetstack::<W, T>::dial_tcp, (n, remote, reply), r),
    ensures
        r is Err <==> remote@.ip is V4 && !old(n).ipv4,
        r matches Err(e) ==> e.kind == ErrorKind::InvalidInput && e.message@
            == "expected IPv6 address"@ && *final(n) == *old(n),
{
}

/// A datagram to an IPv4 address is refused; any other that is refused has no address to
/// go to, or is too large for the buffer, and is not sent.
pub proof fn law_refused_datagrams<W, T>(
    s: &UdpSocket,
    state: &mut NetstackState<W, T>,
    data: &[u8],
    to: SocketAddr,
    waker: W,
    r: Progress<Result<usize, NetError>>,
)
    requires
        call_ensures(UdpSocket::send_to::<W, T>, (s, state, data, to, waker), r),
    ensures
        to@.ip is V4 ==> (r matches Progress::Ready(Err(e)) && e.kind == ErrorKind::InvalidInput
            && e.message@ == "expected IPv6 address"@) && *final(state) == *old(state),
        to@.ip is V6 ==> (r matches Progress::Ready(Err(e)) ==> e.kind == ErrorKind::Other && (
        e.message@ == "Unaddressable"@ || e.message@ == "BufferFull"@) && final(state).model()
            == old(state).model()),
        to@.ip is V6 && to.port == 0 ==> !(r matches Progress::Ready(Ok(_))),
{
    assert(to@.port == to.port);
}

} // verus!
