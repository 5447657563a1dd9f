//! What holds of the netstack over several calls.
use smoltcp::iface::SocketHandle;
use vstd::prelude::*;
use crate::addr::{Endpoint, Ip, endpoint};
use crate::netstack::sockets::{
    RouteKind, RouteModel, SocketModel, TcpModel, after_close, connected, first_route,
    has_room_for, is_tcp, is_unspecified, listened, may_send, new_tcp, tcp_at, with_address,
    with_route,
};
use crate::netstack::stack::{after_read, after_write, read_len, write_len};
use crate::netstack::{Listener, collected, is_established, listener_holds, listening_at, serviced};

verus! {

/// Two reads take what one read into a buffer of both lengths would: what was
/// received comes out in order, and none of it is lost or repeated.
pub proof fn law_reads_in_order(t: TcpModel, a: nat, b: nat)
    ensures
        t.rx.take(read_len(t, a) as int) + after_read(t, a).rx.take(
            read_len(after_read(t, a), b) as int,
        ) == t.rx.take(read_len(t, a + b) as int),
        after_read(after_read(t, a), b) == after_read(t, a + b),
{
    let n = read_len(t, a) as int;
    let m = read_len(after_read(t, a), b) as int;
    assert(t.rx.take(n) + t.rx.skip(n).take(m) =~= t.rx.take(n + m));
    assert(t.rx.skip(n).skip(m) =~= t.rx.skip(n + m));
}

/// What two writes take waits to be sent in the order it was written.
pub proof fn law_writes_in_order(t: TcpModel, a: Seq<u8>, b: Seq<u8>)
    requires
        t.tx.len() <= t.tx_capacity,
    ensures
        ({
            let u = after_write(t, a);
            after_write(u, b).tx == t.tx + a.take(write_len(t, a.len()) as int) + b.take(
                write_len(u, b.len()) as int,
            )
        }),
        after_write(t, a).tx.len() <= t.tx_capacity,
        t.tx.len() + a.len() <= t.tx_capacity ==> after_write(t, a).tx == t.tx + a,
{
    if t.tx.len() + a.len() <= t.tx_capacity {
        assert(a.take(a.len() as int) =~= a);
    }
}

/// After the sending half was closed nothing more can be sent, and closing it
/// again changes nothing.
pub proof fn law_close_ends_sending(t: TcpModel)
    ensures
        !may_send(TcpModel { state: after_close(t.state), ..t }),
        after_close(after_close(t.state)) == after_close(t.state),
{
}

/// A connection that a listener's blank socket got waits behind those that came
/// before it, and the listener goes on listening with a socket of its own.
pub proof fn law_established_connections_queue<W>(
    before: Listener<W>,
    after: Listener<W>,
    m: Map<SocketHandle, SocketModel>,
    n: Map<SocketHandle, SocketModel>,
)
    requires
        serviced(before, after, m, n),
        m.contains_key(before.handle),
        is_established(tcp_at(m, before.handle)),
    ensures
        after.queue.last() == before.handle,
        after.queue.drop_last() == before.queue,
        after.handle != before.handle,
        n[after.handle] == listening_at(before.addr, before.port),
        !is_established(tcp_at(n, after.handle)),
{
    assert(after.queue.drop_last() =~= before.queue);
}

/// Servicing a listener whose blank socket is not established does nothing.
pub proof fn law_idle_listeners_stay<W>(
    before: Listener<W>,
    after: Listener<W>,
    m: Map<SocketHandle, SocketModel>,
    n: Map<SocketHandle, SocketModel>,
)
    requires
        serviced(before, after, m, n),
        !is_established(tcp_at(m, before.handle)),
    ensures
        after == before,
{
}

/// A collection never takes a socket of a listener, a live connection or a socket
/// of another protocol, and collecting twice does no more than collecting once.
pub proof fn law_collection_spares_live_sockets<W>(
    m: Map<SocketHandle, SocketModel>,
    ls: Seq<Listener<W>>,
    h: SocketHandle,
)
    requires
        m.contains_key(h),
    ensures
        listener_holds(ls, h) ==> collected(m, ls).contains_key(h),
        !(m[h] is Tcp) ==> collected(m, ls).contains_key(h),
        is_tcp(m, h) && !(tcp_at(m, h).state is Closed) && !(tcp_at(m, h).state is TimeWait)
            ==> collected(m, ls).contains_key(h),
        is_tcp(m, h) && tcp_at(m, h).state is TimeWait && !listener_holds(ls, h) ==> !collected(
            m,
            ls,
        ).contains_key(h),
        collected(collected(m, ls), ls) == collected(m, ls),
{
    assert(collected(collected(m, ls), ls) =~= collected(m, ls));
}

/// A new socket is always let begin a connection to an IPv6 address with a port
/// that is not unspecified; the connection goes there.
pub proof fn law_dial_goes_to_remote(
    addresses: Seq<Ip>,
    remote: Endpoint,
    local_port: nat,
    rx_capacity: nat,
    tx_capacity: nat,
)
    requires
        remote.ip is V6,
        remote.port != 0,
        !is_unspecified(remote.ip),
        local_port != 0,
    ensures
        connected(
            new_tcp(rx_capacity, tx_capacity),
            addresses,
            remote,
            local_port,
        ) matches Ok(t) && t.peer == Some((local_port, endpoint(remote.ip, remote.port)))
            && t.state is SynSent,
{
}

/// A new socket is let listen on any port but 0.
pub proof fn law_new_socket_listens(
    addr: Seq<u8>,
    port: nat,
    rx_capacity: nat,
    tx_capacity: nat,
)
    ensures
        listened(new_tcp(rx_capacity, tx_capacity), addr, port) is Ok <==> port != 0,
{
}

/// On an interface without addresses and routes, the node's own address and a
/// default route through it find room, and so do an IPv4 address and a default
/// route through that.
pub proof fn law_fresh_interfaces_have_room(own: Ip, v4: Ip)
    ensures
        ({
            let no_addresses = Seq::<Ip>::empty();
            let no_routes = Seq::<RouteModel>::empty();
            let routes = with_route(no_routes, RouteKind::DefaultV6, own);
            &&& has_room_for(no_routes, RouteKind::DefaultV6)
            &&& has_room_for(routes, RouteKind::DefaultV4)
            &&& with_address(with_address(no_addresses, own), v4) == seq![own, v4]
            &&& with_route(routes, RouteKind::DefaultV4, v4) == seq![
                RouteModel { kind: RouteKind::DefaultV6, via: own },
                RouteModel { kind: RouteKind::DefaultV4, via: v4 },
            ]
        }),
{
    let no_routes = Seq::<RouteModel>::empty();
    assert(first_route(no_routes, RouteKind::DefaultV6, 0) is None);
    let routes = with_route(no_routes, RouteKind::DefaultV6, own);
    assert(routes =~= seq![RouteModel { kind: RouteKind::DefaultV6, via: own }]);
    assert(first_route(routes, RouteKind::DefaultV4, 1) is None);
    assert(first_route(routes, RouteKind::DefaultV4, 0) is None);
    assert(with_address(with_address(Seq::<Ip>::empty(), own), v4) =~= seq![own, v4]);
    assert(with_route(routes, RouteKind::DefaultV4, v4) =~= seq![
        RouteModel { kind: RouteKind::DefaultV6, via: own },
        RouteModel { kind: RouteKind::DefaultV4, via: v4 },
    ]);
}

} // verus!
