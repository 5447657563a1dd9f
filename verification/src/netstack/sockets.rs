//! The sockets and the interface of the userspace TCP/IP stack.
//!
//! The stack itself is `smoltcp`. This module says what its sockets hold and
//! what the calls that the netstack makes do to them.
use vstd::prelude::*;
use smoltcp::iface::{Interface, SocketHandle, SocketSet};
use smoltcp::socket::{Socket, tcp, udp};
use smoltcp::wire::{
    IpAddress, IpCidr, IpEndpoint, IpListenEndpoint, Ipv4Address, Ipv4Cidr, Ipv6Address, Ipv6Cidr,
};
use crate::addr::{Endpoint, Ip, IpAddr, Ipv4Addr, Ipv6Addr, SocketAddr, endpoint};

verus! {

/// The socket set of `smoltcp`.
#[verifier::external_type_specification]
#[verifier::external_body]
pub struct ExSocketSet<'a>(SocketSet<'a>);

/// What stands for a socket of a set.
#[verifier::external_type_specification]
#[verifier::external_body]
pub struct ExSocketHandle(SocketHandle);

/// The network interface of `smoltcp`.
#[verifier::external_type_specification]
#[verifier::external_body]
pub struct ExInterface(Interface);

// ── What sockets hold ─────────────────────────────────────────────────────────

/// The state of a TCP socket.
#[derive(Clone, Copy, Debug, PartialEq, Eq, Structural)]
pub enum TcpState {
    Closed,
    Listen,
    SynSent,
    SynReceived,
    Established,
    FinWait1,
    FinWait2,
    CloseWait,
    Closing,
    LastAck,
    TimeWait,
}

/// Why a socket refused a call.
#[derive(Clone, Copy, Debug, PartialEq, Eq, Structural)]
pub enum SocketError {
    InvalidState,
    Unaddressable,
    Finished,
    BufferFull,
    Exhausted,
    Truncated,
}

impl SocketError {
    /// The name of the error.
    pub open spec fn text(self) -> Seq<char> {
        match self {
            SocketError::InvalidState => "InvalidState"@,
            SocketError::Unaddressable => "Unaddressable"@,
            SocketError::Finished => "Finished"@,
            SocketError::BufferFull => "BufferFull"@,
            SocketError::Exhausted => "Exhausted"@,
            SocketError::Truncated => "Truncated"@,
        }
    }

    /// The name of the error.
    pub fn name(self) -> (r: &'static str)
        ensures
            r@ == self.text(),
    {
        match self {
            SocketError::InvalidState => "InvalidState",
            SocketError::Unaddressable => "Unaddressable",
            SocketError::Finished => "Finished",
            SocketError::BufferFull => "BufferFull",
            SocketError::Exhausted => "Exhausted",
            SocketError::Truncated => "Truncated",
        }
    }
}

/// Whether a call was refused for a reason.
pub open spec fn fails<T>(r: Result<T, SocketError>, e: SocketError) -> bool {
    r == Err::<T, SocketError>(e)
}

/// Whether a call was not refused.
pub open spec fn succeeds(r: Result<(), SocketError>) -> bool {
    r == Ok::<(), SocketError>(())
}

/// Where a socket listens: an address, or any, and a port. Port 0 means that it
/// does not listen.
pub ghost struct Bound {
    pub addr: Option<Seq<u8>>,
    pub port: nat,
}

/// Nowhere.
pub open spec fn unbound() -> Bound {
    Bound { addr: None, port: 0 }
}

/// A TCP socket: its state, where it was told to listen, the local port and the
/// peer that it was told to connect to, what waits in its two buffers, how many
/// bytes each of them holds, and whether it gives up on a silent peer after some
/// time.
pub ghost struct TcpModel {
    pub state: TcpState,
    pub listen: Bound,
    pub peer: Option<(nat, Endpoint)>,
    pub rx: Seq<u8>,
    pub tx: Seq<u8>,
    pub rx_capacity: nat,
    pub tx_capacity: nat,
    pub timed: bool,
}

/// How many datagrams, and how many bytes of them, a buffer holds.
pub ghost struct Capacity {
    pub packets: nat,
    pub bytes: nat,
}

/// A UDP socket: where it is bound, the datagrams that wait in its two buffers, with
/// where they come from or go to, and how much each of the buffers holds.
pub ghost struct UdpModel {
    pub bound: Bound,
    pub rx: Seq<(Endpoint, Seq<u8>)>,
    pub tx: Seq<(Endpoint, Seq<u8>)>,
    pub rx_capacity: Capacity,
    pub tx_capacity: Capacity,
}

/// A socket.
pub ghost enum SocketModel {
    Tcp(TcpModel),
    Udp(UdpModel),
    /// A socket of another protocol.
    Other,
}

/// What a socket set of `smoltcp` holds.
pub uninterp spec fn sockets_of(set: SocketSet<'static>) -> Map<SocketHandle, SocketModel>;

/// Whether a socket set of `smoltcp` stands on a vector, so that any number of
/// sockets can be added to it.
pub uninterp spec fn is_growable(set: SocketSet<'static>) -> bool;

/// The addresses of an interface of `smoltcp`, in order.
pub uninterp spec fn addresses_of(iface: Interface) -> Seq<Ip>;

/// The lengths of the prefixes that the addresses of an interface of `smoltcp` have,
/// in the order of the addresses.
pub uninterp spec fn prefixes_of(iface: Interface) -> Seq<nat>;

/// Where a route leads to.
pub ghost enum RouteKind {
    /// Any IPv4 address.
    DefaultV4,
    /// Any IPv6 address.
    DefaultV6,
    /// Some addresses.
    Other,
}

/// A route: where it leads to, and the router that it goes through.
pub ghost struct RouteModel {
    pub kind: RouteKind,
    pub via: Ip,
}

/// The route table of an interface of `smoltcp`, in order.
pub uninterp spec fn routes_of(iface: Interface) -> Seq<RouteModel>;

/// The IP MTU of an interface of `smoltcp`: the MTU of the device that it was made
/// on, without the header of the device's medium, where that has one. An interface
/// keeps it; `smoltcp` has no call that reads it.
pub uninterp spec fn mtu_of(iface: Interface) -> nat;

/// Where the first route of a kind, from a position on, stands.
pub open spec fn first_route(routes: Seq<RouteModel>, kind: RouteKind, from: int) -> Option<int>
    decreases routes.len() - from,
{
    if from < 0 || from >= routes.len() {
        None
    } else if routes[from].kind == kind {
        Some(from)
    } else {
        first_route(routes, kind, from + 1)
    }
}

/// Routes without the first of a kind.
pub open spec fn without_route(routes: Seq<RouteModel>, kind: RouteKind) -> Seq<RouteModel> {
    match first_route(routes, kind, 0) {
        Some(i) => routes.remove(i),
        None => routes,
    }
}

/// Whether a table, which holds two routes, has room for a default route in place
/// of the one that it has.
pub open spec fn has_room_for(routes: Seq<RouteModel>, kind: RouteKind) -> bool {
    without_route(routes, kind).len() < 2
}

/// A table with a default route in place of the one that it had, where there is
/// room.
pub open spec fn with_route(routes: Seq<RouteModel>, kind: RouteKind, via: Ip) -> Seq<RouteModel> {
    if has_room_for(routes, kind) {
        without_route(routes, kind).push(RouteModel { kind, via })
    } else {
        without_route(routes, kind)
    }
}

/// No sockets.
pub open spec fn no_sockets() -> Map<SocketHandle, SocketModel> {
    Map::empty()
}

/// Whether a handle stands for a TCP socket.
pub open spec fn is_tcp(m: Map<SocketHandle, SocketModel>, h: SocketHandle) -> bool {
    m.contains_key(h) && m[h] is Tcp
}

/// Whether a handle stands for a UDP socket.
pub open spec fn is_udp(m: Map<SocketHandle, SocketModel>, h: SocketHandle) -> bool {
    m.contains_key(h) && m[h] is Udp
}

/// The TCP socket of a handle.
pub open spec fn tcp_at(m: Map<SocketHandle, SocketModel>, h: SocketHandle) -> TcpModel {
    m[h]->Tcp_0
}

/// The UDP socket of a handle.
pub open spec fn udp_at(m: Map<SocketHandle, SocketModel>, h: SocketHandle) -> UdpModel {
    m[h]->Udp_0
}

/// A TCP socket that has just been made.
pub open spec fn new_tcp(rx_capacity: nat, tx_capacity: nat) -> TcpModel {
    TcpModel {
        state: TcpState::Closed,
        listen: unbound(),
        peer: None,
        rx: Seq::empty(),
        tx: Seq::empty(),
        rx_capacity,
        tx_capacity,
        timed: false,
    }
}

/// A UDP socket that has just been made, with buffers of one size.
pub open spec fn new_udp(packets: nat, bytes: nat) -> UdpModel {
    let capacity = Capacity { packets, bytes };
    UdpModel {
        bound: unbound(),
        rx: Seq::empty(),
        tx: Seq::empty(),
        rx_capacity: capacity,
        tx_capacity: capacity,
    }
}

/// Whether a socket takes part in anything.
pub open spec fn is_open(state: TcpState) -> bool {
    !(state is Closed || state is TimeWait)
}

/// Whether the receiving half of a connection is open, or something received
/// still waits.
pub open spec fn may_recv(t: TcpModel) -> bool {
    t.state is Established || t.state is FinWait1 || t.state is FinWait2 || t.rx.len() > 0
}

/// Whether the sending half of a connection is open.
pub open spec fn may_send(t: TcpModel) -> bool {
    t.state is Established || t.state is CloseWait
}

/// The state after the sending half was closed.
pub open spec fn after_close(state: TcpState) -> TcpState {
    match state {
        TcpState::Listen => TcpState::Closed,
        TcpState::SynSent => TcpState::Closed,
        TcpState::SynReceived => TcpState::FinWait1,
        TcpState::Established => TcpState::FinWait1,
        TcpState::CloseWait => TcpState::LastAck,
        _ => state,
    }
}

/// The smaller of two numbers.
pub open spec fn least(a: nat, b: nat) -> nat {
    if a <= b {
        a
    } else {
        b
    }
}

/// Whether an address is unspecified, as the stack sees it: an IPv4 address whose
/// first octet is zero (`0.0.0.0/8`), or the IPv6 address whose octets are all zero.
pub open spec fn is_unspecified(ip: Ip) -> bool {
    match ip {
        Ip::V4(o) => o[0] == 0,
        Ip::V6(o) => forall|i: int| 0 <= i < o.len() ==> o[i] == 0,
    }
}

/// Whether an IPv6 address is local to a link (`fe80::/64`).
pub open spec fn is_link_local(o: Seq<u8>) -> bool {
    o[0] == 0xfe && o[1] == 0x80 && forall|i: int| 2 <= i < 8 ==> o[i] == 0
}

/// Whether an IPv6 address is `::1`.
pub open spec fn is_loopback(o: Seq<u8>) -> bool {
    o[15] == 1 && forall|i: int| 0 <= i < 15 ==> o[i] == 0
}

/// Whether packets to one address may come from another.
pub open spec fn is_source_for(dst: Seq<u8>, src: Seq<u8>) -> bool {
    (is_link_local(dst) ==> is_link_local(src)) && !is_loopback(src) && src[0] != 0xff
}

/// Whether one of an interface's addresses may be the source of packets to an
/// IPv6 address.
pub open spec fn has_source(addresses: Seq<Ip>, dst: Seq<u8>) -> bool {
    exists|i: int|
        0 <= i < addresses.len() && (#[trigger] addresses[i] matches Ip::V6(src) && is_source_for(
            dst,
            src,
        ))
}

/// Whether a connection to an endpoint, where it is not refused at once, has an
/// address to come from.
pub open spec fn is_reachable(addresses: Seq<Ip>, remote: Endpoint) -> bool {
    remote.port != 0 && !is_unspecified(remote.ip) ==> (remote.ip matches Ip::V6(dst) ==> has_source(
        addresses,
        dst,
    ))
}

/// Whether an interface has an IPv4 address.
pub open spec fn has_v4(addresses: Seq<Ip>) -> bool {
    exists|i: int| 0 <= i < addresses.len() && #[trigger] addresses[i] is V4
}

// ── Socket sets ───────────────────────────────────────────────────────────────

/// `SocketSet::new` on an empty vector: no sockets.
#[verifier::external_body]
pub(crate) fn new_set() -> (r: SocketSet<'static>)
    ensures
        is_growable(r),
        sockets_of(r) == no_sockets(),
{
    SocketSet::new(Vec::new())
}

/// `==` on handles, which are numbers: whether they stand for the same place in a
/// set.
#[verifier::external_body]
pub(crate) fn same_handle(a: SocketHandle, b: SocketHandle) -> (r: bool)
    ensures
        r == (a == b),
{
    a == b
}

/// `SocketSet::add` with `tcp::Socket::new` on buffers of the given sizes: a
/// closed socket with empty buffers and no timeout, under a handle that stood for
/// none. A receive buffer of more than a gigabyte would panic, and so could a set
/// that does not stand on a vector; a send buffer that is too large for sequence
/// numbers could make later calls panic.
#[verifier::external_body]
pub(crate) fn add_tcp(set: &mut SocketSet<'static>, rx_size: usize, tx_size: usize) -> (h:
    SocketHandle)
    requires
        is_growable(*old(set)),
        rx_size <= 0x4000_0000,
        tx_size <= 0x7FFF_FFFF,
    ensures
        is_growable(*final(set)) == is_growable(*old(set)),
        !sockets_of(*old(set)).contains_key(h),
        sockets_of(*final(set)) == sockets_of(*old(set)).insert(
            h,
            SocketModel::Tcp(new_tcp(rx_size as nat, tx_size as nat)),
        ),
{
    let rx = tcp::SocketBuffer::new(vec![0u8; rx_size]);
    let tx = tcp::SocketBuffer::new(vec![0u8; tx_size]);
    set.add(tcp::Socket::new(rx, tx))
}

/// `SocketSet::add` with `udp::Socket::new` on buffers for the given number of
/// datagrams and bytes: an unbound socket with empty buffers, under a handle that
/// stood for none. Where its buffers hold a datagram at all, it has room for one and
/// takes any that is not longer than they are. A set that does not stand on a vector
/// could panic, and so could buffers that are too large to be allocated.
#[verifier::external_body]
pub(crate) fn add_udp(set: &mut SocketSet<'static>, packets: usize, bytes: usize) -> (h:
    SocketHandle)
    requires
        is_growable(*old(set)),
        packets <= 0xFFFF,
        bytes <= 0x7FFF_FFFF,
    ensures
        is_growable(*final(set)) == is_growable(*old(set)),
        !sockets_of(*old(set)).contains_key(h),
        sockets_of(*final(set)) == sockets_of(*old(set)).insert(
            h,
            SocketModel::Udp(new_udp(packets as nat, bytes as nat)),
        ),
        !udp_has_data(*final(set), h),
        udp_has_room(*final(set), h) == (packets > 0),
        forall|len: nat| #[trigger]
            udp_takes(*final(set), h, len) == (packets > 0 && len <= bytes),
{
    let rx = udp::PacketBuffer::new(vec![udp::PacketMetadata::EMPTY; packets], vec![0u8; bytes]);
    let tx = udp::PacketBuffer::new(vec![udp::PacketMetadata::EMPTY; packets], vec![0u8; bytes]);
    set.add(udp::Socket::new(rx, tx))
}

/// `SocketSet::remove`: the socket is gone. A handle that stands for none would
/// panic.
#[verifier::external_body]
pub(crate) fn remove_socket(set: &mut SocketSet<'static>, h: SocketHandle)
    requires
        sockets_of(*old(set)).contains_key(h),
    ensures
        is_growable(*final(set)) == is_growable(*old(set)),
        sockets_of(*final(set)) == sockets_of(*old(set)).remove(h),
{
    let _ = set.remove(h);
}

/// Whether a list of handles with a mark for TCP holds each socket once.
pub open spec fn lists_sockets(
    v: Seq<(SocketHandle, bool)>,
    m: Map<SocketHandle, SocketModel>,
) -> bool {
    &&& forall|i: int, j: int| 0 <= i < j < v.len() ==> (#[trigger] v[i]).0 != (#[trigger] v[j]).0
    &&& forall|i: int|
        0 <= i < v.len() ==> m.contains_key((#[trigger] v[i]).0) && (v[i].1 <==> m[v[i].0] is Tcp)
    &&& forall|h: SocketHandle| #[trigger]
        m.contains_key(h) ==> exists|i: int| 0 <= i < v.len() && (#[trigger] v[i]).0 == h
}

/// `SocketSet::iter`: every socket once, with whether it is a TCP socket.
#[verifier::external_body]
pub(crate) fn list_sockets(set: &SocketSet<'static>) -> (r: Vec<(SocketHandle, bool)>)
    ensures
        lists_sockets(r@, sockets_of(*set)),
{
    set.iter().map(|(h, s)| (h, matches!(s, Socket::Tcp(_)))).collect()
}

// ── TCP sockets ───────────────────────────────────────────────────────────────

/// `tcp::Socket::state`. A handle that stands for no TCP socket would panic, here
/// and below.
#[verifier::external_body]
pub(crate) fn tcp_state(set: &SocketSet<'static>, h: SocketHandle) -> (r: TcpState)
    requires
        is_tcp(sockets_of(*set), h),
    ensures
        r == tcp_at(sockets_of(*set), h).state,
{
    match set.get::<tcp::Socket>(h).state() {
        tcp::State::Closed => TcpState::Closed,
        tcp::State::Listen => TcpState::Listen,
        tcp::State::SynSent => TcpState::SynSent,
        tcp::State::SynReceived => TcpState::SynReceived,
        tcp::State::Established => TcpState::Established,
        tcp::State::FinWait1 => TcpState::FinWait1,
        tcp::State::FinWait2 => TcpState::FinWait2,
        tcp::State::CloseWait => TcpState::CloseWait,
        tcp::State::Closing => TcpState::Closing,
        tcp::State::LastAck => TcpState::LastAck,
        tcp::State::TimeWait => TcpState::TimeWait,
    }
}

/// `tcp::Socket::may_recv`.
#[verifier::external_body]
pub(crate) fn tcp_may_recv(set: &SocketSet<'static>, h: SocketHandle) -> (r: bool)
    requires
        is_tcp(sockets_of(*set), h),
    ensures
        r == may_recv(tcp_at(sockets_of(*set), h)),
{
    set.get::<tcp::Socket>(h).may_recv()
}

/// `tcp::Socket::may_send`.
#[verifier::external_body]
pub(crate) fn tcp_may_send(set: &SocketSet<'static>, h: SocketHandle) -> (r: bool)
    requires
        is_tcp(sockets_of(*set), h),
    ensures
        r == may_send(tcp_at(sockets_of(*set), h)),
{
    set.get::<tcp::Socket>(h).may_send()
}

/// `tcp::Socket::can_recv`: whether something received waits.
#[verifier::external_body]
pub(crate) fn tcp_can_recv(set: &SocketSet<'static>, h: SocketHandle) -> (r: bool)
    requires
        is_tcp(sockets_of(*set), h),
    ensures
        r == (tcp_at(sockets_of(*set), h).rx.len() > 0),
{
    set.get::<tcp::Socket>(h).can_recv()
}

/// `tcp::Socket::can_send`: whether the sending half is open and there is room in
/// its buffer.
#[verifier::external_body]
pub(crate) fn tcp_can_send(set: &SocketSet<'static>, h: SocketHandle) -> (r: bool)
    requires
        is_tcp(sockets_of(*set), h),
    ensures
        r == (may_send(tcp_at(sockets_of(*set), h)) && tcp_at(sockets_of(*set), h).tx.len()
            < tcp_at(sockets_of(*set), h).tx_capacity),
{
    set.get::<tcp::Socket>(h).can_send()
}

/// What listening does to a TCP socket.
pub open spec fn listened(t: TcpModel, addr: Seq<u8>, port: nat) -> Result<TcpModel, SocketError> {
    let to = Bound { addr: Some(addr), port };
    if port == 0 {
        Err(SocketError::Unaddressable)
    } else if is_open(t.state) {
        if t.state is Listen && t.listen == to {
            Ok(t)
        } else {
            Err(SocketError::InvalidState)
        }
    } else {
        Ok(
            TcpModel {
                state: TcpState::Listen,
                listen: to,
                timed: t.timed,
                ..new_tcp(t.rx_capacity, t.tx_capacity)
            },
        )
    }
}

/// `tcp::Socket::listen` on an IPv6 address and a port: port 0 is refused, and so
/// is a socket that is open, unless it listens there already.
#[verifier::external_body]
pub(crate) fn tcp_listen(
    set: &mut SocketSet<'static>,
    h: SocketHandle,
    addr: [u8; 16],
    port: u16,
) -> (r: Result<(), SocketError>)
    requires
        is_tcp(sockets_of(*old(set)), h),
    ensures
        is_growable(*final(set)) == is_growable(*old(set)),
        match listened(tcp_at(sockets_of(*old(set)), h), addr@, port as nat) {
            Ok(t) => succeeds(r) && sockets_of(*final(set)) == sockets_of(*old(set)).insert(
                h,
                SocketModel::Tcp(t),
            ),
            Err(e) => fails(r, e) && sockets_of(*final(set)) == sockets_of(
                *old(set),
            ),
        },
{
    let to = IpListenEndpoint { addr: Some(IpAddress::Ipv6(Ipv6Address(addr))), port };
    set.get_mut::<tcp::Socket>(h).listen(to).map_err(
        |e|
            match e {
                tcp::ListenError::InvalidState => SocketError::InvalidState,
                tcp::ListenError::Unaddressable => SocketError::Unaddressable,
            },
    )
}

/// What connecting does to a TCP socket, on an interface with these addresses.
pub open spec fn connected(
    t: TcpModel,
    addresses: Seq<Ip>,
    remote: Endpoint,
    local_port: nat,
) -> Result<TcpModel, SocketError> {
    if is_open(t.state) {
        Err(SocketError::InvalidState)
    } else if remote.port == 0 || is_unspecified(remote.ip) || local_port == 0 {
        Err(SocketError::Unaddressable)
    } else if remote.ip is V4 && !has_v4(addresses) {
        Err(SocketError::Unaddressable)
    } else {
        Ok(
            TcpModel {
                state: TcpState::SynSent,
                peer: Some((local_port, endpoint(remote.ip, remote.port))),
                timed: t.timed,
                ..new_tcp(t.rx_capacity, t.tx_capacity)
            },
        )
    }
}

/// `tcp::Socket::connect` from a local port, in the context of an interface: an
/// open socket is refused, and so is a port 0, an unspecified address, and an
/// IPv4 address where the interface has none. The source address comes from the
/// interface, and flow information and a scope are left out. An IPv6 address that
/// is not refused and that none of the interface's can be the source for would
/// panic.
#[verifier::external_body]
pub(crate) fn tcp_connect(
    iface: &mut Interface,
    set: &mut SocketSet<'static>,
    h: SocketHandle,
    remote: SocketAddr,
    local_port: u16,
) -> (r: Result<(), SocketError>)
    requires
        is_tcp(sockets_of(*old(set)), h),
        is_reachable(addresses_of(*old(iface)), remote@),
    ensures
        is_growable(*final(set)) == is_growable(*old(set)),
        addresses_of(*final(iface)) == addresses_of(*old(iface)),
        prefixes_of(*final(iface)) == prefixes_of(*old(iface)),
        routes_of(*final(iface)) == routes_of(*old(iface)),
        mtu_of(*final(iface)) == mtu_of(*old(iface)),
        match connected(
            tcp_at(sockets_of(*old(set)), h),
            addresses_of(*old(iface)),
            remote@,
            local_port as nat,
        ) {
            Ok(t) => succeeds(r) && sockets_of(*final(set)) == sockets_of(*old(set)).insert(
                h,
                SocketModel::Tcp(t),
            ),
            Err(e) => fails(r, e) && sockets_of(*final(set)) == sockets_of(
                *old(set),
            ),
        },
{
    let addr = match remote.ip {
        IpAddr::V4(a) => IpAddress::Ipv4(Ipv4Address(a.octets)),
        IpAddr::V6(a) => IpAddress::Ipv6(Ipv6Address(a.octets)),
    };
    let to = IpEndpoint::new(addr, remote.port);
    let socket = set.get_mut::<tcp::Socket>(h);
    socket.connect(iface.context(), to, local_port).map_err(
        |e|
            match e {
                tcp::ConnectError::InvalidState => SocketError::InvalidState,
                tcp::ConnectError::Unaddressable => SocketError::Unaddressable,
            },
    )
}

/// `tcp::Socket::recv_slice`, on a socket whose receiving half is open or where
/// something waits: as much as waits and fits moves to the buffer's start.
#[verifier::external_body]
pub(crate) fn tcp_recv(set: &mut SocketSet<'static>, h: SocketHandle, buf: &mut [u8]) -> (r: Result<
    usize,
    SocketError,
>)
    requires
        is_tcp(sockets_of(*old(set)), h),
        may_recv(tcp_at(sockets_of(*old(set)), h)),
    ensures
        is_growable(*final(set)) == is_growable(*old(set)),
        r matches Ok(n) && n == least(
            old(buf)@.len(),
            tcp_at(sockets_of(*old(set)), h).rx.len(),
        ) && final(buf)@ == tcp_at(sockets_of(*old(set)), h).rx.take(n as int) + old(buf)@.skip(
            n as int,
        ) && sockets_of(*final(set)) == sockets_of(*old(set)).insert(
            h,
            SocketModel::Tcp(
                TcpModel {
                    rx: tcp_at(sockets_of(*old(set)), h).rx.skip(n as int),
                    ..tcp_at(sockets_of(*old(set)), h)
                },
            ),
        ),
{
    set.get_mut::<tcp::Socket>(h).recv_slice(buf).map_err(
        |e|
            match e {
                tcp::RecvError::InvalidState => SocketError::InvalidState,
                tcp::RecvError::Finished => SocketError::Finished,
            },
    )
}

/// `tcp::Socket::send_slice`, on a socket whose sending half is open: as much as
/// there is room for goes into the buffer.
#[verifier::external_body]
pub(crate) fn tcp_send(set: &mut SocketSet<'static>, h: SocketHandle, data: &[u8]) -> (r: Result<
    usize,
    SocketError,
>)
    requires
        is_tcp(sockets_of(*old(set)), h),
        may_send(tcp_at(sockets_of(*old(set)), h)),
        tcp_at(sockets_of(*old(set)), h).tx.len() <= tcp_at(sockets_of(*old(set)), h).tx_capacity,
    ensures
        is_growable(*final(set)) == is_growable(*old(set)),
        r matches Ok(n) && n == least(
            data@.len(),
            (tcp_at(sockets_of(*old(set)), h).tx_capacity - tcp_at(
                sockets_of(*old(set)),
                h,
            ).tx.len()) as nat,
        ) && sockets_of(*final(set)) == sockets_of(*old(set)).insert(
            h,
            SocketModel::Tcp(
                TcpModel {
                    tx: tcp_at(sockets_of(*old(set)), h).tx + data@.take(n as int),
                    ..tcp_at(sockets_of(*old(set)), h)
                },
            ),
        ),
{
    set.get_mut::<tcp::Socket>(h).send_slice(data).map_err(
        |e|
            match e {
                tcp::SendError::InvalidState => SocketError::InvalidState,
            },
    )
}

/// `tcp::Socket::close`: the sending half is closed.
#[verifier::external_body]
pub(crate) fn tcp_close(set: &mut SocketSet<'static>, h: SocketHandle)
    requires
        is_tcp(sockets_of(*old(set)), h),
    ensures
        is_growable(*final(set)) == is_growable(*old(set)),
        sockets_of(*final(set)) == sockets_of(*old(set)).insert(
            h,
            SocketModel::Tcp(
                TcpModel {
                    state: after_close(tcp_at(sockets_of(*old(set)), h).state),
                    ..tcp_at(sockets_of(*old(set)), h)
                },
            ),
        ),
{
    set.get_mut::<tcp::Socket>(h).close()
}

/// `tcp::Socket::abort`: the socket is closed at once.
#[verifier::external_body]
pub(crate) fn tcp_abort(set: &mut SocketSet<'static>, h: SocketHandle)
    requires
        is_tcp(sockets_of(*old(set)), h),
    ensures
        is_growable(*final(set)) == is_growable(*old(set)),
        sockets_of(*final(set)) == sockets_of(*old(set)).insert(
            h,
            SocketModel::Tcp(
                TcpModel { state: TcpState::Closed, ..tcp_at(sockets_of(*old(set)), h) },
            ),
        ),
{
    set.get_mut::<tcp::Socket>(h).abort()
}

// ── UDP sockets ───────────────────────────────────────────────────────────────

/// What binding does to a UDP socket.
pub open spec fn bound_to(u: UdpModel, addr: Option<Seq<u8>>, port: nat) -> Result<
    UdpModel,
    SocketError,
> {
    if port == 0 {
        Err(SocketError::Unaddressable)
    } else if u.bound.port != 0 {
        Err(SocketError::InvalidState)
    } else {
        Ok(UdpModel { bound: Bound { addr, port }, ..u })
    }
}

/// The octets of an optional address.
pub open spec fn octets_of(addr: Option<[u8; 16]>) -> Option<Seq<u8>> {
    match addr {
        Some(a) => Some(a@),
        None => None,
    }
}

/// `udp::Socket::bind` on an IPv6 address, or any, and a port: port 0 is refused,
/// and so is a socket that is bound. The buffers stay as they are. A handle that
/// stands for no UDP socket would panic, here and below.
#[verifier::external_body]
pub(crate) fn udp_bind(
    set: &mut SocketSet<'static>,
    h: SocketHandle,
    addr: Option<[u8; 16]>,
    port: u16,
) -> (r: Result<(), SocketError>)
    requires
        is_udp(sockets_of(*old(set)), h),
    ensures
        is_growable(*final(set)) == is_growable(*old(set)),
        match bound_to(udp_at(sockets_of(*old(set)), h), octets_of(addr), port as nat) {
            Ok(u) => succeeds(r) && sockets_of(*final(set)) == sockets_of(*old(set)).insert(
                h,
                SocketModel::Udp(u),
            ),
            Err(e) => fails(r, e) && sockets_of(*final(set)) == sockets_of(
                *old(set),
            ),
        },
        udp_has_data(*final(set), h) == udp_has_data(*old(set), h),
        udp_has_room(*final(set), h) == udp_has_room(*old(set), h),
        forall|len: nat| #[trigger]
            udp_takes(*final(set), h, len) == udp_takes(*old(set), h, len),
{
    let to = IpListenEndpoint { addr: addr.map(|a| IpAddress::Ipv6(Ipv6Address(a))), port };
    set.get_mut::<udp::Socket>(h).bind(to).map_err(
        |e|
            match e {
                udp::BindError::InvalidState => SocketError::InvalidState,
                udp::BindError::Unaddressable => SocketError::Unaddressable,
            },
    )
}

/// What `udp::Socket::can_recv` says of a socket of a set.
pub uninterp spec fn udp_has_data(set: SocketSet<'static>, h: SocketHandle) -> bool;

/// `udp::Socket::can_recv`, which follows from how the buffer is laid out: true
/// where a datagram waits. Padding in the buffer can make it true where none does.
#[verifier::external_body]
pub(crate) fn udp_can_recv(set: &SocketSet<'static>, h: SocketHandle) -> (r: bool)
    requires
        is_udp(sockets_of(*set), h),
    ensures
        r == udp_has_data(*set, h),
        udp_at(sockets_of(*set), h).rx.len() > 0 ==> r,
{
    set.get::<udp::Socket>(h).can_recv()
}

/// What `udp::Socket::can_send` says of a socket of a set.
pub uninterp spec fn udp_has_room(set: SocketSet<'static>, h: SocketHandle) -> bool;

/// `udp::Socket::can_send`, which follows from how the buffer is laid out: whether
/// there is room for another datagram.
#[verifier::external_body]
pub(crate) fn udp_can_send(set: &SocketSet<'static>, h: SocketHandle) -> (r: bool)
    requires
        is_udp(sockets_of(*set), h),
    ensures
        r == udp_has_room(*set, h),
{
    set.get::<udp::Socket>(h).can_send()
}

/// What taking a datagram out of a UDP socket gives, for a buffer of a length.
pub open spec fn received(u: UdpModel, len: nat) -> Result<(Endpoint, Seq<u8>), SocketError> {
    if u.rx.len() == 0 {
        Err(SocketError::Exhausted)
    } else if len < u.rx[0].1.len() {
        Err(SocketError::Truncated)
    } else {
        Ok(u.rx[0])
    }
}

/// A UDP socket without its first datagram.
pub open spec fn without_first(u: UdpModel) -> UdpModel {
    if u.rx.len() == 0 {
        u
    } else {
        UdpModel { rx: u.rx.skip(1), ..u }
    }
}

/// `udp::Socket::recv_slice`: the first datagram moves to the buffer's start; one
/// that does not fit is dropped.
#[verifier::external_body]
pub(crate) fn udp_recv(set: &mut SocketSet<'static>, h: SocketHandle, buf: &mut [u8]) -> (r: Result<
    (usize, SocketAddr),
    SocketError,
>)
    requires
        is_udp(sockets_of(*old(set)), h),
    ensures
        is_growable(*final(set)) == is_growable(*old(set)),
        sockets_of(*final(set)) == sockets_of(*old(set)).insert(
            h,
            SocketModel::Udp(without_first(udp_at(sockets_of(*old(set)), h))),
        ),
        match received(udp_at(sockets_of(*old(set)), h), old(buf)@.len()) {
            Ok(p) => r matches Ok(v) && v.1@ == p.0 && v.0 == p.1.len() && final(buf)@ == p.1
                + old(buf)@.skip(p.1.len() as int),
            Err(e) => fails(r, e) && final(buf)@ == old(buf)@,
        },
{
    match set.get_mut::<udp::Socket>(h).recv_slice(buf) {
        Ok((n, meta)) => {
            let ip = match meta.endpoint.addr {
                IpAddress::Ipv4(a) => IpAddr::V4(Ipv4Addr { octets: a.0 }),
                IpAddress::Ipv6(a) => IpAddr::V6(Ipv6Addr { octets: a.0 }),
            };
            Ok((n, SocketAddr::new(ip, meta.endpoint.port)))
        },
        Err(udp::RecvError::Exhausted) => Err(SocketError::Exhausted),
        Err(udp::RecvError::Truncated) => Err(SocketError::Truncated),
    }
}

/// Whether a datagram can never be sent: the socket is not bound, or there is
/// nowhere to send it.
pub open spec fn unaddressable(u: UdpModel, to: Endpoint) -> bool {
    u.bound.port == 0 || is_unspecified(to.ip) || to.port == 0
}

/// Whether the buffer of a UDP socket of a set takes a datagram of a length, as
/// `udp::Socket::send_slice` finds it.
pub uninterp spec fn udp_takes(set: SocketSet<'static>, h: SocketHandle, len: nat) -> bool;

/// `udp::Socket::send_slice`: a datagram that has nowhere to go is refused as
/// unaddressable; any other goes into the buffer, where that takes one of its
/// length, and is refused as the buffer is full where it does not. Whether it does
/// follows from how the buffer is laid out. Flow information and a scope are left
/// out of where it goes.
#[verifier::external_body]
pub(crate) fn udp_send(
    set: &mut SocketSet<'static>,
    h: SocketHandle,
    data: &[u8],
    to: SocketAddr,
) -> (r: Result<(), SocketError>)
    requires
        is_udp(sockets_of(*old(set)), h),
    ensures
        is_growable(*final(set)) == is_growable(*old(set)),
        unaddressable(udp_at(sockets_of(*old(set)), h), to@) <==> fails(
            r,
            SocketError::Unaddressable,
        ),
        r is Ok <==> !unaddressable(udp_at(sockets_of(*old(set)), h), to@) && udp_takes(
            *old(set),
            h,
            data@.len(),
        ),
        match r {
            Ok(_) => sockets_of(*final(set)) == sockets_of(*old(set)).insert(
                h,
                SocketModel::Udp(
                    UdpModel {
                        tx: udp_at(sockets_of(*old(set)), h).tx.push((endpoint(to@.ip, to@.port), data@)),
                        ..udp_at(sockets_of(*old(set)), h)
                    },
                ),
            ),
            Err(e) => (e is Unaddressable || e is BufferFull) && sockets_of(*final(set))
                == sockets_of(*old(set)),
        },
{
    let addr = match to.ip {
        IpAddr::V4(a) => IpAddress::Ipv4(Ipv4Address(a.octets)),
        IpAddr::V6(a) => IpAddress::Ipv6(Ipv6Address(a.octets)),
    };
    let socket = set.get_mut::<udp::Socket>(h);
    socket.send_slice(data, IpEndpoint::new(addr, to.port)).map_err(
        |e|
            match e {
                udp::SendError::Unaddressable => SocketError::Unaddressable,
                udp::SendError::BufferFull => SocketError::BufferFull,
            },
    )
}

// ── The interface ─────────────────────────────────────────────────────────────

/// The addresses of an interface after one was pushed to their list, which holds
/// two: one more is dropped.
pub open spec fn with_address(addresses: Seq<Ip>, addr: Ip) -> Seq<Ip> {
    if addresses.len() < 2 {
        addresses.push(addr)
    } else {
        addresses
    }
}

/// The prefix lengths of an interface's addresses after an address was pushed to
/// their list, which holds two.
pub open spec fn with_prefix(prefixes: Seq<nat>, prefix: nat) -> Seq<nat> {
    if prefixes.len() < 2 {
        prefixes.push(prefix)
    } else {
        prefixes
    }
}

/// `Interface::update_ip_addrs` with an IPv6 address and a prefix length at the
/// end of the list, which holds two in a build with the default limits. A
/// multicast address, and a prefix of more than 128 bits, would panic.
#[verifier::external_body]
pub(crate) fn assign_v6(iface: &mut Interface, addr: [u8; 16], prefix: u8)
    requires
        addr@[0] != 0xff,
        prefix <= 128,
    ensures
        addresses_of(*final(iface)) == with_address(addresses_of(*old(iface)), Ip::V6(addr@)),
        prefixes_of(*final(iface)) == with_prefix(prefixes_of(*old(iface)), prefix as nat),
        routes_of(*final(iface)) == routes_of(*old(iface)),
        mtu_of(*final(iface)) == mtu_of(*old(iface)),
{
    iface.update_ip_addrs(
        |addrs| {
            let _ = addrs.push(IpCidr::Ipv6(Ipv6Cidr::new(Ipv6Address(addr), prefix)));
        },
    )
}

/// Whether an IPv4 address is neither multicast nor broadcast.
pub open spec fn is_v4_host(o: Seq<u8>) -> bool {
    !(224 <= o[0] <= 239) && !(o[0] == 255 && o[1] == 255 && o[2] == 255 && o[3] == 255)
}

/// `Interface::update_ip_addrs` with an IPv4 address and a prefix length at the
/// end of the list, which holds two in a build with the default limits. A
/// multicast or broadcast address, and a prefix of more than 32 bits, would panic.
#[verifier::external_body]
pub(crate) fn assign_v4(iface: &mut Interface, addr: [u8; 4], prefix: u8)
    requires
        is_v4_host(addr@),
        prefix <= 32,
    ensures
        addresses_of(*final(iface)) == with_address(addresses_of(*old(iface)), Ip::V4(addr@)),
        prefixes_of(*final(iface)) == with_prefix(prefixes_of(*old(iface)), prefix as nat),
        routes_of(*final(iface)) == routes_of(*old(iface)),
        mtu_of(*final(iface)) == mtu_of(*old(iface)),
{
    iface.update_ip_addrs(
        |addrs| {
            let _ = addrs.push(IpCidr::Ipv4(Ipv4Cidr::new(Ipv4Address(addr), prefix)));
        },
    )
}

/// The views of addresses.
pub open spec fn ip_views(v: Seq<IpAddr>) -> Seq<Ip> {
    Seq::new(v.len(), |i: int| v[i]@)
}

/// `Interface::ip_addrs`: the addresses, in order.
#[verifier::external_body]
pub(crate) fn list_addresses(iface: &Interface) -> (r: Vec<IpAddr>)
    ensures
        ip_views(r@) == addresses_of(*iface),
{
    iface.ip_addrs().iter().map(
        |c|
            match c.address() {
                IpAddress::Ipv4(a) => IpAddr::V4(Ipv4Addr { octets: a.0 }),
                IpAddress::Ipv6(a) => IpAddr::V6(Ipv6Addr { octets: a.0 }),
            },
    ).collect()
}

/// `Routes::add_default_ipv4_route`: the default route to IPv4 addresses is taken
/// out, and one through the gateway is put at the end, where the table, which
/// holds two routes in a build with the default limits, has room. The result says
/// whether it had.
#[verifier::external_body]
pub(crate) fn route_v4(iface: &mut Interface, gateway: [u8; 4]) -> (r: bool)
    ensures
        addresses_of(*final(iface)) == addresses_of(*old(iface)),
        prefixes_of(*final(iface)) == prefixes_of(*old(iface)),
        routes_of(*final(iface)) == with_route(
            routes_of(*old(iface)),
            RouteKind::DefaultV4,
            Ip::V4(gateway@),
        ),
        mtu_of(*final(iface)) == mtu_of(*old(iface)),
        r == has_room_for(routes_of(*old(iface)), RouteKind::DefaultV4),
{
    iface.routes_mut().add_default_ipv4_route(Ipv4Address(gateway)).is_ok()
}

/// `Routes::add_default_ipv6_route`: the default route to IPv6 addresses is taken
/// out, and one through the gateway is put at the end, where the table, which
/// holds two routes in a build with the default limits, has room. The result says
/// whether it had.
#[verifier::external_body]
pub(crate) fn route_v6(iface: &mut Interface, gateway: [u8; 16]) -> (r: bool)
    ensures
        addresses_of(*final(iface)) == addresses_of(*old(iface)),
        prefixes_of(*final(iface)) == prefixes_of(*old(iface)),
        routes_of(*final(iface)) == with_route(
            routes_of(*old(iface)),
            RouteKind::DefaultV6,
            Ip::V6(gateway@),
        ),
        mtu_of(*final(iface)) == mtu_of(*old(iface)),
        r == has_room_for(routes_of(*old(iface)), RouteKind::DefaultV6),
{
    iface.routes_mut().add_default_ipv6_route(Ipv6Address(gateway)).is_ok()
}

/// Whether the stack can say when a TCP socket is to be polled: it has no timeout,
/// and what waits to be sent fits in its buffer, which is not too large for sequence
/// numbers.
pub open spec fn is_tame(t: TcpModel) -> bool {
    !t.timed && t.tx.len() <= t.tx_capacity <= i32::MAX
}

/// Whether every TCP socket is tame.
pub open spec fn all_tame(m: Map<SocketHandle, SocketModel>) -> bool {
    forall|h: SocketHandle| #[trigger] is_tcp(m, h) ==> is_tame(tcp_at(m, h))
}

/// A tame TCP socket, or one of another protocol, in place of any leaves all tame.
pub proof fn lemma_tame_insert(
    m: Map<SocketHandle, SocketModel>,
    h: SocketHandle,
    s: SocketModel,
)
    requires
        all_tame(m),
        s matches SocketModel::Tcp(t) ==> is_tame(t),
    ensures
        all_tame(m.insert(h, s)),
{
    let n = m.insert(h, s);
    assert forall|g: SocketHandle| #[trigger] is_tcp(n, g) implies is_tame(tcp_at(n, g)) by {
        if g != h {
            assert(is_tcp(m, g));
        }
    }
}

/// The least MTU that leaves room for the headers of a TCP segment over IPv6.
pub const MIN_MTU: usize = 60;

/// The delay that `Interface::poll_delay` asks for at a time in microseconds, in
/// whole milliseconds.
pub uninterp spec fn asked_delay(
    iface: Interface,
    set: SocketSet<'static>,
    now_micros: i64,
) -> Option<u64>;

/// `Interface::poll_delay` at a time in microseconds, in whole milliseconds. It
/// follows from what every socket waits for. A time before the start of the clock,
/// an MTU that the headers of a segment do not fit in, and a TCP socket with a
/// timeout or with more to send than sequence numbers can tell apart, could make it
/// panic.
#[verifier::external_body]
pub(crate) fn poll_delay_millis(
    iface: &mut Interface,
    set: &SocketSet<'static>,
    now_micros: i64,
) -> (r: Option<u64>)
    requires
        0 <= now_micros,
        mtu_of(*old(iface)) >= MIN_MTU,
        all_tame(sockets_of(*set)),
    ensures
        r == asked_delay(*old(iface), *set, now_micros),
        addresses_of(*final(iface)) == addresses_of(*old(iface)),
        prefixes_of(*final(iface)) == prefixes_of(*old(iface)),
        routes_of(*final(iface)) == routes_of(*old(iface)),
        mtu_of(*final(iface)) == mtu_of(*old(iface)),
{
    let now = smoltcp::time::Instant::from_micros(now_micros);
    iface.poll_delay(now, set).map(|d| d.total_millis())
}

} // verus!
