//! Dialling, listening and sockets on the netstack.
use smoltcp::iface::{Interface, SocketHandle};
use vstd::prelude::*;
use vstd::slice::slice_subrange;
use crate::addr::{
    Endpoint, Ip, IpAddr, Ipv4Addr, Ipv6Addr, SocketAddr, endpoint, parse_socket, parse_v4,
    read_socket, read_v4,
};
use crate::error::{ErrorKind, NetError};
use crate::netstack::device::YggDevice;
use crate::netstack::sockets::{
    Bound, RouteKind, SocketError, SocketModel, TcpModel, TcpState, UdpModel, addresses_of,
    after_close, all_tame, assign_v4, assign_v6, has_room_for, ip_views, is_growable, is_link_local,
    is_loopback, is_reachable, is_source_for, is_tame, is_tcp, is_udp, is_unspecified, is_v4_host,
    least, lemma_tame_insert, list_addresses, may_recv, may_send, mtu_of, new_tcp, new_udp,
    no_sockets, prefixes_of, received, remove_socket, route_v4, route_v6, routes_of, tcp_abort,
    tcp_at, tcp_can_recv, tcp_can_send, tcp_close, tcp_listen, tcp_may_recv, tcp_may_send, tcp_recv,
    tcp_send, tcp_state, udp_at, udp_bind, udp_can_recv, udp_can_send, udp_has_data, udp_has_room,
    udp_recv, udp_send, udp_takes, unaddressable, with_address, with_prefix, with_route,
    without_first,
};
use crate::netstack::{
    BUFFER_SIZE, Listener, MAX_MTU, NetstackState, PendingConnect, TcpListenerEntry, UDP_PACKETS,
    is_unused, listener_holds, listener_ok, listening_at, pending_ok, same_but_sockets,
};
use crate::text::{
    chars_of, find, find_char, owned, parse_dec, parse_number, push_text, same_text, trim, trimmed,
};

verus! {

// ── Ports and limits ──────────────────────────────────────────────────────────

/// `rand::random`: chance decides what comes back, and nothing is claimed of it.
#[verifier::external_body]
fn random_u16() -> (r: u16) {
    rand::random()
}

/// The ephemeral local port that a random number stands for.
pub fn ephemeral_port(random: u16) -> (r: u16)
    ensures
        r == random % 16384 + 49152,
        49152 <= r,
{
    random % 16384 + 49152
}

/// The transport MTU that the stack uses.
pub fn transport_mtu(mtu: u64) -> (r: usize)
    ensures
        r == if mtu < MAX_MTU {
            mtu
        } else {
            MAX_MTU
        },
{
    if mtu < MAX_MTU {
        mtu as usize
    } else {
        65535
    }
}

/// The address and prefix length of a text like `10.99.0.1/24`.
pub open spec fn ipv4_cidr(s: Seq<char>) -> Option<(Seq<u8>, nat)> {
    match find(s, '/') {
        Some(i) => match (parse_v4(trim(s.take(i))), parse_dec(trim(s.skip(i + 1)), 255)) {
            (Some(o), Some(p)) => Some((o, p)),
            _ => None,
        },
        None => None,
    }
}

/// Read an IPv4 address and prefix length like `10.99.0.1/24`.
pub fn parse_ipv4_cidr(cidr: &str) -> (r: Option<(Ipv4Addr, u8)>)
    ensures
        match r {
            Some(v) => ipv4_cidr(cidr@) == Some((v.0.octets@, v.1 as nat)),
            None => ipv4_cidr(cidr@) is None,
        },
{
    let s = chars_of(cidr);
    let s = s.as_slice();
    match find_char(s, '/') {
        Some(i) => {
            let addr = slice_subrange(s, 0, i);
            let prefix = slice_subrange(s, i + 1, s.len());
            assert(addr@ == s@.take(i as int));
            assert(prefix@ == s@.skip(i + 1));
            match (read_v4(trimmed(addr)), parse_number(trimmed(prefix), 255)) {
                (Some(a), Some(p)) => Some((a, p as u8)),
                _ => None,
            }
        },
        None => None,
    }
}

// ── The netstack ──────────────────────────────────────────────────────────────

/// A netstack on the node's own address.
pub struct YggNetstack<W, T> {
    pub state: NetstackState<W, T>,
    pub our_addr: Ipv6Addr,
    pub mtu: usize,
    /// Whether IPv4 addresses can be dialled (they are routed by key).
    pub ipv4: bool,
}

/// What came of an IPv4 configuration.
#[derive(Clone, Copy)]
pub enum Ipv4Setup {
    /// None is asked for.
    Off,
    /// The address could not be read.
    Unreadable,
    /// The address was assigned; the flag says whether the default route was, too.
    Assigned { routed: bool },
}

/// A connection on the netstack.
pub struct TcpStream {
    pub handle: SocketHandle,
}

/// A listening port on the netstack.
pub struct TcpListener {
    pub port: u16,
}

/// A UDP socket on the netstack.
pub struct UdpSocket {
    pub handle: SocketHandle,
}

/// Whether a value of `T` came of a call for sure.
pub open spec fn fails_with<R>(r: Result<R, NetError>, kind: ErrorKind, message: Seq<char>) -> bool {
    r matches Err(e) && e.says(kind, message)
}

/// Why an address is not dialled.
pub open spec fn not_ipv6() -> Seq<char> {
    "expected IPv6 address"@
}

/// What dialing a remote address leads to: an error, where it is an IPv4 address
/// and none is routed, else a new socket and a connection to begin.
pub open spec fn dialed<W, T>(
    before: YggNetstack<W, T>,
    after: YggNetstack<W, T>,
    remote: SocketAddr,
    reply: T,
    r: Result<TcpStream, NetError>,
) -> bool {
    &&& after.our_addr == before.our_addr
    &&& after.mtu == before.mtu
    &&& after.ipv4 == before.ipv4
    &&& after.state.iface == before.state.iface
    &&& after.state.device == before.state.device
    &&& after.state.wakers == before.state.wakers
    &&& after.state.listeners == before.state.listeners
    &&& if remote@.ip is V4 && !before.ipv4 {
        fails_with(r, ErrorKind::InvalidInput, not_ipv6()) && after.state == before.state
    } else {
        &&& r matches Ok(s)
        &&& !before.state.model().contains_key(s.handle)
        &&& after.state.model() == before.state.model().insert(
            s.handle,
            SocketModel::Tcp(new_tcp(BUFFER_SIZE as nat, BUFFER_SIZE as nat)),
        )
        &&& exists|port: u16|
            49152 <= port && after.state.pending_connects@ == before.state.pending_connects@.push(
                (#[trigger] pending_connect(s.handle, remote, port, reply)),
            )
    }
}

/// Where a generic connection goes, or why it goes nowhere. The network is `tcp`
/// or `tcp6`; the address is one with a port.
pub open spec fn context_target(network: Seq<char>, address: Seq<char>) -> Result<
    Endpoint,
    (ErrorKind, Seq<char>),
> {
    match parse_socket(address) {
        None => Err((ErrorKind::InvalidInput, "invalid socket address syntax"@)),
        Some(a) => if network == "tcp"@ || network == "tcp6"@ {
            Ok(a)
        } else {
            Err((ErrorKind::Unsupported, "unsupported network "@ + network))
        },
    }
}

/// Where a generic connection goes, or why it goes nowhere.
pub fn dial_target(network: &str, address: &str) -> (r: Result<SocketAddr, NetError>)
    ensures
        match context_target(network@, address@) {
            Err((kind, message)) => fails_with(r, kind, message),
            Ok(a) => r matches Ok(s) && s@ == a,
        },
{
    let text = chars_of(address);
    match read_socket(text.as_slice()) {
        None => Err(NetError::new(ErrorKind::InvalidInput, "invalid socket address syntax")),
        Some(a) => {
            if same_text(network, "tcp") || same_text(network, "tcp6") {
                Ok(a)
            } else {
                let mut m = owned("unsupported network ");
                push_text(&mut m, network);
                Err(NetError { kind: ErrorKind::Unsupported, message: m })
            }
        },
    }
}

impl<W, T> YggNetstack<W, T> {
    /// The state is well-formed.
    pub open spec fn wf(&self) -> bool {
        self.state.wf()
    }

    /// A netstack on an interface that has no address: the node's own address is
    /// assigned, and a default route through it. The flag says whether the route
    /// table had room.
    pub fn new(iface: Interface, device: YggDevice, our_addr: Ipv6Addr) -> (r: (Self, bool))
        requires
            our_addr.octets@[0] != 0xff,
        ensures
            r.0.wf(),
            r.0.our_addr == our_addr,
            r.0.mtu == device.mtu,
            !r.0.ipv4,
            r.0.state.device == device,
            r.0.state.model() == no_sockets(),
            r.0.state.listeners@.len() == 0,
            r.0.state.pending_connects@.len() == 0,
            r.0.state.wakers@.len() == 0,
            addresses_of(r.0.state.iface) == with_address(
                addresses_of(iface),
                Ip::V6(our_addr.octets@),
            ),
            prefixes_of(r.0.state.iface) == with_prefix(prefixes_of(iface), 128),
            routes_of(r.0.state.iface) == with_route(
                routes_of(iface),
                RouteKind::DefaultV6,
                Ip::V6(our_addr.octets@),
            ),
            mtu_of(r.0.state.iface) == mtu_of(iface),
            r.1 == has_room_for(routes_of(iface), RouteKind::DefaultV6),
    {
        let mut iface = iface;
        assign_v6(&mut iface, our_addr.octets, 128);
        let routed = route_v6(&mut iface, our_addr.octets);
        let mtu = device.mtu;
        (YggNetstack { state: NetstackState::new(iface, device), our_addr, mtu, ipv4: false }, routed)
    }

    /// Assign an IPv4 address and a default route through it, where that is asked
    /// for and the address can be read.
    pub fn configure_ipv4(&mut self, enable: bool, cidr: &str) -> (r: Ipv4Setup)
        requires
            old(self).wf(),
            ipv4_cidr(cidr@) matches Some((o, p)) ==> is_v4_host(o) && p <= 32,
        ensures
            final(self).wf(),
            final(self).our_addr == old(self).our_addr,
            final(self).mtu == old(self).mtu,
            final(self).ipv4 == old(self).ipv4,
            final(self).state.device == old(self).state.device,
            final(self).state.sockets == old(self).state.sockets,
            final(self).state.wakers == old(self).state.wakers,
            final(self).state.pending_connects == old(self).state.pending_connects,
            final(self).state.listeners == old(self).state.listeners,
            match r {
                Ipv4Setup::Off => !enable || cidr@.len() == 0,
                Ipv4Setup::Unreadable => enable && cidr@.len() > 0 && ipv4_cidr(cidr@) is None,
                Ipv4Setup::Assigned { routed } => enable && cidr@.len() > 0 && ipv4_cidr(
                    cidr@,
                ) is Some && routed == has_room_for(
                    routes_of(old(self).state.iface),
                    RouteKind::DefaultV4,
                ),
            },
            !(r is Assigned) ==> final(self).state == old(self).state,
            mtu_of(final(self).state.iface) == mtu_of(old(self).state.iface),
            r is Assigned ==> addresses_of(final(self).state.iface) == with_address(
                addresses_of(old(self).state.iface),
                Ip::V4(ipv4_cidr(cidr@).unwrap().0),
            ),
            r is Assigned ==> prefixes_of(final(self).state.iface) == with_prefix(
                prefixes_of(old(self).state.iface),
                ipv4_cidr(cidr@).unwrap().1,
            ),
            r is Assigned ==> routes_of(final(self).state.iface) == with_route(
                routes_of(old(self).state.iface),
                RouteKind::DefaultV4,
                Ip::V4(ipv4_cidr(cidr@).unwrap().0),
            ),
    {
        if !enable || chars_of(cidr).len() == 0 {
            return Ipv4Setup::Off;
        }
        match parse_ipv4_cidr(cidr) {
            Some((addr, prefix)) => {
                let ghost before = self.state;
                assign_v4(&mut self.state.iface, addr.octets, prefix);
                let routed = route_v4(&mut self.state.iface, addr.octets);
                proof {
                    let addresses = addresses_of(before.iface);
                    let more = addresses_of(self.state.iface);
                    assert forall|i: int| 0 <= i < self.state.pending_connects@.len() implies pending_ok(
                        #[trigger] self.state.pending_connects@[i],
                        self.state.model(),
                        more,
                    ) by {
                        let p = before.pending_connects@[i];
                        assert(pending_ok(p, before.model(), addresses));
                        if p.remote@.ip is V6 && p.remote@.port != 0 && !is_unspecified(
                            p.remote@.ip,
                        ) {
                            let dst = p.remote@.ip->V6_0;
                            let k = choose|k: int|
                                0 <= k < addresses.len() && (#[trigger] addresses[k] matches Ip::V6(
                                    src,
                                ) && is_source_for(dst, src));
                            assert(more[k] == addresses[k]);
                        }
                    }
                }
                Ipv4Setup::Assigned { routed }
            },
            None => Ipv4Setup::Unreadable,
        }
    }

    /// Whether the stack has an address that packets to an address can come from,
    /// or does not need one as the connection is refused at once.
    pub fn can_reach(&self, remote: &SocketAddr) -> (r: bool)
        ensures
            r == is_reachable(addresses_of(self.state.iface), remote@),
    {
        if remote.port == 0 || unspecified(&remote.ip) {
            return true;
        }
        match remote.ip {
            IpAddr::V4(_) => true,
            IpAddr::V6(dst) => {
                let all = list_addresses(&self.state.iface);
                let ghost ips = ip_views(all@);
                let mut i: usize = 0;
                while i < all.len()
                    invariant
                        i <= all@.len(),
                        ips == ip_views(all@),
                        ips == addresses_of(self.state.iface),
                        remote.ip == IpAddr::V6(dst),
                        forall|k: int|
                            0 <= k < i ==> !(#[trigger] ips[k] matches Ip::V6(src)
                                && is_source_for(dst.octets@, src)),
                    decreases all.len() - i,
                {
                    if let IpAddr::V6(src) = all[i] {
                        assert(ips[i as int] == Ip::V6(src.octets@));
                        if source_for(&dst, &src) {
                            return true;
                        }
                    }
                    i += 1;
                }
                false
            },
        }
    }

    /// Dial a TCP connection: it will be begun before the next poll, and what
    /// comes of that goes to the reply slot. IPv4 addresses are accepted where
    /// they are routed.
    pub fn dial_tcp(&mut self, remote: SocketAddr, reply: T) -> (r: Result<TcpStream, NetError>)
        requires
            old(self).wf(),
            is_reachable(addresses_of(old(self).state.iface), remote@),
        ensures
            final(self).wf(),
            dialed(*old(self), *final(self), remote, reply, r),
    {
        if let IpAddr::V4(_) = remote.ip {
            if !self.ipv4 {
                return Err(NetError::new(ErrorKind::InvalidInput, "expected IPv6 address"));
            }
        }
        let ghost before = self.state;
        let local_port = ephemeral_port(random_u16());
        let handle = self.state.new_tcp_socket();
        let ghost added = self.state.model();
        let ghost old_pending = self.state.pending_connects@;
        self.state.pending_connects.push(PendingConnect { handle, remote, local_port, reply });
        proof {
            let new = pending_connect(handle, remote, local_port, reply);
            assert(old_pending == old(self).state.pending_connects@);
            assert(self.state.pending_connects@ == old_pending.push(new));
            assert(self.state.model() == added);
            lemma_wf_grows(before, self.state, handle);
            let n = old_pending.len() as int;
            assert(pending_ok(
                self.state.pending_connects@[n],
                self.state.model(),
                addresses_of(self.state.iface),
            ));
            assert forall|i: int| 0 <= i < self.state.pending_connects@.len() implies pending_ok(
                #[trigger] self.state.pending_connects@[i],
                self.state.model(),
                addresses_of(self.state.iface),
            ) by {
                if i < n {
                    assert(self.state.pending_connects@[i] == before.pending_connects@[i]);
                    assert(pending_ok(
                        before.pending_connects@[i],
                        before.model(),
                        addresses_of(before.iface),
                    ));
                }
            }
        }
        Ok(TcpStream { handle })
    }

    /// Dial a generic connection. Nothing happens where it goes nowhere.
    pub fn dial_context(&mut self, network: &str, address: &str, reply: T) -> (r: Result<
        TcpStream,
        NetError,
    >)
        requires
            old(self).wf(),
            match context_target(network@, address@) {
                Ok(a) => is_reachable(addresses_of(old(self).state.iface), a),
                Err(_) => true,
            },
        ensures
            final(self).wf(),
            match context_target(network@, address@) {
                Err((kind, message)) => fails_with(r, kind, message) && *final(self) == *old(self),
                Ok(a) => exists|remote: SocketAddr|
                    remote@ == a && #[trigger] dialed(*old(self), *final(self), remote, reply, r),
            },
    {
        match dial_target(network, address) {
            Err(e) => Err(e),
            Ok(remote) => self.dial_tcp(remote, reply),
        }
    }

    /// Start a TCP listener on a port of the node's own address.
    pub fn listen_tcp(&mut self, port: u16) -> (r: Result<TcpListener, NetError>)
        requires
            old(self).wf(),
        ensures
            final(self).wf(),
            final(self).our_addr == old(self).our_addr,
            final(self).mtu == old(self).mtu,
            final(self).ipv4 == old(self).ipv4,
            final(self).state.iface == old(self).state.iface,
            final(self).state.device == old(self).state.device,
            final(self).state.wakers == old(self).state.wakers,
            final(self).state.pending_connects == old(self).state.pending_connects,
            r is Err <==> port == 0,
            r is Err ==> {
                &&& fails_with(r, ErrorKind::AddrInUse, SocketError::Unaddressable.text())
                &&& final(self).state.listeners == old(self).state.listeners
                &&& exists|h: SocketHandle|
                    !old(self).state.model().contains_key(h) && final(self).state.model()
                        == #[trigger] old(self).state.model().insert(
                        h,
                        SocketModel::Tcp(new_tcp(BUFFER_SIZE as nat, BUFFER_SIZE as nat)),
                    )
            },
            r matches Ok(l) ==> {
                &&& l.port == port
                &&& final(self).state.listeners@.len() == old(self).state.listeners@.len() + 1
                &&& ({
                    let new = final(self).state.listening().last();
                    &&& new.addr == old(self).our_addr.octets@
                    &&& new.port == port
                    &&& new.queue.len() == 0
                    &&& new.wakers.len() == 0
                    &&& final(self).state.listening() == old(self).state.listening().push(new)
                    &&& !old(self).state.model().contains_key(new.handle)
                    &&& final(self).state.model() == old(self).state.model().insert(
                        new.handle,
                        listening_at(old(self).our_addr.octets@, port as nat),
                    )
                })
            },
    {
        let ghost before = self.state;
        let handle = self.state.new_tcp_socket();
        proof {
            lemma_wf_grows(before, self.state, handle);
        }
        match tcp_listen(&mut self.state.sockets, handle, self.our_addr.octets, port) {
            Ok(_) => {},
            Err(e) => {
                return Err(NetError::new(ErrorKind::AddrInUse, e.name()));
            },
        }
        let entry = TcpListenerEntry {
            addr: self.our_addr.octets,
            port,
            listen_handle: handle,
            accept_queue: std::collections::VecDeque::new(),
            accept_wakers: Vec::new(),
        };
        let ghost n = self.state.listeners@.len() as int;
        self.state.listeners.push(entry);
        proof {
            let m = self.state.model();
            assert(m =~= before.model().insert(
                handle,
                listening_at(self.our_addr.octets@, port as nat),
            ));
            assert(self.state.listening() =~= before.listening().push(entry@));
            lemma_tame_insert(
                before.model(),
                handle,
                listening_at(self.our_addr.octets@, port as nat),
            );
            assert forall|i: int| 0 <= i < self.state.listeners@.len() implies listener_ok(
                (#[trigger] self.state.listeners@[i])@,
                m,
            ) by {
                if i < n {
                    lemma_listener_kept(before.listeners@[i]@, before.model(), m);
                }
            }
            assert forall|i: int| 0 <= i < self.state.pending_connects@.len() implies pending_ok(
                #[trigger] self.state.pending_connects@[i],
                m,
                addresses_of(self.state.iface),
            ) by {
                assert(pending_ok(
                    before.pending_connects@[i],
                    before.model(),
                    addresses_of(before.iface),
                ));
                assert(before.model().contains_key(before.pending_connects@[i].handle));
            }
        }
        Ok(TcpListener { port })
    }

    /// Bind a UDP socket to a port of the node's own address.
    pub fn bind_udp(&mut self, port: u16) -> (r: Result<UdpSocket, NetError>)
        requires
            old(self).wf(),
        ensures
            final(self).wf(),
            final(self).our_addr == old(self).our_addr,
            final(self).mtu == old(self).mtu,
            final(self).ipv4 == old(self).ipv4,
            same_but_sockets(final(self).state, old(self).state),
            r is Err <==> port == 0,
            r is Err ==> {
                &&& fails_with(r, ErrorKind::AddrInUse, SocketError::Unaddressable.text())
                &&& exists|h: SocketHandle|
                    !old(self).state.model().contains_key(h) && final(self).state.model()
                        == #[trigger] old(self).state.model().insert(
                        h,
                        SocketModel::Udp(new_udp(UDP_PACKETS as nat, BUFFER_SIZE as nat)),
                    )
            },
            r matches Ok(s) ==> {
                &&& !old(self).state.model().contains_key(s.handle)
                &&& final(self).state.model() == old(self).state.model().insert(
                    s.handle,
                    bound_socket(Some(old(self).our_addr.octets@), port as nat),
                )
                &&& is_unused(final(self).state.sockets, s.handle)
            },
    {
        let ghost before = self.state;
        let handle = self.state.new_udp_socket();
        proof {
            lemma_wf_grows(before, self.state, handle);
        }
        match udp_bind(&mut self.state.sockets, handle, Some(self.our_addr.octets), port) {
            Ok(_) => {},
            Err(e) => {
                return Err(NetError::new(ErrorKind::AddrInUse, e.name()));
            },
        }
        proof {
            assert(self.state.model() =~= before.model().insert(
                handle,
                bound_socket(Some(self.our_addr.octets@), port as nat),
            ));
            lemma_wf_grows(before, self.state, handle);
        }
        Ok(UdpSocket { handle })
    }

    /// Create a UDP socket on an ephemeral local port, suitable for sending to a
    /// remote Yggdrasil address and receiving replies.
    pub fn open_udp(&mut self) -> (r: Result<UdpSocket, NetError>)
        requires
            old(self).wf(),
        ensures
            final(self).wf(),
            final(self).our_addr == old(self).our_addr,
            final(self).mtu == old(self).mtu,
            final(self).ipv4 == old(self).ipv4,
            same_but_sockets(final(self).state, old(self).state),
            r matches Ok(s) && !old(self).state.model().contains_key(s.handle) && exists|port: nat|
                49152 <= port <= 65535 && final(self).state.model() == old(
                    self,
                ).state.model().insert(s.handle, #[trigger] bound_socket(None, port)),
            r matches Ok(s) ==> is_unused(final(self).state.sockets, s.handle),
    {
        let ghost before = self.state;
        let handle = self.state.new_udp_socket();
        let local_port = ephemeral_port(random_u16());
        match udp_bind(&mut self.state.sockets, handle, None, local_port) {
            Ok(_) => {},
            Err(e) => {
                return Err(NetError::new(ErrorKind::AddrInUse, e.name()));
            },
        }
        proof {
            assert(self.state.model() =~= before.model().insert(
                handle,
                bound_socket(None, local_port as nat),
            ));
            lemma_wf_grows(before, self.state, handle);
        }
        Ok(UdpSocket { handle })
    }
}

/// A connection that is to be begun.
pub open spec fn pending_connect<T>(
    handle: SocketHandle,
    remote: SocketAddr,
    local_port: u16,
    reply: T,
) -> PendingConnect<T> {
    PendingConnect { handle, remote, local_port, reply }
}

/// A UDP socket with standard buffers that is bound, with nothing in them.
pub open spec fn bound_socket(addr: Option<Seq<u8>>, port: nat) -> SocketModel {
    SocketModel::Udp(
        UdpModel {
            bound: Bound { addr, port },
            ..new_udp(UDP_PACKETS as nat, BUFFER_SIZE as nat)
        },
    )
}

/// A listener's sockets stay where the set keeps them.
proof fn lemma_listener_kept<W>(
    l: Listener<W>,
    m: Map<SocketHandle, SocketModel>,
    n: Map<SocketHandle, SocketModel>,
)
    requires
        listener_ok(l, m),
        forall|h: SocketHandle| #[trigger] is_tcp(m, h) ==> is_tcp(n, h),
    ensures
        listener_ok(l, n),
{
    assert(is_tcp(m, l.handle));
    assert forall|k: int| 0 <= k < l.queue.len() implies is_tcp(n, #[trigger] l.queue[k]) by {
        assert(is_tcp(m, l.queue[k]));
    }
}

/// Where TCP sockets stay TCP sockets, the state stays well-formed.
proof fn lemma_wf_kept<W, T>(a: NetstackState<W, T>, b: NetstackState<W, T>)
    requires
        a.wf(),
        forall|h: SocketHandle| #[trigger] is_tcp(a.model(), h) ==> is_tcp(b.model(), h),
        a.listeners == b.listeners,
        a.pending_connects == b.pending_connects,
        addresses_of(a.iface) == addresses_of(b.iface),
        is_growable(b.sockets),
        all_tame(b.model()),
    ensures
        b.wf(),
{
    assert forall|i: int| 0 <= i < b.listeners@.len() implies listener_ok(
        (#[trigger] b.listeners@[i])@,
        b.model(),
    ) by {
        lemma_listener_kept(a.listeners@[i]@, a.model(), b.model());
    }
    assert forall|i: int| 0 <= i < b.pending_connects@.len() implies pending_ok(
        #[trigger] b.pending_connects@[i],
        b.model(),
        addresses_of(b.iface),
    ) by {
        assert(pending_ok(a.pending_connects@[i], a.model(), addresses_of(a.iface)));
        assert(is_tcp(a.model(), a.pending_connects@[i].handle));
    }
}

/// A change of one socket, which stays of its protocol, leaves the rest well-formed.
proof fn lemma_wf_changed<W, T>(a: NetstackState<W, T>, b: NetstackState<W, T>, h: SocketHandle)
    requires
        a.wf(),
        is_tcp(a.model(), h) ==> b.model()[h] is Tcp,
        b.model() == a.model().insert(h, b.model()[h]),
        b.model()[h] matches SocketModel::Tcp(t) ==> is_tame(t),
        is_growable(b.sockets),
        same_but_sockets(b, a),
    ensures
        b.wf(),
{
    lemma_tame_insert(a.model(), h, b.model()[h]);
    lemma_wf_kept(a, b);
}

/// A new socket leaves the rest well-formed.
proof fn lemma_wf_grows<W, T>(a: NetstackState<W, T>, b: NetstackState<W, T>, h: SocketHandle)
    requires
        a.wf(),
        !a.model().contains_key(h),
        b.model() == a.model().insert(h, b.model()[h]),
        b.model()[h] matches SocketModel::Tcp(t) ==> is_tame(t),
        is_growable(b.sockets),
        a.listeners == b.listeners,
        addresses_of(a.iface) == addresses_of(b.iface),
    ensures
        all_tame(b.model()),
        forall|i: int|
            0 <= i < b.listeners@.len() ==> listener_ok((#[trigger] b.listeners@[i])@, b.model()),
        a.pending_connects == b.pending_connects ==> b.wf(),
{
    assert forall|g: SocketHandle| #[trigger] is_tcp(a.model(), g) implies is_tcp(b.model(), g) by {
        assert(a.model().contains_key(g));
    }
    lemma_tame_insert(a.model(), h, b.model()[h]);
    assert forall|i: int| 0 <= i < b.listeners@.len() implies listener_ok(
        (#[trigger] b.listeners@[i])@,
        b.model(),
    ) by {
        lemma_listener_kept(a.listeners@[i]@, a.model(), b.model());
    }
    if a.pending_connects == b.pending_connects {
        lemma_wf_kept(a, b);
    }
}

/// Whether packets to one address may come from another.
fn source_for(dst: &Ipv6Addr, src: &Ipv6Addr) -> (r: bool)
    ensures
        r == is_source_for(dst.octets@, src.octets@),
{
    (!link_local(dst) || link_local(src)) && !loopback(src) && src.octets[0] != 0xff
}

fn link_local(a: &Ipv6Addr) -> (r: bool)
    ensures
        r == is_link_local(a.octets@),
{
    let o = &a.octets;
    let r = o[0] == 0xfe && o[1] == 0x80 && o[2] == 0 && o[3] == 0 && o[4] == 0 && o[5] == 0 && o[6]
        == 0 && o[7] == 0;
    proof {
        if is_link_local(a.octets@) {
            assert(a.octets@[2] == 0 && a.octets@[3] == 0 && a.octets@[4] == 0 && a.octets@[5] == 0
                && a.octets@[6] == 0 && a.octets@[7] == 0);
        }
    }
    r
}

/// Whether an address is unspecified, as the stack sees it.
fn unspecified(a: &IpAddr) -> (r: bool)
    ensures
        r == is_unspecified(a@),
{
    match a {
        IpAddr::V4(a) => a.octets[0] == 0,
        IpAddr::V6(v) => {
            let mut i: usize = 0;
            while i < 16
                invariant
                    i <= 16,
                    *a == IpAddr::V6(*v),
                    forall|k: int| 0 <= k < i ==> v.octets@[k] == 0,
                decreases 16 - i,
            {
                if v.octets[i] != 0 {
                    let ghost o = v.octets@;
                    assert(o.len() == 16);
                    assert(o[i as int] != 0);
                    assert(!is_unspecified(Ip::V6(o)));
                    assert(a@ == Ip::V6(o));
                    return false;
                }
                i += 1;
            }
            true
        },
    }
}

fn loopback(a: &Ipv6Addr) -> (r: bool)
    ensures
        r == is_loopback(a.octets@),
{
    if a.octets[15] != 1 {
        return false;
    }
    let mut i: usize = 0;
    while i < 15
        invariant
            i <= 15,
            a.octets@[15] == 1,
            forall|k: int| 0 <= k < i ==> a.octets@[k] == 0,
        decreases 15 - i,
    {
        if a.octets[i] != 0 {
            return false;
        }
        i += 1;
    }
    true
}

/// What came of the attempt to begin a connection. `None` means that the stack is
/// gone.
pub fn connect_outcome(reply: Option<Result<(), SocketError>>) -> (r: Result<(), NetError>)
    ensures
        match reply {
            None => fails_with(r, ErrorKind::BrokenPipe, "netstack closed"@),
            Some(Err(e)) => fails_with(r, ErrorKind::ConnectionRefused, e.text()),
            Some(Ok(_)) => r is Ok,
        },
{
    match reply {
        None => Err(NetError::new(ErrorKind::BrokenPipe, "netstack closed")),
        Some(Err(e)) => Err(NetError::new(ErrorKind::ConnectionRefused, e.name())),
        Some(Ok(_)) => Ok(()),
    }
}

// ── TCP streams ───────────────────────────────────────────────────────────────

/// What came of a call that may have to wait.
pub enum Progress<R> {
    /// It is done, with this result.
    Ready(R),
    /// It has to wait.
    Pending,
}

/// What came of a read.
pub enum ReadOutcome {
    /// So many bytes were read.
    Data(usize),
    /// The connection's receiving half is closed, and nothing waits.
    Eof,
    /// The read failed.
    Failed(NetError),
    /// It has to wait.
    Pending,
}

/// How many bytes a read into a buffer of a length takes.
pub open spec fn read_len(t: TcpModel, len: nat) -> nat {
    least(len, t.rx.len())
}

/// A connection after a read into a buffer of a length.
pub open spec fn after_read(t: TcpModel, len: nat) -> TcpModel {
    TcpModel { rx: t.rx.skip(read_len(t, len) as int), ..t }
}

/// How many of so many bytes a write takes.
pub open spec fn write_len(t: TcpModel, len: nat) -> nat {
    least(len, (t.tx_capacity - t.tx.len()) as nat)
}

/// A connection after a write.
pub open spec fn after_write(t: TcpModel, data: Seq<u8>) -> TcpModel {
    TcpModel { tx: t.tx + data.take(write_len(t, data.len()) as int), ..t }
}

/// Whether a waker was left, and nothing else of the state changed but the
/// sockets.
pub open spec fn waits<W, T>(a: NetstackState<W, T>, b: NetstackState<W, T>, waker: W) -> bool {
    &&& b.wakers@ == a.wakers@.push(waker)
    &&& a.sockets == b.sockets
    &&& a.iface == b.iface
    &&& a.device == b.device
    &&& a.pending_connects == b.pending_connects
    &&& a.listeners == b.listeners
}

impl TcpStream {
    /// Whether the connection got established, or was refused.
    pub fn wait_connected<W, T>(&self, state: &mut NetstackState<W, T>, waker: W) -> (r: Progress<
        Result<(), NetError>,
    >)
        requires
            old(state).wf(),
            is_tcp(old(state).model(), self.handle),
        ensures
            final(state).wf(),
            ({
                let s = tcp_at(old(state).model(), self.handle).state;
                if s is Established {
                    (r matches Progress::Ready(v) && v is Ok) && *final(state) == *old(state)
                } else if s is Closed || s is TimeWait || s is CloseWait {
                    &&& r matches Progress::Ready(v) && fails_with(
                        v,
                        ErrorKind::ConnectionRefused,
                        "connection refused"@,
                    )
                    &&& *final(state) == *old(state)
                } else {
                    r is Pending && waits(*old(state), *final(state), waker)
                }
            }),
    {
        match tcp_state(&state.sockets, self.handle) {
            TcpState::Established => Progress::Ready(Ok(())),
            TcpState::Closed | TcpState::TimeWait | TcpState::CloseWait => Progress::Ready(
                Err(NetError::new(ErrorKind::ConnectionRefused, "connection refused")),
            ),
            _ => {
                state.wakers.push(waker);
                proof {
                    lemma_wf_kept(*old(state), *state);
                }
                Progress::Pending
            },
        }
    }

    /// Read what waits, as far as it fits. Where nothing can be read any more, that
    /// is the end; where nothing can be read yet, the waker is left.
    pub fn poll_read<W, T>(&self, state: &mut NetstackState<W, T>, buf: &mut [u8], waker: W) -> (r:
        ReadOutcome)
        requires
            old(state).wf(),
            is_tcp(old(state).model(), self.handle),
        ensures
            final(state).wf(),
            ({
                let t = tcp_at(old(state).model(), self.handle);
                if t.rx.len() > 0 && old(buf)@.len() > 0 {
                    let n = read_len(t, old(buf)@.len());
                    &&& r == ReadOutcome::Data(n as usize)
                    &&& final(buf)@ == t.rx.take(n as int) + old(buf)@.skip(n as int)
                    &&& final(state).model() == old(state).model().insert(
                        self.handle,
                        SocketModel::Tcp(after_read(t, old(buf)@.len())),
                    )
                    &&& same_but_sockets(*final(state), *old(state))
                } else if !may_recv(t) {
                    r is Eof && *final(state) == *old(state) && final(buf)@ == old(buf)@
                } else {
                    &&& r is Pending
                    &&& final(buf)@ == old(buf)@
                    &&& final(state).wakers@ == old(state).wakers@.push(waker)
                    &&& final(state).model() == old(state).model()
                    &&& final(state).iface == old(state).iface
                    &&& final(state).device == old(state).device
                    &&& final(state).pending_connects == old(state).pending_connects
                    &&& final(state).listeners == old(state).listeners
                }
            }),
    {
        let ghost m = state.model();
        if tcp_can_recv(&state.sockets, self.handle) {
            let got = tcp_recv(&mut state.sockets, self.handle, buf);
            proof {
                let t = tcp_at(m, self.handle);
                let n = least(old(buf)@.len(), t.rx.len()) as int;
                lemma_wf_changed(*old(state), *state, self.handle);
                if n == 0 {
                    assert(t.rx.skip(0) =~= t.rx);
                    assert(t.rx.take(0) + old(buf)@.skip(0) =~= old(buf)@);
                    assert(state.model() =~= m);
                }
            }
            match got {
                Ok(n) => {
                    if n > 0 {
                        return ReadOutcome::Data(n);
                    }
                },
                Err(e) => {
                    return ReadOutcome::Failed(NetError::new(ErrorKind::BrokenPipe, e.name()));
                },
            }
        }
        if !tcp_may_recv(&state.sockets, self.handle) {
            return ReadOutcome::Eof;
        }
        let ghost before = *state;
        state.wakers.push(waker);
        proof {
            lemma_wf_kept(before, *state);
        }
        ReadOutcome::Pending
    }

    /// Write as much as there is room for. Where the connection's sending half is
    /// closed, that fails; where there is no room, the waker is left.
    pub fn poll_write<W, T>(&self, state: &mut NetstackState<W, T>, data: &[u8], waker: W) -> (r:
        Progress<Result<usize, NetError>>)
        requires
            old(state).wf(),
            is_tcp(old(state).model(), self.handle),
        ensures
            final(state).wf(),
            ({
                let t = tcp_at(old(state).model(), self.handle);
                if !may_send(t) {
                    &&& r matches Progress::Ready(v) && fails_with(
                        v,
                        ErrorKind::BrokenPipe,
                        "socket closed"@,
                    )
                    &&& *final(state) == *old(state)
                } else if t.tx.len() < t.tx_capacity {
                    &&& r matches Progress::Ready(Ok(v)) && v == write_len(t, data@.len())
                    &&& final(state).model() == old(state).model().insert(
                        self.handle,
                        SocketModel::Tcp(after_write(t, data@)),
                    )
                    &&& same_but_sockets(*final(state), *old(state))
                } else {
                    r is Pending && waits(*old(state), *final(state), waker)
                }
            }),
    {
        if !tcp_may_send(&state.sockets, self.handle) {
            return Progress::Ready(Err(NetError::new(ErrorKind::BrokenPipe, "socket closed")));
        }
        if tcp_can_send(&state.sockets, self.handle) {
            let sent = tcp_send(&mut state.sockets, self.handle, data);
            proof {
                lemma_wf_changed(*old(state), *state, self.handle);
            }
            return match sent {
                Ok(n) => Progress::Ready(Ok(n)),
                Err(e) => Progress::Ready(Err(NetError::new(ErrorKind::BrokenPipe, e.name()))),
            };
        }
        state.wakers.push(waker);
        proof {
            lemma_wf_kept(*old(state), *state);
        }
        Progress::Pending
    }

    /// Close the connection's sending half.
    pub fn poll_shutdown<W, T>(&self, state: &mut NetstackState<W, T>)
        requires
            old(state).wf(),
            is_tcp(old(state).model(), self.handle),
        ensures
            final(state).wf(),
            same_but_sockets(*final(state), *old(state)),
            final(state).model() == old(state).model().insert(
                self.handle,
                SocketModel::Tcp(
                    TcpModel {
                        state: after_close(tcp_at(old(state).model(), self.handle).state),
                        ..tcp_at(old(state).model(), self.handle)
                    },
                ),
            ),
    {
        tcp_close(&mut state.sockets, self.handle);
        proof {
            lemma_wf_changed(*old(state), *state, self.handle);
        }
    }

    /// Give the connection up: its socket is aborted and removed.
    pub fn close<W, T>(&self, state: &mut NetstackState<W, T>)
        requires
            old(state).wf(),
            is_tcp(old(state).model(), self.handle),
            !in_use(*old(state), self.handle),
        ensures
            final(state).wf(),
            same_but_sockets(*final(state), *old(state)),
            final(state).model() == old(state).model().remove(self.handle),
    {
        tcp_abort(&mut state.sockets, self.handle);
        remove_socket(&mut state.sockets, self.handle);
        proof {
            assert(state.model() =~= old(state).model().remove(self.handle));
            lemma_wf_removed(*old(state), *state, self.handle);
        }
    }
}

/// Whether a listener or a pending connection has a socket.
pub open spec fn in_use<W, T>(s: NetstackState<W, T>, h: SocketHandle) -> bool {
    listener_holds(s.listening(), h) || exists|i: int|
        0 <= i < s.pending_connects@.len() && (#[trigger] s.pending_connects@[i]).handle == h
}

/// Removing a socket that nothing has leaves the rest well-formed.
proof fn lemma_wf_removed<W, T>(a: NetstackState<W, T>, b: NetstackState<W, T>, h: SocketHandle)
    requires
        a.wf(),
        !in_use(a, h),
        b.model() == a.model().remove(h),
        same_but_sockets(b, a),
        is_growable(b.sockets),
    ensures
        b.wf(),
{
    let ls = a.listening();
    assert forall|g: SocketHandle| #[trigger] is_tcp(b.model(), g) implies is_tame(
        tcp_at(b.model(), g),
    ) by {
        assert(is_tcp(a.model(), g));
    }
    assert forall|i: int| 0 <= i < b.listeners@.len() implies listener_ok(
        (#[trigger] b.listeners@[i])@,
        b.model(),
    ) by {
        let l = a.listeners@[i]@;
        assert(listener_ok(l, a.model()));
        assert(ls[i] == l);
        assert(ls[i].handle != h);
        assert forall|k: int| 0 <= k < l.queue.len() implies is_tcp(
            b.model(),
            #[trigger] l.queue[k],
        ) by {
            assert(ls[i].queue[k] != h);
            assert(is_tcp(a.model(), l.queue[k]));
        }
    }
    assert forall|i: int| 0 <= i < b.pending_connects@.len() implies pending_ok(
        #[trigger] b.pending_connects@[i],
        b.model(),
        addresses_of(b.iface),
    ) by {
        assert(pending_ok(a.pending_connects@[i], a.model(), addresses_of(a.iface)));
        assert(a.pending_connects@[i].handle != h);
    }
}

// ── TCP listeners ─────────────────────────────────────────────────────────────

/// The first listener on a port, from a position on.
pub open spec fn listener_on<W>(ls: Seq<Listener<W>>, port: nat, from: int) -> Option<int>
    decreases ls.len() - from,
{
    if from < 0 || from >= ls.len() {
        None
    } else if ls[from].port == port {
        Some(from)
    } else {
        listener_on(ls, port, from + 1)
    }
}

impl TcpListener {
    /// The first connection that waits to be accepted; where there is none yet, the
    /// waker is left with the listener.
    pub fn accept<W, T>(&self, state: &mut NetstackState<W, T>, waker: W) -> (r: Progress<TcpStream>)
        requires
            old(state).wf(),
        ensures
            final(state).wf(),
            final(state).sockets == old(state).sockets,
            final(state).iface == old(state).iface,
            final(state).device == old(state).device,
            final(state).wakers == old(state).wakers,
            final(state).pending_connects == old(state).pending_connects,
            match listener_on(old(state).listening(), self.port as nat, 0) {
                None => r is Pending && final(state).listening() == old(state).listening(),
                Some(i) => {
                    let l = old(state).listening()[i];
                    if l.queue.len() > 0 {
                        &&& r matches Progress::Ready(s) && s.handle == l.queue[0]
                        &&& final(state).listening() == old(state).listening().update(
                            i,
                            Listener { queue: l.queue.skip(1), ..l },
                        )
                    } else {
                        &&& r is Pending
                        &&& final(state).listening() == old(state).listening().update(
                            i,
                            Listener { wakers: l.wakers.push(waker), ..l },
                        )
                    }
                },
            },
    {
        let ghost ls = state.listening();
        let mut i: usize = 0;
        while i < state.listeners.len() && state.listeners[i].port != self.port
            invariant
                i <= state.listeners@.len(),
                *state == *old(state),
                ls == state.listening(),
                listener_on(ls, self.port as nat, 0) == listener_on(
                    ls,
                    self.port as nat,
                    i as int,
                ),
            decreases state.listeners@.len() - i,
        {
            assert(ls[i as int] == state.listeners@[i as int]@);
            i += 1;
        }
        if i >= state.listeners.len() {
            return Progress::Pending;
        }
        assert(ls[i as int] == state.listeners@[i as int]@);
        let ghost before = *state;
        let ghost l = ls[i as int];
        assert(listener_ok(state.listeners@[i as int]@, state.model()));
        let mut entry = state.listeners.remove(i);
        let r = match entry.accept_queue.pop_front() {
            Some(handle) => {
                assert(entry.accept_queue@ == l.queue.skip(1));
                Progress::Ready(TcpStream { handle })
            },
            None => {
                entry.accept_wakers.push(waker);
                Progress::Pending
            },
        };
        state.listeners.insert(i, entry);
        proof {
            assert(state.listeners@ == before.listeners@.update(i as int, entry));
            assert(state.listening() =~= ls.update(i as int, entry@));
            assert forall|k: int| 0 <= k < state.listeners@.len() implies listener_ok(
                (#[trigger] state.listeners@[k])@,
                state.model(),
            ) by {
                if k != i {
                    assert(listener_ok(before.listeners@[k]@, before.model()));
                } else {
                    assert forall|j: int| 0 <= j < entry@.queue.len() implies is_tcp(
                        state.model(),
                        #[trigger] entry@.queue[j],
                    ) by {
                        if l.queue.len() > 0 {
                            assert(entry@.queue[j] == l.queue[j + 1]);
                        }
                    }
                }
            }
        }
        r
    }
}

// ── UDP sockets ───────────────────────────────────────────────────────────────

impl UdpSocket {
    /// Receive a datagram into a buffer; where none has come yet, the waker is
    /// left. A datagram that does not fit is lost.
    pub fn recv_from<W, T>(&self, state: &mut NetstackState<W, T>, buf: &mut [u8], waker: W) -> (r:
        Progress<Result<(usize, SocketAddr), NetError>>)
        requires
            old(state).wf(),
            is_udp(old(state).model(), self.handle),
        ensures
            final(state).wf(),
            ({
                let u = udp_at(old(state).model(), self.handle);
                &&& r is Pending <==> !udp_has_data(old(state).sockets, self.handle)
                &&& match r {
                    Progress::Pending => {
                        &&& u.rx.len() == 0
                        &&& waits(*old(state), *final(state), waker)
                        &&& final(buf)@ == old(buf)@
                    },
                    Progress::Ready(v) => {
                        &&& final(state).model() == old(state).model().insert(
                            self.handle,
                            SocketModel::Udp(without_first(u)),
                        )
                        &&& same_but_sockets(*final(state), *old(state))
                        &&& match received(u, old(buf)@.len()) {
                            Err(e) => fails_with(v, ErrorKind::Other, e.text()) && final(buf)@
                                == old(buf)@,
                            Ok(p) => {
                                &&& final(buf)@ == p.1 + old(buf)@.skip(p.1.len() as int)
                                &&& if p.0.ip is V6 {
                                    v matches Ok(w) && w.0 == p.1.len() && w.1@ == p.0
                                } else {
                                    fails_with(v, ErrorKind::InvalidData, "non-IPv6 source"@)
                                }
                            },
                        }
                    },
                }
            }),
    {
        if udp_can_recv(&state.sockets, self.handle) {
            let got = udp_recv(&mut state.sockets, self.handle, buf);
            proof {
                lemma_wf_changed(*old(state), *state, self.handle);
            }
            return match got {
                Ok((n, from)) => match from.ip {
                    IpAddr::V6(_) => Progress::Ready(Ok((n, from))),
                    IpAddr::V4(_) => Progress::Ready(
                        Err(NetError::new(ErrorKind::InvalidData, "non-IPv6 source")),
                    ),
                },
                Err(e) => Progress::Ready(Err(NetError::new(ErrorKind::Other, e.name()))),
            };
        }
        state.wakers.push(waker);
        proof {
            lemma_wf_kept(*old(state), *state);
        }
        Progress::Pending
    }

    /// Send a datagram; where there is no room for it yet, the waker is left.
    pub fn send_to<W, T>(
        &self,
        state: &mut NetstackState<W, T>,
        data: &[u8],
        target: SocketAddr,
        waker: W,
    ) -> (r: Progress<Result<usize, NetError>>)
        requires
            old(state).wf(),
            is_udp(old(state).model(), self.handle),
        ensures
            final(state).wf(),
            ({
                let u = udp_at(old(state).model(), self.handle);
                if target@.ip is V4 {
                    &&& r matches Progress::Ready(v) && fails_with(
                        v,
                        ErrorKind::InvalidInput,
                        not_ipv6(),
                    )
                    &&& *final(state) == *old(state)
                } else {
                    &&& r is Pending <==> !udp_has_room(old(state).sockets, self.handle)
                    &&& r matches Progress::Ready(v) ==> (v is Ok <==> !unaddressable(u, target@)
                        && udp_takes(old(state).sockets, self.handle, data@.len()))
                    &&& match r {
                        Progress::Pending => waits(*old(state), *final(state), waker),
                        Progress::Ready(Ok(n)) => {
                            &&& n == data@.len()
                            &&& !unaddressable(u, target@)
                            &&& final(state).model() == old(state).model().insert(
                                self.handle,
                                SocketModel::Udp(
                                    UdpModel { tx: u.tx.push((endpoint(target@.ip, target@.port), data@)),
                                        ..u },
                                ),
                            )
                            &&& same_but_sockets(*final(state), *old(state))
                        },
                        Progress::Ready(Err(e)) => {
                            &&& e.says(
                                ErrorKind::Other,
                                if unaddressable(u, target@) {
                                    SocketError::Unaddressable.text()
                                } else {
                                    SocketError::BufferFull.text()
                                },
                            )
                            &&& final(state).model() == old(state).model()
                            &&& same_but_sockets(*final(state), *old(state))
                        },
                    }
                }
            }),
    {
        if let IpAddr::V4(_) = target.ip {
            return Progress::Ready(
                Err(NetError::new(ErrorKind::InvalidInput, "expected IPv6 address")),
            );
        }
        if udp_can_send(&state.sockets, self.handle) {
            let sent = udp_send(&mut state.sockets, self.handle, data, target);
            proof {
                if sent is Ok {
                    lemma_wf_changed(*old(state), *state, self.handle);
                } else {
                    lemma_wf_kept(*old(state), *state);
                }
            }
            return match sent {
                Ok(_) => Progress::Ready(Ok(data.len())),
                Err(e) => Progress::Ready(Err(NetError::new(ErrorKind::Other, e.name()))),
            };
        }
        state.wakers.push(waker);
        proof {
            lemma_wf_kept(*old(state), *state);
        }
        Progress::Pending
    }

    /// Give the socket up: it is removed.
    pub fn close<W, T>(&self, state: &mut NetstackState<W, T>)
        requires
            old(state).wf(),
            is_udp(old(state).model(), self.handle),
        ensures
            final(state).wf(),
            same_but_sockets(*final(state), *old(state)),
            final(state).model() == old(state).model().remove(self.handle),
    {
        remove_socket(&mut state.sockets, self.handle);
        proof {
            let (m, n) = (old(state).model(), state.model());
            assert forall|h: SocketHandle| #[trigger] is_tcp(n, h) implies is_tame(
                tcp_at(n, h),
            ) by {
                assert(is_tcp(m, h));
            }
            lemma_wf_kept(*old(state), *state);
        }
    }
}

} // verus!
