//! SOCKS5 proxy server on the netstack.
//!
//! Supported commands: CONNECT (TCP) and UDP ASSOCIATE. Authentication: none
//! (method 0x00).
use vstd::prelude::*;
use vstd::utf8::{decode_utf8, valid_utf8};
use crate::addr::{Endpoint, Ip, IpAddr, Ipv4Addr, Ipv6Addr, SocketAddr, endpoint, socket_text};
use crate::bytes::{array16, be16, be16_bytes, push_be16, push_bytes, u16_from_be};
use crate::error::{ErrorKind, NetError};
use crate::proxy::ProxyListener;
use crate::resolver::{NameResolver, Plan, plan_matches, resolution};
use crate::stats::{
    ConnGuard, Dir, Entry, EntryId, SOCKS_STATS_KEY, ListenerStatsRegistry, change, closed, opened,
    registered, relayed,
};
use crate::text::{dec_text, from_utf8, owned, push_decimal};

verus! {

pub const SOCKS5_VERSION: u8 = 5;

pub const AUTH_NO_AUTH: u8 = 0x00;

pub const AUTH_NO_ACCEPTABLE: u8 = 0xFF;

pub const CMD_CONNECT: u8 = 0x01;

pub const CMD_UDP_ASSOCIATE: u8 = 0x03;

pub const ATYP_IPV4: u8 = 0x01;

pub const ATYP_DOMAIN: u8 = 0x03;

pub const ATYP_IPV6: u8 = 0x04;

pub const REP_SUCCESS: u8 = 0x00;

pub const REP_GENERAL_FAILURE: u8 = 0x01;

pub const REP_CONN_REFUSED: u8 = 0x05;

pub const REP_ADDR_TYPE_UNSUPPORTED: u8 = 0x08;

/// Seconds to wait for a reply to a relayed datagram.
pub const UDP_REPLY_TIMEOUT_SECS: u64 = 5;

/// Size of the buffers for relayed datagrams.
pub const UDP_BUFFER_SIZE: usize = 4096;

// ── Messages ──────────────────────────────────────────────────────────────────

/// The address type of an address.
pub open spec fn address_type(ip: Ip) -> u8 {
    match ip {
        Ip::V4(_) => ATYP_IPV4,
        Ip::V6(_) => ATYP_IPV6,
    }
}

/// The octets of an address.
pub open spec fn octets(ip: Ip) -> Seq<u8> {
    match ip {
        Ip::V4(o) => o,
        Ip::V6(o) => o,
    }
}

/// An address with its port as it stands in a message: type, octets, port.
pub open spec fn address_bytes(a: Endpoint) -> Seq<u8> {
    seq![address_type(a.ip)] + octets(a.ip) + be16_bytes(a.port)
}

/// The IPv6 zero address with port 0.
pub open spec fn no_address() -> Endpoint {
    endpoint(Ip::V6(Seq::new(16, |i: int| 0u8)), 0)
}

/// The reply to a request: a code, and the address that was bound or reached.
pub open spec fn reply_bytes(rep: u8, bound: Option<Endpoint>) -> Seq<u8> {
    seq![SOCKS5_VERSION, rep, 0u8] + address_bytes(
        match bound {
            Some(a) => a,
            None => no_address(),
        },
    )
}

/// A datagram with the header that says where it comes from or goes to.
pub open spec fn udp_packet(a: Endpoint, payload: Seq<u8>) -> Seq<u8> {
    seq![0u8, 0u8, 0u8] + address_bytes(a) + payload
}

/// Where a datagram of an address type goes, and how long its header is. Names are
/// not supported.
pub open spec fn udp_header(buf: Seq<u8>, atyp: u8) -> Option<(Endpoint, nat)> {
    if atyp == ATYP_IPV4 && buf.len() >= 10 {
        Some(
            (endpoint(Ip::V4(buf.subrange(4, 8)), be16(buf[8], buf[9])), 10),
        )
    } else if atyp == ATYP_IPV6 && buf.len() >= 22 {
        Some(
            (endpoint(Ip::V6(buf.subrange(4, 20)), be16(buf[20], buf[21])), 22),
        )
    } else {
        None
    }
}

/// Where a client's datagram goes, and how long its header is. One that is too
/// short for a header, or a fragment, goes nowhere.
pub open spec fn relayed_to(buf: Seq<u8>) -> Option<(Endpoint, nat)> {
    if buf.len() < 4 || buf[2] != 0 {
        None
    } else {
        udp_header(buf, buf[3])
    }
}

/// Append an address with its port.
fn push_address(out: &mut Vec<u8>, a: &SocketAddr)
    ensures
        final(out)@ == old(out)@ + address_bytes(a@),
{
    match &a.ip {
        IpAddr::V4(ip) => {
            out.push(ATYP_IPV4);
            push_bytes(out, ip.octets.as_slice());
        },
        IpAddr::V6(ip) => {
            out.push(ATYP_IPV6);
            push_bytes(out, ip.octets.as_slice());
        },
    }
    push_be16(out, a.port);
    assert(out@ =~= old(out)@ + address_bytes(a@));
}

/// The reply to a request.
pub fn send_reply(rep: u8, bound: Option<SocketAddr>) -> (r: Vec<u8>)
    ensures
        r@ == reply_bytes(
            rep,
            match bound {
                Some(a) => Some(a@),
                None => None,
            },
        ),
{
    let mut r: Vec<u8> = Vec::new();
    r.push(SOCKS5_VERSION);
    r.push(rep);
    r.push(0);
    assert(r@ =~= seq![SOCKS5_VERSION, rep, 0u8]);
    match bound {
        Some(a) => {
            push_address(&mut r, &a);
        },
        None => {
            let zero = SocketAddr::new(IpAddr::V6(Ipv6Addr { octets: [0u8;16] }), 0);
            assert(zero@.ip->V6_0 =~= Seq::new(16, |i: int| 0u8));
            push_address(&mut r, &zero);
        },
    }
    r
}

/// Build the header and payload of a datagram.
pub fn build_udp_header(src: SocketAddr, payload: &[u8]) -> (r: Vec<u8>)
    ensures
        r@ == udp_packet(src@, payload@),
{
    let mut r: Vec<u8> = Vec::new();
    r.push(0);
    r.push(0);
    r.push(0);
    assert(r@ =~= seq![0u8, 0u8, 0u8]);
    push_address(&mut r, &src);
    push_bytes(&mut r, payload);
    r
}

/// Parse the header of a datagram.
pub fn parse_udp_header(buf: &[u8], atyp: u8) -> (r: Option<(SocketAddr, usize)>)
    ensures
        match r {
            Some(v) => udp_header(buf@, atyp) == Some((v.0@, v.1 as nat)) && v.1 <= buf@.len(),
            None => udp_header(buf@, atyp) is None,
        },
{
    if atyp == ATYP_IPV4 && buf.len() >= 10 {
        let a = Ipv4Addr { octets: [buf[4], buf[5], buf[6], buf[7]] };
        assert(a.octets@ =~= buf@.subrange(4, 8));
        Some((SocketAddr::new(IpAddr::V4(a), u16_from_be(buf[8], buf[9])), 10))
    } else if atyp == ATYP_IPV6 && buf.len() >= 22 {
        let a = Ipv6Addr { octets: array16(buf, 4) };
        Some((SocketAddr::new(IpAddr::V6(a), u16_from_be(buf[20], buf[21])), 22))
    } else {
        None
    }
}

/// Work out where a client's datagram goes.
pub fn relay_target(buf: &[u8]) -> (r: Option<(SocketAddr, usize)>)
    ensures
        match r {
            Some(v) => relayed_to(buf@) == Some((v.0@, v.1 as nat)) && v.1 <= buf@.len(),
            None => relayed_to(buf@) is None,
        },
{
    if buf.len() < 4 || buf[2] != 0 {
        return None;
    }
    parse_udp_header(buf, buf[3])
}

// ── A client ──────────────────────────────────────────────────────────────────

/// Where a client wants to go.
pub enum Destination {
    Ip(IpAddr),
    Domain(String),
}

/// How far a client has come.
pub enum SocksPhase {
    /// The version is read.
    Version,
    /// The number of methods is read.
    MethodCount,
    /// The methods are read.
    Methods,
    /// The method is being chosen.
    Choosing,
    /// The version of the request is read.
    RequestVersion,
    /// The command and the address type are read.
    Request,
    /// The address is read, or the length of a name.
    Address { cmd: u8, atyp: u8 },
    /// The name is read.
    Name { cmd: u8 },
    /// The port is read.
    Port { cmd: u8, dest: Destination },
    /// The name is being resolved.
    Resolving { port: u16 },
    /// The destination is being dialled.
    Dialing { remote: SocketAddr },
    /// The reply to a CONNECT goes out.
    Connected,
    /// Bytes are relayed.
    Relaying,
    /// A relay for datagrams is being bound.
    Binding,
    /// The reply to a UDP ASSOCIATE goes out.
    Bound,
    /// Datagrams are relayed.
    Associated,
    /// It is over.
    Over,
}

/// What happened to a client.
pub enum SocksEvent {
    /// It connected.
    Start,
    /// The bytes that were asked for were read.
    Bytes(Vec<u8>),
    /// Reading failed.
    ReadFailed,
    /// What was to be sent was sent.
    Sent,
    /// The name was resolved.
    Resolved(Ipv6Addr),
    /// The name was not resolved, for this reason.
    ResolveFailed(String),
    /// The destination was reached.
    Dialed,
    /// The destination was not reached; the kind of error.
    DialFailed(ErrorKind),
    /// A relay for datagrams was bound to this address.
    RelayBound(SocketAddr),
    /// One of the two copies came to an end, the control connection was closed, or
    /// the server stops.
    Ended,
}

/// What is done for a client next.
pub enum SocksAction {
    /// Read so many bytes.
    Read(usize),
    /// Send these bytes.
    Send(Vec<u8>),
    /// Send these bytes, then give up with this error.
    Refuse(Vec<u8>, NetError),
    /// Send these bytes, then give up with the error that was met.
    RefuseAsMet(Vec<u8>),
    /// Give up with this error.
    Fail(NetError),
    /// Give up with the error that was met.
    FailAsMet,
    /// Resolve this name.
    Resolve(String),
    /// Dial this address.
    Dial(SocketAddr),
    /// Relay bytes between the client and the destination.
    Relay,
    /// Bind a relay for datagrams to the address of the control connection.
    BindRelay,
    /// Relay datagrams until the control connection is closed.
    RelayDatagrams,
    /// Close everything.
    Close,
    /// Nothing: the event does not belong here.
    Ignore,
}

/// Whether an action refuses with these bytes and this error.
pub open spec fn refuses(
    a: SocksAction,
    bytes: Seq<u8>,
    kind: ErrorKind,
    message: Seq<char>,
) -> bool {
    a matches SocksAction::Refuse(b, e) && b@ == bytes && e.says(kind, message)
}

/// Whether an action gives up with this error.
pub open spec fn gives_up(a: SocksAction, kind: ErrorKind, message: Seq<char>) -> bool {
    a matches SocksAction::Fail(e) && e.says(kind, message)
}

/// Whether an action sends these bytes.
pub open spec fn sends(a: SocksAction, bytes: Seq<u8>) -> bool {
    a matches SocksAction::Send(b) && b@ == bytes
}

/// The refusal of an address.
pub open spec fn address_refused() -> Seq<u8> {
    reply_bytes(REP_ADDR_TYPE_UNSUPPORTED, None)
}

/// How many bytes are read for an address of a type, to begin with.
pub open spec fn address_length(atyp: u8) -> Option<nat> {
    if atyp == ATYP_IPV4 {
        Some(4)
    } else if atyp == ATYP_IPV6 {
        Some(16)
    } else if atyp == ATYP_DOMAIN {
        Some(1)
    } else {
        None
    }
}

/// How many bytes the phase waits for, where it waits for bytes.
pub open spec fn wanted(p: SocksPhase) -> Option<nat> {
    match p {
        SocksPhase::Version => Some(1),
        SocksPhase::MethodCount => Some(1),
        SocksPhase::RequestVersion => Some(1),
        SocksPhase::Request => Some(3),
        SocksPhase::Address { cmd, atyp } => address_length(atyp),
        SocksPhase::Port { .. } => Some(2),
        _ => None,
    }
}

/// Whether the address that is read, if one is, is of a known type.
pub open spec fn known_type(p: SocksPhase) -> bool {
    p matches SocksPhase::Address { atyp, .. } ==> address_length(atyp) is Some
}

/// Whether a port has been reached for a destination.
pub open spec fn awaits_port(p: SocksPhase, cmd: u8, ip: Ip) -> bool {
    p matches SocksPhase::Port { cmd: c, dest: Destination::Ip(a) } && c == cmd && a@ == ip
}

/// What bytes that were read lead to.
pub open spec fn read_leads_to(p: SocksPhase, b: Seq<u8>, q: SocksPhase, a: SocksAction) -> bool {
    match p {
        SocksPhase::Version => if b[0] == SOCKS5_VERSION {
            q is MethodCount && a == SocksAction::Read(1)
        } else {
            q is Over && gives_up(a, ErrorKind::InvalidData, "not SOCKS5"@)
        },
        SocksPhase::MethodCount => q is Methods && a == SocksAction::Read(b[0] as usize),
        SocksPhase::Methods => if b.contains(AUTH_NO_AUTH) {
            q is Choosing && sends(a, seq![SOCKS5_VERSION, AUTH_NO_AUTH])
        } else {
            &&& q is Over
            &&& refuses(
                a,
                seq![SOCKS5_VERSION, AUTH_NO_ACCEPTABLE],
                ErrorKind::PermissionDenied,
                "no acceptable auth"@,
            )
        },
        SocksPhase::RequestVersion => if b[0] == SOCKS5_VERSION {
            q is Request && a == SocksAction::Read(3)
        } else {
            q is Over && gives_up(a, ErrorKind::InvalidData, "bad version"@)
        },
        SocksPhase::Request => match address_length(b[2]) {
            Some(n) => q == (SocksPhase::Address { cmd: b[0], atyp: b[2] }) && a
                == SocksAction::Read(n as usize),
            None => q is Over && refuses(
                a,
                address_refused(),
                ErrorKind::InvalidData,
                "unknown ATYP "@ + dec_text(b[2] as nat),
            ),
        },
        SocksPhase::Address { cmd, atyp } => if atyp == ATYP_IPV4 {
            awaits_port(q, cmd, Ip::V4(b)) && a == SocksAction::Read(2)
        } else if atyp == ATYP_IPV6 {
            awaits_port(q, cmd, Ip::V6(b)) && a == SocksAction::Read(2)
        } else {
            q == (SocksPhase::Name { cmd }) && a == SocksAction::Read(b[0] as usize)
        },
        SocksPhase::Name { cmd } => if valid_utf8(b) {
            &&& q matches SocksPhase::Port { cmd: c, dest: Destination::Domain(s) } && c == cmd
                && s@ == decode_utf8(b)
            &&& a == SocksAction::Read(2)
        } else {
            q is Over && refuses(
                a,
                address_refused(),
                ErrorKind::InvalidData,
                "invalid domain"@,
            )
        },
        SocksPhase::Port { cmd, dest } => {
            let port = be16(b[0], b[1]);
            if cmd == CMD_CONNECT {
                match dest {
                    Destination::Ip(ip) => {
                        &&& q matches SocksPhase::Dialing { remote } && remote@ == endpoint(
                            ip@,
                            port,
                        ) && a == SocksAction::Dial(remote)
                    },
                    Destination::Domain(name) => {
                        &&& q matches SocksPhase::Resolving { port: p } && p == port
                        &&& a == SocksAction::Resolve(name)
                    },
                }
            } else if cmd == CMD_UDP_ASSOCIATE {
                q is Binding && a is BindRelay
            } else {
                q is Over && refuses(
                    a,
                    reply_bytes(REP_GENERAL_FAILURE, None),
                    ErrorKind::Unsupported,
                    "unsupported CMD "@ + dec_text(cmd as nat),
                )
            }
        },
        _ => q == p && a is Ignore,
    }
}

/// What an event leads to.
pub open spec fn leads_to(p: SocksPhase, event: SocksEvent, q: SocksPhase, a: SocksAction) -> bool {
    match (p, event) {
        (SocksPhase::Over, _) => q is Over && a is Ignore,
        (SocksPhase::Version, SocksEvent::Start) => q == p && a == SocksAction::Read(1),
        (_, SocksEvent::Bytes(b)) => read_leads_to(p, b@, q, a),
        (SocksPhase::Address { .. }, SocksEvent::ReadFailed)
        | (SocksPhase::Name { .. }, SocksEvent::ReadFailed) => {
            q is Over && (a matches SocksAction::RefuseAsMet(b) && b@ == address_refused())
        },
        (_, SocksEvent::ReadFailed) => q is Over && a is FailAsMet,
        (SocksPhase::Choosing, SocksEvent::Sent) => {
            q is RequestVersion && a == SocksAction::Read(1)
        },
        (SocksPhase::Resolving { port }, SocksEvent::Resolved(ip)) => {
            q matches SocksPhase::Dialing { remote } && remote@ == endpoint(
                Ip::V6(ip.octets@),
                port as nat,
            ) && a == SocksAction::Dial(remote)
        },
        (SocksPhase::Resolving { .. }, SocksEvent::ResolveFailed(e)) => {
            q is Over && refuses(
                a,
                reply_bytes(REP_GENERAL_FAILURE, None),
                ErrorKind::Other,
                e@,
            )
        },
        (SocksPhase::Dialing { remote }, SocksEvent::Dialed) => {
            q is Connected && sends(a, reply_bytes(REP_SUCCESS, Some(remote@)))
        },
        (SocksPhase::Dialing { .. }, SocksEvent::DialFailed(kind)) => {
            let rep = if kind is ConnectionRefused {
                REP_CONN_REFUSED
            } else {
                REP_GENERAL_FAILURE
            };
            q is Over && (a matches SocksAction::RefuseAsMet(b) && b@ == reply_bytes(rep, None))
        },
        (SocksPhase::Connected, SocksEvent::Sent) => q is Relaying && a is Relay,
        (SocksPhase::Relaying, SocksEvent::Ended) => q is Over && a is Close,
        (SocksPhase::Binding, SocksEvent::RelayBound(addr)) => {
            q is Bound && sends(a, reply_bytes(REP_SUCCESS, Some(addr@)))
        },
        (SocksPhase::Bound, SocksEvent::Sent) => q is Associated && a is RelayDatagrams,
        (SocksPhase::Associated, SocksEvent::Ended) => q is Over && a is Close,
        _ => q == p && a is Ignore,
    }
}

/// Whether a client counts as an active connection.
pub open spec fn counts(p: SocksPhase) -> bool {
    p is Relaying || p is Associated
}

/// A client of the proxy.
pub struct SocksClient {
    phase: SocksPhase,
    entry: EntryId,
    guard: Option<ConnGuard>,
}

impl SocksClient {
    /// How far the client has come.
    pub closed spec fn phase(&self) -> SocksPhase {
        self.phase
    }

    /// The number of the entry that it counts on.
    pub closed spec fn num(&self) -> nat {
        self.entry.num()
    }

    /// There is a guard exactly while the client counts as active, and an address
    /// is read only of a type that is known.
    pub closed spec fn wf(&self) -> bool {
        &&& known_type(self.phase)
        &&& match self.guard {
            Some(g) => counts(self.phase) && g.held() && g.num() == self.entry.num(),
            None => !counts(self.phase),
        }
    }

    /// A client that has just connected.
    pub fn new(entry: EntryId) -> (r: Self)
        ensures
            r.wf(),
            r.phase() is Version,
            r.num() == entry.num(),
    {
        SocksClient { phase: SocksPhase::Version, entry, guard: None }
    }

    /// What bytes that were read lead to.
    fn on_bytes(phase: SocksPhase, b: Vec<u8>) -> (r: (SocksPhase, SocksAction))
        requires
            wanted(phase) matches Some(n) ==> b@.len() == n,
            known_type(phase),
        ensures
            read_leads_to(phase, b@, r.0, r.1),
            known_type(r.0),
    {
        match phase {
            SocksPhase::Version => if b[0] == SOCKS5_VERSION {
                (SocksPhase::MethodCount, SocksAction::Read(1))
            } else {
                (
                    SocksPhase::Over,
                    SocksAction::Fail(NetError::new(ErrorKind::InvalidData, "not SOCKS5")),
                )
            },
            SocksPhase::MethodCount => (SocksPhase::Methods, SocksAction::Read(b[0] as usize)),
            SocksPhase::Methods => choose_method(b.as_slice()),
            SocksPhase::RequestVersion => if b[0] == SOCKS5_VERSION {
                (SocksPhase::Request, SocksAction::Read(3))
            } else {
                (
                    SocksPhase::Over,
                    SocksAction::Fail(NetError::new(ErrorKind::InvalidData, "bad version")),
                )
            },
            SocksPhase::Request => {
                let atyp = b[2];
                let n: usize = if atyp == ATYP_IPV4 {
                    4
                } else if atyp == ATYP_IPV6 {
                    16
                } else if atyp == ATYP_DOMAIN {
                    1
                } else {
                    let mut m = owned("unknown ATYP ");
                    push_decimal(&mut m, atyp as u64);
                    return (
                        SocksPhase::Over,
                        SocksAction::Refuse(
                            send_reply(REP_ADDR_TYPE_UNSUPPORTED, None),
                            NetError { kind: ErrorKind::InvalidData, message: m },
                        ),
                    );
                };
                (SocksPhase::Address { cmd: b[0], atyp }, SocksAction::Read(n))
            },
            SocksPhase::Address { cmd, atyp } => read_address(cmd, atyp, b.as_slice()),
            SocksPhase::Name { cmd } => match from_utf8(b) {
                Some(name) => (
                    SocksPhase::Port { cmd, dest: Destination::Domain(name) },
                    SocksAction::Read(2),
                ),
                None => (
                    SocksPhase::Over,
                    SocksAction::Refuse(
                        send_reply(REP_ADDR_TYPE_UNSUPPORTED, None),
                        NetError::new(ErrorKind::InvalidData, "invalid domain"),
                    ),
                ),
            },
            SocksPhase::Port { cmd, dest } => start_command(cmd, dest, u16_from_be(b[0], b[1])),
            p => (p, SocksAction::Ignore),
        }
    }

    /// What to do after an event.
    pub fn step(&mut self, registry: &mut ListenerStatsRegistry, event: SocksEvent) -> (r:
        SocksAction)
        requires
            old(self).wf(),
            old(registry).wf(),
            event matches SocksEvent::Bytes(b) ==> (wanted(old(self).phase()) matches Some(n)
                ==> b@.len() == n),
        ensures
            final(self).wf(),
            final(registry).wf(),
            final(registry).next() == old(registry).next(),
            final(self).num() == old(self).num(),
            leads_to(old(self).phase(), event, final(self).phase(), r),
            final(registry)@ == if !counts(old(self).phase()) && counts(final(self).phase()) {
                change(old(registry)@, old(self).num(), |e: Entry| opened(e))
            } else if counts(old(self).phase()) && !counts(final(self).phase()) {
                change(old(registry)@, old(self).num(), |e: Entry| closed(e))
            } else {
                old(registry)@
            },
    {
        let mut phase = SocksPhase::Over;
        std::mem::swap(&mut phase, &mut self.phase);
        let (next, action) = match (phase, event) {
            (SocksPhase::Over, _) => (SocksPhase::Over, SocksAction::Ignore),
            (SocksPhase::Version, SocksEvent::Start) => (
                SocksPhase::Version,
                SocksAction::Read(1),
            ),
            (p, SocksEvent::Bytes(b)) => Self::on_bytes(p, b),
            (SocksPhase::Address { .. }, SocksEvent::ReadFailed)
            | (SocksPhase::Name { .. }, SocksEvent::ReadFailed) => (
                SocksPhase::Over,
                SocksAction::RefuseAsMet(send_reply(REP_ADDR_TYPE_UNSUPPORTED, None)),
            ),
            (_, SocksEvent::ReadFailed) => (SocksPhase::Over, SocksAction::FailAsMet),
            (SocksPhase::Choosing, SocksEvent::Sent) => (
                SocksPhase::RequestVersion,
                SocksAction::Read(1),
            ),
            (SocksPhase::Resolving { port }, SocksEvent::Resolved(ip)) => {
                let remote = SocketAddr::new(IpAddr::V6(ip), port);
                (SocksPhase::Dialing { remote }, SocksAction::Dial(remote))
            },
            (SocksPhase::Resolving { .. }, SocksEvent::ResolveFailed(e)) => (
                SocksPhase::Over,
                SocksAction::Refuse(
                    send_reply(REP_GENERAL_FAILURE, None),
                    NetError { kind: ErrorKind::Other, message: e },
                ),
            ),
            (SocksPhase::Dialing { remote }, SocksEvent::Dialed) => (
                SocksPhase::Connected,
                SocksAction::Send(send_reply(REP_SUCCESS, Some(remote))),
            ),
            (SocksPhase::Dialing { .. }, SocksEvent::DialFailed(kind)) => {
                let rep: u8 = if kind == ErrorKind::ConnectionRefused {
                    REP_CONN_REFUSED
                } else {
                    REP_GENERAL_FAILURE
                };
                (SocksPhase::Over, SocksAction::RefuseAsMet(send_reply(rep, None)))
            },
            (SocksPhase::Connected, SocksEvent::Sent) => (SocksPhase::Relaying, SocksAction::Relay),
            (SocksPhase::Relaying, SocksEvent::Ended) => (SocksPhase::Over, SocksAction::Close),
            (SocksPhase::Binding, SocksEvent::RelayBound(addr)) => (
                SocksPhase::Bound,
                SocksAction::Send(send_reply(REP_SUCCESS, Some(addr))),
            ),
            (SocksPhase::Bound, SocksEvent::Sent) => (
                SocksPhase::Associated,
                SocksAction::RelayDatagrams,
            ),
            (SocksPhase::Associated, SocksEvent::Ended) => (SocksPhase::Over, SocksAction::Close),
            (p, _) => (p, SocksAction::Ignore),
        };
        let active = match &next {
            SocksPhase::Relaying => true,
            SocksPhase::Associated => true,
            _ => false,
        };
        match &mut self.guard {
            Some(g) => {
                if !active {
                    g.release(registry);
                }
            },
            None => {
                if active {
                    self.guard = Some(ConnGuard::new(registry, self.entry));
                }
            },
        }
        if !active {
            self.guard = None;
        }
        self.phase = next;
        action
    }
}

/// Choose a method.
fn choose_method(methods: &[u8]) -> (r: (SocksPhase, SocksAction))
    ensures
        read_leads_to(SocksPhase::Methods, methods@, r.0, r.1),
{
    let mut i: usize = 0;
    while i < methods.len()
        invariant
            i <= methods@.len(),
            forall|k: int| 0 <= k < i ==> methods@[k] != AUTH_NO_AUTH,
        decreases methods.len() - i,
    {
        if methods[i] == AUTH_NO_AUTH {
            assert(methods@.contains(AUTH_NO_AUTH));
            let mut b: Vec<u8> = Vec::new();
            b.push(SOCKS5_VERSION);
            b.push(AUTH_NO_AUTH);
            assert(b@ =~= seq![SOCKS5_VERSION, AUTH_NO_AUTH]);
            return (SocksPhase::Choosing, SocksAction::Send(b));
        }
        i += 1;
    }
    let mut b: Vec<u8> = Vec::new();
    b.push(SOCKS5_VERSION);
    b.push(AUTH_NO_ACCEPTABLE);
    assert(b@ =~= seq![SOCKS5_VERSION, AUTH_NO_ACCEPTABLE]);
    (
        SocksPhase::Over,
        SocksAction::Refuse(b, NetError::new(ErrorKind::PermissionDenied, "no acceptable auth")),
    )
}

/// Read an address, or the length of a name.
fn read_address(cmd: u8, atyp: u8, b: &[u8]) -> (r: (SocksPhase, SocksAction))
    requires
        address_length(atyp) matches Some(n) && b@.len() == n,
    ensures
        read_leads_to(SocksPhase::Address { cmd, atyp }, b@, r.0, r.1),
{
    if atyp == ATYP_IPV4 {
        let a = Ipv4Addr { octets: [b[0], b[1], b[2], b[3]] };
        assert(a.octets@ =~= b@);
        (SocksPhase::Port { cmd, dest: Destination::Ip(IpAddr::V4(a)) }, SocksAction::Read(2))
    } else if atyp == ATYP_IPV6 {
        let a = Ipv6Addr { octets: array16(b, 0) };
        assert(a.octets@ =~= b@);
        (SocksPhase::Port { cmd, dest: Destination::Ip(IpAddr::V6(a)) }, SocksAction::Read(2))
    } else {
        (SocksPhase::Name { cmd }, SocksAction::Read(b[0] as usize))
    }
}

/// Start a command.
fn start_command(cmd: u8, dest: Destination, port: u16) -> (r: (SocksPhase, SocksAction))
    ensures
        forall|b: Seq<u8>|
            b.len() == 2 && be16(b[0], b[1]) == port ==> #[trigger] read_leads_to(
                SocksPhase::Port { cmd, dest },
                b,
                r.0,
                r.1,
            ),
        known_type(r.0),
{
    if cmd == CMD_CONNECT {
        match dest {
            Destination::Ip(ip) => {
                let remote = SocketAddr::new(ip, port);
                (SocksPhase::Dialing { remote }, SocksAction::Dial(remote))
            },
            Destination::Domain(name) => (
                SocksPhase::Resolving { port },
                SocksAction::Resolve(name),
            ),
        }
    } else if cmd == CMD_UDP_ASSOCIATE {
        (SocksPhase::Binding, SocksAction::BindRelay)
    } else {
        let mut m = owned("unsupported CMD ");
        push_decimal(&mut m, cmd as u64);
        (
            SocksPhase::Over,
            SocksAction::Refuse(
                send_reply(REP_GENERAL_FAILURE, None),
                NetError { kind: ErrorKind::Unsupported, message: m },
            ),
        )
    }
}

/// The address that a relay for datagrams is bound to: that of the control
/// connection, with any port.
pub fn relay_bind_address(control: SocketAddr) -> (r: SocketAddr)
    ensures
        r@ == endpoint(control@.ip, 0),
{
    SocketAddr::new(control.ip, 0)
}

// ── Relayed datagrams ─────────────────────────────────────────────────────────

/// What happened to a relayed datagram.
pub enum DatagramEvent {
    /// It came in from the client.
    Received(Vec<u8>),
    /// It was sent on.
    Sent,
    /// It could not be sent on.
    SendFailed,
    /// A reply came back.
    Reply { from: SocketAddr, payload: Vec<u8> },
    /// No reply came back, or not in time.
    NoReply,
}

/// What is done next.
pub enum DatagramAction {
    /// Wait for the client's next datagram.
    Receive,
    /// Send this payload to this address, from a new socket.
    Send { to: SocketAddr, payload: Vec<u8> },
    /// Wait for a reply.
    AwaitReply,
    /// Send this to the client, and wait for its next datagram.
    Return(Vec<u8>),
}

/// The relaying of a client's datagrams: how many payload bytes are being sent.
pub struct DatagramRelay {
    pub entry: EntryId,
    pub sending: usize,
}

impl DatagramRelay {
    /// What to do after an event.
    pub fn step(&mut self, registry: &mut ListenerStatsRegistry, event: DatagramEvent) -> (r:
        DatagramAction)
        requires
            old(registry).wf(),
        ensures
            final(registry).wf(),
            final(registry).next() == old(registry).next(),
            final(self).entry == old(self).entry,
            match event {
                DatagramEvent::Received(b) => {
                    &&& final(registry)@ == old(registry)@
                    &&& match relayed_to(b@) {
                        Some((to, header)) => {
                            &&& r matches DatagramAction::Send { to: t, payload } && t@ == to
                                && payload@ == b@.skip(header as int)
                            &&& final(self).sending == b@.len() - header
                        },
                        None => r is Receive && final(self).sending == old(self).sending,
                    }
                },
                DatagramEvent::Sent => {
                    &&& r is AwaitReply
                    &&& final(self).sending == old(self).sending
                    &&& final(registry)@ == change(
                        old(registry)@,
                        old(self).entry.num(),
                        |e: Entry| relayed(e, Dir::Tx, old(self).sending as nat),
                    )
                },
                DatagramEvent::Reply { from, payload } => {
                    &&& r matches DatagramAction::Return(p) && p@ == udp_packet(from@, payload@)
                    &&& final(self).sending == old(self).sending
                    &&& final(registry)@ == change(
                        old(registry)@,
                        old(self).entry.num(),
                        |e: Entry| relayed(e, Dir::Rx, payload@.len()),
                    )
                },
                _ => {
                    &&& r is Receive
                    &&& final(self).sending == old(self).sending
                    &&& final(registry)@ == old(registry)@
                },
            },
    {
        match event {
            DatagramEvent::Received(b) => match relay_target(b.as_slice()) {
                Some((to, header)) => {
                    let payload = crate::bytes::copy_range(b.as_slice(), header, b.len());
                    assert(payload@ =~= b@.skip(header as int));
                    self.sending = b.len() - header;
                    DatagramAction::Send { to, payload }
                },
                None => DatagramAction::Receive,
            },
            DatagramEvent::Sent => {
                registry.relay(self.entry, Dir::Tx, self.sending as u64);
                DatagramAction::AwaitReply
            },
            DatagramEvent::SendFailed => DatagramAction::Receive,
            DatagramEvent::Reply { from, payload } => {
                registry.relay(self.entry, Dir::Rx, payload.len() as u64);
                DatagramAction::Return(build_udp_header(from, payload.as_slice()))
            },
            DatagramEvent::NoReply => DatagramAction::Receive,
        }
    }
}

// ── The server ────────────────────────────────────────────────────────────────

/// A SOCKS5 proxy server.
pub struct Socks5Server {
    resolver: NameResolver,
}

impl Socks5Server {
    /// The name server that names are resolved with.
    pub closed spec fn nameserver(&self) -> Option<Seq<char>> {
        self.resolver.nameserver()
    }

    /// A server that resolves names with a resolver.
    pub fn new(resolver: NameResolver) -> (r: Self)
        ensures
            r.nameserver() == resolver.nameserver(),
    {
        Socks5Server { resolver }
    }

    /// Start serving on an address: the server is registered.
    pub fn serve_tcp(&self, local: &SocketAddr, registry: &mut ListenerStatsRegistry) -> (r:
        ProxyListener)
        requires
            old(registry).wf(),
            old(registry).next() < u64::MAX,
        ensures
            final(registry).wf(),
            final(registry)@ == registered(
                old(registry)@,
                old(registry).next(),
                SOCKS_STATS_KEY@,
                "socks"@,
                socket_text(local@),
                Seq::empty(),
            ),
            r.key_text() == SOCKS_STATS_KEY@,
            r.num() == final(registry)@[SOCKS_STATS_KEY@].id,
            !r.stopped(),
    {
        ProxyListener::new(SOCKS_STATS_KEY, "socks", local, registry)
    }

    /// A client that connected to a listener.
    pub fn handle_client(&self, listener: &ProxyListener) -> (r: SocksClient)
        ensures
            r.wf(),
            r.num() == listener.num(),
            r.phase() is Version,
    {
        SocksClient::new(listener.entry())
    }

    /// Work out how the name of a destination is resolved.
    pub fn resolve(&self, name: &str) -> (r: Result<Plan, String>)
        ensures
            plan_matches(r, resolution(name@, self.nameserver()), name@),
    {
        self.resolver.resolve(name)
    }
}

} // verus!
