//! What holds of SOCKS5 messages and of a client's whole request.
use vstd::prelude::*;
use vstd::utf8::{encode_utf8, encode_utf8_decode_utf8, encode_utf8_valid_utf8, valid_utf8};
use crate::addr::{Endpoint, Ip, IpAddr, Ipv6Addr, SocketAddr, endpoint};
use crate::addr_laws::is_address;
use crate::bytes::{be16_bytes, lemma_be16_round_trip};
use crate::error::ErrorKind;
use crate::stats::{EntryId, ListenerStatsRegistry};
use crate::text::dec_text;
use crate::socks::{
    ATYP_DOMAIN, ATYP_IPV4, ATYP_IPV6, AUTH_NO_AUTH, CMD_CONNECT, CMD_UDP_ASSOCIATE, DatagramAction,
    DatagramEvent, DatagramRelay, Destination, REP_GENERAL_FAILURE, SOCKS5_VERSION, SocksAction,
    SocksClient, SocksEvent, SocksPhase, address_bytes, address_refused, octets, read_leads_to,
    refuses, relay_bind_address, relayed_to, reply_bytes, send_reply, udp_packet,
};

verus! {

/// The length of the header of a datagram.
pub open spec fn header_length(a: Endpoint) -> nat {
    match a.ip {
        Ip::V4(_) => 10,
        Ip::V6(_) => 22,
    }
}

/// A datagram that was built for an address is taken apart into that address and
/// its payload.
pub proof fn law_datagram_round_trip(a: Endpoint, payload: Seq<u8>)
    requires
        is_address(a.ip),
        a.port <= 65535,
    ensures
        relayed_to(udp_packet(a, payload)) == Some(
            (endpoint(a.ip, a.port), header_length(a)),
        ),
        udp_packet(a, payload).skip(header_length(a) as int) == payload,
{
    let p = udp_packet(a, payload);
    lemma_be16_round_trip(a.port);
    match a.ip {
        Ip::V4(o) => {
            assert(p.subrange(4, 8) =~= o);
            assert(p[8] == be16_bytes(a.port)[0] && p[9] == be16_bytes(a.port)[1]);
            assert(p.skip(10) =~= payload);
        },
        Ip::V6(o) => {
            assert(p.subrange(4, 20) =~= o);
            assert(p[20] == be16_bytes(a.port)[0] && p[21] == be16_bytes(a.port)[1]);
            assert(p.skip(22) =~= payload);
        },
    }
}

/// Fragments and datagrams to names are not relayed.
pub proof fn law_unsupported_datagrams_are_dropped(b: Seq<u8>)
    requires
        b.len() < 4 || b[2] != 0 || b[3] == ATYP_DOMAIN,
    ensures
        relayed_to(b) is None,
{
}

/// A reply carries the version, the code and the address.
pub proof fn law_reply_shape(rep: u8, a: Endpoint)
    requires
        is_address(a.ip),
    ensures
        reply_bytes(rep, Some(a)).len() == header_length(a),
        reply_bytes(rep, Some(a))[0] == SOCKS5_VERSION,
        reply_bytes(rep, Some(a))[1] == rep,
        reply_bytes(rep, Some(a)).skip(3) == address_bytes(a),
        reply_bytes(rep, None).len() == 22,
        reply_bytes(rep, None)[1] == rep,
{
    assert(reply_bytes(rep, Some(a)).skip(3) =~= address_bytes(a));
}

/// A client that offers to go without authentication and asks to be connected to
/// an address, has that address dialled.
pub proof fn law_connect_request(
    count: u8,
    methods: Seq<u8>,
    reserved: u8,
    dest: Endpoint,
    p1: SocksPhase,
    p2: SocksPhase,
    p3: SocksPhase,
    p4: SocksPhase,
    p5: SocksPhase,
    p6: SocksPhase,
    p7: SocksPhase,
    a1: SocksAction,
    a2: SocksAction,
    a3: SocksAction,
    a4: SocksAction,
    a5: SocksAction,
    a6: SocksAction,
    a7: SocksAction,
)
    requires
        is_address(dest.ip),
        dest.port <= 65535,
        methods.contains(AUTH_NO_AUTH),
        read_leads_to(SocksPhase::Version, seq![SOCKS5_VERSION], p1, a1),
        read_leads_to(p1, seq![count], p2, a2),
        read_leads_to(p2, methods, p3, a3),
        read_leads_to(SocksPhase::RequestVersion, seq![SOCKS5_VERSION], p4, a4),
        read_leads_to(
            p4,
            seq![
                CMD_CONNECT,
                reserved,
                if dest.ip is V4 {
                    ATYP_IPV4
                } else {
                    ATYP_IPV6
                },
            ],
            p5,
            a5,
        ),
        read_leads_to(p5, octets(dest.ip), p6, a6),
        read_leads_to(p6, be16_bytes(dest.port), p7, a7),
    ensures
        p3 is Choosing,
        p7 matches SocksPhase::Dialing { remote } && remote@ == endpoint(
            dest.ip,
            dest.port,
        ) && a7 == SocksAction::Dial(remote),
{
    lemma_be16_round_trip(dest.port);
}

/// A client that does not offer to go without authentication is refused.
pub proof fn law_authentication_is_refused(methods: Seq<u8>, q: SocksPhase, a: SocksAction)
    requires
        !methods.contains(AUTH_NO_AUTH),
        read_leads_to(SocksPhase::Methods, methods, q, a),
    ensures
        q is Over,
        refuses(
            a,
            seq![SOCKS5_VERSION, 0xFFu8],
            ErrorKind::PermissionDenied,
            "no acceptable auth"@,
        ),
{
}

/// A command that is neither CONNECT nor UDP ASSOCIATE is answered with a general
/// failure.
pub proof fn law_other_commands_are_refused(p: SocksPhase, b: Seq<u8>, q: SocksPhase, a: SocksAction)
    requires
        p matches SocksPhase::Port { cmd, .. } && cmd != CMD_CONNECT && cmd != CMD_UDP_ASSOCIATE,
        read_leads_to(p, b, q, a),
    ensures
        q is Over,
        a matches SocksAction::Refuse(r, _) && r@ == reply_bytes(REP_GENERAL_FAILURE, None),
{
}

/// An address of an unknown type is answered so.
pub proof fn law_unknown_address_types_are_refused(b: Seq<u8>, q: SocksPhase, a: SocksAction)
    requires
        b.len() == 3,
        b[2] != ATYP_IPV4,
        b[2] != ATYP_IPV6,
        b[2] != ATYP_DOMAIN,
        read_leads_to(SocksPhase::Request, b, q, a),
    ensures
        q is Over,
        a matches SocksAction::Refuse(r, _) && r@ == address_refused(),
{
}

// ── Whole sessions ────────────────────────────────────────────────────────────

/// The bytes of an address in a message: its type, its octets and its port.
pub open spec fn wire_address(ip: Ip, port: nat) -> Seq<u8> {
    (match ip {
        Ip::V4(o) => seq![1u8] + o,
        Ip::V6(o) => seq![4u8] + o,
    }) + seq![(port / 256) as u8, (port % 256) as u8]
}

/// The zero address with port 0, as it stands in a refusal.
pub open spec fn wire_nowhere() -> Seq<u8> {
    wire_address(Ip::V6(Seq::new(16, |i: int| 0u8)), 0)
}

/// Whether an event is that these bytes were read.
pub open spec fn reads(e: SocksEvent, b: Seq<u8>) -> bool {
    e matches SocksEvent::Bytes(v) && v@ == b
}

/// A reply is the version, the code, a zero byte and the address; the zero address
/// where there is none.
pub proof fn law_replies_carry_the_address(rep: u8, bound: Option<SocketAddr>, r: Vec<u8>)
    requires
        call_ensures(send_reply, (rep, bound), r),
    ensures
        match bound {
            Some(a) => r@ == seq![5u8, rep, 0u8] + wire_address(a.ip@, a.port as nat),
            None => r@ == seq![5u8, rep, 0u8] + wire_nowhere(),
        },
{
    match bound {
        Some(a) => {
            assert(r@ =~= seq![5u8, rep, 0u8] + wire_address(a.ip@, a.port as nat));
        },
        None => {
            assert(r@ =~= seq![5u8, rep, 0u8] + wire_nowhere());
        },
    }
}

/// A client that speaks version 5 and offers to go without authentication is let in,
/// and its request is read.
pub proof fn law_clients_without_authentication_are_let_in(
    cs: Seq<&mut SocksClient>,
    rs: Seq<&mut ListenerStatsRegistry>,
    es: Seq<SocksEvent>,
    acts: Seq<SocksAction>,
    entry: EntryId,
    c: SocksClient,
    count: u8,
    methods: Seq<u8>,
)
    requires
        cs.len() == 5 && rs.len() == 5 && es.len() == 5 && acts.len() == 5,
        forall|i: int|
            0 <= i < 5 ==> #[trigger] call_ensures(
                SocksClient::step,
                (cs[i], rs[i], es[i]),
                acts[i],
            ),
        forall|i: int| 0 <= i < 4 ==> *final(#[trigger] cs[i]) == *cs[i + 1],
        call_ensures(SocksClient::new, (entry,), c),
        *cs[0] == c,
        es[0] is Start,
        reads(es[1], seq![5u8]),
        reads(es[2], seq![count]),
        reads(es[3], methods),
        methods.contains(0u8),
        es[4] is Sent,
    ensures
        acts[0] == SocksAction::Read(1),
        acts[1] == SocksAction::Read(1),
        acts[2] == SocksAction::Read(count as usize),
        acts[3] matches SocksAction::Send(b) && b@ == seq![5u8, 0u8],
        acts[4] == SocksAction::Read(1),
        final(cs[4]).phase() is RequestVersion,
{
    assert(call_ensures(SocksClient::step, (cs[0], rs[0], es[0]), acts[0]));
    assert(call_ensures(SocksClient::step, (cs[1], rs[1], es[1]), acts[1]));
    assert(call_ensures(SocksClient::step, (cs[2], rs[2], es[2]), acts[2]));
    assert(call_ensures(SocksClient::step, (cs[3], rs[3], es[3]), acts[3]));
    assert(call_ensures(SocksClient::step, (cs[4], rs[4], es[4]), acts[4]));
    assert(*final(cs[0]) == *cs[1]);
    assert(*final(cs[1]) == *cs[2]);
    assert(*final(cs[2]) == *cs[3]);
    assert(*final(cs[3]) == *cs[4]);
}

/// A client of another version, or one that insists on authentication, is turned
/// away.
pub proof fn law_other_clients_are_turned_away(
    c: &mut SocksClient,
    r: &mut ListenerStatsRegistry,
    e: SocksEvent,
    a: SocksAction,
    b: Seq<u8>,
)
    requires
        call_ensures(SocksClient::step, (c, r, e), a),
        reads(e, b),
        ({
            ||| (old(c).phase() is Version || old(c).phase() is RequestVersion) && b.len() == 1
                && b[0] != 5
            ||| old(c).phase() is Methods && !b.contains(0u8)
        }),
    ensures
        final(c).phase() is Over,
        old(c).phase() is Methods ==> (a matches SocksAction::Refuse(s, f) && s@ == seq![5u8, 255u8]
            && f.kind == ErrorKind::PermissionDenied),
        !(old(c).phase() is Methods) ==> (a matches SocksAction::Fail(f) && f.kind
            == ErrorKind::InvalidData),
{
}

/// A client that asks to be connected to a name and a port has that name resolved;
/// the address that it is resolved to is dialled with that port; the client is told
/// so, and its bytes are relayed until the connection ends.
pub proof fn law_connect_by_name(
    cs: Seq<&mut SocksClient>,
    rs: Seq<&mut ListenerStatsRegistry>,
    es: Seq<SocksEvent>,
    acts: Seq<SocksAction>,
    reserved: u8,
    name: Seq<char>,
    hi: u8,
    lo: u8,
    ip: Ipv6Addr,
)
    requires
        cs.len() == 9 && rs.len() == 9 && es.len() == 9 && acts.len() == 9,
        forall|i: int|
            0 <= i < 9 ==> #[trigger] call_ensures(
                SocksClient::step,
                (cs[i], rs[i], es[i]),
                acts[i],
            ),
        forall|i: int| 0 <= i < 8 ==> *final(#[trigger] cs[i]) == *cs[i + 1],
        cs[0].phase() is RequestVersion,
        encode_utf8(name).len() < 256,
        reads(es[0], seq![5u8]),
        reads(es[1], seq![1u8, reserved, 3u8]),
        reads(es[2], seq![encode_utf8(name).len() as u8]),
        reads(es[3], encode_utf8(name)),
        reads(es[4], seq![hi, lo]),
        es[5] == SocksEvent::Resolved(ip),
        es[6] is Dialed,
        es[7] is Sent,
        es[8] is Ended,
    ensures
        acts[0] == SocksAction::Read(3),
        acts[1] == SocksAction::Read(1),
        acts[2] == SocksAction::Read(encode_utf8(name).len() as usize),
        acts[3] == SocksAction::Read(2),
        acts[4] matches SocksAction::Resolve(n) && n@ == name,
        acts[5] matches SocksAction::Dial(to) && to.ip == IpAddr::V6(ip) && to.port == hi * 256 + lo
            && to.flowinfo == 0 && to.scope_id == 0,
        acts[6] matches SocksAction::Send(b) && b@ == seq![5u8, 0u8, 0u8, 4u8] + ip.octets@ + seq![
            hi,
            lo,
        ],
        acts[7] is Relay,
        acts[8] is Close,
        final(cs[8]).phase() is Over,
{
    encode_utf8_valid_utf8(name);
    encode_utf8_decode_utf8(name);
    assert(call_ensures(SocksClient::step, (cs[0], rs[0], es[0]), acts[0]));
    assert(*final(cs[0]) == *cs[1]);
    assert(call_ensures(SocksClient::step, (cs[1], rs[1], es[1]), acts[1]));
    assert(*final(cs[1]) == *cs[2]);
    assert(cs[2].phase() == (SocksPhase::Address { cmd: 1, atyp: 3 }));
    assert(call_ensures(SocksClient::step, (cs[2], rs[2], es[2]), acts[2]));
    assert(*final(cs[2]) == *cs[3]);
    assert(call_ensures(SocksClient::step, (cs[3], rs[3], es[3]), acts[3]));
    assert(*final(cs[3]) == *cs[4]);
    assert(cs[4].phase() matches SocksPhase::Port { cmd, dest: Destination::Domain(n) } && cmd == 1
        && n@ == name);
    assert(call_ensures(SocksClient::step, (cs[4], rs[4], es[4]), acts[4]));
    assert(*final(cs[4]) == *cs[5]);
    assert(call_ensures(SocksClient::step, (cs[5], rs[5], es[5]), acts[5]));
    assert(*final(cs[5]) == *cs[6]);
    let remote = acts[5]->Dial_0;
    lemma_same_v6(remote.ip, ip);
    assert(call_ensures(SocksClient::step, (cs[6], rs[6], es[6]), acts[6]));
    assert(*final(cs[6]) == *cs[7]);
    assert(reply_bytes(0, Some(remote@)) =~= seq![5u8, 0u8, 0u8, 4u8] + ip.octets@ + seq![hi, lo]);
    assert(call_ensures(SocksClient::step, (cs[7], rs[7], es[7]), acts[7]));
    assert(*final(cs[7]) == *cs[8]);
    assert(call_ensures(SocksClient::step, (cs[8], rs[8], es[8]), acts[8]));
}

/// Octets tell addresses apart.
proof fn lemma_same_v6(a: IpAddr, ip: Ipv6Addr)
    requires
        a@ == Ip::V6(ip.octets@),
    ensures
        a == IpAddr::V6(ip),
{
    let b = a->V6_0;
    assert(b.octets@ == ip.octets@);
    assert(b.octets =~= ip.octets);
}

/// A client that asks to be connected to an address and a port has exactly these
/// dialled, and is told so.
pub proof fn law_connect_by_address(
    cs: Seq<&mut SocksClient>,
    rs: Seq<&mut ListenerStatsRegistry>,
    es: Seq<SocksEvent>,
    acts: Seq<SocksAction>,
    reserved: u8,
    ip: Ip,
    hi: u8,
    lo: u8,
)
    requires
        cs.len() == 7 && rs.len() == 7 && es.len() == 7 && acts.len() == 7,
        forall|i: int|
            0 <= i < 7 ==> #[trigger] call_ensures(
                SocksClient::step,
                (cs[i], rs[i], es[i]),
                acts[i],
            ),
        forall|i: int| 0 <= i < 6 ==> *final(#[trigger] cs[i]) == *cs[i + 1],
        cs[0].phase() is RequestVersion,
        is_address(ip),
        reads(es[0], seq![5u8]),
        match ip {
            Ip::V4(o) => reads(es[1], seq![1u8, reserved, 1u8]) && reads(es[2], o),
            Ip::V6(o) => reads(es[1], seq![1u8, reserved, 4u8]) && reads(es[2], o),
        },
        reads(es[3], seq![hi, lo]),
        es[4] is Dialed,
        es[5] is Sent,
        es[6] is Ended,
    ensures
        acts[1] == SocksAction::Read(
            if ip is V4 {
                4
            } else {
                16
            },
        ),
        acts[2] == SocksAction::Read(2),
        acts[3] matches SocksAction::Dial(to) && to.ip@ == ip && to.port == hi * 256 + lo
            && to.flowinfo == 0 && to.scope_id == 0,
        acts[4] matches SocksAction::Send(b) && b@ == seq![5u8, 0u8, 0u8] + wire_address(
            ip,
            (hi * 256 + lo) as nat,
        ),
        acts[5] is Relay,
        acts[6] is Close,
        final(cs[6]).phase() is Over,
{
    assert(call_ensures(SocksClient::step, (cs[0], rs[0], es[0]), acts[0]));
    assert(*final(cs[0]) == *cs[1]);
    assert(call_ensures(SocksClient::step, (cs[1], rs[1], es[1]), acts[1]));
    assert(*final(cs[1]) == *cs[2]);
    assert(call_ensures(SocksClient::step, (cs[2], rs[2], es[2]), acts[2]));
    assert(*final(cs[2]) == *cs[3]);
    assert(cs[3].phase() matches SocksPhase::Port { cmd, dest: Destination::Ip(a) } && cmd == 1
        && a@ == ip);
    assert(call_ensures(SocksClient::step, (cs[3], rs[3], es[3]), acts[3]));
    assert(*final(cs[3]) == *cs[4]);
    assert(call_ensures(SocksClient::step, (cs[4], rs[4], es[4]), acts[4]));
    assert(*final(cs[4]) == *cs[5]);
    let port = (hi * 256 + lo) as nat;
    assert(reply_bytes(0, Some(endpoint(ip, port))) =~= seq![5u8, 0u8, 0u8] + wire_address(ip, port));
    assert(call_ensures(SocksClient::step, (cs[5], rs[5], es[5]), acts[5]));
    assert(*final(cs[5]) == *cs[6]);
    assert(call_ensures(SocksClient::step, (cs[6], rs[6], es[6]), acts[6]));
}

/// A client that asks for datagrams to be relayed is told the address that a relay
/// was bound to, whatever address its request names, and its datagrams are relayed
/// until its connection ends.
pub proof fn law_udp_associate(
    cs: Seq<&mut SocksClient>,
    rs: Seq<&mut ListenerStatsRegistry>,
    es: Seq<SocksEvent>,
    acts: Seq<SocksAction>,
    port: Seq<u8>,
    relay: SocketAddr,
)
    requires
        cs.len() == 4 && rs.len() == 4 && es.len() == 4 && acts.len() == 4,
        forall|i: int|
            0 <= i < 4 ==> #[trigger] call_ensures(
                SocksClient::step,
                (cs[i], rs[i], es[i]),
                acts[i],
            ),
        forall|i: int| 0 <= i < 3 ==> *final(#[trigger] cs[i]) == *cs[i + 1],
        cs[0].phase() matches SocksPhase::Port { cmd, .. } && cmd == 3,
        port.len() == 2,
        reads(es[0], port),
        es[1] == SocksEvent::RelayBound(relay),
        es[2] is Sent,
        es[3] is Ended,
    ensures
        acts[0] is BindRelay,
        acts[1] matches SocksAction::Send(b) && b@ == seq![5u8, 0u8, 0u8] + wire_address(
            relay.ip@,
            relay.port as nat,
        ),
        acts[2] is RelayDatagrams,
        acts[3] is Close,
        final(cs[3]).phase() is Over,
{
    assert(call_ensures(SocksClient::step, (cs[0], rs[0], es[0]), acts[0]));
    assert(*final(cs[0]) == *cs[1]);
    assert(call_ensures(SocksClient::step, (cs[1], rs[1], es[1]), acts[1]));
    assert(*final(cs[1]) == *cs[2]);
    assert(reply_bytes(0, Some(relay@)) =~= seq![5u8, 0u8, 0u8] + wire_address(
        relay.ip@,
        relay.port as nat,
    ));
    assert(call_ensures(SocksClient::step, (cs[2], rs[2], es[2]), acts[2]));
    assert(*final(cs[2]) == *cs[3]);
    assert(call_ensures(SocksClient::step, (cs[3], rs[3], es[3]), acts[3]));
}

/// The command of a request is the one that is carried out, whatever its address.
pub proof fn law_requests_keep_their_command(
    cs: Seq<&mut SocksClient>,
    rs: Seq<&mut ListenerStatsRegistry>,
    es: Seq<SocksEvent>,
    acts: Seq<SocksAction>,
    cmd: u8,
    reserved: u8,
    ip: Ip,
)
    requires
        cs.len() == 2 && rs.len() == 2 && es.len() == 2 && acts.len() == 2,
        forall|i: int|
            0 <= i < 2 ==> #[trigger] call_ensures(
                SocksClient::step,
                (cs[i], rs[i], es[i]),
                acts[i],
            ),
        *final(cs[0]) == *cs[1],
        cs[0].phase() is Request,
        is_address(ip),
        match ip {
            Ip::V4(o) => reads(es[0], seq![cmd, reserved, 1u8]) && reads(es[1], o),
            Ip::V6(o) => reads(es[0], seq![cmd, reserved, 4u8]) && reads(es[1], o),
        },
    ensures
        final(cs[1]).phase() matches SocksPhase::Port { cmd: c, dest: Destination::Ip(a) } && c
            == cmd && a@ == ip,
{
    assert(call_ensures(SocksClient::step, (cs[0], rs[0], es[0]), acts[0]));
    assert(call_ensures(SocksClient::step, (cs[1], rs[1], es[1]), acts[1]));
}

/// A command that is not known is answered with a general failure, an address type
/// that is not known and a name that is no text with a refusal of the address.
pub proof fn law_what_is_not_known_is_refused(
    c: &mut SocksClient,
    r: &mut ListenerStatsRegistry,
    e: SocksEvent,
    a: SocksAction,
    b: Seq<u8>,
)
    requires
        call_ensures(SocksClient::step, (c, r, e), a),
        reads(e, b),
    ensures
        old(c).phase() matches SocksPhase::Port { cmd, .. } && cmd != 1 && cmd != 3 ==> {
            &&& final(c).phase() is Over
            &&& a matches SocksAction::Refuse(s, f) && s@ == seq![5u8, 1u8, 0u8] + wire_nowhere()
                && f.kind == ErrorKind::Unsupported
        },
        old(c).phase() is Request && b.len() == 3 && b[2] != 1 && b[2] != 3 && b[2] != 4 ==> {
            &&& final(c).phase() is Over
            &&& a matches SocksAction::Refuse(s, f) && s@ == seq![5u8, 8u8, 0u8] + wire_nowhere()
                && f.kind == ErrorKind::InvalidData
        },
        old(c).phase() is Name && !valid_utf8(b) ==> {
            &&& final(c).phase() is Over
            &&& a matches SocksAction::Refuse(s, f) && s@ == seq![5u8, 8u8, 0u8] + wire_nowhere()
                && f.kind == ErrorKind::InvalidData
        },
{
    assert(reply_bytes(1, None) =~= seq![5u8, 1u8, 0u8] + wire_nowhere());
    assert(reply_bytes(8, None) =~= seq![5u8, 8u8, 0u8] + wire_nowhere());
}

/// A client whose destination is not reached is told why, and let go: a refused
/// connection is told apart from every other failure.
pub proof fn law_failures_are_told(
    c: &mut SocksClient,
    r: &mut ListenerStatsRegistry,
    e: SocksEvent,
    a: SocksAction,
)
    requires
        call_ensures(SocksClient::step, (c, r, e), a),
    ensures
        old(c).phase() is Dialing && e == SocksEvent::DialFailed(ErrorKind::ConnectionRefused) ==> {
            &&& final(c).phase() is Over
            &&& a matches SocksAction::RefuseAsMet(b) && b@ == seq![5u8, 5u8, 0u8] + wire_nowhere()
        },
        old(c).phase() is Dialing && (e matches SocksEvent::DialFailed(k) && !(
        k is ConnectionRefused)) ==> {
            &&& final(c).phase() is Over
            &&& a matches SocksAction::RefuseAsMet(b) && b@ == seq![5u8, 1u8, 0u8] + wire_nowhere()
        },
        old(c).phase() is Resolving ==> (e matches SocksEvent::ResolveFailed(m) ==> {
            &&& final(c).phase() is Over
            &&& a matches SocksAction::Refuse(b, f) && b@ == seq![5u8, 1u8, 0u8] + wire_nowhere()
                && f.message@ == m@
        }),
        e is ReadFailed && !(old(c).phase() is Over) ==> {
            &&& final(c).phase() is Over
            &&& if old(c).phase() is Address || old(c).phase() is Name {
                a matches SocksAction::RefuseAsMet(b) && b@ == seq![5u8, 8u8, 0u8] + wire_nowhere()
            } else {
                a is FailAsMet
            }
        },
{
    assert(reply_bytes(1, None) =~= seq![5u8, 1u8, 0u8] + wire_nowhere());
    assert(reply_bytes(5, None) =~= seq![5u8, 5u8, 0u8] + wire_nowhere());
    assert(reply_bytes(8, None) =~= seq![5u8, 8u8, 0u8] + wire_nowhere());
}

/// What is over stays over.
pub proof fn law_socks_clients_end_once(
    c: &mut SocksClient,
    r: &mut ListenerStatsRegistry,
    e: SocksEvent,
    a: SocksAction,
)
    requires
        call_ensures(SocksClient::step, (c, r, e), a),
        old(c).phase() is Over,
    ensures
        a is Ignore,
        final(c).phase() is Over,
        final(r)@ == old(r)@,
{
}

/// Nothing is dialled and no name is resolved but on a request of the client, and
/// nothing is relayed before it was told that it is connected.
pub proof fn law_nothing_happens_unasked(
    c: &mut SocksClient,
    r: &mut ListenerStatsRegistry,
    e: SocksEvent,
    a: SocksAction,
)
    requires
        call_ensures(SocksClient::step, (c, r, e), a),
    ensures
        a is Resolve ==> (old(c).phase() matches SocksPhase::Port { cmd, dest } && cmd == 1
            && dest is Domain && e is Bytes),
        a is Dial ==> old(c).phase() is Port && e is Bytes || old(c).phase() is Resolving
            && e is Resolved,
        a is Relay ==> old(c).phase() is Connected && e is Sent,
        a is RelayDatagrams ==> old(c).phase() is Bound && e is Sent,
        a is BindRelay ==> (old(c).phase() matches SocksPhase::Port { cmd, .. } && cmd == 3),
        a is Close ==> e is Ended,
{
}

// ── Datagrams ─────────────────────────────────────────────────────────────────

/// A datagram that a client sends for an address goes to that address without its
/// header, and its payload is what is counted as sent.
pub proof fn law_datagrams_go_where_they_say(
    d: &mut DatagramRelay,
    r: &mut ListenerStatsRegistry,
    e: DatagramEvent,
    a: DatagramAction,
    x: u8,
    y: u8,
    ip: Ip,
    hi: u8,
    lo: u8,
    payload: Seq<u8>,
)
    requires
        call_ensures(DatagramRelay::step, (d, r, e), a),
        is_address(ip),
        e matches DatagramEvent::Received(b) && b@ == seq![x, y, 0u8] + wire_address(
            ip,
            (hi * 256 + lo) as nat,
        ) + payload,
    ensures
        a matches DatagramAction::Send { to, payload: p } && to.ip@ == ip && to.port == hi * 256 + lo
            && to.flowinfo == 0 && to.scope_id == 0 && p@ == payload,
        final(d).sending == payload.len(),
{
    let b = e->Received_0@;
    match ip {
        Ip::V4(o) => {
            assert(b.subrange(4, 8) =~= o);
            assert(b[8] == hi && b[9] == lo);
            assert(b.skip(10) =~= payload);
        },
        Ip::V6(o) => {
            assert(b.subrange(4, 20) =~= o);
            assert(b[20] == hi && b[21] == lo);
            assert(b.skip(22) =~= payload);
        },
    }
}

/// Fragments, datagrams for names and those that are too short for a header go
/// nowhere.
pub proof fn law_other_datagrams_go_nowhere(
    d: &mut DatagramRelay,
    r: &mut ListenerStatsRegistry,
    e: DatagramEvent,
    a: DatagramAction,
    b: Seq<u8>,
)
    requires
        call_ensures(DatagramRelay::step, (d, r, e), a),
        e matches DatagramEvent::Received(v) && v@ == b,
        b.len() < 10 || b[2] != 0 || b[3] != 1 && b[3] != 4 || b[3] == 4 && b.len() < 22,
    ensures
        a is Receive,
        final(r)@ == old(r)@,
{
}

/// A reply goes back to the client behind a header that says where it comes from.
pub proof fn law_replies_say_where_they_come_from(
    d: &mut DatagramRelay,
    r: &mut ListenerStatsRegistry,
    from: SocketAddr,
    payload: Vec<u8>,
    a: DatagramAction,
)
    requires
        call_ensures(DatagramRelay::step, (d, r, DatagramEvent::Reply { from, payload }), a),
    ensures
        a matches DatagramAction::Return(b) && b@ == seq![0u8, 0u8, 0u8] + wire_address(
            from.ip@,
            from.port as nat,
        ) + payload@,
{
    assert(udp_packet(from@, payload@) =~= seq![0u8, 0u8, 0u8] + wire_address(
        from.ip@,
        from.port as nat,
    ) + payload@);
}

/// A relay answers one datagram at a time: it waits for a reply once the datagram was
/// sent, and for the next datagram once that failed or no reply came.
pub proof fn law_relays_take_turns(
    d: &mut DatagramRelay,
    r: &mut ListenerStatsRegistry,
    e: DatagramEvent,
    a: DatagramAction,
)
    requires
        call_ensures(DatagramRelay::step, (d, r, e), a),
    ensures
        e is Sent <==> a is AwaitReply,
        e is SendFailed || e is NoReply ==> a is Receive && final(r)@ == old(r)@,
        e is Reply <==> a is Return,
{
}

/// The relay for a client is bound to the address that its connection came in on.
pub proof fn law_relays_are_bound_beside_the_connection(control: SocketAddr, r: SocketAddr)
    requires
        call_ensures(relay_bind_address, (control,), r),
    ensures
        r.ip@ == control.ip@,
        r.port == 0,
{
}

/// What a client is refused for is told, and of what kind it is.
pub proof fn law_refusals_say_why(
    c: &mut SocksClient,
    r: &mut ListenerStatsRegistry,
    e: SocksEvent,
    a: SocksAction,
    b: Seq<u8>,
)
    requires
        call_ensures(SocksClient::step, (c, r, e), a),
    ensures
        reads(e, b) && old(c).phase() is Version && b[0] != 5 ==> (a matches SocksAction::Fail(f)
            && f.kind == ErrorKind::InvalidData && f.message@ == "not SOCKS5"@),
        reads(e, b) && old(c).phase() is RequestVersion && b[0] != 5 ==> (
        a matches SocksAction::Fail(f) && f.kind == ErrorKind::InvalidData && f.message@
            == "bad version"@),
        reads(e, b) && old(c).phase() is Methods && !b.contains(0) ==> (
        a matches SocksAction::Refuse(s, f) && s@ == seq![5u8, 255u8] && f.kind
            == ErrorKind::PermissionDenied && f.message@ == "no acceptable auth"@),
        reads(e, b) && old(c).phase() is Request && b[2] != 1 && b[2] != 3 && b[2] != 4 ==> (
        a matches SocksAction::Refuse(s, f) && f.message@ == "unknown ATYP "@ + dec_text(
            b[2] as nat,
        )),
        reads(e, b) && old(c).phase() is Name && !valid_utf8(b) ==> (a matches SocksAction::Refuse(
            s,
            f,
        ) && f.message@ == "invalid domain"@),
        reads(e, b) ==> (old(c).phase() matches SocksPhase::Port { cmd, .. } ==> cmd != 1 && cmd
            != 3 ==> (a matches SocksAction::Refuse(s, f) && f.message@ == "unsupported CMD "@
            + dec_text(cmd as nat))),
        old(c).phase() is Resolving && e is ResolveFailed ==> (a matches SocksAction::Refuse(s, f)
            && f.kind == ErrorKind::Other),
        a is Fail ==> reads(e, e->Bytes_0@) && (old(c).phase() is Version
            || old(c).phase() is RequestVersion),
        a is Refuse ==> e is Bytes || e is ResolveFailed,
{
}

/// An event that does not belong where the client is changes nothing.
pub proof fn law_stray_events_are_ignored(
    c: &mut SocksClient,
    r: &mut ListenerStatsRegistry,
    e: SocksEvent,
    a: SocksAction,
)
    requires
        call_ensures(SocksClient::step, (c, r, e), a),
    ensures
        a is Ignore ==> final(c).phase() == old(c).phase() && final(r)@ == old(r)@,
        ({
            let p = old(c).phase();
            let due = match e {
                SocksEvent::Start => p is Version,
                SocksEvent::Bytes(_) => p is Version || p is MethodCount || p is Methods
                    || p is RequestVersion || p is Request || p is Address || p is Name || p is Port,
                SocksEvent::ReadFailed => !(p is Over),
                SocksEvent::Sent => p is Choosing || p is Connected || p is Bound,
                SocksEvent::Resolved(_) => p is Resolving,
                SocksEvent::ResolveFailed(_) => p is Resolving,
                SocksEvent::Dialed => p is Dialing,
                SocksEvent::DialFailed(_) => p is Dialing,
                SocksEvent::RelayBound(_) => p is Binding,
                SocksEvent::Ended => p is Relaying || p is Associated,
            };
            a is Ignore <==> !due
        }),
{
}

} // verus!
