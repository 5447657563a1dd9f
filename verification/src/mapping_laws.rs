//! The documented forms of a forwarding specification mean what they say.
use vstd::prelude::*;
use crate::addr::{
    Endpoint, Ip, endpoint, ip_text, parse_ip, parse_socket, parse_v6, scoped_text, socket_text,
    v6_text,
};
use crate::addr_laws::{
    is_address, is_endpoint, law_ip_round_trip, law_socket_round_trip, law_v6_round_trip,
    lemma_v6_text_plain,
};
use crate::mapping::{
    TcpMapping, UdpMapping, any_v4, host_port, local_mapping, local_spec, loopback_v4,
    parse_host_port, remote_mapping, remote_part, remote_spec,
};
use crate::text::{
    dec_text, find, find_from, is_digit, lemma_dec_round_trip, lemma_dec_text, lemma_find_from,
    lemma_find_from_is, lemma_find_none, lemma_rfind_at, lemma_rfind_to, rfind, split, trim_end,
};

verus! {

/// `<local>:[<remote address>]:<remote port>`.
pub open spec fn local_form(local: Seq<char>, remote: Seq<u8>, remote_port: nat) -> Seq<char> {
    local + ":["@ + v6_text(remote) + "]:"@ + dec_text(remote_port)
}

proof fn lemma_digits_hold_no(n: nat, c: char)
    requires
        !is_digit(c),
    ensures
        !dec_text(n).contains(c),
{
    lemma_dec_text(n);
    if dec_text(n).contains(c) {
        let k = choose|k: int| 0 <= k < dec_text(n).len() && dec_text(n)[k] == c;
        assert(is_digit(dec_text(n)[k]));
    }
}

proof fn lemma_rfind_none(s: Seq<char>, c: char)
    requires
        !s.contains(c),
    ensures
        rfind(s, c) is None,
{
    lemma_rfind_to(s, c, s.len() as int);
}

/// A text of digits is no address with a port.
proof fn lemma_port_is_no_socket(n: nat)
    ensures
        parse_socket(dec_text(n)) is None,
        host_port(dec_text(n)) is None,
{
    lemma_digits_hold_no(n, ':');
    lemma_digits_hold_no(n, ']');
    lemma_rfind_none(dec_text(n), ':');
    lemma_rfind_none(dec_text(n), ']');
}

/// The text of an address is not empty.
proof fn lemma_ip_text_not_empty(ip: Ip)
    requires
        is_address(ip),
    ensures
        ip_text(ip).len() > 0,
{
    law_ip_round_trip(ip);
    let s = ip_text(ip);
    if s.len() == 0 {
        assert(find(s, '.') is None);
        assert(split(s, '.') == seq![s]);
    }
}

/// How the remote side of a local specification is taken off.
proof fn lemma_remote_side(local: Seq<char>, remote: Seq<u8>, remote_port: nat)
    requires
        remote.len() == 16,
        remote_port <= 65535,
        local.len() > 0,
        local.last() != ':',
    ensures
        ({
            let s = local_form(local, remote, remote_port);
            let i = local.len() as int + v6_text(remote).len() + 3;
            &&& rfind(s, ':') == Some(i)
            &&& s.skip(i + 1) == dec_text(remote_port)
            &&& remote_part(s.take(i)) == Some((v6_text(remote), local))
        }),
{
    reveal_strlit(":[");
    reveal_strlit("]:");
    let t = v6_text(remote);
    let d = dec_text(remote_port);
    let s = local_form(local, remote, remote_port);
    let n = local.len() as int;
    let i = n + t.len() + 3;
    lemma_v6_text_plain(remote);
    lemma_digits_hold_no(remote_port, ':');
    assert(s[i] == ':');
    assert forall|j: int| i < j < s.len() implies s[j] != ':' by {
        assert(d.contains(s[j])) by {
            assert(s[j] == d[j - i - 1]);
        }
    }
    lemma_rfind_at(s, ':', i);
    assert(s.skip(i + 1) == d);
    let r = s.take(i);
    assert(r == local + ":["@ + t + "]"@) by {
        reveal_strlit("]");
    }
    reveal_strlit("]");
    assert(r.last() == ']');
    assert(r[n + 1] == '[');
    assert forall|j: int| n + 1 < j < r.len() implies r[j] != '[' by {
        if j < r.len() - 1 {
            assert(t.contains(r[j])) by {
                assert(r[j] == t[j - n - 2]);
            }
        }
    }
    lemma_rfind_at(r, '[', n + 1);
    assert(r.subrange(n + 2, r.len() - 1) == t);
    let before = r.take(n + 1);
    assert(before == local.push(':'));
    assert(before.drop_last() == local);
    assert(trim_end(before, ':') == local) by {
        reveal_with_fuel(trim_end, 2);
    }
}

/// `<local-port>:[<remote-addr>]:<remote-port>` listens on every local address
/// at the local port, and goes to the remote address and port.
pub proof fn law_local_port_form(local_port: nat, remote: Seq<u8>, remote_port: nat)
    requires
        remote.len() == 16,
        local_port <= 65535,
        remote_port <= 65535,
    ensures
        local_mapping(local_form(dec_text(local_port), remote, remote_port)) == Ok::<_, Seq<char>>(
            (
                endpoint(any_v4(), local_port),
                endpoint(Ip::V6(remote), remote_port),
            ),
        ),
{
    let local = dec_text(local_port);
    lemma_dec_text(local_port);
    assert(is_digit(local.last()));
    lemma_remote_side(local, remote, remote_port);
    lemma_dec_round_trip(local_port, 65535);
    lemma_dec_round_trip(remote_port, 65535);
    lemma_port_is_no_socket(local_port);
    lemma_v6_text_plain(remote);
    law_v6_round_trip(remote);
}

/// `<local-addr>:<local-port>:[<remote-addr>]:<remote-port>` listens on the local
/// address, and goes to the remote address and port. A scope of the local address
/// is left out.
pub proof fn law_local_addr_form(local: Endpoint, remote: Seq<u8>, remote_port: nat)
    requires
        remote.len() == 16,
        is_endpoint(local),
        remote_port <= 65535,
    ensures
        local_mapping(local_form(socket_text(local), remote, remote_port)) == Ok::<_, Seq<char>>(
            (endpoint(local.ip, local.port), endpoint(Ip::V6(remote), remote_port)),
        ),
{
    let text = socket_text(local);
    lemma_dec_text(local.port);
    let d = dec_text(local.port);
    assert(text.last() == d.last());
    assert(is_digit(d.last()));
    lemma_remote_side(text, remote, remote_port);
    lemma_dec_round_trip(remote_port, 65535);
    law_socket_round_trip(local);
    law_ip_round_trip(local.ip);
    lemma_ip_text_not_empty(local.ip);
    lemma_v6_text_plain(remote);
    law_v6_round_trip(remote);
}

/// A local forwarding always goes to an IPv6 address.
pub proof fn law_local_target_is_v6(s: Seq<char>)
    requires
        local_mapping(s) is Ok,
    ensures
        local_mapping(s)->Ok_0.1.ip is V6,
{
}

proof fn lemma_parsed_ip(s: Seq<char>)
    ensures
        parse_v6(s) matches Some(o) ==> o.len() == 16,
        parse_ip(s) matches Some(ip) ==> is_address(ip),
{
}

proof fn lemma_host_port_bound(s: Seq<char>)
    ensures
        host_port(s) matches Some(v) ==> v.1 <= 65535,
{
    if let Some(a) = parse_socket(s) {
        assert(a.port <= 65535);
    }
}

proof fn lemma_local_ports(s: Seq<char>)
    ensures
        local_spec(s) matches Ok(v) ==> v.1 <= 65535 && v.3 <= 65535,
{
    if let Some(i) = rfind(s, ':') {
        if let Some((_, left)) = remote_part(s.take(i)) {
            lemma_host_port_bound(left);
        }
    }
}

proof fn lemma_remote_ports(s: Seq<char>)
    ensures
        remote_spec(s) matches Ok(v) ==> v.0 <= 65535 && v.2 <= 65535,
{
    if let Some(i) = find(s, ':') {
        lemma_host_port_bound(s.skip(i + 1));
    }
}

/// Where a forwarding listens and where it leads are addresses with ports; a remote
/// one listens on the placeholder.
pub proof fn law_mappings_are_addresses(s: Seq<char>)
    ensures
        local_mapping(s) matches Ok(ends) ==> is_endpoint(ends.0) && is_endpoint(ends.1),
        remote_mapping(s) matches Ok(ends) ==> is_endpoint(ends.0) && is_endpoint(ends.1)
            && ends.0.ip == any_v4(),
{
    lemma_local_ports(s);
    lemma_remote_ports(s);
    if let Ok((addr, _, remote, _)) = local_spec(s) {
        lemma_parsed_ip(remote);
        if let Some(a) = addr {
            lemma_parsed_ip(a);
        }
    }
    if let Ok((_, addr, _)) = remote_spec(s) {
        if let Some(a) = addr {
            lemma_parsed_ip(a);
        }
    }
}

/// `<port>` stands for the same port on both sides, on the local host.
pub proof fn law_remote_port_form(port: nat)
    requires
        port <= 65535,
    ensures
        remote_mapping(dec_text(port)) == Ok::<_, Seq<char>>(
            (endpoint(any_v4(), port), endpoint(loopback_v4(), port)),
        ),
{
    lemma_digits_hold_no(port, ':');
    lemma_find_none(dec_text(port), ':');
    lemma_dec_round_trip(port, 65535);
}

proof fn lemma_first_colon(remote_port: nat, rest: Seq<char>)
    ensures
        ({
            let s = dec_text(remote_port) + ":"@ + rest;
            let i = dec_text(remote_port).len() as int;
            &&& find(s, ':') == Some(i)
            &&& s.take(i) == dec_text(remote_port)
            &&& s.skip(i + 1) == rest
            &&& find_from(s, ':', i + 1) is Some <==> rest.contains(':')
        }),
{
    reveal_strlit(":");
    let d = dec_text(remote_port);
    let s = d + ":"@ + rest;
    let i = d.len() as int;
    lemma_digits_hold_no(remote_port, ':');
    assert forall|j: int| 0 <= j < i implies s[j] != ':' by {
        assert(d.contains(s[j])) by {
            assert(d[j] == s[j]);
        }
    }
    lemma_find_from_is(s, ':', 0, i);
    assert(s.take(i) == d);
    assert(s.skip(i + 1) == rest);
    lemma_find_from(s, ':', i + 1);
    match find_from(s, ':', i + 1) {
        Some(j) => {
            assert(rest[j - i - 1] == ':');
        },
        None => {
            if rest.contains(':') {
                let k = choose|k: int| 0 <= k < rest.len() && rest[k] == ':';
                assert(s[i + 1 + k] == ':');
            }
        },
    }
}

/// `<remote-port>:<local-port>` goes to the local port on the local host.
pub proof fn law_remote_two_ports_form(remote_port: nat, local_port: nat)
    requires
        remote_port <= 65535,
        local_port <= 65535,
    ensures
        remote_mapping(dec_text(remote_port) + ":"@ + dec_text(local_port)) == Ok::<_, Seq<char>>(
            (
                endpoint(any_v4(), remote_port),
                endpoint(loopback_v4(), local_port),
            ),
        ),
{
    lemma_first_colon(remote_port, dec_text(local_port));
    lemma_digits_hold_no(local_port, ':');
    lemma_dec_round_trip(remote_port, 65535);
    lemma_dec_round_trip(local_port, 65535);
}

/// `<remote-port>:<local-addr>:<local-port>` goes to the local address. A scope of
/// it is left out.
pub proof fn law_remote_addr_form(remote_port: nat, local: Endpoint)
    requires
        is_endpoint(local),
        remote_port <= 65535,
    ensures
        remote_mapping(dec_text(remote_port) + ":"@ + socket_text(local)) == Ok::<_, Seq<char>>(
            (endpoint(any_v4(), remote_port), endpoint(local.ip, local.port)),
        ),
{
    let rest = socket_text(local);
    lemma_first_colon(remote_port, rest);
    lemma_dec_round_trip(remote_port, 65535);
    law_socket_round_trip(local);
    law_ip_round_trip(local.ip);
    assert(rest.contains(':')) by {
        lemma_rfind_to(rest, ':', rest.len() as int);
        match local.ip {
            Ip::V4(o) => {
                assert(rfind(rest, ':') is Some);
            },
            Ip::V6(o) => {
                reveal_strlit("]:");
                reveal_strlit("[");
                assert(rest[scoped_text(o, local.scope_id).len() as int + 2] == ':');
            },
        }
    }
}

// ── What the options read ─────────────────────────────────────────────────────

/// `<local-port>:[<remote-addr>]:<remote-port>` listens at the local port of
/// `0.0.0.0`, and leads to the remote address and port, for TCP and for UDP.
pub proof fn law_local_forwards_by_port(
    value: &str,
    local_port: nat,
    remote: Seq<u8>,
    remote_port: nat,
    t: Result<TcpMapping, String>,
    u: Result<UdpMapping, String>,
)
    requires
        call_ensures(TcpMapping::parse_local, (value,), t),
        call_ensures(UdpMapping::parse_local, (value,), u),
        remote.len() == 16,
        local_port <= 65535,
        remote_port <= 65535,
        value@ == dec_text(local_port) + ":["@ + v6_text(remote) + "]:"@ + dec_text(remote_port),
    ensures
        t matches Ok(m) && m.listen@ == endpoint(Ip::V4(seq![0u8, 0, 0, 0]), local_port)
            && m.target@ == endpoint(Ip::V6(remote), remote_port),
        u matches Ok(m) && m.listen@ == endpoint(Ip::V4(seq![0u8, 0, 0, 0]), local_port)
            && m.target@ == endpoint(Ip::V6(remote), remote_port),
{
    law_local_port_form(local_port, remote, remote_port);
}

/// `<local-addr>:<local-port>:[<remote-addr>]:<remote-port>` listens at just that local
/// address and port, and leads to the remote address and port.
pub proof fn law_local_forwards_by_address(
    value: &str,
    local: Endpoint,
    remote: Seq<u8>,
    remote_port: nat,
    t: Result<TcpMapping, String>,
    u: Result<UdpMapping, String>,
)
    requires
        call_ensures(TcpMapping::parse_local, (value,), t),
        call_ensures(UdpMapping::parse_local, (value,), u),
        remote.len() == 16,
        is_endpoint(local),
        remote_port <= 65535,
        value@ == socket_text(local) + ":["@ + v6_text(remote) + "]:"@ + dec_text(remote_port),
    ensures
        t matches Ok(m) && m.listen@ == endpoint(local.ip, local.port) && m.target@ == endpoint(
            Ip::V6(remote),
            remote_port,
        ),
        u matches Ok(m) && m.listen@ == endpoint(local.ip, local.port) && m.target@ == endpoint(
            Ip::V6(remote),
            remote_port,
        ),
{
    law_local_addr_form(local, remote, remote_port);
}

/// `<port>` listens at that port and leads to the same port of `127.0.0.1`;
/// `<remote-port>:<local-port>` leads to the local port there; and
/// `<remote-port>:<local-addr>:<local-port>` to the local address and port.
pub proof fn law_remote_forwards(
    value: &str,
    remote_port: nat,
    local_port: nat,
    local: Endpoint,
    t: Result<TcpMapping, String>,
    u: Result<UdpMapping, String>,
)
    requires
        call_ensures(TcpMapping::parse_remote, (value,), t),
        call_ensures(UdpMapping::parse_remote, (value,), u),
        remote_port <= 65535,
        local_port <= 65535,
        is_endpoint(local),
    ensures
        value@ == dec_text(remote_port) ==> {
            &&& t matches Ok(m) && m.listen.port == remote_port && m.target@ == endpoint(
                Ip::V4(seq![127u8, 0, 0, 1]),
                remote_port,
            )
            &&& u matches Ok(m) && m.listen.port == remote_port && m.target@ == endpoint(
                Ip::V4(seq![127u8, 0, 0, 1]),
                remote_port,
            )
        },
        value@ == dec_text(remote_port) + ":"@ + dec_text(local_port) ==> {
            &&& t matches Ok(m) && m.listen.port == remote_port && m.target@ == endpoint(
                Ip::V4(seq![127u8, 0, 0, 1]),
                local_port,
            )
            &&& u matches Ok(m) && m.listen.port == remote_port && m.target@ == endpoint(
                Ip::V4(seq![127u8, 0, 0, 1]),
                local_port,
            )
        },
        value@ == dec_text(remote_port) + ":"@ + socket_text(local) ==> {
            &&& t matches Ok(m) && m.listen.port == remote_port && m.target@ == endpoint(
                local.ip,
                local.port,
            )
            &&& u matches Ok(m) && m.listen.port == remote_port && m.target@ == endpoint(
                local.ip,
                local.port,
            )
        },
{
    law_remote_port_form(remote_port);
    law_remote_two_ports_form(remote_port, local_port);
    law_remote_addr_form(remote_port, local);
    if let Ok(m) = t {
        assert(m.listen@.port == m.listen.port);
    }
    if let Ok(m) = u {
        assert(m.listen@.port == m.listen.port);
    }
}

/// TCP and UDP specifications are read alike.
pub proof fn law_protocols_read_alike(
    value: &str,
    t: Result<TcpMapping, String>,
    u: Result<UdpMapping, String>,
    rt: Result<TcpMapping, String>,
    ru: Result<UdpMapping, String>,
)
    requires
        call_ensures(TcpMapping::parse_local, (value,), t),
        call_ensures(UdpMapping::parse_local, (value,), u),
        call_ensures(TcpMapping::parse_remote, (value,), rt),
        call_ensures(UdpMapping::parse_remote, (value,), ru),
    ensures
        t is Ok <==> u is Ok,
        t is Ok ==> t->Ok_0.listen@ == u->Ok_0.listen@ && t->Ok_0.target@ == u->Ok_0.target@,
        t is Err ==> t->Err_0@ == u->Err_0@,
        rt is Ok <==> ru is Ok,
        rt is Ok ==> rt->Ok_0.listen@ == ru->Ok_0.listen@ && rt->Ok_0.target@ == ru->Ok_0.target@,
        rt is Err ==> rt->Err_0@ == ru->Err_0@,
{
}

/// Whatever a specification reads as, a local forwarding leads to an IPv6 address, and
/// a remote one listens at the placeholder for the node's own address.
pub proof fn law_what_forwards_are(
    value: &str,
    t: Result<TcpMapping, String>,
    rt: Result<TcpMapping, String>,
)
    requires
        call_ensures(TcpMapping::parse_local, (value,), t),
        call_ensures(TcpMapping::parse_remote, (value,), rt),
    ensures
        t matches Ok(m) ==> m.target.ip is V6 && m.target.scope_id == 0 && m.listen.scope_id == 0,
        rt matches Ok(m) ==> m.listen.ip@ == Ip::V4(seq![0u8, 0, 0, 0]),
{
    if let Ok(m) = t {
        assert(m.target@.scope_id == m.target.scope_id && m.listen@.scope_id == m.listen.scope_id);
    }
}

/// A remote specification of one number is a port of sixteen bits.
pub proof fn law_remote_ports_fit(value: &str, n: nat, rt: Result<TcpMapping, String>)
    requires
        call_ensures(TcpMapping::parse_remote, (value,), rt),
        value@ == dec_text(n),
    ensures
        rt is Ok <==> n <= 65535,
{
    lemma_digits_hold_no(n, ':');
    lemma_find_none(value@, ':');
    lemma_dec_text(n);
    assert(is_digit(value@[0]));
    if n <= 65535 {
        law_remote_port_form(n);
    }
}

/// A local specification whose remote address holds no colon, so that it is no IPv6
/// address, is refused.
pub proof fn law_local_forwards_need_ipv6(
    value: &str,
    front: Seq<char>,
    remote: Seq<char>,
    port: nat,
    t: Result<TcpMapping, String>,
)
    requires
        call_ensures(TcpMapping::parse_local, (value,), t),
        !remote.contains(':'),
        remote.len() > 0,
        remote.last() != ']',
        value@ == front + ":"@ + remote + ":"@ + dec_text(port),
    ensures
        t is Err,
{
    reveal_strlit(":");
    let s = value@;
    let d = dec_text(port);
    let n = front.len() as int;
    let i = n + 1 + remote.len();
    lemma_digits_hold_no(port, ':');
    assert(s[i] == ':');
    assert forall|j: int| i < j < s.len() implies s[j] != ':' by {
        assert(s[j] == d[j - i - 1]);
        assert(d.contains(s[j]));
    }
    lemma_rfind_at(s, ':', i);
    let r = s.take(i);
    assert(r.last() == remote.last());
    assert(r[n] == ':');
    assert forall|j: int| n < j < r.len() implies r[j] != ':' by {
        assert(r[j] == remote[j - n - 1]);
        assert(remote.contains(r[j]));
    }
    lemma_rfind_at(r, ':', n);
    assert(r.skip(n + 1) =~= remote);
}

/// A host and a port are told apart at the last colon, and an address is taken out of
/// its brackets.
pub proof fn law_hosts_and_ports(
    s: &[char],
    a: Endpoint,
    r: Option<(Vec<char>, u16)>,
)
    requires
        call_ensures(parse_host_port, (s,), r),
        is_endpoint(a),
        s@ == socket_text(a),
    ensures
        r matches Some(v) && v.0@ == ip_text(a.ip) && v.1 == a.port,
{
    law_socket_round_trip(a);
}

} // verus!
