//! How the parts of a forwarding specification are told apart, and what each means.
use vstd::prelude::*;
use crate::addr::{Ip, IpAddr, Ipv6Addr, SocketAddr, ip_text, read_ip, read_socket, read_v6};
use crate::mapping::{
    LocalSpec, RemoteSpec, TcpMapping, is_bracket, parse_host_port, parse_mapping,
    parse_remote_mapping, remote_part, trim_brackets_end, trim_brackets_start,
};
use crate::text::{
    find_from, lemma_find_from, lemma_find_from_is, lemma_find_none, lemma_rfind_at, lemma_rfind_to,
    parse_u16, rfind, trim_end,
};
use crate::text_laws::lemma_trim_end_char;

verus! {

/// Whether a text is made of square brackets only.
pub open spec fn all_brackets(s: Seq<char>) -> bool {
    forall|i: int| 0 <= i < s.len() ==> (#[trigger] s[i] == '[' || s[i] == ']')
}

proof fn lemma_brackets_start(s: Seq<char>) -> (n: int)
    ensures
        0 <= n <= s.len(),
        all_brackets(s.take(n)),
        trim_brackets_start(s) == s.skip(n),
        n < s.len() ==> s[n] != '[' && s[n] != ']',
    decreases s.len(),
{
    if s.len() > 0 && is_bracket(s[0]) {
        let m = lemma_brackets_start(s.skip(1));
        assert(s.skip(1).skip(m) =~= s.skip(m + 1));
        assert forall|i: int| 0 <= i < m + 1 implies (#[trigger] s.take(m + 1)[i] == '['
            || s.take(m + 1)[i] == ']') by {
            if i > 0 {
                assert(s.skip(1).take(m)[i - 1] == s[i]);
            }
        }
        if m + 1 < s.len() {
            assert(s.skip(1)[m] == s[m + 1]);
        }
        m + 1
    } else {
        assert(s.skip(0) =~= s);
        0
    }
}

proof fn lemma_brackets_end(s: Seq<char>) -> (n: int)
    ensures
        0 <= n <= s.len(),
        all_brackets(s.skip(n)),
        trim_brackets_end(s) == s.take(n),
        n > 0 ==> s[n - 1] != '[' && s[n - 1] != ']',
    decreases s.len(),
{
    if s.len() > 0 && is_bracket(s.last()) {
        let m = lemma_brackets_end(s.drop_last());
        assert(s.drop_last().take(m) =~= s.take(m));
        assert forall|i: int| 0 <= i < s.len() - m implies (#[trigger] s.skip(m)[i] == '['
            || s.skip(m)[i] == ']') by {
            if i < s.len() - 1 - m {
                assert(s.drop_last().skip(m)[i] == s[m + i]);
            }
        }
        if m > 0 {
            assert(s.drop_last()[m - 1] == s[m - 1]);
        }
        m
    } else {
        assert(s.take(s.len() as int) =~= s);
        s.len() as int
    }
}

/// An address with a port is taken apart as such. Of any other text, what is behind the
/// last colon is the port, and what is before it the host, without the square brackets
/// around it; where there is no colon, or no port behind it, there is neither.
pub proof fn law_hosts_stand_before_the_last_colon(
    s: &[char],
    before: Seq<char>,
    host: Seq<char>,
    behind: Seq<char>,
    port: &[char],
    socket: Option<SocketAddr>,
    n: Option<u16>,
    r: Option<(Vec<char>, u16)>,
)
    requires
        call_ensures(parse_host_port, (s,), r),
        call_ensures(read_socket, (s,), socket),
        call_ensures(parse_u16, (port,), n),
        s@ == before + host + behind + seq![':'] + port@ || s@ == port@,
        !port@.contains(':'),
        all_brackets(before) && all_brackets(behind),
        host.len() > 0 ==> host[0] != '[' && host[0] != ']' && host.last() != '[' && host.last()
            != ']',
    ensures
        socket matches Some(a) ==> (r matches Some(v) && v.0@ == ip_text(a.ip@) && v.1 == a.port),
        socket is None && s@ == port@ ==> r is None,
        socket is None && s@ != port@ ==> (r is Some <==> n is Some),
        socket is None && s@ != port@ && n is Some ==> (r matches Some(v) && v.0@ == host && v.1
            == n->0),
{
    if socket is None {
        lemma_rfind_to(s@, ':', s@.len() as int);
        if s@ == port@ {
            if rfind(s@, ':') is Some {
                assert(port@.contains(port@[rfind(s@, ':')->0]));
            }
        } else {
            let whole = before + host + behind;
            let k = whole.len() as int;
            assert(s@[k] == ':');
            assert forall|j: int| k < j < s@.len() implies s@[j] != ':' by {
                assert(s@[j] == port@[j - k - 1]);
                assert(port@.contains(port@[j - k - 1]));
            }
            lemma_rfind_at(s@, ':', k);
            assert(s@.take(k) =~= whole);
            assert(s@.skip(k + 1) =~= port@);
            let a = lemma_brackets_start(whole);
            let t = trim_brackets_start(whole);
            let b = lemma_brackets_end(t);
            if host.len() == 0 {
                assert(all_brackets(whole)) by {
                    assert forall|i: int| 0 <= i < whole.len() implies (#[trigger] whole[i] == '['
                        || whole[i] == ']') by {
                        if i < before.len() {
                            assert(whole[i] == before[i]);
                        } else {
                            assert(whole[i] == behind[i - before.len()]);
                        }
                    }
                }
                assert(t.len() == 0);
                assert(t.take(b) =~= host);
            } else {
                assert(whole[before.len() as int] == host[0]);
                if a < before.len() {
                    assert(whole[a] == before[a]);
                } else if a > before.len() {
                    assert(whole.take(a)[before.len() as int] == host[0]);
                }
                assert(t =~= host + behind);
                let l = host.len() as int;
                if b > l {
                    assert(t[b - 1] == behind[b - 1 - l]);
                } else if b < l {
                    assert(t.skip(b)[l - 1 - b] == host.last());
                }
                assert(t.take(l) =~= host);
            }
        }
    }
}

/// Colons, so many.
pub open spec fn colons(n: nat) -> Seq<char> {
    Seq::new(n, |i: int| ':')
}

proof fn lemma_trim_colons(left: Seq<char>, n: nat)
    requires
        left.len() > 0 ==> left.last() != ':',
    ensures
        trim_end(left + colons(n), ':') == left,
{
    let s = left + colons(n);
    let m = lemma_trim_end_char(s, ':');
    let l = left.len() as int;
    if m > l {
        assert(s[m - 1] == ':');
    } else if m < l {
        assert(s[l - 1] == left.last());
    }
    assert(s.take(l) =~= left);
}

proof fn lemma_last_colon(s: Seq<char>, r: Seq<char>, port: Seq<char>)
    requires
        s == r + seq![':'] + port,
        !port.contains(':'),
    ensures
        rfind(s, ':') == Some(r.len() as int),
        s.take(r.len() as int) == r,
        s.skip(r.len() as int + 1) == port,
{
    let k = r.len() as int;
    assert(s[k] == ':');
    assert forall|j: int| k < j < s.len() implies s[j] != ':' by {
        assert(s[j] == port[j - k - 1]);
        assert(port.contains(port[j - k - 1]));
    }
    lemma_rfind_at(s, ':', k);
    assert(s.take(k) =~= r);
    assert(s.skip(k + 1) =~= port);
}

/// Behind the last colon of a local specification stands the remote port, and before
/// that, in brackets, the remote address, which holds a colon. What is left is the local
/// side: a host with a port, or a port alone; and the remote port, on any address, where
/// nothing is left.
pub proof fn law_local_sides(
    s: &[char],
    left: &[char],
    n: nat,
    remote: Seq<char>,
    port: &[char],
    p: Option<u16>,
    host: Option<(Vec<char>, u16)>,
    alone: Option<u16>,
    r: Result<LocalSpec, String>,
)
    requires
        call_ensures(parse_mapping, (s,), r),
        call_ensures(parse_u16, (port,), p),
        call_ensures(parse_host_port, (left,), host),
        call_ensures(parse_u16, (left,), alone),
        s@ == left@ + colons(n) + seq!['['] + remote + seq![']'] + seq![':'] + port@,
        !port@.contains(':'),
        !remote.contains('['),
        left@.len() > 0 ==> left@.last() != ':',
    ensures
        r is Ok <==> p is Some && remote.contains(':') && (left@.len() == 0 || host is Some || alone
            is Some),
        r matches Ok(m) ==> {
            &&& m.remote@ == remote && m.remote_port == p->0
            &&& left@.len() == 0 ==> m.addr is None && m.port == p->0
            &&& left@.len() > 0 ==> (host matches Some(h) ==> m.port == h.1 && (h.0@.len() == 0
                ==> m.addr is None) && (h.0@.len() > 0 ==> m.addr is Some && m.addr->0@ == h.0@))
            &&& left@.len() > 0 && host is None ==> m.addr is None && m.port == alone->0
        },
        p is None ==> (r matches Err(e) && e@ == "invalid port in "@ + "'"@ + s@ + "'"@),
        p is Some && remote.len() == 0 ==> (r matches Err(e) && e@ == "missing remote address in "@
            + "'"@ + s@ + "'"@),
        p is Some && remote.len() > 0 && !remote.contains(':') ==> (r matches Err(e) && e@
            == "remote address "@ + "'"@ + remote + "'"@ + " must be an IPv6 address (Yggdrasil)"@),
        p is Some && remote.contains(':') && left@.len() > 0 && host is None && alone is None ==> (
        r matches Err(e) && e@ == "invalid local spec "@ + "'"@ + left@ + "'"@ + " in "@ + "'"@ + s@
            + "'"@),
{
    let q = left@ + colons(n) + seq!['['] + remote + seq![']'];
    lemma_last_colon(s@, q, port@);
    let front = left@ + colons(n);
    let b = front.len() as int;
    assert(q[b] == '[');
    assert forall|j: int| b < j < q.len() implies q[j] != '[' by {
        if j < b + 1 + remote.len() {
            assert(q[j] == remote[j - b - 1]);
            assert(remote.contains(remote[j - b - 1]));
        }
    }
    lemma_rfind_at(q, '[', b);
    assert(q.last() == ']');
    assert(q.subrange(b + 1, q.len() - 1) =~= remote);
    assert(q.take(b) =~= front);
    lemma_trim_colons(left@, n);
    assert(remote_part(q) == Some((remote, left@)));
    if remote.contains(':') {
        assert(remote.len() > 0);
    }
}

/// A local specification without a colon is malformed; one whose remote address has a
/// closing bracket without an opening one is refused; and so is one with nothing, or
/// with no IPv6 address, before the remote port.
pub proof fn law_other_local_specifications(
    s: &[char],
    q: Seq<char>,
    port: &[char],
    p: Option<u16>,
    r: Result<LocalSpec, String>,
)
    requires
        call_ensures(parse_mapping, (s,), r),
        call_ensures(parse_u16, (port,), p),
        s@ == q + seq![':'] + port@ || s@ == port@,
        !port@.contains(':'),
    ensures
        s@ == port@ ==> (r matches Err(e) && e@ == "malformed mapping "@ + "'"@ + s@ + "'"@),
        s@ != port@ && p is Some && q.len() > 0 && q.last() == ']' && !q.contains('[') ==> (
        r matches Err(e) && e@ == "unmatched '[' in "@ + "'"@ + s@ + "'"@),
        s@ != port@ && p is Some && (q.len() == 0 || q.last() == ':') ==> (r matches Err(e) && e@
            == "missing remote address in "@ + "'"@ + s@ + "'"@),
        s@ != port@ && p is Some && q.len() > 0 && q.last() != ']' && q.last() != ':' ==> r is Err,
{
    lemma_rfind_to(s@, ':', s@.len() as int);
    if s@ == port@ {
        if rfind(s@, ':') is Some {
            assert(port@.contains(port@[rfind(s@, ':')->0]));
        }
    } else {
        lemma_last_colon(s@, q, port@);
        lemma_rfind_to(q, '[', q.len() as int);
        lemma_rfind_to(q, ':', q.len() as int);
        if rfind(q, '[') is Some {
            assert(q.contains(q[rfind(q, '[')->0]));
        }
        if q.len() > 0 && q.last() == ':' {
            lemma_rfind_at(q, ':', q.len() - 1);
            assert(q.skip(q.len() as int) =~= Seq::<char>::empty());
        }
        if q.len() > 0 && q.last() != ']' && q.last() != ':' {
            match rfind(q, ':') {
                Some(i) => {
                    let a = q.skip(i + 1);
                    if a.contains(':') {
                        let j = choose|j: int| 0 <= j < a.len() && a[j] == ':';
                        assert(q[i + 1 + j] == ':');
                    }
                },
                None => {
                    if q.contains(':') {
                        let j = choose|j: int| 0 <= j < q.len() && q[j] == ':';
                        assert(q[j] == ':');
                    }
                },
            }
        }
    }
}

/// A local forwarding listens on the local address, or on any IPv4 address where none is
/// given, and leads to the remote address; either is refused where it is none.
pub proof fn law_local_forwards_from_their_sides(
    value: &str,
    s: &[char],
    m: LocalSpec,
    given: &[char],
    ip: Option<IpAddr>,
    remote: &[char],
    v6: Option<Ipv6Addr>,
    t: Result<TcpMapping, String>,
)
    requires
        call_ensures(TcpMapping::parse_local, (value,), t),
        s@ == value@,
        call_ensures(parse_mapping, (s,), Ok::<LocalSpec, String>(m)),
        m.addr is Some ==> given@ == m.addr->0@,
        call_ensures(read_ip, (given,), ip),
        remote@ == m.remote@,
        call_ensures(read_v6, (remote,), v6),
    ensures
        t is Ok <==> (m.addr is None || ip is Some) && v6 is Some,
        t matches Ok(f) ==> {
            &&& f.listen.port == m.port && f.target.port == m.remote_port
            &&& f.target.ip@ == Ip::V6(v6->0.octets@)
            &&& m.addr is Some ==> f.listen.ip@ == ip->0@
            &&& m.addr is None ==> f.listen.ip@ == Ip::V4(seq![0u8, 0u8, 0u8, 0u8])
        },
        m.addr is Some && ip is None ==> (t matches Err(e) && e@ == "invalid address "@ + "'"@
            + given@ + "'"@),
        (m.addr is None || ip is Some) && v6 is None ==> (t matches Err(e) && e@ == "invalid IPv6 "@
            + "'"@ + remote@ + "'"@),
{
    if let Ok(f) = t {
        assert(f.listen@.port == f.listen.port && f.target@.port == f.target.port);
    }
}

/// What is wrong with the sides of a specification is wrong with the forwarding.
pub proof fn law_refused_sides_are_refused(
    value: &str,
    s: &[char],
    a: Result<LocalSpec, String>,
    b: Result<RemoteSpec, String>,
    t: Result<TcpMapping, String>,
    u: Result<TcpMapping, String>,
)
    requires
        s@ == value@,
        call_ensures(parse_mapping, (s,), a),
        call_ensures(parse_remote_mapping, (s,), b),
        call_ensures(TcpMapping::parse_local, (value,), t),
        call_ensures(TcpMapping::parse_remote, (value,), u),
    ensures
        a matches Err(e) ==> (t matches Err(f) && f@ == e@),
        b matches Err(e) ==> (u matches Err(f) && f@ == e@),
{
}

/// Before the first colon of a remote specification stands the remote port. Where
/// nothing is behind it, the local port is the same; where no further colon is, it is
/// the local port; else it is a local host with its port.
pub proof fn law_remote_sides(
    s: &[char],
    first: &[char],
    rest: &[char],
    p: Option<u16>,
    l: Option<u16>,
    host: Option<(Vec<char>, u16)>,
    r: Result<RemoteSpec, String>,
)
    requires
        call_ensures(parse_remote_mapping, (s,), r),
        call_ensures(parse_u16, (first,), p),
        call_ensures(parse_u16, (rest,), l),
        call_ensures(parse_host_port, (rest,), host),
        s@ == first@ + seq![':'] + rest@ || s@ == first@,
        !first@.contains(':'),
    ensures
        p is None ==> (r matches Err(e) && e@ == "invalid port "@ + "'"@ + first@ + "'"@),
        p is Some && s@ == first@ ==> (r matches Ok(m) && m.remote_port == p->0 && m.addr is None
            && m.port == p->0),
        p is Some && s@ != first@ && !rest@.contains(':') ==> {
            &&& l matches Some(q) ==> (r matches Ok(m) && m.remote_port == p->0 && m.addr is None
                && m.port == q)
            &&& l is None ==> (r matches Err(e) && e@ == "invalid port "@ + "'"@ + rest@ + "'"@)
        },
        p is Some && s@ != first@ && rest@.contains(':') ==> {
            &&& host matches Some(h) ==> (r matches Ok(m) && m.remote_port == p->0 && m.addr is Some
                && m.addr->0@ == h.0@ && m.port == h.1)
            &&& host is None ==> (r matches Err(e) && e@ == "invalid local spec "@ + "'"@ + rest@
                + "'"@ + " in "@ + "'"@ + s@ + "'"@)
        },
{
    if s@ == first@ {
        lemma_find_none(s@, ':');
    } else {
        let i = first@.len() as int;
        assert(s@[i] == ':');
        assert forall|j: int| 0 <= j < i implies s@[j] != ':' by {
            assert(s@[j] == first@[j]);
            assert(first@.contains(first@[j]));
        }
        lemma_find_from_is(s@, ':', 0, i);
        assert(s@.take(i) =~= first@);
        assert(s@.skip(i + 1) =~= rest@);
        lemma_find_from(s@, ':', i + 1);
        match find_from(s@, ':', i + 1) {
            Some(j) => {
                assert(rest@[j - i - 1] == ':');
                assert(rest@.contains(':'));
            },
            None => {
                if rest@.contains(':') {
                    let j = choose|j: int| 0 <= j < rest@.len() && rest@[j] == ':';
                    assert(s@[i + 1 + j] == ':');
                }
            },
        }
    }
}

/// A remote forwarding listens on the remote port of a placeholder address, and leads to
/// the local address, or to `127.0.0.1` where none is given, and the local port.
pub proof fn law_remote_forwards_from_their_sides(
    value: &str,
    s: &[char],
    m: RemoteSpec,
    given: &[char],
    ip: Option<IpAddr>,
    t: Result<TcpMapping, String>,
)
    requires
        call_ensures(TcpMapping::parse_remote, (value,), t),
        s@ == value@,
        call_ensures(parse_remote_mapping, (s,), Ok::<RemoteSpec, String>(m)),
        m.addr is Some ==> given@ == m.addr->0@,
        call_ensures(read_ip, (given,), ip),
    ensures
        t is Ok <==> m.addr is None || ip is Some,
        t matches Ok(f) ==> {
            &&& f.listen.port == m.remote_port && f.target.port == m.port
            &&& f.listen.ip@ == Ip::V4(seq![0u8, 0u8, 0u8, 0u8])
            &&& m.addr is Some ==> f.target.ip@ == ip->0@
            &&& m.addr is None ==> f.target.ip@ == Ip::V4(seq![127u8, 0u8, 0u8, 1u8])
        },
        m.addr is Some && ip is None ==> (t matches Err(e) && e@ == "invalid address "@ + "'"@
            + given@ + "'"@),
{
    if let Ok(f) = t {
        assert(f.listen@.port == f.listen.port && f.target@.port == f.target.port);
    }
}

} // verus!
