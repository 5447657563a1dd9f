//! Measuring the round trip time to a QUIC peer by the time of its handshake.
//!
//! The peer's name is resolved, and its addresses are tried one after the other,
//! IPv6 first, until a handshake completes.
use vstd::prelude::*;
use vstd::slice::slice_subrange;
use crate::addr::{Endpoint, Ip, IpAddr, Ipv4Addr, Ipv6Addr, SocketAddr, endpoint, same_socket};
use crate::text::{
    all_digits, chars_of, find, find_char, has_prefix, is_digit, owned, push_chars, push_text,
    rfind, rfind_char, starts_with, string_of, trim, trim_end, trimmed, trimmed_end,
};

verus! {

/// Seconds that resolving and the handshake may take together.
pub const CHECK_TIMEOUT_SECS: u64 = 5;

// ── Targets ───────────────────────────────────────────────────────────────────

/// What follows the scheme of a URI, where it has one, without its query.
pub open spec fn location(uri: Seq<char>) -> Seq<char> {
    let rest = if starts_with(uri, "quic://"@) {
        uri.skip(7)
    } else {
        uri
    };
    trim(
        match find(rest, '?') {
            Some(i) => rest.take(i),
            None => rest,
        },
    )
}

/// The host in brackets and the port of a location like `[host]:port`.
pub open spec fn bracketed(rest: Seq<char>) -> Option<(Seq<char>, Option<Seq<char>>)> {
    if rest.len() > 0 && rest[0] == '[' {
        let inner = rest.skip(1);
        match find(inner, ']') {
            Some(i) => {
                let after = inner.skip(i + 1);
                Some(
                    (
                        inner.take(i),
                        if after.len() > 1 && after[0] == ':' {
                            Some(after.skip(1))
                        } else {
                            None
                        },
                    ),
                )
            },
            None => None,
        }
    } else {
        None
    }
}

/// Whether a location ends with a port.
pub open spec fn has_port(rest: Seq<char>) -> bool {
    match rfind(rest, ':') {
        Some(i) => i + 1 < rest.len() && all_digits(rest.skip(i + 1)),
        None => false,
    }
}

/// The host and port of a URI, with a default port; none where it has no host.
pub open spec fn target_of_uri(uri: Seq<char>) -> Option<Seq<char>> {
    let rest = location(uri);
    if rest.len() == 0 {
        None
    } else {
        match bracketed(rest) {
            Some((host, Some(port))) => Some("["@ + host + "]:"@ + port),
            Some((host, None)) => Some("["@ + host + "]:443"@),
            None => if has_port(rest) {
                Some(rest)
            } else {
                Some(rest + ":443"@)
            },
        }
    }
}

/// Extract `host:port` from a `quic://` URI (query string ignored, default port
/// 443).
pub fn parse_target(uri: &str) -> (r: Option<String>)
    ensures
        match r {
            Some(t) => target_of_uri(uri@) == Some(t@),
            None => target_of_uri(uri@) is None,
        },
{
    proof {
        reveal_strlit("quic://");
    }
    let chars = chars_of(uri);
    let all = chars.as_slice();
    let scheme = chars_of("quic://");
    let rest = if has_prefix(all, scheme.as_slice()) {
        let r = slice_subrange(all, 7, all.len());
        assert(r@ =~= all@.skip(7));
        r
    } else {
        all
    };
    let rest = match find_char(rest, '?') {
        Some(i) => {
            let r = slice_subrange(rest, 0, i);
            assert(r@ =~= rest@.take(i as int));
            r
        },
        None => rest,
    };
    let rest = trimmed(rest);
    assert(rest@ == location(uri@));
    if rest.len() == 0 {
        return None;
    }
    if rest[0] == '[' {
        let inner = slice_subrange(rest, 1, rest.len());
        assert(inner@ =~= rest@.skip(1));
        match find_char(inner, ']') {
            Some(i) => {
                let host = slice_subrange(inner, 0, i);
                assert(host@ =~= inner@.take(i as int));
                let after = slice_subrange(inner, i + 1, inner.len());
                assert(after@ =~= inner@.skip(i + 1));
                let mut t = owned("[");
                push_chars(&mut t, host);
                if after.len() > 1 && after[0] == ':' {
                    push_text(&mut t, "]:");
                    let port = slice_subrange(after, 1, after.len());
                    assert(port@ =~= after@.skip(1));
                    push_chars(&mut t, port);
                } else {
                    push_text(&mut t, "]:443");
                }
                return Some(t);
            },
            None => {},
        }
    }
    if ends_with_port(rest) {
        Some(string_of(rest))
    } else {
        let mut t = string_of(rest);
        push_text(&mut t, ":443");
        Some(t)
    }
}

/// Whether a location ends with a port.
fn ends_with_port(rest: &[char]) -> (r: bool)
    ensures
        r == has_port(rest@),
{
    match rfind_char(rest, ':') {
        Some(i) => {
            let port = slice_subrange(rest, i + 1, rest.len());
            assert(port@ =~= rest@.skip(i + 1));
            if port.len() == 0 {
                return false;
            }
            let mut k: usize = 0;
            while k < port.len()
                invariant
                    k <= port@.len(),
                    rfind(rest@, ':') == Some(i as int),
                    port@ == rest@.skip(i + 1),
                    port@.len() > 0,
                    i < rest@.len(),
                    forall|j: int| 0 <= j < k ==> is_digit(#[trigger] port@[j]),
                decreases port.len() - k,
            {
                let c = port[k];
                if !('0' <= c && c <= '9') {
                    assert(!is_digit(port@[k as int]));
                    return false;
                }
                k += 1;
            }
            true
        },
        None => false,
    }
}

/// The text without opening brackets at its start.
pub open spec fn trim_open(s: Seq<char>) -> Seq<char>
    decreases s.len(),
{
    if s.len() > 0 && s[0] == '[' {
        trim_open(s.skip(1))
    } else {
        s
    }
}

/// The name that a peer is expected to go by: the host of a target, without
/// brackets.
pub open spec fn name_of_target(target: Seq<char>) -> Seq<char> {
    let host = match rfind(target, ':') {
        Some(i) => target.take(i),
        None => target,
    };
    trim_end(trim_open(host), ']')
}

/// The name that a peer is expected to go by.
pub fn server_name(target: &str) -> (r: String)
    ensures
        r@ == name_of_target(target@),
{
    let chars = chars_of(target);
    let all = chars.as_slice();
    let host = match rfind_char(all, ':') {
        Some(i) => {
            let h = slice_subrange(all, 0, i);
            assert(h@ =~= all@.take(i as int));
            h
        },
        None => all,
    };
    let mut a: usize = 0;
    assert(host@.skip(0) =~= host@);
    while a < host.len() && host[a] == '['
        invariant
            a <= host@.len(),
            trim_open(host@) == trim_open(host@.skip(a as int)),
        decreases host.len() - a,
    {
        assert(host@.skip(a as int).skip(1) =~= host@.skip(a + 1));
        a += 1;
    }
    let opened = slice_subrange(host, a, host.len());
    assert(opened@ =~= host@.skip(a as int));
    string_of(trimmed_end(opened, ']'))
}

// ── Addresses ─────────────────────────────────────────────────────────────────

/// Whether bytes come before others, compared from the first on.
pub open spec fn bytes_before(a: Seq<u8>, b: Seq<u8>) -> bool
    decreases a.len(),
{
    if b.len() == 0 {
        false
    } else if a.len() == 0 {
        true
    } else if a[0] != b[0] {
        a[0] < b[0]
    } else {
        bytes_before(a.skip(1), b.skip(1))
    }
}

/// Whether an address is tried before another: IPv6 before IPv4, then by octets,
/// then by port.
pub open spec fn tried_before(a: Endpoint, b: Endpoint) -> bool {
    match (a.ip, b.ip) {
        (Ip::V6(_), Ip::V4(_)) => true,
        (Ip::V4(_), Ip::V6(_)) => false,
        (Ip::V6(x), Ip::V6(y)) => bytes_before(x, y) || (x == y && numbers_before(a, b)),
        (Ip::V4(x), Ip::V4(y)) => bytes_before(x, y) || (x == y && numbers_before(a, b)),
    }
}

/// Whether one endpoint's port comes before another's, or where they are the same,
/// its flow information does, or where that is the same too, its scope.
pub open spec fn numbers_before(a: Endpoint, b: Endpoint) -> bool {
    a.port < b.port || (a.port == b.port && (a.flowinfo < b.flowinfo || (a.flowinfo == b.flowinfo
        && a.scope_id < b.scope_id)))
}

/// Addresses as endpoints.
pub open spec fn endpoints(v: Seq<SocketAddr>) -> Seq<Endpoint> {
    Seq::new(v.len(), |i: int| v[i]@)
}

/// Whether addresses are in the order in which they are tried, each once.
pub open spec fn in_order(v: Seq<Endpoint>) -> bool {
    forall|i: int, j: int| 0 <= i < j < v.len() ==> tried_before(#[trigger] v[i], #[trigger] v[j])
}

/// No bytes come before themselves.
pub proof fn lemma_bytes_irreflexive(a: Seq<u8>)
    ensures
        !bytes_before(a, a),
    decreases a.len(),
{
    if a.len() > 0 {
        lemma_bytes_irreflexive(a.skip(1));
    }
}

/// The order of bytes is transitive.
pub proof fn lemma_bytes_transitive(a: Seq<u8>, b: Seq<u8>, c: Seq<u8>)
    requires
        bytes_before(a, b),
        bytes_before(b, c),
    ensures
        bytes_before(a, c),
    decreases a.len(),
{
    if a.len() > 0 && b.len() > 0 && c.len() > 0 && a[0] == b[0] && b[0] == c[0] {
        lemma_bytes_transitive(a.skip(1), b.skip(1), c.skip(1));
    }
}

/// Any two different byte sequences are ordered one way or the other.
pub proof fn lemma_bytes_total(a: Seq<u8>, b: Seq<u8>)
    ensures
        a == b || bytes_before(a, b) || bytes_before(b, a),
    decreases a.len(),
{
    if a.len() == 0 || b.len() == 0 {
        if a.len() == b.len() {
            assert(a =~= b);
        }
    } else if a[0] == b[0] {
        lemma_bytes_total(a.skip(1), b.skip(1));
        if a.skip(1) == b.skip(1) {
            assert(a =~= seq![a[0]] + a.skip(1));
            assert(b =~= seq![b[0]] + b.skip(1));
        }
    }
}

/// The order in which addresses are tried is transitive.
pub proof fn lemma_tried_transitive(a: Endpoint, b: Endpoint, c: Endpoint)
    requires
        tried_before(a, b),
        tried_before(b, c),
    ensures
        tried_before(a, c),
{
    match (a.ip, b.ip, c.ip) {
        (Ip::V6(x), Ip::V6(y), Ip::V6(z)) => {
            if bytes_before(x, y) && bytes_before(y, z) {
                lemma_bytes_transitive(x, y, z);
            }
        },
        (Ip::V4(x), Ip::V4(y), Ip::V4(z)) => {
            if bytes_before(x, y) && bytes_before(y, z) {
                lemma_bytes_transitive(x, y, z);
            }
        },
        _ => {},
    }
}

/// No address is tried before itself.
pub proof fn lemma_tried_irreflexive(a: Endpoint)
    ensures
        !tried_before(a, a),
{
    match a.ip {
        Ip::V6(x) => {
            lemma_bytes_irreflexive(x);
        },
        Ip::V4(x) => {
            lemma_bytes_irreflexive(x);
        },
    }
}

/// Of two different addresses one is tried before the other.
pub proof fn lemma_tried_total(a: Endpoint, b: Endpoint)
    ensures
        a == b || tried_before(a, b) || tried_before(b, a),
{
    match (a.ip, b.ip) {
        (Ip::V6(x), Ip::V6(y)) => {
            lemma_bytes_total(x, y);
        },
        (Ip::V4(x), Ip::V4(y)) => {
            lemma_bytes_total(x, y);
        },
        _ => {},
    }
}

/// Whether bytes come before others.
fn octets_before(a: &[u8], b: &[u8]) -> (r: bool)
    ensures
        r == bytes_before(a@, b@),
{
    let mut i: usize = 0;
    assert(a@.skip(0) =~= a@);
    assert(b@.skip(0) =~= b@);
    while i < a.len() && i < b.len()
        invariant
            i <= a.len(),
            i <= b.len(),
            bytes_before(a@, b@) == bytes_before(a@.skip(i as int), b@.skip(i as int)),
        decreases a.len() - i,
    {
        if a[i] != b[i] {
            return a[i] < b[i];
        }
        assert(a@.skip(i as int).skip(1) =~= a@.skip(i + 1));
        assert(b@.skip(i as int).skip(1) =~= b@.skip(i + 1));
        i += 1;
    }
    i < b.len()
}

/// Whether an address's port, flow information and scope come before another's.
fn lower_numbers(a: &SocketAddr, b: &SocketAddr) -> (r: bool)
    ensures
        r == numbers_before(a@, b@),
{
    a.port < b.port || (a.port == b.port && (a.flowinfo < b.flowinfo || (a.flowinfo == b.flowinfo
        && a.scope_id < b.scope_id)))
}

/// Whether an address is tried before another.
fn goes_before(a: &SocketAddr, b: &SocketAddr) -> (r: bool)
    ensures
        r == tried_before(a@, b@),
{
    match (&a.ip, &b.ip) {
        (IpAddr::V6(_), IpAddr::V4(_)) => true,
        (IpAddr::V4(_), IpAddr::V6(_)) => false,
        (IpAddr::V6(x), IpAddr::V6(y)) => {
            let (x, y) = (x.octets.as_slice(), y.octets.as_slice());
            octets_before(x, y) || (crate::bytes::same_bytes(x, y) && lower_numbers(a, b))
        },
        (IpAddr::V4(x), IpAddr::V4(y)) => {
            let (x, y) = (x.octets.as_slice(), y.octets.as_slice());
            octets_before(x, y) || (crate::bytes::same_bytes(x, y) && lower_numbers(a, b))
        },
    }
}

/// Put addresses in the order in which they are tried, each once.
pub fn order_addresses(addrs: &Vec<SocketAddr>) -> (r: Vec<SocketAddr>)
    ensures
        in_order(endpoints(r@)),
        forall|e: Endpoint| #[trigger]
            endpoints(r@).contains(e) <==> endpoints(addrs@).contains(e),
{
    let ghost all = endpoints(addrs@);
    let mut r: Vec<SocketAddr> = Vec::new();
    let mut n: usize = 0;
    while n < addrs.len()
        invariant
            n <= addrs@.len(),
            all == endpoints(addrs@),
            in_order(endpoints(r@)),
            forall|e: Endpoint| #[trigger]
                endpoints(r@).contains(e) ==> all.contains(e),
            forall|k: int| 0 <= k < n ==> endpoints(r@).contains(#[trigger] all[k]),
        decreases addrs.len() - n,
    {
        let a = addrs[n];
        let ghost prev = endpoints(r@);
        let mut p: usize = r.len();
        while p > 0 && goes_before(&a, &r[p - 1])
            invariant
                p <= r@.len(),
                prev == endpoints(r@),
                forall|i: int| p <= i < prev.len() ==> tried_before(a@, #[trigger] prev[i]),
            decreases p,
        {
            p -= 1;
        }
        let known = p > 0 && same_socket(&a, &r[p - 1]);
        if known {
            assert(prev[p - 1] == a@);
            assert(prev.contains(a@));
        } else {
            r.insert(p, a);
            proof {
                let next = endpoints(r@);
                assert(next =~= prev.insert(p as int, a@));
                if p > 0 {
                    lemma_tried_total(a@, prev[p - 1]);
                }
                assert forall|i: int, j: int| 0 <= i < j < next.len() implies tried_before(
                    #[trigger] next[i],
                    #[trigger] next[j],
                ) by {
                    let pi = if i < p { i } else { i - 1 };
                    let pj = if j < p { j } else { j - 1 };
                    if i == p {
                        assert(next[j] == prev[pj]);
                    } else if j == p {
                        assert(next[i] == prev[pi]);
                        if pi < p - 1 {
                            assert(tried_before(prev[pi], prev[p - 1]));
                            lemma_tried_transitive(prev[pi], prev[p - 1], a@);
                        }
                    } else {
                        assert(next[i] == prev[pi] && next[j] == prev[pj]);
                    }
                }
                assert forall|e: Endpoint| #[trigger] next.contains(e) implies all.contains(e) by {
                    let i = choose|i: int| 0 <= i < next.len() && next[i] == e;
                    if i == p {
                        assert(all[n as int] == e);
                    } else {
                        let pi = if i < p { i } else { i - 1 };
                        assert(prev[pi] == e);
                        assert(prev.contains(e));
                    }
                }
                assert forall|k: int| 0 <= k < n + 1 implies next.contains(#[trigger] all[k]) by {
                    if k == n {
                        assert(next[p as int] == a@);
                    } else {
                        assert(prev.contains(all[k]));
                        let i = choose|i: int| 0 <= i < prev.len() && prev[i] == all[k];
                        let ii = if i < p { i } else { i + 1 };
                        assert(next[ii] == all[k]);
                    }
                }
            }
        }
        assert(all[n as int] == a@);
        n += 1;
    }
    proof {
        assert forall|e: Endpoint| #[trigger] all.contains(e) implies endpoints(r@).contains(e) by {
            let k = choose|k: int| 0 <= k < all.len() && all[k] == e;
            assert(endpoints(r@).contains(all[k]));
        }
    }
    r
}

/// The local address that an attempt is made from: any, of the same family.
pub open spec fn bind_for(remote: Ip) -> Endpoint {
    endpoint(
        match remote {
            Ip::V6(_) => Ip::V6(Seq::new(16, |i: int| 0u8)),
            Ip::V4(_) => Ip::V4(seq![0u8, 0u8, 0u8, 0u8]),
        },
        0,
    )
}

/// The local address that an attempt is made from.
pub fn bind_address(remote: &SocketAddr) -> (r: SocketAddr)
    ensures
        r@ == bind_for(remote@.ip),
{
    match remote.ip {
        IpAddr::V6(_) => {
            let a = Ipv6Addr { octets: [0u8;16] };
            assert(a.octets@ =~= Seq::new(16, |i: int| 0u8));
            SocketAddr::new(IpAddr::V6(a), 0)
        },
        IpAddr::V4(_) => SocketAddr::new(IpAddr::V4(Ipv4Addr::unspecified()), 0),
    }
}

// ── The attempts ──────────────────────────────────────────────────────────────

/// What happened to a check.
pub enum QuicEvent {
    /// The target was resolved to these addresses.
    Resolved(Vec<SocketAddr>),
    /// The target was not resolved, for this reason.
    ResolveFailed(String),
    /// The handshake completed.
    Connected,
    /// No local socket could be had, for this reason.
    BindFailed(String),
    /// The connection could not be begun, for this reason.
    ConnectFailed(String),
    /// The handshake failed, for this reason.
    HandshakeFailed(String),
}

/// What a check does next.
pub enum QuicAction {
    /// Try this address, from this local one.
    Try { from: SocketAddr, to: SocketAddr },
    /// The peer was reached.
    Done,
    /// The check is over, for this reason.
    Fail(String),
}

/// A check of a peer: the addresses that are left, in the order in which they are
/// tried.
pub struct QuicCheck {
    target: String,
    left: Vec<SocketAddr>,
}

/// Whether an action tries an address.
pub open spec fn tries(a: QuicAction, to: Endpoint) -> bool {
    a matches QuicAction::Try { from, to: t } && t@ == to && from@ == bind_for(to.ip)
}

/// Whether an action ends the check, for this reason.
pub open spec fn check_fails(a: QuicAction, reason: Seq<char>) -> bool {
    a matches QuicAction::Fail(e) && e@ == reason
}

impl QuicCheck {
    /// What is checked.
    pub closed spec fn target_text(&self) -> Seq<char> {
        self.target@
    }

    /// The addresses that are left.
    pub closed spec fn remaining(&self) -> Seq<Endpoint> {
        endpoints(self.left@)
    }

    /// A check of a target.
    pub fn new(target: &str) -> (r: Self)
        ensures
            r.target_text() == target@,
            r.remaining().len() == 0,
    {
        QuicCheck { target: owned(target), left: Vec::new() }
    }

    /// Try the next address; where none is left, the check is over.
    fn try_next(&mut self, reason: String) -> (r: QuicAction)
        ensures
            final(self).target_text() == old(self).target_text(),
            if old(self).remaining().len() > 0 {
                &&& tries(r, old(self).remaining()[0])
                &&& final(self).remaining() == old(self).remaining().skip(1)
            } else {
                check_fails(r, reason@) && final(self).remaining() == old(self).remaining()
            },
    {
        if self.left.len() == 0 {
            return QuicAction::Fail(reason);
        }
        let to = self.left.remove(0);
        assert(endpoints(self.left@) =~= old(self).remaining().skip(1));
        QuicAction::Try { from: bind_address(&to), to }
    }

    /// What to do after an event. Addresses are tried one after the other; the last
    /// failure is reported where none is left.
    pub fn connect(&mut self, event: QuicEvent) -> (r: QuicAction)
        ensures
            final(self).target_text() == old(self).target_text(),
            match event {
                QuicEvent::Resolved(addrs) => if addrs@.len() == 0 {
                    check_fails(r, "no address resolved"@) && final(self).remaining().len() == 0
                } else {
                    exists|all: Seq<Endpoint>| #[trigger]
                        in_order(all) && (forall|e: Endpoint| #[trigger]
                            all.contains(e) <==> endpoints(addrs@).contains(e)) && all.len() > 0
                            && tries(r, all[0]) && final(self).remaining() == all.skip(1)
                },
                QuicEvent::ResolveFailed(e) => {
                    &&& check_fails(r, "resolve "@ + old(self).target_text() + ": "@ + e@)
                    &&& final(self).remaining() == old(self).remaining()
                },
                QuicEvent::Connected => r is Done && final(self).remaining() == old(
                    self,
                ).remaining(),
                QuicEvent::BindFailed(e) => {
                    check_fails(r, "bind: "@ + e@) && final(self).remaining() == old(
                        self,
                    ).remaining()
                },
                QuicEvent::ConnectFailed(e) => if old(self).remaining().len() > 0 {
                    &&& tries(r, old(self).remaining()[0])
                    &&& final(self).remaining() == old(self).remaining().skip(1)
                } else {
                    check_fails(r, "connect: "@ + e@) && final(self).remaining().len() == 0
                },
                QuicEvent::HandshakeFailed(e) => if old(self).remaining().len() > 0 {
                    &&& tries(r, old(self).remaining()[0])
                    &&& final(self).remaining() == old(self).remaining().skip(1)
                } else {
                    check_fails(r, "handshake: "@ + e@) && final(self).remaining().len() == 0
                },
            },
    {
        match event {
            QuicEvent::Resolved(addrs) => {
                self.left = order_addresses(&addrs);
                let ghost all = endpoints(self.left@);
                proof {
                    if addrs@.len() == 0 {
                        if all.len() > 0 {
                            assert(all.contains(all[0]));
                        }
                    } else {
                        assert(endpoints(addrs@)[0] == addrs@[0]@);
                        assert(endpoints(addrs@).contains(addrs@[0]@));
                        assert(all.contains(addrs@[0]@));
                    }
                }
                self.try_next(owned("no address resolved"))
            },
            QuicEvent::ResolveFailed(e) => {
                let mut m = owned("resolve ");
                push_text(&mut m, self.target.as_str());
                push_text(&mut m, ": ");
                push_text(&mut m, e.as_str());
                QuicAction::Fail(m)
            },
            QuicEvent::Connected => QuicAction::Done,
            QuicEvent::BindFailed(e) => {
                let mut m = owned("bind: ");
                push_text(&mut m, e.as_str());
                QuicAction::Fail(m)
            },
            QuicEvent::ConnectFailed(e) => {
                let mut m = owned("connect: ");
                push_text(&mut m, e.as_str());
                self.try_next(m)
            },
            QuicEvent::HandshakeFailed(e) => {
                let mut m = owned("handshake: ");
                push_text(&mut m, e.as_str());
                self.try_next(m)
            },
        }
    }
}

/// The round trip time to a peer: the milliseconds that the handshake with it
/// took, or -1 where the URI names no peer, or the peer was not reached in time.
pub fn check_quic_rtt(uri: &str, reached_after_ms: Option<u64>) -> (r: i64)
    ensures
        match (target_of_uri(uri@), reached_after_ms) {
            (Some(_), Some(ms)) => r == ms as i64,
            _ => r == -1,
        },
{
    match (parse_target(uri), reached_after_ms) {
        (Some(_), Some(ms)) => ms as i64,
        _ => -1,
    }
}

} // verus!
