//! What holds of the targets and addresses of a check.
use vstd::prelude::*;
use crate::addr::{Endpoint, Ip, SocketAddr};
use crate::quic_check::{
    QuicAction, QuicCheck, QuicEvent, bind_address, bytes_before, check_quic_rtt, endpoints,
    in_order, lemma_bytes_irreflexive, lemma_tried_irreflexive, lemma_tried_transitive, location,
    order_addresses, parse_target, server_name, target_of_uri, tried_before, tries, trim_open,
};
use crate::text::{
    all_digits, find, is_white_space, lemma_find_from, lemma_find_from_is, lemma_find_none,
    lemma_rfind_at, lemma_rfind_to, rfind, starts_with, trim, trim_end_ws, trim_start_ws,
};
use crate::text_laws::{all_white, lemma_trim_end, lemma_trim_end_char, lemma_trim_start};

verus! {

/// Whether a text neither starts nor ends with white space.
pub open spec fn is_trimmed(s: Seq<char>) -> bool {
    s.len() > 0 ==> !is_white_space(s[0]) && !is_white_space(s.last())
}

/// Whether a text can stand for a host: it is not empty, has no white space around
/// it, and holds neither a colon nor a question mark nor an opening bracket.
pub open spec fn is_plain_host(host: Seq<char>) -> bool {
    &&& host.len() > 0
    &&& is_trimmed(host)
    &&& !host.contains(':')
    &&& !host.contains('?')
    &&& !host.contains('[')
}

/// The scheme of a peer that speaks QUIC.
pub open spec fn scheme() -> Seq<char> {
    "quic://"@
}

proof fn lemma_location(uri: Seq<char>, rest: Seq<char>)
    requires
        uri == rest && !starts_with(uri, scheme()) || uri == scheme() + rest,
        !rest.contains('?'),
    ensures
        location(uri) == trim(rest),
{
    reveal_strlit("quic://");
    if uri == scheme() + rest {
        assert(uri.take(7) =~= scheme());
        assert(uri.skip(7) =~= rest);
    }
    lemma_find_none(rest, '?');
}

/// What follows the question mark of a URI does not change its target.
pub proof fn law_query_is_ignored(uri: Seq<char>, query: Seq<char>)
    requires
        !uri.contains('?'),
    ensures
        target_of_uri(uri + "?"@ + query) == target_of_uri(uri),
{
    reveal_strlit("quic://");
    reveal_strlit("?");
    let all = uri + "?"@ + query;
    lemma_find_none(uri, '?');
    if starts_with(all, scheme()) {
        if uri.len() < 7 {
            assert(all[uri.len() as int] == '?');
            assert(all.take(7)[uri.len() as int] == scheme()[uri.len() as int]);
        }
        assert(uri.take(7) =~= all.take(7));
        let rest = all.skip(7);
        let kept = uri.skip(7);
        let n = uri.len() - 7;
        assert forall|j: int| 0 <= j < n implies rest[j] != '?' by {
            assert(rest[j] == uri[j + 7]);
            assert(uri.contains(uri[j + 7]));
        }
        assert(rest[n] == '?');
        lemma_find_from_is(rest, '?', 0, n);
        assert(rest.take(n) =~= kept);
        assert(!kept.contains('?')) by {
            if kept.contains('?') {
                let j = choose|j: int| 0 <= j < kept.len() && kept[j] == '?';
                assert(uri.contains(uri[j + 7]));
            }
        }
        lemma_find_none(kept, '?');
    } else {
        if starts_with(uri, scheme()) {
            assert(all.take(7) =~= uri.take(7));
        }
        let n = uri.len() as int;
        assert forall|j: int| 0 <= j < n implies all[j] != '?' by {
            assert(uri.contains(uri[j]));
        }
        assert(all[n] == '?');
        lemma_find_from_is(all, '?', 0, n);
        assert(all.take(n) =~= uri);
    }
}

/// The scheme may be left out.
pub proof fn law_scheme_is_optional(rest: Seq<char>)
    requires
        !starts_with(rest, scheme()),
    ensures
        target_of_uri(scheme() + rest) == target_of_uri(rest),
{
    reveal_strlit("quic://");
    let uri = scheme() + rest;
    assert(uri.take(7) =~= scheme());
    assert(uri.skip(7) =~= rest);
}

/// A host without a port is reached at port 443.
pub proof fn law_default_port(host: Seq<char>)
    requires
        is_plain_host(host),
    ensures
        target_of_uri(scheme() + host) == Some(host + ":443"@),
{
    lemma_location(scheme() + host, host);
    assert(host[0] != '[') by {
        if host[0] == '[' {
            assert(host.contains(host[0]));
        }
    }
    lemma_rfind_to(host, ':', host.len() as int);
    assert(rfind(host, ':') is None) by {
        if rfind(host, ':') is Some {
            assert(host.contains(host[rfind(host, ':').unwrap()]));
        }
    }
}

/// A host with a port is its own target.
pub proof fn law_port_is_kept(host: Seq<char>, port: Seq<char>)
    requires
        is_plain_host(host),
        port.len() > 0,
        all_digits(port),
    ensures
        target_of_uri(scheme() + (host + ":"@ + port)) == Some(host + ":"@ + port),
{
    reveal_strlit(":");
    let rest = host + ":"@ + port;
    let n = host.len() as int;
    assert(!rest.contains('?')) by {
        if rest.contains('?') {
            let j = choose|j: int| 0 <= j < rest.len() && rest[j] == '?';
            if j < n {
                assert(host.contains(host[j]));
            } else if j > n {
                assert(port[j - n - 1] == '?');
            }
        }
    }
    lemma_location(scheme() + rest, rest);
    assert(rest[0] == host[0]);
    assert(host.contains(host[0]));
    assert(rest.last() == port.last());
    assert(!is_white_space(port.last()));
    assert(rest[n] == ':');
    assert forall|j: int| n < j < rest.len() implies rest[j] != ':' by {
        assert(rest[j] == port[j - n - 1]);
    }
    lemma_rfind_at(rest, ':', n);
    assert(rest.skip(n + 1) =~= port);
}

/// A host in brackets keeps them, with its port, or with port 443 where it has none.
pub proof fn law_brackets_are_kept(host: Seq<char>, port: Seq<char>)
    requires
        !host.contains(']'),
        !host.contains('?'),
        port.len() > 0,
        all_digits(port),
    ensures
        target_of_uri(scheme() + ("["@ + host + "]:"@ + port)) == Some("["@ + host + "]:"@ + port),
        target_of_uri(scheme() + ("["@ + host + "]"@)) == Some("["@ + host + "]:443"@),
{
    reveal_strlit("[");
    reveal_strlit("]");
    reveal_strlit("]:");
    let n = host.len() as int;
    let bare = "["@ + host + "]"@;
    let full = "["@ + host + "]:"@ + port;
    assert(!bare.contains('?')) by {
        if bare.contains('?') {
            let j = choose|j: int| 0 <= j < bare.len() && bare[j] == '?';
            assert(host.contains(host[j - 1]));
        }
    }
    assert(!full.contains('?')) by {
        if full.contains('?') {
            let j = choose|j: int| 0 <= j < full.len() && full[j] == '?';
            if j <= n {
                assert(host.contains(host[j - 1]));
            } else {
                assert(port[j - n - 3] == '?');
            }
        }
    }
    lemma_location(scheme() + bare, bare);
    lemma_location(scheme() + full, full);
    assert(full.last() == port.last());
    assert(!is_white_space(port.last()));
    assert(trim(bare) == bare);
    assert(trim(full) == full);
    assert(bare.subrange(1, n + 1) =~= host);
    assert(full.subrange(1, n + 1) =~= host);
    lemma_bracket(bare, host);
    lemma_bracket(full, host);
    assert(bare.skip(1).skip(n + 1).len() == 0);
    let after = full.skip(1).skip(n + 1);
    assert(after[0] == ':');
    assert(after.skip(1) =~= port);
}

proof fn lemma_bracket(s: Seq<char>, host: Seq<char>)
    requires
        s.len() > host.len() + 1,
        s[0] == '[',
        s.subrange(1, host.len() as int + 1) == host,
        s[host.len() as int + 1] == ']',
        !host.contains(']'),
    ensures
        find(s.skip(1), ']') == Some(host.len() as int),
        s.skip(1).take(host.len() as int) == host,
{
    let inner = s.skip(1);
    let n = host.len() as int;
    assert(inner.take(n) =~= s.subrange(1, n + 1));
    assert forall|j: int| 0 <= j < n implies inner[j] != ']' by {
        assert(inner.take(n)[j] == host[j]);
        assert(host.contains(host[j]));
    }
    lemma_find_from_is(inner, ']', 0, n);
}

/// IPv6 addresses are tried before IPv4 addresses.
pub proof fn law_v6_comes_first(addrs: Seq<Endpoint>, i: int, j: int)
    requires
        in_order(addrs),
        0 <= i < addrs.len(),
        0 <= j < addrs.len(),
        addrs[i].ip is V6,
        addrs[j].ip is V4,
    ensures
        i < j,
{
    if j < i {
        assert(tried_before(addrs[j], addrs[i]));
    }
}

/// No address is tried twice.
pub proof fn law_each_address_once(addrs: Seq<Endpoint>, i: int, j: int)
    requires
        in_order(addrs),
        0 <= i < j < addrs.len(),
    ensures
        addrs[i] != addrs[j],
{
    lemma_tried_irreflexive(addrs[i]);
}

/// Which address is tried when depends on nothing but which addresses there are.
pub proof fn law_order_is_determined(a: Seq<Endpoint>, b: Seq<Endpoint>)
    requires
        in_order(a),
        in_order(b),
        forall|e: Endpoint| a.contains(e) <==> b.contains(e),
    ensures
        a == b,
    decreases a.len(),
{
    if a.len() == 0 {
        if b.len() > 0 {
            assert(a.contains(b[0]));
        }
        assert(a =~= b);
    } else {
        assert(b.contains(a[0]));
        assert(a.contains(b[0]));
        let i = choose|i: int| 0 <= i < b.len() && b[i] == a[0];
        let j = choose|j: int| 0 <= j < a.len() && a[j] == b[0];
        if i != 0 && j != 0 {
            assert(tried_before(b[0], b[i]));
            assert(tried_before(a[0], a[j]));
            lemma_tried_transitive(a[0], b[0], a[0]);
            lemma_tried_irreflexive(a[0]);
        }
        assert(a[0] == b[0]);
        let ta = a.skip(1);
        let tb = b.skip(1);
        assert(in_order(ta)) by {
            assert forall|i: int, j: int| 0 <= i < j < ta.len() implies tried_before(
                #[trigger] ta[i],
                #[trigger] ta[j],
            ) by {
                assert(tried_before(a[i + 1], a[j + 1]));
            }
        }
        assert(in_order(tb)) by {
            assert forall|i: int, j: int| 0 <= i < j < tb.len() implies tried_before(
                #[trigger] tb[i],
                #[trigger] tb[j],
            ) by {
                assert(tried_before(b[i + 1], b[j + 1]));
            }
        }
        assert forall|e: Endpoint| ta.contains(e) <==> tb.contains(e) by {
            lemma_tail_contains(a, e);
            lemma_tail_contains(b, e);
        }
        law_order_is_determined(ta, tb);
        assert(a =~= seq![a[0]] + ta);
        assert(b =~= seq![b[0]] + tb);
    }
}

proof fn lemma_tail_contains(a: Seq<Endpoint>, e: Endpoint)
    requires
        a.len() > 0,
        in_order(a),
    ensures
        a.skip(1).contains(e) <==> a.contains(e) && e != a[0],
{
    let t = a.skip(1);
    if t.contains(e) {
        let i = choose|i: int| 0 <= i < t.len() && t[i] == e;
        assert(a[i + 1] == e);
        assert(tried_before(a[0], a[i + 1]));
        lemma_tried_irreflexive(e);
    }
    if a.contains(e) && e != a[0] {
        let i = choose|i: int| 0 <= i < a.len() && a[i] == e;
        assert(t[i - 1] == e);
    }
}

// ── What is checked ───────────────────────────────────────────────────────────

/// Whether a URI locates something: behind the scheme, which may be left out, and before
/// the query, with white space around it or not.
pub open spec fn locates(uri: Seq<char>, rest: Seq<char>) -> bool {
    exists|bare: bool, a: Seq<char>, b: Seq<char>, query: Seq<char>| #[trigger]
        locates_as(uri, rest, bare, a, b, query)
}

/// Whether a URI locates something, with or without a scheme, with this white space
/// around it, and with this query, which is empty or begins with a question mark.
pub open spec fn locates_as(
    uri: Seq<char>,
    rest: Seq<char>,
    bare: bool,
    a: Seq<char>,
    b: Seq<char>,
    query: Seq<char>,
) -> bool {
    &&& uri == if bare {
        a + rest + b + query
    } else {
        "quic://"@ + (a + rest + b + query)
    }
    &&& bare ==> !starts_with(uri, "quic://"@)
    &&& all_white(a) && all_white(b)
    &&& is_trimmed(rest)
    &&& !rest.contains('?')
    &&& query.len() > 0 ==> query[0] == '?'
}

proof fn lemma_trimmed(a: Seq<char>, rest: Seq<char>, b: Seq<char>)
    requires
        all_white(a),
        all_white(b),
        is_trimmed(rest),
    ensures
        trim(a + rest + b) == rest,
{
    let s = a + rest + b;
    let n = lemma_trim_start(s);
    let t = trim_start_ws(s);
    let m = lemma_trim_end(t);
    if rest.len() == 0 {
        assert(all_white(s)) by {
            assert forall|i: int| 0 <= i < s.len() implies is_white_space(#[trigger] s[i]) by {
                if i < a.len() {
                    assert(s[i] == a[i]);
                } else {
                    assert(s[i] == b[i - a.len()]);
                }
            }
        }
        if t.len() > 0 {
            assert(t[0] == s[n]);
        }
        assert(trim(s) =~= rest);
    } else {
        let k = a.len() as int;
        assert(s[k] == rest[0]);
        if n < k {
            assert(t[0] == s[n]);
            assert(s[n] == a[n]);
        } else if n > k {
            assert(s.take(n)[k] == s[k]);
        }
        assert(t =~= rest + b);
        let l = rest.len() as int;
        if m > l {
            assert(trim_end_ws(t).last() == t[m - 1]);
            assert(t[m - 1] == b[m - 1 - l]);
        } else if m < l {
            assert(t.skip(m)[l - 1 - m] == rest.last());
        }
        assert(t.take(l) =~= rest);
    }
}

proof fn lemma_locates(uri: Seq<char>, rest: Seq<char>)
    requires
        locates(uri, rest),
    ensures
        location(uri) == rest,
{
    reveal_strlit("quic://");
    let (bare, a, b, query) = choose|bare: bool, a: Seq<char>, b: Seq<char>, query: Seq<char>|
        #[trigger] locates_as(uri, rest, bare, a, b, query);
    let padded = a + rest + b;
    let all = padded + query;
    if !bare {
        assert(uri.take(7) =~= "quic://"@);
        assert(uri.skip(7) =~= all);
    }
    lemma_trimmed(a, rest, b);
    assert forall|j: int| 0 <= j < padded.len() implies all[j] != '?' by {
        if j < a.len() {
            assert(all[j] == a[j]);
        } else if j < a.len() + rest.len() {
            assert(all[j] == rest[j - a.len()]);
            assert(rest.contains(rest[j - a.len()]));
        } else {
            assert(all[j] == b[j - a.len() - rest.len()]);
        }
    }
    if query.len() > 0 {
        assert(all[padded.len() as int] == '?');
        lemma_find_from_is(all, '?', 0, padded.len() as int);
        assert(all.take(padded.len() as int) =~= padded);
    } else {
        assert(all =~= padded);
        lemma_find_from(all, '?', 0);
    }
}

/// A URI that locates nothing has no target, and any other has one.
pub proof fn law_targets_are_located(uri: &str, rest: Seq<char>, r: Option<String>)
    requires
        call_ensures(parse_target, (uri,), r),
        locates(uri@, rest),
    ensures
        r is None <==> rest.len() == 0,
{
    lemma_locates(uri@, rest);
}

/// A host in brackets is the target, with the port behind it, whatever that holds, and
/// with port 443 where nothing, or anything else, is behind it.
pub proof fn law_bracketed_targets(
    uri: &str,
    host: Seq<char>,
    after: Seq<char>,
    r: Option<String>,
)
    requires
        call_ensures(parse_target, (uri,), r),
        locates(uri@, seq!['['] + host + seq![']'] + after),
        !host.contains(']'),
    ensures
        r is Some,
        after.len() > 1 && after[0] == ':' ==> r->0@ == seq!['['] + host + seq![']'] + after,
        !(after.len() > 1 && after[0] == ':') ==> r->0@ == seq!['['] + host + seq![
            ']',
            ':',
            '4',
            '4',
            '3',
        ],
{
    reveal_strlit("[");
    reveal_strlit("]:");
    reveal_strlit("]:443");
    let rest = seq!['['] + host + seq![']'] + after;
    lemma_locates(uri@, rest);
    assert(rest[0] == '[');
    assert(rest.subrange(1, host.len() as int + 1) =~= host);
    assert(rest[host.len() as int + 1] == ']');
    if after.len() == 0 {
        assert(rest.len() == host.len() + 2);
    }
    lemma_bracket(rest, host);
    assert(rest.skip(1).skip(host.len() as int + 1) =~= after);
    if after.len() > 1 && after[0] == ':' {
        assert(r->0@ =~= "["@ + host + "]:"@ + after.skip(1));
        assert(after =~= seq![':'] + after.skip(1));
        assert(r->0@ =~= rest);
    } else {
        assert(r->0@ =~= seq!['['] + host + seq![']', ':', '4', '4', '3']);
    }
}

/// What is located without brackets is the target where it ends with a colon and
/// digits; else it is, with port 443.
pub proof fn law_plain_targets(
    uri: &str,
    rest: Seq<char>,
    host: Seq<char>,
    port: Seq<char>,
    r: Option<String>,
)
    requires
        call_ensures(parse_target, (uri,), r),
        locates(uri@, rest),
        rest.len() > 0,
        rest[0] != '[' || !rest.contains(']'),
        rest == host + seq![':'] + port || rest == port,
        !port.contains(':'),
    ensures
        r is Some,
        rest == host + seq![':'] + port && port.len() > 0 && (forall|i: int|
            0 <= i < port.len() ==> '0' <= #[trigger] port[i] <= '9') ==> r->0@ == rest,
        port.len() == 0 || rest == port || (exists|i: int|
            0 <= i < port.len() && !('0' <= #[trigger] port[i] <= '9')) ==> r->0@ == rest + seq![
            ':',
            '4',
            '4',
            '3',
        ],
{
    reveal_strlit(":443");
    lemma_locates(uri@, rest);
    if rest[0] == '[' {
        let inner = rest.skip(1);
        assert(!inner.contains(']')) by {
            if inner.contains(']') {
                let j = choose|j: int| 0 <= j < inner.len() && inner[j] == ']';
                assert(rest[j + 1] == ']');
            }
        }
        lemma_find_none(inner, ']');
    }
    lemma_rfind_to(rest, ':', rest.len() as int);
    assert(":443"@ =~= seq![':', '4', '4', '3']);
    if rest == port {
        if rfind(rest, ':') is Some {
            assert(port.contains(port[rfind(rest, ':')->0]));
        }
    } else {
        let n = host.len() as int;
        assert(rest[n] == ':');
        assert forall|j: int| n < j < rest.len() implies rest[j] != ':' by {
            assert(rest[j] == port[j - n - 1]);
            assert(port.contains(port[j - n - 1]));
        }
        lemma_rfind_at(rest, ':', n);
        assert(rest.skip(n + 1) =~= port);
    }
}

proof fn lemma_trim_open(s: Seq<char>) -> (n: int)
    ensures
        0 <= n <= s.len(),
        forall|i: int| 0 <= i < n ==> s[i] == '[',
        trim_open(s) == s.skip(n),
        n < s.len() ==> s[n] != '[',
    decreases s.len(),
{
    if s.len() > 0 && s[0] == '[' {
        let m = lemma_trim_open(s.skip(1));
        assert(s.skip(1).skip(m) =~= s.skip(m + 1));
        assert forall|i: int| 0 <= i < m + 1 implies s[i] == '[' by {
            if i > 0 {
                assert(s.skip(1)[i - 1] == s[i]);
            }
        }
        if m + 1 < s.len() {
            assert(s.skip(1)[m] == s[m + 1]);
        }
        m + 1
    } else {
        assert(s.skip(0) =~= s);
        0
    }
}

/// A peer goes by the host of its target: what stands before the last colon, without
/// the brackets around it.
pub proof fn law_peers_go_by_their_host(
    target: &str,
    opened: nat,
    name: Seq<char>,
    closed_by: nat,
    port: Seq<char>,
    r: String,
)
    requires
        call_ensures(server_name, (target,), r),
        target@ == Seq::new(opened, |i: int| '[') + name + Seq::new(closed_by, |i: int| ']') + seq![
            ':',
        ] + port,
        !port.contains(':'),
        name.len() > 0,
        name[0] != '[',
        name.last() != ']',
    ensures
        r@ == name,
{
    let before = Seq::new(opened, |i: int| '[');
    let behind = Seq::new(closed_by, |i: int| ']');
    let host = before + name + behind;
    let n = host.len() as int;
    assert(target@[n] == ':');
    assert forall|j: int| n < j < target@.len() implies target@[j] != ':' by {
        assert(target@[j] == port[j - n - 1]);
        assert(port.contains(port[j - n - 1]));
    }
    lemma_rfind_at(target@, ':', n);
    assert(target@.take(n) =~= host);
    let k = lemma_trim_open(host);
    assert(host[opened as int] == name[0]);
    if k < opened {
        assert(host[k] == '[');
    }
    assert(k == opened);
    let left = trim_open(host);
    assert(left =~= name + behind);
    let m = lemma_trim_end_char(left, ']');
    let l = name.len() as int;
    assert(left[l - 1] == name.last());
    if m > l {
        assert(left[m - 1] == ']');
    }
    assert(m == l);
    assert(left.take(l) =~= name);
}

// ── The order of addresses ────────────────────────────────────────────────────

/// The octets of an address.
pub open spec fn octets_of(e: Endpoint) -> Seq<u8> {
    match e.ip {
        Ip::V6(x) => x,
        Ip::V4(x) => x,
    }
}

proof fn lemma_first_difference(a: Seq<u8>, b: Seq<u8>, n: int)
    requires
        0 <= n < a.len(),
        n < b.len(),
        forall|i: int| 0 <= i < n ==> a[i] == b[i],
        a[n] != b[n],
    ensures
        bytes_before(a, b) <==> a[n] < b[n],
    decreases n,
{
    if n > 0 {
        assert(a[0] == b[0]);
        assert(a.skip(1)[n - 1] == a[n]);
        assert(b.skip(1)[n - 1] == b[n]);
        assert forall|i: int| 0 <= i < n - 1 implies a.skip(1)[i] == b.skip(1)[i] by {
            assert(a[i + 1] == b[i + 1]);
        }
        lemma_first_difference(a.skip(1), b.skip(1), n - 1);
    }
}

/// Addresses are put in order without losing, adding or repeating one: IPv6 first, then
/// by the first octet in which they differ, then by port, flow information and scope.
pub proof fn law_addresses_are_put_in_order(
    addrs: &Vec<SocketAddr>,
    r: Vec<SocketAddr>,
    i: int,
    j: int,
    n: int,
    e: Endpoint,
)
    requires
        call_ensures(order_addresses, (addrs,), r),
        0 <= i < j < r@.len(),
    ensures
        endpoints(r@).contains(e) <==> endpoints(addrs@).contains(e),
        r@[i]@ != r@[j]@,
        r@[j]@.ip is V6 ==> r@[i]@.ip is V6,
        (r@[i]@.ip is V6 <==> r@[j]@.ip is V6) ==> ({
            let x = octets_of(r@[i]@);
            let y = octets_of(r@[j]@);
            &&& 0 <= n < x.len() && n < y.len() && x[n] != y[n] && (forall|k: int|
                0 <= k < n ==> x[k] == y[k]) ==> x[n] < y[n]
            &&& x == y ==> {
                &&& r@[i].port <= r@[j].port
                &&& r@[i].port == r@[j].port ==> r@[i]@.flowinfo <= r@[j]@.flowinfo
                &&& r@[i].port == r@[j].port && r@[i]@.flowinfo == r@[j]@.flowinfo
                    ==> r@[i]@.scope_id < r@[j]@.scope_id
            }
        }),
{
    let v = endpoints(r@);
    assert(v[i] == r@[i]@ && v[j] == r@[j]@);
    assert(tried_before(v[i], v[j]));
    lemma_tried_irreflexive(v[i]);
    let x = octets_of(v[i]);
    let y = octets_of(v[j]);
    if 0 <= n < x.len() && n < y.len() && x[n] != y[n] && (forall|k: int|
        0 <= k < n ==> x[k] == y[k]) {
        lemma_first_difference(x, y, n);
        lemma_bytes_irreflexive(x);
    }
    if x == y {
        lemma_bytes_irreflexive(x);
    }
}

/// An attempt is made from any address of the same family, at any port.
pub proof fn law_attempts_keep_the_family(remote: &SocketAddr, r: SocketAddr, i: int)
    requires
        call_ensures(bind_address, (remote,), r),
    ensures
        r.port == 0,
        r@.ip is V6 <==> remote@.ip is V6,
        0 <= i < octets_of(r@).len() ==> octets_of(r@)[i] == 0,
        octets_of(r@).len() == if remote@.ip is V6 {
            16int
        } else {
            4int
        },
        r@.flowinfo == 0 && r@.scope_id == 0,
{
}

// ── The attempts ──────────────────────────────────────────────────────────────

/// A new check has its target, and no addresses yet; without addresses a check fails.
pub proof fn law_checks_need_addresses(
    target: &str,
    n: QuicCheck,
    c: &mut QuicCheck,
    addrs: Vec<SocketAddr>,
    a: QuicAction,
)
    requires
        call_ensures(QuicCheck::new, (target,), n),
        call_ensures(QuicCheck::connect, (c, QuicEvent::Resolved(addrs)), a),
    ensures
        n.target_text() == target@ && n.remaining().len() == 0,
        a is Fail <==> addrs@.len() == 0,
        a matches QuicAction::Fail(m) ==> m@ == "no address resolved"@,
        addrs@.len() > 0 ==> a is Try,
{
}

/// The address that is tried first is one of those that were resolved, and comes before
/// all others of these; the others, and no more, are left, in order. It is tried from any
/// address of its family.
pub proof fn law_the_first_address_is_tried_first(
    c: &mut QuicCheck,
    addrs: Vec<SocketAddr>,
    from: SocketAddr,
    to: SocketAddr,
    e: Endpoint,
)
    requires
        call_ensures(
            QuicCheck::connect,
            (c, QuicEvent::Resolved(addrs)),
            QuicAction::Try { from, to },
        ),
    ensures
        endpoints(addrs@).contains(to@),
        final(c).remaining().contains(e) <==> endpoints(addrs@).contains(e) && e != to@,
        endpoints(addrs@).contains(e) && e.ip is V6 ==> to@.ip is V6,
        endpoints(addrs@).contains(e) && e != to@ ==> tried_before(to@, e),
        in_order(final(c).remaining()),
        from.port == 0 && (from@.ip is V6 <==> to@.ip is V6),
{
    let all = choose|all: Seq<Endpoint>| #[trigger]
        in_order(all) && (forall|e: Endpoint| #[trigger]
            all.contains(e) <==> endpoints(addrs@).contains(e)) && all.len() > 0 && tries(
            QuicAction::Try { from, to },
            all[0],
        ) && final(c).remaining() == all.skip(1);
    assert(all.contains(all[0]));
    lemma_tail_contains(all, e);
    if all.contains(e) && e != to@ {
        let i = choose|i: int| 0 <= i < all.len() && all[i] == e;
        assert(tried_before(all[0], all[i]));
    }
    let t = all.skip(1);
    assert forall|i: int, j: int| 0 <= i < j < t.len() implies tried_before(
        #[trigger] t[i],
        #[trigger] t[j],
    ) by {
        assert(tried_before(all[i + 1], all[j + 1]));
    }
}

/// After a failed attempt the next address is tried, as long as one is left; then the
/// check fails with the last failure. A peer that answers ends the check.
pub proof fn law_attempts_follow_each_other(c: &mut QuicCheck, e: QuicEvent, a: QuicAction)
    requires
        call_ensures(QuicCheck::connect, (c, e), a),
    ensures
        final(c).target_text() == old(c).target_text(),
        (e is ConnectFailed || e is HandshakeFailed) && old(c).remaining().len() > 0 ==> {
            &&& a matches QuicAction::Try { from, to } && to@ == old(c).remaining()[0] && from.port
                == 0 && (from@.ip is V6 <==> to@.ip is V6)
            &&& final(c).remaining() == old(c).remaining().skip(1)
        },
        old(c).remaining().len() == 0 ==> (e matches QuicEvent::ConnectFailed(m) ==> (
        a matches QuicAction::Fail(f) && f@ == "connect: "@ + m@)),
        old(c).remaining().len() == 0 ==> (e matches QuicEvent::HandshakeFailed(m) ==> (
        a matches QuicAction::Fail(f) && f@ == "handshake: "@ + m@)),
        e matches QuicEvent::BindFailed(m) ==> (a matches QuicAction::Fail(f) && f@ == "bind: "@
            + m@),
        e matches QuicEvent::ResolveFailed(m) ==> (a matches QuicAction::Fail(f) && f@
            == "resolve "@ + old(c).target_text() + ": "@ + m@),
        a is Done <==> e is Connected,
{
}

/// The round trip time is what the handshake took, and less than nothing where there is
/// no target, or the peer was not reached.
pub proof fn law_round_trip_times(uri: &str, rest: Seq<char>, after: Option<u64>, r: i64)
    requires
        call_ensures(check_quic_rtt, (uri, after), r),
        locates(uri@, rest),
    ensures
        rest.len() == 0 || after is None ==> r == -1,
        rest.len() > 0 ==> (after matches Some(ms) ==> {
            &&& ms <= 0x7fff_ffff_ffff_ffff ==> r == ms
            &&& ms > 0x7fff_ffff_ffff_ffff ==> r == ms - 0x1_0000_0000_0000_0000
        }),
{
    lemma_locates(uri@, rest);
    if let Some(ms) = after {
        assert(ms <= 0x7fff_ffff_ffff_ffff ==> ms as i64 == ms) by (bit_vector);
        assert(ms > 0x7fff_ffff_ffff_ffff ==> ms as i64 == ms - 0x1_0000_0000_0000_0000)
            by (bit_vector);
    }
}

} // verus!
