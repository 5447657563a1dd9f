//! Registry keys tell forwarders apart.
use vstd::prelude::*;
use crate::addr::{Endpoint, Ip, scoped_text, socket_text, v4_text, v6_text};
use crate::addr_laws::{is_endpoint, law_socket_round_trip, lemma_ip_text_no_dash};
use crate::forward::tcp::{local_tcp_key_text, remote_tcp_key_text};
use crate::forward::udp::{local_udp_key_text, remote_udp_key_text};
use crate::text::{dec_text, is_digit, lemma_dec_text};

verus! {

spec fn dash_arrow(prefix: Seq<char>, a: Seq<char>, b: Seq<char>) -> Seq<char> {
    prefix + a + "->"@ + b
}

proof fn lemma_scoped_text_no_dash(o: Seq<u8>, scope_id: nat)
    requires
        o.len() == 16,
    ensures
        forall|k: int|
            0 <= k < scoped_text(o, scope_id).len() ==> #[trigger] scoped_text(o, scope_id)[k]
                != '-',
{
    let s = scoped_text(o, scope_id);
    let t = v6_text(o);
    let d = dec_text(scope_id);
    lemma_ip_text_no_dash(Ip::V6(o));
    lemma_dec_text(scope_id);
    reveal_strlit("%");
    assert forall|k: int| 0 <= k < s.len() implies #[trigger] s[k] != '-' by {
        if k < t.len() {
            assert(s[k] == t[k]);
            assert(t.contains(t[k]));
        } else if k > t.len() {
            assert(s[k] == d[k - t.len() - 1]);
            assert(is_digit(d[k - t.len() - 1]));
        }
    }
}

proof fn lemma_socket_text_no_dash(e: Endpoint)
    requires
        is_endpoint(e),
    ensures
        !socket_text(e).contains('-'),
{
    lemma_ip_text_no_dash(e.ip);
    lemma_dec_text(e.port);
    reveal_strlit(":");
    reveal_strlit("[");
    reveal_strlit("]:");
    let s = socket_text(e);
    let d = dec_text(e.port);
    if s.contains('-') {
        let k = choose|k: int| 0 <= k < s.len() && s[k] == '-';
        match e.ip {
            Ip::V4(o) => {
                let t = v4_text(o);
                if k < t.len() {
                    assert(t[k] == '-');
                    assert(t.contains('-'));
                } else if k > t.len() {
                    assert(is_digit(d[k - t.len() - 1]));
                }
            },
            Ip::V6(o) => {
                let t = scoped_text(o, e.scope_id);
                if 1 <= k < t.len() + 1 {
                    assert(t[k - 1] == '-');
                    lemma_scoped_text_no_dash(o, e.scope_id);
                } else if k >= t.len() + 3 {
                    assert(is_digit(d[k - t.len() - 3]));
                }
            },
        }
    }
}

proof fn lemma_split_at_dash(
    p: Seq<char>,
    a: Seq<char>,
    b: Seq<char>,
    c: Seq<char>,
    d: Seq<char>,
)
    requires
        dash_arrow(p, a, b) == dash_arrow(p, c, d),
        !a.contains('-'),
        !c.contains('-'),
        !p.contains('-'),
    ensures
        a == c,
        b == d,
{
    reveal_strlit("->");
    let s = dash_arrow(p, a, b);
    let i = (p.len() + a.len()) as int;
    let j = (p.len() + c.len()) as int;
    assert(s[i] == '-');
    let t = dash_arrow(p, c, d);
    assert(t[j] == '-');
    assert forall|k: int| 0 <= k < i implies s[k] != '-' by {
        if k < p.len() {
            assert(p.contains(p[k]));
        } else {
            assert(a.contains(a[k - p.len()]));
        }
    }
    assert forall|k: int| 0 <= k < j implies t[k] != '-' by {
        if k < p.len() {
            assert(p.contains(p[k]));
        } else {
            assert(c.contains(c[k - p.len()]));
        }
    }
    assert(i == j);
    assert(a == s.subrange(p.len() as int, i));
    assert(c == t.subrange(p.len() as int, j));
    assert(b == s.skip(i + 2));
    assert(d == t.skip(j + 2));
}

proof fn lemma_socket_text_injective(a: Endpoint, b: Endpoint)
    requires
        is_endpoint(a),
        is_endpoint(b),
        socket_text(a) == socket_text(b),
    ensures
        a == b,
{
    law_socket_round_trip(a);
    law_socket_round_trip(b);
}

proof fn lemma_port_no_dash(n: nat)
    ensures
        !dec_text(n).contains('-'),
{
    lemma_dec_text(n);
    let d = dec_text(n);
    if d.contains('-') {
        let k = choose|k: int| 0 <= k < d.len() && d[k] == '-';
        assert(is_digit(d[k]));
    }
}

/// Two local-tcp forwarders have the same key only where both addresses are the
/// same.
pub proof fn law_local_tcp_keys(a: Endpoint, b: Endpoint, c: Endpoint, d: Endpoint)
    requires
        is_endpoint(a),
        is_endpoint(b),
        is_endpoint(c),
        is_endpoint(d),
        local_tcp_key_text(a, b) == local_tcp_key_text(c, d),
    ensures
        a == c,
        b == d,
{
    reveal_strlit("ltcp:");
    lemma_socket_text_no_dash(a);
    lemma_socket_text_no_dash(c);
    lemma_split_at_dash("ltcp:"@, socket_text(a), socket_text(b), socket_text(c), socket_text(d));
    lemma_socket_text_injective(a, c);
    lemma_socket_text_injective(b, d);
}

/// Two local-udp forwarders have the same key only where both addresses are the
/// same.
pub proof fn law_local_udp_keys(a: Endpoint, b: Endpoint, c: Endpoint, d: Endpoint)
    requires
        is_endpoint(a),
        is_endpoint(b),
        is_endpoint(c),
        is_endpoint(d),
        local_udp_key_text(a, b) == local_udp_key_text(c, d),
    ensures
        a == c,
        b == d,
{
    reveal_strlit("ludp:");
    lemma_socket_text_no_dash(a);
    lemma_socket_text_no_dash(c);
    lemma_split_at_dash("ludp:"@, socket_text(a), socket_text(b), socket_text(c), socket_text(d));
    lemma_socket_text_injective(a, c);
    lemma_socket_text_injective(b, d);
}

/// Two remote-tcp forwarders have the same key only where they listen on the same
/// port and have the same target.
pub proof fn law_remote_tcp_keys(a: Endpoint, b: Endpoint, c: Endpoint, d: Endpoint)
    requires
        is_endpoint(b),
        is_endpoint(d),
        remote_tcp_key_text(a, b) == remote_tcp_key_text(c, d),
    ensures
        a.port == c.port,
        b == d,
{
    reveal_strlit("rtcp:");
    lemma_port_no_dash(a.port);
    lemma_port_no_dash(c.port);
    lemma_split_at_dash("rtcp:"@, dec_text(a.port), socket_text(b), dec_text(c.port), socket_text(d));
    lemma_dec_text(a.port);
    lemma_dec_text(c.port);
    lemma_socket_text_injective(b, d);
}

/// Two remote-udp forwarders have the same key only where they listen on the same
/// port and have the same target.
pub proof fn law_remote_udp_keys(a: Endpoint, b: Endpoint, c: Endpoint, d: Endpoint)
    requires
        is_endpoint(b),
        is_endpoint(d),
        remote_udp_key_text(a, b) == remote_udp_key_text(c, d),
    ensures
        a.port == c.port,
        b == d,
{
    reveal_strlit("rudp:");
    lemma_port_no_dash(a.port);
    lemma_port_no_dash(c.port);
    lemma_split_at_dash("rudp:"@, dec_text(a.port), socket_text(b), dec_text(c.port), socket_text(d));
    lemma_dec_text(a.port);
    lemma_dec_text(c.port);
    lemma_socket_text_injective(b, d);
}

/// Forwarders of different kinds never have the same key.
pub proof fn law_kinds_have_different_keys(a: Endpoint, b: Endpoint, c: Endpoint, d: Endpoint)
    ensures
        local_tcp_key_text(a, b) != local_udp_key_text(c, d),
        local_tcp_key_text(a, b) != remote_tcp_key_text(c, d),
        local_tcp_key_text(a, b) != remote_udp_key_text(c, d),
        local_udp_key_text(a, b) != remote_tcp_key_text(c, d),
        local_udp_key_text(a, b) != remote_udp_key_text(c, d),
        remote_tcp_key_text(a, b) != remote_udp_key_text(c, d),
{
    reveal_strlit("ltcp:");
    reveal_strlit("ludp:");
    reveal_strlit("rtcp:");
    reveal_strlit("rudp:");
    assert(local_tcp_key_text(a, b)[0] == 'l' && local_tcp_key_text(a, b)[1] == 't');
    assert(local_udp_key_text(a, b)[0] == 'l' && local_udp_key_text(a, b)[1] == 'u');
    assert(local_udp_key_text(c, d)[0] == 'l' && local_udp_key_text(c, d)[1] == 'u');
    assert(remote_tcp_key_text(a, b)[0] == 'r' && remote_tcp_key_text(a, b)[1] == 't');
    assert(remote_tcp_key_text(c, d)[0] == 'r' && remote_tcp_key_text(c, d)[1] == 't');
    assert(remote_udp_key_text(c, d)[0] == 'r' && remote_udp_key_text(c, d)[1] == 'u');
}

} // verus!
