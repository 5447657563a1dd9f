//! Addresses that are written read back as themselves.
use vstd::prelude::*;
use crate::addr::{
    Endpoint, Ip, IpAddr, Ipv4Addr, Ipv6Addr, SocketAddr, all_groups, double_colon, group_octets,
    group_values, groups, groups_text, ip_text, is_group, is_octet, is_v4_mapped, longest_zeros,
    parse_groups, parse_ip, parse_scoped, parse_socket, parse_socket_v4, parse_v4, parse_v6,
    read_ip, read_socket, read_v4, read_v6, same_ip, same_socket, scoped_text, socket_text, v4_text,
    v6_text, zeros_from,
};
use crate::bytes::be16;
use crate::text::{
    dec_text, dec_value, find, hex_text, hex_value, is_digit, is_hex_digit, join, lemma_dec_text,
    lemma_find_from, lemma_find_from_is, lemma_find_none, lemma_hex_text, lemma_hex_text_len,
    lemma_join_no_double, lemma_rfind_at, lemma_rfind_to, lemma_split_first, lemma_split_join,
    parse_plain, rfind, split,
};

verus! {

/// What holds of the separator and of the characters of every piece holds of
/// the characters of the joined text.
proof fn lemma_join_chars(p: Seq<Seq<char>>, c: char, ok: spec_fn(char) -> bool)
    requires
        ok(c),
        forall|i: int, k: int| 0 <= i < p.len() && 0 <= k < p[i].len() ==> ok(#[trigger] p[i][k]),
    ensures
        forall|k: int| 0 <= k < join(p, c).len() ==> ok(#[trigger] join(p, c)[k]),
    decreases p.len(),
{
    if p.len() == 1 {
        assert forall|k: int| 0 <= k < join(p, c).len() implies ok(#[trigger] join(p, c)[k]) by {
            assert(ok(p[0][k]));
        }
    } else if p.len() > 1 {
        let t = p.skip(1);
        assert forall|i: int, k: int| 0 <= i < t.len() && 0 <= k < t[i].len() implies ok(
            #[trigger] t[i][k],
        ) by {
            assert(ok(p[i + 1][k]));
        }
        lemma_join_chars(t, c, ok);
        let s = join(p, c);
        let n = p[0].len() as int;
        assert forall|k: int| 0 <= k < s.len() implies ok(#[trigger] s[k]) by {
            if k < n {
                assert(ok(p[0][k]));
            } else if k > n {
                assert(s[k] == join(t, c)[k - n - 1]);
            }
        }
    }
}

/// Every character of a text is a separator or stands in a piece.
proof fn lemma_split_chars(s: Seq<char>, c: char, ok: spec_fn(char) -> bool)
    requires
        ok(c),
        forall|i: int, k: int|
            0 <= i < split(s, c).len() && 0 <= k < split(s, c)[i].len() ==> ok(
                #[trigger] split(s, c)[i][k],
            ),
    ensures
        forall|k: int| 0 <= k < s.len() ==> ok(#[trigger] s[k]),
    decreases s.len(),
{
    let p = split(s, c);
    lemma_split_first(s, c);
    lemma_find_from(s, c, 0);
    match find(s, c) {
        Some(n) => {
            let t = s.skip(n + 1);
            assert forall|i: int, k: int|
                0 <= i < split(t, c).len() && 0 <= k < split(t, c)[i].len() implies ok(
                #[trigger] split(t, c)[i][k],
            ) by {
                assert(p.skip(1)[i] == p[i + 1]);
                assert(ok(p[i + 1][k]));
            }
            lemma_split_chars(t, c, ok);
            assert forall|k: int| 0 <= k < s.len() implies ok(#[trigger] s[k]) by {
                if k < n {
                    assert(p[0][k] == s[k]);
                } else if k > n {
                    assert(t[k - n - 1] == s[k]);
                }
            }
        },
        None => {
            assert forall|k: int| 0 <= k < s.len() implies ok(#[trigger] s[k]) by {
                assert(p[0][k] == s[k]);
            }
        },
    }
}

spec fn v4_pieces(o: Seq<u8>) -> Seq<Seq<char>> {
    seq![dec_text(o[0] as nat), dec_text(o[1] as nat), dec_text(o[2] as nat), dec_text(o[3] as nat)]
}

proof fn lemma_octet(n: u8)
    ensures
        is_octet(dec_text(n as nat)),
        dec_value(dec_text(n as nat)) == n,
{
    lemma_dec_text(n as nat);
    reveal_with_fuel(dec_text, 3);
}

pub open spec fn v4_char(c: char) -> bool {
    is_digit(c) || c == '.'
}

pub proof fn lemma_v4_chars(s: Seq<char>)
    requires
        parse_v4(s) is Some,
    ensures
        forall|k: int| 0 <= k < s.len() ==> v4_char(#[trigger] s[k]),
{
    let p = split(s, '.');
    assert forall|i: int, k: int| 0 <= i < p.len() && 0 <= k < p[i].len() implies v4_char(
        #[trigger] p[i][k],
    ) by {
        assert(is_octet(p[i]));
        assert(is_digit(p[i][k]));
    }
    lemma_split_chars(s, '.', |c: char| v4_char(c));
    assert forall|k: int| 0 <= k < s.len() implies v4_char(#[trigger] s[k]) by {
        let ok = |c: char| v4_char(c);
        assert(ok(s[k]));
    }
}

/// An IPv4 address that has been written reads back.
pub proof fn law_v4_round_trip(o: Seq<u8>)
    requires
        o.len() == 4,
    ensures
        parse_v4(v4_text(o)) == Some(o),
{
    let p = v4_pieces(o);
    assert forall|i: int| 0 <= i < p.len() implies !(#[trigger] p[i]).contains('.') by {
        lemma_octet(o[i]);
        assert(p[i] == dec_text(o[i] as nat));
        if p[i].contains('.') {
            let k = choose|k: int| 0 <= k < p[i].len() && p[i][k] == '.';
            assert(is_digit(p[i][k]));
        }
    }
    lemma_split_join(p, '.');
    lemma_octet(o[0]);
    lemma_octet(o[1]);
    lemma_octet(o[2]);
    lemma_octet(o[3]);
    assert(o == seq![o[0], o[1], o[2], o[3]]);
}

spec fn hex_pieces(g: Seq<nat>) -> Seq<Seq<char>> {
    Seq::new(g.len(), |i: int| hex_text(g[i]))
}

proof fn lemma_hex_pieces(g: Seq<nat>)
    requires
        forall|i: int| 0 <= i < g.len() ==> #[trigger] g[i] < 65536,
    ensures
        all_groups(hex_pieces(g)),
        group_values(hex_pieces(g)) == g,
        forall|i: int|
            0 <= i < g.len() ==> (#[trigger] hex_pieces(g)[i]).len() > 0 && !hex_pieces(
                g,
            )[i].contains(':'),
        groups_text(g) == join(hex_pieces(g), ':'),
{
    let p = hex_pieces(g);
    assert forall|i: int| 0 <= i < g.len() implies is_group(#[trigger] p[i]) && hex_value(p[i])
        == g[i] && !p[i].contains(':') by {
        lemma_hex_text(g[i]);
        lemma_hex_text_len(g[i]);
        if p[i].contains(':') {
            let k = choose|k: int| 0 <= k < p[i].len() && p[i][k] == ':';
            assert(is_hex_digit(p[i][k]));
        }
    }
    assert(group_values(p) == g);
}

/// Groups that have been written read back.
proof fn lemma_groups_round_trip(g: Seq<nat>, dotted: bool)
    requires
        forall|i: int| 0 <= i < g.len() ==> #[trigger] g[i] < 65536,
    ensures
        parse_groups(groups_text(g), dotted) == Some(g),
{
    lemma_hex_pieces(g);
    let p = hex_pieces(g);
    if g.len() > 0 {
        lemma_split_join(p, ':');
        lemma_join_no_double(p, ':');
    } else {
        assert(g == Seq::<nat>::empty());
    }
}

proof fn lemma_double_colon_at(s: Seq<char>, from: int, i: int)
    requires
        0 <= from <= i,
        i + 1 < s.len(),
        s[i] == ':',
        s[i + 1] == ':',
        forall|j: int| from <= j < i ==> !(#[trigger] s[j] == ':' && s[j + 1] == ':'),
    ensures
        double_colon(s, from) == Some(i),
    decreases i - from,
{
    if from < i {
        assert(!(s[from] == ':' && s[from + 1] == ':'));
        lemma_double_colon_at(s, from + 1, i);
    }
}

proof fn lemma_no_double_colon(s: Seq<char>, from: int)
    requires
        0 <= from,
        forall|j: int| 0 <= j < s.len() - 1 ==> !(#[trigger] s[j] == ':' && s[j + 1] == ':'),
    ensures
        double_colon(s, from) is None,
    decreases s.len() - from,
{
    if from + 1 < s.len() {
        assert(!(s[from] == ':' && s[from + 1] == ':'));
        lemma_no_double_colon(s, from + 1);
    }
}

proof fn lemma_zeros(g: Seq<nat>, i: int)
    requires
        0 <= i <= g.len(),
    ensures
        i + zeros_from(g, i) <= g.len(),
        forall|k: int| i <= k < i + zeros_from(g, i) ==> g[k] == 0,
    decreases g.len() - i,
{
    if i < g.len() && g[i] == 0 {
        lemma_zeros(g, i + 1);
    }
}

proof fn lemma_longest_zeros_range(g: Seq<nat>, n: nat)
    ensures
        0 <= longest_zeros(g, n),
        n > 0 ==> longest_zeros(g, n) < n,
        n == 0 ==> longest_zeros(g, n) == 0,
    decreases n,
{
    if n > 0 {
        lemma_longest_zeros_range(g, (n - 1) as nat);
    }
}

proof fn lemma_octets_of_groups(o: Seq<u8>)
    requires
        o.len() == 16,
    ensures
        group_octets(groups(o)) == o,
        forall|i: int| 0 <= i < 8 ==> #[trigger] groups(o)[i] < 65536,
{
    let g = groups(o);
    assert forall|i: int| 0 <= i < 16 implies group_octets(g)[i] == o[i] by {
        let k = i / 2;
        assert(g[k] == be16(o[2 * k], o[2 * k + 1]));
    }
    assert(group_octets(g) == o);
}

proof fn lemma_mapped_round_trip(o: Seq<u8>)
    requires
        o.len() == 16,
        is_v4_mapped(o),
    ensures
        parse_v6(v6_text(o)) == Some(o),
{
    reveal_strlit("::ffff:");
    let d = v4_text(o.skip(12));
    let s = v6_text(o);
    assert(s == "::ffff:"@ + d);
    lemma_double_colon_at(s, 0, 0);
    assert(s.take(0) == Seq::<char>::empty());
    let t = s.skip(2);
    let p = seq![hex_text(0xffff), d];
    law_v4_round_trip(o.skip(12));
    lemma_v4_chars(d);
    assert(hex_text(0xffff) == seq!['f', 'f', 'f', 'f']) by {
        reveal_with_fuel(hex_text, 4);
    }
    assert(join(p, ':') == t) by {
        assert(p.skip(1) == seq![d]);
        assert(join(p.skip(1), ':') == d);
        assert(hex_text(0xffff) + seq![':'] + d == t);
    }
    assert forall|i: int| 0 <= i < p.len() implies !(#[trigger] p[i]).contains(':') by {
        if p[i].contains(':') {
            let k = choose|k: int| 0 <= k < p[i].len() && p[i][k] == ':';
            if i == 1 {
                assert(v4_char(d[k]));
            }
        }
    }
    lemma_split_join(p, ':');
    lemma_hex_text(0xffff);
    assert(!is_group(d)) by {
        if is_group(d) {
            // A dotted text has at least seven characters.
            let q = v4_pieces(o.skip(12));
            lemma_octet(o[12]);
            lemma_octet(o[13]);
            lemma_octet(o[14]);
            lemma_octet(o[15]);
            reveal_with_fuel(join, 4);
            assert(d.len() >= 7);
        }
    }
    assert(!all_groups(p)) by {
        assert(!is_group(p[1]));
    }
    assert(p.drop_last() == seq![hex_text(0xffff)]);
    let v = o.skip(12);
    let g = seq![0xffffnat, be16(v[0], v[1]), be16(v[2], v[3])];
    assert(group_values(p.drop_last()) + seq![be16(v[0], v[1]), be16(v[2], v[3])] == g);
    assert(parse_groups(t, true) == Some(g));
    let h = Seq::<nat>::empty();
    let all = h + Seq::new(5, |k: int| 0nat) + g;
    assert(all == groups(o)) by {
        assert forall|i: int| 0 <= i < 8 implies all[i] == groups(o)[i] by {
            if i < 5 {
                assert(o[2 * i] == 0 && o[2 * i + 1] == 0);
            }
        }
    }
    lemma_octets_of_groups(o);
}

/// A text with a double colon in place of zero groups reads back.
proof fn lemma_short_round_trip(g: Seq<nat>, a: int, n: int)
    requires
        g.len() == 8,
        forall|i: int| 0 <= i < g.len() ==> #[trigger] g[i] < 65536,
        0 <= a,
        1 < n,
        a + n <= 8,
        forall|k: int| a <= k < a + n ==> g[k] == 0,
    ensures
        parse_v6(groups_text(g.take(a)) + "::"@ + groups_text(g.skip(a + n))) == Some(
            group_octets(g),
        ),
{
    reveal_strlit("::");
    let h = g.take(a);
    let t = g.skip(a + n);
    assert forall|i: int| 0 <= i < h.len() implies #[trigger] h[i] < 65536 by {
        assert(g[i] < 65536);
    }
    assert forall|i: int| 0 <= i < t.len() implies #[trigger] t[i] < 65536 by {
        assert(g[a + n + i] < 65536);
    }
    lemma_groups_round_trip(h, false);
    lemma_groups_round_trip(t, true);
    let hs = groups_text(h);
    let ts = groups_text(t);
    let s = hs + "::"@ + ts;
    let i = hs.len() as int;
    assert forall|j: int| 0 <= j < i implies !(#[trigger] s[j] == ':' && s[j + 1] == ':') by {
        lemma_hex_pieces(h);
        lemma_join_no_double(hex_pieces(h), ':');
        assert(s[j] == hs[j]);
        if j + 1 < i {
            assert(s[j + 1] == hs[j + 1]);
        } else {
            assert(h.len() > 0);
            assert(hs.last() != ':');
        }
    }
    lemma_double_colon_at(s, 0, i);
    assert(s.take(i) == hs);
    assert(s.skip(i + 2) == ts);
    assert(h + Seq::new((8 - h.len() - t.len()) as nat, |k: int| 0nat) + t == g);
}

/// An IPv6 address that has been written reads back.
pub proof fn law_v6_round_trip(o: Seq<u8>)
    requires
        o.len() == 16,
    ensures
        parse_v6(v6_text(o)) == Some(o),
{
    if is_v4_mapped(o) {
        lemma_mapped_round_trip(o);
    } else {
        let g = groups(o);
        let a = longest_zeros(g, 8);
        let n = zeros_from(g, a);
        lemma_octets_of_groups(o);
        lemma_longest_zeros_range(g, 8);
        lemma_zeros(g, a);
        if n > 1 {
            lemma_short_round_trip(g, a, n as int);
        } else {
            lemma_groups_round_trip(g, true);
            assert(double_colon(groups_text(g), 0) is None) by {
                lemma_hex_pieces(g);
                lemma_join_no_double(hex_pieces(g), ':');
                lemma_no_double_colon(groups_text(g), 0);
            }
        }
    }
}

spec fn v6_char(c: char) -> bool {
    is_hex_digit(c) || c == ':' || c == '.'
}

proof fn lemma_groups_text_chars(g: Seq<nat>)
    ensures
        forall|k: int| 0 <= k < groups_text(g).len() ==> v6_char(#[trigger] groups_text(g)[k]),
{
    let p = hex_pieces(g);
    assert(groups_text(g) == join(p, ':'));
    assert forall|i: int, k: int| 0 <= i < p.len() && 0 <= k < p[i].len() implies v6_char(
        #[trigger] p[i][k],
    ) by {
        lemma_hex_text(g[i]);
        assert(is_hex_digit(p[i][k]));
    }
    lemma_join_chars(p, ':', |c: char| v6_char(c));
    assert forall|k: int| 0 <= k < groups_text(g).len() implies v6_char(
        #[trigger] groups_text(g)[k],
    ) by {
        let ok = |c: char| v6_char(c);
        assert(ok(join(p, ':')[k]));
    }
}

spec fn v6_chars_only(s: Seq<char>) -> bool {
    forall|k: int| 0 <= k < s.len() ==> v6_char(#[trigger] s[k])
}

proof fn lemma_mapped_text_chars(o: Seq<u8>)
    requires
        o.len() == 16,
        is_v4_mapped(o),
    ensures
        v6_chars_only(v6_text(o)),
        v6_text(o).contains(':'),
{
    let s = v6_text(o);
    reveal_strlit("::ffff:");
    let d = v4_text(o.skip(12));
    law_v4_round_trip(o.skip(12));
    lemma_v4_chars(d);
    assert forall|k: int| 0 <= k < s.len() implies v6_char(#[trigger] s[k]) by {
        if k >= 7 {
            assert(s[k] == d[k - 7]);
            assert(v4_char(d[k - 7]));
        }
    }
    assert(s[0] == ':');
}

proof fn lemma_short_text_chars(h: Seq<nat>, t: Seq<nat>)
    ensures
        v6_chars_only(groups_text(h) + "::"@ + groups_text(t)),
        (groups_text(h) + "::"@ + groups_text(t)).contains(':'),
{
    reveal_strlit("::");
    let hs = groups_text(h);
    let ts = groups_text(t);
    let s = hs + "::"@ + ts;
    lemma_groups_text_chars(h);
    lemma_groups_text_chars(t);
    assert forall|k: int| 0 <= k < s.len() implies v6_char(#[trigger] s[k]) by {
        if k < hs.len() {
            assert(s[k] == hs[k]);
        } else if k >= hs.len() + 2 {
            assert(s[k] == ts[k - hs.len() - 2]);
        }
    }
    assert(s[hs.len() as int] == ':');
}

proof fn lemma_v6_text_chars(o: Seq<u8>)
    requires
        o.len() == 16,
    ensures
        v6_chars_only(v6_text(o)),
        v6_text(o).contains(':'),
{
    let s = v6_text(o);
    if is_v4_mapped(o) {
        lemma_mapped_text_chars(o);
    } else {
        let g = groups(o);
        let a = longest_zeros(g, 8);
        let n = zeros_from(g, a);
        if n > 1 {
            lemma_short_text_chars(g.take(a), g.skip(a + n));
        } else {
            lemma_groups_text_chars(g);
            let p = hex_pieces(g);
            assert(s == p[0] + seq![':'] + join(p.skip(1), ':'));
            assert(s[p[0].len() as int] == ':');
        }
    }
}

/// The text of an IPv6 address holds a colon, and neither brackets nor a percent
/// sign.
pub proof fn lemma_v6_text_plain(o: Seq<u8>)
    requires
        o.len() == 16,
    ensures
        v6_text(o).contains(':'),
        !v6_text(o).contains('['),
        !v6_text(o).contains(']'),
        !v6_text(o).contains('%'),
{
    lemma_v6_text_chars(o);
    let s = v6_text(o);
    if s.contains('[') {
        let k = choose|k: int| 0 <= k < s.len() && s[k] == '[';
        assert(v6_char(s[k]));
    }
    if s.contains(']') {
        let k = choose|k: int| 0 <= k < s.len() && s[k] == ']';
        assert(v6_char(s[k]));
    }
    if s.contains('%') {
        let k = choose|k: int| 0 <= k < s.len() && s[k] == '%';
        assert(v6_char(s[k]));
    }
}

/// Whether there are as many octets as the family has.
pub open spec fn is_address(ip: Ip) -> bool {
    match ip {
        Ip::V4(o) => o.len() == 4,
        Ip::V6(o) => o.len() == 16,
    }
}

/// Whether an endpoint is an address with a port, and has no flow information.
/// Only an IPv6 address has a scope.
pub open spec fn is_endpoint(e: Endpoint) -> bool {
    &&& is_address(e.ip)
    &&& e.port <= 65535
    &&& e.flowinfo == 0
    &&& e.scope_id <= 0xFFFF_FFFF
    &&& e.ip is V4 ==> e.scope_id == 0
}

/// The text of an address holds no dash.
pub proof fn lemma_ip_text_no_dash(ip: Ip)
    requires
        is_address(ip),
    ensures
        !ip_text(ip).contains('-'),
{
    let s = ip_text(ip);
    if s.contains('-') {
        let k = choose|k: int| 0 <= k < s.len() && s[k] == '-';
        match ip {
            Ip::V4(o) => {
                law_v4_round_trip(o);
                lemma_v4_chars(s);
                assert(v4_char(s[k]));
            },
            Ip::V6(o) => {
                lemma_v6_text_chars(o);
                assert(v6_char(s[k]));
            },
        }
    }
}

/// An address that has been written reads back as itself.
pub proof fn law_ip_round_trip(ip: Ip)
    requires
        is_address(ip),
    ensures
        parse_ip(ip_text(ip)) == Some(ip),
{
    match ip {
        Ip::V4(o) => {
            law_v4_round_trip(o);
        },
        Ip::V6(o) => {
            law_v6_round_trip(o);
            lemma_v6_text_chars(o);
            let s = v6_text(o);
            if parse_v4(s) is Some {
                lemma_v4_chars(s);
                let k = choose|k: int| 0 <= k < s.len() && s[k] == ':';
                assert(v4_char(s[k]));
            }
        },
    }
}

/// The text of an IPv6 address and its scope reads back as both, and holds no
/// brackets.
proof fn lemma_scoped_round_trip(o: Seq<u8>, scope_id: nat)
    requires
        o.len() == 16,
        scope_id <= 0xFFFF_FFFF,
    ensures
        parse_scoped(scoped_text(o, scope_id)) == Some((o, scope_id)),
        forall|k: int|
            0 <= k < scoped_text(o, scope_id).len() ==> #[trigger] scoped_text(o, scope_id)[k]
                != ']',
{
    let t = v6_text(o);
    let d = dec_text(scope_id);
    let s = scoped_text(o, scope_id);
    law_v6_round_trip(o);
    lemma_v6_text_plain(o);
    lemma_find_none(t, '%');
    lemma_dec_text(scope_id);
    if scope_id != 0 {
        reveal_strlit("%");
        let i = t.len() as int;
        assert(s[i] == '%');
        assert forall|k: int| 0 <= k < i implies s[k] != '%' by {
            assert(s[k] == t[k]);
            assert(t.contains(t[k]));
        }
        lemma_find_from_is(s, '%', 0, i);
        assert(s.take(i) == t);
        assert(s.skip(i + 1) == d);
    }
    assert forall|k: int| 0 <= k < s.len() implies #[trigger] s[k] != ']' by {
        if k < t.len() {
            assert(s[k] == t[k]);
            assert(t.contains(t[k]));
        } else if k > t.len() {
            assert(s[k] == d[k - t.len() - 1]);
            assert(is_digit(d[k - t.len() - 1]));
        } else {
            reveal_strlit("%");
        }
    }
}

/// An address with a port that has been written reads back as itself. Flow
/// information is not written.
pub proof fn law_socket_round_trip(a: Endpoint)
    requires
        is_endpoint(a),
    ensures
        parse_socket(socket_text(a)) == Some(a),
{
    let s = socket_text(a);
    let port = dec_text(a.port);
    lemma_dec_text(a.port);
    match a.ip {
        Ip::V4(o) => {
            reveal_strlit(":");
            let t = v4_text(o);
            let i = t.len() as int;
            law_v4_round_trip(o);
            assert(s[i] == ':');
            assert forall|j: int| i < j < s.len() implies s[j] != ':' by {
                assert(s[j] == port[j - i - 1]);
                assert(is_digit(port[j - i - 1]));
            }
            lemma_rfind_at(s, ':', i);
            assert(s.take(i) == t);
            assert(s.skip(i + 1) == port);
        },
        Ip::V6(o) => {
            reveal_strlit("[");
            reveal_strlit("]:");
            let t = scoped_text(o, a.scope_id);
            let i = (t.len() + 1) as int;
            lemma_scoped_round_trip(o, a.scope_id);
            assert(s[i] == ']' && s[i + 1] == ':' && s[0] == '[');
            assert forall|j: int| i + 1 < j < s.len() implies s[j] != ':' && s[j] != ']' by {
                assert(s[j] == port[j - i - 2]);
                assert(is_digit(port[j - i - 2]));
            }
            lemma_rfind_at(s, ']', i);
            lemma_rfind_at(s, ':', i + 1);
            if parse_v4(s.take(i + 1)) is Some {
                lemma_v4_chars(s.take(i + 1));
                assert(v4_char(s.take(i + 1)[0]));
            }
            assert(s.subrange(1, i) == t);
            assert(s.skip(i + 2) == port);
        },
    }
}

// ── Reading and writing ───────────────────────────────────────────────────────

proof fn lemma_octet_text(s: Seq<char>)
    requires
        is_octet(s),
    ensures
        s == dec_text(dec_value(s)),
{
    lemma_digits_text(s);
}

/// Digits without a needless zero in front are how their number is written.
proof fn lemma_digits_text(s: Seq<char>)
    requires
        s.len() > 0,
        crate::text::all_digits(s),
        s.len() > 1 ==> s[0] != '0',
    ensures
        s == dec_text(dec_value(s)),
        s[0] != '0' ==> dec_value(s) > 0,
    decreases s.len(),
{
    let d = s.drop_last();
    assert(is_digit(s[s.len() - 1]));
    if s.len() == 1 {
        assert(d =~= Seq::<char>::empty());
        assert(dec_value(d) == 0);
        let n = dec_value(s);
        assert(n < 10);
        assert(dec_text(n)[0] == s[0]);
        assert(s =~= dec_text(n));
    } else {
        assert forall|i: int| 0 <= i < d.len() implies is_digit(#[trigger] d[i]) by {
            assert(is_digit(s[i]));
        }
        lemma_digits_text(d);
        let n = dec_value(s);
        assert(n / 10 == dec_value(d));
        assert(n >= 10);
        assert(n % 10 == s.last() as u32 - '0' as u32);
        assert(dec_text(n) == dec_text(n / 10).push(('0' as u32 + n % 10) as char));
        assert(s =~= d.push(s.last()));
    }
}

/// Whatever reads as an IPv4 address is that address as it is written: four numbers
/// from 0 to 255 without needless zeros, with dots between them.
pub proof fn law_only_dotted_texts_are_ipv4(s: &[char], r: Option<Ipv4Addr>, a: IpAddr, text: String)
    requires
        call_ensures(read_v4, (s,), r),
        call_ensures(IpAddr::to_text, (&a,), text),
    ensures
        r matches Some(v) ==> s@ == dec_text(v.octets@[0] as nat) + seq!['.'] + dec_text(
            v.octets@[1] as nat,
        ) + seq!['.'] + dec_text(v.octets@[2] as nat) + seq!['.'] + dec_text(v.octets@[3] as nat),
        a matches IpAddr::V4(w) ==> {
            &&& text@ == dec_text(w.octets@[0] as nat) + seq!['.'] + dec_text(w.octets@[1] as nat)
                + seq!['.'] + dec_text(w.octets@[2] as nat) + seq!['.'] + dec_text(
                w.octets@[3] as nat,
            )
            &&& text@ == s@ ==> (r matches Some(v) && v.octets@ == w.octets@)
        },
{
    if let Some(v) = r {
        let p = split(s@, '.');
        lemma_join_of_split(s@, '.');
        lemma_octet_text(p[0]);
        lemma_octet_text(p[1]);
        lemma_octet_text(p[2]);
        lemma_octet_text(p[3]);
        lemma_four(p);
    }
    if let IpAddr::V4(w) = a {
        law_v4_round_trip(w.octets@);
        lemma_four(v4_pieces(w.octets@));
    }
}

proof fn lemma_four(p: Seq<Seq<char>>)
    requires
        p.len() == 4,
    ensures
        join(p, '.') == p[0] + seq!['.'] + p[1] + seq!['.'] + p[2] + seq!['.'] + p[3],
{
    let a = p.skip(1);
    let b = a.skip(1);
    let c = b.skip(1);
    assert(join(c, '.') == p[3]);
    assert(join(b, '.') =~= p[2] + seq!['.'] + p[3]);
    assert(join(a, '.') =~= p[1] + seq!['.'] + p[2] + seq!['.'] + p[3]);
    assert(join(p, '.') =~= p[0] + seq!['.'] + p[1] + seq!['.'] + p[2] + seq!['.'] + p[3]);
}

proof fn lemma_join_of_split(s: Seq<char>, c: char)
    ensures
        join(split(s, c), c) == s,
    decreases s.len(),
{
    crate::text::lemma_split_first(s, c);
    crate::text::lemma_find_from(s, c, 0);
    let p = split(s, c);
    match crate::text::find(s, c) {
        Some(i) => {
            let rest = s.skip(i + 1);
            lemma_join_of_split(rest, c);
            assert(p.skip(1) == split(rest, c));
            crate::text::lemma_split_first(rest, c);
            assert(s =~= s.take(i) + seq![c] + rest);
        },
        None => {
            assert(p =~= seq![s]);
        },
    }
}

/// What was written reads back as what it was: an address of either family, alone and
/// with a port.
pub proof fn law_addresses_read_back(
    a: &IpAddr,
    text: String,
    s: &[char],
    r: Option<IpAddr>,
    b: &SocketAddr,
    socket: String,
    t: &[char],
    q: Option<SocketAddr>,
)
    requires
        call_ensures(IpAddr::to_text, (a,), text),
        s@ == text@,
        call_ensures(read_ip, (s,), r),
        call_ensures(SocketAddr::to_text, (b,), socket),
        t@ == socket@,
        call_ensures(read_socket, (t,), q),
        b.flowinfo == 0,
        b.ip is V4 ==> b.scope_id == 0,
    ensures
        r matches Some(v) && v@ == a@,
        q matches Some(v) && v.ip@ == b.ip@ && v.port == b.port && v.scope_id == b.scope_id,
{
    law_ip_round_trip(a@);
    law_socket_round_trip(b@);
    if let Some(v) = q {
        assert(v@.port == v.port && v@.scope_id == v.scope_id);
    }
}

/// Two addresses are the same only where they are written alike, and an address with
/// a port is written as the address, in brackets where it is IPv6, a colon and the
/// port.
pub proof fn law_socket_texts(a: &SocketAddr, text: String, ip: String)
    requires
        call_ensures(SocketAddr::to_text, (a,), text),
        call_ensures(IpAddr::to_text, (&a.ip,), ip),
        a.scope_id == 0,
    ensures
        a.ip is V4 ==> text@ == ip@ + seq![':'] + dec_text(a.port as nat),
        a.ip is V6 ==> text@ == seq!['['] + ip@ + seq![']', ':'] + dec_text(a.port as nat),
{
    reveal_strlit(":");
    reveal_strlit("[");
    reveal_strlit("]:");
    match a.ip {
        IpAddr::V4(_) => {
            assert(text@ =~= ip@ + seq![':'] + dec_text(a.port as nat));
        },
        IpAddr::V6(_) => {
            assert(text@ =~= seq!['['] + ip@ + seq![']', ':'] + dec_text(a.port as nat));
        },
    }
}

/// An IPv6 address that is written out in full, as eight groups of hexadecimal digits
/// with colons between them, reads as the octets of these groups, the first first.
pub proof fn law_full_addresses_are_read(s: &[char], g: Seq<nat>, r: Option<Ipv6Addr>)
    requires
        call_ensures(read_v6, (s,), r),
        g.len() == 8,
        forall|i: int| 0 <= i < 8 ==> #[trigger] g[i] < 65536,
        s@ == join(Seq::new(8, |i: int| hex_text(g[i])), ':'),
    ensures
        r matches Some(a) && forall|i: int|
            0 <= i < 8 ==> (#[trigger] g[i]) == a.octets@[2 * i] * 256 + a.octets@[2 * i + 1],
{
    let p = hex_pieces(g);
    assert(p =~= Seq::new(8, |i: int| hex_text(g[i])));
    lemma_hex_pieces(g);
    crate::text::lemma_join_no_double(p, ':');
    lemma_no_double_colon(s@, 0);
    lemma_groups_round_trip(g, true);
    if let Some(a) = r {
        assert(a.octets@ == group_octets(g));
        assert forall|i: int| 0 <= i < 8 implies (#[trigger] g[i]) == a.octets@[2 * i] * 256
            + a.octets@[2 * i + 1] by {
            assert(a.octets@[2 * i] == (g[i] / 256) as u8);
            assert(a.octets@[2 * i + 1] == (g[i] % 256) as u8);
        }
    }
}

/// A double colon stands for as many zero groups as are missing, at the place where it
/// stands.
pub proof fn law_short_addresses_are_read(
    s: &[char],
    h: Seq<nat>,
    t: Seq<nat>,
    r: Option<Ipv6Addr>,
)
    requires
        call_ensures(read_v6, (s,), r),
        h.len() + t.len() <= 7,
        forall|i: int| 0 <= i < h.len() ==> #[trigger] h[i] < 65536,
        forall|i: int| 0 <= i < t.len() ==> #[trigger] t[i] < 65536,
        s@ == join(Seq::new(h.len(), |i: int| hex_text(h[i])), ':') + seq![':', ':'] + join(
            Seq::new(t.len(), |i: int| hex_text(t[i])),
            ':',
        ),
    ensures
        r matches Some(a) && forall|i: int|
            0 <= i < 8 ==> #[trigger] a.octets@[2 * i] * 256 + a.octets@[2 * i + 1] == if i
                < h.len() {
                h[i]
            } else if i < 8 - t.len() {
                0
            } else {
                t[i - (8 - t.len())]
            },
{
    let p = hex_pieces(h);
    lemma_hex_pieces(h);
    lemma_hex_pieces(t);
    lemma_join_no_double(p, ':');
    let a = groups_text(h);
    let b = groups_text(t);
    let n = a.len() as int;
    assert(s@ =~= a + seq![':', ':'] + b);
    assert forall|j: int| 0 <= j < n implies !(#[trigger] s@[j] == ':' && s@[j + 1] == ':') by {
        assert(s@[j] == a[j]);
        if j + 1 < n {
            assert(s@[j + 1] == a[j + 1]);
        } else {
            assert(a[j] == a.last());
            assert(p.len() > 0) by {
                if p.len() == 0 {
                    assert(a.len() == 0);
                }
            }
        }
    }
    lemma_double_colon_at(s@, 0, n);
    assert(s@.take(n) =~= a);
    assert(s@.skip(n + 2) =~= b);
    lemma_groups_round_trip(h, false);
    lemma_groups_round_trip(t, true);
    let g = h + Seq::new((8 - h.len() - t.len()) as nat, |k: int| 0nat) + t;
    if let Some(v) = r {
        assert(v.octets@ == group_octets(g));
        assert forall|i: int| 0 <= i < 8 implies #[trigger] v.octets@[2 * i] * 256 + v.octets@[2 * i
            + 1] == g[i] by {
            assert(v.octets@[2 * i] == (g[i] / 256) as u8);
            assert(v.octets@[2 * i + 1] == (g[i] % 256) as u8);
            assert(g[i] < 65536);
        }
    }
}

// ── Values ────────────────────────────────────────────────────────────────────

/// An address with a port has these, and neither flow information nor a scope; the named
/// addresses are the well-known ones; addresses are the same where all of them is.
pub proof fn law_addresses_are_made(
    ip: IpAddr,
    port: u16,
    s: SocketAddr,
    p: u16,
    any: Ipv4Addr,
    own: Ipv4Addr,
    a: &SocketAddr,
    b: &SocketAddr,
    same: bool,
    x: &IpAddr,
    y: &IpAddr,
    equal: bool,
)
    requires
        call_ensures(SocketAddr::new, (ip, port), s),
        call_ensures(SocketAddr::port, (&s,), p),
        call_ensures(Ipv4Addr::unspecified, (), any),
        call_ensures(Ipv4Addr::localhost, (), own),
        call_ensures(same_socket, (a, b), same),
        call_ensures(same_ip, (x, y), equal),
    ensures
        s@.ip == ip@ && s@.port == port && s@.flowinfo == 0 && s@.scope_id == 0,
        p == port,
        any.octets@ == seq![0u8, 0u8, 0u8, 0u8],
        own.octets@ == seq![127u8, 0u8, 0u8, 1u8],
        same <==> a@.ip == b@.ip && a.port == b.port && a.flowinfo == b.flowinfo && a.scope_id
            == b.scope_id,
        equal ==> x@ == y@,
        x@ == y@ ==> equal,
{
}

// ── How IPv6 addresses are written ────────────────────────────────────────────

/// Numbers in lower case hexadecimal, with colons between them.
pub open spec fn with_colons(g: Seq<nat>) -> Seq<char>
    decreases g.len(),
{
    if g.len() == 0 {
        Seq::empty()
    } else if g.len() == 1 {
        hex_text(g[0])
    } else {
        hex_text(g[0]) + seq![':'] + with_colons(g.skip(1))
    }
}

proof fn lemma_with_colons(g: Seq<nat>)
    ensures
        groups_text(g) == with_colons(g),
    decreases g.len(),
{
    let p = Seq::new(g.len(), |i: int| hex_text(g[i]));
    if g.len() > 1 {
        lemma_with_colons(g.skip(1));
        let t = g.skip(1);
        assert(p.skip(1) =~= Seq::new(t.len(), |i: int| hex_text(t[i])));
    }
}

/// Whether groups are zero, from one up to another.
pub open spec fn zero_run(g: Seq<nat>, a: int, n: int) -> bool {
    0 <= a && 0 <= n && a + n <= g.len() && forall|i: int| a <= i < a + n ==> #[trigger] g[i] == 0
}

proof fn lemma_zeros_at(g: Seq<nat>, a: int, n: int)
    requires
        zero_run(g, a, n),
    ensures
        zeros_from(g, a) >= n,
        a + n == g.len() || g[a + n] != 0 ==> zeros_from(g, a) == n,
    decreases n,
{
    if n > 0 {
        assert(g[a] == 0);
        lemma_zeros_at(g, a + 1, n - 1);
    }
}

proof fn lemma_zeros_are_a_run(g: Seq<nat>, a: int)
    requires
        0 <= a <= g.len(),
    ensures
        zero_run(g, a, zeros_from(g, a) as int),
    decreases g.len() - a,
{
    if a < g.len() && g[a] == 0 {
        lemma_zeros_are_a_run(g, a + 1);
    }
}

proof fn lemma_longest_is_longest(g: Seq<nat>, n: nat)
    requires
        0 < n <= g.len(),
    ensures
        0 <= longest_zeros(g, n) < n,
        forall|c: int|
            0 <= c < n ==> #[trigger] zeros_from(g, c) <= zeros_from(g, longest_zeros(g, n)),
        forall|c: int|
            0 <= c < longest_zeros(g, n) ==> #[trigger] zeros_from(g, c) < zeros_from(
                g,
                longest_zeros(g, n),
            ),
    decreases n,
{
    reveal_with_fuel(longest_zeros, 2);
    if n > 1 {
        lemma_longest_is_longest(g, (n - 1) as nat);
    }
}

/// An IPv6 address is written as its eight groups, in lower case hexadecimal with colons
/// between them. Where two or more zero groups follow each other, a double colon stands
/// for the longest such run, and for the first of several. Only an address that maps an
/// IPv4 address is written as `::ffff:` and that address.
pub proof fn law_ipv6_texts(a: IpAddr, o: Seq<u8>, text: String, at: int, n: int)
    requires
        call_ensures(IpAddr::to_text, (&a,), text),
        a@ == Ip::V6(o),
        o.len() == 16,
    ensures
        ({
            let g = Seq::new(8, |i: int| (o[2 * i] * 256 + o[2 * i + 1]) as nat);
            let mapped = (forall|i: int| 0 <= i < 10 ==> #[trigger] o[i] == 0) && o[10] == 255
                && o[11] == 255;
            &&& mapped ==> text@ == seq![':', ':', 'f', 'f', 'f', 'f', ':'] + dec_text(
                o[12] as nat,
            ) + seq!['.'] + dec_text(o[13] as nat) + seq!['.'] + dec_text(o[14] as nat) + seq!['.']
                + dec_text(o[15] as nat)
            &&& !mapped && (forall|i: int| 0 <= i < 7 ==> !zero_run(g, i, 2)) ==> text@
                == with_colons(g)
            &&& !mapped && n >= 2 && zero_run(g, at, n) && (forall|b: int, m: int|
                zero_run(g, b, m) ==> m <= n) && (forall|b: int|
                0 <= b < at ==> !(#[trigger] zero_run(g, b, n))) ==> text@ == with_colons(
                g.take(at),
            ) + seq![':', ':'] + with_colons(g.skip(at + n))
        }),
{
    reveal_strlit("::ffff:");
    reveal_strlit("::");
    assert("::"@ =~= seq![':', ':']);
    let g = groups(o);
    assert(g =~= Seq::new(8, |i: int| (o[2 * i] * 256 + o[2 * i + 1]) as nat));
    let l = longest_zeros(g, 8);
    let z = zeros_from(g, l) as int;
    lemma_longest_is_longest(g, 8);
    lemma_zeros_are_a_run(g, l);
    lemma_with_colons(g);
    if is_v4_mapped(o) {
        let q = o.skip(12);
        assert(q[0] == o[12] && q[1] == o[13] && q[2] == o[14] && q[3] == o[15]);
        lemma_four(v4_pieces(q));
        assert(text@ =~= seq![':', ':', 'f', 'f', 'f', 'f', ':'] + dec_text(o[12] as nat) + seq![
            '.',
        ] + dec_text(o[13] as nat) + seq!['.'] + dec_text(o[14] as nat) + seq!['.'] + dec_text(
            o[15] as nat,
        ));
    } else {
        assert(!((forall|i: int| 0 <= i < 10 ==> #[trigger] o[i] == 0) && o[10] == 255 && o[11]
            == 255));
        if forall|i: int| 0 <= i < 7 ==> !zero_run(g, i, 2) {
            if z >= 2 {
                assert(zero_run(g, l, 2)) by {
                    assert forall|i: int| l <= i < l + 2 implies #[trigger] g[i] == 0 by {}
                }
            }
        }
        if n >= 2 && zero_run(g, at, n) && (forall|b: int, m: int|
            zero_run(g, b, m) ==> m <= n) && (forall|b: int|
            0 <= b < at ==> !(#[trigger] zero_run(g, b, n))) {
            lemma_zeros_at(g, at, n);
            assert(zero_run(g, l, z));
            assert(z <= n);
            assert(zeros_from(g, at) <= z);
            lemma_zeros_are_a_run(g, at);
            assert(z == n);
            if l < at {
                assert(zero_run(g, l, n));
            } else if at < l {
                assert(zeros_from(g, at) < z);
            }
            lemma_with_colons(g.take(at));
            lemma_with_colons(g.skip(at + n));
        }
    }
}

/// The scope of an address, where it has one, stands behind it and a percent sign.
pub proof fn law_scopes_are_written(a: &SocketAddr, text: String, ip: String)
    requires
        call_ensures(SocketAddr::to_text, (a,), text),
        call_ensures(IpAddr::to_text, (&a.ip,), ip),
        a.ip is V6,
        a.scope_id != 0,
    ensures
        text@ == seq!['['] + ip@ + seq!['%'] + dec_text(a.scope_id as nat) + seq![']', ':']
            + dec_text(a.port as nat),
{
    reveal_strlit("%");
    reveal_strlit("[");
    reveal_strlit("]:");
    assert(a@.scope_id == a.scope_id && a@.port == a.port);
    assert(text@ =~= seq!['['] + ip@ + seq!['%'] + dec_text(a.scope_id as nat) + seq![']', ':']
        + dec_text(a.port as nat));
}

// ── How IPv6 addresses are read ───────────────────────────────────────────────

/// The number that a hexadecimal digit stands for.
pub open spec fn digit_number(c: char) -> nat {
    if '0' <= c <= '9' {
        (c as u32 - 48) as nat
    } else if 'a' <= c <= 'f' {
        (c as u32 - 97 + 10) as nat
    } else {
        (c as u32 - 65 + 10) as nat
    }
}

/// The number that hexadecimal digits stand for, the last for the ones.
pub open spec fn number_of(s: Seq<char>) -> nat
    decreases s.len(),
{
    if s.len() == 0 {
        0
    } else {
        number_of(s.drop_last()) * 16 + digit_number(s.last())
    }
}

/// Whether a text is a group: one to four hexadecimal digits of either case.
pub open spec fn is_group_text(s: Seq<char>) -> bool {
    1 <= s.len() <= 4 && forall|i: int|
        0 <= i < s.len() ==> ('0' <= #[trigger] s[i] <= '9' || 'a' <= s[i] <= 'f' || 'A' <= s[i]
            <= 'F')
}

/// Whether pieces write groups: one each, but for the last, which may be an IPv4 address
/// where that is asked, and then writes two.
pub open spec fn write_groups(p: Seq<Seq<char>>, g: Seq<nat>, dotted: bool) -> bool {
    ||| {
        &&& p.len() == g.len()
        &&& forall|i: int|
            0 <= i < p.len() ==> is_group_text(#[trigger] p[i]) && g[i] == number_of(p[i])
    }
    ||| {
        &&& dotted
        &&& p.len() > 0
        &&& g.len() == p.len() + 1
        &&& forall|i: int|
            0 <= i < p.len() - 1 ==> is_group_text(#[trigger] p[i]) && g[i] == number_of(p[i])
        &&& exists|o: Seq<u8>| #[trigger]
            v4_text(o) == p.last() && o.len() == 4 && g[g.len() - 2] == o[0] * 256 + o[1]
                && g[g.len() - 1] == o[2] * 256 + o[3]
    }
}

proof fn lemma_number_of(s: Seq<char>)
    requires
        forall|i: int|
            0 <= i < s.len() ==> ('0' <= #[trigger] s[i] <= '9' || 'a' <= s[i] <= 'f' || 'A' <= s[i]
                <= 'F'),
    ensures
        hex_value(s) == number_of(s),
    decreases s.len(),
{
    if s.len() > 0 {
        let t = s.drop_last();
        assert forall|i: int| 0 <= i < t.len() implies ('0' <= #[trigger] t[i] <= '9' || 'a' <= t[i]
            <= 'f' || 'A' <= t[i] <= 'F') by {
            assert(t[i] == s[i]);
        }
        lemma_number_of(t);
        assert(s.last() == s[s.len() - 1]);
    }
}

proof fn lemma_group_text(s: Seq<char>)
    ensures
        is_group(s) <==> is_group_text(s),
        is_group(s) ==> hex_value(s) == number_of(s) && number_of(s) < 65536 && !s.contains(':')
            && !s.contains('.'),
{
    if is_group(s) {
        assert forall|i: int| 0 <= i < s.len() implies ('0' <= #[trigger] s[i] <= '9' || 'a' <= s[i]
            <= 'f' || 'A' <= s[i] <= 'F') by {
            assert(is_hex_digit(s[i]));
        }
        lemma_number_of(s);
        reveal_with_fuel(number_of, 5);
    }
    if is_group_text(s) {
        assert forall|i: int| 0 <= i < s.len() implies is_hex_digit(#[trigger] s[i]) by {}
    }
}

/// What pieces write is what they are read as, and pieces that are read write it.
proof fn lemma_write_groups(p: Seq<Seq<char>>, g: Seq<nat>, dotted: bool)
    requires
        write_groups(p, g, dotted),
    ensures
        parse_groups(join(p, ':'), dotted) == Some(g),
        forall|i: int| 0 <= i < p.len() ==> (#[trigger] p[i]).len() > 0 && !p[i].contains(':'),
{
    let s = join(p, ':');
    if p.len() == g.len() && (forall|i: int|
        0 <= i < p.len() ==> is_group_text(#[trigger] p[i]) && g[i] == number_of(p[i])) {
        assert forall|i: int| 0 <= i < p.len() implies is_group(#[trigger] p[i]) && p[i].len() > 0
            && !p[i].contains(':') && hex_value(p[i]) == g[i] by {
            lemma_group_text(p[i]);
        }
        if p.len() > 0 {
            lemma_split_join(p, ':');
            lemma_join_no_double(p, ':');
            assert(group_values(p) =~= g);
        } else {
            assert(g =~= Seq::<nat>::empty());
        }
    } else {
        let o = choose|o: Seq<u8>| #[trigger]
            v4_text(o) == p.last() && o.len() == 4 && g[g.len() - 2] == o[0] * 256 + o[1]
                && g[g.len() - 1] == o[2] * 256 + o[3];
        law_v4_round_trip(o);
        lemma_v4_chars(v4_text(o));
        let last = p.last();
        lemma_octet(o[0]);
        lemma_four(v4_pieces(o));
        assert(last.len() > 0);
        assert(!last.contains(':')) by {
            if last.contains(':') {
                let k = choose|k: int| 0 <= k < last.len() && last[k] == ':';
                assert(v4_char(last[k]));
            }
        }
        assert(last.contains('.')) by {
            assert(last[dec_text(o[0] as nat).len() as int] == '.');
        }
        assert forall|i: int| 0 <= i < p.len() implies (#[trigger] p[i]).len() > 0
            && !p[i].contains(':') by {
            if i < p.len() - 1 {
                lemma_group_text(p[i]);
            }
        }
        lemma_split_join(p, ':');
        lemma_join_no_double(p, ':');
        let q = p.drop_last();
        assert forall|i: int| 0 <= i < q.len() implies is_group(#[trigger] q[i]) && hex_value(q[i])
            == g[i] by {
            assert(q[i] == p[i]);
            lemma_group_text(p[i]);
        }
        assert(!all_groups(p)) by {
            lemma_group_text(last);
            assert(p[p.len() - 1] == last);
        }
        assert(group_values(q) + seq![be16(o[0], o[1]), be16(o[2], o[3])] =~= g);
    }
}

proof fn lemma_groups_are_written(s: Seq<char>, dotted: bool) -> (p: Seq<Seq<char>>)
    requires
        parse_groups(s, dotted) is Some,
    ensures
        s == join(p, ':'),
        write_groups(p, parse_groups(s, dotted)->0, dotted),
{
    let g = parse_groups(s, dotted)->0;
    let p = split(s, ':');
    lemma_join_of_split(s, ':');
    if s.len() == 0 {
        assert(join(Seq::<Seq<char>>::empty(), ':') =~= s);
        assert(g =~= Seq::<nat>::empty());
        Seq::empty()
    } else if all_groups(p) {
        assert forall|i: int| 0 <= i < p.len() implies is_group_text(#[trigger] p[i]) && g[i]
            == number_of(p[i]) by {
            assert(is_group(p[i]));
            lemma_group_text(p[i]);
        }
        p
    } else {
        let q = p.drop_last();
        let o = parse_v4(p.last())->0;
        lemma_split_first(s, ':');
        assert forall|i: int| 0 <= i < p.len() - 1 implies is_group_text(#[trigger] p[i]) && g[i]
            == number_of(p[i]) by {
            assert(q[i] == p[i]);
            assert(is_group(q[i]));
            lemma_group_text(p[i]);
        }
        let d = split(p.last(), '.');
        lemma_join_of_split(p.last(), '.');
        lemma_octet_text(d[0]);
        lemma_octet_text(d[1]);
        lemma_octet_text(d[2]);
        lemma_octet_text(d[3]);
        assert(d =~= v4_pieces(o));
        assert(v4_text(o) == p.last());
        p
    }
}

/// A text of eight groups with colons between them, of which an IPv4 address at the end
/// may stand for two, is read as the address that has these groups.
pub proof fn law_groups_are_read(
    s: &[char],
    p: Seq<Seq<char>>,
    g: Seq<nat>,
    r: Option<Ipv6Addr>,
    i: int,
)
    requires
        call_ensures(read_v6, (s,), r),
        write_groups(p, g, true),
        g.len() == 8,
        s@ == join(p, ':'),
        0 <= i < 8,
    ensures
        r is Some,
        r->0.octets@[2 * i] * 256 + r->0.octets@[2 * i + 1] == g[i],
{
    lemma_write_groups(p, g, true);
    lemma_join_no_double(p, ':');
    lemma_no_double_colon(s@, 0);
    let a = r->0;
    lemma_group_bounds(p, g, true);
    assert(a.octets@[2 * i] == (g[i] / 256) as u8);
    assert(a.octets@[2 * i + 1] == (g[i] % 256) as u8);
}

proof fn lemma_group_bounds(p: Seq<Seq<char>>, g: Seq<nat>, dotted: bool)
    requires
        write_groups(p, g, dotted),
    ensures
        forall|i: int| 0 <= i < g.len() ==> #[trigger] g[i] < 65536,
{
    assert forall|i: int| 0 <= i < g.len() implies #[trigger] g[i] < 65536 by {
        if i < p.len() {
            lemma_group_text(p[i]);
        }
        if p.len() != g.len() {
            let o = choose|o: Seq<u8>| #[trigger]
                v4_text(o) == p.last() && o.len() == 4 && g[g.len() - 2] == o[0] * 256 + o[1]
                    && g[g.len() - 1] == o[2] * 256 + o[3];
            assert(g[g.len() - 2] == o[0] * 256 + o[1]);
        }
    }
}

/// A double colon between groups stands for one zero group or more, as many as are
/// missing.
pub proof fn law_shortened_groups_are_read(
    s: &[char],
    p: Seq<Seq<char>>,
    h: Seq<nat>,
    q: Seq<Seq<char>>,
    t: Seq<nat>,
    r: Option<Ipv6Addr>,
    i: int,
)
    requires
        call_ensures(read_v6, (s,), r),
        write_groups(p, h, false),
        write_groups(q, t, true),
        s@ == join(p, ':') + seq![':', ':'] + join(q, ':'),
        0 <= i < 8,
    ensures
        r is Some <==> h.len() + t.len() <= 7,
        r is Some ==> r->0.octets@[2 * i] * 256 + r->0.octets@[2 * i + 1] == if i < h.len() {
            h[i]
        } else if i < 8 - t.len() {
            0
        } else {
            t[i - (8 - t.len())]
        },
{
    lemma_write_groups(p, h, false);
    lemma_write_groups(q, t, true);
    lemma_group_bounds(p, h, false);
    lemma_group_bounds(q, t, true);
    lemma_join_no_double(p, ':');
    let a = join(p, ':');
    let b = join(q, ':');
    let n = a.len() as int;
    assert forall|j: int| 0 <= j < n implies !(#[trigger] s@[j] == ':' && s@[j + 1] == ':') by {
        assert(s@[j] == a[j]);
        if j + 1 < n {
            assert(s@[j + 1] == a[j + 1]);
        } else {
            assert(a[j] == a.last());
            if p.len() == 0 {
                assert(a.len() == 0);
            }
        }
    }
    lemma_double_colon_at(s@, 0, n);
    assert(s@.take(n) =~= a);
    assert(s@.skip(n + 2) =~= b);
    if let Some(v) = r {
        let g = h + Seq::new((8 - h.len() - t.len()) as nat, |k: int| 0nat) + t;
        assert(v.octets@ == group_octets(g));
        assert(v.octets@[2 * i] == (g[i] / 256) as u8);
        assert(v.octets@[2 * i + 1] == (g[i] % 256) as u8);
        assert(g[i] < 65536);
    }
}

/// No other text is read as an IPv6 address.
pub proof fn law_only_groups_are_ipv6(s: &[char], r: Option<Ipv6Addr>)
    requires
        call_ensures(read_v6, (s,), r),
        r is Some,
    ensures
        (exists|p: Seq<Seq<char>>, g: Seq<nat>| #[trigger]
            write_groups(p, g, true) && g.len() == 8 && s@ == join(p, ':')) || (exists|
            p: Seq<Seq<char>>,
            h: Seq<nat>,
            q: Seq<Seq<char>>,
            t: Seq<nat>,
        |
            #[trigger] write_groups(p, h, false) && #[trigger] write_groups(q, t, true) && s@
                == join(p, ':') + seq![':', ':'] + join(q, ':')),
{
    match double_colon(s@, 0) {
        Some(i) => {
            lemma_double_colon_found(s@, 0);
            let a = s@.take(i);
            let b = s@.skip(i + 2);
            let p = lemma_groups_are_written(a, false);
            let q = lemma_groups_are_written(b, true);
            assert(s@ =~= join(p, ':') + seq![':', ':'] + join(q, ':'));
            assert(write_groups(p, parse_groups(a, false)->0, false));
            assert(write_groups(q, parse_groups(b, true)->0, true));
        },
        None => {
            let p = lemma_groups_are_written(s@, true);
            assert(write_groups(p, parse_groups(s@, true)->0, true));
        },
    }
}

proof fn lemma_double_colon_found(s: Seq<char>, from: int)
    requires
        0 <= from,
    ensures
        double_colon(s, from) matches Some(i) ==> from <= i && i + 1 < s.len() && s[i] == ':' && s[i
            + 1] == ':',
    decreases s.len() - from,
{
    if from + 1 < s.len() && !(s[from] == ':' && s[from + 1] == ':') {
        lemma_double_colon_found(s, from + 1);
    }
}

// ── How addresses with ports are read ─────────────────────────────────────────

/// An address is an IPv4 address where it reads as one, and else an IPv6 address where
/// it reads as one.
pub proof fn law_either_family_is_read(
    s: &[char],
    v4: Option<Ipv4Addr>,
    v6: Option<Ipv6Addr>,
    r: Option<IpAddr>,
)
    requires
        call_ensures(read_v4, (s,), v4),
        call_ensures(read_v6, (s,), v6),
        call_ensures(read_ip, (s,), r),
    ensures
        v4 matches Some(a) ==> (r matches Some(IpAddr::V4(b)) && b.octets@ == a.octets@),
        v4 is None ==> (v6 matches Some(a) ==> (r matches Some(IpAddr::V6(b)) && b.octets@
            == a.octets@)),
        v4 is None && v6 is None ==> r is None,
{
    if let Some(x) = r {
        match x {
            IpAddr::V4(_) => {},
            IpAddr::V6(_) => {},
        }
    }
}

/// An IPv4 address with a port is the address, a colon and the port in digits; no other
/// text that does not begin with a bracket is an address with a port.
pub proof fn law_ipv4_sockets_are_read(
    s: &[char],
    a: &[char],
    d: &[char],
    v4: Option<Ipv4Addr>,
    p: Option<u32>,
    r: Option<SocketAddr>,
)
    requires
        call_ensures(read_socket, (s,), r),
        call_ensures(read_v4, (a,), v4),
        call_ensures(parse_plain, (d, 65535), p),
        s@ == a@ + seq![':'] + d@ || s@ == d@,
        !d@.contains(':'),
        s@.len() > 0 ==> s@[0] != '[',
    ensures
        s@ == d@ ==> r is None,
        s@ != d@ ==> (r is Some <==> v4 is Some && p is Some),
        s@ != d@ && r is Some ==> r->0.ip@ == Ip::V4(v4->0.octets@) && r->0.port == p->0
            && r->0.flowinfo == 0 && r->0.scope_id == 0,
{
    lemma_rfind_to(s@, ':', s@.len() as int);
    lemma_rfind_to(s@, ']', s@.len() as int);
    if s@ == d@ {
        if rfind(s@, ':') is Some {
            assert(d@.contains(d@[rfind(s@, ':')->0]));
        }
    } else {
        let k = a@.len() as int;
        assert(s@[k] == ':');
        assert forall|j: int| k < j < s@.len() implies s@[j] != ':' by {
            assert(s@[j] == d@[j - k - 1]);
            assert(d@.contains(d@[j - k - 1]));
        }
        lemma_rfind_at(s@, ':', k);
        assert(s@.take(k) =~= a@);
        assert(s@.skip(k + 1) =~= d@);
    }
    if let Some(x) = r {
        assert(x@.port == x.port && x@.flowinfo == x.flowinfo && x@.scope_id == x.scope_id);
    }
}

/// An IPv6 address with a port is the address in brackets, with its scope in digits
/// behind a percent sign where it has one, a colon and the port in digits; no other text
/// that begins with a bracket is an address with a port.
pub proof fn law_ipv6_sockets_are_read(
    s: &[char],
    a: &[char],
    scope: &[char],
    rest: Seq<char>,
    d: &[char],
    v6: Option<Ipv6Addr>,
    n: Option<u32>,
    p: Option<u32>,
    r: Option<SocketAddr>,
)
    requires
        call_ensures(read_socket, (s,), r),
        call_ensures(read_v6, (a,), v6),
        call_ensures(parse_plain, (scope, 0xFFFF_FFFF), n),
        call_ensures(parse_plain, (d, 65535), p),
        !a@.contains('%'),
        s@ == seq!['['] + a@ + seq![']'] + rest || s@ == seq!['['] + a@ + seq!['%'] + scope@ + seq![
            ']',
        ] + rest,
        !rest.contains(']'),
        rest.len() > 0 && rest[0] == ':' ==> rest == seq![':'] + d@,
    ensures
        !(rest.len() > 0 && rest[0] == ':') ==> r is None,
        rest.len() > 0 && rest[0] == ':' && s@ == seq!['['] + a@ + seq![']'] + rest ==> {
            &&& r is Some <==> v6 is Some && p is Some
            &&& r is Some ==> r->0.ip@ == Ip::V6(v6->0.octets@) && r->0.port == p->0
                && r->0.scope_id == 0 && r->0.flowinfo == 0
        },
        rest.len() > 0 && rest[0] == ':' && s@ == seq!['['] + a@ + seq!['%'] + scope@ + seq![']']
            + rest ==> {
            &&& r is Some <==> v6 is Some && n is Some && p is Some
            &&& r is Some ==> r->0.ip@ == Ip::V6(v6->0.octets@) && r->0.port == p->0
                && r->0.scope_id == n->0 && r->0.flowinfo == 0
        },
{
    let t = s@;
    lemma_bracket_is_no_ipv4(t);
    let bare = t == seq!['['] + a@ + seq![']'] + rest;
    let inner = if bare {
        a@
    } else {
        a@ + seq!['%'] + scope@
    };
    assert(t =~= seq!['['] + inner + seq![']'] + rest);
    let k = inner.len() as int + 1;
    assert(t[k] == ']');
    assert forall|j: int| k < j < t.len() implies t[j] != ']' by {
        assert(t[j] == rest[j - k - 1]);
        assert(rest.contains(rest[j - k - 1]));
    }
    lemma_rfind_at(t, ']', k);
    assert(t.subrange(1, k) =~= inner);
    if rest.len() > 0 {
        assert(t[k + 1] == rest[0]);
    }
    if rest.len() > 0 && rest[0] == ':' {
        assert(t.skip(k + 2) =~= d@);
        if bare {
            lemma_find_none(inner, '%');
        } else {
            let i = a@.len() as int;
            assert(inner[i] == '%');
            assert forall|j: int| 0 <= j < i implies inner[j] != '%' by {
                assert(inner[j] == a@[j]);
                assert(a@.contains(a@[j]));
            }
            lemma_find_from_is(inner, '%', 0, i);
            assert(inner.take(i) =~= a@);
            assert(inner.skip(i + 1) =~= scope@);
        }
    }
    if let Some(x) = r {
        assert(x@.port == x.port && x@.flowinfo == x.flowinfo && x@.scope_id == x.scope_id);
    }
    if bare && t == seq!['['] + a@ + seq!['%'] + scope@ + seq![']'] + rest {
        assert(t.len() == 2 + a@.len() + rest.len());
    }
}

/// A text that begins with a bracket that is never closed is no address with a port.
pub proof fn law_unclosed_brackets_are_refused(s: &[char], r: Option<SocketAddr>)
    requires
        call_ensures(read_socket, (s,), r),
        s@.len() > 0,
        s@[0] == '[',
        !s@.contains(']'),
    ensures
        r is None,
{
    lemma_bracket_is_no_ipv4(s@);
    lemma_rfind_to(s@, ']', s@.len() as int);
    if rfind(s@, ']') is Some {
        assert(s@.contains(s@[rfind(s@, ']')->0]));
    }
}

proof fn lemma_bracket_is_no_ipv4(s: Seq<char>)
    requires
        s.len() > 0,
        s[0] == '[',
    ensures
        parse_socket_v4(s) is None,
{
    lemma_rfind_to(s, ':', s.len() as int);
    if let Some(i) = rfind(s, ':') {
        let a = s.take(i);
        if parse_v4(a) is Some {
            lemma_v4_chars(a);
            if i > 0 {
                assert(v4_char(a[0]));
            } else {
                assert(s[0] == ':');
            }
        }
    }
}

} // verus!
