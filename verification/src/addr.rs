//! Internet addresses: what they hold, how they are written and how they are
//! read.
use vstd::prelude::*;
use vstd::slice::slice_subrange;
use crate::bytes::{be16, same_bytes, u16_from_be};
use crate::text::{
    all_digits, all_hex, chars_of, dec_text, dec_value, decimal, extend, find, find_char, hex_digit,
    hex_text, hex_value, hexadecimal, join, parse_plain, plain_dec, rfind, rfind_char, split,
    split_ranges, string_of,
};

verus! {

/// An IPv4 address.
#[derive(Clone, Copy, Debug, PartialEq, Eq)]
pub struct Ipv4Addr {
    pub octets: [u8; 4],
}

/// An IPv6 address.
#[derive(Clone, Copy, Debug, PartialEq, Eq)]
pub struct Ipv6Addr {
    pub octets: [u8; 16],
}

/// An address of either family.
#[derive(Clone, Copy, Debug, PartialEq, Eq)]
pub enum IpAddr {
    V4(Ipv4Addr),
    V6(Ipv6Addr),
}

/// An address and a port; of an IPv6 address also its flow information and the
/// scope that it is meant in, which are 0 for an IPv4 address.
#[derive(Clone, Copy, Debug, PartialEq, Eq)]
pub struct SocketAddr {
    pub ip: IpAddr,
    pub port: u16,
    pub flowinfo: u32,
    pub scope_id: u32,
}

/// The octets of an address, by family.
pub ghost enum Ip {
    V4(Seq<u8>),
    V6(Seq<u8>),
}

/// The octets of an address with a port, flow information and a scope.
pub ghost struct Endpoint {
    pub ip: Ip,
    pub port: nat,
    pub flowinfo: nat,
    pub scope_id: nat,
}

/// An address with a port, without flow information or a scope.
pub open spec fn endpoint(ip: Ip, port: nat) -> Endpoint {
    Endpoint { ip, port, flowinfo: 0, scope_id: 0 }
}

impl View for IpAddr {
    type V = Ip;

    open spec fn view(&self) -> Ip {
        match self {
            IpAddr::V4(a) => Ip::V4(a.octets@),
            IpAddr::V6(a) => Ip::V6(a.octets@),
        }
    }
}

impl View for SocketAddr {
    type V = Endpoint;

    open spec fn view(&self) -> Endpoint {
        Endpoint {
            ip: self.ip@,
            port: self.port as nat,
            flowinfo: self.flowinfo as nat,
            scope_id: self.scope_id as nat,
        }
    }
}

// ── Writing ───────────────────────────────────────────────────────────────────

/// Dotted decimal text of four octets.
pub open spec fn v4_text(o: Seq<u8>) -> Seq<char> {
    join(seq![dec_text(o[0] as nat), dec_text(o[1] as nat), dec_text(o[2] as nat), dec_text(
        o[3] as nat,
    )], '.')
}

/// The eight 16-bit groups of sixteen octets.
pub open spec fn groups(o: Seq<u8>) -> Seq<nat> {
    Seq::new(8, |i: int| be16(o[2 * i], o[2 * i + 1]))
}

/// The sixteen octets of eight groups.
pub open spec fn group_octets(g: Seq<nat>) -> Seq<u8> {
    Seq::new(
        16,
        |i: int|
            if i % 2 == 0 {
                (g[i / 2] / 256) as u8
            } else {
                (g[i / 2] % 256) as u8
            },
    )
}

/// Groups in hexadecimal, with colons between them.
pub open spec fn groups_text(g: Seq<nat>) -> Seq<char> {
    join(Seq::new(g.len(), |i: int| hex_text(g[i])), ':')
}

/// How many groups from `i` on are zero, up to the first that is not.
pub open spec fn zeros_from(g: Seq<nat>, i: int) -> nat
    decreases g.len() - i,
{
    if 0 <= i < g.len() && g[i] == 0 {
        1 + zeros_from(g, i + 1)
    } else {
        0
    }
}

/// Where, among the first `n` positions, the longest run of zero groups starts;
/// the earliest such position.
pub open spec fn longest_zeros(g: Seq<nat>, n: nat) -> int
    decreases n,
{
    if n == 0 {
        0
    } else {
        let b = longest_zeros(g, (n - 1) as nat);
        if zeros_from(g, n - 1) > zeros_from(g, b) {
            n - 1
        } else {
            b
        }
    }
}

/// Whether the octets are an IPv4-mapped IPv6 address.
pub open spec fn is_v4_mapped(o: Seq<u8>) -> bool {
    &&& forall|i: int| 0 <= i < 10 ==> o[i] == 0
    &&& o[10] == 255
    &&& o[11] == 255
}

/// Text of sixteen octets: an IPv4-mapped address keeps its dotted part; in any
/// other the first of the longest runs of two or more zero groups is left out.
pub open spec fn v6_text(o: Seq<u8>) -> Seq<char> {
    if is_v4_mapped(o) {
        "::ffff:"@ + v4_text(o.skip(12))
    } else {
        let g = groups(o);
        let a = longest_zeros(g, 8);
        let n = zeros_from(g, a);
        if n > 1 {
            groups_text(g.take(a)) + "::"@ + groups_text(g.skip(a + n))
        } else {
            groups_text(g)
        }
    }
}

impl Ipv4Addr {
    /// `0.0.0.0`.
    pub fn unspecified() -> (r: Self)
        ensures
            r.octets@ == seq![0u8, 0u8, 0u8, 0u8],
    {
        let r = Ipv4Addr { octets: [0, 0, 0, 0] };
        assert(r.octets@ == seq![0u8, 0u8, 0u8, 0u8]);
        r
    }

    /// `127.0.0.1`.
    pub fn localhost() -> (r: Self)
        ensures
            r.octets@ == seq![127u8, 0u8, 0u8, 1u8],
    {
        let r = Ipv4Addr { octets: [127, 0, 0, 1] };
        assert(r.octets@ == seq![127u8, 0u8, 0u8, 1u8]);
        r
    }
}

/// The text of an address, without a port.
pub open spec fn ip_text(ip: Ip) -> Seq<char> {
    match ip {
        Ip::V4(o) => v4_text(o),
        Ip::V6(o) => v6_text(o),
    }
}

/// The text of an IPv6 address with its scope, where it has one.
pub open spec fn scoped_text(o: Seq<u8>, scope_id: nat) -> Seq<char> {
    if scope_id == 0 {
        v6_text(o)
    } else {
        v6_text(o) + "%"@ + dec_text(scope_id)
    }
}

/// The text of an address with its port. It leaves the flow information out.
pub open spec fn socket_text(a: Endpoint) -> Seq<char> {
    match a.ip {
        Ip::V4(o) => v4_text(o) + ":"@ + dec_text(a.port),
        Ip::V6(o) => "["@ + scoped_text(o, a.scope_id) + "]:"@ + dec_text(a.port),
    }
}

/// Dotted decimal text of the four octets from `from` on.
fn v4_chars(o: &[u8], from: usize) -> (r: Vec<char>)
    requires
        from + 4 <= o.len(),
    ensures
        r@ == v4_text(o@.subrange(from as int, from + 4)),
{
    let ghost q = o@.subrange(from as int, from + 4);
    let ghost p = seq![
        dec_text(q[0] as nat),
        dec_text(q[1] as nat),
        dec_text(q[2] as nat),
        dec_text(q[3] as nat),
    ];
    let mut r = decimal(o[from] as u64);
    let mut i: usize = 1;
    while i < 4
        invariant
            1 <= i <= 4,
            from + 4 <= o.len(),
            q == o@.subrange(from as int, from + 4),
            p == (seq![
                dec_text(q[0] as nat),
                dec_text(q[1] as nat),
                dec_text(q[2] as nat),
                dec_text(q[3] as nat),
            ]),
            r@ + (if i < 4 {
                seq!['.'] + join(p.skip(i as int), '.')
            } else {
                Seq::empty()
            }) == join(p, '.') || i == 1 && r@ == p[0],
            i == 4 ==> r@ == join(p, '.'),
        decreases 4 - i,
    {
        proof {
            if i == 1 {
                assert(r@ + (seq!['.'] + join(p.skip(1), '.')) == join(p, '.'));
            }
        }
        let ghost before = r@;
        let d = decimal(o[from + i] as u64);
        r.push('.');
        extend(&mut r, d.as_slice());
        assert(d@ == p[i as int]);
        assert(p.skip(i as int)[0] == p[i as int]);
        assert(p.skip(i as int).skip(1) == p.skip(i + 1));
        i += 1;
        assert(r@ == before + seq!['.'] + p[i - 1]);
        if i < 4 {
            assert(r@ + (seq!['.'] + join(p.skip(i as int), '.')) == before + (seq!['.'] + join(
                p.skip(i - 1),
                '.',
            )));
        } else {
            assert(p.skip(3).len() == 1);
            assert(r@ == before + (seq!['.'] + join(p.skip(3), '.')));
        }
    }
    r
}

/// Groups from `from` up to `to` in hexadecimal, with colons between them.
fn groups_chars(g: &[u16], from: usize, to: usize) -> (r: Vec<char>)
    requires
        from <= to <= g.len(),
    ensures
        r@ == groups_text(as_nats(g@).subrange(from as int, to as int)),
    decreases to - from,
{
    let ghost q = as_nats(g@).subrange(from as int, to as int);
    let ghost p = Seq::new(q.len(), |i: int| hex_text(q[i]));
    if from == to {
        return Vec::new();
    }
    let mut r = hexadecimal(g[from]);
    assert(r@ == p[0]);
    if from + 1 < to {
        r.push(':');
        let rest = groups_chars(g, from + 1, to);
        let ghost q1 = as_nats(g@).subrange(from + 1, to as int);
        assert(p.skip(1) == Seq::new(q1.len(), |i: int| hex_text(q1[i])));
        extend(&mut r, rest.as_slice());
        assert(r@ == p[0] + seq![':'] + join(p.skip(1), ':'));
    }
    r
}

/// Numbers as natural numbers.
pub open spec fn as_nats(g: Seq<u16>) -> Seq<nat> {
    Seq::new(g.len(), |i: int| g[i] as nat)
}

/// The groups of an address.
fn groups_of(o: &[u8; 16]) -> (r: Vec<u16>)
    ensures
        as_nats(r@) == groups(o@),
{
    let mut r: Vec<u16> = Vec::new();
    let mut i: usize = 0;
    while i < 8
        invariant
            i <= 8,
            r@.len() == i,
            forall|j: int| 0 <= j < i ==> r@[j] as nat == be16(o@[2 * j], o@[2 * j + 1]),
        decreases 8 - i,
    {
        r.push(u16_from_be(o[2 * i], o[2 * i + 1]));
        i += 1;
    }
    assert(as_nats(r@) == groups(o@));
    r
}

/// Count the zero groups from `i` on.
fn count_zeros(g: &[u16], i: usize) -> (n: usize)
    requires
        i <= g.len(),
    ensures
        n == zeros_from(as_nats(g@), i as int),
        i + n <= g.len(),
    decreases g.len() - i,
{
    if i < g.len() && g[i] == 0 {
        1 + count_zeros(g, i + 1)
    } else {
        0
    }
}

/// Text of an IPv6 address.
fn v6_chars(o: &[u8; 16]) -> (r: Vec<char>)
    ensures
        r@ == v6_text(o@),
{
    let mut zeros: usize = 0;
    while zeros < 10 && o[zeros] == 0
        invariant
            zeros <= 10,
            forall|j: int| 0 <= j < zeros ==> o@[j] == 0,
        decreases 10 - zeros,
    {
        zeros += 1;
    }
    if zeros == 10 && o[10] == 255 && o[11] == 255 {
        let mut r = chars_of("::ffff:");
        let t = v4_chars(o.as_slice(), 12);
        assert(o@.subrange(12, 16) == o@.skip(12));
        extend(&mut r, t.as_slice());
        return r;
    }
    assert(!is_v4_mapped(o@)) by {
        if zeros < 10 {
            assert(o@[zeros as int] != 0);
        }
    }
    let g = groups_of(o);
    let ghost gs = as_nats(g@);
    assert(g@.len() == gs.len());
    let mut a: usize = 0;
    let mut n: usize = count_zeros(g.as_slice(), 0);
    let mut i: usize = 1;
    assert(longest_zeros(gs, 1) == 0) by {
        reveal_with_fuel(longest_zeros, 2);
    }
    while i < 8
        invariant
            1 <= i <= 8,
            g@.len() == 8,
            gs == as_nats(g@),
            a == longest_zeros(gs, i as nat),
            n == zeros_from(gs, a as int),
            a + n <= 8,
            a < i,
        decreases 8 - i,
    {
        let m = count_zeros(g.as_slice(), i);
        if m > n {
            a = i;
            n = m;
        }
        i += 1;
    }
    if n > 1 {
        let mut r = groups_chars(g.as_slice(), 0, a);
        assert(gs.subrange(0, a as int) == gs.take(a as int));
        let sep = chars_of("::");
        extend(&mut r, sep.as_slice());
        let t = groups_chars(g.as_slice(), a + n, 8);
        assert(gs.subrange(a + n, 8) == gs.skip(a + n));
        extend(&mut r, t.as_slice());
        r
    } else {
        assert(gs.subrange(0, 8) == gs);
        groups_chars(g.as_slice(), 0, 8)
    }
}

impl IpAddr {
    /// The text of the address.
    pub fn to_text(&self) -> (r: String)
        ensures
            r@ == ip_text(self@),
    {
        match self {
            IpAddr::V4(a) => {
                let v = v4_chars(a.octets.as_slice(), 0);
                assert(a.octets@.subrange(0, 4) == a.octets@);
                string_of(v.as_slice())
            },
            IpAddr::V6(a) => {
                let v = v6_chars(&a.octets);
                string_of(v.as_slice())
            },
        }
    }
}

impl SocketAddr {
    /// An address with a port, without flow information or a scope.
    pub fn new(ip: IpAddr, port: u16) -> (r: Self)
        ensures
            r.ip == ip,
            r.port == port,
            r@ == endpoint(ip@, port as nat),
    {
        SocketAddr { ip, port, flowinfo: 0, scope_id: 0 }
    }

    /// The port.
    pub fn port(&self) -> (r: u16)
        ensures
            r == self.port,
    {
        self.port
    }

    /// The text of the address with its port.
    pub fn to_text(&self) -> (r: String)
        ensures
            r@ == socket_text(self@),
    {
        let mut v: Vec<char> = Vec::new();
        match &self.ip {
            IpAddr::V4(a) => {
                let t = v4_chars(a.octets.as_slice(), 0);
                assert(a.octets@.subrange(0, 4) == a.octets@);
                extend(&mut v, t.as_slice());
                let sep = chars_of(":");
                extend(&mut v, sep.as_slice());
            },
            IpAddr::V6(a) => {
                let open = chars_of("[");
                extend(&mut v, open.as_slice());
                let t = v6_chars(&a.octets);
                extend(&mut v, t.as_slice());
                if self.scope_id != 0 {
                    let zone = chars_of("%");
                    extend(&mut v, zone.as_slice());
                    let n = decimal(self.scope_id as u64);
                    extend(&mut v, n.as_slice());
                }
                assert(v@ == "["@ + scoped_text(a.octets@, self.scope_id as nat));
                let close = chars_of("]:");
                extend(&mut v, close.as_slice());
            },
        }
        let p = decimal(self.port as u64);
        extend(&mut v, p.as_slice());
        assert(v@ == socket_text(self@));
        string_of(v.as_slice())
    }
}

// ── Reading ───────────────────────────────────────────────────────────────────

/// Whether a text writes an octet: up to three decimal digits without a
/// needless leading zero, at most 255.
pub open spec fn is_octet(s: Seq<char>) -> bool {
    &&& 1 <= s.len() <= 3
    &&& all_digits(s)
    &&& s.len() > 1 ==> s[0] != '0'
    &&& dec_value(s) <= 255
}

/// The octets of a dotted decimal text.
pub open spec fn parse_v4(s: Seq<char>) -> Option<Seq<u8>> {
    let p = split(s, '.');
    if p.len() == 4 && is_octet(p[0]) && is_octet(p[1]) && is_octet(p[2]) && is_octet(p[3]) {
        Some(
            seq![
                dec_value(p[0]) as u8,
                dec_value(p[1]) as u8,
                dec_value(p[2]) as u8,
                dec_value(p[3]) as u8,
            ],
        )
    } else {
        None
    }
}

/// Whether a text writes a group: one to four hexadecimal digits.
pub open spec fn is_group(s: Seq<char>) -> bool {
    1 <= s.len() <= 4 && all_hex(s)
}

/// Whether every piece writes a group.
pub open spec fn all_groups(p: Seq<Seq<char>>) -> bool {
    forall|i: int| 0 <= i < p.len() ==> is_group(#[trigger] p[i])
}

/// The groups that the pieces write.
pub open spec fn group_values(p: Seq<Seq<char>>) -> Seq<nat> {
    Seq::new(p.len(), |i: int| hex_value(p[i]))
}

/// The groups of a text on one side of a double colon, or of one without it:
/// none where it is empty; the last piece may be an IPv4 address, which stands
/// for two groups, where `dotted` allows it.
pub open spec fn parse_groups(s: Seq<char>, dotted: bool) -> Option<Seq<nat>> {
    let p = split(s, ':');
    if s.len() == 0 {
        Some(Seq::empty())
    } else if all_groups(p) {
        Some(group_values(p))
    } else if dotted && all_groups(p.drop_last()) {
        match parse_v4(p.last()) {
            Some(o) => Some(group_values(p.drop_last()) + seq![be16(o[0], o[1]), be16(o[2], o[3])]),
            None => None,
        }
    } else {
        None
    }
}

/// Where the first double colon at or after `from` stands.
pub open spec fn double_colon(s: Seq<char>, from: int) -> Option<int>
    decreases s.len() - from,
{
    if from < 0 || from + 1 >= s.len() {
        None
    } else if s[from] == ':' && s[from + 1] == ':' {
        Some(from)
    } else {
        double_colon(s, from + 1)
    }
}

/// The octets of an IPv6 text. A double colon stands for one or more zero
/// groups; without it there are eight groups.
pub open spec fn parse_v6(s: Seq<char>) -> Option<Seq<u8>> {
    match double_colon(s, 0) {
        Some(i) => match (parse_groups(s.take(i), false), parse_groups(s.skip(i + 2), true)) {
            (Some(h), Some(t)) => if h.len() + t.len() <= 7 {
                Some(
                    group_octets(
                        h + Seq::new((8 - h.len() - t.len()) as nat, |k: int| 0nat) + t,
                    ),
                )
            } else {
                None
            },
            _ => None,
        },
        None => match parse_groups(s, true) {
            Some(g) => if g.len() == 8 {
                Some(group_octets(g))
            } else {
                None
            },
            None => None,
        },
    }
}

/// The address that a text writes.
pub open spec fn parse_ip(s: Seq<char>) -> Option<Ip> {
    match (parse_v4(s), parse_v6(s)) {
        (Some(o), _) => Some(Ip::V4(o)),
        (None, Some(o)) => Some(Ip::V6(o)),
        (None, None) => None,
    }
}

/// The address inside the brackets of a socket address, and the scope that may
/// follow it.
pub open spec fn parse_scoped(s: Seq<char>) -> Option<(Seq<u8>, nat)> {
    match find(s, '%') {
        Some(i) => match (parse_v6(s.take(i)), plain_dec(s.skip(i + 1), 0xFFFF_FFFF)) {
            (Some(o), Some(n)) => Some((o, n)),
            _ => None,
        },
        None => match parse_v6(s) {
            Some(o) => Some((o, 0)),
            None => None,
        },
    }
}

/// The IPv6 address, scope and port of a text of the form `[address]:port` or
/// `[address%scope]:port`.
pub open spec fn parse_socket_v6(s: Seq<char>) -> Option<(Seq<u8>, nat, nat)> {
    match rfind(s, ']') {
        Some(i) => if s[0] == '[' && i >= 1 && i + 1 < s.len() && s[i + 1] == ':' {
            match (parse_scoped(s.subrange(1, i)), plain_dec(s.skip(i + 2), 65535)) {
                (Some((o, n)), Some(p)) => Some((o, n, p)),
                _ => None,
            }
        } else {
            None
        },
        None => None,
    }
}

/// The IPv4 address and port of a text of the form `address:port`.
pub open spec fn parse_socket_v4(s: Seq<char>) -> Option<(Seq<u8>, nat)> {
    match rfind(s, ':') {
        Some(i) => match (parse_v4(s.take(i)), plain_dec(s.skip(i + 1), 65535)) {
            (Some(o), Some(p)) => Some((o, p)),
            _ => None,
        },
        None => None,
    }
}

/// The address with a port that a text writes.
pub open spec fn parse_socket(s: Seq<char>) -> Option<Endpoint> {
    match (parse_socket_v4(s), parse_socket_v6(s)) {
        (Some((o, port)), _) => Some(endpoint(Ip::V4(o), port)),
        (None, Some((o, scope_id, port))) => Some(
            Endpoint { ip: Ip::V6(o), port, flowinfo: 0, scope_id },
        ),
        (None, None) => None,
    }
}

/// Read an octet.
fn read_octet(s: &[char]) -> (r: Option<u8>)
    ensures
        match r {
            Some(v) => is_octet(s@) && v == dec_value(s@),
            None => !is_octet(s@),
        },
{
    if s.len() == 0 || s.len() > 3 || (s.len() > 1 && s[0] == '0') {
        return None;
    }
    match parse_plain(s, 255) {
        Some(n) => Some(n as u8),
        None => None,
    }
}

/// Read a dotted decimal address.
pub fn read_v4(s: &[char]) -> (r: Option<Ipv4Addr>)
    ensures
        match r {
            Some(a) => parse_v4(s@) == Some(a.octets@),
            None => parse_v4(s@) is None,
        },
{
    let p = split_ranges(s, '.');
    if p.len() != 4 {
        return None;
    }
    let a = read_octet(slice_subrange(s, p[0].0, p[0].1));
    let b = read_octet(slice_subrange(s, p[1].0, p[1].1));
    let c = read_octet(slice_subrange(s, p[2].0, p[2].1));
    let d = read_octet(slice_subrange(s, p[3].0, p[3].1));
    match (a, b, c, d) {
        (Some(a), Some(b), Some(c), Some(d)) => {
            let r = Ipv4Addr { octets: [a, b, c, d] };
            assert(r.octets@ == seq![a, b, c, d]);
            Some(r)
        },
        _ => None,
    }
}

/// Read a group.
fn read_group(s: &[char]) -> (r: Option<u16>)
    ensures
        match r {
            Some(v) => is_group(s@) && v == hex_value(s@),
            None => !is_group(s@),
        },
{
    if s.len() == 0 || s.len() > 4 {
        return None;
    }
    let mut v: u32 = 0;
    let mut i: usize = 0;
    while i < s.len()
        invariant
            i <= s.len() <= 4,
            forall|j: int| 0 <= j < i ==> crate::text::is_hex_digit(#[trigger] s@[j]),
            v == hex_value(s@.take(i as int)),
            i == 0 ==> v == 0,
            i == 1 ==> v < 16,
            i == 2 ==> v < 256,
            i == 3 ==> v < 4096,
            i == 4 ==> v < 65536,
        decreases s.len() - i,
    {
        assert(s@.take(i + 1).drop_last() == s@.take(i as int));
        match hex_digit(s[i]) {
            Some(d) => {
                v = v * 16 + d as u32;
            },
            None => {
                assert(!crate::text::is_hex_digit(s@[i as int]));
                return None;
            },
        }
        i += 1;
    }
    assert(s@.take(i as int) == s@);
    Some(v as u16)
}

/// Read groups, with a trailing IPv4 address where `dotted` allows it.
fn read_groups(s: &[char], dotted: bool) -> (r: Option<Vec<u16>>)
    ensures
        match r {
            Some(g) => parse_groups(s@, dotted) == Some(as_nats(g@)),
            None => parse_groups(s@, dotted) is None,
        },
{
    let mut g: Vec<u16> = Vec::new();
    if s.len() == 0 {
        assert(as_nats(g@) == Seq::<nat>::empty());
        return Some(g);
    }
    let p = split_ranges(s, ':');
    let ghost q = split(s@, ':');
    proof {
        crate::text::lemma_split_first(s@, ':');
    }
    let mut i: usize = 0;
    while i < p.len()
        invariant
            i <= p.len(),
            q == split(s@, ':'),
            s@.len() > 0,
            p@.len() == q.len(),
            forall|k: int|
                0 <= k < p@.len() ==> (#[trigger] p@[k]).0 <= p@[k].1 <= s.len() && s@.subrange(
                    p@[k].0 as int,
                    p@[k].1 as int,
                ) == q[k],
            g@.len() == i,
            forall|k: int| 0 <= k < i ==> is_group(#[trigger] q[k]) && g@[k] == hex_value(q[k]),
        decreases p.len() - i,
    {
        let piece = slice_subrange(s, p[i].0, p[i].1);
        match read_group(piece) {
            Some(v) => {
                g.push(v);
            },
            None => {
                assert(!is_group(q[i as int]));
                assert(!all_groups(q));
                if dotted && i + 1 == p.len() {
                    assert(all_groups(q.drop_last()));
                    match read_v4(piece) {
                        Some(a) => {
                            let ghost before = g@;
                            g.push(u16_from_be(a.octets[0], a.octets[1]));
                            g.push(u16_from_be(a.octets[2], a.octets[3]));
                            let ghost o = a.octets@;
                            assert(as_nats(g@) == group_values(q.drop_last()) + seq![
                                be16(o[0], o[1]),
                                be16(o[2], o[3]),
                            ]);
                            return Some(g);
                        },
                        None => {
                            return None;
                        },
                    }
                }
                assert(i + 1 < q.len() ==> !all_groups(q.drop_last())) by {
                    if i + 1 < q.len() {
                        assert(q.drop_last()[i as int] == q[i as int]);
                    }
                }
                return None;
            },
        }
        i += 1;
    }
    assert(as_nats(g@) == group_values(q));
    Some(g)
}

/// Find the first double colon.
fn find_double_colon(s: &[char]) -> (r: Option<usize>)
    ensures
        match r {
            Some(i) => double_colon(s@, 0) == Some(i as int) && i + 1 < s.len(),
            None => double_colon(s@, 0) is None,
        },
{
    let mut i: usize = 0;
    while i < s.len() && s.len() - i >= 2
        invariant
            i <= s.len(),
            double_colon(s@, 0) == double_colon(s@, i as int),
        decreases s.len() - i,
    {
        if s[i] == ':' && s[i + 1] == ':' {
            return Some(i);
        }
        i += 1;
    }
    None
}

/// The address that eight groups make.
fn from_groups(g: &[u16]) -> (r: Ipv6Addr)
    requires
        g.len() == 8,
    ensures
        r.octets@ == group_octets(as_nats(g@)),
{
    let mut o: [u8; 16] = [0u8;16];
    let mut i: usize = 0;
    while i < 8
        invariant
            i <= 8,
            g.len() == 8,
            forall|j: int| 0 <= j < 2 * i ==> o@[j] == group_octets(as_nats(g@))[j],
        decreases 8 - i,
    {
        o[2 * i] = (g[i] / 256) as u8;
        o[2 * i + 1] = (g[i] % 256) as u8;
        i += 1;
    }
    assert(o@ == group_octets(as_nats(g@)));
    Ipv6Addr { octets: o }
}

/// Read an IPv6 address.
pub fn read_v6(s: &[char]) -> (r: Option<Ipv6Addr>)
    ensures
        match r {
            Some(a) => parse_v6(s@) == Some(a.octets@),
            None => parse_v6(s@) is None,
        },
{
    match find_double_colon(s) {
        Some(i) => {
            let head = slice_subrange(s, 0, i);
            let tail = slice_subrange(s, i + 2, s.len());
            assert(head@ == s@.take(i as int));
            assert(tail@ == s@.skip(i + 2));
            match (read_groups(head, false), read_groups(tail, true)) {
                (Some(h), Some(t)) => {
                    if h.len() > 7 || t.len() > 7 || h.len() + t.len() > 7 {
                        return None;
                    }
                    let ghost hn = as_nats(h@);
                    let ghost tn = as_nats(t@);
                    let ghost all = hn + Seq::new(
                        (8 - hn.len() - tn.len()) as nat,
                        |k: int| 0nat,
                    ) + tn;
                    let n: usize = 8 - t.len();
                    let mut g = h;
                    while g.len() < n
                        invariant
                            hn.len() <= g@.len() <= n,
                            n == 8 - tn.len(),
                            hn.len() <= n <= 8,
                            all == hn + Seq::new(
                                (8 - hn.len() - tn.len()) as nat,
                                |k: int| 0nat,
                            ) + tn,
                            as_nats(g@) == all.take(g@.len() as int),
                        decreases n - g.len(),
                    {
                        let ghost before = g@;
                        g.push(0);
                        assert(as_nats(g@) == as_nats(before).push(0));
                        assert(all.take(g@.len() as int) == all.take(before.len() as int).push(
                            all[before.len() as int],
                        ));
                    }
                    let mut k: usize = 0;
                    while k < t.len()
                        invariant
                            k <= t.len(),
                            tn == as_nats(t@),
                            n == 8 - tn.len(),
                            hn.len() <= n <= 8,
                            g@.len() == n + k,
                            all == hn + Seq::new(
                                (8 - hn.len() - tn.len()) as nat,
                                |k: int| 0nat,
                            ) + tn,
                            as_nats(g@) == all.take(g@.len() as int),
                        decreases t.len() - k,
                    {
                        let ghost before = g@;
                        g.push(t[k]);
                        assert(as_nats(g@) == as_nats(before).push(tn[k as int]));
                        assert(all.take(g@.len() as int) == all.take(before.len() as int).push(
                            all[before.len() as int],
                        ));
                        k += 1;
                    }
                    assert(all.take(8) == all);
                    Some(from_groups(g.as_slice()))
                },
                _ => None,
            }
        },
        None => {
            match read_groups(s, true) {
                Some(g) => {
                    if g.len() == 8 {
                        Some(from_groups(g.as_slice()))
                    } else {
                        None
                    }
                },
                None => None,
            }
        },
    }
}

/// Read an address of either family.
pub fn read_ip(s: &[char]) -> (r: Option<IpAddr>)
    ensures
        match r {
            Some(a) => parse_ip(s@) == Some(a@),
            None => parse_ip(s@) is None,
        },
{
    match read_v4(s) {
        Some(a) => Some(IpAddr::V4(a)),
        None => match read_v6(s) {
            Some(a) => Some(IpAddr::V6(a)),
            None => None,
        },
    }
}

/// Read the address inside the brackets of a socket address, and its scope.
fn read_scoped(s: &[char]) -> (r: Option<(Ipv6Addr, u32)>)
    ensures
        match r {
            Some(a) => parse_scoped(s@) == Some((a.0.octets@, a.1 as nat)),
            None => parse_scoped(s@) is None,
        },
{
    match find_char(s, '%') {
        Some(i) => {
            let zone = slice_subrange(s, i + 1, s.len());
            let head = slice_subrange(s, 0, i);
            assert(zone@ == s@.skip(i + 1));
            assert(head@ == s@.take(i as int));
            match (read_v6(head), parse_plain(zone, 0xFFFF_FFFF)) {
                (Some(a), Some(n)) => Some((a, n as u32)),
                _ => None,
            }
        },
        None => match read_v6(s) {
            Some(a) => Some((a, 0)),
            None => None,
        },
    }
}

/// Read an address with a port.
pub fn read_socket(s: &[char]) -> (r: Option<SocketAddr>)
    ensures
        match r {
            Some(a) => parse_socket(s@) == Some(a@),
            None => parse_socket(s@) is None,
        },
{
    proof {
        crate::text::lemma_rfind_to(s@, ':', s@.len() as int);
        crate::text::lemma_rfind_to(s@, ']', s@.len() as int);
    }
    match rfind_char(s, ':') {
        Some(i) => {
            let host = slice_subrange(s, 0, i);
            let port = slice_subrange(s, i + 1, s.len());
            assert(host@ == s@.take(i as int));
            assert(port@ == s@.skip(i + 1));
            match (read_v4(host), parse_plain(port, 65535)) {
                (Some(a), Some(p)) => {
                    return Some(SocketAddr::new(IpAddr::V4(a), p as u16));
                },
                _ => {},
            }
        },
        None => {},
    }
    assert(parse_socket_v4(s@) is None);
    match rfind_char(s, ']') {
        Some(i) => {
            if s[0] == '[' && i >= 1 && s.len() - i >= 2 && s[i + 1] == ':' {
                let host = slice_subrange(s, 1, i);
                let port = slice_subrange(s, i + 2, s.len());
                assert(port@ == s@.skip(i + 2));
                match (read_scoped(host), parse_plain(port, 65535)) {
                    (Some((a, scope_id)), Some(p)) => Some(
                        SocketAddr { ip: IpAddr::V6(a), port: p as u16, flowinfo: 0, scope_id },
                    ),
                    _ => None,
                }
            } else {
                None
            }
        },
        None => None,
    }
}

// ── Comparison ────────────────────────────────────────────────────────────────

/// Whether two addresses are the same.
pub fn same_ip(a: &IpAddr, b: &IpAddr) -> (r: bool)
    ensures
        r == (a@ == b@),
{
    match (a, b) {
        (IpAddr::V4(x), IpAddr::V4(y)) => same_bytes(x.octets.as_slice(), y.octets.as_slice()),
        (IpAddr::V6(x), IpAddr::V6(y)) => same_bytes(x.octets.as_slice(), y.octets.as_slice()),
        _ => false,
    }
}

/// Whether two addresses are the same, with their ports, flow information and
/// scopes.
pub fn same_socket(a: &SocketAddr, b: &SocketAddr) -> (r: bool)
    ensures
        r == (a@ == b@),
{
    a.port == b.port && a.flowinfo == b.flowinfo && a.scope_id == b.scope_id && same_ip(
        &a.ip,
        &b.ip,
    )
}

} // verus!
