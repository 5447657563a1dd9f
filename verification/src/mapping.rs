//! Port-forwarding specification parser.
//!
//! Supported formats:
//!   local-tcp / local-udp:
//!     `<local-port>:<remote-ygg-addr>:<remote-port>`
//!     `<local-addr>:<local-port>:<remote-ygg-addr>:<remote-port>`
//!
//!   remote-tcp / remote-udp:
//!     `<port>`                    – same port locally and remotely
//!     `<remote-port>:<local-port>`
//!     `<remote-port>:<local-addr>:<local-port>`
use vstd::prelude::*;
use vstd::slice::slice_subrange;
use crate::addr::{
    Endpoint, Ip, IpAddr, Ipv4Addr, SocketAddr, endpoint, ip_text, parse_ip, parse_socket, parse_v6,
    read_ip, read_socket, read_v6,
};
use crate::text::{
    chars_of, contains_char, find, find_char, find_from, lemma_find_from, lemma_rfind_to, parse_dec,
    parse_u16, push_chars, push_text, rfind, rfind_char, trim_end, trimmed_end,
};

verus! {

/// A TCP port forwarding: where to listen, and where connections go.
#[derive(Debug, Clone, Copy)]
pub struct TcpMapping {
    pub listen: SocketAddr,
    pub target: SocketAddr,
}

/// A UDP port forwarding: where to listen, and where datagrams go.
#[derive(Debug, Clone, Copy)]
pub struct UdpMapping {
    pub listen: SocketAddr,
    pub target: SocketAddr,
}

// ── The grammar ───────────────────────────────────────────────────────────────

/// Whether a character is a square bracket.
pub open spec fn is_bracket(c: char) -> bool {
    c == '[' || c == ']'
}

/// The text without square brackets at its start.
pub open spec fn trim_brackets_start(s: Seq<char>) -> Seq<char>
    decreases s.len(),
{
    if s.len() > 0 && is_bracket(s[0]) {
        trim_brackets_start(s.skip(1))
    } else {
        s
    }
}

/// The text without square brackets at its end.
pub open spec fn trim_brackets_end(s: Seq<char>) -> Seq<char>
    decreases s.len(),
{
    if s.len() > 0 && is_bracket(s.last()) {
        trim_brackets_end(s.drop_last())
    } else {
        s
    }
}

/// The text without square brackets around it.
pub open spec fn trim_brackets(s: Seq<char>) -> Seq<char> {
    trim_brackets_end(trim_brackets_start(s))
}

/// The host and port of `[::1]:1234`, `1.2.3.4:1234` or `host:1234`: an address
/// is written anew, any other host stands before the last colon.
pub open spec fn host_port(s: Seq<char>) -> Option<(Seq<char>, nat)> {
    match parse_socket(s) {
        Some(a) => Some((ip_text(a.ip), a.port)),
        None => match rfind(s, ':') {
            Some(i) => match parse_dec(s.skip(i + 1), 65535) {
                Some(p) => Some((trim_brackets(s.take(i)), p)),
                None => None,
            },
            None => None,
        },
    }
}

/// What stands in front of the remote port: the remote address, and what is
/// left of it. `None` where a closing bracket has no opening one.
pub open spec fn remote_part(r: Seq<char>) -> Option<(Seq<char>, Seq<char>)> {
    if r.len() > 0 && r.last() == ']' {
        match rfind(r, '[') {
            Some(b) => Some((r.subrange(b + 1, r.len() - 1), trim_end(r.take(b), ':'))),
            None => None,
        }
    } else {
        match rfind(r, ':') {
            Some(i) => Some((r.skip(i + 1), trim_end(r.take(i), ':'))),
            None => Some((r, Seq::empty())),
        }
    }
}

/// The local side of a specification: an address, where one is given, and a
/// port, which is the remote one where nothing is given.
pub open spec fn local_part(left: Seq<char>, remote_port: nat) -> Option<
    (Option<Seq<char>>, nat),
> {
    if left.len() == 0 {
        Some((None, remote_port))
    } else {
        match host_port(left) {
            Some((h, p)) => if h.len() == 0 {
                Some((None, p))
            } else {
                Some((Some(h), p))
            },
            None => match parse_dec(left, 65535) {
                Some(p) => Some((None, p)),
                None => None,
            },
        }
    }
}

/// A text in single quotes, with a message before it.
pub open spec fn quoted(message: Seq<char>, s: Seq<char>) -> Seq<char> {
    message + "'"@ + s + "'"@
}

/// Why a local part is not accepted.
pub open spec fn bad_local_part(left: Seq<char>, s: Seq<char>) -> Seq<char> {
    quoted(quoted("invalid local spec "@, left) + " in "@, s)
}

/// A local-tcp or local-udp specification: local address, local port, remote
/// address and remote port.
pub open spec fn local_spec(s: Seq<char>) -> Result<
    (Option<Seq<char>>, nat, Seq<char>, nat),
    Seq<char>,
> {
    match rfind(s, ':') {
        None => Err(quoted("malformed mapping "@, s)),
        Some(i) => match parse_dec(s.skip(i + 1), 65535) {
            None => Err(quoted("invalid port in "@, s)),
            Some(remote_port) => match remote_part(s.take(i)) {
                None => Err(quoted("unmatched '[' in "@, s)),
                Some((remote, left)) => if remote.len() == 0 {
                    Err(quoted("missing remote address in "@, s))
                } else if !remote.contains(':') {
                    Err(
                        quoted("remote address "@, remote)
                            + " must be an IPv6 address (Yggdrasil)"@,
                    )
                } else {
                    match local_part(left, remote_port) {
                        None => Err(bad_local_part(left, s)),
                        Some((addr, port)) => Ok((addr, port, remote, remote_port)),
                    }
                },
            },
        },
    }
}

/// A remote-tcp or remote-udp specification: remote port, local address and
/// local port.
pub open spec fn remote_spec(s: Seq<char>) -> Result<(nat, Option<Seq<char>>, nat), Seq<char>> {
    match find(s, ':') {
        None => match parse_dec(s, 65535) {
            Some(p) => Ok((p, None, p)),
            None => Err(quoted("invalid port "@, s)),
        },
        Some(i) => match parse_dec(s.take(i), 65535) {
            None => Err(quoted("invalid port "@, s.take(i))),
            Some(r) => {
                let rest = s.skip(i + 1);
                match find_from(s, ':', i + 1) {
                    None => match parse_dec(rest, 65535) {
                        Some(l) => Ok((r, None, l)),
                        None => Err(quoted("invalid port "@, rest)),
                    },
                    Some(j) => match host_port(rest) {
                        Some((h, l)) => Ok((r, Some(h), l)),
                        None => Err(bad_local_part(rest, s)),
                    },
                }
            },
        },
    }
}

/// `0.0.0.0`.
pub open spec fn any_v4() -> Ip {
    Ip::V4(seq![0u8, 0u8, 0u8, 0u8])
}

/// `127.0.0.1`.
pub open spec fn loopback_v4() -> Ip {
    Ip::V4(seq![127u8, 0u8, 0u8, 1u8])
}

/// The address that a specification gives, or a default where it gives none.
pub open spec fn address_or(addr: Option<Seq<char>>, default: Ip) -> Result<Ip, Seq<char>> {
    match addr {
        None => Ok(default),
        Some(a) => match parse_ip(a) {
            Some(ip) => Ok(ip),
            None => Err(quoted("invalid address "@, a)),
        },
    }
}

/// Where a local forwarding listens, and its target.
pub open spec fn local_mapping(s: Seq<char>) -> Result<(Endpoint, Endpoint), Seq<char>> {
    match local_spec(s) {
        Err(e) => Err(e),
        Ok((addr, port, remote, remote_port)) => match address_or(addr, any_v4()) {
            Err(e) => Err(e),
            Ok(ip) => match parse_v6(remote) {
                None => Err(quoted("invalid IPv6 "@, remote)),
                Some(o) => Ok(
                    (endpoint(ip, port), endpoint(Ip::V6(o), remote_port)),
                ),
            },
        },
    }
}

/// Where a remote forwarding listens, and its target. The listening address is
/// a placeholder for the node's own.
pub open spec fn remote_mapping(s: Seq<char>) -> Result<(Endpoint, Endpoint), Seq<char>> {
    match remote_spec(s) {
        Err(e) => Err(e),
        Ok((remote_port, addr, port)) => match address_or(addr, loopback_v4()) {
            Err(e) => Err(e),
            Ok(ip) => Ok((endpoint(any_v4(), remote_port), endpoint(ip, port))),
        },
    }
}

// ── Helpers ───────────────────────────────────────────────────────────────────

/// A message with a text in single quotes.
fn quote(message: &str, s: &[char]) -> (r: String)
    ensures
        r@ == quoted(message@, s@),
{
    let mut r = String::new();
    push_text(&mut r, message);
    push_text(&mut r, "'");
    push_chars(&mut r, s);
    push_text(&mut r, "'");
    assert(r@ == quoted(message@, s@));
    r
}

fn bad_local(left: &[char], s: &[char]) -> (r: String)
    ensures
        r@ == bad_local_part(left@, s@),
{
    let mut m = quote("invalid local spec ", left);
    push_text(&mut m, " in ");
    quote(m.as_str(), s)
}

/// Strip square brackets from both ends.
fn without_brackets<'a>(s: &'a [char]) -> (r: &'a [char])
    ensures
        r@ == trim_brackets(s@),
{
    let mut a: usize = 0;
    assert(s@.skip(0) == s@);
    while a < s.len() && (s[a] == '[' || s[a] == ']')
        invariant
            a <= s.len(),
            trim_brackets_start(s@) == trim_brackets_start(s@.skip(a as int)),
        decreases s.len() - a,
    {
        assert(s@.skip(a as int).skip(1) == s@.skip(a + 1));
        a += 1;
    }
    let t = slice_subrange(s, a, s.len());
    assert(t@ == s@.skip(a as int));
    let mut n: usize = t.len();
    assert(t@.take(n as int) == t@);
    while n > 0 && (t[n - 1] == '[' || t[n - 1] == ']')
        invariant
            n <= t.len(),
            trim_brackets_end(t@) == trim_brackets_end(t@.take(n as int)),
        decreases n,
    {
        assert(t@.take(n as int).drop_last() == t@.take(n - 1));
        n -= 1;
    }
    slice_subrange(t, 0, n)
}

/// Split a host and a port.
pub fn parse_host_port(s: &[char]) -> (r: Option<(Vec<char>, u16)>)
    ensures
        match r {
            Some(v) => host_port(s@) == Some((v.0@, v.1 as nat)),
            None => host_port(s@) is None,
        },
{
    match read_socket(s) {
        Some(a) => {
            let text = a.ip.to_text();
            return Some((chars_of(text.as_str()), a.port));
        },
        None => {},
    }
    match rfind_char(s, ':') {
        Some(i) => {
            let port = slice_subrange(s, i + 1, s.len());
            assert(port@ == s@.skip(i + 1));
            match parse_u16(port) {
                Some(p) => {
                    let before = slice_subrange(s, 0, i);
                    assert(before@ == s@.take(i as int));
                    let host = without_brackets(before);
                    let mut v: Vec<char> = Vec::new();
                    crate::text::extend(&mut v, host);
                    assert(v@ == host@);
                    Some((v, p))
                },
                None => None,
            }
        },
        None => None,
    }
}

/// Split off the remote address.
fn split_remote<'a>(r: &'a [char]) -> (res: Option<(&'a [char], &'a [char])>)
    ensures
        match res {
            Some(v) => remote_part(r@) == Some((v.0@, v.1@)),
            None => remote_part(r@) is None,
        },
{
    let n = r.len();
    if n > 0 && r[n - 1] == ']' {
        proof {
            lemma_rfind_to(r@, '[', n as int);
        }
        match rfind_char(r, '[') {
            Some(b) => {
                let before = slice_subrange(r, 0, b);
                assert(before@ == r@.take(b as int));
                Some((slice_subrange(r, b + 1, n - 1), trimmed_end(before, ':')))
            },
            None => None,
        }
    } else {
        match rfind_char(r, ':') {
            Some(i) => {
                let before = slice_subrange(r, 0, i);
                assert(before@ == r@.take(i as int));
                let addr = slice_subrange(r, i + 1, n);
                assert(addr@ == r@.skip(i + 1));
                Some((addr, trimmed_end(before, ':')))
            },
            None => {
                let rest = slice_subrange(r, 0, 0);
                assert(rest@ == Seq::<char>::empty());
                Some((r, rest))
            },
        }
    }
}

/// Parse the local side of a specification.
fn split_local(left: &[char], remote_port: u16) -> (r: Option<(Option<Vec<char>>, u16)>)
    ensures
        match r {
            Some((Some(h), p)) => local_part(left@, remote_port as nat) == Some(
                (Some(h@), p as nat),
            ),
            Some((None, p)) => local_part(left@, remote_port as nat) == Some(
                (None::<Seq<char>>, p as nat),
            ),
            None => local_part(left@, remote_port as nat) is None,
        },
{
    if left.len() == 0 {
        return Some((None, remote_port));
    }
    match parse_host_port(left) {
        Some((h, p)) => if h.len() == 0 {
            Some((None, p))
        } else {
            Some((Some(h), p))
        },
        None => match parse_u16(left) {
            Some(p) => Some((None, p)),
            None => None,
        },
    }
}

/// A parsed local specification: local address and port, remote address and
/// port.
pub struct LocalSpec {
    pub addr: Option<Vec<char>>,
    pub port: u16,
    pub remote: Vec<char>,
    pub remote_port: u16,
}

/// The characters of an optional text.
pub open spec fn optional_chars(v: Option<Vec<char>>) -> Option<Seq<char>> {
    match v {
        Some(c) => Some(c@),
        None => None,
    }
}

/// Parse a local-tcp or local-udp specification, from right to left: the remote
/// port, the remote address, and what is left for the local side.
pub fn parse_mapping(s: &[char]) -> (r: Result<LocalSpec, String>)
    ensures
        match r {
            Ok(m) => local_spec(s@) == Ok::<_, Seq<char>>(
                (optional_chars(m.addr), m.port as nat, m.remote@, m.remote_port as nat),
            ),
            Err(e) => local_spec(s@) == Err::<(Option<Seq<char>>, nat, Seq<char>, nat), _>(e@),
        },
{
    let i = match rfind_char(s, ':') {
        Some(i) => i,
        None => {
            return Err(quote("malformed mapping ", s));
        },
    };
    let port_text = slice_subrange(s, i + 1, s.len());
    assert(port_text@ == s@.skip(i + 1));
    let remote_port = match parse_u16(port_text) {
        Some(p) => p,
        None => {
            return Err(quote("invalid port in ", s));
        },
    };
    let rest = slice_subrange(s, 0, i);
    assert(rest@ == s@.take(i as int));
    let (remote, left) = match split_remote(rest) {
        Some(v) => v,
        None => {
            return Err(quote("unmatched '[' in ", s));
        },
    };
    if remote.len() == 0 {
        return Err(quote("missing remote address in ", s));
    }
    if !contains_char(remote, ':') {
        let mut e = quote("remote address ", remote);
        push_text(&mut e, " must be an IPv6 address (Yggdrasil)");
        return Err(e);
    }
    let (addr, port) = match split_local(left, remote_port) {
        Some(v) => v,
        None => {
            return Err(bad_local(left, s));
        },
    };
    let mut remote_chars: Vec<char> = Vec::new();
    crate::text::extend(&mut remote_chars, remote);
    assert(remote_chars@ == remote@);
    Ok(LocalSpec { addr, port, remote: remote_chars, remote_port })
}

/// A parsed remote specification: remote port, local address and port.
pub struct RemoteSpec {
    pub remote_port: u16,
    pub addr: Option<Vec<char>>,
    pub port: u16,
}

/// Parse a remote-tcp or remote-udp specification.
pub fn parse_remote_mapping(s: &[char]) -> (r: Result<RemoteSpec, String>)
    ensures
        match r {
            Ok(m) => remote_spec(s@) == Ok::<_, Seq<char>>(
                (m.remote_port as nat, optional_chars(m.addr), m.port as nat),
            ),
            Err(e) => remote_spec(s@) == Err::<(nat, Option<Seq<char>>, nat), _>(e@),
        },
{
    let i = match find_char(s, ':') {
        Some(i) => i,
        None => {
            return match parse_u16(s) {
                Some(p) => Ok(RemoteSpec { remote_port: p, addr: None, port: p }),
                None => Err(quote("invalid port ", s)),
            };
        },
    };
    let first = slice_subrange(s, 0, i);
    assert(first@ == s@.take(i as int));
    let remote_port = match parse_u16(first) {
        Some(p) => p,
        None => {
            return Err(quote("invalid port ", first));
        },
    };
    let rest = slice_subrange(s, i + 1, s.len());
    assert(rest@ == s@.skip(i + 1));
    proof {
        lemma_find_from(s@, ':', i + 1);
        lemma_find_from(rest@, ':', 0);
        match find(rest@, ':') {
            Some(k) => {
                assert(s@[i + 1 + k] == ':');
            },
            None => {
                assert forall|j: int| i + 1 <= j < s@.len() implies s@[j] != ':' by {
                    assert(rest@[j - i - 1] != ':');
                }
            },
        }
    }
    match find_char(rest, ':') {
        None => match parse_u16(rest) {
            Some(p) => Ok(RemoteSpec { remote_port, addr: None, port: p }),
            None => Err(quote("invalid port ", rest)),
        },
        Some(_) => match parse_host_port(rest) {
            Some((h, p)) => Ok(RemoteSpec { remote_port, addr: Some(h), port: p }),
            None => Err(bad_local(rest, s)),
        },
    }
}

/// The given address, or a default.
fn given_or(addr: &Option<Vec<char>>, default: IpAddr) -> (r: Result<IpAddr, String>)
    ensures
        match r {
            Ok(ip) => address_or(optional_chars(*addr), default@) == Ok::<_, Seq<char>>(ip@),
            Err(e) => address_or(optional_chars(*addr), default@) == Err::<Ip, _>(e@),
        },
{
    match addr {
        None => Ok(default),
        Some(a) => match read_ip(a.as_slice()) {
            Some(ip) => Ok(ip),
            None => Err(quote("invalid address ", a.as_slice())),
        },
    }
}

/// The listening and target addresses of a local specification.
fn parse_local_pair(value: &str) -> (r: Result<(SocketAddr, SocketAddr), String>)
    ensures
        match r {
            Ok(p) => local_mapping(value@) == Ok::<_, Seq<char>>((p.0@, p.1@)),
            Err(e) => local_mapping(value@) == Err::<(Endpoint, Endpoint), _>(e@),
        },
{
    let s = chars_of(value);
    let m = match parse_mapping(s.as_slice()) {
        Ok(m) => m,
        Err(e) => {
            return Err(e);
        },
    };
    let ip = match given_or(&m.addr, IpAddr::V4(Ipv4Addr::unspecified())) {
        Ok(ip) => ip,
        Err(e) => {
            return Err(e);
        },
    };
    match read_v6(m.remote.as_slice()) {
        Some(a) => Ok((SocketAddr::new(ip, m.port), SocketAddr::new(IpAddr::V6(a), m.remote_port))),
        None => Err(quote("invalid IPv6 ", m.remote.as_slice())),
    }
}

/// The listening and target addresses of a remote specification.
fn parse_remote_pair(value: &str) -> (r: Result<(SocketAddr, SocketAddr), String>)
    ensures
        match r {
            Ok(p) => remote_mapping(value@) == Ok::<_, Seq<char>>((p.0@, p.1@)),
            Err(e) => remote_mapping(value@) == Err::<(Endpoint, Endpoint), _>(e@),
        },
{
    let s = chars_of(value);
    let m = match parse_remote_mapping(s.as_slice()) {
        Ok(m) => m,
        Err(e) => {
            return Err(e);
        },
    };
    match given_or(&m.addr, IpAddr::V4(Ipv4Addr::localhost())) {
        Ok(ip) => Ok(
            (
                SocketAddr::new(IpAddr::V4(Ipv4Addr::unspecified()), m.remote_port),
                SocketAddr::new(ip, m.port),
            ),
        ),
        Err(e) => Err(e),
    }
}

// ── Public constructors ───────────────────────────────────────────────────────

impl TcpMapping {
    /// Parse a local-tcp specification.
    pub fn parse_local(value: &str) -> (r: Result<Self, String>)
        ensures
            match r {
                Ok(m) => local_mapping(value@) == Ok::<_, Seq<char>>((m.listen@, m.target@)),
                Err(e) => local_mapping(value@) == Err::<(Endpoint, Endpoint), _>(e@),
            },
    {
        match parse_local_pair(value) {
            Ok((listen, target)) => Ok(TcpMapping { listen, target }),
            Err(e) => Err(e),
        }
    }

    /// Parse a remote-tcp specification.
    pub fn parse_remote(value: &str) -> (r: Result<Self, String>)
        ensures
            match r {
                Ok(m) => remote_mapping(value@) == Ok::<_, Seq<char>>((m.listen@, m.target@)),
                Err(e) => remote_mapping(value@) == Err::<(Endpoint, Endpoint), _>(e@),
            },
    {
        match parse_remote_pair(value) {
            Ok((listen, target)) => Ok(TcpMapping { listen, target }),
            Err(e) => Err(e),
        }
    }
}

impl UdpMapping {
    /// Parse a local-udp specification.
    pub fn parse_local(value: &str) -> (r: Result<Self, String>)
        ensures
            match r {
                Ok(m) => local_mapping(value@) == Ok::<_, Seq<char>>((m.listen@, m.target@)),
                Err(e) => local_mapping(value@) == Err::<(Endpoint, Endpoint), _>(e@),
            },
    {
        match parse_local_pair(value) {
            Ok((listen, target)) => Ok(UdpMapping { listen, target }),
            Err(e) => Err(e),
        }
    }

    /// Parse a remote-udp specification.
    pub fn parse_remote(value: &str) -> (r: Result<Self, String>)
        ensures
            match r {
                Ok(m) => remote_mapping(value@) == Ok::<_, Seq<char>>((m.listen@, m.target@)),
                Err(e) => remote_mapping(value@) == Err::<(Endpoint, Endpoint), _>(e@),
            },
    {
        match parse_remote_pair(value) {
            Ok((listen, target)) => Ok(UdpMapping { listen, target }),
            Err(e) => Err(e),
        }
    }
}

// ── Either protocol ───────────────────────────────────────────────────────────

/// What a specification stands for: where the mapping listens and where it leads,
/// or why it is refused.
pub open spec fn mapping_for(remote: bool, s: Seq<char>) -> Result<
    (Endpoint, Endpoint),
    Seq<char>,
> {
    if remote {
        remote_mapping(s)
    } else {
        local_mapping(s)
    }
}

/// A port forwarding of either protocol.
pub trait Mapping: Copy {
    /// Where it listens, and where it leads.
    spec fn ends(self) -> (Endpoint, Endpoint);

    /// Parse a remote or a local specification.
    fn read(remote: bool, value: &str) -> (r: Result<Self, String>)
        ensures
            match r {
                Ok(m) => mapping_for(remote, value@) == Ok::<_, Seq<char>>(m.ends()),
                Err(e) => mapping_for(remote, value@) == Err::<(Endpoint, Endpoint), _>(e@),
            },
    ;
}

impl Mapping for TcpMapping {
    open spec fn ends(self) -> (Endpoint, Endpoint) {
        (self.listen@, self.target@)
    }

    fn read(remote: bool, value: &str) -> (r: Result<Self, String>) {
        if remote {
            TcpMapping::parse_remote(value)
        } else {
            TcpMapping::parse_local(value)
        }
    }
}

impl Mapping for UdpMapping {
    open spec fn ends(self) -> (Endpoint, Endpoint) {
        (self.listen@, self.target@)
    }

    fn read(remote: bool, value: &str) -> (r: Result<Self, String>) {
        if remote {
            UdpMapping::parse_remote(value)
        } else {
            UdpMapping::parse_local(value)
        }
    }
}

} // verus!
