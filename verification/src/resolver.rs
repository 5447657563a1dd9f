//! Names: IPv6 literals, `.pk.ygg` names and DNS through the netstack.
use vstd::prelude::*;
use vstd::slice::slice_subrange;
use vstd::utf8::encode_utf8;
use crate::addr::{Endpoint, Ipv6Addr, SocketAddr, parse_socket, parse_v6, read_socket, read_v6};
use crate::bytes::{array16, be16, be16_bytes, push_be16, push_bytes, u16_from_be};
use crate::keys::{decode_hex, hex_decode};
use crate::text::{
    chars_of, dec_text, ends_with, has_suffix, owned, push_decimal, push_text, rfind, rfind_char,
    split, split_ranges, string_of, strip_all, trim_end, trimmed_end,
};

verus! {

/// What the names that stand for a public key end with.
pub const NAME_MAPPING_SUFFIX: &'static str = ".pk.ygg";

/// The DNS record type of IPv6 addresses.
pub const TYPE_AAAA: u16 = 28;

/// Seconds to wait for an answer to a query over UDP.
pub const DNS_UDP_TIMEOUT_SECS: u64 = 10;

// ── The DNS wire format ───────────────────────────────────────────────────────

/// A label as it stands in a message: its length in one byte, and its bytes.
pub open spec fn label_bytes(label: Seq<char>) -> Seq<u8> {
    seq![(encode_utf8(label).len() % 256) as u8] + encode_utf8(label)
}

/// The labels of a name, one after the other.
pub open spec fn labels_bytes(labels: Seq<Seq<char>>) -> Seq<u8>
    decreases labels.len(),
{
    if labels.len() == 0 {
        Seq::empty()
    } else {
        labels_bytes(labels.drop_last()) + label_bytes(labels.last())
    }
}

/// The labels of a name, without dots at its end.
pub open spec fn labels_of(name: Seq<char>) -> Seq<Seq<char>> {
    split(trim_end(name, '.'), '.')
}

/// A name as it stands in a message: its labels, and the root label.
pub open spec fn name_bytes(name: Seq<char>) -> Seq<u8> {
    labels_bytes(labels_of(name)).push(0)
}

/// The header of a query: number 1, recursion desired, one question.
pub open spec fn query_header() -> Seq<u8> {
    seq![0u8, 1u8, 1u8, 0u8, 0u8, 1u8, 0u8, 0u8, 0u8, 0u8, 0u8, 0u8]
}

/// A query for the records of a type of a name, in the internet class.
pub open spec fn dns_query(name: Seq<char>, qtype: nat) -> Seq<u8> {
    query_header() + name_bytes(name) + be16_bytes(qtype) + seq![0u8, 1u8]
}

/// The position behind a name in a message: behind its root label, or behind a
/// pointer.
pub open spec fn skip_name(buf: Seq<u8>, pos: int) -> Option<int>
    decreases
        if pos < buf.len() {
            buf.len() - pos
        } else {
            0
        },
{
    if pos < 0 || pos >= buf.len() {
        None
    } else if buf[pos] == 0 {
        Some(pos + 1)
    } else if buf[pos] >= 0xC0 {
        Some(pos + 2)
    } else {
        skip_name(buf, pos + 1 + buf[pos])
    }
}

/// The first IPv6 address among so many records from a position on.
pub open spec fn first_aaaa(buf: Seq<u8>, pos: int, records: nat) -> Option<Seq<u8>>
    decreases records,
{
    if records == 0 {
        None
    } else {
        match skip_name(buf, pos) {
            None => None,
            Some(p) => if p + 10 > buf.len() {
                None
            } else {
                let rtype = be16(buf[p], buf[p + 1]);
                let rdlength = be16(buf[p + 8], buf[p + 9]);
                let data = p + 10;
                if rtype == TYPE_AAAA && rdlength == 16 && data + 16 <= buf.len() {
                    Some(buf.subrange(data, data + 16))
                } else {
                    first_aaaa(buf, data + rdlength, (records - 1) as nat)
                }
            },
        }
    }
}

/// The first IPv6 address that a response holds.
pub open spec fn aaaa_answer(buf: Seq<u8>) -> Option<Seq<u8>> {
    if buf.len() < 12 {
        None
    } else {
        let answers = be16(buf[6], buf[7]);
        if answers == 0 {
            None
        } else {
            match skip_name(buf, 12) {
                None => None,
                Some(p) => first_aaaa(buf, p + 4, answers),
            }
        }
    }
}

/// Whether a response says that it was cut short.
pub open spec fn is_truncated(buf: Seq<u8>) -> bool {
    buf.len() >= 3 && buf[2] / 2 % 2 == 1
}

/// A query with its length in front, for a stream.
pub open spec fn framed(query: Seq<u8>) -> Seq<u8> {
    be16_bytes(query.len() % 65536) + query
}

/// Build a query for the records of a type of a name.
pub fn build_dns_query(name: &str, qtype: u16) -> (r: Vec<u8>)
    ensures
        r@ == dns_query(name@, qtype as nat),
{
    let header: [u8; 12] = [0, 1, 1, 0, 0, 1, 0, 0, 0, 0, 0, 0];
    let mut msg: Vec<u8> = Vec::new();
    push_bytes(&mut msg, header.as_slice());
    assert(msg@ =~= query_header());
    let chars = chars_of(name);
    let trimmed = trimmed_end(chars.as_slice(), '.');
    let labels = split_ranges(trimmed, '.');
    let ghost all = labels_of(name@);
    let mut i: usize = 0;
    assert(all.take(0) =~= Seq::<Seq<char>>::empty());
    assert(msg@ =~= query_header() + labels_bytes(all.take(0)));
    while i < labels.len()
        invariant
            i <= labels@.len(),
            labels@.len() == all.len(),
            all == split(trimmed@, '.'),
            forall|k: int|
                0 <= k < labels@.len() ==> (#[trigger] labels@[k]).0 <= labels@[k].1
                    <= trimmed.len() && trimmed@.subrange(labels@[k].0 as int, labels@[k].1 as int)
                    == all[k],
            msg@ == query_header() + labels_bytes(all.take(i as int)),
        decreases labels.len() - i,
    {
        let label = string_of(slice_subrange(trimmed, labels[i].0, labels[i].1));
        let bytes = label.as_str().as_bytes();
        let ghost before = msg@;
        msg.push((bytes.len() % 256) as u8);
        push_bytes(&mut msg, bytes);
        proof {
            let t = all.take(i + 1);
            assert(t.drop_last() =~= all.take(i as int));
            assert(t.last() == all[i as int]);
            assert(label@ == all[i as int]);
            assert(msg@ =~= before + label_bytes(all[i as int]));
            assert(msg@ =~= query_header() + labels_bytes(t));
        }
        i += 1;
    }
    assert(all.take(i as int) =~= all);
    msg.push(0);
    push_be16(&mut msg, qtype);
    push_be16(&mut msg, 1);
    assert(be16_bytes(1) =~= seq![0u8, 1u8]);
    assert(msg@ =~= dns_query(name@, qtype as nat));
    msg
}

/// The largest message that positions can be kept in.
pub open spec fn fits(buf: Seq<u8>) -> bool {
    buf.len() + 0x2_0000 <= usize::MAX
}

/// Find the position behind a name.
pub fn skip_dns_name(buf: &[u8], pos: usize) -> (r: Option<usize>)
    requires
        fits(buf@),
    ensures
        match r {
            Some(p) => skip_name(buf@, pos as int) == Some(p as int) && p <= buf@.len() + 1,
            None => skip_name(buf@, pos as int) is None,
        },
{
    let mut at: usize = pos;
    while at < buf.len()
        invariant
            fits(buf@),
            skip_name(buf@, pos as int) == skip_name(buf@, at as int),
        decreases
            if at < buf.len() {
                buf.len() - at
            } else {
                0
            },
    {
        let len = buf[at];
        if len == 0 {
            return Some(at + 1);
        }
        if len >= 0xC0 {
            return Some(at + 2);
        }
        at = at + 1 + len as usize;
    }
    None
}

/// Read the first IPv6 address that a response holds.
pub fn parse_dns_aaaa_response(buf: &[u8]) -> (r: Option<Ipv6Addr>)
    requires
        fits(buf@),
    ensures
        match r {
            Some(a) => aaaa_answer(buf@) == Some(a.octets@),
            None => aaaa_answer(buf@) is None,
        },
{
    if buf.len() < 12 {
        return None;
    }
    let ancount = u16_from_be(buf[6], buf[7]);
    if ancount == 0 {
        return None;
    }
    let mut pos: usize = match skip_dns_name(buf, 12) {
        Some(p) => p + 4,
        None => {
            return None;
        },
    };
    let mut left: u16 = ancount;
    while left > 0
        invariant
            fits(buf@),
            pos <= buf@.len() + 0x1_0010,
            aaaa_answer(buf@) == first_aaaa(buf@, pos as int, left as nat),
        decreases left,
    {
        let p = match skip_dns_name(buf, pos) {
            Some(p) => p,
            None => {
                return None;
            },
        };
        if p + 10 > buf.len() {
            return None;
        }
        let rtype = u16_from_be(buf[p], buf[p + 1]);
        let rdlength = u16_from_be(buf[p + 8], buf[p + 9]) as usize;
        let data: usize = p + 10;
        if rtype == TYPE_AAAA && rdlength == 16 && data + 16 <= buf.len() {
            return Some(Ipv6Addr { octets: array16(buf, data) });
        }
        pos = data + rdlength;
        left -= 1;
    }
    None
}

/// Put a query's length in front of it.
pub fn frame_query(query: &[u8]) -> (r: Vec<u8>)
    ensures
        r@ == framed(query@),
{
    let mut r: Vec<u8> = Vec::new();
    push_be16(&mut r, (query.len() % 65536) as u16);
    push_bytes(&mut r, query);
    assert(r@ =~= framed(query@));
    r
}

// ── Names ─────────────────────────────────────────────────────────────────────

/// The label of a `.pk.ygg` name that holds the key: the last one in front of the
/// suffix.
pub open spec fn key_label(name: Seq<char>) -> Seq<char> {
    let s = strip_all(name, NAME_MAPPING_SUFFIX@);
    match rfind(s, '.') {
        Some(i) => s.skip(i + 1),
        None => s,
    }
}

/// How a name is resolved.
pub ghost enum Route {
    /// It is an address.
    Address(Seq<u8>),
    /// It stands for the address of a public key.
    Key(Seq<u8>),
    /// A name server is asked.
    Query { server: Endpoint, query: Seq<u8> },
}

/// The address of a name server: one with a port, or one without brackets and
/// port, for the default port.
pub open spec fn server_address(nameserver: Seq<char>) -> Option<Endpoint> {
    match parse_socket(nameserver) {
        Some(a) => Some(a),
        None => parse_socket("["@ + nameserver + "]:53"@),
    }
}

/// How a name is resolved, or why it cannot be.
pub open spec fn resolution(name: Seq<char>, nameserver: Option<Seq<char>>) -> Result<
    Route,
    Seq<char>,
> {
    match parse_v6(name) {
        Some(o) => Ok(Route::Address(o)),
        None => if ends_with(name, NAME_MAPPING_SUFFIX@) {
            match hex_decode(encode_utf8(key_label(name))) {
                Err(e) => Err("hex decode: "@ + e.text()),
                Ok(b) => if b.len() != 32 {
                    Err("public key must be 32 bytes, got "@ + dec_text(b.len()))
                } else {
                    Ok(Route::Key(b))
                },
            }
        } else {
            match nameserver {
                None => Err("no nameserver configured; cannot resolve '"@ + name + "'"@),
                Some(ns) => match server_address(ns) {
                    None => Err("invalid nameserver address '"@ + ns + "'"@),
                    Some(server) => Ok(
                        Route::Query { server, query: dns_query(name, TYPE_AAAA as nat) },
                    ),
                },
            }
        },
    }
}

/// How a name is resolved.
pub enum Plan {
    /// It is this address.
    Address(Ipv6Addr),
    /// It stands for the address of this public key.
    Key([u8; 32]),
    /// A name server is asked.
    Query(DnsLookup),
}

/// Resolves names, with a name server where one is configured.
pub struct NameResolver {
    nameserver: Option<String>,
}

/// The text of an optional string.
pub open spec fn optional_text(s: Option<String>) -> Option<Seq<char>> {
    match s {
        Some(t) => Some(t@),
        None => None,
    }
}

/// What a plan says.
pub open spec fn plan_matches(r: Result<Plan, String>, want: Result<Route, Seq<char>>, name: Seq<
    char,
>) -> bool {
    match want {
        Err(e) => r matches Err(m) && m@ == e,
        Ok(Route::Address(o)) => r matches Ok(Plan::Address(a)) && a.octets@ == o,
        Ok(Route::Key(k)) => r matches Ok(Plan::Key(b)) && b@ == k,
        Ok(Route::Query { server, query }) => r matches Ok(Plan::Query(d)) && d@ == (LookupState {
            name,
            server,
            query,
            phase: LookupPhase::FirstUdp,
        }),
    }
}

impl NameResolver {
    /// The name server.
    pub closed spec fn nameserver(&self) -> Option<Seq<char>> {
        optional_text(self.nameserver)
    }

    /// A resolver with a name server, or without one where the text is empty.
    pub fn new(nameserver: &str) -> (r: Self)
        ensures
            r.nameserver() == if nameserver@.len() == 0 {
                None
            } else {
                Some(nameserver@)
            },
    {
        if chars_of(nameserver).len() == 0 {
            NameResolver { nameserver: None }
        } else {
            NameResolver { nameserver: Some(owned(nameserver)) }
        }
    }

    /// Work out how a hostname or a `.pk.ygg` name is resolved.
    pub fn resolve(&self, name: &str) -> (r: Result<Plan, String>)
        ensures
            plan_matches(r, resolution(name@, self.nameserver()), name@),
    {
        let chars = chars_of(name);
        let chars = chars.as_slice();
        if let Some(a) = read_v6(chars) {
            return Ok(Plan::Address(a));
        }
        let suffix = chars_of(NAME_MAPPING_SUFFIX);
        if has_suffix(chars, suffix.as_slice()) {
            return match key_of_name(chars, suffix.as_slice()) {
                Ok(k) => Ok(Plan::Key(k)),
                Err(e) => Err(e),
            };
        }
        match &self.nameserver {
            None => {
                let mut e = owned("no nameserver configured; cannot resolve '");
                push_text(&mut e, name);
                push_text(&mut e, "'");
                Err(e)
            },
            Some(ns) => match read_server(ns.as_str()) {
                None => {
                    let mut e = owned("invalid nameserver address '");
                    push_text(&mut e, ns.as_str());
                    push_text(&mut e, "'");
                    Err(e)
                },
                Some(server) => Ok(Plan::Query(DnsLookup::new(name, server))),
            },
        }
    }
}

/// Read the address of a name server.
fn read_server(nameserver: &str) -> (r: Option<SocketAddr>)
    ensures
        match r {
            Some(a) => server_address(nameserver@) == Some(a@),
            None => server_address(nameserver@) is None,
        },
{
    let chars = chars_of(nameserver);
    match read_socket(chars.as_slice()) {
        Some(a) => Some(a),
        None => {
            let mut t = owned("[");
            push_text(&mut t, nameserver);
            push_text(&mut t, "]:53");
            let chars = chars_of(t.as_str());
            read_socket(chars.as_slice())
        },
    }
}

/// Strip a suffix as often as it is there.
fn without_suffixes<'a>(s: &'a [char], suffix: &[char]) -> (r: &'a [char])
    requires
        suffix@.len() > 0,
    ensures
        r@ == strip_all(s@, suffix@),
{
    let mut rest = s;
    while has_suffix(rest, suffix)
        invariant
            suffix@.len() > 0,
            strip_all(s@, suffix@) == strip_all(rest@, suffix@),
        decreases rest.len(),
    {
        let ghost before = rest@;
        rest = slice_subrange(rest, 0, rest.len() - suffix.len());
        assert(rest@ =~= before.take(before.len() - suffix@.len()));
    }
    rest
}

/// The key that a `.pk.ygg` name holds.
fn key_of_name(name: &[char], suffix: &[char]) -> (r: Result<[u8; 32], String>)
    requires
        suffix@ == NAME_MAPPING_SUFFIX@,
    ensures
        match hex_decode(encode_utf8(key_label(name@))) {
            Err(e) => r matches Err(m) && m@ == "hex decode: "@ + e.text(),
            Ok(b) => if b.len() != 32 {
                r matches Err(m) && m@ == "public key must be 32 bytes, got "@ + dec_text(b.len())
            } else {
                r matches Ok(k) && k@ == b
            },
        },
{
    proof {
        reveal_strlit(".pk.ygg");
    }
    let rest = without_suffixes(name, suffix);
    let label = match rfind_char(rest, '.') {
        Some(i) => {
            let l = slice_subrange(rest, i + 1, rest.len());
            assert(l@ =~= rest@.skip(i + 1));
            l
        },
        None => rest,
    };
    let text = string_of(label);
    match decode_hex(text.as_str().as_bytes()) {
        Err(e) => {
            let mut m = owned("hex decode: ");
            push_text(&mut m, e.describe().as_str());
            Err(m)
        },
        Ok(b) => {
            if b.len() != 32 {
                let mut m = owned("public key must be 32 bytes, got ");
                push_decimal(&mut m, b.len() as u64);
                Err(m)
            } else {
                Ok(key_array(b.as_slice()))
            }
        },
    }
}

/// The bytes of a key as an array.
fn key_array(b: &[u8]) -> (r: [u8; 32])
    requires
        b@.len() == 32,
    ensures
        r@ == b@,
{
    let mut r: [u8; 32] = [0u8;32];
    let mut i: usize = 0;
    while i < 32
        invariant
            i <= 32,
            b@.len() == 32,
            forall|k: int| 0 <= k < i ==> r@[k] == b@[k],
        decreases 32 - i,
    {
        r[i] = b[i];
        i += 1;
    }
    assert(r@ =~= b@);
    r
}

// ── Asking a name server ──────────────────────────────────────────────────────

/// How far a lookup has come.
#[derive(Clone, Copy, PartialEq, Eq, Structural)]
pub enum LookupPhase {
    /// The query goes out over UDP.
    FirstUdp,
    /// It goes out over UDP once more: the first attempt may have been spent on
    /// finding a route.
    SecondUdp,
    /// It goes out over TCP.
    Tcp,
    /// The lookup is over.
    Over,
}

/// A lookup: the name, the server, the query and how far it has come.
pub ghost struct LookupState {
    pub name: Seq<char>,
    pub server: Endpoint,
    pub query: Seq<u8>,
    pub phase: LookupPhase,
}

/// What happened to a query.
pub enum LookupEvent {
    /// The lookup starts.
    Start,
    /// An answer came back.
    Answer(Vec<u8>),
    /// No answer came back, for this reason.
    Failed(String),
}

/// What a lookup does next.
pub enum LookupAction {
    /// Send the query over UDP, and wait for an answer.
    AskUdp,
    /// Send the query over TCP, and wait for an answer.
    AskTcp,
    /// The lookup is over.
    Done(Result<Ipv6Addr, String>),
    /// Nothing: the event does not belong here.
    Ignore,
}

/// What a response says, for a name.
pub open spec fn answer_result(r: LookupAction, name: Seq<char>, answer: Seq<u8>) -> bool {
    match aaaa_answer(answer) {
        Some(o) => r matches LookupAction::Done(Ok(a)) && a.octets@ == o,
        None => r matches LookupAction::Done(Err(e)) && e@ == "no AAAA record found for '"@ + name
            + "'"@,
    }
}

/// A lookup with a name server.
pub struct DnsLookup {
    name: String,
    server: SocketAddr,
    query: Vec<u8>,
    phase: LookupPhase,
}

impl View for DnsLookup {
    type V = LookupState;

    closed spec fn view(&self) -> LookupState {
        LookupState {
            name: self.name@,
            server: self.server@,
            query: self.query@,
            phase: self.phase,
        }
    }
}

impl DnsLookup {
    /// A lookup of the IPv6 address of a name.
    pub fn new(name: &str, server: SocketAddr) -> (r: Self)
        ensures
            r@ == (LookupState {
                name: name@,
                server: server@,
                query: dns_query(name@, TYPE_AAAA as nat),
                phase: LookupPhase::FirstUdp,
            }),
    {
        DnsLookup {
            name: owned(name),
            server,
            query: build_dns_query(name, TYPE_AAAA),
            phase: LookupPhase::FirstUdp,
        }
    }

    /// Where the query goes.
    pub fn server(&self) -> (r: SocketAddr)
        ensures
            r@ == self@.server,
    {
        self.server
    }

    /// The query, as it goes out over UDP.
    pub fn query(&self) -> (r: Vec<u8>)
        ensures
            r@ == self@.query,
    {
        let mut r: Vec<u8> = Vec::new();
        push_bytes(&mut r, self.query.as_slice());
        assert(r@ =~= self.query@);
        r
    }

    /// The query, as it goes out over TCP.
    pub fn framed_query(&self) -> (r: Vec<u8>)
        ensures
            r@ == framed(self@.query),
    {
        frame_query(self.query.as_slice())
    }

    fn finish(&mut self, answer: &[u8]) -> (r: LookupAction)
        requires
            fits(answer@),
        ensures
            final(self)@ == (LookupState { phase: LookupPhase::Over, ..old(self)@ }),
            answer_result(r, old(self)@.name, answer@),
    {
        self.phase = LookupPhase::Over;
        match parse_dns_aaaa_response(answer) {
            Some(a) => LookupAction::Done(Ok(a)),
            None => {
                let mut e = owned("no AAAA record found for '");
                push_text(&mut e, self.name.as_str());
                push_text(&mut e, "'");
                LookupAction::Done(Err(e))
            },
        }
    }

    /// What to do after an event. The query goes out over UDP first; where no
    /// answer comes back, once more; then, or where an answer was cut short, over
    /// TCP.
    pub fn dns_lookup_ipv6(&mut self, event: LookupEvent) -> (r: LookupAction)
        requires
            event matches LookupEvent::Answer(a) ==> fits(a@),
        ensures
            match (old(self)@.phase, event) {
                (LookupPhase::FirstUdp, LookupEvent::Start) => {
                    r is AskUdp && final(self)@ == old(self)@
                },
                (LookupPhase::FirstUdp, LookupEvent::Failed(_)) => {
                    &&& r is AskUdp
                    &&& final(self)@ == (LookupState {
                        phase: LookupPhase::SecondUdp,
                        ..old(self)@
                    })
                },
                (LookupPhase::SecondUdp, LookupEvent::Failed(_)) => {
                    &&& r is AskTcp
                    &&& final(self)@ == (LookupState { phase: LookupPhase::Tcp, ..old(self)@ })
                },
                (LookupPhase::FirstUdp, LookupEvent::Answer(a))
                | (LookupPhase::SecondUdp, LookupEvent::Answer(a)) => if is_truncated(a@) {
                    &&& r is AskTcp
                    &&& final(self)@ == (LookupState { phase: LookupPhase::Tcp, ..old(self)@ })
                } else {
                    &&& answer_result(r, old(self)@.name, a@)
                    &&& final(self)@ == (LookupState { phase: LookupPhase::Over, ..old(self)@ })
                },
                (LookupPhase::Tcp, LookupEvent::Answer(a)) => {
                    &&& answer_result(r, old(self)@.name, a@)
                    &&& final(self)@ == (LookupState { phase: LookupPhase::Over, ..old(self)@ })
                },
                (LookupPhase::Tcp, LookupEvent::Failed(e)) => {
                    &&& r == LookupAction::Done(Err(e))
                    &&& final(self)@ == (LookupState { phase: LookupPhase::Over, ..old(self)@ })
                },
                _ => r is Ignore && final(self)@ == old(self)@,
            },
    {
        match (self.phase, event) {
            (LookupPhase::FirstUdp, LookupEvent::Start) => LookupAction::AskUdp,
            (LookupPhase::FirstUdp, LookupEvent::Failed(_)) => {
                self.phase = LookupPhase::SecondUdp;
                LookupAction::AskUdp
            },
            (LookupPhase::SecondUdp, LookupEvent::Failed(_)) => {
                self.phase = LookupPhase::Tcp;
                LookupAction::AskTcp
            },
            (LookupPhase::FirstUdp, LookupEvent::Answer(a))
            | (LookupPhase::SecondUdp, LookupEvent::Answer(a)) => {
                if a.len() >= 3 && a[2] / 2 % 2 == 1 {
                    self.phase = LookupPhase::Tcp;
                    LookupAction::AskTcp
                } else {
                    self.finish(a.as_slice())
                }
            },
            (LookupPhase::Tcp, LookupEvent::Answer(a)) => self.finish(a.as_slice()),
            (LookupPhase::Tcp, LookupEvent::Failed(e)) => {
                self.phase = LookupPhase::Over;
                LookupAction::Done(Err(e))
            },
            _ => LookupAction::Ignore,
        }
    }
}

/// Where a lookup over UDP or TCP can fail.
#[derive(Clone, Copy)]
pub enum LookupStage {
    UdpOpen,
    UdpSend,
    UdpReceive,
    TcpConnect,
    TcpWrite,
    TcpReadLength,
    TcpReadBody,
}

/// What the report of a failure starts with.
pub open spec fn stage_text(stage: LookupStage) -> Seq<char> {
    match stage {
        LookupStage::UdpOpen => "UDP open: "@,
        LookupStage::UdpSend => "DNS UDP send: "@,
        LookupStage::UdpReceive => "DNS UDP recv: "@,
        LookupStage::TcpConnect => "DNS connect: "@,
        LookupStage::TcpWrite => "DNS write: "@,
        LookupStage::TcpReadLength => "DNS read len: "@,
        LookupStage::TcpReadBody => "DNS read body: "@,
    }
}

/// The report of a lookup over UDP that timed out.
pub const DNS_UDP_TIMED_OUT: &'static str = "DNS UDP timeout";

/// The report of a failure.
pub fn lookup_failure(stage: LookupStage, error: &str) -> (r: String)
    ensures
        r@ == stage_text(stage) + error@,
{
    let mut r = match stage {
        LookupStage::UdpOpen => owned("UDP open: "),
        LookupStage::UdpSend => owned("DNS UDP send: "),
        LookupStage::UdpReceive => owned("DNS UDP recv: "),
        LookupStage::TcpConnect => owned("DNS connect: "),
        LookupStage::TcpWrite => owned("DNS write: "),
        LookupStage::TcpReadLength => owned("DNS read len: "),
        LookupStage::TcpReadBody => owned("DNS read body: "),
    };
    push_text(&mut r, error);
    r
}

/// How many bytes follow the length in front of a response on a stream.
pub fn response_length(a: u8, b: u8) -> (r: usize)
    ensures
        r == be16(a, b),
{
    u16_from_be(a, b) as usize
}

} // verus!
