//! What holds of a client of the HTTP proxy, from its head to the end.
use vstd::prelude::*;
use vstd::utf8::encode_utf8;
use crate::addr::{Ip, IpAddr, Ipv6Addr, ip_text, parse_v4, parse_v6};
use crate::addr_laws::{is_address, law_ip_round_trip, law_v4_round_trip, law_v6_round_trip};
use crate::error::{ErrorKind, NetError};
use crate::http_head::{
    ForwardTarget, Request, blank_line, find_head_end, forward_target, parse_request, rewrite_head,
    send_simple_response, split_authority,
};
use crate::http_proxy::{HttpAction, HttpClient, HttpEvent, HttpPhase};
use crate::stats::{EntryId, ListenerStatsRegistry};
use crate::text::dec_text;

verus! {

/// Whether a host is written as an address.
pub open spec fn is_literal(host: Seq<char>) -> bool {
    parse_v6(host) is Some || parse_v4(host) is Some
}

/// A client that has just connected is asked for its head, and what it sends is
/// gathered until that is whole: what was read first and what is read next count as
/// one.
pub proof fn law_heads_are_gathered(
    c: &mut HttpClient,
    rc: &mut ListenerStatsRegistry,
    d: &mut HttpClient,
    rd: &mut ListenerStatsRegistry,
    first: Vec<u8>,
    more: Vec<u8>,
    a: HttpAction,
    b: HttpAction,
    before: Seq<u8>,
    whole: &[u8],
    end: Option<usize>,
)
    requires
        call_ensures(HttpClient::step, (c, rc, HttpEvent::Read(first)), a),
        old(c).phase() matches HttpPhase::Head { buf } && buf@ == before,
        whole@ == before + first@,
        call_ensures(find_head_end, (whole,), end),
        end is None,
        0 < first@.len(),
        whole@.len() <= 16384,
        *d == *final(c),
        call_ensures(HttpClient::step, (d, rd, HttpEvent::Read(more)), b),
        more@.len() == 0,
    ensures
        a matches HttpAction::Read(n) && n == 4096,
        final(c).phase() matches HttpPhase::Head { buf } && buf@ == before + first@,
        b matches HttpAction::Fail(e) && e.kind == ErrorKind::UnexpectedEof && e.message@
            == "eof in request head"@,
        final(d).phase() is Over,
{
}

/// A head that does not end within 16384 bytes is refused.
pub proof fn law_large_heads_are_refused(
    c: &mut HttpClient,
    r: &mut ListenerStatsRegistry,
    more: Vec<u8>,
    a: HttpAction,
    before: Seq<u8>,
    whole: &[u8],
    end: Option<usize>,
)
    requires
        call_ensures(HttpClient::step, (c, r, HttpEvent::Read(more)), a),
        old(c).phase() matches HttpPhase::Head { buf } && buf@ == before,
        whole@ == before + more@,
        call_ensures(find_head_end, (whole,), end),
        end is None,
        more@.len() > 0,
        whole@.len() > 16384,
    ensures
        a matches HttpAction::Fail(e) && e.kind == ErrorKind::InvalidData && e.message@
            == "request head too large"@,
        final(c).phase() is Over,
{
}

/// A client that asks for a tunnel to a host has that host resolved, or dialled where
/// it is an address; the address it is resolved to is dialled with the port that was
/// asked for; the client is told that the tunnel is there, what it sent behind its
/// head goes through it unchanged, and then its bytes are relayed until the end.
pub proof fn law_tunnels(
    cs: Seq<&mut HttpClient>,
    rs: Seq<&mut ListenerStatsRegistry>,
    es: Seq<HttpEvent>,
    acts: Seq<HttpAction>,
    whole: &[u8],
    end: Option<usize>,
    head: Vec<u8>,
    q: Result<Request, NetError>,
    authority: &str,
    to: Option<(String, u16)>,
    ip: Ipv6Addr,
)
    requires
        cs.len() == 6 && rs.len() == 6 && es.len() == 6 && acts.len() == 6,
        forall|i: int|
            0 <= i < 6 ==> #[trigger] call_ensures(HttpClient::step, (cs[i], rs[i], es[i]), acts[i]),
        forall|i: int| 0 <= i < 5 ==> *final(#[trigger] cs[i]) == *cs[i + 1],
        cs[0].phase() is Head,
        es[0] matches HttpEvent::Read(b) && b@.len() > 0 && whole@ == cs[0].phase()->buf@ + b@,
        call_ensures(find_head_end, (whole,), end),
        end is Some,
        head@ == whole@.take(end.unwrap() + 4),
        call_ensures(parse_request, (head,), q),
        q matches Ok(req) && req.method@ == "CONNECT"@ && authority@ == req.target@,
        call_ensures(split_authority, (authority, 443), to),
        to matches Some(v) && !is_literal(v.0@),
        es[1] == HttpEvent::Resolved(ip),
        es[2] is Dialed,
        es[3] is Sent,
        es[4] is Written,
        es[5] is Ended,
        whole@.len() > end.unwrap() + 4,
    ensures
        acts[0] matches HttpAction::Resolve(name) && name@ == to.unwrap().0@,
        acts[1] matches HttpAction::Dial(a) && a.ip@ == Ip::V6(ip.octets@) && a.port
            == to.unwrap().1 && a.flowinfo == 0 && a.scope_id == 0,
        acts[2] matches HttpAction::SendClient(b) && b@ == encode_utf8(
            "HTTP/1.1 200 Connection Established\r\n\r\n"@,
        ),
        acts[3] matches HttpAction::SendRemote(b) && b@ == whole@.skip(end.unwrap() + 4),
        acts[4] is Relay,
        acts[5] is Close,
        final(cs[5]).phase() is Over,
{
    assert(call_ensures(HttpClient::step, (cs[0], rs[0], es[0]), acts[0]));
    assert(*final(cs[0]) == *cs[1]);
    assert(call_ensures(HttpClient::step, (cs[1], rs[1], es[1]), acts[1]));
    assert(*final(cs[1]) == *cs[2]);
    assert(call_ensures(HttpClient::step, (cs[2], rs[2], es[2]), acts[2]));
    assert(*final(cs[2]) == *cs[3]);
    assert(call_ensures(HttpClient::step, (cs[3], rs[3], es[3]), acts[3]));
    assert(*final(cs[3]) == *cs[4]);
    assert(call_ensures(HttpClient::step, (cs[4], rs[4], es[4]), acts[4]));
    assert(*final(cs[4]) == *cs[5]);
    assert(call_ensures(HttpClient::step, (cs[5], rs[5], es[5]), acts[5]));
}

/// A plain request is sent on, rewritten, to the host and port that it names, once that
/// is resolved and reached; what the client sent behind its head follows unchanged,
/// and then its bytes are relayed until the end. The client is told nothing of its
/// own.
pub proof fn law_plain_requests_are_forwarded(
    cs: Seq<&mut HttpClient>,
    rs: Seq<&mut ListenerStatsRegistry>,
    es: Seq<HttpEvent>,
    acts: Seq<HttpAction>,
    whole: &[u8],
    end: Option<usize>,
    head: Vec<u8>,
    q: Result<Request, NetError>,
    t: Result<ForwardTarget, NetError>,
    text: String,
    ip: Ipv6Addr,
)
    requires
        cs.len() == 6 && rs.len() == 6 && es.len() == 6 && acts.len() == 6,
        forall|i: int|
            0 <= i < 6 ==> #[trigger] call_ensures(HttpClient::step, (cs[i], rs[i], es[i]), acts[i]),
        forall|i: int| 0 <= i < 5 ==> *final(#[trigger] cs[i]) == *cs[i + 1],
        cs[0].phase() is Head,
        es[0] matches HttpEvent::Read(b) && b@.len() > 0 && whole@ == cs[0].phase()->buf@ + b@,
        call_ensures(find_head_end, (whole,), end),
        end is Some,
        head@ == whole@.take(end.unwrap() + 4),
        call_ensures(parse_request, (head,), q),
        q is Ok,
        q->Ok_0.method@ != "CONNECT"@,
        call_ensures(forward_target, (&q->Ok_0,), t),
        t is Ok,
        !is_literal(t->Ok_0.host@),
        call_ensures(rewrite_head, (&q->Ok_0, &t->Ok_0), text),
        es[1] == HttpEvent::Resolved(ip),
        es[2] is Dialed,
        es[3] is Written,
        es[4] is Written,
        es[5] is Ended,
        whole@.len() > end.unwrap() + 4,
    ensures
        acts[0] matches HttpAction::Resolve(name) && name@ == t->Ok_0.host@,
        acts[1] matches HttpAction::Dial(a) && a.ip@ == Ip::V6(ip.octets@) && a.port
            == t->Ok_0.port && a.flowinfo == 0 && a.scope_id == 0,
        acts[2] matches HttpAction::SendRemote(b) && b@ == encode_utf8(text@),
        acts[3] matches HttpAction::SendRemote(b) && b@ == whole@.skip(end.unwrap() + 4),
        acts[4] is Relay,
        acts[5] is Close,
        final(cs[5]).phase() is Over,
{
    assert(call_ensures(HttpClient::step, (cs[0], rs[0], es[0]), acts[0]));
    assert(*final(cs[0]) == *cs[1]);
    assert(call_ensures(HttpClient::step, (cs[1], rs[1], es[1]), acts[1]));
    assert(*final(cs[1]) == *cs[2]);
    assert(call_ensures(HttpClient::step, (cs[2], rs[2], es[2]), acts[2]));
    assert(*final(cs[2]) == *cs[3]);
    assert(call_ensures(HttpClient::step, (cs[3], rs[3], es[3]), acts[3]));
    assert(*final(cs[3]) == *cs[4]);
    assert(call_ensures(HttpClient::step, (cs[4], rs[4], es[4]), acts[4]));
    assert(*final(cs[4]) == *cs[5]);
    assert(call_ensures(HttpClient::step, (cs[5], rs[5], es[5]), acts[5]));
}

/// A host that is written as an address is dialled at that very address and with the
/// port that was asked for, whether for a tunnel or for a plain request.
pub proof fn law_literal_hosts_are_dialled(
    c: &mut HttpClient,
    r: &mut ListenerStatsRegistry,
    e: HttpEvent,
    a: HttpAction,
    whole: &[u8],
    end: Option<usize>,
    head: Vec<u8>,
    q: Result<Request, NetError>,
    authority: &str,
    to: Option<(String, u16)>,
    t: Result<ForwardTarget, NetError>,
    ip: Ip,
)
    requires
        call_ensures(HttpClient::step, (c, r, e), a),
        old(c).phase() is Head,
        e matches HttpEvent::Read(b) && b@.len() > 0 && whole@ == old(c).phase()->buf@ + b@,
        call_ensures(find_head_end, (whole,), end),
        end is Some,
        head@ == whole@.take(end.unwrap() + 4),
        call_ensures(parse_request, (head,), q),
        q is Ok,
        is_address(ip),
        authority@ == q->Ok_0.target@,
        call_ensures(split_authority, (authority, 443), to),
        call_ensures(forward_target, (&q->Ok_0,), t),
    ensures
        q->Ok_0.method@ == "CONNECT"@ && (to matches Some(v) && v.0@ == ip_text(ip)) ==> (
        a matches HttpAction::Dial(d) && d.ip@ == ip && d.port == to.unwrap().1),
        q->Ok_0.method@ != "CONNECT"@ && (t matches Ok(f) && f.host@ == ip_text(ip)) ==> (
        a matches HttpAction::Dial(d) && d.ip@ == ip && d.port == t->Ok_0.port),
{
    match ip {
        Ip::V4(o) => {
            law_v4_round_trip(o);
            law_ip_round_trip(ip);
            lemma_dotted_is_no_v6(o);
        },
        Ip::V6(o) => {
            law_v6_round_trip(o);
        },
    }
}

/// A dotted decimal text is no IPv6 address.
proof fn lemma_dotted_is_no_v6(o: Seq<u8>)
    requires
        o.len() == 4,
    ensures
        parse_v6(ip_text(Ip::V4(o))) is None,
{
    let s = ip_text(Ip::V4(o));
    law_v4_round_trip(o);
    crate::addr_laws::lemma_v4_chars(s);
    assert(!s.contains(':')) by {
        if s.contains(':') {
            let k = choose|k: int| 0 <= k < s.len() && s[k] == ':';
            assert(crate::addr_laws::v4_char(s[k]));
        }
    }
    lemma_no_double_colon(s, 0);
    crate::text::lemma_find_none(s, ':');
    crate::text::lemma_split_first(s, ':');
    let p = crate::text::split(s, ':');
    assert(p =~= seq![s]);
    assert(p.drop_last() =~= Seq::<Seq<char>>::empty());
    assert(crate::addr::group_values(p.drop_last()).len() == 0);
    assert(crate::addr::group_values(p).len() == 1);
}

proof fn lemma_no_double_colon(s: Seq<char>, from: int)
    requires
        0 <= from,
        !s.contains(':'),
    ensures
        crate::addr::double_colon(s, from) is None,
    decreases s.len() - from,
{
    if from + 1 < s.len() {
        assert(s[from] != ':') by {
            assert(s.contains(s[from]));
        }
        lemma_no_double_colon(s, from + 1);
    }
}

/// A request that makes no sense is answered with 400, and the connection ends; only a
/// tunnel to nowhere is not answered.
pub proof fn law_senseless_requests_are_answered(
    c: &mut HttpClient,
    r: &mut ListenerStatsRegistry,
    e: HttpEvent,
    a: HttpAction,
    whole: &[u8],
    end: Option<usize>,
    head: Vec<u8>,
    q: Result<Request, NetError>,
    t: Result<ForwardTarget, NetError>,
)
    requires
        call_ensures(HttpClient::step, (c, r, e), a),
        old(c).phase() is Head,
        e matches HttpEvent::Read(b) && b@.len() > 0 && whole@ == old(c).phase()->buf@ + b@,
        call_ensures(find_head_end, (whole,), end),
        end is Some,
        head@ == whole@.take(end.unwrap() + 4),
        call_ensures(parse_request, (head,), q),
        q matches Ok(req) ==> req.method@ != "CONNECT"@ && call_ensures(
            forward_target,
            (&req,),
            t,
        ) && t is Err,
    ensures
        final(c).phase() is Over,
        a matches HttpAction::Refuse(b, err) && b@ == encode_utf8(
            "HTTP/1.1 "@ + dec_text(400) + " "@ + "Bad Request"@
                + "\r\nContent-Length: 0\r\nConnection: close\r\n\r\n"@,
        ) && err.kind == ErrorKind::InvalidData && err.message@ == (match q {
            Err(f) => f.message@,
            Ok(_) => t->Err_0.message@,
        }),
{
}

/// A tunnel to an authority that makes no sense ends without an answer.
pub proof fn law_senseless_tunnels_end(
    c: &mut HttpClient,
    r: &mut ListenerStatsRegistry,
    e: HttpEvent,
    a: HttpAction,
    whole: &[u8],
    end: Option<usize>,
    head: Vec<u8>,
    q: Result<Request, NetError>,
    authority: &str,
    to: Option<(String, u16)>,
)
    requires
        call_ensures(HttpClient::step, (c, r, e), a),
        old(c).phase() is Head,
        e matches HttpEvent::Read(b) && b@.len() > 0 && whole@ == old(c).phase()->buf@ + b@,
        call_ensures(find_head_end, (whole,), end),
        end is Some,
        head@ == whole@.take(end.unwrap() + 4),
        call_ensures(parse_request, (head,), q),
        q matches Ok(req) && req.method@ == "CONNECT"@ && authority@ == req.target@,
        call_ensures(split_authority, (authority, 443), to),
        to is None,
    ensures
        final(c).phase() is Over,
        a matches HttpAction::Fail(err) && err.kind == ErrorKind::InvalidData && err.message@
            == "bad CONNECT authority"@,
{
}

/// A host that is not resolved or not reached is answered with 502, and the connection
/// ends.
pub proof fn law_unreached_hosts_are_answered(
    c: &mut HttpClient,
    r: &mut ListenerStatsRegistry,
    e: HttpEvent,
    a: HttpAction,
)
    requires
        call_ensures(HttpClient::step, (c, r, e), a),
    ensures
        ({
            let bad_gateway = encode_utf8(
                "HTTP/1.1 "@ + dec_text(502) + " "@ + "Bad Gateway"@
                    + "\r\nContent-Length: 0\r\nConnection: close\r\n\r\n"@,
            );
            &&& old(c).phase() is Resolving && (e matches HttpEvent::ResolveFailed(m)) ==> {
                &&& final(c).phase() is Over
                &&& a matches HttpAction::Refuse(b, err) && b@ == bad_gateway && err.kind
                    == ErrorKind::Other && err.message@ == e->ResolveFailed_0@
            }
            &&& old(c).phase() is Dialing && e is DialFailed ==> {
                &&& final(c).phase() is Over
                &&& a matches HttpAction::RefuseAsMet(b) && b@ == bad_gateway
            }
        }),
{
}

/// What fails or is over stays over; nothing is sent to anyone, dialled or relayed but
/// where it is due.
pub proof fn law_http_clients_do_what_is_due(
    c: &mut HttpClient,
    r: &mut ListenerStatsRegistry,
    e: HttpEvent,
    a: HttpAction,
)
    requires
        call_ensures(HttpClient::step, (c, r, e), a),
    ensures
        old(c).phase() is Over ==> a is Ignore && final(c).phase() is Over && final(r)@ == old(r)@,
        e is Failed && !(old(c).phase() is Over) ==> a is FailAsMet && final(c).phase() is Over,
        a is Resolve ==> old(c).phase() is Head,
        a is Dial ==> old(c).phase() is Head || old(c).phase() is Resolving && e is Resolved,
        a is SendClient ==> old(c).phase() is Dialing && e is Dialed,
        a is SendRemote ==> e is Dialed || e is Sent || e is Written,
        a is Relay ==> e is Sent || e is Written,
        a is Relay <==> final(c).phase() is Relaying && !(old(c).phase() is Relaying),
        a is Close ==> old(c).phase() is Relaying && e is Ended,
        old(c).phase() is Relaying && e is Ended ==> a is Close && final(c).phase() is Over,
{
}

/// An event that does not belong where the client is changes nothing.
pub proof fn law_stray_events_are_ignored(
    c: &mut HttpClient,
    r: &mut ListenerStatsRegistry,
    e: HttpEvent,
    a: HttpAction,
)
    requires
        call_ensures(HttpClient::step, (c, r, e), a),
    ensures
        a is Ignore ==> final(c).phase() == old(c).phase() && final(r)@ == old(r)@,
        ({
            let p = old(c).phase();
            let due = match e {
                HttpEvent::Start => p is Head,
                HttpEvent::Read(_) => p is Head,
                HttpEvent::Failed => !(p is Over),
                HttpEvent::Resolved(_) => p is Resolving,
                HttpEvent::ResolveFailed(_) => p is Resolving,
                HttpEvent::Dialed => p is Dialing,
                HttpEvent::DialFailed => p is Dialing,
                HttpEvent::Sent => p is Accepting,
                HttpEvent::Written => p is WritingHead || p is WritingExtra,
                HttpEvent::Ended => p is Relaying,
            };
            a is Ignore <==> !due
        }),
{
}

} // verus!
