//! HTTP proxy server on the netstack.
//!
//! Supports CONNECT tunneling (HTTPS and other TCP protocols) and forwarding of
//! plain-HTTP absolute-URI requests, rewritten to origin-form with
//! `Connection: close` — one origin connection per request, the client connection
//! closes when the response completes. Authentication: none.
use vstd::prelude::*;
use vstd::utf8::encode_utf8;
use crate::addr::{
    Ip, IpAddr, Ipv6Addr, SocketAddr, endpoint, parse_v4, parse_v6, read_v4, read_v6, socket_text,
};
use crate::bytes::{copy_range, push_bytes};
use crate::error::{ErrorKind, NetError};
use crate::http_head::{
    CHUNK_BYTES, MAX_HEAD_BYTES, Head, authority_parts, blank_line, find_head_end, forward_target,
    head_of_bytes, parse_request, rewrite_head, rewritten, send_simple_response, simple_response,
    split_authority, target_of,
};
use crate::proxy::ProxyListener;
use crate::resolver::{NameResolver, Plan, plan_matches, resolution};
use crate::stats::{
    ConnGuard, Dir, Entry, EntryId, HTTP_STATS_KEY, ListenerStatsRegistry, change, closed, opened,
    registered, relayed,
};
use crate::text::{chars_of, same_text};

verus! {

/// What is sent once the destination is reached: a rewritten head, unless the
/// client asked for a tunnel, and what the client sent behind its own head.
pub struct HttpJob {
    pub head: Option<Vec<u8>>,
    pub extra: Vec<u8>,
}

/// How far a client has come.
pub enum HttpPhase {
    /// The head is read; so much of it has come.
    Head { buf: Vec<u8> },
    /// The host is being resolved.
    Resolving { port: u16, job: HttpJob },
    /// The destination is being dialled.
    Dialing { job: HttpJob },
    /// The client is told that the tunnel is there.
    Accepting { extra: Vec<u8> },
    /// The rewritten head of so many bytes is sent.
    WritingHead { len: usize, extra: Vec<u8> },
    /// So many bytes that the client sent behind its head are sent.
    WritingExtra { len: usize },
    /// Bytes are relayed.
    Relaying,
    /// It is over.
    Over,
}

/// What happened to a client.
pub enum HttpEvent {
    /// It connected.
    Start,
    /// These bytes were read; none at the end.
    Read(Vec<u8>),
    /// Reading or writing failed.
    Failed,
    /// The host was resolved.
    Resolved(Ipv6Addr),
    /// The host was not resolved, for this reason.
    ResolveFailed(String),
    /// The destination was reached.
    Dialed,
    /// The destination was not reached.
    DialFailed,
    /// What was to be sent to the client was sent.
    Sent,
    /// What was to be sent to the destination was sent.
    Written,
    /// One of the two copies came to an end, or the server stops.
    Ended,
}

/// What is done for a client next.
pub enum HttpAction {
    /// Read up to so many bytes.
    Read(usize),
    /// Give up with this error.
    Fail(NetError),
    /// Give up with the error that was met.
    FailAsMet,
    /// Send this response, then give up with this error.
    Refuse(Vec<u8>, NetError),
    /// Send this response, then give up with the error that was met.
    RefuseAsMet(Vec<u8>),
    /// Resolve this host.
    Resolve(String),
    /// Dial this address.
    Dial(SocketAddr),
    /// Send these bytes to the client.
    SendClient(Vec<u8>),
    /// Send these bytes to the destination.
    SendRemote(Vec<u8>),
    /// Relay bytes between the client and the destination.
    Relay,
    /// Close everything.
    Close,
    /// Nothing: the event does not belong here.
    Ignore,
}

/// The response to a request that makes no sense.
pub open spec fn bad_request() -> Seq<u8> {
    encode_utf8(simple_response(400, "Bad Request"@))
}

/// The response where the destination is not reached.
pub open spec fn bad_gateway() -> Seq<u8> {
    encode_utf8(simple_response(502, "Bad Gateway"@))
}

/// What a client is told once its tunnel is there.
pub open spec fn tunnel_established() -> Seq<u8> {
    encode_utf8("HTTP/1.1 200 Connection Established\r\n\r\n"@)
}

/// Whether an action gives up with this error.
pub open spec fn http_fails(a: HttpAction, kind: ErrorKind, message: Seq<char>) -> bool {
    a matches HttpAction::Fail(e) && e.says(kind, message)
}

/// Whether an action refuses with this response and error.
pub open spec fn http_refuses(
    a: HttpAction,
    response: Seq<u8>,
    kind: ErrorKind,
    message: Seq<char>,
) -> bool {
    a matches HttpAction::Refuse(b, e) && b@ == response && e.says(kind, message)
}

/// Whether a job is to send this head and these bytes.
pub open spec fn job_is(job: HttpJob, head: Option<Seq<u8>>, extra: Seq<u8>) -> bool {
    &&& job.extra@ == extra
    &&& match head {
        Some(h) => job.head matches Some(b) && b@ == h,
        None => job.head is None,
    }
}

/// How a host is reached: a literal address is dialled, any other host is resolved
/// first.
pub open spec fn routes_to(
    host: Seq<char>,
    port: nat,
    head: Option<Seq<u8>>,
    extra: Seq<u8>,
    q: HttpPhase,
    a: HttpAction,
) -> bool {
    let literal = match (parse_v6(host), parse_v4(host)) {
        (Some(o), _) => Some(Ip::V6(o)),
        (None, Some(o)) => Some(Ip::V4(o)),
        (None, None) => None,
    };
    match literal {
        Some(ip) => {
            &&& q matches HttpPhase::Dialing { job } && job_is(job, head, extra)
            &&& a matches HttpAction::Dial(to) && to@ == endpoint(ip, port)
        },
        None => {
            &&& q matches HttpPhase::Resolving { port: p, job } && p == port && job_is(
                job,
                head,
                extra,
            )
            &&& a matches HttpAction::Resolve(name) && name@ == host
        },
    }
}

/// What a request head leads to.
pub open spec fn head_leads_to(head: Seq<u8>, extra: Seq<u8>, q: HttpPhase, a: HttpAction) -> bool {
    match head_of_bytes(head) {
        Err(m) => q is Over && http_refuses(a, bad_request(), ErrorKind::InvalidData, m),
        Ok(h) => if h.method == "CONNECT"@ {
            match authority_parts(h.target, 443) {
                None => q is Over && http_fails(
                    a,
                    ErrorKind::InvalidData,
                    "bad CONNECT authority"@,
                ),
                Some((host, port)) => routes_to(host, port, None, extra, q, a),
            }
        } else {
            match target_of(h) {
                Err(m) => q is Over && http_refuses(a, bad_request(), ErrorKind::InvalidData, m),
                Ok(t) => routes_to(
                    t.host,
                    t.port,
                    Some(encode_utf8(rewritten(h, t))),
                    extra,
                    q,
                    a,
                ),
            }
        },
    }
}

/// What the bytes that have come lead to: where they hold a whole head, it is
/// acted on; else more is read, up to the largest head.
pub open spec fn bytes_lead_to(buf: Seq<u8>, q: HttpPhase, a: HttpAction) -> bool {
    match blank_line(buf, 0) {
        Some(i) => head_leads_to(buf.take(i + 4), buf.skip(i + 4), q, a),
        None => if buf.len() > MAX_HEAD_BYTES {
            q is Over && http_fails(a, ErrorKind::InvalidData, "request head too large"@)
        } else {
            &&& q matches HttpPhase::Head { buf: b } && b@ == buf
            &&& a == HttpAction::Read(CHUNK_BYTES)
        },
    }
}

/// The relaying starts, once what the client sent behind its head has been sent.
pub open spec fn extra_or_relay(extra: Seq<u8>, q: HttpPhase, a: HttpAction) -> bool {
    if extra.len() > 0 {
        &&& q matches HttpPhase::WritingExtra { len } && len == extra.len()
        &&& a matches HttpAction::SendRemote(b) && b@ == extra
    } else {
        q is Relaying && a is Relay
    }
}

/// What an event leads to.
pub open spec fn http_leads_to(p: HttpPhase, event: HttpEvent, q: HttpPhase, a: HttpAction) -> bool {
    match (p, event) {
        (HttpPhase::Over, _) => q is Over && a is Ignore,
        (HttpPhase::Head { buf }, HttpEvent::Start) => bytes_lead_to(buf@, q, a),
        (HttpPhase::Head { buf }, HttpEvent::Read(b)) => if b@.len() == 0 {
            q is Over && http_fails(a, ErrorKind::UnexpectedEof, "eof in request head"@)
        } else {
            bytes_lead_to(buf@ + b@, q, a)
        },
        (_, HttpEvent::Failed) => q is Over && a is FailAsMet,
        (HttpPhase::Resolving { port, job }, HttpEvent::Resolved(ip)) => {
            &&& q == (HttpPhase::Dialing { job })
            &&& a matches HttpAction::Dial(to) && to@ == endpoint(Ip::V6(ip.octets@), port as nat)
        },
        (HttpPhase::Resolving { .. }, HttpEvent::ResolveFailed(e)) => {
            q is Over && http_refuses(a, bad_gateway(), ErrorKind::Other, e@)
        },
        (HttpPhase::Dialing { job }, HttpEvent::Dialed) => match job.head {
            None => {
                &&& q == (HttpPhase::Accepting { extra: job.extra })
                &&& a matches HttpAction::SendClient(b) && b@ == tunnel_established()
            },
            Some(head) => {
                &&& q == (HttpPhase::WritingHead { len: head.len(), extra: job.extra })
                &&& a == HttpAction::SendRemote(head)
            },
        },
        (HttpPhase::Dialing { .. }, HttpEvent::DialFailed) => {
            q is Over && (a matches HttpAction::RefuseAsMet(b) && b@ == bad_gateway())
        },
        (HttpPhase::Accepting { extra }, HttpEvent::Sent) => extra_or_relay(extra@, q, a),
        (HttpPhase::WritingHead { extra, .. }, HttpEvent::Written) => extra_or_relay(extra@, q, a),
        (HttpPhase::WritingExtra { .. }, HttpEvent::Written) => q is Relaying && a is Relay,
        (HttpPhase::Relaying, HttpEvent::Ended) => q is Over && a is Close,
        _ => q == p && a is Ignore,
    }
}

/// How many sent bytes an event counts.
pub open spec fn http_counted(p: HttpPhase, event: HttpEvent) -> nat {
    match (p, event) {
        (HttpPhase::WritingHead { len, .. }, HttpEvent::Written) => len as nat,
        (HttpPhase::WritingExtra { len }, HttpEvent::Written) => len as nat,
        _ => 0,
    }
}

/// The registry after an event.
pub open spec fn http_registry(
    m: Map<Seq<char>, Entry>,
    id: nat,
    p: HttpPhase,
    event: HttpEvent,
    q: HttpPhase,
) -> Map<Seq<char>, Entry> {
    let counted = if event is Written && (p is WritingHead || p is WritingExtra) {
        change(m, id, |e: Entry| relayed(e, Dir::Tx, http_counted(p, event)))
    } else {
        m
    };
    if !(p is Relaying) && q is Relaying {
        change(counted, id, |e: Entry| opened(e))
    } else if p is Relaying && !(q is Relaying) {
        change(counted, id, |e: Entry| closed(e))
    } else {
        counted
    }
}

/// The bytes of a text.
fn bytes_of(s: &str) -> (r: Vec<u8>)
    ensures
        r@ == encode_utf8(s@),
{
    let mut r: Vec<u8> = Vec::new();
    push_bytes(&mut r, s.as_bytes());
    assert(r@ =~= encode_utf8(s@));
    r
}

/// Refuse a request that makes no sense.
fn refuse(e: NetError) -> (r: (HttpPhase, HttpAction))
    ensures
        r.0 is Over,
        r.1 matches HttpAction::Refuse(b, f) && b@ == bad_request() && f == e,
{
    let response = send_simple_response(400, "Bad Request");
    (HttpPhase::Over, HttpAction::Refuse(bytes_of(response.as_str()), e))
}

/// Work out how a host is reached: IPv6 literal passthrough, IPv4 literal the same
/// way, any other host through the resolver.
fn resolve_remote(host: String, port: u16, job: HttpJob) -> (r: (HttpPhase, HttpAction))
    ensures
        forall|head: Option<Seq<u8>>, extra: Seq<u8>| #[trigger]
            job_is(job, head, extra) ==> routes_to(host@, port as nat, head, extra, r.0, r.1),
{
    let chars = chars_of(host.as_str());
    if let Some(a) = read_v6(chars.as_slice()) {
        return (
            HttpPhase::Dialing { job },
            HttpAction::Dial(SocketAddr::new(IpAddr::V6(a), port)),
        );
    }
    if let Some(a) = read_v4(chars.as_slice()) {
        return (
            HttpPhase::Dialing { job },
            HttpAction::Dial(SocketAddr::new(IpAddr::V4(a), port)),
        );
    }
    (HttpPhase::Resolving { port, job }, HttpAction::Resolve(host))
}

/// Act on a request head.
fn on_head(head: Vec<u8>, extra: Vec<u8>) -> (r: (HttpPhase, HttpAction))
    ensures
        head_leads_to(head@, extra@, r.0, r.1),
{
    let req = match parse_request(head) {
        Ok(q) => q,
        Err(e) => {
            return refuse(e);
        },
    };
    if same_text(req.method.as_str(), "CONNECT") {
        match split_authority(req.target.as_str(), 443) {
            None => (
                HttpPhase::Over,
                HttpAction::Fail(
                    NetError::new(ErrorKind::InvalidData, "bad CONNECT authority"),
                ),
            ),
            Some((host, port)) => {
                let job = HttpJob { head: None, extra };
                assert(job_is(job, None, extra@));
                resolve_remote(host, port, job)
            },
        }
    } else {
        match forward_target(&req) {
            Err(e) => refuse(e),
            Ok(target) => {
                let out = rewrite_head(&req, &target);
                let bytes = bytes_of(out.as_str());
                let job = HttpJob { head: Some(bytes), extra };
                assert(job_is(job, Some(encode_utf8(rewritten(req@, target@))), extra@));
                resolve_remote(target.host, target.port, job)
            },
        }
    }
}

/// Act on the bytes that have come.
fn on_bytes(buf: Vec<u8>) -> (r: (HttpPhase, HttpAction))
    ensures
        bytes_lead_to(buf@, r.0, r.1),
{
    let n = buf.len();
    match find_head_end(buf.as_slice()) {
        Some(i) => {
            let head = copy_range(buf.as_slice(), 0, i + 4);
            let extra = copy_range(buf.as_slice(), i + 4, n);
            assert(head@ =~= buf@.take(i + 4));
            assert(extra@ =~= buf@.skip(i + 4));
            on_head(head, extra)
        },
        None => if n > MAX_HEAD_BYTES {
            (
                HttpPhase::Over,
                HttpAction::Fail(
                    NetError::new(ErrorKind::InvalidData, "request head too large"),
                ),
            )
        } else {
            (HttpPhase::Head { buf }, HttpAction::Read(CHUNK_BYTES))
        },
    }
}

/// Start relaying, once what the client sent behind its head has been sent.
fn start_relay(extra: Vec<u8>) -> (r: (HttpPhase, HttpAction))
    ensures
        extra_or_relay(extra@, r.0, r.1),
{
    if extra.len() > 0 {
        (HttpPhase::WritingExtra { len: extra.len() }, HttpAction::SendRemote(extra))
    } else {
        (HttpPhase::Relaying, HttpAction::Relay)
    }
}

/// A client of the proxy.
pub struct HttpClient {
    phase: HttpPhase,
    entry: EntryId,
    guard: Option<ConnGuard>,
}

impl HttpClient {
    /// How far the client has come.
    pub closed spec fn phase(&self) -> HttpPhase {
        self.phase
    }

    /// The number of the entry that it counts on.
    pub closed spec fn num(&self) -> nat {
        self.entry.num()
    }

    /// There is a guard exactly while bytes are relayed.
    pub closed spec fn wf(&self) -> bool {
        match self.guard {
            Some(g) => self.phase is Relaying && g.held() && g.num() == self.entry.num(),
            None => !(self.phase is Relaying),
        }
    }

    /// A client that has just connected.
    pub fn new(entry: EntryId) -> (r: Self)
        ensures
            r.wf(),
            r.phase() matches HttpPhase::Head { buf } && buf@.len() == 0,
            r.num() == entry.num(),
    {
        HttpClient { phase: HttpPhase::Head { buf: Vec::new() }, entry, guard: None }
    }

    /// What to do after an event.
    pub fn step(&mut self, registry: &mut ListenerStatsRegistry, event: HttpEvent) -> (r: HttpAction)
        requires
            old(self).wf(),
            old(registry).wf(),
        ensures
            final(self).wf(),
            final(registry).wf(),
            final(registry).next() == old(registry).next(),
            final(self).num() == old(self).num(),
            http_leads_to(old(self).phase(), event, final(self).phase(), r),
            final(registry)@ == http_registry(
                old(registry)@,
                old(self).num(),
                old(self).phase(),
                event,
                final(self).phase(),
            ),
    {
        let mut phase = HttpPhase::Over;
        std::mem::swap(&mut phase, &mut self.phase);
        let (next, action) = match (phase, event) {
            (HttpPhase::Over, _) => (HttpPhase::Over, HttpAction::Ignore),
            (HttpPhase::Head { buf }, HttpEvent::Start) => on_bytes(buf),
            (HttpPhase::Head { buf }, HttpEvent::Read(b)) => {
                if b.len() == 0 {
                    (
                        HttpPhase::Over,
                        HttpAction::Fail(
                            NetError::new(ErrorKind::UnexpectedEof, "eof in request head"),
                        ),
                    )
                } else {
                    let mut all = buf;
                    push_bytes(&mut all, b.as_slice());
                    on_bytes(all)
                }
            },
            (_, HttpEvent::Failed) => (HttpPhase::Over, HttpAction::FailAsMet),
            (HttpPhase::Resolving { port, job }, HttpEvent::Resolved(ip)) => (
                HttpPhase::Dialing { job },
                HttpAction::Dial(SocketAddr::new(IpAddr::V6(ip), port)),
            ),
            (HttpPhase::Resolving { .. }, HttpEvent::ResolveFailed(e)) => {
                let response = send_simple_response(502, "Bad Gateway");
                (
                    HttpPhase::Over,
                    HttpAction::Refuse(
                        bytes_of(response.as_str()),
                        NetError { kind: ErrorKind::Other, message: e },
                    ),
                )
            },
            (HttpPhase::Dialing { job }, HttpEvent::Dialed) => match job.head {
                None => (
                    HttpPhase::Accepting { extra: job.extra },
                    HttpAction::SendClient(
                        bytes_of("HTTP/1.1 200 Connection Established\r\n\r\n"),
                    ),
                ),
                Some(head) => (
                    HttpPhase::WritingHead { len: head.len(), extra: job.extra },
                    HttpAction::SendRemote(head),
                ),
            },
            (HttpPhase::Dialing { .. }, HttpEvent::DialFailed) => {
                let response = send_simple_response(502, "Bad Gateway");
                (HttpPhase::Over, HttpAction::RefuseAsMet(bytes_of(response.as_str())))
            },
            (HttpPhase::Accepting { extra }, HttpEvent::Sent) => start_relay(extra),
            (HttpPhase::WritingHead { len, extra }, HttpEvent::Written) => {
                registry.relay(self.entry, Dir::Tx, len as u64);
                start_relay(extra)
            },
            (HttpPhase::WritingExtra { len }, HttpEvent::Written) => {
                registry.relay(self.entry, Dir::Tx, len as u64);
                (HttpPhase::Relaying, HttpAction::Relay)
            },
            (HttpPhase::Relaying, HttpEvent::Ended) => (HttpPhase::Over, HttpAction::Close),
            (p, _) => (p, HttpAction::Ignore),
        };
        let active = match &next {
            HttpPhase::Relaying => true,
            _ => false,
        };
        match &mut self.guard {
            Some(g) => {
                if !active {
                    g.release(registry);
                }
            },
            None => {
                if active {
                    self.guard = Some(ConnGuard::new(registry, self.entry));
                }
            },
        }
        if !active {
            self.guard = None;
        }
        self.phase = next;
        action
    }
}

// ── The server ────────────────────────────────────────────────────────────────

/// An HTTP proxy server.
pub struct HttpProxyServer {
    resolver: NameResolver,
}

impl HttpProxyServer {
    /// The name server that names are resolved with.
    pub closed spec fn nameserver(&self) -> Option<Seq<char>> {
        self.resolver.nameserver()
    }

    /// A server that resolves names with a resolver.
    pub fn new(resolver: NameResolver) -> (r: Self)
        ensures
            r.nameserver() == resolver.nameserver(),
    {
        HttpProxyServer { resolver }
    }

    /// Start serving on an address: the server is registered.
    pub fn serve_tcp(&self, local: &SocketAddr, registry: &mut ListenerStatsRegistry) -> (r:
        ProxyListener)
        requires
            old(registry).wf(),
            old(registry).next() < u64::MAX,
        ensures
            final(registry).wf(),
            final(registry)@ == registered(
                old(registry)@,
                old(registry).next(),
                HTTP_STATS_KEY@,
                "http"@,
                socket_text(local@),
                Seq::empty(),
            ),
            r.key_text() == HTTP_STATS_KEY@,
            r.num() == final(registry)@[HTTP_STATS_KEY@].id,
            !r.stopped(),
    {
        ProxyListener::new(HTTP_STATS_KEY, "http", local, registry)
    }

    /// A client that connected to a listener.
    pub fn handle_client(&self, listener: &ProxyListener) -> (r: HttpClient)
        ensures
            r.wf(),
            r.num() == listener.num(),
            r.phase() matches HttpPhase::Head { buf } && buf@.len() == 0,
    {
        HttpClient::new(listener.entry())
    }

    /// Work out how the name of a destination is resolved.
    pub fn resolve(&self, name: &str) -> (r: Result<Plan, String>)
        ensures
            plan_matches(r, resolution(name@, self.nameserver()), name@),
    {
        self.resolver.resolve(name)
    }
}

} // verus!
