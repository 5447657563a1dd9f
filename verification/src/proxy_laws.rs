//! What holds of the proxy servers and of what their clients count.
use vstd::prelude::*;
use crate::addr::{SocketAddr, socket_text};
use crate::http_proxy::{
    HttpAction, HttpClient, HttpEvent, HttpPhase, HttpProxyServer,
};
use crate::proxy::ProxyListener;
use crate::resolver::{NameResolver, Plan};
use crate::socks::{
    DatagramAction, DatagramEvent, DatagramRelay, Socks5Server, SocksAction, SocksClient,
    SocksEvent,
};
use crate::stats::{EntryId, ListenerStatsRegistry};
use crate::stats_laws::{can_count, counted_on};

verus! {

/// A SOCKS client counts as a connection while bytes or datagrams are relayed for it,
/// from the moment that begins until it ends, and at no other time.
pub proof fn law_socks_clients_are_counted(
    c: &mut SocksClient,
    r: &mut ListenerStatsRegistry,
    e: SocksEvent,
    a: SocksAction,
)
    requires
        call_ensures(SocksClient::step, (c, r, e), a),
        can_count(
            old(r)@,
            old(c).num(),
            0,
            old(c).phase() is Relaying || old(c).phase() is Associated,
        ),
    ensures
        ({
            let was = old(c).phase() is Relaying || old(c).phase() is Associated;
            let now = final(c).phase() is Relaying || final(c).phase() is Associated;
            &&& !was && now ==> counted_on(old(r)@, final(r)@, old(c).num(), 1, 1, 0, 0)
            &&& was && !now ==> counted_on(old(r)@, final(r)@, old(c).num(), -1, 0, 0, 0)
            &&& was == now ==> final(r)@ == old(r)@
        }),
        final(c).num() == old(c).num(),
{
}

/// An HTTP client counts as a connection while bytes are relayed for it; what it sent
/// with and behind its head counts as sent once it was written to the destination.
pub proof fn law_http_clients_are_counted(
    c: &mut HttpClient,
    r: &mut ListenerStatsRegistry,
    e: HttpEvent,
    a: HttpAction,
)
    requires
        call_ensures(HttpClient::step, (c, r, e), a),
        can_count(
            old(r)@,
            old(c).num(),
            match old(c).phase() {
                HttpPhase::WritingHead { len, .. } => len as nat,
                HttpPhase::WritingExtra { len } => len as nat,
                _ => 0,
            },
            old(c).phase() is Relaying,
        ),
    ensures
        ({
            let sent: int = match (old(c).phase(), e) {
                (HttpPhase::WritingHead { len, .. }, HttpEvent::Written) => len as int,
                (HttpPhase::WritingExtra { len }, HttpEvent::Written) => len as int,
                _ => 0,
            };
            let was = old(c).phase() is Relaying;
            let now = final(c).phase() is Relaying;
            &&& !was && now ==> counted_on(old(r)@, final(r)@, old(c).num(), 1, 1, 0, sent)
            &&& was && !now ==> counted_on(old(r)@, final(r)@, old(c).num(), -1, 0, 0, sent)
            &&& was == now ==> counted_on(old(r)@, final(r)@, old(c).num(), 0, 0, 0, sent)
        }),
        final(c).num() == old(c).num(),
{
}

/// The payload of a datagram counts as sent once it was sent on, and that of a reply as
/// received; nothing else counts.
pub proof fn law_relayed_datagrams_are_counted(
    d: &mut DatagramRelay,
    r: &mut ListenerStatsRegistry,
    e: DatagramEvent,
    a: DatagramAction,
)
    requires
        call_ensures(DatagramRelay::step, (d, r, e), a),
        can_count(
            old(r)@,
            old(d).entry.num(),
            match e {
                DatagramEvent::Reply { payload, .. } => payload@.len(),
                _ => old(d).sending as nat,
            },
            false,
        ),
    ensures
        final(d).entry == old(d).entry,
        e is Sent ==> counted_on(
            old(r)@,
            final(r)@,
            old(d).entry.num(),
            0,
            0,
            0,
            old(d).sending as int,
        ),
        e matches DatagramEvent::Reply { payload, .. } ==> counted_on(
            old(r)@,
            final(r)@,
            old(d).entry.num(),
            0,
            0,
            payload@.len() as int,
            0,
        ),
        !(e is Sent) && !(e is Reply) ==> final(r)@ == old(r)@,
        a matches DatagramAction::Send { payload, .. } ==> final(d).sending == payload@.len(),
        !(a is Send) ==> final(d).sending == old(d).sending,
{
}

/// A proxy server is registered once, under its name, with where it listens and no
/// target; other listeners stay registered as they are.
pub proof fn law_proxy_servers_are_registered(
    s: &Socks5Server,
    h: &HttpProxyServer,
    local: &SocketAddr,
    a: &mut ListenerStatsRegistry,
    x: ProxyListener,
    b: &mut ListenerStatsRegistry,
    y: ProxyListener,
    other: Seq<char>,
)
    requires
        call_ensures(Socks5Server::serve_tcp, (s, local, a), x),
        call_ensures(HttpProxyServer::serve_tcp, (h, local, b), y),
    ensures
        x.key_text() == seq!['s', 'o', 'c', 'k', 's'],
        y.key_text() == seq!['h', 't', 't', 'p'],
        !x.stopped() && !y.stopped(),
        final(a)@.contains_key(x.key_text()) && x.num() == final(a)@[x.key_text()].id,
        final(b)@.contains_key(y.key_text()) && y.num() == final(b)@[y.key_text()].id,
        !old(a)@.contains_key(x.key_text()) ==> {
            let e = final(a)@[x.key_text()];
            e.kind == "socks"@ && e.listen == socket_text(local@) && e.target.len() == 0 && e.active
                == 0 && e.total == 0 && e.rx == 0 && e.tx == 0
        },
        !old(b)@.contains_key(y.key_text()) ==> {
            let e = final(b)@[y.key_text()];
            e.kind == "http"@ && e.listen == socket_text(local@) && e.target.len() == 0 && e.active
                == 0 && e.total == 0 && e.rx == 0 && e.tx == 0
        },
        old(a)@.contains_key(other) ==> final(a)@.contains_key(other) && final(a)@[other]
            == old(a)@[other],
        old(b)@.contains_key(other) ==> final(b)@.contains_key(other) && final(b)@[other]
            == old(b)@[other],
        final(a)@.contains_key(other) ==> other == x.key_text() || old(a)@.contains_key(other),
        final(b)@.contains_key(other) ==> other == y.key_text() || old(b)@.contains_key(other),
{
    reveal_strlit("socks");
    reveal_strlit("http");
    assert("socks"@ =~= seq!['s', 'o', 'c', 'k', 's']);
    assert("http"@ =~= seq!['h', 't', 't', 'p']);
}

/// A client counts on the entry of the server that it connected to, and begins at the
/// beginning.
pub proof fn law_clients_belong_to_their_server(
    s: &Socks5Server,
    h: &HttpProxyServer,
    l: &ProxyListener,
    c: SocksClient,
    d: HttpClient,
    entry: EntryId,
    n: HttpClient,
    m: SocksClient,
)
    requires
        call_ensures(Socks5Server::handle_client, (s, l), c),
        call_ensures(HttpProxyServer::handle_client, (h, l), d),
        call_ensures(HttpClient::new, (entry,), n),
        call_ensures(SocksClient::new, (entry,), m),
    ensures
        c.num() == l.num() && c.phase() is Version,
        d.num() == l.num() && d.phase() is Head && d.phase()->buf@.len() == 0,
        n.num() == entry.num() && n.phase() is Head && n.phase()->buf@.len() == 0,
        m.num() == entry.num() && m.phase() is Version,
{
}

/// Whether two plans to resolve a name are the same.
pub open spec fn same_plan(a: Result<Plan, String>, b: Result<Plan, String>) -> bool {
    match (a, b) {
        (Ok(Plan::Address(x)), Ok(Plan::Address(y))) => x.octets@ == y.octets@,
        (Ok(Plan::Key(x)), Ok(Plan::Key(y))) => x@ == y@,
        (Ok(Plan::Query(x)), Ok(Plan::Query(y))) => x@ == y@,
        (Err(x), Err(y)) => x@ == y@,
        _ => false,
    }
}

/// A proxy server resolves names as the resolver does that it was given.
pub proof fn law_proxy_servers_resolve_with_their_resolver(
    n: &NameResolver,
    s: Socks5Server,
    h: HttpProxyServer,
    name: &str,
    r: Result<Plan, String>,
    a: Result<Plan, String>,
    b: Result<Plan, String>,
)
    requires
        call_ensures(Socks5Server::new, (*n,), s),
        call_ensures(HttpProxyServer::new, (*n,), h),
        call_ensures(NameResolver::resolve, (n, name), r),
        call_ensures(Socks5Server::resolve, (&s, name), a),
        call_ensures(HttpProxyServer::resolve, (&h, name), b),
    ensures
        same_plan(r, a),
        same_plan(r, b),
{
}

} // verus!
