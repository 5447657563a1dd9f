//! The SOCKS5 proxy.
use yggstack::addr::{read_socket, Ipv6Addr, SocketAddr};
use yggstack::error::{ErrorKind, NetError};
use yggstack::proxy::{ProxyAction, ProxyEvent};
use yggstack::resolver::{NameResolver, Plan};
use yggstack::socks::{
    build_udp_header, parse_udp_header, relay_bind_address, relay_target, send_reply, DatagramAction,
    DatagramEvent, DatagramRelay, Socks5Server, SocksAction, SocksClient, SocksEvent,
};
use yggstack::stats::ListenerStatsRegistry;

fn at(s: &str) -> SocketAddr {
    let c: Vec<char> = s.chars().collect();
    read_socket(&c).unwrap()
}

fn client(r: &mut ListenerStatsRegistry) -> SocksClient {
    let s = Socks5Server::new(NameResolver::new(""));
    let l = s.serve_tcp(&at("127.0.0.1:1080"), r);
    s.handle_client(&l)
}

fn reads(a: SocksAction, n: usize) {
    assert!(matches!(a, SocksAction::Read(k) if k == n));
}

fn bytes(c: &mut SocksClient, r: &mut ListenerStatsRegistry, b: &[u8]) -> SocksAction {
    c.step(r, SocksEvent::Bytes(b.to_vec()))
}

/// Go as far as the request.
fn greet(c: &mut SocksClient, r: &mut ListenerStatsRegistry) {
    reads(c.step(r, SocksEvent::Start), 1);
    reads(bytes(c, r, &[5]), 1);
    reads(bytes(c, r, &[2]), 2);
    assert!(matches!(bytes(c, r, &[2, 0]), SocksAction::Send(b) if b == vec![5, 0]));
    reads(c.step(r, SocksEvent::Sent), 1);
    reads(bytes(c, r, &[5]), 3);
}

fn refused(a: SocksAction, rep: u8, kind: fn(&NetError) -> bool, message: &str) {
    match a {
        SocksAction::Refuse(b, e) => {
            assert_eq!(b[1], rep);
            assert!(kind(&e));
            assert_eq!(e.message, message);
        }
        _ => panic!(),
    }
}

#[test]
fn clients_connect_to_addresses() {
    let mut r = ListenerStatsRegistry::new();
    let mut c = client(&mut r);
    greet(&mut c, &mut r);
    reads(bytes(&mut c, &mut r, &[1, 0, 4]), 16);
    let mut o = [0u8; 16];
    o[0] = 2;
    o[15] = 7;
    reads(bytes(&mut c, &mut r, &o), 2);
    match bytes(&mut c, &mut r, &[0, 80]) {
        SocksAction::Dial(to) => assert_eq!(to.to_text(), "[200::7]:80"),
        _ => panic!(),
    }
    match c.step(&mut r, SocksEvent::Dialed) {
        SocksAction::Send(b) => {
            assert_eq!(&b[..4], &[5, 0, 0, 4]);
            assert_eq!(&b[4..20], &o);
            assert_eq!(&b[20..], &[0, 80]);
        }
        _ => panic!(),
    }
    assert!(r.to_json().contains("\"ActiveConns\":0"));
    assert!(matches!(c.step(&mut r, SocksEvent::Sent), SocksAction::Relay));
    assert!(r.to_json().contains("\"Kind\":\"socks\",\"Listen\":\"127.0.0.1:1080\",\"Target\":\"\",\"ActiveConns\":1"));
    assert!(matches!(c.step(&mut r, SocksEvent::Ended), SocksAction::Close));
    assert!(r.to_json().contains("\"ActiveConns\":0,\"TotalConns\":1"));
    assert!(matches!(c.step(&mut r, SocksEvent::Ended), SocksAction::Ignore));
}

#[test]
fn names_are_resolved_first() {
    let mut r = ListenerStatsRegistry::new();
    let mut c = client(&mut r);
    greet(&mut c, &mut r);
    reads(bytes(&mut c, &mut r, &[1, 0, 3]), 1);
    reads(bytes(&mut c, &mut r, &[8]), 8);
    reads(bytes(&mut c, &mut r, b"host.ygg"), 2);
    match bytes(&mut c, &mut r, &[1, 187]) {
        SocksAction::Resolve(n) => assert_eq!(n, "host.ygg"),
        _ => panic!(),
    }
    match c.step(&mut r, SocksEvent::Resolved(Ipv6Addr { octets: [2; 16] })) {
        SocksAction::Dial(to) => assert_eq!(to.port(), 443),
        _ => panic!(),
    }
    match c.step(&mut r, SocksEvent::DialFailed(ErrorKind::ConnectionRefused)) {
        SocksAction::RefuseAsMet(b) => assert_eq!(b[1], 5),
        _ => panic!(),
    }
}

#[test]
fn names_that_do_not_resolve_are_refused() {
    let mut r = ListenerStatsRegistry::new();
    let mut c = client(&mut r);
    greet(&mut c, &mut r);
    reads(bytes(&mut c, &mut r, &[1, 0, 3]), 1);
    reads(bytes(&mut c, &mut r, &[1]), 1);
    reads(bytes(&mut c, &mut r, b"h"), 2);
    let _ = bytes(&mut c, &mut r, &[1, 187]);
    let a = c.step(&mut r, SocksEvent::ResolveFailed("nope".to_string()));
    refused(a, 1, |e| matches!(e.kind, ErrorKind::Other), "nope");
}

#[test]
fn other_protocols_and_methods_are_refused() {
    let mut r = ListenerStatsRegistry::new();
    let mut c = client(&mut r);
    let _ = c.step(&mut r, SocksEvent::Start);
    match bytes(&mut c, &mut r, &[4]) {
        SocksAction::Fail(e) => assert_eq!(e.message, "not SOCKS5"),
        _ => panic!(),
    }
    let mut c = client(&mut r);
    let _ = c.step(&mut r, SocksEvent::Start);
    let _ = bytes(&mut c, &mut r, &[5]);
    let _ = bytes(&mut c, &mut r, &[1]);
    let a = bytes(&mut c, &mut r, &[2]);
    refused(a, 0xff, |e| matches!(e.kind, ErrorKind::PermissionDenied), "no acceptable auth");
    let mut c = client(&mut r);
    greet(&mut c, &mut r);
    let a = bytes(&mut c, &mut r, &[1, 0, 9]);
    refused(a, 8, |e| matches!(e.kind, ErrorKind::InvalidData), "unknown ATYP 9");
    let mut c = client(&mut r);
    greet(&mut c, &mut r);
    let _ = bytes(&mut c, &mut r, &[2, 0, 1]);
    let _ = bytes(&mut c, &mut r, &[1, 2, 3, 4]);
    let a = bytes(&mut c, &mut r, &[0, 80]);
    refused(a, 1, |e| matches!(e.kind, ErrorKind::Unsupported), "unsupported CMD 2");
    let mut c = client(&mut r);
    greet(&mut c, &mut r);
    let _ = bytes(&mut c, &mut r, &[1, 0, 3]);
    let _ = bytes(&mut c, &mut r, &[1]);
    let a = bytes(&mut c, &mut r, &[0xff]);
    refused(a, 8, |e| matches!(e.kind, ErrorKind::InvalidData), "invalid domain");
    let mut c = client(&mut r);
    assert!(matches!(c.step(&mut r, SocksEvent::ReadFailed), SocksAction::FailAsMet));
}

#[test]
fn associations_relay_datagrams() {
    let mut r = ListenerStatsRegistry::new();
    let mut c = client(&mut r);
    greet(&mut c, &mut r);
    let _ = bytes(&mut c, &mut r, &[3, 0, 1]);
    let _ = bytes(&mut c, &mut r, &[0, 0, 0, 0]);
    assert!(matches!(bytes(&mut c, &mut r, &[0, 0]), SocksAction::BindRelay));
    assert_eq!(relay_bind_address(at("127.0.0.1:1080")).to_text(), "127.0.0.1:0");
    match c.step(&mut r, SocksEvent::RelayBound(at("127.0.0.1:999"))) {
        SocksAction::Send(b) => assert_eq!(b, vec![5, 0, 0, 1, 127, 0, 0, 1, 3, 231]),
        _ => panic!(),
    }
    assert!(matches!(c.step(&mut r, SocksEvent::Sent), SocksAction::RelayDatagrams));
    assert!(r.to_json().contains("\"ActiveConns\":1"));
    assert!(matches!(c.step(&mut r, SocksEvent::Ended), SocksAction::Close));
    assert!(r.to_json().contains("\"ActiveConns\":0"));
}

#[test]
fn datagrams_carry_their_destination() {
    let from = at("[200::9]:53");
    let b = build_udp_header(from, b"answer");
    assert_eq!(&b[..4], &[0, 0, 0, 4]);
    let (to, n) = relay_target(&b).unwrap();
    assert_eq!(to.to_text(), "[200::9]:53");
    assert_eq!(&b[n..], b"answer");
    let b = build_udp_header(at("1.2.3.4:5"), b"x");
    assert_eq!(b, vec![0, 0, 0, 1, 1, 2, 3, 4, 0, 5, b'x']);
    let (to, n) = parse_udp_header(&b, 1).unwrap();
    assert_eq!((to.to_text().as_str(), n), ("1.2.3.4:5", 10));
    assert!(parse_udp_header(&b, 3).is_none());
    assert!(parse_udp_header(&b[..9], 1).is_none());
    assert!(relay_target(&[0, 0, 1, 1, 1, 2, 3, 4, 0, 5, 1]).is_none());
    assert!(relay_target(&[0, 0, 0]).is_none());
}

#[test]
fn datagram_relays_count_both_directions() {
    let mut r = ListenerStatsRegistry::new();
    let s = Socks5Server::new(NameResolver::new(""));
    let l = s.serve_tcp(&at("127.0.0.1:1080"), &mut r);
    let mut d = DatagramRelay { entry: l.entry(), sending: 0 };
    let req = build_udp_header(at("[200::9]:53"), b"query");
    match d.step(&mut r, DatagramEvent::Received(req)) {
        DatagramAction::Send { to, payload } => {
            assert_eq!(to.to_text(), "[200::9]:53");
            assert_eq!(payload, b"query");
        }
        _ => panic!(),
    }
    assert!(matches!(d.step(&mut r, DatagramEvent::Sent), DatagramAction::AwaitReply));
    let reply = DatagramEvent::Reply { from: at("[200::9]:53"), payload: b"reply!".to_vec() };
    match d.step(&mut r, reply) {
        DatagramAction::Return(b) => assert_eq!(b, build_udp_header(at("[200::9]:53"), b"reply!")),
        _ => panic!(),
    }
    assert!(r.to_json().contains("\"RXBytes\":6,\"TXBytes\":5"));
    assert!(matches!(d.step(&mut r, DatagramEvent::Received(vec![1])), DatagramAction::Receive));
    assert!(matches!(d.step(&mut r, DatagramEvent::NoReply), DatagramAction::Receive));
    assert!(matches!(d.step(&mut r, DatagramEvent::SendFailed), DatagramAction::Receive));
}

#[test]
fn replies_have_a_bound_address() {
    let mut none = vec![5, 1, 0, 4];
    none.extend_from_slice(&[0; 18]);
    assert_eq!(send_reply(1, None), none);
    assert_eq!(send_reply(0, Some(at("1.2.3.4:258"))), vec![5, 0, 0, 1, 1, 2, 3, 4, 1, 2]);
    assert_eq!(send_reply(0, Some(at("[::1]:1"))).len(), 22);
}

#[test]
fn servers_accept_until_they_stop() {
    let mut r = ListenerStatsRegistry::new();
    let s = Socks5Server::new(NameResolver::new("200::53"));
    assert!(matches!(s.resolve("host"), Ok(Plan::Query(_))));
    let mut l = s.serve_tcp(&at("127.0.0.1:1080"), &mut r);
    assert!(matches!(l.step(&mut r, ProxyEvent::Accepted), ProxyAction::Serve));
    assert!(matches!(l.step(&mut r, ProxyEvent::AcceptFailed), ProxyAction::Accept));
    assert!(matches!(l.step(&mut r, ProxyEvent::Stop), ProxyAction::Exit));
    assert_eq!(r.to_json(), "[]");
    assert!(matches!(l.step(&mut r, ProxyEvent::Accepted), ProxyAction::Exit));
}
