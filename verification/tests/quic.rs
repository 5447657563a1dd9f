//! Checks of QUIC peers.
use yggstack::addr::{IpAddr, Ipv4Addr, Ipv6Addr, SocketAddr};
use yggstack::quic_check::{
    check_quic_rtt, order_addresses, parse_target, server_name, QuicAction, QuicCheck, QuicEvent,
};

fn v4(d: u8, port: u16) -> SocketAddr {
    SocketAddr::new(IpAddr::V4(Ipv4Addr { octets: [192, 0, 2, d] }), port)
}

fn v6(d: u8, port: u16) -> SocketAddr {
    let mut octets = [0u8; 16];
    octets[0] = 2;
    octets[15] = d;
    SocketAddr::new(IpAddr::V6(Ipv6Addr { octets }), port)
}

#[test]
fn parses_targets() {
    assert_eq!(
        parse_target("quic://example.org:1234?key=abc").as_deref(),
        Some("example.org:1234")
    );
    assert_eq!(parse_target("quic://example.org").as_deref(), Some("example.org:443"));
    assert_eq!(
        parse_target("quic://[200:1:2:3:4:5:6:7]:999").as_deref(),
        Some("[200:1:2:3:4:5:6:7]:999")
    );
    assert_eq!(parse_target("quic://").as_deref(), None);
    // Scheme is optional; the app always passes quic:// URIs.
    assert_eq!(parse_target("host:5").as_deref(), Some("host:5"));
}

#[test]
fn targets_get_a_default_port() {
    assert_eq!(parse_target("quic://[200::1]").as_deref(), Some("[200::1]:443"));
    assert_eq!(parse_target("quic://[200::1]:").as_deref(), Some("[200::1]:443"));
    assert_eq!(parse_target("quic://host:").as_deref(), Some("host::443"));
    assert_eq!(parse_target("quic://host:http").as_deref(), Some("host:http:443"));
    assert_eq!(parse_target("  host  ").as_deref(), Some("host:443"));
    assert_eq!(parse_target("quic://?key=abc").as_deref(), None);
}

#[test]
fn server_names_have_no_brackets() {
    assert_eq!(server_name("example.org:443"), "example.org");
    assert_eq!(server_name("[200::1]:443"), "200::1");
    assert_eq!(server_name("host"), "host");
}

#[test]
fn ipv6_is_tried_first_and_each_address_once() {
    let all = vec![v4(9, 1), v6(2, 1), v4(1, 1), v6(1, 2), v6(1, 1), v4(9, 1), v6(2, 1)];
    let r = order_addresses(&all);
    let texts: Vec<String> = r.iter().map(|a| a.to_text()).collect();
    assert_eq!(
        texts,
        vec!["[200::1]:1", "[200::1]:2", "[200::2]:1", "192.0.2.1:1", "192.0.2.9:1"]
    );
}

fn fails_with(a: QuicAction, reason: &str) -> bool {
    matches!(a, QuicAction::Fail(e) if e == reason)
}

#[test]
fn addresses_are_tried_one_after_the_other() {
    let mut c = QuicCheck::new("example.org:443");
    let a = c.connect(QuicEvent::Resolved(vec![v4(1, 443), v6(1, 443)]));
    match a {
        QuicAction::Try { from, to } => {
            assert_eq!(from.to_text(), "[::]:0");
            assert_eq!(to.to_text(), "[200::1]:443");
        }
        _ => panic!(),
    }
    match c.connect(QuicEvent::ConnectFailed("no route".to_string())) {
        QuicAction::Try { from, to } => {
            assert_eq!(from.to_text(), "0.0.0.0:0");
            assert_eq!(to.to_text(), "192.0.2.1:443");
        }
        _ => panic!(),
    }
    assert!(fails_with(
        c.connect(QuicEvent::HandshakeFailed("refused".to_string())),
        "handshake: refused"
    ));
}

#[test]
fn checks_fail_for_a_reason() {
    let mut c = QuicCheck::new("example.org:443");
    assert!(fails_with(c.connect(QuicEvent::Resolved(vec![])), "no address resolved"));
    assert!(fails_with(
        c.connect(QuicEvent::ResolveFailed("nx".to_string())),
        "resolve example.org:443: nx"
    ));
    assert!(fails_with(c.connect(QuicEvent::BindFailed("in use".to_string())), "bind: in use"));
    assert!(fails_with(c.connect(QuicEvent::ConnectFailed("bad".to_string())), "connect: bad"));
    assert!(matches!(c.connect(QuicEvent::Connected), QuicAction::Done));
}

#[test]
fn round_trip_times_are_milliseconds() {
    assert_eq!(check_quic_rtt("quic://host", Some(37)), 37);
    assert_eq!(check_quic_rtt("quic://192.0.2.1:1", None), -1);
    assert_eq!(check_quic_rtt("quic://", Some(37)), -1);
}

#[test]
fn unreachable_returns_minus_one() {
    let rtt = check_quic_rtt("quic://192.0.2.1:1", None);
    assert_eq!(rtt, -1);
}

#[test]
fn scopes_tell_addresses_apart() {
    let mut a = v6(1, 1);
    a.scope_id = 2;
    let mut b = v6(1, 1);
    b.flowinfo = 1;
    let r = order_addresses(&vec![b, a, v6(1, 1), a]);
    let numbers: Vec<(u32, u32)> = r.iter().map(|x| (x.flowinfo, x.scope_id)).collect();
    assert_eq!(numbers, vec![(0, 0), (0, 2), (1, 0)]);
}
