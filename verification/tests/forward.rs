//! Port forwarders.
use yggstack::addr::{read_socket, SocketAddr};
use yggstack::forward::table::PeerTable;
use yggstack::forward::tcp::{
    spawn_local_tcp, spawn_remote_tcp, RelayAction, RelayEvent, TcpAction, TcpEvent, TcpRelay,
};
use yggstack::forward::udp::{
    abort_all_sessions, evict_stale, spawn_local_udp, spawn_remote_udp, Side, UdpAction, UdpEvent,
    UdpForwarder, UdpListener, UdpSession,
};
use yggstack::forward::{
    alloc_udp_port_v2, local_tcp, local_udp_v2, remote_tcp, remote_udp, PlainTcpAction, PlainTcpEvent,
    PlainUdpAction, PlainUdpEvent,
};
use yggstack::mapping::{TcpMapping, UdpMapping};
use yggstack::stats::ListenerStatsRegistry;

const SECOND: u64 = 1_000_000_000;

fn at(s: &str) -> SocketAddr {
    let c: Vec<char> = s.chars().collect();
    read_socket(&c).unwrap()
}

fn counts(r: &ListenerStatsRegistry) -> String {
    let j = r.to_json();
    j[j.find("\"ActiveConns\"").unwrap()..j.len() - 2].to_string()
}

#[test]
fn tcp_forwarders_relay_to_their_target() {
    let mut r = ListenerStatsRegistry::new();
    let m = TcpMapping::parse_local("127.0.0.1:8080:[200::1]:80").unwrap();
    let mut f = spawn_local_tcp(m, &mut r);
    assert_eq!(f.key(), "ltcp:127.0.0.1:8080->[200::1]:80");
    assert!(r.to_json().contains("\"Kind\":\"local-tcp\",\"Listen\":\"127.0.0.1:8080\",\"Target\":\"[200::1]:80\""));
    assert!(matches!(f.step(&mut r, TcpEvent::Accepted), TcpAction::Ignore));
    assert!(matches!(f.step(&mut r, TcpEvent::Bound), TcpAction::Accept));
    assert!(matches!(f.step(&mut r, TcpEvent::AcceptFailed), TcpAction::Accept));
    match f.step(&mut r, TcpEvent::Accepted) {
        TcpAction::Relay { target } => assert_eq!(target.to_text(), "[200::1]:80"),
        _ => panic!(),
    }
    assert!(matches!(f.step(&mut r, TcpEvent::Stop), TcpAction::Exit));
    assert_eq!(r.to_json(), "[]");
    assert!(matches!(f.step(&mut r, TcpEvent::Accepted), TcpAction::Exit));
}

#[test]
fn tcp_forwarders_that_cannot_listen_are_dropped() {
    let mut r = ListenerStatsRegistry::new();
    let m = TcpMapping::parse_remote("2022:22").unwrap();
    let mut f = spawn_remote_tcp(m, &mut r);
    assert_eq!(f.key(), "rtcp:2022->127.0.0.1:22");
    assert!(r.to_json().contains("\"Kind\":\"remote-tcp\",\"Listen\":\"ygg:2022\",\"Target\":\"127.0.0.1:22\""));
    assert!(matches!(f.step(&mut r, TcpEvent::BindFailed), TcpAction::Exit));
    assert_eq!(r.to_json(), "[]");
}

#[test]
fn relayed_connections_count_until_they_are_over() {
    let mut r = ListenerStatsRegistry::new();
    let m = TcpMapping::parse_remote("22").unwrap();
    let f = spawn_remote_tcp(m, &mut r);
    let mut a = TcpRelay::new(&mut r, f.entry());
    let mut b = TcpRelay::new(&mut r, f.entry());
    let mut c = TcpRelay::new(&mut r, f.entry());
    let mut d = TcpRelay::new(&mut r, f.entry());
    assert_eq!(counts(&r), "\"ActiveConns\":4,\"TotalConns\":4,\"RXBytes\":0,\"TXBytes\":0");
    assert!(matches!(a.step(&mut r, RelayEvent::Connected), RelayAction::Copy));
    assert!(matches!(a.step(&mut r, RelayEvent::CopyEnded), RelayAction::Close));
    assert!(matches!(a.step(&mut r, RelayEvent::Stop), RelayAction::Ignore));
    assert!(matches!(b.step(&mut r, RelayEvent::ConnectFailed), RelayAction::Fail));
    assert!(matches!(c.step(&mut r, RelayEvent::ConnectTimedOut), RelayAction::FailTimedOut));
    d.abandon(&mut r);
    d.abandon(&mut r);
    assert_eq!(counts(&r), "\"ActiveConns\":0,\"TotalConns\":4,\"RXBytes\":0,\"TXBytes\":0");
}

fn started(f: &mut UdpForwarder, r: &mut ListenerStatsRegistry) {
    assert!(matches!(f.step(r, UdpEvent::Bound), UdpAction::Receive));
}

/// A datagram from a peer that is new.
fn first(f: &mut UdpForwarder, r: &mut ListenerStatsRegistry, from: &str, socket: u64, now: u64) {
    let from = at(from);
    match f.step(r, UdpEvent::Datagram { from, len: 10, now, listener_finished: false }) {
        UdpAction::Open { from: p } => assert_eq!(p.to_text(), from.to_text()),
        _ => panic!(),
    }
    match f.step(r, UdpEvent::Opened { socket, now }) {
        UdpAction::Send { socket: s, len, .. } => assert_eq!((s, len), (socket, 10)),
        _ => panic!(),
    }
    match f.step(r, UdpEvent::Sent) {
        UdpAction::Listen { socket: s, peer } => {
            assert_eq!(s, socket);
            assert_eq!(peer.to_text(), from.to_text());
        }
        _ => panic!(),
    }
    assert!(matches!(f.step(r, UdpEvent::ListenerStarted { task: socket + 100 }), UdpAction::Receive));
    assert_eq!(f.listener_of(&from), Some(socket + 100));
}

#[test]
fn local_datagrams_go_on_and_count_as_sent() {
    let mut r = ListenerStatsRegistry::new();
    let m = UdpMapping::parse_local("127.0.0.1:553:[200::1]:53").unwrap();
    let mut f = spawn_local_udp(m, &mut r);
    assert_eq!(f.key(), "ludp:127.0.0.1:553->[200::1]:53");
    started(&mut f, &mut r);
    first(&mut f, &mut r, "127.0.0.1:1000", 1, 0);
    assert_eq!(counts(&r), "\"ActiveConns\":0,\"TotalConns\":0,\"RXBytes\":0,\"TXBytes\":10");
    let from = at("127.0.0.1:1000");
    match f.step(&mut r, UdpEvent::Datagram { from, len: 4, now: SECOND, listener_finished: false }) {
        UdpAction::Send { socket, to, len } => {
            assert_eq!((socket, len), (1, 4));
            assert_eq!(to.to_text(), "[200::1]:53");
        }
        _ => panic!(),
    }
    assert!(matches!(f.step(&mut r, UdpEvent::Sent), UdpAction::Receive));
    assert_eq!(f.session_count(), 1);
    assert_eq!(counts(&r), "\"ActiveConns\":0,\"TotalConns\":0,\"RXBytes\":0,\"TXBytes\":14");
}

#[test]
fn remote_datagrams_count_as_received() {
    let mut r = ListenerStatsRegistry::new();
    let m = UdpMapping::parse_remote("5353:53").unwrap();
    let mut f = spawn_remote_udp(m, &mut r);
    assert_eq!(f.key(), "rudp:5353->127.0.0.1:53");
    started(&mut f, &mut r);
    first(&mut f, &mut r, "[200::9]:1000", 1, 0);
    assert_eq!(counts(&r), "\"ActiveConns\":0,\"TotalConns\":0,\"RXBytes\":10,\"TXBytes\":0");
}

#[test]
fn a_finished_listener_is_replaced() {
    let mut r = ListenerStatsRegistry::new();
    let m = UdpMapping::parse_local("553:[200::1]:53").unwrap();
    let mut f = spawn_local_udp(m, &mut r);
    started(&mut f, &mut r);
    first(&mut f, &mut r, "127.0.0.1:1000", 1, 0);
    let from = at("127.0.0.1:1000");
    let _ = f.step(&mut r, UdpEvent::Datagram { from, len: 4, now: 1, listener_finished: true });
    assert!(matches!(f.step(&mut r, UdpEvent::Sent), UdpAction::Listen { socket: 1, .. }));
}

#[test]
fn a_send_that_fails_is_not_counted() {
    let mut r = ListenerStatsRegistry::new();
    let m = UdpMapping::parse_local("553:[200::1]:53").unwrap();
    let mut f = spawn_local_udp(m, &mut r);
    started(&mut f, &mut r);
    let from = at("127.0.0.1:1000");
    let _ = f.step(&mut r, UdpEvent::Datagram { from, len: 4, now: 1, listener_finished: false });
    assert!(matches!(f.step(&mut r, UdpEvent::OpenFailed), UdpAction::Receive));
    assert_eq!(f.session_count(), 0);
    let _ = f.step(&mut r, UdpEvent::Datagram { from, len: 4, now: 1, listener_finished: false });
    let _ = f.step(&mut r, UdpEvent::Opened { socket: 7, now: 1 });
    assert!(matches!(f.step(&mut r, UdpEvent::SendFailed), UdpAction::Receive));
    assert_eq!(counts(&r), "\"ActiveConns\":0,\"TotalConns\":0,\"RXBytes\":0,\"TXBytes\":0");
}

#[test]
fn stale_sessions_are_evicted() {
    let mut r = ListenerStatsRegistry::new();
    let m = UdpMapping::parse_local("553:[200::1]:53").unwrap();
    let mut f = spawn_local_udp(m, &mut r);
    started(&mut f, &mut r);
    first(&mut f, &mut r, "127.0.0.1:1000", 1, 0);
    first(&mut f, &mut r, "127.0.0.1:1001", 2, 20 * SECOND);
    assert!(f.tick(29 * SECOND).is_empty());
    assert_eq!(f.tick(31 * SECOND), vec![101]);
    assert_eq!(f.session_count(), 1);
    assert_eq!(f.listener_of(&at("127.0.0.1:1000")), None);
    assert!(!f.has_session(&at("127.0.0.1:1000")));
    assert!(f.has_session(&at("127.0.0.1:1001")));
    assert_eq!(f.listener_of(&at("127.0.0.1:1001")), Some(102));
    assert_eq!(f.stop(&mut r), vec![102]);
    assert_eq!(f.session_count(), 0);
    assert_eq!(r.to_json(), "[]");
    assert!(matches!(f.step(&mut r, UdpEvent::Bound), UdpAction::Exit));
}

#[test]
fn udp_forwarders_that_cannot_listen_are_dropped() {
    let mut r = ListenerStatsRegistry::new();
    let m = UdpMapping::parse_local("553:[200::1]:53").unwrap();
    let mut f = spawn_local_udp(m, &mut r);
    assert!(matches!(f.step(&mut r, UdpEvent::BindFailed), UdpAction::Exit));
    assert_eq!(r.to_json(), "[]");
}

#[test]
fn tables_of_sessions_are_emptied() {
    let mut t: PeerTable<UdpSession> = PeerTable::new();
    t.insert(at("127.0.0.1:1"), UdpSession { socket: 1, last_active: 0, listener: Some(5) });
    t.insert(at("127.0.0.1:2"), UdpSession { socket: 2, last_active: 0, listener: None });
    t.insert(at("127.0.0.1:3"), UdpSession { socket: 3, last_active: 40 * SECOND, listener: Some(6) });
    assert_eq!(t.len(), 3);
    assert_eq!(evict_stale(&mut t, 41 * SECOND), vec![5]);
    assert_eq!(t.len(), 1);
    assert_eq!(abort_all_sessions(&mut t), vec![6]);
    assert_eq!(t.len(), 0);
}

#[test]
fn replies_count_for_the_other_direction() {
    let mut r = ListenerStatsRegistry::new();
    let m = UdpMapping::parse_local("553:[200::1]:53").unwrap();
    let f = spawn_local_udp(m, &mut r);
    let peer = at("127.0.0.1:1000");
    let mut l = UdpListener::new(&mut r, f.entry(), Side::Local, peer);
    assert_eq!(l.received(&mut r, 9).to_text(), "127.0.0.1:1000");
    assert_eq!(counts(&r), "\"ActiveConns\":1,\"TotalConns\":1,\"RXBytes\":9,\"TXBytes\":0");
    l.ended(&mut r);
    l.ended(&mut r);
    assert_eq!(counts(&r), "\"ActiveConns\":0,\"TotalConns\":1,\"RXBytes\":9,\"TXBytes\":0");
}

#[test]
fn plain_tcp_forwarders_end_with_errors() {
    let mut f = local_tcp(at("127.0.0.1:80"), at("[200::1]:81"));
    match f.step(PlainTcpEvent::BindFailed("in use".to_string())) {
        PlainTcpAction::Finish(Err(e)) => assert_eq!(e, "local-tcp bind 127.0.0.1:80: in use"),
        _ => panic!(),
    }
    let mut f = remote_tcp(at("[200::1]:81"), at("127.0.0.1:80"));
    match f.step(PlainTcpEvent::BindFailed("in use".to_string())) {
        PlainTcpAction::Finish(Err(e)) => assert_eq!(e, "remote-tcp listen 81: in use"),
        _ => panic!(),
    }
    let mut f = remote_tcp(at("[200::1]:81"), at("127.0.0.1:80"));
    assert!(matches!(f.step(PlainTcpEvent::Bound), PlainTcpAction::Accept));
    match f.step(PlainTcpEvent::Accepted) {
        PlainTcpAction::Relay(to) => assert_eq!(to.to_text(), "127.0.0.1:80"),
        _ => panic!(),
    }
    match f.step(PlainTcpEvent::AcceptFailed("gone".to_string())) {
        PlainTcpAction::Finish(Err(e)) => assert_eq!(e, "remote-tcp accept: gone"),
        _ => panic!(),
    }
    assert!(matches!(f.step(PlainTcpEvent::Bound), PlainTcpAction::Ignore));
}

#[test]
fn plain_udp_forwarders_keep_a_session_per_peer() {
    let mut f = local_udp_v2(at("127.0.0.1:53"), at("[200::1]:53"));
    let from = at("127.0.0.1:1000");
    assert!(matches!(f.step(PlainUdpEvent::Bound), PlainUdpAction::Receive));
    assert!(matches!(f.step(PlainUdpEvent::Datagram { from, len: 3 }), PlainUdpAction::Dial { port: 49152 }));
    match f.step(PlainUdpEvent::Opened(7)) {
        PlainUdpAction::ForwardNew { channel, to, len, peer } => {
            assert_eq!((channel, len), (7, 3));
            assert_eq!(to.to_text(), "[200::1]:53");
            assert_eq!(peer.to_text(), "127.0.0.1:1000");
        }
        _ => panic!(),
    }
    assert!(matches!(
        f.step(PlainUdpEvent::Datagram { from, len: 4 }),
        PlainUdpAction::Forward { channel: 7, len: 4, .. }
    ));
    let other = at("127.0.0.1:1001");
    assert!(matches!(
        f.step(PlainUdpEvent::Datagram { from: other, len: 3 }),
        PlainUdpAction::Dial { port: 49153 }
    ));
    assert!(matches!(f.step(PlainUdpEvent::OpenFailed), PlainUdpAction::Receive));
    f.session_over(&from);
    assert_eq!(f.sessions.len(), 0);
    let mut g = remote_udp(at("[200::1]:53"), at("127.0.0.1:53"));
    let _ = g.step(PlainUdpEvent::Bound);
    assert!(matches!(g.step(PlainUdpEvent::Datagram { from: at("[200::2]:1"), len: 3 }), PlainUdpAction::Bind));
    assert_eq!(alloc_udp_port_v2(3), 49155);
}

#[test]
fn sessions_take_ports_in_order() {
    let mut f = local_udp_v2(at("127.0.0.1:53"), at("[200::1]:53"));
    let _ = f.step(PlainUdpEvent::Bound);
    for n in 0u16..5 {
        let from = at(&format!("127.0.0.1:{}", 1000 + n));
        match f.step(PlainUdpEvent::Datagram { from, len: 1 }) {
            PlainUdpAction::Dial { port } => assert_eq!(port, 49152 + n),
            _ => panic!(),
        }
        let _ = f.step(PlainUdpEvent::Opened(n as u64));
        assert_eq!(f.sessions.len(), n as usize + 1);
    }
    f.session_over(&at("127.0.0.1:1002"));
    f.session_over(&at("127.0.0.1:1002"));
    assert_eq!(f.sessions.len(), 4);
    let from = at("127.0.0.1:2000");
    assert!(matches!(f.step(PlainUdpEvent::Datagram { from, len: 1 }), PlainUdpAction::Dial { port: 49156 }));
}
