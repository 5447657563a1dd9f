//! Forwarding specifications.
use yggstack::addr::{IpAddr, SocketAddr};
use yggstack::forward::tcp::{local_tcp_key, remote_tcp_key};
use yggstack::forward::udp::{local_udp_key, remote_udp_key};
use yggstack::mapping::{TcpMapping, UdpMapping};

fn text(a: &SocketAddr) -> String {
    a.to_text()
}

#[test]
fn test_local_tcp_basic() {
    let m = TcpMapping::parse_local("8080:[200:1:2:3:4:5:6:7]:80").unwrap();
    assert_eq!(m.listen.port(), 8080);
    assert_eq!(m.target.port(), 80);
}

#[test]
fn test_local_udp_basic() {
    let m = UdpMapping::parse_local("553:[200:1:2:3:4:5:6:7]:53").unwrap();
    assert_eq!(m.listen.port(), 553);
    assert_eq!(m.target.port(), 53);
}

#[test]
fn test_remote_tcp_port_only() {
    let m = TcpMapping::parse_remote("22").unwrap();
    assert_eq!(m.listen.port(), 22);
    assert_eq!(m.target.port(), 22);
}

#[test]
fn local_forms_give_addresses() {
    let m = TcpMapping::parse_local("8080:[200:1:2:3:4:5:6:7]:80").unwrap();
    assert_eq!(text(&m.target), "[200:1:2:3:4:5:6:7]:80");
    let m = TcpMapping::parse_local("127.0.0.1:8080:[200::1]:80").unwrap();
    assert_eq!(text(&m.listen), "127.0.0.1:8080");
    assert_eq!(text(&m.target), "[200::1]:80");
}

#[test]
fn remote_forms_give_addresses() {
    let m = UdpMapping::parse_remote("2022:22").unwrap();
    assert_eq!(m.listen.port(), 2022);
    assert_eq!(text(&m.target), "127.0.0.1:22");
    let m = TcpMapping::parse_remote("2022:192.168.1.1:22").unwrap();
    assert_eq!(m.listen.port(), 2022);
    assert_eq!(text(&m.target), "192.168.1.1:22");
}

#[test]
fn a_local_target_has_to_be_ipv6() {
    let e = match TcpMapping::parse_local("8080:1.2.3.4:80") {
        Ok(m) => panic!("{}", text(&m.target)),
        Err(e) => e,
    };
    assert!(!e.is_empty());
    let m = UdpMapping::parse_local("8080:[200::1]:80").unwrap();
    assert!(matches!(m.target.ip, IpAddr::V6(_)));
}

#[test]
fn nonsense_is_refused() {
    for s in ["", "x", "8080", "99999:[200::1]:80", "8080:[200::1]:", "8080:[zz]:80"] {
        assert!(TcpMapping::parse_local(s).is_err(), "{}", s);
        assert!(UdpMapping::parse_local(s).is_err(), "{}", s);
    }
    for s in ["", "x", "99999", "22:x", "22:zz:80"] {
        assert!(TcpMapping::parse_remote(s).is_err(), "{}", s);
        assert!(UdpMapping::parse_remote(s).is_err(), "{}", s);
    }
}

#[test]
fn keys_name_kind_and_ends() {
    let t = TcpMapping::parse_local("127.0.0.1:8080:[200::1]:80").unwrap();
    assert_eq!(local_tcp_key(&t), "ltcp:127.0.0.1:8080->[200::1]:80");
    let u = UdpMapping::parse_local("127.0.0.1:8080:[200::1]:80").unwrap();
    assert_eq!(local_udp_key(&u), "ludp:127.0.0.1:8080->[200::1]:80");
    let t = TcpMapping::parse_remote("2022:22").unwrap();
    assert_eq!(remote_tcp_key(&t), "rtcp:2022->127.0.0.1:22");
    let u = UdpMapping::parse_remote("2022:22").unwrap();
    assert_eq!(remote_udp_key(&u), "rudp:2022->127.0.0.1:22");
}
