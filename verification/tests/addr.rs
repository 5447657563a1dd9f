//! Addresses as text.
use yggstack::addr::{
    read_ip, read_socket, read_v4, read_v6, same_socket, IpAddr, Ipv6Addr, SocketAddr,
};

fn chars(s: &str) -> Vec<char> {
    s.chars().collect()
}

fn ip(s: &str) -> Option<String> {
    read_ip(&chars(s)).map(|a| a.to_text())
}

fn socket(s: &str) -> Option<String> {
    read_socket(&chars(s)).map(|a| a.to_text())
}

#[test]
fn addresses_read_back() {
    for s in [
        "0.0.0.0", "127.0.0.1", "255.255.255.255", "::", "::1", "200::1", "1:2:3:4:5:6:7:8",
        "200:1:2:3:4:5:6:7", "::ffff:1.2.3.4", "1::8", "1:0:0:4::8", "fe80::1:0:0:1",
    ] {
        assert_eq!(ip(s).as_deref(), Some(s));
    }
}

#[test]
fn addresses_have_one_short_form() {
    for (given, short) in [
        ("::1.2.3.4", "::102:304"),
        ("1:2:3:4:5:6:1.2.3.4", "1:2:3:4:5:6:102:304"),
        ("ABCD::EF", "abcd::ef"),
        ("::0001", "::1"),
        ("1:2:3:4:5:6:7::", "1:2:3:4:5:6:7:0"),
        ("::1:2:3:4:5:6:7", "0:1:2:3:4:5:6:7"),
        ("1::2:3:4:5:6:7", "1:0:2:3:4:5:6:7"),
        ("0:0:1::", "0:0:1::"),
        ("::ffff:0:0", "::ffff:0.0.0.0"),
        ("2:0:0:1:0:0:0:1", "2:0:0:1::1"),
        ("1:0:0:2:0:0:3:4", "1::2:0:0:3:4"),
    ] {
        assert_eq!(ip(given).as_deref(), Some(short), "{}", given);
    }
}

#[test]
fn other_texts_are_no_addresses() {
    for s in [
        "", "1.2.3", "1.2.3.4.5", "01.2.3.4", "256.1.1.1", "1.2.3.4 ", "+1.2.3.4", "::g", ":::",
        "1:2:3:4:5:6:7", "1:2:3:4:5:6:7:8:9", "1::2::3", "12345::", "::1.2.3.4:5", "::00001",
    ] {
        assert_eq!(ip(s), None, "{}", s);
    }
}

#[test]
fn socket_addresses_have_a_port() {
    for (given, read) in [
        ("1.2.3.4:80", Some("1.2.3.4:80")),
        ("[::1]:80", Some("[::1]:80")),
        ("[::]:0", Some("[::]:0")),
        ("[200::1]:65535", Some("[200::1]:65535")),
        ("1.2.3.4:080", Some("1.2.3.4:80")),
        ("[::1]", None),
        ("::1:80", None),
        ("1.2.3.4", None),
        ("1.2.3.4:65536", None),
        ("1.2.3.4:", None),
        (":80", None),
        ("[1.2.3.4]:80", None),
        ("[::1]:+1", None),
        ("[]:1", None),
    ] {
        assert_eq!(socket(given).as_deref(), read, "{}", given);
    }
}

#[test]
fn octets_come_in_network_order() {
    let a = read_v4(&chars("1.2.3.4")).unwrap();
    assert_eq!(a.octets, [1, 2, 3, 4]);
    let a = read_v6(&chars("102:304::f00d")).unwrap();
    assert_eq!(a.octets, [1, 2, 3, 4, 0, 0, 0, 0, 0, 0, 0, 0, 0, 0, 0xf0, 0x0d]);
    let s = SocketAddr::new(IpAddr::V6(Ipv6Addr { octets: [0; 16] }), 7);
    assert_eq!(s.port(), 7);
    assert_eq!(s.to_text(), "[::]:7");
}

#[test]
fn ipv6_addresses_may_have_a_scope() {
    let a = read_socket(&chars("[fe80::1%5]:80")).unwrap();
    assert_eq!((a.port, a.flowinfo, a.scope_id), (80, 0, 5));
    assert_eq!(a.to_text(), "[fe80::1%5]:80");
    let b = read_socket(&chars("[fe80::1%0]:80")).unwrap();
    assert_eq!(b.scope_id, 0);
    assert_eq!(b.to_text(), "[fe80::1]:80");
    assert!(!same_socket(&a, &b));
    assert!(same_socket(&b, &read_socket(&chars("[fe80::1]:80")).unwrap()));
    assert_eq!(socket("[fe80::1%4294967295]:80").as_deref(), Some("[fe80::1%4294967295]:80"));
    assert_eq!(socket("[fe80::1%4294967296]:80"), None);
    assert_eq!(socket("[fe80::1%]:80"), None);
    assert_eq!(socket("[fe80::1%eth0]:80"), None);
    let mut c = b;
    c.flowinfo = 7;
    assert_eq!(c.to_text(), "[fe80::1]:80");
    assert!(!same_socket(&b, &c));
}
