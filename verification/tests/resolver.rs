//! Resolving names.
use yggstack::addr::{read_socket, SocketAddr};
use yggstack::resolver::{
    build_dns_query, frame_query, lookup_failure, parse_dns_aaaa_response, response_length, skip_dns_name,
    DnsLookup, LookupAction, LookupEvent, LookupStage, NameResolver, Plan,
};

fn at(s: &str) -> SocketAddr {
    let c: Vec<char> = s.chars().collect();
    read_socket(&c).unwrap()
}

const QUERY: [u8; 27] = [
    0, 1, 1, 0, 0, 1, 0, 0, 0, 0, 0, 0, 1, b'a', 7, b'e', b'x', b'a', b'm', b'p', b'l', b'e', 0, 0,
    28, 0, 1,
];

/// A response with one answer record.
fn response(rtype: u8, data: &[u8]) -> Vec<u8> {
    let mut r = QUERY.to_vec();
    r[2] = 0x81;
    r[7] = 1;
    r.extend_from_slice(&[0xc0, 12, 0, rtype, 0, 1, 0, 0, 0, 60, 0, data.len() as u8]);
    r.extend_from_slice(data);
    r
}

fn done(a: LookupAction) -> Result<String, String> {
    match a {
        LookupAction::Done(Ok(a)) => Ok(yggstack::addr::IpAddr::V6(a).to_text()),
        LookupAction::Done(Err(e)) => Err(e),
        _ => panic!(),
    }
}

#[test]
fn queries_hold_the_name() {
    let q = build_dns_query("a.example", 28);
    assert_eq!(q, QUERY.to_vec());
    assert_eq!(build_dns_query("a.example.", 28), q);
    let f = frame_query(&q);
    assert_eq!(&f[..2], &[0, 27]);
    assert_eq!(&f[2..], &q[..]);
    assert_eq!(response_length(1, 2), 258);
}

#[test]
fn names_are_skipped() {
    assert_eq!(skip_dns_name(&QUERY, 12), Some(23));
    assert_eq!(skip_dns_name(&[0xc0, 12, 9], 0), Some(2));
    assert_eq!(skip_dns_name(&[1, b'a', 0xc0, 12], 0), Some(4));
    assert_eq!(skip_dns_name(&[5, b'a'], 0), None);
    assert_eq!(skip_dns_name(&[], 0), None);
}

#[test]
fn answers_are_found() {
    let mut addr = [0u8; 16];
    addr[0] = 2;
    addr[15] = 1;
    assert_eq!(parse_dns_aaaa_response(&response(28, &addr)).unwrap().octets, addr);
    assert!(parse_dns_aaaa_response(&response(1, &[1, 2, 3, 4])).is_none());
    assert!(parse_dns_aaaa_response(&response(28, &[1, 2, 3, 4])).is_none());
    assert!(parse_dns_aaaa_response(&QUERY).is_none());
    assert!(parse_dns_aaaa_response(&[]).is_none());
}

#[test]
fn literals_and_keys_need_no_nameserver() {
    let r = NameResolver::new("");
    assert!(matches!(r.resolve("200::1"), Ok(Plan::Address(a)) if a.octets[0] == 2));
    let key = "ab".repeat(32);
    assert!(matches!(r.resolve(&format!("{}.pk.ygg", key)), Ok(Plan::Key(k)) if k == [0xab; 32]));
    assert!(r.resolve("zz.pk.ygg").is_err());
    assert!(r.resolve("abcd.pk.ygg").is_err());
    match r.resolve("host.ygg") {
        Err(e) => assert_eq!(e, "no nameserver configured; cannot resolve 'host.ygg'"),
        Ok(_) => panic!(),
    }
}

#[test]
fn nameservers_have_a_default_port() {
    for (ns, server) in [("[200::53]:5353", "[200::53]:5353"), ("200::53", "[200::53]:53")] {
        match NameResolver::new(ns).resolve("host.ygg") {
            Ok(Plan::Query(q)) => assert_eq!(q.server().to_text(), server),
            _ => panic!(),
        }
    }
    match NameResolver::new("dns").resolve("host.ygg") {
        Err(e) => assert_eq!(e, "invalid nameserver address 'dns'"),
        Ok(_) => panic!(),
    }
}

#[test]
fn lookups_ask_over_udp_twice_then_over_tcp() {
    let mut l = DnsLookup::new("a.example", at("[200::53]:53"));
    assert_eq!(l.query(), QUERY.to_vec());
    assert_eq!(l.framed_query()[2..], l.query()[..]);
    assert!(matches!(l.dns_lookup_ipv6(LookupEvent::Start), LookupAction::AskUdp));
    assert!(matches!(l.dns_lookup_ipv6(LookupEvent::Failed("x".to_string())), LookupAction::AskUdp));
    assert!(matches!(l.dns_lookup_ipv6(LookupEvent::Failed("x".to_string())), LookupAction::AskTcp));
    assert_eq!(done(l.dns_lookup_ipv6(LookupEvent::Failed("y".to_string()))), Err("y".to_string()));
    assert!(matches!(l.dns_lookup_ipv6(LookupEvent::Start), LookupAction::Ignore));
}

#[test]
fn answers_end_lookups() {
    let mut addr = [0u8; 16];
    addr[0] = 2;
    addr[15] = 9;
    let mut l = DnsLookup::new("a.example", at("[200::53]:53"));
    assert_eq!(done(l.dns_lookup_ipv6(LookupEvent::Answer(response(28, &addr)))), Ok("200::9".to_string()));
    let mut l = DnsLookup::new("a.example", at("[200::53]:53"));
    assert_eq!(
        done(l.dns_lookup_ipv6(LookupEvent::Answer(QUERY.to_vec()))),
        Err("no AAAA record found for 'a.example'".to_string())
    );
    let mut cut = response(28, &addr);
    cut[2] |= 2;
    let mut l = DnsLookup::new("a.example", at("[200::53]:53"));
    assert!(matches!(l.dns_lookup_ipv6(LookupEvent::Answer(cut.clone())), LookupAction::AskTcp));
    assert_eq!(done(l.dns_lookup_ipv6(LookupEvent::Answer(cut))), Ok("200::9".to_string()));
}

#[test]
fn lookup_failures_name_their_stage() {
    for (stage, text) in [
        (LookupStage::UdpOpen, "UDP open: x"),
        (LookupStage::UdpSend, "DNS UDP send: x"),
        (LookupStage::UdpReceive, "DNS UDP recv: x"),
        (LookupStage::TcpConnect, "DNS connect: x"),
        (LookupStage::TcpWrite, "DNS write: x"),
        (LookupStage::TcpReadLength, "DNS read len: x"),
        (LookupStage::TcpReadBody, "DNS read body: x"),
    ] {
        assert_eq!(lookup_failure(stage, "x"), text);
    }
}
