//! The HTTP proxy.
use yggstack::addr::{read_socket, Ipv6Addr, SocketAddr};
use yggstack::error::ErrorKind;
use yggstack::http_head::{
    find_head_end, find_header, forward_target, parse_request, rewrite_head, send_simple_response,
    split_authority,
};
use yggstack::http_proxy::{HttpAction, HttpClient, HttpEvent, HttpProxyServer};
use yggstack::resolver::NameResolver;
use yggstack::stats::ListenerStatsRegistry;

fn at(s: &str) -> SocketAddr {
    let c: Vec<char> = s.chars().collect();
    read_socket(&c).unwrap()
}

fn client(r: &mut ListenerStatsRegistry) -> HttpClient {
    let s = HttpProxyServer::new(NameResolver::new(""));
    let l = s.serve_tcp(&at("127.0.0.1:8080"), r);
    s.handle_client(&l)
}

fn sent(c: &mut HttpClient, r: &mut ListenerStatsRegistry, text: &str) -> HttpAction {
    assert!(matches!(c.step(r, HttpEvent::Start), HttpAction::Read(4096)));
    c.step(r, HttpEvent::Read(text.as_bytes().to_vec()))
}

fn request(text: &str) -> yggstack::http_head::Request {
    parse_request(text.as_bytes().to_vec()).ok().unwrap()
}

#[test]
fn heads_end_at_a_blank_line() {
    assert_eq!(find_head_end(b"GET / HTTP/1.1\r\n\r\nbody\r\n\r\n"), Some(14));
    assert_eq!(find_head_end(b"GET / HTTP/1.1\r\n"), None);
    assert_eq!(find_head_end(b""), None);
}

#[test]
fn requests_have_three_words_and_headers() {
    let q = request("GET http://host/ HTTP/1.1\r\nHost: host\r\nA: b\r\n\r\n");
    assert_eq!(q.method, "GET");
    assert_eq!(q.target, "http://host/");
    assert_eq!(q.version, "HTTP/1.1");
    assert_eq!(q.headers, vec!["Host: host", "A: b"]);
    assert_eq!(find_header(&q.headers, "host").as_deref(), Some("host"));
    assert_eq!(find_header(&q.headers, "c"), None);
    assert!(parse_request(b"GET /\r\n\r\n".to_vec()).is_err());
    match parse_request(vec![0xff, 13, 10, 13, 10]) {
        Err(e) => assert!(matches!(e.kind, ErrorKind::InvalidData)),
        Ok(_) => panic!(),
    }
}

#[test]
fn authorities_have_a_default_port() {
    let split = |s: &str| split_authority(s, 443);
    assert_eq!(split("host:80"), Some(("host".to_string(), 80)));
    assert_eq!(split("host"), Some(("host".to_string(), 443)));
    assert_eq!(split("[200::1]:80"), Some(("200::1".to_string(), 80)));
    assert_eq!(split("[200::1]"), Some(("200::1".to_string(), 443)));
    assert_eq!(split("[200::1"), None);
    assert_eq!(split("host:x"), None);
}

#[test]
fn heads_are_rewritten_for_the_origin() {
    let q = request("GET http://host:81/p?q=1 HTTP/1.1\r\nProxy-Connection: keep-alive\r\nA: b\r\nConnection: keep-alive\r\n\r\n");
    let t = forward_target(&q).ok().unwrap();
    assert_eq!((t.host.as_str(), t.port), ("host", 81));
    assert_eq!(t.origin_form, "/p?q=1");
    let out = rewrite_head(&q, &t);
    assert_eq!(out, "GET /p?q=1 HTTP/1.1\r\nA: b\r\nConnection: close\r\nHost: host:81\r\n\r\n");
    let back = request(&out);
    assert_eq!(back.target, "/p?q=1");
    assert_eq!(back.headers, vec!["A: b", "Connection: close", "Host: host:81"]);
}

#[test]
fn simple_responses_have_no_body() {
    let s = send_simple_response(502, "Bad Gateway");
    assert!(s.starts_with("HTTP/1.1 502 Bad Gateway\r\n"));
    assert!(s.ends_with("\r\n\r\n"));
}

#[test]
fn tunnels_carry_what_follows_the_head() {
    let mut r = ListenerStatsRegistry::new();
    let mut c = client(&mut r);
    match sent(&mut c, &mut r, "CONNECT [200::1]:443 HTTP/1.1\r\n\r\nhello") {
        HttpAction::Dial(to) => assert_eq!(to.to_text(), "[200::1]:443"),
        _ => panic!(),
    }
    match c.step(&mut r, HttpEvent::Dialed) {
        HttpAction::SendClient(b) => assert_eq!(b, b"HTTP/1.1 200 Connection Established\r\n\r\n"),
        _ => panic!(),
    }
    match c.step(&mut r, HttpEvent::Sent) {
        HttpAction::SendRemote(b) => assert_eq!(b, b"hello"),
        _ => panic!(),
    }
    assert!(matches!(c.step(&mut r, HttpEvent::Written), HttpAction::Relay));
    assert!(r.to_json().contains("\"ActiveConns\":1,\"TotalConns\":1,\"RXBytes\":0,\"TXBytes\":5"));
    assert!(matches!(c.step(&mut r, HttpEvent::Ended), HttpAction::Close));
    assert!(r.to_json().contains("\"ActiveConns\":0"));
}

#[test]
fn requests_are_forwarded_to_the_resolved_host() {
    let mut r = ListenerStatsRegistry::new();
    let mut c = client(&mut r);
    match sent(&mut c, &mut r, "GET http://host.ygg/ HTTP/1.1\r\nHost: host.ygg\r\n\r\n") {
        HttpAction::Resolve(n) => assert_eq!(n, "host.ygg"),
        _ => panic!(),
    }
    match c.step(&mut r, HttpEvent::Resolved(Ipv6Addr { octets: [2; 16] })) {
        HttpAction::Dial(to) => assert_eq!(to.port(), 80),
        _ => panic!(),
    }
    let head = "GET / HTTP/1.1\r\nHost: host.ygg\r\nConnection: close\r\n\r\n";
    match c.step(&mut r, HttpEvent::Dialed) {
        HttpAction::SendRemote(b) => assert_eq!(String::from_utf8(b).unwrap(), head),
        _ => panic!(),
    }
    assert!(matches!(c.step(&mut r, HttpEvent::Written), HttpAction::Relay));
    assert!(r.to_json().contains(&format!("\"TXBytes\":{}", head.len())));
}

#[test]
fn bad_requests_are_refused() {
    let mut r = ListenerStatsRegistry::new();
    let mut c = client(&mut r);
    match sent(&mut c, &mut r, "nonsense\r\n\r\n") {
        HttpAction::Refuse(b, e) => {
            assert!(b.starts_with(b"HTTP/1.1 400 Bad Request\r\n"));
            assert!(matches!(e.kind, ErrorKind::InvalidData));
        }
        _ => panic!(),
    }
    let mut c = client(&mut r);
    match sent(&mut c, &mut r, "CONNECT host:x HTTP/1.1\r\n\r\n") {
        HttpAction::Fail(e) => assert_eq!(e.message, "bad CONNECT authority"),
        _ => panic!(),
    }
    let mut c = client(&mut r);
    let _ = c.step(&mut r, HttpEvent::Start);
    match c.step(&mut r, HttpEvent::Read(vec![])) {
        HttpAction::Fail(e) => {
            assert!(matches!(e.kind, ErrorKind::UnexpectedEof));
            assert_eq!(e.message, "eof in request head");
        }
        _ => panic!(),
    }
    let mut c = client(&mut r);
    let _ = c.step(&mut r, HttpEvent::Start);
    assert!(matches!(c.step(&mut r, HttpEvent::Read(vec![65; 16384])), HttpAction::Read(4096)));
    match c.step(&mut r, HttpEvent::Read(vec![65])) {
        HttpAction::Fail(e) => assert_eq!(e.message, "request head too large"),
        _ => panic!(),
    }
}

#[test]
fn gateways_that_fail_are_reported() {
    let mut r = ListenerStatsRegistry::new();
    let mut c = client(&mut r);
    let _ = sent(&mut c, &mut r, "CONNECT host:443 HTTP/1.1\r\n\r\n");
    match c.step(&mut r, HttpEvent::ResolveFailed("nope".to_string())) {
        HttpAction::Refuse(b, e) => {
            assert!(b.starts_with(b"HTTP/1.1 502 Bad Gateway\r\n"));
            assert_eq!(e.message, "nope");
        }
        _ => panic!(),
    }
    let mut c = client(&mut r);
    let _ = sent(&mut c, &mut r, "CONNECT [200::1]:443 HTTP/1.1\r\n\r\n");
    match c.step(&mut r, HttpEvent::DialFailed) {
        HttpAction::RefuseAsMet(b) => assert!(b.starts_with(b"HTTP/1.1 502 Bad Gateway\r\n")),
        _ => panic!(),
    }
    let mut c = client(&mut r);
    assert!(matches!(c.step(&mut r, HttpEvent::Failed), HttpAction::FailAsMet));
}
