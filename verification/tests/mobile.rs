//! A node that an application sets up and runs.
use yggstack::config::Config;
use yggstack::mobile::peers::{peer_port, PeerInfo};
use yggstack::mobile::{
    check_quic_peer, generate_config, get_version, peer_outcome, LogCallback, PeerCommand, YggstackError,
    YggstackMobile,
};
use yggstack::stats::ListenerStatsRegistry;

struct Quiet;

impl LogCallback for Quiet {
    fn on_log(&self, _message: String) {}
}

type Node = YggstackMobile<u8, Quiet, u32>;

fn config(rest: u8) -> Config<u8> {
    Config { if_name: "auto".to_string(), admin_listen: "tcp://localhost:9001".to_string(), rest }
}

fn loaded() -> Node {
    let mut n = Node::new();
    assert!(n.load_config(Ok(config(7))).is_ok());
    n
}

fn add(n: &mut Node, s: &mut ListenerStatsRegistry, spec: &str, h: u32) -> bool {
    n.add_local_tcp(spec.to_string(), s, h).ok().unwrap().is_some()
}

fn config_error<T>(r: Result<T, YggstackError>) -> String {
    match r {
        Err(YggstackError::Config(m)) => m,
        _ => panic!(),
    }
}

#[test]
fn functions_of_their_own() {
    assert_eq!(get_version(), "yggstack 0.1.0");
    assert_eq!(check_quic_peer("quic://192.0.2.1:1".to_string()), -1);
    assert_eq!(generate_config("t".to_string(), Some("r".to_string())), "r");
    assert_eq!(generate_config("t".to_string(), None), "t");
}

#[test]
fn errors_have_a_text() {
    let m = || "m".to_string();
    assert_eq!(YggstackError::Config(m()).to_text(), "Config: m");
    assert_eq!(YggstackError::Runtime(m()).to_text(), "Runtime: m");
    assert_eq!(YggstackError::Io(m()).to_text(), "Io: m");
    assert_eq!(YggstackError::AlreadyRunning(m()).to_text(), "AlreadyRunning");
    assert_eq!(YggstackError::NotRunning(m()).to_text(), "NotRunning");
}

#[test]
fn a_configuration_is_needed() {
    let mut n = Node::default();
    assert_eq!(n.get_config(Some("x".to_string())), "");
    assert_eq!(config_error(n.get_address(Ok([2; 16]))), "no config loaded");
    assert_eq!(config_error(n.get_subnet(Ok([3; 8]))), "no config loaded");
    assert_eq!(config_error(n.get_public_key(Ok([3; 32]))), "no config loaded");
    assert_eq!(config_error(n.start(Ok(()), vec![])), "no config loaded");
    assert_eq!(config_error(n.load_config(Err("bad".to_string()))), "bad");
    assert!(n.config().is_none());
    assert!(n.generate_and_load_config(Ok(config(9))).is_ok());
    let c = n.config().unwrap();
    assert_eq!((c.if_name.as_str(), c.admin_listen.as_str(), c.rest), ("none", "none", 9));
    assert_eq!(n.get_config(Some("x".to_string())), "x");
    assert_eq!(n.get_config(None), "");
}

#[test]
fn addresses_come_from_the_key() {
    let n = loaded();
    let mut o = [0u8; 16];
    o[0] = 2;
    o[15] = 1;
    assert_eq!(n.get_address(Ok(o)).ok().unwrap(), "200::1");
    assert_eq!(n.get_subnet(Ok([3, 0, 0, 0, 0, 0, 0, 1])).ok().unwrap(), "300:0:0:1::/64");
    assert_eq!(n.get_public_key(Ok([0xab; 32])).ok().unwrap(), "ab".repeat(32));
    assert_eq!(config_error(n.get_address(Err("bad key".to_string()))), "bad key");
}

#[test]
fn nodes_start_once() {
    let mut n = loaded();
    assert_eq!(config_error(n.start(Err("bad key".to_string()), vec![])), "bad key");
    assert!(!n.is_running());
    n.set_log_level("debug".to_string());
    n.set_log_callback(Quiet);
    n.set_socks("127.0.0.1:1080".to_string());
    n.set_nameserver("200::53".to_string());
    let l = n.start(Ok(()), vec![]).ok().unwrap();
    assert!(n.is_running());
    assert_eq!(l.socks.as_deref(), Some("127.0.0.1:1080"));
    assert_eq!(l.nameserver, "200::53");
    match n.start(Ok(()), vec![]) {
        Err(YggstackError::AlreadyRunning(m)) => assert_eq!(m, "already running"),
        _ => panic!(),
    }
    let s = n.stop();
    assert!(s.node);
    assert!(s.listeners.is_empty());
    assert!(!n.is_running());
    assert!(!n.stop().node);
    n.set_socks(String::new());
    assert!(n.start(Ok(()), vec![]).ok().unwrap().socks.is_none());
}

#[test]
fn mappings_start_with_the_node() {
    let mut n = loaded();
    let mut s = ListenerStatsRegistry::new();
    assert!(!add(&mut n, &mut s, "8080:[200::1]:80", 1));
    assert!(n.add_local_udp("553:[200::1]:53".to_string(), &mut s, 2).ok().unwrap().is_none());
    assert!(n.add_remote_tcp("22".to_string(), &mut s, 3).ok().unwrap().is_none());
    assert!(n.add_remote_udp("53".to_string(), &mut s, 4).ok().unwrap().is_none());
    assert_eq!(s.to_json(), "[]");
    assert_eq!(n.mapping_count(), Some(4));
    let l = n.start(Ok(()), vec![11, 12, 13, 14]).ok().unwrap();
    assert_eq!(l.local_tcp.len(), 1);
    assert_eq!(l.local_udp[0].key(), "ludp:0.0.0.0:553->[200::1]:53");
    assert_eq!(l.remote_tcp[0].key(), "rtcp:22->127.0.0.1:22");
    assert_eq!(l.remote_udp.len(), 1);
    for kind in ["local-tcp", "local-udp", "remote-tcp", "remote-udp"] {
        assert!(l.stats.to_json().contains(&format!("\"Kind\":\"{}\"", kind)));
    }
    let mut h = n.stop().listeners;
    h.sort();
    assert_eq!(h, vec![11, 12, 13, 14]);
    assert_eq!(n.mapping_count(), Some(4));
}

#[test]
fn mappings_start_at_once_while_the_node_runs() {
    let mut n = loaded();
    let mut l = n.start(Ok(()), vec![]).ok().unwrap();
    assert!(add(&mut n, &mut l.stats, "8080:[200::1]:80", 1));
    assert!(n.get_listeners_json(&l.stats).contains("\"Key\":\"ltcp:"));
    assert!(add(&mut n, &mut l.stats, "8080:[200::1]:80", 2));
    assert_eq!(n.remove_local_tcp("8080:[200::1]:80".to_string()).ok().unwrap(), Some(2));
    assert_eq!(n.remove_local_tcp("8080:[200::1]:80".to_string()).ok().unwrap(), None);
    assert_eq!(n.mapping_count(), Some(0));
}

#[test]
fn removing_a_mapping_spares_the_others() {
    let mut n = loaded();
    let mut s = ListenerStatsRegistry::new();
    let _ = add(&mut n, &mut s, "8080:[200::1]:80", 1);
    let _ = add(&mut n, &mut s, "8081:[200::1]:80", 2);
    let _ = n.add_local_udp("8080:[200::1]:80".to_string(), &mut s, 3);
    let _ = n.add_remote_tcp("22".to_string(), &mut s, 4);
    let _ = n.add_remote_udp("53".to_string(), &mut s, 5);
    let _ = n.start(Ok(()), vec![1, 2, 3, 4, 5]).ok().unwrap();
    assert_eq!(n.remove_local_tcp("8080:[200::1]:80".to_string()).ok().unwrap(), Some(1));
    assert_eq!(n.mapping_count(), Some(4));
    assert_eq!(n.remove_local_udp("8080:[200::1]:80".to_string()).ok().unwrap(), Some(3));
    assert_eq!(n.remove_remote_tcp("22".to_string()).ok().unwrap(), Some(4));
    assert_eq!(n.remove_remote_udp("53".to_string()).ok().unwrap(), Some(5));
    assert_eq!(n.clear_mappings(), vec![2]);
    assert_eq!(n.mapping_count(), Some(0));
    assert!(n.is_running());
}

#[test]
fn bad_specifications_change_nothing() {
    let mut n = loaded();
    let mut s = ListenerStatsRegistry::new();
    assert!(!config_error(n.add_local_tcp("x".to_string(), &mut s, 1)).is_empty());
    assert!(!config_error(n.add_local_udp("x".to_string(), &mut s, 1)).is_empty());
    assert!(!config_error(n.add_remote_tcp("x".to_string(), &mut s, 1)).is_empty());
    assert!(!config_error(n.add_remote_udp("x".to_string(), &mut s, 1)).is_empty());
    assert!(!config_error(n.remove_local_tcp("x".to_string())).is_empty());
    assert_eq!(n.mapping_count(), Some(0));
}

#[test]
fn peers_are_managed_while_the_node_runs() {
    let mut n = loaded();
    let uri = || "tls://a:1".to_string();
    assert!(matches!(n.add_live_peer(uri()), Err(YggstackError::NotRunning(m)) if m == "not running"));
    assert!(matches!(n.remove_live_peer(uri()), Err(YggstackError::NotRunning(_))));
    assert!(matches!(n.retry_peers_now(), Err(YggstackError::NotRunning(_))));
    let _ = n.start(Ok(()), vec![]).ok().unwrap();
    assert!(matches!(n.add_live_peer(uri()), Ok(PeerCommand::Add(u)) if u == uri()));
    assert!(matches!(n.remove_live_peer(uri()), Ok(PeerCommand::Remove(u)) if u == uri()));
    assert!(matches!(n.retry_peers_now(), Ok(PeerCommand::Retry)));
    assert!(peer_outcome(Ok(())).is_ok());
    assert!(matches!(peer_outcome(Err("e".to_string())), Err(YggstackError::Runtime(m)) if m == "e"));
}

fn peer(uri: &str) -> PeerInfo {
    PeerInfo {
        uri: uri.to_string(),
        up: true,
        inbound: false,
        priority: 1,
        cost: 2,
        rx_bytes: 3,
        tx_bytes: 4,
        uptime: "5".to_string(),
        latency: "6".to_string(),
    }
}

#[test]
fn listings_are_empty_while_the_node_does_not_run() {
    let mut n = loaded();
    let mut s = ListenerStatsRegistry::new();
    let _ = s.entry("k", "socks", "a", "b");
    assert_eq!(n.get_listeners_json(&s), "[]");
    assert_eq!(n.get_peers_json(&vec![peer("tls://a:1")]), "[]");
    let _ = n.start(Ok(()), vec![]).ok().unwrap();
    assert_eq!(n.get_listeners_json(&s), s.to_json());
    let one = |uri: &str, port: u16| {
        format!(
            "{{\"URI\":\"{}\",\"Up\":true,\"Inbound\":false,\"Port\":{},\"Priority\":1,\"Cost\":2,\"RXBytes\":3,\"TXBytes\":4,\"Uptime\":5,\"Latency\":6}}",
            uri, port
        )
    };
    assert_eq!(n.get_peers_json(&vec![]), "[]");
    assert_eq!(
        n.get_peers_json(&vec![peer("tls://a:1?x=y:2"), peer("b")]),
        format!("[{},{}]", one("tls://a:1?x=y:2", 1), one("b", 0))
    );
}

#[test]
fn ports_stand_at_the_end_of_a_uri() {
    assert_eq!(peer_port("tcp://[200::1]:1514"), 1514);
    assert_eq!(peer_port("tcp://host:99999"), 0);
    assert_eq!(peer_port("tcp://host"), 0);
    assert_eq!(peer_port("80"), 80);
}

#[test]
fn removing_undoes_adding() {
    let mut n = loaded();
    let mut s = ListenerStatsRegistry::new();
    let _ = add(&mut n, &mut s, "8081:[200::1]:80", 1);
    let _ = add(&mut n, &mut s, "8080:[200::1]:80", 2);
    let _ = add(&mut n, &mut s, "8082:[200::1]:80", 3);
    assert_eq!(n.remove_local_tcp("0.0.0.0:8082:[200:0::1]:80".to_string()).ok().unwrap(), None);
    let l = n.start(Ok(()), vec![11, 12]).ok().unwrap();
    let keys: Vec<String> = l.local_tcp.iter().map(|f| f.key()).collect();
    assert_eq!(keys, vec!["ltcp:0.0.0.0:8081->[200::1]:80", "ltcp:0.0.0.0:8080->[200::1]:80"]);
}
