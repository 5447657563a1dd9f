//! Listener statistics.
use yggstack::stats::{
    counting_copy, stats_kind_order, ConnGuard, CopyAction, CopyEvent, Dir, ListenerStatsRegistry,
};

fn item(key: &str, kind: &str, listen: &str, target: &str, n: [u64; 4]) -> String {
    format!(
        "{{\"Key\":\"{}\",\"Kind\":\"{}\",\"Listen\":\"{}\",\"Target\":\"{}\",\"ActiveConns\":{},\"TotalConns\":{},\"RXBytes\":{},\"TXBytes\":{}}}",
        key, kind, listen, target, n[0], n[1], n[2], n[3]
    )
}

#[test]
fn an_empty_registry_lists_nothing() {
    assert_eq!(ListenerStatsRegistry::new().to_json(), "[]");
}

#[test]
fn connections_are_counted() {
    let mut r = ListenerStatsRegistry::new();
    assert!(r.has_room());
    let e = r.entry("k", "socks", "127.0.0.1:1080", "");
    r.conn_opened(e);
    r.conn_opened(e);
    r.conn_closed(e);
    r.relay(e, Dir::Rx, 10);
    r.relay(e, Dir::Tx, 3);
    assert_eq!(r.to_json(), format!("[{}]", item("k", "socks", "127.0.0.1:1080", "", [1, 2, 10, 3])));
}

#[test]
fn gauges_do_not_fall_below_zero() {
    let mut r = ListenerStatsRegistry::new();
    let e = r.entry("k", "socks", "a", "b");
    r.conn_closed(e);
    r.conn_opened(e);
    assert_eq!(r.to_json(), format!("[{}]", item("k", "socks", "a", "b", [1, 1, 0, 0])));
}

#[test]
fn an_entry_is_fetched_by_its_key() {
    let mut r = ListenerStatsRegistry::new();
    let a = r.entry("k", "local-tcp", "a", "b");
    let b = r.entry("k", "local-udp", "c", "d");
    r.conn_opened(a);
    r.conn_opened(b);
    assert_eq!(r.to_json(), format!("[{}]", item("k", "local-tcp", "a", "b", [2, 2, 0, 0])));
}

#[test]
fn removed_entries_do_not_count() {
    let mut r = ListenerStatsRegistry::new();
    let a = r.entry("k", "local-tcp", "a", "b");
    r.remove("k");
    r.conn_opened(a);
    assert_eq!(r.to_json(), "[]");
    let _ = r.entry("k", "local-tcp", "a", "b");
    r.conn_opened(a);
    assert_eq!(r.to_json(), format!("[{}]", item("k", "local-tcp", "a", "b", [0, 0, 0, 0])));
    r.clear();
    assert_eq!(r.to_json(), "[]");
}

#[test]
fn listings_are_ordered_by_kind_then_listen_then_target() {
    assert!(stats_kind_order("socks") < stats_kind_order("local-tcp"));
    let mut r = ListenerStatsRegistry::new();
    for (k, kind, l, t) in [
        ("1", "remote-udp", "x", "x"),
        ("2", "remote-tcp", "x", "x"),
        ("3", "local-udp", "b", "x"),
        ("4", "local-udp", "a", "z"),
        ("5", "local-udp", "a", "y"),
        ("6", "local-tcp", "x", "x"),
        ("7", "socks", "x", ""),
    ] {
        let _ = r.entry(k, kind, l, t);
    }
    let json = r.to_json();
    let at = |k: &str| json.find(&format!("\"Key\":\"{}\"", k)).unwrap();
    let places: Vec<usize> = ["7", "6", "5", "4", "3", "2", "1"].iter().map(|k| at(k)).collect();
    let mut sorted = places.clone();
    sorted.sort();
    assert_eq!(places, sorted);
}

#[test]
fn texts_in_a_listing_are_escaped() {
    let mut r = ListenerStatsRegistry::new();
    let _ = r.entry("a\"b", "socks", "l", "t\\");
    assert_eq!(
        r.to_json(),
        format!("[{}]", item("a\\\"b", "socks", "l", "t\\\\", [0, 0, 0, 0]))
    );
}

#[test]
fn guards_count_once() {
    let mut r = ListenerStatsRegistry::new();
    let e = r.entry("k", "socks", "a", "b");
    let mut g = ConnGuard::new(&mut r, e);
    assert!(r.to_json().contains("\"ActiveConns\":1,\"TotalConns\":1"));
    g.release(&mut r);
    g.release(&mut r);
    assert!(r.to_json().contains("\"ActiveConns\":0,\"TotalConns\":1"));
}

#[test]
fn copies_count_what_was_written() {
    let mut r = ListenerStatsRegistry::new();
    let e = r.entry("k", "socks", "a", "b");
    let mut c = counting_copy(e, Dir::Tx);
    assert!(matches!(c.step(&mut r, CopyEvent::Start), CopyAction::Read));
    assert!(matches!(c.step(&mut r, CopyEvent::Read(5)), CopyAction::Write(5)));
    assert!(r.to_json().contains("\"TXBytes\":0"));
    assert!(matches!(c.step(&mut r, CopyEvent::Written(5)), CopyAction::Read));
    assert!(r.to_json().contains("\"RXBytes\":0,\"TXBytes\":5"));
    assert!(matches!(c.step(&mut r, CopyEvent::Read(0)), CopyAction::Done(5)));
}

#[test]
fn removing_one_listener_leaves_the_others() {
    let mut r = ListenerStatsRegistry::new();
    let a = r.entry("a", "local-tcp", "a", "x");
    let b = r.entry("b", "local-tcp", "b", "x");
    r.conn_opened(a);
    r.relay(b, Dir::Rx, 4);
    r.remove("c");
    r.remove("a");
    r.relay(a, Dir::Rx, 9);
    let other = item("b", "local-tcp", "b", "x", [0, 0, 4, 0]);
    assert_eq!(r.to_json(), format!("[{}]", other));
    let again = r.entry("a", "local-tcp", "a", "x");
    r.conn_opened(a);
    assert_eq!(r.to_json(), format!("[{},{}]", item("a", "local-tcp", "a", "x", [0, 0, 0, 0]), other));
    r.relay(again, Dir::Tx, 1);
    assert_eq!(r.to_json(), format!("[{},{}]", item("a", "local-tcp", "a", "x", [0, 0, 0, 1]), other));
}

#[test]
fn guards_leave_other_entries_alone() {
    let mut r = ListenerStatsRegistry::new();
    let a = r.entry("a", "local-tcp", "a", "x");
    let b = r.entry("b", "local-tcp", "b", "x");
    let mut g = ConnGuard::new(&mut r, a);
    r.conn_opened(b);
    r.relay(b, Dir::Tx, 3);
    g.release(&mut r);
    assert_eq!(
        r.to_json(),
        format!(
            "[{},{}]",
            item("a", "local-tcp", "a", "x", [0, 1, 0, 0]),
            item("b", "local-tcp", "b", "x", [1, 1, 0, 3])
        )
    );
}

#[test]
fn each_guard_counts_while_it_is_held() {
    let mut r = ListenerStatsRegistry::new();
    let e = r.entry("k", "socks", "a", "b");
    let mut guards: Vec<ConnGuard> = (0..5).map(|_| ConnGuard::new(&mut r, e)).collect();
    for i in [3, 0, 3, 4] {
        guards[i].release(&mut r);
    }
    assert_eq!(r.to_json(), format!("[{}]", item("k", "socks", "a", "b", [2, 5, 0, 0])));
}
