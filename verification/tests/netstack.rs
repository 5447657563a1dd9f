//! Two stacks that talk to each other.
use smoltcp::iface::{Config, Interface};
use smoltcp::phy::{Device, DeviceCapabilities, Medium, RxToken, TxToken};
use smoltcp::time::Instant;
use smoltcp::wire::HardwareAddress;
use yggstack::addr::{IpAddr, Ipv4Addr, Ipv6Addr, SocketAddr};
use yggstack::error::ErrorKind;
use yggstack::netstack::device::{packet_buffer, YggDevice, YggRxToken, YggTxToken};
use yggstack::netstack::frag::FragReassembler;
use yggstack::netstack::sockets::SocketError;
use yggstack::netstack::stack::{
    connect_outcome, dial_target, ephemeral_port, parse_ipv4_cidr, transport_mtu, Ipv4Setup, Progress,
    ReadOutcome,
};
use yggstack::netstack::{
    capped_poll_delay, reader_forwarded, reader_next, LoopEvent, NetstackState, ReaderAction, TcpStream,
    YggNetstack,
};

struct Phy<'d>(&'d mut YggDevice);

struct Rx(YggRxToken);

struct Tx<'a>(YggTxToken<'a>);

impl RxToken for Rx {
    fn consume<R, F: FnOnce(&mut [u8]) -> R>(mut self, f: F) -> R {
        f(&mut self.0 .0)
    }
}

impl<'a> TxToken for Tx<'a> {
    fn consume<R, F: FnOnce(&mut [u8]) -> R>(self, len: usize, f: F) -> R {
        let mut buf = packet_buffer(len);
        let r = f(&mut buf);
        self.0.send(buf);
        r
    }
}

impl<'d> Device for Phy<'d> {
    type RxToken<'a> = Rx where Self: 'a;
    type TxToken<'a> = Tx<'a> where Self: 'a;

    fn receive(&mut self, _now: Instant) -> Option<(Rx, Tx<'_>)> {
        let t = self.0.receive()?;
        Some((Rx(t), Tx(YggTxToken(&mut self.0.tx_queue))))
    }

    fn transmit(&mut self, _now: Instant) -> Option<Tx<'_>> {
        Some(Tx(YggTxToken(&mut self.0.tx_queue)))
    }

    fn capabilities(&self) -> DeviceCapabilities {
        let mut caps = DeviceCapabilities::default();
        caps.medium = Medium::Ip;
        caps.max_transmission_unit = self.0.mtu;
        caps
    }
}

type State = NetstackState<u32, u32>;
type Stack = YggNetstack<u32, u32>;

fn addr(d: u8) -> Ipv6Addr {
    let mut octets = [0u8; 16];
    octets[0] = 2;
    octets[15] = d;
    Ipv6Addr { octets }
}

fn at(d: u8, port: u16) -> SocketAddr {
    SocketAddr::new(IpAddr::V6(addr(d)), port)
}

fn stack(d: u8) -> Stack {
    let mut device = YggDevice::new(1500);
    let iface = Interface::new(Config::new(HardwareAddress::Ip), &mut Phy(&mut device), Instant::from_millis(0));
    let (ns, routed) = YggNetstack::new(iface, device, addr(d));
    assert!(routed);
    assert!(!ns.ipv4);
    assert_eq!(ns.mtu, 1500);
    ns
}

fn poll(s: &mut State, ms: i64) {
    loop {
        let NetstackState { iface, device, sockets, .. } = s;
        iface.poll(Instant::from_millis(ms), &mut Phy(device), sockets);
        if !s.poll_again() {
            break;
        }
    }
}

/// Let packets go to and fro, and say whom that woke in the second stack.
fn exchange(a: &mut Stack, b: &mut Stack, clock: &mut i64) -> Vec<u32> {
    let mut frag = FragReassembler::new();
    let mut woken = Vec::new();
    for _ in 0..20 {
        *clock += 5;
        let _ = a.state.process_connects();
        poll(&mut a.state, *clock);
        for p in a.state.finish_poll().packets {
            assert!(b.state.on_event(&mut frag, LoopEvent::Packet(p)));
        }
        poll(&mut b.state, *clock);
        let polled = b.state.finish_poll();
        woken.extend(polled.accept_wakers);
        for p in polled.packets {
            a.state.packet_in(&mut frag, p);
        }
    }
    woken
}

fn read(s: &TcpStream, state: &mut State) -> Option<Vec<u8>> {
    let mut buf = vec![0u8; 4096];
    match s.poll_read(state, &mut buf, 0) {
        ReadOutcome::Data(n) => Some(buf[..n].to_vec()),
        _ => None,
    }
}

#[test]
fn streams_carry_bytes_both_ways() {
    let (mut a, mut b) = (stack(1), stack(2));
    let mut clock = 0;
    let l = b.listen_tcp(80).ok().unwrap();
    assert!(matches!(l.accept(&mut b.state, 7), Progress::Pending));
    assert!(a.can_reach(&at(2, 80)));
    let s = a.dial_tcp(at(2, 80), 42).ok().unwrap();
    let replies = a.state.process_connects();
    assert_eq!(replies.len(), 1);
    assert_eq!(replies[0].0, 42);
    assert!(replies[0].1.is_ok());
    assert!(matches!(s.wait_connected(&mut a.state, 1), Progress::Pending));
    assert_eq!(exchange(&mut a, &mut b, &mut clock), vec![7]);
    assert!(matches!(s.wait_connected(&mut a.state, 1), Progress::Ready(Ok(()))));
    let t = match l.accept(&mut b.state, 8) {
        Progress::Ready(t) => t,
        Progress::Pending => panic!(),
    };
    assert!(matches!(l.accept(&mut b.state, 9), Progress::Pending));
    assert!(matches!(s.poll_write(&mut a.state, b"hello", 1), Progress::Ready(Ok(5))));
    assert_eq!(read(&t, &mut b.state), None);
    exchange(&mut a, &mut b, &mut clock);
    assert_eq!(read(&t, &mut b.state), Some(b"hello".to_vec()));
    assert!(matches!(t.poll_write(&mut b.state, b"hi", 1), Progress::Ready(Ok(2))));
    exchange(&mut a, &mut b, &mut clock);
    assert_eq!(read(&s, &mut a.state), Some(b"hi".to_vec()));
    s.poll_shutdown(&mut a.state);
    exchange(&mut a, &mut b, &mut clock);
    let mut buf = [0u8; 4];
    assert!(matches!(t.poll_read(&mut b.state, &mut buf, 0), ReadOutcome::Eof));
}

#[test]
fn reads_wait_where_nothing_came() {
    let (mut a, mut b) = (stack(1), stack(2));
    let mut clock = 0;
    let l = b.listen_tcp(80).ok().unwrap();
    let s = a.dial_context("tcp", "[200::2]:80", 0).ok().unwrap();
    exchange(&mut a, &mut b, &mut clock);
    assert!(matches!(l.accept(&mut b.state, 0), Progress::Ready(_)));
    let mut buf = [0u8; 4];
    assert!(matches!(s.poll_read(&mut a.state, &mut buf, 5), ReadOutcome::Pending));
    assert_eq!(a.state.wakers, vec![5]);
    assert_eq!(a.state.finish_poll().wakers, vec![5]);
}

#[test]
fn nobody_listens_on_a_closed_port() {
    let (mut a, mut b) = (stack(1), stack(2));
    let mut clock = 0;
    let s = a.dial_tcp(at(2, 81), 0).ok().unwrap();
    exchange(&mut a, &mut b, &mut clock);
    match s.wait_connected(&mut a.state, 1) {
        Progress::Ready(Err(e)) => {
            assert!(matches!(e.kind, ErrorKind::ConnectionRefused));
            assert_eq!(e.message, "connection refused");
        }
        _ => panic!(),
    }
}

#[test]
fn closed_sockets_are_collected() {
    let (mut a, mut b) = (stack(1), stack(2));
    let mut clock = 0;
    assert!(a.listen_tcp(80).is_ok());
    assert!(a.open_udp().is_ok());
    assert!(a.dial_tcp(at(2, 81), 0).is_ok());
    exchange(&mut a, &mut b, &mut clock);
    assert_eq!(a.state.sockets.iter().count(), 3);
    a.state.gc_closed_tcp();
    assert_eq!(a.state.sockets.iter().count(), 2);
}

#[test]
fn writes_to_a_closed_stream_fail() {
    let (mut a, mut b) = (stack(1), stack(2));
    let mut clock = 0;
    assert!(b.listen_tcp(80).is_ok());
    let s = a.dial_tcp(at(2, 80), 0).ok().unwrap();
    exchange(&mut a, &mut b, &mut clock);
    s.poll_shutdown(&mut a.state);
    match s.poll_write(&mut a.state, b"x", 1) {
        Progress::Ready(Err(e)) => {
            assert!(matches!(e.kind, ErrorKind::BrokenPipe));
            assert_eq!(e.message, "socket closed");
        }
        _ => panic!(),
    }
}

#[test]
fn a_full_buffer_takes_what_fits() {
    let (mut a, mut b) = (stack(1), stack(2));
    let mut clock = 0;
    assert!(b.listen_tcp(80).is_ok());
    let s = a.dial_tcp(at(2, 80), 0).ok().unwrap();
    exchange(&mut a, &mut b, &mut clock);
    let data = vec![7u8; 70000];
    assert!(matches!(s.poll_write(&mut a.state, &data, 1), Progress::Ready(Ok(65536))));
    assert!(matches!(s.poll_write(&mut a.state, &data, 1), Progress::Pending));
}

#[test]
fn datagrams_that_do_not_fit_are_dropped() {
    let (mut a, mut b) = (stack(1), stack(2));
    let mut clock = 0;
    let u = b.bind_udp(53).ok().unwrap();
    let v = a.open_udp().ok().unwrap();
    assert!(matches!(v.send_to(&mut a.state, b"query", at(2, 53), 0), Progress::Ready(Ok(5))));
    exchange(&mut a, &mut b, &mut clock);
    let mut buf = [0u8; 2];
    match u.recv_from(&mut b.state, &mut buf, 3) {
        Progress::Ready(Err(e)) => assert_eq!(e.message, SocketError::Truncated.name()),
        _ => panic!(),
    }
    assert!(matches!(u.recv_from(&mut b.state, &mut buf, 3), Progress::Pending));
}

#[test]
fn closing_a_stream_ends_it() {
    let (mut a, mut b) = (stack(1), stack(2));
    let mut clock = 0;
    let l = b.listen_tcp(80).ok().unwrap();
    let s = a.dial_tcp(at(2, 80), 0).ok().unwrap();
    exchange(&mut a, &mut b, &mut clock);
    let t = match l.accept(&mut b.state, 0) {
        Progress::Ready(t) => t,
        Progress::Pending => panic!(),
    };
    s.close(&mut a.state);
    exchange(&mut a, &mut b, &mut clock);
    let mut buf = [0u8; 4];
    assert!(!matches!(t.poll_read(&mut b.state, &mut buf, 0), ReadOutcome::Data(_)));
}

#[test]
fn datagrams_come_with_their_source() {
    let (mut a, mut b) = (stack(1), stack(2));
    let mut clock = 0;
    let u = b.bind_udp(53).ok().unwrap();
    let v = a.open_udp().ok().unwrap();
    let mut buf = [0u8; 100];
    assert!(matches!(u.recv_from(&mut b.state, &mut buf, 3), Progress::Pending));
    match v.send_to(&mut a.state, b"query", at(2, 53), 0) {
        Progress::Ready(Ok(n)) => assert_eq!(n, 5),
        _ => panic!(),
    }
    exchange(&mut a, &mut b, &mut clock);
    let from = match u.recv_from(&mut b.state, &mut buf, 3) {
        Progress::Ready(Ok((n, from))) => {
            assert_eq!(&buf[..n], b"query");
            from
        }
        _ => panic!(),
    };
    assert_eq!(from.ip.to_text(), "200::1");
    assert!(from.port() >= 49152);
    assert!(matches!(u.send_to(&mut b.state, b"answer", from, 0), Progress::Ready(Ok(6))));
    exchange(&mut a, &mut b, &mut clock);
    match v.recv_from(&mut a.state, &mut buf, 3) {
        Progress::Ready(Ok((n, from))) => {
            assert_eq!(&buf[..n], b"answer");
            assert_eq!(from.to_text(), "[200::2]:53");
        }
        _ => panic!(),
    }
    v.close(&mut a.state);
    assert_eq!(a.state.sockets.iter().count(), 0);
}

#[test]
fn datagrams_go_to_ipv6_addresses_with_a_port() {
    let mut a = stack(1);
    let v = a.open_udp().ok().unwrap();
    let v4 = SocketAddr::new(IpAddr::V4(Ipv4Addr { octets: [1, 2, 3, 4] }), 5);
    match v.send_to(&mut a.state, b"x", v4, 0) {
        Progress::Ready(Err(e)) => {
            assert!(matches!(e.kind, ErrorKind::InvalidInput));
            assert_eq!(e.message, "expected IPv6 address");
        }
        _ => panic!(),
    }
    match v.send_to(&mut a.state, b"x", at(2, 0), 0) {
        Progress::Ready(Err(e)) => {
            assert!(matches!(e.kind, ErrorKind::Other));
            assert_eq!(e.message, SocketError::Unaddressable.name());
        }
        _ => panic!(),
    }
}

#[test]
fn dialing_ipv4_needs_a_route() {
    let mut a = stack(1);
    let v4 = SocketAddr::new(IpAddr::V4(Ipv4Addr { octets: [1, 2, 3, 4] }), 80);
    match a.dial_tcp(v4, 0) {
        Err(e) => {
            assert!(matches!(e.kind, ErrorKind::InvalidInput));
            assert_eq!(e.message, "expected IPv6 address");
        }
        Ok(_) => panic!(),
    }
    assert!(matches!(a.configure_ipv4(false, "10.0.0.1/8"), Ipv4Setup::Off));
    assert!(matches!(a.configure_ipv4(true, ""), Ipv4Setup::Off));
    assert!(matches!(a.configure_ipv4(true, "10.0.0.1"), Ipv4Setup::Unreadable));
    assert!(matches!(a.configure_ipv4(true, "10.0.0.1/8"), Ipv4Setup::Assigned { routed: true }));
    assert_eq!(a.state.iface.ip_addrs().len(), 2);
    a.ipv4 = true;
    assert!(a.dial_tcp(v4, 0).is_ok());
}

#[test]
fn some_addresses_cannot_be_reached() {
    let a = stack(1);
    let mut o = [0u8; 16];
    o[0] = 0xfe;
    o[1] = 0x80;
    o[15] = 9;
    let link_local = SocketAddr::new(IpAddr::V6(Ipv6Addr { octets: o }), 80);
    assert!(!a.can_reach(&link_local));
    assert!(a.can_reach(&at(9, 80)));
}

#[test]
fn generic_dials_name_network_and_address() {
    assert_eq!(dial_target("tcp6", "[200::1]:80").ok().unwrap().to_text(), "[200::1]:80");
    match dial_target("udp", "[200::1]:80") {
        Err(e) => {
            assert!(matches!(e.kind, ErrorKind::Unsupported));
            assert_eq!(e.message, "unsupported network udp");
        }
        Ok(_) => panic!(),
    }
    match dial_target("udp", "host:80") {
        Err(e) => {
            assert!(matches!(e.kind, ErrorKind::InvalidInput));
            assert_eq!(e.message, "invalid socket address syntax");
        }
        Ok(_) => panic!(),
    }
}

#[test]
fn a_port_has_one_listener() {
    let mut a = stack(1);
    assert!(a.listen_tcp(80).is_ok());
    assert!(a.listen_tcp(0).is_err());
    assert!(a.bind_udp(53).is_ok());
    assert!(a.bind_udp(0).is_err());
}

#[test]
fn connects_are_answered() {
    assert!(connect_outcome(Some(Ok(()))).is_ok());
    match connect_outcome(None) {
        Err(e) => {
            assert!(matches!(e.kind, ErrorKind::BrokenPipe));
            assert_eq!(e.message, "netstack closed");
        }
        Ok(_) => panic!(),
    }
    match connect_outcome(Some(Err(SocketError::InvalidState))) {
        Err(e) => {
            assert!(matches!(e.kind, ErrorKind::ConnectionRefused));
            assert_eq!(e.message, SocketError::InvalidState.name());
        }
        Ok(_) => panic!(),
    }
}

#[test]
fn small_numbers_of_the_stack() {
    assert_eq!(ephemeral_port(0), 49152);
    assert_eq!(ephemeral_port(16383), 65535);
    assert_eq!(ephemeral_port(16384), 49152);
    assert_eq!(transport_mtu(1500), 1500);
    assert_eq!(transport_mtu(70000), 65535);
    assert_eq!(capped_poll_delay(None), 50);
    assert_eq!(capped_poll_delay(Some(7)), 7);
    assert_eq!(capped_poll_delay(Some(5000)), 50);
    let (addr, prefix) = parse_ipv4_cidr("10.1.2.3/24").unwrap();
    assert_eq!((addr.octets, prefix), ([10, 1, 2, 3], 24));
    assert!(parse_ipv4_cidr("10.1.2.3/x").is_none());
}

#[test]
fn readers_forward_what_they_read() {
    assert!(matches!(reader_next(Some(3)), ReaderAction::Forward(3)));
    assert!(matches!(reader_next(Some(0)), ReaderAction::Read));
    assert!(matches!(reader_next(None), ReaderAction::Exit));
    assert!(matches!(reader_forwarded(true), ReaderAction::Read));
    assert!(matches!(reader_forwarded(false), ReaderAction::Exit));
    let mut a = stack(1);
    let mut frag = FragReassembler::new();
    assert!(!a.state.on_event(&mut frag, LoopEvent::Closed));
    assert!(a.state.on_event(&mut frag, LoopEvent::Timeout));
    assert!(a.state.on_event(&mut frag, LoopEvent::Wakeup));
}

#[test]
fn devices_queue_packets() {
    let mut d = YggDevice::new(1280);
    assert_eq!(d.mtu, 1280);
    assert!(d.receive().is_none());
    d.rx_queue.push_back(vec![1]);
    d.rx_queue.push_back(vec![2]);
    assert_eq!(d.receive().unwrap().0, vec![1]);
    YggTxToken(&mut d.tx_queue).send(vec![3]);
    YggTxToken(&mut d.tx_queue).send(vec![4]);
    assert_eq!(d.take_outgoing(), vec![vec![3], vec![4]]);
    assert!(d.take_outgoing().is_empty());
    assert_eq!(packet_buffer(3), vec![0, 0, 0]);
}

#[test]
fn polls_come_when_the_stack_asks() {
    let mut a = stack(1);
    assert_eq!(a.state.poll_delay_ms(0), 50);
    let _ = a.dial_tcp(at(2, 80), 1).ok().unwrap();
    assert_eq!(a.state.poll_delay_ms(0), 50);
    let _ = a.state.process_connects();
    assert_eq!(a.state.poll_delay_ms(0), 0);
}

#[test]
fn dials_that_go_nowhere_are_refused_without_a_source() {
    let mut a = stack(1);
    let mut o = [0u8; 16];
    let nowhere = SocketAddr::new(IpAddr::V6(Ipv6Addr { octets: o }), 80);
    o[0] = 0xfe;
    o[1] = 0x80;
    let no_port = SocketAddr::new(IpAddr::V6(Ipv6Addr { octets: o }), 0);
    for (n, to) in [nowhere, no_port].into_iter().enumerate() {
        assert!(a.can_reach(&to));
        assert!(a.dial_tcp(to, n as u32).is_ok());
    }
    let replies = a.state.process_connects();
    assert_eq!(replies.len(), 2);
    for (n, (reply, outcome)) in replies.into_iter().enumerate() {
        assert_eq!(reply, n as u32);
        assert!(matches!(outcome, Err(SocketError::Unaddressable)));
    }
}

#[test]
fn datagrams_wait_for_room() {
    let mut a = stack(1);
    let v = a.open_udp().ok().unwrap();
    assert!(matches!(v.recv_from(&mut a.state, &mut [0u8; 8], 3), Progress::Pending));
    assert_eq!(a.state.wakers, vec![3]);
    for _ in 0..64 {
        assert!(matches!(v.send_to(&mut a.state, b"x", at(2, 5), 4), Progress::Ready(Ok(1))));
    }
    assert!(matches!(v.send_to(&mut a.state, b"x", at(2, 5), 4), Progress::Pending));
    assert_eq!(a.state.wakers, vec![3, 4]);
    let w = a.open_udp().ok().unwrap();
    assert!(matches!(w.send_to(&mut a.state, &[0u8; 40000], at(2, 5), 5), Progress::Ready(Ok(40000))));
    match w.send_to(&mut a.state, &[0u8; 40000], at(2, 5), 5) {
        Progress::Ready(Err(e)) => {
            assert!(matches!(e.kind, ErrorKind::Other));
            assert_eq!(e.message, SocketError::BufferFull.name());
        }
        _ => panic!(),
    }
}

#[test]
fn dials_to_unspecified_ipv4_addresses_are_refused() {
    let mut a = stack(1);
    assert!(matches!(a.configure_ipv4(true, "10.0.0.1/8"), Ipv4Setup::Assigned { routed: true }));
    a.ipv4 = true;
    for octets in [[0, 0, 0, 0], [0, 1, 2, 3], [1, 2, 3, 4]] {
        let to = SocketAddr::new(IpAddr::V4(Ipv4Addr { octets }), 80);
        assert!(a.can_reach(&to));
        assert!(a.dial_tcp(to, 0).is_ok());
    }
    let outcomes: Vec<bool> = a.state.process_connects().into_iter().map(|(_, r)| r.is_ok()).collect();
    assert_eq!(outcomes, vec![false, false, true]);
}

#[test]
fn sockets_of_other_protocols_are_left_alone() {
    let mut a = stack(1);
    let buffer = || {
        smoltcp::socket::icmp::PacketBuffer::new(
            vec![smoltcp::socket::icmp::PacketMetadata::EMPTY; 1],
            vec![0u8; 64],
        )
    };
    let _ = a.state.sockets.add(smoltcp::socket::icmp::Socket::new(buffer(), buffer()));
    let _ = a.state.new_tcp_socket();
    let _ = a.state.new_udp_socket();
    assert_eq!(a.state.sockets.iter().count(), 3);
    a.state.gc_closed_tcp();
    assert_eq!(a.state.sockets.iter().count(), 2);
    assert_eq!(a.state.poll_delay_ms(0), 50);
}

#[test]
fn new_sockets_have_standard_buffers() {
    let (mut a, mut b) = (stack(1), stack(2));
    let mut clock = 0;
    assert!(b.listen_tcp(80).is_ok());
    let _ = a.dial_tcp(at(2, 80), 0).ok().unwrap();
    exchange(&mut a, &mut b, &mut clock);
    let _ = b.open_udp().ok().unwrap();
    let _ = b.bind_udp(53).ok().unwrap();
    let (mut tcp, mut udp) = (0, 0);
    for (_, s) in a.state.sockets.iter().chain(b.state.sockets.iter()) {
        match s {
            smoltcp::socket::Socket::Tcp(s) => {
                tcp += 1;
                assert_eq!((s.recv_capacity(), s.send_capacity()), (65536, 65536));
            }
            smoltcp::socket::Socket::Udp(s) => {
                udp += 1;
                assert_eq!((s.packet_recv_capacity(), s.packet_send_capacity()), (64, 64));
                assert_eq!((s.payload_recv_capacity(), s.payload_send_capacity()), (65536, 65536));
            }
            _ => panic!(),
        }
    }
    assert_eq!((tcp, udp), (3, 2));
}

#[test]
fn addresses_have_their_prefixes() {
    let mut a = stack(1);
    let prefixes = |s: &Stack| -> Vec<u8> { s.state.iface.ip_addrs().iter().map(|c| c.prefix_len()).collect() };
    assert_eq!(prefixes(&a), vec![128]);
    assert!(matches!(a.configure_ipv4(true, "10.0.0.1/8"), Ipv4Setup::Assigned { routed: true }));
    assert_eq!(prefixes(&a), vec![128, 8]);
    assert!(matches!(a.configure_ipv4(true, "10.0.0.2/16"), Ipv4Setup::Assigned { .. }));
    assert_eq!(prefixes(&a), vec![128, 8]);
}

#[test]
fn fresh_udp_sockets_take_what_fits() {
    let mut a = stack(1);
    let u = a.open_udp().ok().unwrap();
    match u.send_to(&mut a.state, &[0u8; 65537], at(2, 5), 0) {
        Progress::Ready(Err(e)) => assert_eq!(e.message, SocketError::BufferFull.name()),
        _ => panic!(),
    }
    assert!(matches!(u.send_to(&mut a.state, &[0u8; 65536], at(2, 5), 0), Progress::Ready(Ok(65536))));
    let v = a.bind_udp(53).ok().unwrap();
    assert!(matches!(v.recv_from(&mut a.state, &mut [0u8; 8], 0), Progress::Pending));
    assert!(matches!(v.send_to(&mut a.state, &[], at(2, 5), 0), Progress::Ready(Ok(0))));
}
