//! The netstack: TCP and UDP over the overlay network, without a network device
//! of the operating system.
//!
//! The state of the stack is driven from outside: packets come in, the interface
//! is polled, packets go out. Tasks that wait for something leave a waker, a
//! value of whatever type `W` the caller uses; tasks that wait for a connection
//! to be begun leave a reply slot, of type `T`.
pub mod device;
pub mod frag;
pub mod frag_laws;
pub mod laws;
pub mod sockets;
pub mod stack;
pub mod stack_laws;

pub use crate::netstack::stack::{TcpListener, TcpStream, UdpSocket, YggNetstack};

use std::collections::VecDeque;
use smoltcp::iface::{Interface, SocketHandle, SocketSet};
use vstd::prelude::*;
use crate::addr::{Ip, SocketAddr};
use crate::netstack::device::{YggDevice, packets};
use crate::netstack::frag::{FragReassembler, feed_step};
use crate::netstack::sockets::{
    Bound, MIN_MTU, SocketError, SocketModel, TcpModel, TcpState, add_tcp, add_udp, addresses_of,
    all_tame, asked_delay, connected, is_growable, is_reachable, is_tame, is_tcp, lemma_tame_insert,
    list_sockets, lists_sockets, may_recv, may_send, mtu_of, new_set, new_tcp, new_udp, no_sockets,
    poll_delay_millis, prefixes_of, remove_socket, routes_of, same_handle, sockets_of, tcp_at,
    tcp_connect, tcp_listen, tcp_may_recv, tcp_may_send, tcp_state, udp_has_data, udp_has_room,
    udp_takes,
};

verus! {

/// Size of each buffer of a TCP socket, and of the payload buffers of a UDP
/// socket.
pub const BUFFER_SIZE: usize = 65536;

/// How many datagrams each buffer of a UDP socket holds.
pub const UDP_PACKETS: usize = 64;

/// The longest time between two polls, in milliseconds.
pub const MAX_POLL_DELAY_MS: u64 = 50;

/// The largest transport MTU.
pub const MAX_MTU: u64 = 65535;

// ── State ─────────────────────────────────────────────────────────────────────

/// A TCP connection that is to be begun.
pub struct PendingConnect<T> {
    pub handle: SocketHandle,
    pub remote: SocketAddr,
    pub local_port: u16,
    pub reply: T,
}

/// A TCP listener: where it listens, the blank socket that waits for a
/// connection, the established sockets that wait to be accepted, and the wakers
/// of the tasks that wait to accept one.
pub struct TcpListenerEntry<W> {
    pub addr: [u8; 16],
    pub port: u16,
    pub listen_handle: SocketHandle,
    pub accept_queue: VecDeque<SocketHandle>,
    pub accept_wakers: Vec<W>,
}

/// What a TCP listener holds.
pub ghost struct Listener<W> {
    pub addr: Seq<u8>,
    pub port: nat,
    pub handle: SocketHandle,
    pub queue: Seq<SocketHandle>,
    pub wakers: Seq<W>,
}

impl<W> View for TcpListenerEntry<W> {
    type V = Listener<W>;

    open spec fn view(&self) -> Listener<W> {
        Listener {
            addr: self.addr@,
            port: self.port as nat,
            handle: self.listen_handle,
            queue: self.accept_queue@,
            wakers: self.accept_wakers@,
        }
    }
}

/// The state of the stack.
pub struct NetstackState<W, T> {
    pub iface: Interface,
    pub device: YggDevice,
    pub sockets: SocketSet<'static>,
    /// Wakers of the tasks that wait for anything on a socket.
    pub wakers: Vec<W>,
    /// Connections that are to be begun.
    pub pending_connects: Vec<PendingConnect<T>>,
    /// Active TCP listeners.
    pub listeners: Vec<TcpListenerEntry<W>>,
}

/// The listeners of a list.
pub open spec fn listener_views<W>(v: Seq<TcpListenerEntry<W>>) -> Seq<Listener<W>> {
    Seq::new(v.len(), |i: int| v[i]@)
}

/// Whether a listener's sockets are TCP sockets of the set, and it has a port.
pub open spec fn listener_ok<W>(l: Listener<W>, m: Map<SocketHandle, SocketModel>) -> bool {
    &&& is_tcp(m, l.handle)
    &&& l.port != 0
    &&& forall|k: int| 0 <= k < l.queue.len() ==> is_tcp(m, #[trigger] l.queue[k])
}

/// Whether a socket belongs to a listener.
pub open spec fn listener_holds<W>(ls: Seq<Listener<W>>, h: SocketHandle) -> bool {
    exists|i: int| 0 <= i < ls.len() && (#[trigger] ls[i]).handle == h || exists|i: int, k: int|
        0 <= i < ls.len() && 0 <= k < ls[i].queue.len() && #[trigger] ls[i].queue[k] == h
}

/// Whether a connection can be begun without an address to come from missing.
pub open spec fn pending_ok<T>(
    p: PendingConnect<T>,
    m: Map<SocketHandle, SocketModel>,
    addresses: Seq<Ip>,
) -> bool {
    is_tcp(m, p.handle) && is_reachable(addresses, p.remote@)
}

impl<W, T> NetstackState<W, T> {
    /// The sockets.
    pub open spec fn model(&self) -> Map<SocketHandle, SocketModel> {
        sockets_of(self.sockets)
    }

    /// The listeners.
    pub open spec fn listening(&self) -> Seq<Listener<W>> {
        listener_views(self.listeners@)
    }

    /// Sockets can be added and polled, and listeners and pending connections have
    /// theirs.
    pub open spec fn wf(&self) -> bool {
        &&& is_growable(self.sockets)
        &&& all_tame(self.model())
        &&& forall|i: int|
            0 <= i < self.listeners@.len() ==> listener_ok(
                (#[trigger] self.listeners@[i])@,
                self.model(),
            )
        &&& forall|i: int|
            0 <= i < self.pending_connects@.len() ==> pending_ok(
                #[trigger] self.pending_connects@[i],
                self.model(),
                addresses_of(self.iface),
            )
    }

    /// A stack without sockets.
    pub fn new(iface: Interface, device: YggDevice) -> (r: Self)
        ensures
            r.wf(),
            r.iface == iface,
            r.device == device,
            r.model() == no_sockets(),
            r.wakers@.len() == 0,
            r.pending_connects@.len() == 0,
            r.listeners@.len() == 0,
    {
        NetstackState {
            iface,
            device,
            sockets: new_set(),
            wakers: Vec::new(),
            pending_connects: Vec::new(),
            listeners: Vec::new(),
        }
    }
}

/// Everything of a state but its sockets.
pub open spec fn same_but_sockets<W, T>(a: NetstackState<W, T>, b: NetstackState<W, T>) -> bool {
    &&& a.iface == b.iface
    &&& a.device == b.device
    &&& a.wakers == b.wakers
    &&& a.pending_connects == b.pending_connects
    &&& a.listeners == b.listeners
}

/// Whether nothing waits in the receive buffer of a UDP socket, and the send buffer
/// takes any datagram that fits in it.
pub open spec fn is_unused(set: SocketSet<'static>, h: SocketHandle) -> bool {
    &&& !udp_has_data(set, h)
    &&& udp_has_room(set, h)
    &&& forall|len: nat| #[trigger] udp_takes(set, h, len) == (len <= BUFFER_SIZE)
}

/// Whether the sockets of one set are in another, unchanged.
pub open spec fn keeps_sockets(
    a: Map<SocketHandle, SocketModel>,
    b: Map<SocketHandle, SocketModel>,
) -> bool {
    forall|h: SocketHandle| #[trigger] a.contains_key(h) ==> b.contains_key(h) && b[h] == a[h]
}

// ── Polling ───────────────────────────────────────────────────────────────────

/// The time to the next poll, given what the stack asks for.
pub open spec fn poll_delay(asked: Option<u64>) -> u64 {
    match asked {
        Some(d) => if d < MAX_POLL_DELAY_MS {
            d
        } else {
            MAX_POLL_DELAY_MS
        },
        None => MAX_POLL_DELAY_MS,
    }
}

/// The time to the next poll, given what the stack asks for.
pub fn capped_poll_delay(asked: Option<u64>) -> (r: u64)
    ensures
        r == poll_delay(asked),
{
    match asked {
        Some(d) => if d < MAX_POLL_DELAY_MS {
            d
        } else {
            MAX_POLL_DELAY_MS
        },
        None => MAX_POLL_DELAY_MS,
    }
}

/// Whether both halves of a connection are open.
pub open spec fn is_established(t: TcpModel) -> bool {
    may_recv(t) && may_send(t)
}

/// A socket that listens.
pub open spec fn listening_at(addr: Seq<u8>, port: nat) -> SocketModel {
    SocketModel::Tcp(
        TcpModel {
            state: TcpState::Listen,
            listen: Bound { addr: Some(addr), port },
            ..new_tcp(BUFFER_SIZE as nat, BUFFER_SIZE as nat)
        },
    )
}

/// What servicing does to a listener: where its blank socket got established,
/// that socket waits to be accepted, and a new blank socket listens.
pub open spec fn serviced<W>(
    before: Listener<W>,
    after: Listener<W>,
    m: Map<SocketHandle, SocketModel>,
    n: Map<SocketHandle, SocketModel>,
) -> bool {
    if is_established(tcp_at(m, before.handle)) {
        &&& after == (Listener {
            handle: after.handle,
            queue: before.queue.push(before.handle),
            wakers: Seq::empty(),
            ..before
        })
        &&& !m.contains_key(after.handle)
        &&& n.contains_key(after.handle)
        &&& n[after.handle] == listening_at(before.addr, before.port)
    } else {
        after == before
    }
}

/// The wakers of the listeners whose blank socket got established, in order.
pub open spec fn woken<W>(ls: Seq<Listener<W>>, m: Map<SocketHandle, SocketModel>) -> Seq<W>
    decreases ls.len(),
{
    if ls.len() == 0 {
        Seq::empty()
    } else {
        let first = woken(ls.drop_last(), m);
        if is_established(tcp_at(m, ls.last().handle)) {
            first + ls.last().wakers
        } else {
            first
        }
    }
}

/// Whether a socket is a TCP socket that is done with.
pub open spec fn is_done(m: Map<SocketHandle, SocketModel>, h: SocketHandle) -> bool {
    is_tcp(m, h) && (tcp_at(m, h).state is Closed || tcp_at(m, h).state is TimeWait)
}

/// The sockets without those that are done with and belong to no listener.
pub open spec fn collected<W>(
    m: Map<SocketHandle, SocketModel>,
    ls: Seq<Listener<W>>,
) -> Map<SocketHandle, SocketModel> {
    Map::new(
        |h: SocketHandle| m.contains_key(h) && !(is_done(m, h) && !listener_holds(ls, h)),
        |h: SocketHandle| m[h],
    )
}

/// What is handed out after a poll: the packets to send, and the wakers to wake.
pub struct Polled<W> {
    pub packets: Vec<Vec<u8>>,
    pub accept_wakers: Vec<W>,
    pub wakers: Vec<W>,
}

impl<W, T> NetstackState<W, T> {
    /// The number of milliseconds until the next mandatory poll. The clock does not
    /// stand before its start, and the headers of a segment fit in the MTU of the
    /// device that the interface was made on.
    pub fn poll_delay_ms(&mut self, now_micros: i64) -> (r: u64)
        requires
            old(self).wf(),
            mtu_of(old(self).iface) >= MIN_MTU,
            0 <= now_micros,
        ensures
            final(self).wf(),
            mtu_of(final(self).iface) == mtu_of(old(self).iface),
            r == poll_delay(asked_delay(old(self).iface, old(self).sockets, now_micros)),
            r <= MAX_POLL_DELAY_MS,
            addresses_of(final(self).iface) == addresses_of(old(self).iface),
            prefixes_of(final(self).iface) == prefixes_of(old(self).iface),
            routes_of(final(self).iface) == routes_of(old(self).iface),
            final(self).sockets == old(self).sockets,
            final(self).device == old(self).device,
            final(self).wakers == old(self).wakers,
            final(self).pending_connects == old(self).pending_connects,
            final(self).listeners == old(self).listeners,
    {
        let asked = poll_delay_millis(&mut self.iface, &self.sockets, now_micros);
        capped_poll_delay(asked)
    }

    /// Create a TCP socket with standard buffers.
    pub fn new_tcp_socket(&mut self) -> (h: SocketHandle)
        requires
            is_growable(old(self).sockets),
        ensures
            is_growable(final(self).sockets),
            !old(self).model().contains_key(h),
            final(self).model() == old(self).model().insert(
                h,
                SocketModel::Tcp(new_tcp(BUFFER_SIZE as nat, BUFFER_SIZE as nat)),
            ),
            same_but_sockets(*final(self), *old(self)),
    {
        add_tcp(&mut self.sockets, BUFFER_SIZE, BUFFER_SIZE)
    }

    /// Create a UDP socket with standard buffers.
    pub fn new_udp_socket(&mut self) -> (h: SocketHandle)
        requires
            is_growable(old(self).sockets),
        ensures
            is_growable(final(self).sockets),
            !old(self).model().contains_key(h),
            final(self).model() == old(self).model().insert(
                h,
                SocketModel::Udp(new_udp(UDP_PACKETS as nat, BUFFER_SIZE as nat)),
            ),
            is_unused(final(self).sockets, h),
            same_but_sockets(*final(self), *old(self)),
    {
        add_udp(&mut self.sockets, UDP_PACKETS, BUFFER_SIZE)
    }

    /// Service all listeners: where a listening socket got established, move it to
    /// the accept queue and create a new blank one. The result holds the wakers of
    /// the tasks that wait to accept it.
    pub fn service_listeners(&mut self) -> (wake: Vec<W>)
        requires
            old(self).wf(),
        ensures
            final(self).wf(),
            final(self).iface == old(self).iface,
            final(self).device == old(self).device,
            final(self).wakers == old(self).wakers,
            final(self).pending_connects == old(self).pending_connects,
            final(self).listeners@.len() == old(self).listeners@.len(),
            forall|i: int|
                0 <= i < old(self).listeners@.len() ==> serviced(
                    #[trigger] old(self).listening()[i],
                    final(self).listening()[i],
                    old(self).model(),
                    final(self).model(),
                ),
            forall|i: int, j: int|
                0 <= i < j < old(self).listeners@.len() && is_established(
                    tcp_at(old(self).model(), (#[trigger] old(self).listening()[i]).handle),
                ) && is_established(
                    tcp_at(old(self).model(), (#[trigger] old(self).listening()[j]).handle),
                ) ==> final(self).listening()[i].handle != final(self).listening()[j].handle,
            keeps_sockets(old(self).model(), final(self).model()),
            forall|h: SocketHandle| #[trigger]
                final(self).model().contains_key(h) ==> old(self).model().contains_key(h)
                    || listener_holds(final(self).listening(), h),
            wake@ == woken(old(self).listening(), old(self).model()),
    {
        let ghost m = self.model();
        let ghost all = self.listening();
        let mut wake: Vec<W> = Vec::new();
        let n = self.listeners.len();
        let mut i: usize = 0;
        assert(all.take(0) =~= Seq::<Listener<W>>::empty());
        while i < n
            invariant
                i <= n,
                n == all.len(),
                all == old(self).listening(),
                m == old(self).model(),
                old(self).wf(),
                self.wf(),
                self.iface == old(self).iface,
                self.device == old(self).device,
                self.wakers == old(self).wakers,
                self.pending_connects == old(self).pending_connects,
                self.listeners@.len() == n,
                forall|k: int|
                    0 <= k < i ==> serviced(
                        #[trigger] all[k],
                        self.listening()[k],
                        m,
                        self.model(),
                    ),
                forall|k: int| i <= k < n ==> #[trigger] self.listening()[k] == all[k],
                forall|a: int, b: int|
                    0 <= a < b < i && is_established(tcp_at(m, (#[trigger] all[a]).handle))
                        && is_established(tcp_at(m, (#[trigger] all[b]).handle))
                        ==> self.listening()[a].handle != self.listening()[b].handle,
                keeps_sockets(m, self.model()),
                forall|h: SocketHandle| #[trigger]
                    self.model().contains_key(h) ==> m.contains_key(h) || exists|k: int|
                        0 <= k < i && (#[trigger] self.listening()[k]).handle == h,
                wake@ == woken(all.take(i as int), m),
            decreases n - i,
        {
            let ghost before = *self;
            let ghost s0 = self.model();
            let handle = self.listeners[i].listen_handle;
            assert(self.listening()[i as int] == all[i as int]);
            assert(listener_ok(old(self).listeners@[i as int]@, m));
            assert(all[i as int] == old(self).listeners@[i as int]@);
            assert(all.take(i + 1).drop_last() == all.take(i as int));
            assert(all.take(i + 1).last() == all[i as int]);
            assert(self.listeners@[i as int]@ == all[i as int]);
            if tcp_may_recv(&self.sockets, handle) && tcp_may_send(&self.sockets, handle) {
                let mut entry = self.listeners.remove(i);
                let ghost old_entry = entry@;
                entry.accept_queue.push_back(handle);
                wake.append(&mut entry.accept_wakers);
                let fresh = add_tcp(&mut self.sockets, BUFFER_SIZE, BUFFER_SIZE);
                let _ = tcp_listen(&mut self.sockets, fresh, entry.addr, entry.port);
                entry.listen_handle = fresh;
                self.listeners.insert(i, entry);
                proof {
                    let s1 = self.model();
                    assert(s1 =~= s0.insert(fresh, listening_at(all[i as int].addr, all[i as int].port)));
                    assert(keeps_sockets(s0, s1));
                    lemma_tame_insert(
                        s0,
                        fresh,
                        listening_at(all[i as int].addr, all[i as int].port),
                    );
                    assert(self.listeners@ == before.listeners@.update(i as int, entry));
                    assert(entry@.wakers =~= Seq::<W>::empty());
                    assert(self.listening()[i as int] == entry@);
                    assert forall|k: int| 0 <= k < n && k != i implies #[trigger] self.listening()[k]
                        == before.listening()[k] by {
                        assert(self.listeners@[k] == before.listeners@[k]);
                    }
                    assert forall|k: int| i + 1 <= k < n implies #[trigger] self.listening()[k]
                        == all[k] by {
                        assert(before.listening()[k] == all[k]);
                    }
                    assert forall|k: int| 0 <= k < i + 1 implies serviced(
                        #[trigger] all[k],
                        self.listening()[k],
                        m,
                        s1,
                    ) by {
                        if k < i {
                            assert(serviced(all[k], before.listening()[k], m, s0));
                        }
                    }
                    assert forall|k: int| 0 <= k < self.listeners@.len() implies listener_ok(
                        (#[trigger] self.listeners@[k])@,
                        s1,
                    ) by {
                        assert(listener_ok(before.listeners@[k]@, s0));
                        if k == i {
                            let q = entry@.queue;
                            assert(q == old_entry.queue.push(handle));
                            assert forall|j: int| 0 <= j < q.len() implies is_tcp(
                                s1,
                                #[trigger] q[j],
                            ) by {
                                if j < old_entry.queue.len() {
                                    assert(is_tcp(s0, old_entry.queue[j]));
                                    assert(s0.contains_key(q[j]));
                                } else {
                                    assert(s0.contains_key(handle));
                                }
                            }
                        } else {
                            let l = before.listeners@[k]@;
                            assert(s0.contains_key(l.handle));
                            assert forall|j: int| 0 <= j < l.queue.len() implies is_tcp(
                                s1,
                                #[trigger] l.queue[j],
                            ) by {
                                assert(is_tcp(s0, l.queue[j]));
                                assert(s0.contains_key(l.queue[j]));
                            }
                        }
                    }
                    assert forall|k: int| 0 <= k < self.pending_connects@.len() implies pending_ok(
                        #[trigger] self.pending_connects@[k],
                        s1,
                        addresses_of(self.iface),
                    ) by {
                        assert(pending_ok(
                            before.pending_connects@[k],
                            s0,
                            addresses_of(before.iface),
                        ));
                        assert(s0.contains_key(self.pending_connects@[k].handle));
                    }
                    assert forall|h: SocketHandle| #[trigger]
                        s1.contains_key(h) implies m.contains_key(h) || exists|k: int|
                        0 <= k < i + 1 && (#[trigger] self.listening()[k]).handle == h by {
                        if h == fresh {
                            assert(self.listening()[i as int].handle == h);
                        } else {
                            assert(s0.contains_key(h));
                            if !m.contains_key(h) {
                                let k = choose|k: int|
                                    0 <= k < i && (#[trigger] before.listening()[k]).handle == h;
                                assert(self.listening()[k].handle == h);
                            }
                        }
                    }
                }
            }
            i += 1;
        }
        proof {
            assert(all.take(n as int) =~= all);
            assert forall|h: SocketHandle| #[trigger]
                self.model().contains_key(h) implies m.contains_key(h) || listener_holds(
                self.listening(),
                h,
            ) by {}
        }
        wake
    }

    /// Whether a socket belongs to a listener.
    fn held(&self, h: SocketHandle) -> (r: bool)
        ensures
            r == listener_holds(self.listening(), h),
    {
        let ghost ls = self.listening();
        let mut i: usize = 0;
        while i < self.listeners.len()
            invariant
                i <= self.listeners@.len(),
                ls == self.listening(),
                forall|a: int| 0 <= a < i ==> (#[trigger] ls[a]).handle != h,
                forall|a: int, k: int|
                    0 <= a < i && 0 <= k < ls[a].queue.len() ==> #[trigger] ls[a].queue[k] != h,
            decreases self.listeners.len() - i,
        {
            assert(ls[i as int] == self.listeners@[i as int]@);
            if same_handle(self.listeners[i].listen_handle, h) {
                assert(ls[i as int].handle == h);
                return true;
            }
            let q = &self.listeners[i].accept_queue;
            let mut k: usize = 0;
            while k < q.len()
                invariant
                    i < self.listeners@.len(),
                    ls == self.listening(),
                    q@ == ls[i as int].queue,
                    k <= q@.len(),
                    forall|c: int| 0 <= c < k ==> #[trigger] ls[i as int].queue[c] != h,
                decreases q@.len() - k,
            {
                if same_handle(q[k], h) {
                    assert(ls[i as int].queue[k as int] == h);
                    return true;
                }
                k += 1;
            }
            i += 1;
        }
        false
    }

    /// Remove TCP sockets that are fully closed, but for those of listeners. This
    /// frees the buffers of each. A socket whose connection is still to be begun is
    /// closed too, so that nothing can be begun any more where one was.
    pub fn gc_closed_tcp(&mut self)
        requires
            old(self).wf(),
        ensures
            old(self).pending_connects@.len() == 0 ==> final(self).wf(),
            same_but_sockets(*final(self), *old(self)),
            final(self).model() == collected(old(self).model(), old(self).listening()),
    {
        let ghost m = self.model();
        let ghost ls = self.listening();
        let all = list_sockets(&self.sockets);
        let mut i: usize = 0;
        while i < all.len()
            invariant
                i <= all@.len(),
                m == old(self).model(),
                ls == old(self).listening(),
                lists_sockets(all@, m),
                same_but_sockets(*self, *old(self)),
                is_growable(self.sockets) == is_growable(old(self).sockets),
                forall|h: SocketHandle| #[trigger]
                    self.model().contains_key(h) ==> m.contains_key(h) && self.model()[h] == m[h],
                forall|h: SocketHandle| #[trigger]
                    m.contains_key(h) && !self.model().contains_key(h) ==> is_done(m, h)
                        && !listener_holds(ls, h),
                forall|k: int|
                    0 <= k < i && is_done(m, (#[trigger] all@[k]).0) && !listener_holds(
                        ls,
                        all@[k].0,
                    ) ==> !self.model().contains_key(all@[k].0),
                forall|k: int| i <= k < all@.len() ==> self.model().contains_key((#[trigger] all@[k]).0),
            decreases all.len() - i,
        {
            let (h, tcp) = all[i];
            assert(all@[i as int].0 == h);
            assert(m.contains_key(h));
            assert(self.model().contains_key(h));
            assert(self.listening() == ls);
            if tcp && !self.held(h) {
                let state = tcp_state(&self.sockets, h);
                if state == TcpState::Closed || state == TcpState::TimeWait {
                    remove_socket(&mut self.sockets, h);
                }
            }
            i += 1;
        }
        proof {
            let after = self.model();
            let want = collected(m, ls);
            assert forall|h: SocketHandle| #[trigger] after.contains_key(h) <==> want.contains_key(h)
                by {
                if m.contains_key(h) {
                    let k = choose|k: int| 0 <= k < all@.len() && (#[trigger] all@[k]).0 == h;
                    assert(all@[k].0 == h);
                }
            }
            assert(after =~= want);
            assert forall|h: SocketHandle| #[trigger] is_tcp(after, h) implies is_tame(
                tcp_at(after, h),
            ) by {
                assert(is_tcp(m, h));
            }
            assert forall|k: int| 0 <= k < self.listeners@.len() implies listener_ok(
                (#[trigger] self.listeners@[k])@,
                after,
            ) by {
                let l = self.listeners@[k]@;
                assert(listener_ok(old(self).listeners@[k]@, m));
                assert(ls[k] == l);
                assert(listener_holds(ls, l.handle));
                assert(m.contains_key(l.handle));
                assert forall|j: int| 0 <= j < l.queue.len() implies is_tcp(
                    after,
                    #[trigger] l.queue[j],
                ) by {
                    assert(ls[k].queue[j] == l.queue[j]);
                    assert(listener_holds(ls, l.queue[j]));
                    assert(m.contains_key(l.queue[j]));
                }
            }
        }
    }
}

/// What beginning connections, one after the other, does to the sockets, and what
/// comes of each.
pub open spec fn connects<T>(
    m: Map<SocketHandle, SocketModel>,
    addresses: Seq<Ip>,
    pending: Seq<PendingConnect<T>>,
) -> (Map<SocketHandle, SocketModel>, Seq<Result<(), SocketError>>)
    decreases pending.len(),
{
    if pending.len() == 0 {
        (m, Seq::empty())
    } else {
        let (n, results) = connects(m, addresses, pending.drop_last());
        let p = pending.last();
        match connected(tcp_at(n, p.handle), addresses, p.remote@, p.local_port as nat) {
            Ok(t) => (n.insert(p.handle, SocketModel::Tcp(t)), results.push(Ok(()))),
            Err(e) => (n, results.push(Err(e))),
        }
    }
}

/// What happened to the poll loop.
pub enum LoopEvent {
    /// A packet came in from the overlay network.
    Packet(Vec<u8>),
    /// No more packets will come in.
    Closed,
    /// The time to the next poll has passed.
    Timeout,
    /// Something asked for a poll.
    Wakeup,
}

impl<W, T> NetstackState<W, T> {
    /// Begin pending TCP connections (before the interface is polled). The result
    /// holds, for each, its reply slot and what came of it.
    pub fn process_connects(&mut self) -> (r: Vec<(T, Result<(), SocketError>)>)
        requires
            old(self).wf(),
        ensures
            final(self).wf(),
            final(self).pending_connects@.len() == 0,
            addresses_of(final(self).iface) == addresses_of(old(self).iface),
            prefixes_of(final(self).iface) == prefixes_of(old(self).iface),
            routes_of(final(self).iface) == routes_of(old(self).iface),
            mtu_of(final(self).iface) == mtu_of(old(self).iface),
            final(self).device == old(self).device,
            final(self).wakers == old(self).wakers,
            final(self).listeners == old(self).listeners,
            final(self).model() == connects(
                old(self).model(),
                addresses_of(old(self).iface),
                old(self).pending_connects@,
            ).0,
            r@.len() == old(self).pending_connects@.len(),
            forall|i: int|
                0 <= i < r@.len() ==> (#[trigger] r@[i]).0 == old(self).pending_connects@[i].reply
                    && r@[i].1 == connects(
                    old(self).model(),
                    addresses_of(old(self).iface),
                    old(self).pending_connects@,
                ).1[i],
    {
        let ghost all = self.pending_connects@;
        let ghost m = self.model();
        let ghost addresses = addresses_of(self.iface);
        let mut r: Vec<(T, Result<(), SocketError>)> = Vec::new();
        assert(all.take(0) =~= Seq::<PendingConnect<T>>::empty());
        assert(self.pending_connects@ == all.skip(0));
        while self.pending_connects.len() > 0
            invariant
                self.wf(),
                all == old(self).pending_connects@,
                m == old(self).model(),
                addresses == addresses_of(old(self).iface),
                addresses_of(self.iface) == addresses,
                prefixes_of(self.iface) == prefixes_of(old(self).iface),
                routes_of(self.iface) == routes_of(old(self).iface),
                mtu_of(self.iface) == mtu_of(old(self).iface),
                self.device == old(self).device,
                self.wakers == old(self).wakers,
                self.listeners == old(self).listeners,
                r@.len() <= all.len(),
                self.pending_connects@ == all.skip(r@.len() as int),
                connects(m, addresses, all.take(r@.len() as int)).1.len() == r@.len(),
                self.model() == connects(m, addresses, all.take(r@.len() as int)).0,
                forall|i: int|
                    0 <= i < r@.len() ==> (#[trigger] r@[i]).0 == all[i].reply && r@[i].1
                        == connects(m, addresses, all.take(r@.len() as int)).1[i],
            decreases self.pending_connects@.len(),
        {
            let ghost before = *self;
            let ghost n = r@.len() as int;
            let ghost s0 = self.model();
            let cmd = self.pending_connects.remove(0);
            assert(cmd == all[n]);
            assert(pending_ok(before.pending_connects@[0], s0, addresses));
            assert(all.take(n + 1).drop_last() == all.take(n));
            assert(all.take(n + 1).last() == cmd);
            let result = tcp_connect(
                &mut self.iface,
                &mut self.sockets,
                cmd.handle,
                cmd.remote,
                cmd.local_port,
            );
            let ghost done = r@;
            r.push((cmd.reply, result));
            proof {
                let s1 = self.model();
                let after = connects(m, addresses, all.take(n + 1));
                assert(after.1.last() == result);
                assert forall|i: int| 0 <= i < r@.len() implies (#[trigger] r@[i]).0 == all[i].reply
                    && r@[i].1 == after.1[i] by {
                    if i < n {
                        assert(r@[i] == done[i]);
                    }
                }
                assert(self.pending_connects@ == all.skip(n + 1));
                assert forall|h: SocketHandle| is_tcp(s0, h) implies #[trigger] is_tcp(s1, h) by {}
                assert(is_tcp(s0, cmd.handle));
                match connected(
                    tcp_at(s0, cmd.handle),
                    addresses,
                    cmd.remote@,
                    cmd.local_port as nat,
                ) {
                    Ok(t) => {
                        lemma_tame_insert(s0, cmd.handle, SocketModel::Tcp(t));
                    },
                    Err(_) => {},
                }
                assert forall|k: int| 0 <= k < self.listeners@.len() implies listener_ok(
                    (#[trigger] self.listeners@[k])@,
                    s1,
                ) by {
                    let l = self.listeners@[k]@;
                    assert(listener_ok(before.listeners@[k]@, s0));
                    assert(is_tcp(s1, l.handle));
                    assert forall|j: int| 0 <= j < l.queue.len() implies is_tcp(
                        s1,
                        #[trigger] l.queue[j],
                    ) by {
                        assert(is_tcp(s0, l.queue[j]));
                    }
                }
                assert forall|k: int| 0 <= k < self.pending_connects@.len() implies pending_ok(
                    #[trigger] self.pending_connects@[k],
                    s1,
                    addresses_of(self.iface),
                ) by {
                    assert(self.pending_connects@[k] == before.pending_connects@[k + 1]);
                    assert(pending_ok(before.pending_connects@[k + 1], s0, addresses));
                    assert(is_tcp(s1, self.pending_connects@[k].handle));
                }
            }
        }
        assert(all.take(all.len() as int) == all);
        r
    }

    /// Whether the interface has to be polled once more: while packets that came
    /// in wait.
    pub fn poll_again(&self) -> (r: bool)
        ensures
            r == (self.device.rx_queue@.len() > 0),
    {
        self.device.rx_queue.len() > 0
    }

    /// Finish a poll: service the listeners, and hand out what has to be sent and
    /// who has to be woken.
    pub fn finish_poll(&mut self) -> (r: Polled<W>)
        requires
            old(self).wf(),
        ensures
            final(self).wf(),
            final(self).iface == old(self).iface,
            final(self).pending_connects == old(self).pending_connects,
            final(self).device.rx_queue@ == old(self).device.rx_queue@,
            final(self).device.tx_queue@.len() == 0,
            final(self).device.mtu == old(self).device.mtu,
            final(self).wakers@.len() == 0,
            r.packets@ == old(self).device.tx_queue@,
            r.wakers@ == old(self).wakers@,
            r.accept_wakers@ == woken(old(self).listening(), old(self).model()),
            final(self).listeners@.len() == old(self).listeners@.len(),
            forall|i: int|
                0 <= i < old(self).listeners@.len() ==> serviced(
                    #[trigger] old(self).listening()[i],
                    final(self).listening()[i],
                    old(self).model(),
                    final(self).model(),
                ),
            forall|i: int, j: int|
                0 <= i < j < old(self).listeners@.len() && is_established(
                    tcp_at(old(self).model(), (#[trigger] old(self).listening()[i]).handle),
                ) && is_established(
                    tcp_at(old(self).model(), (#[trigger] old(self).listening()[j]).handle),
                ) ==> final(self).listening()[i].handle != final(self).listening()[j].handle,
            keeps_sockets(old(self).model(), final(self).model()),
            forall|h: SocketHandle| #[trigger]
                final(self).model().contains_key(h) ==> old(self).model().contains_key(h)
                    || listener_holds(final(self).listening(), h),
    {
        let accept_wakers = self.service_listeners();
        let packets = self.device.take_outgoing();
        let mut wakers: Vec<W> = Vec::new();
        wakers.append(&mut self.wakers);
        assert(wakers@ =~= old(self).wakers@);
        Polled { packets, accept_wakers, wakers }
    }

    /// Take in a packet of the overlay network: what it completes waits for the
    /// stack.
    pub fn packet_in(&mut self, reassembler: &mut FragReassembler, pkt: Vec<u8>)
        requires
            old(reassembler).wf(),
        ensures
            final(reassembler).wf(),
            exists|now: u64| ({
                let step = #[trigger] feed_step(old(reassembler)@, pkt@, now as nat);
                &&& final(reassembler)@ == step.0
                &&& packets(final(self).device.rx_queue@) == match step.1 {
                    Some(p) => packets(old(self).device.rx_queue@).push(p),
                    None => packets(old(self).device.rx_queue@),
                }
            }),
            final(self).device.tx_queue@ == old(self).device.tx_queue@,
            final(self).device.mtu == old(self).device.mtu,
            final(self).iface == old(self).iface,
            final(self).sockets == old(self).sockets,
            final(self).wakers == old(self).wakers,
            final(self).pending_connects == old(self).pending_connects,
            final(self).listeners == old(self).listeners,
    {
        match reassembler.feed(pkt) {
            Some(p) => {
                self.device.rx_queue.push_back(p);
                assert(packets(self.device.rx_queue@) == packets(old(self).device.rx_queue@).push(
                    p@,
                ));
            },
            None => {},
        }
    }

    /// Take in what woke the poll loop. The result says whether the loop goes on;
    /// it ends where no more packets will come in.
    pub fn on_event(&mut self, reassembler: &mut FragReassembler, event: LoopEvent) -> (r: bool)
        requires
            old(reassembler).wf(),
        ensures
            final(reassembler).wf(),
            r == !(event is Closed),
            match event {
                LoopEvent::Packet(pkt) => exists|now: u64| ({
                    let step = #[trigger] feed_step(old(reassembler)@, pkt@, now as nat);
                    &&& final(reassembler)@ == step.0
                    &&& packets(final(self).device.rx_queue@) == match step.1 {
                        Some(p) => packets(old(self).device.rx_queue@).push(p),
                        None => packets(old(self).device.rx_queue@),
                    }
                }),
                _ => final(reassembler)@ == old(reassembler)@ && final(self).device.rx_queue@
                    == old(self).device.rx_queue@,
            },
            final(self).device.tx_queue@ == old(self).device.tx_queue@,
            final(self).device.mtu == old(self).device.mtu,
            final(self).iface == old(self).iface,
            final(self).sockets == old(self).sockets,
            final(self).wakers == old(self).wakers,
            final(self).pending_connects == old(self).pending_connects,
            final(self).listeners == old(self).listeners,
    {
        match event {
            LoopEvent::Packet(pkt) => {
                self.packet_in(reassembler, pkt);
                true
            },
            LoopEvent::Closed => false,
            LoopEvent::Timeout => true,
            LoopEvent::Wakeup => true,
        }
    }
}

/// What the task that reads from the overlay network does next.
#[derive(Clone, Copy)]
pub enum ReaderAction {
    /// Hand the first so many bytes of the buffer to the poll loop, and read on.
    Forward(usize),
    /// Read on.
    Read,
    /// Come to an end.
    Exit,
}

/// What to do after a read of so many bytes, or one that failed.
pub fn reader_next(read: Option<usize>) -> (r: ReaderAction)
    ensures
        r == match read {
            Some(n) => if n > 0 {
                ReaderAction::Forward(n)
            } else {
                ReaderAction::Read
            },
            None => ReaderAction::Exit,
        },
{
    match read {
        Some(n) => if n > 0 {
            ReaderAction::Forward(n)
        } else {
            ReaderAction::Read
        },
        None => ReaderAction::Exit,
    }
}

/// What to do after a packet was handed to the poll loop, or could not be.
pub fn reader_forwarded(ok: bool) -> (r: ReaderAction)
    ensures
        r == if ok {
            ReaderAction::Read
        } else {
            ReaderAction::Exit
        },
{
    if ok {
        ReaderAction::Read
    } else {
        ReaderAction::Exit
    }
}

} // verus!
