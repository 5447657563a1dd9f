//! The packet queues between the overlay network and the TCP/IP stack.
//!
//! Incoming IPv6 packets (from Yggdrasil) are pushed into `rx_queue`. Outgoing
//! IPv6 packets (from the stack) are collected in `tx_queue` and sent to
//! Yggdrasil by the poll loop.
use std::collections::VecDeque;
use vstd::prelude::*;

verus! {

/// The device that the stack sends and receives packets on.
pub struct YggDevice {
    pub rx_queue: VecDeque<Vec<u8>>,
    pub tx_queue: VecDeque<Vec<u8>>,
    pub mtu: usize,
}

/// The packets of a queue.
pub open spec fn packets(q: Seq<Vec<u8>>) -> Seq<Seq<u8>> {
    Seq::new(q.len(), |i: int| q[i]@)
}

/// A packet that the stack takes in.
pub struct YggRxToken(pub Vec<u8>);

/// Leave to send one packet.
pub struct YggTxToken<'a>(pub &'a mut VecDeque<Vec<u8>>);

impl YggDevice {
    /// A device with empty queues.
    pub fn new(mtu: usize) -> (r: Self)
        ensures
            r.rx_queue@.len() == 0,
            r.tx_queue@.len() == 0,
            r.mtu == mtu,
    {
        YggDevice {
            rx_queue: VecDeque::with_capacity(64),
            tx_queue: VecDeque::with_capacity(64),
            mtu,
        }
    }

    /// Take the first packet that came in.
    pub fn receive(&mut self) -> (r: Option<YggRxToken>)
        ensures
            final(self).tx_queue@ == old(self).tx_queue@,
            final(self).mtu == old(self).mtu,
            match r {
                Some(t) => old(self).rx_queue@.len() > 0 && t.0 == old(self).rx_queue@[0]
                    && final(self).rx_queue@ == old(self).rx_queue@.skip(1),
                None => old(self).rx_queue@.len() == 0 && final(self).rx_queue@
                    == old(self).rx_queue@,
            },
    {
        match self.rx_queue.pop_front() {
            Some(p) => {
                assert(self.rx_queue@ == old(self).rx_queue@.skip(1));
                Some(YggRxToken(p))
            },
            None => None,
        }
    }

    /// Take every packet that is to go out, in order.
    pub fn take_outgoing(&mut self) -> (r: Vec<Vec<u8>>)
        ensures
            r@ == old(self).tx_queue@,
            final(self).tx_queue@.len() == 0,
            final(self).rx_queue@ == old(self).rx_queue@,
            final(self).mtu == old(self).mtu,
    {
        let mut r: Vec<Vec<u8>> = Vec::new();
        let ghost all = self.tx_queue@;
        let mut done = false;
        while !done
            invariant
                all == r@ + self.tx_queue@,
                self.rx_queue@ == old(self).rx_queue@,
                self.mtu == old(self).mtu,
                done ==> self.tx_queue@.len() == 0,
            decreases
                self.tx_queue@.len(),
                if done {
                    0int
                } else {
                    1int
                },
        {
            let ghost before = self.tx_queue@;
            let ghost taken = r@;
            match self.tx_queue.pop_front() {
                Some(p) => {
                    r.push(p);
                    assert(self.tx_queue@ == before.skip(1));
                    assert(taken.push(p) + self.tx_queue@ == taken + before);
                },
                None => {
                    done = true;
                },
            }
        }
        assert(r@ == all);
        r
    }
}

/// A buffer for a packet of `len` bytes.
pub fn packet_buffer(len: usize) -> (r: Vec<u8>)
    ensures
        r@ == Seq::new(len as nat, |i: int| 0u8),
{
    let r: Vec<u8> = vec![0u8; len];
    assert(r@ =~= Seq::new(len as nat, |i: int| 0u8));
    r
}

impl<'a> YggTxToken<'a> {
    /// Queue the packet that was written.
    pub fn send(self, packet: Vec<u8>)
        ensures
            final(self.0)@ == old(self.0)@.push(packet),
    {
        self.0.push_back(packet);
    }
}

} // verus!
