//! IPv6 Fragment Extension Header reassembly.
//!
//! The userspace TCP/IP stack does not reassemble IPv6 fragments on a raw IP
//! medium, so packets are reassembled here before they reach it.
//!
//! Fragment header layout, directly behind the IPv6 header:
//!   byte 0: Next Header (protocol of the reassembled payload)
//!   byte 1: Reserved
//!   bytes 2-3: Fragment Offset (bits 15:3) | Res (bits 2:1) | M (bit 0)
//!   bytes 4-7: Identification (32-bit)
use vstd::prelude::*;
use crate::bytes::{array16, be16, be32, push_bytes, same_bytes, u16_from_be, u32_from_be};

verus! {

/// How long an incomplete packet is kept: sixty seconds, in nanoseconds.
pub const FRAG_TIMEOUT: u64 = 60_000_000_000;

/// Length of the IPv6 header.
pub const IPV6_HEADER_LEN: usize = 40;

/// Length of the fragment extension header.
pub const FRAG_EXT_LEN: usize = 8;

/// Largest payload that is reassembled.
pub const MAX_REASSEMBLED: usize = 65535;

/// Next Header value of the fragment extension header.
pub const FRAGMENT_HEADER: u8 = 44;

// ── Model ─────────────────────────────────────────────────────────────────────

/// What identifies the packet that a fragment belongs to.
pub struct FragId {
    pub src: Seq<u8>,
    pub dst: Seq<u8>,
    pub identification: u32,
}

/// A packet of which some fragments have come.
pub struct Partial {
    pub next_header: u8,
    pub total: Option<nat>,
    /// Which positions have come.
    pub have: Seq<bool>,
    pub data: Seq<u8>,
    pub created: nat,
}

/// A fragment, as its packet's bytes give it.
pub struct Fragment {
    pub id: FragId,
    pub next_header: u8,
    pub offset: nat,
    pub more: bool,
    pub payload: Seq<u8>,
}

/// Whether a packet announces a fragment extension header.
pub open spec fn is_fragment(pkt: Seq<u8>) -> bool {
    pkt.len() >= IPV6_HEADER_LEN && pkt[6] == FRAGMENT_HEADER
}

/// The fragment in a packet that has room for the fragment header.
pub open spec fn fragment_of(pkt: Seq<u8>) -> Fragment {
    Fragment {
        id: FragId {
            src: pkt.subrange(8, 24),
            dst: pkt.subrange(24, 40),
            identification: be32(pkt[44], pkt[45], pkt[46], pkt[47]) as u32,
        },
        next_header: pkt[40],
        offset: be16(pkt[42], pkt[43]) / 8 * 8,
        more: pkt[43] % 2 == 1,
        payload: pkt.skip(48),
    }
}

/// The packets that are still kept at time `now`.
pub open spec fn unexpired(m: Map<FragId, Partial>, now: nat) -> Map<FragId, Partial> {
    Map::new(|id: FragId| m.contains_key(id) && kept(m[id], now), |id: FragId| m[id])
}

/// Whether an incomplete packet is still kept at time `now`.
pub open spec fn kept(p: Partial, now: nat) -> bool {
    now - p.created < FRAG_TIMEOUT
}

/// A packet of which nothing has come yet.
pub open spec fn no_fragments(f: Fragment, now: nat) -> Partial {
    Partial {
        next_header: f.next_header,
        total: None,
        have: Seq::new(MAX_REASSEMBLED as nat, |i: int| false),
        data: Seq::new(MAX_REASSEMBLED as nat, |i: int| 0u8),
        created: now,
    }
}

/// `data` with `piece` written over it at `offset`.
pub open spec fn overwrite<T>(data: Seq<T>, offset: int, piece: Seq<T>) -> Seq<T> {
    data.take(offset) + piece + data.skip(offset + piece.len())
}

/// `have` with so many positions marked from `offset` on.
pub open spec fn marked(have: Seq<bool>, offset: int, len: nat) -> Seq<bool> {
    overwrite(have, offset, Seq::new(len, |i: int| true))
}

/// A partial packet with one more fragment in it.
pub open spec fn absorb(p: Partial, f: Fragment) -> Partial {
    Partial {
        next_header: p.next_header,
        total: if f.more {
            p.total
        } else {
            Some(f.offset + f.payload.len())
        },
        have: marked(p.have, f.offset as int, f.payload.len()),
        data: overwrite(p.data, f.offset as int, f.payload),
        created: p.created,
    }
}

/// Whether the packet's length is known, and every position below it has come.
pub open spec fn complete(p: Partial) -> bool {
    p.total is Some && forall|i: int| 0 <= i < p.total->0 ==> #[trigger] p.have[i]
}

/// The partial packet that a fragment is added to.
pub open spec fn partial_for(m: Map<FragId, Partial>, f: Fragment, now: nat) -> Partial {
    if m.contains_key(f.id) {
        m[f.id]
    } else {
        no_fragments(f, now)
    }
}

/// What one packet does to the partial packets, and what it delivers.
pub open spec fn feed_step(m: Map<FragId, Partial>, pkt: Seq<u8>, now: nat) -> (
    Map<FragId, Partial>,
    Option<Seq<u8>>,
) {
    let live = unexpired(m, now);
    if !is_fragment(pkt) {
        (live, Some(pkt))
    } else if pkt.len() < IPV6_HEADER_LEN + FRAG_EXT_LEN {
        (live, None)
    } else {
        let f = fragment_of(pkt);
        let p = absorb(partial_for(live, f, now), f);
        if f.offset + f.payload.len() > MAX_REASSEMBLED {
            (live.remove(f.id), None)
        } else if complete(p) {
            (
                live.remove(f.id),
                Some(
                    reassembled(
                        f.id.src,
                        f.id.dst,
                        p.next_header,
                        p.data.take(p.total->0 as int),
                    ),
                ),
            )
        } else {
            (live.insert(f.id, p), None)
        }
    }
}

/// An IPv6 packet with the given addresses, next header and payload, traffic
/// class and flow label zero and hop limit 64.
pub open spec fn reassembled(src: Seq<u8>, dst: Seq<u8>, next_header: u8, payload: Seq<u8>) -> Seq<
    u8,
> {
    seq![
        0x60u8,
        0u8,
        0u8,
        0u8,
        (payload.len() / 256 % 256) as u8,
        (payload.len() % 256) as u8,
        next_header,
        64u8,
    ] + src + dst + payload
}

/// The bytes of an optional packet.
pub open spec fn packet_bytes(r: Option<Vec<u8>>) -> Option<Seq<u8>> {
    match r {
        Some(v) => Some(v@),
        None => None,
    }
}

// ── Reassembler ───────────────────────────────────────────────────────────────

/// One packet under reassembly.
pub struct FragSlot {
    next_header: u8,
    src: [u8; 16],
    dst: [u8; 16],
    identification: u32,
    total_len: Option<usize>,
    have: Vec<bool>,
    buf: Vec<u8>,
    created: u64,
}

impl FragSlot {
    /// Which packet this is.
    pub closed spec fn id(self) -> FragId {
        FragId { src: self.src@, dst: self.dst@, identification: self.identification }
    }

    /// What has come of it.
    pub closed spec fn partial(self) -> Partial {
        Partial {
            next_header: self.next_header,
            total: match self.total_len {
                Some(n) => Some(n as nat),
                None => None,
            },
            have: self.have@,
            data: self.buf@,
            created: self.created as nat,
        }
    }

    spec fn wf(self) -> bool {
        &&& self.have@.len() == MAX_REASSEMBLED
        &&& self.buf@.len() == MAX_REASSEMBLED
        &&& self.total_len is Some ==> self.total_len->0 <= MAX_REASSEMBLED
    }
}

/// Reassembles IPv6 packets from their fragments.
pub struct FragReassembler {
    slots: Vec<FragSlot>,
    epoch: std::time::Instant,
}

/// `std::time::Instant`: a point of the monotonic clock.
#[verifier::external_type_specification]
#[verifier::external_body]
pub struct ExInstant(std::time::Instant);

/// `std::time::Instant::now`. The clock decides what comes back: nothing is
/// claimed of it.
#[verifier::external_body]
fn clock_now() -> (r: std::time::Instant) {
    std::time::Instant::now()
}

/// `std::time::Instant::elapsed`, in nanoseconds. The clock decides what comes
/// back: nothing is claimed of it.
#[verifier::external_body]
fn nanos_since(epoch: &std::time::Instant) -> (r: u64) {
    epoch.elapsed().as_nanos() as u64
}

spec fn has_id(s: Seq<FragSlot>, id: FragId) -> bool {
    exists|i: int| 0 <= i < s.len() && (#[trigger] s[i]).id() == id
}

spec fn index_of_id(s: Seq<FragSlot>, id: FragId) -> int {
    choose|i: int| 0 <= i < s.len() && (#[trigger] s[i]).id() == id
}

spec fn distinct_ids(s: Seq<FragSlot>) -> bool {
    forall|i: int, j: int|
        0 <= i < j < s.len() ==> (#[trigger] s[i]).id() != (#[trigger] s[j]).id()
}

spec fn slots_map(s: Seq<FragSlot>) -> Map<FragId, Partial> {
    Map::new(|id: FragId| has_id(s, id), |id: FragId| s[index_of_id(s, id)].partial())
}

proof fn lemma_slots_map_at(s: Seq<FragSlot>, i: int)
    requires
        distinct_ids(s),
        0 <= i < s.len(),
    ensures
        slots_map(s).contains_key(s[i].id()),
        slots_map(s)[s[i].id()] == s[i].partial(),
{
    let id = s[i].id();
    assert(has_id(s, id));
    let k = index_of_id(s, id);
    assert(0 <= k < s.len() && s[k].id() == id);
    if k < i {
        assert(s[k].id() != s[i].id());
    } else if i < k {
        assert(s[i].id() != s[k].id());
    }
}

proof fn lemma_slots_map_remove(s: Seq<FragSlot>, i: int)
    requires
        distinct_ids(s),
        0 <= i < s.len(),
    ensures
        distinct_ids(s.remove(i)),
        slots_map(s.remove(i)) == slots_map(s).remove(s[i].id()),
{
    let t = s.remove(i);
    assert(distinct_ids(t)) by {
        assert forall|a: int, b: int| 0 <= a < b < t.len() implies (#[trigger] t[a]).id() != (
        #[trigger] t[b]).id() by {
            let a2 = if a < i {
                a
            } else {
                a + 1
            };
            let b2 = if b < i {
                b
            } else {
                b + 1
            };
            assert(t[a] == s[a2] && t[b] == s[b2]);
        }
    }
    let m = slots_map(s).remove(s[i].id());
    assert forall|id: FragId| slots_map(t).contains_key(id) == m.contains_key(id) by {
        if has_id(t, id) {
            let k = index_of_id(t, id);
            let k2 = if k < i {
                k
            } else {
                k + 1
            };
            assert(t[k] == s[k2]);
            assert(has_id(s, id));
            if k2 < i {
                assert(s[k2].id() != s[i].id());
            } else {
                assert(s[i].id() != s[k2].id());
            }
        }
        if has_id(s, id) && id != s[i].id() {
            let k = index_of_id(s, id);
            let k2 = if k < i {
                k
            } else {
                k - 1
            };
            assert(t[k2] == s[k]);
        }
    }
    assert forall|id: FragId| slots_map(t).contains_key(id) implies slots_map(t)[id] == m[id] by {
        let k = index_of_id(t, id);
        let k2 = if k < i {
            k
        } else {
            k + 1
        };
        assert(t[k] == s[k2]);
        lemma_slots_map_at(s, k2);
        lemma_slots_map_at(t, k);
    }
    assert(slots_map(t) =~= m);
}

proof fn lemma_slots_map_push(s: Seq<FragSlot>, x: FragSlot)
    requires
        distinct_ids(s),
        !has_id(s, x.id()),
    ensures
        distinct_ids(s.push(x)),
        slots_map(s.push(x)) == slots_map(s).insert(x.id(), x.partial()),
{
    let t = s.push(x);
    assert forall|a: int, b: int| 0 <= a < b < t.len() implies (#[trigger] t[a]).id() != (
    #[trigger] t[b]).id() by {
        assert(t[a] == s[a]);
        if b < s.len() {
            assert(t[b] == s[b]);
        }
    }
    let m = slots_map(s).insert(x.id(), x.partial());
    assert forall|id: FragId| slots_map(t).contains_key(id) == m.contains_key(id) by {
        if has_id(t, id) {
            let k = index_of_id(t, id);
            if k < s.len() {
                assert(s[k].id() == id);
            }
        }
        if has_id(s, id) {
            let k = index_of_id(s, id);
            assert(t[k].id() == id);
        }
        if id == x.id() {
            assert(t[s.len() as int].id() == id);
        }
    }
    assert forall|id: FragId| slots_map(t).contains_key(id) implies slots_map(t)[id] == m[id] by {
        let k = index_of_id(t, id);
        lemma_slots_map_at(t, k);
        lemma_slots_map_at(t, s.len() as int);
        if k < s.len() {
            assert(t[k] == s[k]);
            lemma_slots_map_at(s, k);
        }
    }
    assert(slots_map(t) =~= m);
}

impl View for FragReassembler {
    type V = Map<FragId, Partial>;

    closed spec fn view(&self) -> Map<FragId, Partial> {
        slots_map(self.slots@)
    }
}

impl FragReassembler {
    /// No two slots are for one packet, and every slot has its whole buffer.
    pub closed spec fn wf(self) -> bool {
        &&& distinct_ids(self.slots@)
        &&& forall|i: int| 0 <= i < self.slots@.len() ==> (#[trigger] self.slots@[i]).wf()
    }

    /// Of every packet under reassembly, each position is either marked or not.
    pub proof fn lemma_positions(self, id: FragId)
        requires
            self.wf(),
            self@.contains_key(id),
        ensures
            self@[id].have.len() == MAX_REASSEMBLED,
            self@[id].data.len() == MAX_REASSEMBLED,
    {
        let k = index_of_id(self.slots@, id);
        assert(has_id(self.slots@, id));
        assert(self.slots@[k].wf());
        lemma_slots_map_at(self.slots@, k);
    }

    /// A reassembler that holds nothing.
    pub fn new() -> (r: Self)
        ensures
            r.wf(),
            r@ == Map::<FragId, Partial>::empty(),
    {
        let r = FragReassembler { slots: Vec::new(), epoch: clock_now() };
        assert(r@ =~= Map::<FragId, Partial>::empty());
        r
    }

    /// How many packets are under reassembly.
    pub fn slot_count(&self) -> (n: usize)
        requires
            self.wf(),
        ensures
            self@.dom().finite(),
            n == self@.dom().len(),
    {
        proof {
            lemma_slots_map_len(self.slots@);
        }
        self.slots.len()
    }

    /// Drop the packets that have been incomplete for too long.
    pub fn evict_expired(&mut self, now: u64)
        requires
            old(self).wf(),
        ensures
            final(self).wf(),
            final(self)@ == unexpired(old(self)@, now as nat),
    {
        let mut i: usize = 0;
        while i < self.slots.len()
            invariant
                i <= self.slots@.len(),
                self.wf(),
                unexpired(self@, now as nat) == unexpired(old(self)@, now as nat),
                forall|j: int|
                    0 <= j < i ==> kept((#[trigger] self.slots@[j]).partial(), now as nat),
            decreases self.slots@.len() - i,
        {
            let ghost before = self.slots@;
            if now.saturating_sub(self.slots[i].created) < FRAG_TIMEOUT {
                i += 1;
            } else {
                self.slots.remove(i);
                proof {
                    lemma_slots_map_at(before, i as int);
                    lemma_slots_map_remove(before, i as int);
                    assert(unexpired(slots_map(self.slots@), now as nat) =~= unexpired(
                        slots_map(before),
                        now as nat,
                    ));
                    assert forall|j: int| 0 <= j < self.slots@.len() implies (
                    #[trigger] self.slots@[j]).wf() by {
                        assert(self.slots@[j] == if j < i {
                            before[j]
                        } else {
                            before[j + 1]
                        });
                    }
                }
            }
        }
        proof {
            let s = self.slots@;
            assert forall|id: FragId| slots_map(s).contains_key(id) implies kept(
                slots_map(s)[id],
                now as nat,
            ) by {
                let k = index_of_id(s, id);
                assert(s[k].id() == id);
            }
            assert(unexpired(slots_map(s), now as nat) =~= slots_map(s));
        }
    }

    /// The slot of a packet.
    fn slot_index(&self, src: &[u8; 16], dst: &[u8; 16], identification: u32) -> (r: Option<usize>)
        ensures
            match r {
                Some(i) => i < self.slots@.len() && self.slots@[i as int].id() == (FragId {
                    src: src@,
                    dst: dst@,
                    identification,
                }),
                None => !has_id(
                    self.slots@,
                    FragId { src: src@, dst: dst@, identification },
                ),
            },
    {
        let ghost id = FragId { src: src@, dst: dst@, identification };
        let mut i: usize = 0;
        while i < self.slots.len()
            invariant
                i <= self.slots@.len(),
                id == (FragId { src: src@, dst: dst@, identification }),
                forall|j: int| 0 <= j < i ==> (#[trigger] self.slots@[j]).id() != id,
            decreases self.slots@.len() - i,
        {
            let s = &self.slots[i];
            if s.identification == identification && same_bytes(&s.src, src) && same_bytes(
                &s.dst,
                dst,
            ) {
                return Some(i);
            }
            i += 1;
        }
        None
    }

    /// Feed an incoming packet at time `now`, in nanoseconds. A packet that is
    /// no fragment passes through; a fragment gives the whole packet once it
    /// is complete.
    pub fn feed_at(&mut self, pkt: Vec<u8>, now: u64) -> (r: Option<Vec<u8>>)
        requires
            old(self).wf(),
        ensures
            final(self).wf(),
            (final(self)@, packet_bytes(r)) == feed_step(old(self)@, pkt@, now as nat),
    {
        self.evict_expired(now);
        let ghost live = self@;
        if pkt.len() < IPV6_HEADER_LEN {
            return Some(pkt);
        }
        if pkt[6] != FRAGMENT_HEADER {
            return Some(pkt);
        }
        if pkt.len() < IPV6_HEADER_LEN + FRAG_EXT_LEN {
            return None;
        }
        let ghost f = fragment_of(pkt@);
        let offset: usize = (u16_from_be(pkt[42], pkt[43]) / 8 * 8) as usize;
        let more: bool = pkt[43] % 2 == 1;
        let identification = u32_from_be(pkt[44], pkt[45], pkt[46], pkt[47]);
        let src = array16(pkt.as_slice(), 8);
        let dst = array16(pkt.as_slice(), 24);
        let payload = vstd::slice::slice_subrange(
            pkt.as_slice(),
            IPV6_HEADER_LEN + FRAG_EXT_LEN,
            pkt.len(),
        );
        assert(payload@ == f.payload);
        let found = self.slot_index(&src, &dst, identification);
        let ghost slots = self.slots@;
        if payload.len() > MAX_REASSEMBLED - offset {
            match found {
                Some(i) => {
                    self.slots.remove(i);
                    proof {
                        lemma_slots_map_remove(slots, i as int);
                        lemma_wf_after_remove(slots, i as int);
                    }
                },
                None => {
                    assert(live.remove(f.id) =~= live);
                },
            }
            return None;
        }
        let mut slot = match found {
            Some(i) => {
                let s = self.slots.remove(i);
                proof {
                    lemma_slots_map_at(slots, i as int);
                    lemma_slots_map_remove(slots, i as int);
                    lemma_wf_after_remove(slots, i as int);
                }
                s
            },
            None => {
                assert(live.remove(f.id) =~= live);
                FragSlot {
                    next_header: pkt[40],
                    src,
                    dst,
                    identification,
                    total_len: None,
                    have: vec![false; MAX_REASSEMBLED],
                    buf: vec![0u8; MAX_REASSEMBLED],
                    created: now,
                }
            },
        };
        let ghost p0 = partial_for(live, f, now as nat);
        assert(slot.partial().data == p0.data);
        assert(slot.partial().have == p0.have);
        assert(slot.partial() == p0);
        assert(self@ == live.remove(f.id));
        write_at(&mut slot.buf, offset, payload);
        mark_at(&mut slot.have, offset, payload.len());
        let end = offset + payload.len();
        if !more {
            slot.total_len = Some(end);
        }
        assert(slot.partial() == absorb(p0, f));
        let done = match slot.total_len {
            Some(total) => all_marked(&slot.have, total),
            None => false,
        };
        proof {
            let q = absorb(p0, f);
            assert(q.have == slot.have@);
            if done {
                assert forall|i: int| 0 <= i < q.total->0 implies #[trigger] q.have[i] by {
                    assert(slot.have@[i]);
                }
            } else if complete(q) {
                assert forall|i: int| 0 <= i < slot.total_len->0 implies #[trigger] slot.have@[i] by {
                    assert(q.have[i]);
                }
            }
            assert(done == complete(q));
        }
        if done {
            let total = slot.total_len.unwrap();
            let body = vstd::slice::slice_subrange(slot.buf.as_slice(), 0, total);
            assert(body@ == absorb(p0, f).data.take(total as int));
            Some(build_reassembled(slot.src, slot.dst, slot.next_header, body))
        } else {
            let ghost rest = self.slots@;
            assert(!has_id(rest, f.id)) by {
                assert(!slots_map(rest).contains_key(f.id));
            }
            proof {
                lemma_slots_map_push(rest, slot);
            }
            self.slots.push(slot);
            assert(live.remove(f.id).insert(f.id, absorb(p0, f)) =~= live.insert(
                f.id,
                absorb(p0, f),
            ));
            None
        }
    }

    /// Feed an incoming packet. Returns
    /// - `None` for a fragment whose packet is not yet complete, or a
    ///   malformed one;
    /// - `Some(pkt)` for a reassembled packet, or one that is no fragment.
    ///
    /// The clock says which incomplete packets have expired.
    pub fn feed(&mut self, pkt: Vec<u8>) -> (r: Option<Vec<u8>>)
        requires
            old(self).wf(),
        ensures
            final(self).wf(),
            exists|now: u64|
                (final(self)@, packet_bytes(r)) == #[trigger] feed_step(
                    old(self)@,
                    pkt@,
                    now as nat,
                ),
            !is_fragment(pkt@) ==> packet_bytes(r) == Some(pkt@),
    {
        let now = nanos_since(&self.epoch);
        self.feed_at(pkt, now)
    }
}

impl Default for FragReassembler {
    fn default() -> (r: Self)
        ensures
            r.wf(),
            r@ == Map::<FragId, Partial>::empty(),
    {
        FragReassembler::new()
    }
}

proof fn lemma_slots_map_len(s: Seq<FragSlot>)
    requires
        distinct_ids(s),
    ensures
        slots_map(s).dom().finite(),
        slots_map(s).dom().len() == s.len(),
    decreases s.len(),
{
    if s.len() == 0 {
        assert(slots_map(s).dom() =~= Set::<FragId>::empty());
    } else {
        let t = s.drop_last();
        assert(distinct_ids(t)) by {
            assert forall|a: int, b: int| 0 <= a < b < t.len() implies (#[trigger] t[a]).id() != (
            #[trigger] t[b]).id() by {
                assert(t[a] == s[a] && t[b] == s[b]);
            }
        }
        lemma_slots_map_len(t);
        assert(!has_id(t, s.last().id())) by {
            if has_id(t, s.last().id()) {
                let k = index_of_id(t, s.last().id());
                assert(t[k] == s[k]);
                assert(s[k].id() != s[s.len() - 1].id());
            }
        }
        lemma_slots_map_push(t, s.last());
        assert(t.push(s.last()) == s);
        assert(slots_map(s).dom() =~= slots_map(t).dom().insert(s.last().id()));
    }
}

proof fn lemma_wf_after_remove(s: Seq<FragSlot>, i: int)
    requires
        0 <= i < s.len(),
        forall|j: int| 0 <= j < s.len() ==> (#[trigger] s[j]).wf(),
    ensures
        forall|j: int| 0 <= j < s.remove(i).len() ==> (#[trigger] s.remove(i)[j]).wf(),
{
    assert forall|j: int| 0 <= j < s.remove(i).len() implies (#[trigger] s.remove(i)[j]).wf() by {
        assert(s.remove(i)[j] == if j < i {
            s[j]
        } else {
            s[j + 1]
        });
    }
}

/// Write a piece into a buffer.
fn write_at(buf: &mut Vec<u8>, offset: usize, piece: &[u8])
    requires
        offset + piece.len() <= old(buf)@.len(),
    ensures
        final(buf)@ == overwrite(old(buf)@, offset as int, piece@),
{
    let n = buf.len();
    let mut i: usize = 0;
    while i < piece.len()
        invariant
            i <= piece.len(),
            offset + piece.len() <= n,
            buf@.len() == n,
            buf@.len() == old(buf)@.len(),
            forall|j: int|
                0 <= j < buf@.len() ==> #[trigger] buf@[j] == if offset <= j < offset + i {
                    piece@[j - offset]
                } else {
                    old(buf)@[j]
                },
        decreases piece.len() - i,
    {
        buf[offset + i] = piece[i];
        i += 1;
    }
    assert(buf@ == overwrite(old(buf)@, offset as int, piece@));
}

/// Mark so many positions.
fn mark_at(have: &mut Vec<bool>, offset: usize, len: usize)
    requires
        offset + len <= old(have)@.len(),
    ensures
        final(have)@ == marked(old(have)@, offset as int, len as nat),
{
    let n = have.len();
    let mut i: usize = 0;
    while i < len
        invariant
            i <= len,
            offset + len <= n,
            have@.len() == n,
            have@.len() == old(have)@.len(),
            forall|j: int|
                0 <= j < have@.len() ==> #[trigger] have@[j] == (offset <= j < offset + i || old(
                    have,
                )@[j]),
        decreases len - i,
    {
        have[offset + i] = true;
        i += 1;
    }
    assert(have@ =~= marked(old(have)@, offset as int, len as nat));
}

/// Whether the first so many positions are marked.
fn all_marked(have: &Vec<bool>, total: usize) -> (r: bool)
    requires
        total <= have@.len(),
    ensures
        r == forall|i: int| 0 <= i < total ==> #[trigger] have@[i],
{
    let mut i: usize = 0;
    while i < total
        invariant
            i <= total <= have@.len(),
            forall|j: int| 0 <= j < i ==> #[trigger] have@[j],
        decreases total - i,
    {
        if !have[i] {
            return false;
        }
        i += 1;
    }
    true
}

/// Put an IPv6 header in front of a reassembled payload.
pub fn build_reassembled(src: [u8; 16], dst: [u8; 16], next_header: u8, payload: &[u8]) -> (pkt:
    Vec<u8>)
    ensures
        pkt@ == reassembled(src@, dst@, next_header, payload@),
{
    let len = payload.len();
    let mut pkt: Vec<u8> = Vec::new();
    // Version=6, Traffic Class=0, Flow Label=0
    pkt.push(0x60);
    pkt.push(0);
    pkt.push(0);
    pkt.push(0);
    // Payload length (16-bit big-endian)
    pkt.push((len / 256 % 256) as u8);
    pkt.push((len % 256) as u8);
    pkt.push(next_header);
    // Hop limit
    pkt.push(64);
    push_bytes(&mut pkt, &src);
    push_bytes(&mut pkt, &dst);
    push_bytes(&mut pkt, payload);
    assert(pkt@ == reassembled(src@, dst@, next_header, payload@));
    pkt
}

} // verus!
