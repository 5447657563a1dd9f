//! What reassembly promises over a whole run of packets.
use vstd::prelude::*;
use vstd::set_lib::set_int_range;
use crate::netstack::frag::{
    FRAG_EXT_LEN, FRAG_TIMEOUT, FragId, FragReassembler, IPV6_HEADER_LEN, MAX_REASSEMBLED, Partial,
    absorb, build_reassembled, complete, feed_step, fragment_of, is_fragment, kept, packet_bytes,
    partial_for, reassembled, unexpired,
};
use crate::bytes::be32;

verus! {

/// Feeding packets one after the other, packet `i` at `times[i]`: the partial
/// packets that are left, and what each feed delivered.
pub open spec fn run(m: Map<FragId, Partial>, pkts: Seq<Seq<u8>>, times: Seq<nat>) -> (
    Map<FragId, Partial>,
    Seq<Option<Seq<u8>>>,
)
    decreases pkts.len(),
{
    if pkts.len() == 0 {
        (m, Seq::empty())
    } else {
        let before = run(m, pkts.drop_last(), times.drop_last());
        let after = feed_step(before.0, pkts.last(), times.last());
        (after.0, before.1.push(after.1))
    }
}

/// Whether a packet carries a non-empty piece of `body`, at its place, and is
/// marked as the last one exactly where it ends `body`.
pub open spec fn is_piece(pkt: Seq<u8>, id: FragId, next_header: u8, body: Seq<u8>) -> bool {
    let f = fragment_of(pkt);
    let end = f.offset + f.payload.len();
    &&& is_fragment(pkt)
    &&& pkt.len() >= IPV6_HEADER_LEN + FRAG_EXT_LEN
    &&& f.id == id
    &&& f.next_header == next_header
    &&& f.payload.len() > 0
    &&& end <= body.len()
    &&& f.payload == body.subrange(f.offset as int, end as int)
    &&& f.more == (end < body.len())
}

/// The positions that a packet's fragment covers.
pub open spec fn range_of(pkt: Seq<u8>) -> Set<int> {
    let f = fragment_of(pkt);
    set_int_range(f.offset as int, (f.offset + f.payload.len()) as int)
}

/// Whether no two fragments overlap.
pub open spec fn no_overlap(pkts: Seq<Seq<u8>>) -> bool {
    forall|i: int, j: int|
        0 <= i < j < pkts.len() ==> (#[trigger] range_of(pkts[i])).disjoint(
            #[trigger] range_of(pkts[j]),
        )
}

/// Whether the packets carry pieces of `body`, in whatever order.
pub open spec fn are_pieces(
    pkts: Seq<Seq<u8>>,
    id: FragId,
    next_header: u8,
    body: Seq<u8>,
) -> bool {
    &&& 0 < body.len() <= MAX_REASSEMBLED
    &&& forall|i: int| 0 <= i < pkts.len() ==> is_piece(#[trigger] pkts[i], id, next_header, body)
}

/// Whether a position lies in one of the fragments.
pub open spec fn is_covered(pkts: Seq<Seq<u8>>, p: int) -> bool {
    exists|i: int| 0 <= i < pkts.len() && (#[trigger] range_of(pkts[i])).contains(p)
}

/// Whether every position of `body` lies in one of the fragments.
pub open spec fn covers(pkts: Seq<Seq<u8>>, body: Seq<u8>) -> bool {
    forall|p: int| 0 <= p < body.len() ==> #[trigger] is_covered(pkts, p)
}

proof fn lemma_covered_push(pkts: Seq<Seq<u8>>, p: int)
    requires
        pkts.len() > 0,
    ensures
        is_covered(pkts, p) <==> is_covered(pkts.drop_last(), p) || range_of(
            pkts.last(),
        ).contains(p),
{
    let t = pkts.drop_last();
    if is_covered(pkts, p) {
        let i = choose|i: int| 0 <= i < pkts.len() && (#[trigger] range_of(pkts[i])).contains(p);
        if i < t.len() {
            assert(range_of(t[i]).contains(p));
        }
    }
    if is_covered(t, p) {
        let i = choose|i: int| 0 <= i < t.len() && (#[trigger] range_of(t[i])).contains(p);
        assert(range_of(pkts[i]).contains(p));
    }
    if range_of(pkts.last()).contains(p) {
        assert(range_of(pkts[pkts.len() - 1]).contains(p));
    }
}

/// What fewer fragments cover, more of them cover too.
proof fn lemma_covers_more(pkts: Seq<Seq<u8>>, k: int, n: int, body: Seq<u8>)
    requires
        0 <= k <= n <= pkts.len(),
        covers(pkts.take(k), body),
    ensures
        covers(pkts.take(n), body),
{
    assert forall|p: int| 0 <= p < body.len() implies #[trigger] is_covered(pkts.take(n), p) by {
        assert(is_covered(pkts.take(k), p));
        let i = choose|i: int|
            0 <= i < k && (#[trigger] range_of(pkts.take(k)[i])).contains(p);
        assert(range_of(pkts.take(n)[i]).contains(p));
    }
}

/// Whether the last fragment is among the packets.
spec fn has_end(pkts: Seq<Seq<u8>>) -> bool {
    exists|i: int| 0 <= i < pkts.len() && !fragment_of(#[trigger] pkts[i]).more
}

/// What is known of the partial packet once the pieces `pkts` have come.
spec fn partial_matches(
    p: Partial,
    pkts: Seq<Seq<u8>>,
    nh: u8,
    body: Seq<u8>,
    created: nat,
) -> bool {
    &&& p.next_header == nh
    &&& p.created == created
    &&& p.have.len() == MAX_REASSEMBLED
    &&& p.data.len() == MAX_REASSEMBLED
    &&& p.total == if has_end(pkts) {
        Some(body.len())
    } else {
        None::<nat>
    }
    &&& forall|i: int| 0 <= i < body.len() ==> #[trigger] p.have[i] == is_covered(pkts, i)
    &&& forall|i: int| 0 <= i < body.len() && is_covered(pkts, i) ==> #[trigger] p.data[i] == body[i]
}

proof fn lemma_absorb(
    p: Partial,
    pkts: Seq<Seq<u8>>,
    id: FragId,
    nh: u8,
    body: Seq<u8>,
    created: nat,
)
    requires
        pkts.len() > 0,
        body.len() <= MAX_REASSEMBLED,
        partial_matches(p, pkts.drop_last(), nh, body, created),
        is_piece(pkts.last(), id, nh, body),
    ensures
        partial_matches(absorb(p, fragment_of(pkts.last())), pkts, nh, body, created),
{
    let f = fragment_of(pkts.last());
    let q = absorb(p, f);
    let t = pkts.drop_last();
    let end = f.offset + f.payload.len();
    assert(q.data.len() == MAX_REASSEMBLED);
    assert(q.have.len() == MAX_REASSEMBLED);
    assert forall|i: int| 0 <= i < body.len() implies #[trigger] q.have[i] == is_covered(pkts, i) by {
        lemma_covered_push(pkts, i);
        if !(f.offset <= i < end) {
            assert(q.have[i] == p.have[i]);
        }
    }
    assert forall|i: int| 0 <= i < body.len() && is_covered(pkts, i) implies #[trigger] q.data[i]
        == body[i] by {
        lemma_covered_push(pkts, i);
        if f.offset <= i < end {
            assert(q.data[i] == f.payload[i - f.offset]);
        } else {
            assert(is_covered(t, i));
            assert(q.data[i] == p.data[i]);
        }
    }
    if has_end(t) {
        let i = choose|i: int| 0 <= i < t.len() && !fragment_of(#[trigger] t[i]).more;
        assert(!fragment_of(pkts[i]).more);
        assert(has_end(pkts));
    } else if !f.more {
        assert(!fragment_of(pkts[pkts.len() - 1]).more);
        assert(has_end(pkts));
    } else {
        assert(!has_end(pkts)) by {
            if has_end(pkts) {
                let i = choose|i: int| 0 <= i < pkts.len() && !fragment_of(#[trigger] pkts[i]).more;
                assert(i < t.len());
                assert(!fragment_of(t[i]).more);
            }
        }
    }
}

/// While a piece is still missing nothing is delivered, and what has come is
/// kept.
proof fn lemma_prefix(
    m: Map<FragId, Partial>,
    pkts: Seq<Seq<u8>>,
    times: Seq<nat>,
    k: int,
    id: FragId,
    nh: u8,
    body: Seq<u8>,
)
    requires
        are_pieces(pkts, id, nh, body),
        pkts.len() > 0,
        !covers(pkts.take(pkts.len() - 1), body),
        times.len() == pkts.len(),
        forall|i: int| 0 <= i < times.len() ==> times[0] <= #[trigger] times[i] < times[0] + FRAG_TIMEOUT,
        !m.contains_key(id),
        0 <= k < pkts.len(),
    ensures
        ({
            let r = run(m, pkts.take(k), times.take(k));
            &&& r.1 == Seq::new(k as nat, |i: int| None::<Seq<u8>>)
            &&& k == 0 ==> !r.0.contains_key(id)
            &&& k > 0 ==> r.0.contains_key(id) && partial_matches(
                r.0[id],
                pkts.take(k),
                nh,
                body,
                times[0],
            )
        }),
    decreases k,
{
    let pk = pkts.take(k);
    let tk = times.take(k);
    if k == 0 {
        assert(run(m, pk, tk).1 =~= Seq::new(0, |i: int| None::<Seq<u8>>));
    } else {
        lemma_prefix(m, pkts, times, k - 1, id, nh, body);
        assert(pk.drop_last() == pkts.take(k - 1));
        assert(tk.drop_last() == times.take(k - 1));
        let before = run(m, pkts.take(k - 1), times.take(k - 1));
        let pkt = pkts[k - 1];
        let now = times[k - 1];
        assert(pk.last() == pkt && tk.last() == now);
        assert(is_piece(pkt, id, nh, body));
        let f = fragment_of(pkt);
        let live = unexpired(before.0, now);
        let p = partial_for(live, f, now);
        assert(partial_matches(p, pk.drop_last(), nh, body, times[0])) by {
            if k == 1 {
                assert(!live.contains_key(id));
                assert(pk.drop_last().len() == 0);
            } else {
                assert(kept(before.0[id], now));
                assert(live.contains_key(id));
            }
        }
        lemma_absorb(p, pk, id, nh, body, times[0]);
        let q = absorb(p, f);
        assert(!complete(q)) by {
            if complete(q) {
                assert(covers(pk, body)) by {
                    assert forall|i: int| 0 <= i < body.len() implies #[trigger] is_covered(
                        pk,
                        i,
                    ) by {
                        assert(q.have[i]);
                    }
                }
                lemma_covers_more(pkts, k, pkts.len() - 1, body);
            }
        }
        let after = feed_step(before.0, pkt, now);
        assert(after == (live.insert(id, q), None::<Seq<u8>>));
        assert(run(m, pk, tk).1 =~= Seq::new(k as nat, |i: int| None::<Seq<u8>>));
    }
}

/// Whether none of the partial packets expires at any of the times.
pub open spec fn none_expires(m: Map<FragId, Partial>, times: Seq<nat>) -> bool {
    forall|id: FragId, i: int| #[trigger]
        m.contains_key(id) && 0 <= i < times.len() ==> kept(m[id], #[trigger] times[i])
}

/// Fragments of one packet leave all others as they were, but for those that
/// expire.
proof fn lemma_others_stay(
    m: Map<FragId, Partial>,
    pkts: Seq<Seq<u8>>,
    times: Seq<nat>,
    id: FragId,
)
    requires
        times.len() == pkts.len(),
        forall|i: int| 0 <= i < pkts.len() ==> fragment_of(#[trigger] pkts[i]).id == id,
        none_expires(m, times),
        !m.contains_key(id),
    ensures
        run(m, pkts, times).0.remove(id) == m,
    decreases pkts.len(),
{
    if pkts.len() == 0 {
        assert(m.remove(id) =~= m);
    } else {
        let n = pkts.len() - 1;
        let before = run(m, pkts.drop_last(), times.drop_last()).0;
        let now = times[n];
        assert forall|i: int| 0 <= i < n implies fragment_of(
            #[trigger] pkts.drop_last()[i],
        ).id == id by {
            assert(pkts.drop_last()[i] == pkts[i]);
        }
        assert(none_expires(m, times.drop_last())) by {
            assert forall|o: FragId, i: int| #[trigger]
                m.contains_key(o) && 0 <= i < n implies kept(
                m[o],
                #[trigger] times.drop_last()[i],
            ) by {
                assert(times.drop_last()[i] == times[i]);
            }
        }
        lemma_others_stay(m, pkts.drop_last(), times.drop_last(), id);
        let after = feed_step(before, pkts[n], now).0;
        assert(fragment_of(pkts[n]).id == id);
        assert forall|o: FragId| o != id implies (#[trigger] after.contains_key(o)
            <==> m.contains_key(o)) && (m.contains_key(o) ==> after[o] == m[o]) by {
            assert(before.remove(id).contains_key(o) <==> before.contains_key(o));
            if m.contains_key(o) {
                assert(before[o] == before.remove(id)[o]);
                assert(kept(m[o], times[n]));
            }
        }
        assert(after.remove(id) =~= m);
    }
}

/// A payload that was cut into fragments comes back whole: fed in any order, however
/// often, within the time that incomplete packets are kept, the fragments deliver
/// nothing until the last missing one has come, and then the packet with the whole
/// payload, after which nothing of it is left behind. Where none of the packets that
/// were under reassembly before expires meanwhile, they are what they were, and as
/// many.
pub proof fn law_reassembly(
    m: Map<FragId, Partial>,
    pkts: Seq<Seq<u8>>,
    times: Seq<nat>,
    id: FragId,
    next_header: u8,
    body: Seq<u8>,
)
    requires
        are_pieces(pkts, id, next_header, body),
        covers(pkts, body),
        pkts.len() > 0,
        !covers(pkts.take(pkts.len() - 1), body),
        times.len() == pkts.len(),
        forall|i: int|
            0 <= i < times.len() ==> times[0] <= #[trigger] times[i] < times[0] + FRAG_TIMEOUT,
        !m.contains_key(id),
    ensures
        run(m, pkts, times).1 == Seq::new(
            pkts.len(),
            |i: int|
                if i == pkts.len() - 1 {
                    Some(reassembled(id.src, id.dst, next_header, body))
                } else {
                    None
                },
        ),
        !run(m, pkts, times).0.contains_key(id),
        none_expires(m, times) ==> run(m, pkts, times).0 == m,
{
    let n = pkts.len() as int;
    lemma_prefix(m, pkts, times, n - 1, id, next_header, body);
    assert(pkts.take(n - 1) == pkts.drop_last());
    assert(times.take(n - 1) == times.drop_last());
    let before = run(m, pkts.drop_last(), times.drop_last());
    let pkt = pkts.last();
    let now = times.last();
    assert(is_piece(pkts[n - 1], id, next_header, body));
    let f = fragment_of(pkt);
    let live = unexpired(before.0, now);
    let p = partial_for(live, f, now);
    assert(partial_matches(p, pkts.drop_last(), next_header, body, times[0])) by {
        if n == 1 {
            assert(!live.contains_key(id));
            assert(times.last() == times[0]);
        } else {
            assert(now == times[n - 1]);
            assert(kept(before.0[id], now));
            assert(live.contains_key(id));
        }
    }
    lemma_absorb(p, pkts, id, next_header, body, times[0]);
    let q = absorb(p, f);
    assert(has_end(pkts)) by {
        let e = body.len() - 1;
        assert(is_covered(pkts, e));
        let i = choose|i: int| 0 <= i < pkts.len() && (#[trigger] range_of(pkts[i])).contains(e);
        assert(is_piece(pkts[i], id, next_header, body));
        assert(!fragment_of(pkts[i]).more);
    }
    assert(complete(q)) by {
        assert forall|i: int| 0 <= i < body.len() implies #[trigger] q.have[i] by {
            assert(is_covered(pkts, i));
        }
    }
    assert forall|i: int| 0 <= i < body.len() implies #[trigger] q.data[i] == body[i] by {
        assert(is_covered(pkts, i));
    }
    assert(q.data.take(body.len() as int) == body);
    assert(run(m, pkts, times).1 =~= Seq::new(
        pkts.len(),
        |i: int|
            if i == pkts.len() - 1 {
                Some(reassembled(id.src, id.dst, next_header, body))
            } else {
                None
            },
    ));
    if none_expires(m, times) {
        assert forall|i: int| 0 <= i < pkts.len() implies fragment_of(#[trigger] pkts[i]).id
            == id by {
            assert(is_piece(pkts[i], id, next_header, body));
        }
        lemma_others_stay(m, pkts, times, id);
        let after = run(m, pkts, times).0;
        assert(after.remove(id) =~= after);
    }
}

/// Where no two fragments overlap, the packet is delivered with the last of them.
pub proof fn law_reassembly_without_overlap(
    m: Map<FragId, Partial>,
    pkts: Seq<Seq<u8>>,
    times: Seq<nat>,
    id: FragId,
    next_header: u8,
    body: Seq<u8>,
)
    requires
        are_pieces(pkts, id, next_header, body),
        covers(pkts, body),
        no_overlap(pkts),
        times.len() == pkts.len(),
        forall|i: int|
            0 <= i < times.len() ==> times[0] <= #[trigger] times[i] < times[0] + FRAG_TIMEOUT,
        !m.contains_key(id),
    ensures
        run(m, pkts, times).1 == Seq::new(
            pkts.len(),
            |i: int|
                if i == pkts.len() - 1 {
                    Some(reassembled(id.src, id.dst, next_header, body))
                } else {
                    None
                },
        ),
        !run(m, pkts, times).0.contains_key(id),
        none_expires(m, times) ==> run(m, pkts, times).0 == m,
{
    assert(is_covered(pkts, 0));
    let n = pkts.len() - 1;
    let last = pkts[n];
    assert(is_piece(last, id, next_header, body));
    let at = fragment_of(last).offset as int;
    assert(range_of(last).contains(at));
    assert(!is_covered(pkts.take(n), at)) by {
        if is_covered(pkts.take(n), at) {
            let i = choose|i: int|
                0 <= i < n && (#[trigger] range_of(pkts.take(n)[i])).contains(at);
            assert(range_of(pkts[i]).disjoint(range_of(pkts[n])));
        }
    }
    law_reassembly(m, pkts, times, id, next_header, body);
}

/// A fragment delivers a packet only where every position of it has come, and a
/// position has come only where a fragment covered it.
pub proof fn law_nothing_is_made_up(m: Map<FragId, Partial>, pkt: Seq<u8>, now: nat, i: int)
    requires
        is_fragment(pkt),
        pkt.len() >= IPV6_HEADER_LEN + FRAG_EXT_LEN,
        fragment_of(pkt).offset + fragment_of(pkt).payload.len() <= MAX_REASSEMBLED,
        partial_for(unexpired(m, now), fragment_of(pkt), now).have.len() == MAX_REASSEMBLED,
        0 <= i < MAX_REASSEMBLED,
    ensures
        ({
            let before = partial_for(unexpired(m, now), fragment_of(pkt), now);
            let after = absorb(before, fragment_of(pkt));
            &&& feed_step(m, pkt, now).1 is Some && i < after.total->0 ==> after.have[i]
            &&& after.have[i] <==> before.have[i] || range_of(pkt).contains(i)
        }),
{
}

/// A packet leaves the partial packets of every other sender, receiver or
/// identification as they were, but for those that expire.
pub proof fn law_packets_do_not_mix(
    m: Map<FragId, Partial>,
    pkt: Seq<u8>,
    now: nat,
    other: FragId,
)
    requires
        is_fragment(pkt) ==> fragment_of(pkt).id != other,
        m.contains_key(other),
        kept(m[other], now),
    ensures
        feed_step(m, pkt, now).0.contains_key(other),
        feed_step(m, pkt, now).0[other] == m[other],
{
}

/// A packet that is no fragment is delivered as it came.
pub proof fn law_pass_through(m: Map<FragId, Partial>, pkt: Seq<u8>, now: nat)
    requires
        !is_fragment(pkt),
    ensures
        feed_step(m, pkt, now) == (unexpired(m, now), Some(pkt)),
{
}

/// Nothing is kept for longer than the timeout.
pub proof fn law_no_stale_packet(m: Map<FragId, Partial>, pkt: Seq<u8>, now: nat, id: FragId)
    requires
        feed_step(m, pkt, now).0.contains_key(id),
    ensures
        kept(feed_step(m, pkt, now).0[id], now),
{
}

// ── How many packets are under reassembly ─────────────────────────────────────

/// Whether a packet carries a fragment of another, as far as its headers go.
pub open spec fn concerns(pkt: Seq<u8>, id: FragId) -> bool {
    &&& is_fragment(pkt)
    &&& pkt.len() >= IPV6_HEADER_LEN + FRAG_EXT_LEN
    &&& fragment_of(pkt).id == id
}

/// Whether a feed ends the reassembly of the packet that it concerns: the packet is
/// dropped, as it would be too long, or it is delivered.
pub open spec fn ends(pkt: Seq<u8>, delivered: Option<Seq<u8>>) -> bool {
    fragment_of(pkt).offset + fragment_of(pkt).payload.len() > MAX_REASSEMBLED || delivered is Some
}

/// Whether, at a feed, a fragment of a packet was accepted, and no feed since has
/// ended its reassembly.
pub open spec fn open_since(
    pkts: Seq<Seq<u8>>,
    delivered: Seq<Option<Seq<u8>>>,
    id: FragId,
    i: int,
) -> bool {
    &&& 0 <= i < pkts.len()
    &&& concerns(pkts[i], id)
    &&& forall|j: int|
        i <= j < pkts.len() && concerns(#[trigger] pkts[j], id) ==> !ends(pkts[j], delivered[j])
}

/// Whether a fragment of a packet was accepted since the packet was last delivered
/// or dropped.
pub open spec fn is_open(
    pkts: Seq<Seq<u8>>,
    delivered: Seq<Option<Seq<u8>>>,
    id: FragId,
) -> bool {
    exists|i: int| #[trigger] open_since(pkts, delivered, id, i)
}

/// One feed more opens the packet that it concerns, or ends it; others stay.
proof fn lemma_open_step(pkts: Seq<Seq<u8>>, delivered: Seq<Option<Seq<u8>>>, id: FragId)
    requires
        pkts.len() > 0,
        delivered.len() == pkts.len(),
    ensures
        is_open(pkts, delivered, id) == if concerns(pkts.last(), id) {
            !ends(pkts.last(), delivered.last())
        } else {
            is_open(pkts.drop_last(), delivered.drop_last(), id)
        },
{
    let n = pkts.len() - 1;
    let (p, d) = (pkts.drop_last(), delivered.drop_last());
    assert(pkts.last() == pkts[n] && delivered.last() == delivered[n]);
    if is_open(pkts, delivered, id) {
        let i = choose|i: int| #[trigger] open_since(pkts, delivered, id, i);
        assert(concerns(pkts[n], id) ==> !ends(pkts[n], delivered[n]));
        if !concerns(pkts[n], id) {
            assert forall|j: int| i <= j < p.len() && concerns(#[trigger] p[j], id) implies !ends(
                p[j],
                d[j],
            ) by {
                assert(p[j] == pkts[j] && d[j] == delivered[j]);
            }
            assert(p[i] == pkts[i]);
            assert(open_since(p, d, id, i));
        }
    }
    if concerns(pkts[n], id) && !ends(pkts[n], delivered[n]) {
        assert(open_since(pkts, delivered, id, n));
    }
    if !concerns(pkts[n], id) && is_open(p, d, id) {
        let i = choose|i: int| #[trigger] open_since(p, d, id, i);
        assert(p[i] == pkts[i]);
        assert forall|j: int| i <= j < pkts.len() && concerns(#[trigger] pkts[j], id) implies !ends(
            pkts[j],
            delivered[j],
        ) by {
            assert(j < n);
            assert(p[j] == pkts[j] && d[j] == delivered[j]);
        }
        assert(open_since(pkts, delivered, id, i));
    }
}

/// Whether all times lie within the time that incomplete packets are kept.
pub open spec fn close_together(times: Seq<nat>) -> bool {
    forall|i: int, j: int|
        0 <= i < times.len() && 0 <= j < times.len() ==> #[trigger] times[i] - #[trigger] times[j]
            < FRAG_TIMEOUT
}

proof fn lemma_open_packets(pkts: Seq<Seq<u8>>, times: Seq<nat>)
    requires
        times.len() == pkts.len(),
        close_together(times),
    ensures
        ({
            let r = run(Map::empty(), pkts, times);
            &&& r.1.len() == pkts.len()
            &&& r.0.dom().finite()
            &&& forall|id: FragId| #[trigger]
                r.0.contains_key(id) ==> exists|i: int|
                    0 <= i < times.len() && r.0[id].created == #[trigger] times[i]
            &&& forall|id: FragId| #[trigger] r.0.contains_key(id) <==> is_open(pkts, r.1, id)
        }),
    decreases pkts.len(),
{
    let r = run(Map::empty(), pkts, times);
    if pkts.len() == 0 {
        assert(r.0.dom() =~= Set::<FragId>::empty());
        assert forall|id: FragId| #[trigger] r.0.contains_key(id) <==> is_open(pkts, r.1, id) by {
            if is_open(pkts, r.1, id) {
                let i = choose|i: int| #[trigger] open_since(pkts, r.1, id, i);
                assert(false);
            }
        }
    } else {
        let n = pkts.len() - 1;
        let (p, t) = (pkts.drop_last(), times.drop_last());
        let (pkt, now) = (pkts[n], times[n]);
        assert(close_together(t)) by {
            assert forall|i: int, j: int|
                0 <= i < t.len() && 0 <= j < t.len() implies #[trigger] t[i] - #[trigger] t[j]
                < FRAG_TIMEOUT by {
                assert(t[i] == times[i] && t[j] == times[j]);
            }
        }
        lemma_open_packets(p, t);
        let before = run(Map::empty(), p, t);
        let live = unexpired(before.0, now);
        assert(live =~= before.0) by {
            assert forall|id: FragId| #[trigger] before.0.contains_key(id) implies kept(
                before.0[id],
                now,
            ) by {
                let i = choose|i: int|
                    0 <= i < t.len() && before.0[id].created == #[trigger] t[i];
                assert(t[i] == times[i]);
                assert(times[n] - times[i] < FRAG_TIMEOUT);
            }
        }
        let f = fragment_of(pkt);
        assert(r.0.dom() =~= before.0.dom() || r.0.dom() =~= before.0.dom().insert(f.id)
            || r.0.dom() =~= before.0.dom().remove(f.id));
        assert(r.1.drop_last() =~= before.1);
        assert forall|id: FragId| #[trigger] r.0.contains_key(id) implies exists|i: int|
            0 <= i < times.len() && r.0[id].created == #[trigger] times[i] by {
            if before.0.contains_key(id) {
                let i = choose|i: int|
                    0 <= i < t.len() && before.0[id].created == #[trigger] t[i];
                assert(r.0[id].created == times[i]);
            } else {
                assert(r.0[id].created == times[n]);
            }
        }
        assert forall|id: FragId| #[trigger] r.0.contains_key(id) <==> is_open(pkts, r.1, id) by {
            lemma_open_step(pkts, r.1, id);
            assert(before.0.contains_key(id) <==> is_open(p, before.1, id));
        }
    }
}

/// After any feeds to a new reassembler, all within the time that incomplete packets
/// are kept, the packets under reassembly, which are counted, are just those of
/// which a fragment was accepted since they were last delivered or dropped.
pub proof fn law_open_packets_are_counted(pkts: Seq<Seq<u8>>, times: Seq<nat>)
    requires
        times.len() == pkts.len(),
        close_together(times),
    ensures
        ({
            let r = run(Map::empty(), pkts, times);
            let open = Set::new(|id: FragId| is_open(pkts, r.1, id));
            &&& r.0.dom() == open
            &&& open.finite()
            &&& r.0.dom().len() == open.len()
        }),
{
    lemma_open_packets(pkts, times);
    let r = run(Map::empty(), pkts, times);
    let open = Set::new(|id: FragId| is_open(pkts, r.1, id));
    assert forall|id: FragId| r.0.dom().contains(id) <==> open.contains(id) by {
        assert(r.0.contains_key(id) <==> is_open(pkts, r.1, id));
    }
    assert(r.0.dom() =~= open);
}

/// A feed at which nothing expires changes the number of packets under reassembly by
/// one at most.
pub proof fn law_feed_changes_count_by_one(m: Map<FragId, Partial>, pkt: Seq<u8>, now: nat)
    requires
        m.dom().finite(),
        none_expires(m, seq![now]),
    ensures
        feed_step(m, pkt, now).0.dom().finite(),
        m.dom().len() <= feed_step(m, pkt, now).0.dom().len() + 1,
        feed_step(m, pkt, now).0.dom().len() <= m.dom().len() + 1,
{
    let live = unexpired(m, now);
    assert(live =~= m) by {
        assert forall|id: FragId| #[trigger] m.contains_key(id) implies kept(m[id], now) by {
            assert(kept(m[id], seq![now][0]));
        }
    }
    let after = feed_step(m, pkt, now).0;
    let id = fragment_of(pkt).id;
    assert(after.dom() =~= m.dom() || after.dom() =~= m.dom().insert(id) || after.dom()
        =~= m.dom().remove(id));
}

/// A packet changes no later result of a packet that it does not concern: what is
/// delivered at every later feed of another packet is what would be delivered
/// without it, and so is what is kept of it.
pub proof fn law_results_do_not_mix(
    m: Map<FragId, Partial>,
    pkt: Seq<u8>,
    now: nat,
    pkts: Seq<Seq<u8>>,
    times: Seq<nat>,
    other: FragId,
)
    requires
        times.len() == pkts.len(),
        forall|i: int| 0 <= i < times.len() ==> now <= #[trigger] times[i],
        !concerns(pkt, other),
    ensures
        ({
            let with = run(feed_step(m, pkt, now).0, pkts, times);
            let without = run(m, pkts, times);
            &&& with.1.len() == pkts.len() && without.1.len() == pkts.len()
            &&& forall|i: int|
                0 <= i < pkts.len() && concerns(#[trigger] pkts[i], other) ==> with.1[i]
                    == without.1[i]
            &&& forall|later: nat|
                now <= later ==> (#[trigger] unexpired(with.0, later).contains_key(other)
                    <==> unexpired(without.0, later).contains_key(other))
            &&& forall|later: nat|
                now <= later && #[trigger] unexpired(with.0, later).contains_key(other)
                    ==> unexpired(with.0, later)[other] == unexpired(without.0, later)[other]
        }),
    decreases pkts.len(),
{
    if pkts.len() > 0 {
        let n = pkts.len() - 1;
        let (p, t) = (pkts.drop_last(), times.drop_last());
        assert forall|i: int| 0 <= i < t.len() implies now <= #[trigger] t[i] by {
            assert(t[i] == times[i]);
        }
        law_results_do_not_mix(m, pkt, now, p, t, other);
        let a = run(feed_step(m, pkt, now).0, p, t);
        let b = run(m, p, t);
        let at = times[n];
        assert(unexpired(a.0, at).contains_key(other) <==> unexpired(b.0, at).contains_key(other));
        let with = run(feed_step(m, pkt, now).0, pkts, times);
        let without = run(m, pkts, times);
        assert(with.1 == a.1.push(feed_step(a.0, pkts[n], at).1));
        assert(without.1 == b.1.push(feed_step(b.0, pkts[n], at).1));
        assert forall|i: int| 0 <= i < pkts.len() && concerns(#[trigger] pkts[i], other) implies
            with.1[i] == without.1[i] by {
            if i < n {
                assert(p[i] == pkts[i]);
            }
        }
    }
}

// ── Packets as they come and go ───────────────────────────────────────────────

/// Whether bytes are an IPv6 packet with a piece of a packet's payload behind a fragment
/// header: next header 44, the addresses at their places, then the payload's own next
/// header, where in the payload the piece belongs, in units of eight octets, whether
/// more follows, and the packet's number.
pub open spec fn carries(
    pkt: Seq<u8>,
    src: Seq<u8>,
    dst: Seq<u8>,
    number: nat,
    next_header: u8,
    offset: nat,
    more: bool,
    piece: Seq<u8>,
) -> bool {
    &&& pkt.len() == 48 + piece.len()
    &&& pkt[6] == 44
    &&& src.len() == 16 && dst.len() == 16
    &&& forall|i: int| 0 <= i < 16 ==> #[trigger] src[i] == pkt[8 + i]
    &&& forall|i: int| 0 <= i < 16 ==> #[trigger] dst[i] == pkt[24 + i]
    &&& pkt[40] == next_header
    &&& offset % 8 == 0
    &&& offset <= pkt[42] * 256 + pkt[43] < offset + 8
    &&& more <==> pkt[43] % 2 == 1
    &&& number == pkt[44] * 16777216 + pkt[45] * 65536 + pkt[46] * 256 + pkt[47]
    &&& forall|i: int| 0 <= i < piece.len() ==> #[trigger] piece[i] == pkt[48 + i]
}

/// Whether one of the packets, whose pieces belong at these offsets, brings a position.
pub open spec fn brings(pkts: Seq<Vec<u8>>, offsets: Seq<nat>, p: int) -> bool {
    exists|i: int|
        0 <= i < pkts.len() && #[trigger] offsets[i] <= p < offsets[i] + pkts[i]@.len() - 48
}

/// What names a packet: its addresses and its number.
pub open spec fn named(src: Seq<u8>, dst: Seq<u8>, number: nat) -> FragId {
    FragId { src, dst, identification: number as u32 }
}

proof fn lemma_carries(
    pkt: Seq<u8>,
    src: Seq<u8>,
    dst: Seq<u8>,
    number: nat,
    next_header: u8,
    offset: nat,
    more: bool,
    piece: Seq<u8>,
)
    requires
        carries(pkt, src, dst, number, next_header, offset, more, piece),
    ensures
        is_fragment(pkt),
        fragment_of(pkt).id == named(src, dst, number),
        fragment_of(pkt).next_header == next_header,
        fragment_of(pkt).offset == offset,
        fragment_of(pkt).more == more,
        fragment_of(pkt).payload == piece,
{
    let f = fragment_of(pkt);
    assert(f.id.src =~= src) by {
        assert forall|i: int| 0 <= i < 16 implies f.id.src[i] == src[i] by {
            assert(src[i] == pkt[8 + i]);
        }
    }
    assert(f.id.dst =~= dst) by {
        assert forall|i: int| 0 <= i < 16 implies f.id.dst[i] == dst[i] by {
            assert(dst[i] == pkt[24 + i]);
        }
    }
    assert(f.payload =~= piece) by {
        assert forall|i: int| 0 <= i < piece.len() implies f.payload[i] == piece[i] by {
            assert(piece[i] == pkt[48 + i]);
        }
    }
    let units = pkt[42] * 256 + pkt[43];
    assert(units / 8 * 8 == offset);
    assert(be32(pkt[44], pkt[45], pkt[46], pkt[47]) == number);
}

/// The packet that is delivered: version 6, hop limit 64, the length, next header and
/// addresses of the packet, and its payload.
pub open spec fn whole(src: Seq<u8>, dst: Seq<u8>, next_header: u8, body: Seq<u8>) -> Seq<u8> {
    seq![
        96u8,
        0u8,
        0u8,
        0u8,
        (body.len() / 256) as u8,
        (body.len() % 256) as u8,
        next_header,
        64u8,
    ] + src + dst + body
}

proof fn lemma_feeds(
    fs: Seq<&mut FragReassembler>,
    pkts: Seq<Vec<u8>>,
    nows: Seq<u64>,
    outs: Seq<Option<Vec<u8>>>,
    views: Seq<Seq<u8>>,
    times: Seq<nat>,
    k: int,
)
    requires
        fs.len() == pkts.len() && nows.len() == pkts.len() && outs.len() == pkts.len(),
        forall|i: int|
            0 <= i < pkts.len() ==> #[trigger] call_ensures(
                FragReassembler::feed_at,
                (fs[i], pkts[i], nows[i]),
                outs[i],
            ),
        forall|i: int| 0 <= i < pkts.len() - 1 ==> *final(#[trigger] fs[i]) == *fs[i + 1],
        views == Seq::new(pkts.len(), |i: int| pkts[i]@),
        times == Seq::new(pkts.len(), |i: int| nows[i] as nat),
        0 < k <= pkts.len(),
    ensures
        run(fs[0]@, views.take(k), times.take(k)).0 == final(fs[k - 1])@,
        run(fs[0]@, views.take(k), times.take(k)).1.len() == k,
        forall|i: int|
            0 <= i < k ==> #[trigger] run(fs[0]@, views.take(k), times.take(k)).1[i]
                == packet_bytes(outs[i]),
    decreases k,
{
    reveal_with_fuel(run, 2);
    let (v, t) = (views.take(k), times.take(k));
    assert(v.drop_last() =~= views.take(k - 1));
    assert(t.drop_last() =~= times.take(k - 1));
    assert(v.last() == pkts[k - 1]@);
    assert(t.last() == nows[k - 1] as nat);
    assert(call_ensures(
        FragReassembler::feed_at,
        (fs[k - 1], pkts[k - 1], nows[k - 1]),
        outs[k - 1],
    ));
    if k == 1 {
        assert(v.drop_last() =~= Seq::<Seq<u8>>::empty());
    } else {
        lemma_feeds(fs, pkts, nows, outs, views, times, k - 1);
        assert(*final(fs[k - 2]) == *fs[k - 2 + 1]);
    }
}

/// The pieces of a packet's payload, in whatever order they come within a minute, are
/// joined: nothing comes of them until the last one that is missing has come, and then
/// the packet comes, whole.
pub proof fn law_fragments_are_joined(
    fs: Seq<&mut FragReassembler>,
    pkts: Seq<Vec<u8>>,
    nows: Seq<u64>,
    outs: Seq<Option<Vec<u8>>>,
    src: Seq<u8>,
    dst: Seq<u8>,
    number: nat,
    next_header: u8,
    body: Seq<u8>,
    offsets: Seq<nat>,
    gap: int,
)
    requires
        fs.len() == pkts.len() && nows.len() == pkts.len() && outs.len() == pkts.len(),
        offsets.len() == pkts.len() && pkts.len() > 0,
        forall|i: int|
            0 <= i < pkts.len() ==> #[trigger] call_ensures(
                FragReassembler::feed_at,
                (fs[i], pkts[i], nows[i]),
                outs[i],
            ),
        forall|i: int| 0 <= i < pkts.len() - 1 ==> *final(#[trigger] fs[i]) == *fs[i + 1],
        !fs[0]@.contains_key(named(src, dst, number)),
        0 < body.len() <= 65535,
        forall|i: int|
            0 <= i < pkts.len() ==> {
                let end = offsets[i] + (#[trigger] pkts[i])@.len() - 48;
                &&& offsets[i] < end <= body.len()
                &&& carries(
                    pkts[i]@,
                    src,
                    dst,
                    number,
                    next_header,
                    offsets[i],
                    end < body.len(),
                    body.subrange(offsets[i] as int, end),
                )
            },
        forall|p: int| 0 <= p < body.len() ==> #[trigger] brings(pkts, offsets, p),
        0 <= gap < body.len(),
        forall|i: int|
            0 <= i < pkts.len() - 1 ==> !(#[trigger] offsets[i] <= gap < offsets[i] + pkts[i]@.len()
                - 48),
        forall|i: int|
            0 <= i < nows.len() ==> nows[0] <= #[trigger] nows[i] < nows[0] + 60_000_000_000,
    ensures
        forall|i: int| 0 <= i < outs.len() - 1 ==> #[trigger] outs[i] is None,
        outs.last() is Some,
        outs.last()->0@ == whole(src, dst, next_header, body),
        !final(fs[fs.len() - 1])@.contains_key(named(src, dst, number)),
{
    let n = pkts.len() as int;
    let id = named(src, dst, number);
    let views = Seq::new(pkts.len(), |i: int| pkts[i]@);
    let times = Seq::new(pkts.len(), |i: int| nows[i] as nat);
    assert forall|i: int| 0 <= i < n implies is_piece(#[trigger] views[i], id, next_header, body)
        && fragment_of(views[i]).offset == offsets[i] && fragment_of(views[i]).payload.len()
        == pkts[i]@.len() - 48 by {
        let end = offsets[i] + pkts[i]@.len() - 48;
        lemma_carries(
            pkts[i]@,
            src,
            dst,
            number,
            next_header,
            offsets[i],
            end < body.len(),
            body.subrange(offsets[i] as int, end),
        );
    }
    assert(covers(views, body)) by {
        assert forall|p: int| 0 <= p < body.len() implies #[trigger] is_covered(views, p) by {
            assert(brings(pkts, offsets, p));
            let i = choose|i: int|
                0 <= i < pkts.len() && #[trigger] offsets[i] <= p < offsets[i] + pkts[i]@.len()
                    - 48;
            assert(views[i] == pkts[i]@);
            assert(is_piece(views[i], id, next_header, body));
            assert(range_of(views[i]).contains(p));
        }
    }
    assert(!covers(views.take(n - 1), body)) by {
        let fewer = views.take(n - 1);
        if is_covered(fewer, gap) {
            let i = choose|i: int|
                0 <= i < fewer.len() && (#[trigger] range_of(fewer[i])).contains(gap);
            assert(fewer[i] == views[i]);
            assert(is_piece(views[i], id, next_header, body));
            assert(offsets[i] <= gap < offsets[i] + pkts[i]@.len() - 48);
        }
    }
    assert forall|i: int| 0 <= i < times.len() implies times[0] <= #[trigger] times[i] < times[0]
        + FRAG_TIMEOUT by {
        assert(nows[0] <= nows[i] < nows[0] + 60_000_000_000);
    }
    law_reassembly(fs[0]@, views, times, id, next_header, body);
    lemma_feeds(fs, pkts, nows, outs, views, times, n);
    assert(views.take(n) =~= views);
    assert(times.take(n) =~= times);
    let r = run(fs[0]@, views, times);
    assert forall|i: int| 0 <= i < outs.len() - 1 implies #[trigger] outs[i] is None by {
        assert(r.1[i] == packet_bytes(outs[i]));
    }
    assert(r.1[n - 1] == packet_bytes(outs[n - 1]));
    assert(body.len() / 256 % 256 == body.len() / 256);
    assert(reassembled(src, dst, next_header, body) =~= whole(src, dst, next_header, body));
}

/// A packet that is no fragment, or too short for an IPv6 header, comes out as it went
/// in; a fragment that is too short for its header gives nothing. Neither changes what
/// is under reassembly, but for what is a minute old.
pub proof fn law_other_packets(
    f: &mut FragReassembler,
    pkt: Vec<u8>,
    now: u64,
    r: Option<Vec<u8>>,
    id: FragId,
)
    requires
        call_ensures(FragReassembler::feed_at, (f, pkt, now), r),
        pkt@.len() < 48 || pkt@[6] != 44,
    ensures
        pkt@.len() < 40 || pkt@[6] != 44 ==> r is Some && r->0@ == pkt@,
        pkt@.len() >= 40 && pkt@[6] == 44 ==> r is None,
        final(f)@.contains_key(id) <==> old(f)@.contains_key(id) && now - old(f)@[id].created
            < 60_000_000_000,
        final(f)@.contains_key(id) ==> final(f)@[id] == old(f)@[id],
{
    assert(pkt@.len() >= 40 && pkt@[6] == 44 ==> packet_bytes(r) is None);
}

/// What is a minute old is dropped, and nothing else is.
pub proof fn law_old_packets_are_dropped(f: &mut FragReassembler, now: u64, id: FragId)
    requires
        call_ensures(FragReassembler::evict_expired, (f, now), ()),
    ensures
        final(f)@.contains_key(id) <==> old(f)@.contains_key(id) && now - old(f)@[id].created
            < 60_000_000_000,
        final(f)@.contains_key(id) ==> final(f)@[id] == old(f)@[id],
{
}

/// A piece that would make the packet longer than 65535 octets drops what has come of
/// it; the pieces of other packets stay.
pub proof fn law_long_packets_are_dropped(
    f: &mut FragReassembler,
    pkt: Vec<u8>,
    now: u64,
    r: Option<Vec<u8>>,
    src: Seq<u8>,
    dst: Seq<u8>,
    number: nat,
    next_header: u8,
    offset: nat,
    more: bool,
    piece: Seq<u8>,
    other: FragId,
)
    requires
        call_ensures(FragReassembler::feed_at, (f, pkt, now), r),
        carries(pkt@, src, dst, number, next_header, offset, more, piece),
        offset + piece.len() > 65535,
    ensures
        r is None,
        !final(f)@.contains_key(named(src, dst, number)),
        other != named(src, dst, number) ==> (final(f)@.contains_key(other) <==> old(f)@.contains_key(other) && now - old(f)@[other].created < 60_000_000_000) && (final(f)@.contains_key(other) ==> final(f)@[other] == old(f)@[other]),
{
    lemma_carries(pkt@, src, dst, number, next_header, offset, more, piece);
    assert(packet_bytes(r) is None);
}

/// The first piece of a packet that is not the whole of it is kept from that time on,
/// with its next header; the pieces of other packets stay.
pub proof fn law_first_pieces_are_kept(
    f: &mut FragReassembler,
    pkt: Vec<u8>,
    now: u64,
    r: Option<Vec<u8>>,
    src: Seq<u8>,
    dst: Seq<u8>,
    number: nat,
    next_header: u8,
    offset: nat,
    more: bool,
    piece: Seq<u8>,
    i: int,
    other: FragId,
)
    requires
        call_ensures(FragReassembler::feed_at, (f, pkt, now), r),
        carries(pkt@, src, dst, number, next_header, offset, more, piece),
        offset + piece.len() <= 65535,
        more || offset > 0,
        !old(f)@.contains_key(named(src, dst, number)),
        0 <= i < 65535,
    ensures
        r is None,
        ({
            let id = named(src, dst, number);
            let p = final(f)@[id];
            &&& final(f)@.contains_key(id)
            &&& p.created == now && p.next_header == next_header
            &&& more ==> p.total is None
            &&& !more ==> p.total == Some(offset + piece.len())
            &&& p.have[i] <==> offset <= i < offset + piece.len()
            &&& offset <= i < offset + piece.len() ==> p.data[i] == piece[i - offset]
            &&& other != id ==> (final(f)@.contains_key(other) <==> old(f)@.contains_key(other)
                && now - old(f)@[other].created < 60_000_000_000) && (final(f)@.contains_key(other)
                ==> final(f)@[other] == old(f)@[other])
        }),
{
    lemma_carries(pkt@, src, dst, number, next_header, offset, more, piece);
    let g = fragment_of(pkt@);
    let live = unexpired(old(f)@, now as nat);
    let p = absorb(partial_for(live, g, now as nat), g);
    if !more {
        assert(!p.have[0]);
        assert(!complete(p));
    }
    assert(packet_bytes(r) is None);
}

/// A piece that is the whole of a packet is delivered where no other piece has come.
pub proof fn lemma_single_fragment(
    m: Map<FragId, Partial>,
    pkt: Seq<u8>,
    now: nat,
    src: Seq<u8>,
    dst: Seq<u8>,
    number: nat,
    next_header: u8,
    body: Seq<u8>,
)
    requires
        carries(pkt, src, dst, number, next_header, 0, false, body),
        body.len() <= 65535,
        !m.contains_key(named(src, dst, number)),
    ensures
        feed_step(m, pkt, now).1 == Some(whole(src, dst, next_header, body)),
        !feed_step(m, pkt, now).0.contains_key(named(src, dst, number)),
{
    lemma_carries(pkt, src, dst, number, next_header, 0, false, body);
    let g = fragment_of(pkt);
    let p = absorb(partial_for(unexpired(m, now), g, now), g);
    assert forall|i: int| 0 <= i < p.total->0 implies #[trigger] p.have[i] by {}
    assert(complete(p));
    assert(p.data.take(body.len() as int) =~= body);
    assert(body.len() / 256 % 256 == body.len() / 256);
    assert(reassembled(src, dst, next_header, body) =~= whole(src, dst, next_header, body));
}

/// A piece that is the whole of a packet is delivered at once, whatever the clock says,
/// where no other piece of it has come.
pub proof fn law_single_fragments(
    f: &mut FragReassembler,
    pkt: Vec<u8>,
    now: u64,
    r: Option<Vec<u8>>,
    src: Seq<u8>,
    dst: Seq<u8>,
    number: nat,
    next_header: u8,
    body: Seq<u8>,
)
    requires
        call_ensures(FragReassembler::feed_at, (f, pkt, now), r) || call_ensures(
            FragReassembler::feed,
            (f, pkt),
            r,
        ),
        carries(pkt@, src, dst, number, next_header, 0, false, body),
        body.len() <= 65535,
        !old(f)@.contains_key(named(src, dst, number)),
    ensures
        r is Some,
        r->0@ == whole(src, dst, next_header, body),
        !final(f)@.contains_key(named(src, dst, number)),
{
    let at = if call_ensures(FragReassembler::feed_at, (f, pkt, now), r) {
        now
    } else {
        choose|at: u64|
            (final(f)@, packet_bytes(r)) == #[trigger] feed_step(old(f)@, pkt@, at as nat)
    };
    assert((final(f)@, packet_bytes(r)) == feed_step(old(f)@, pkt@, at as nat));
    lemma_single_fragment(old(f)@, pkt@, at as nat, src, dst, number, next_header, body);
}

/// A new reassembler holds nothing, counts what it holds, and at any time passes on what
/// is no fragment.
pub proof fn law_new_reassemblers(
    n: FragReassembler,
    id: FragId,
    c: &FragReassembler,
    count: usize,
    f: &mut FragReassembler,
    pkt: Vec<u8>,
    r: Option<Vec<u8>>,
)
    requires
        call_ensures(FragReassembler::new, (), n) || call_ensures(
            <FragReassembler as Default>::default,
            (),
            n,
        ),
        call_ensures(FragReassembler::slot_count, (c,), count),
        call_ensures(FragReassembler::feed, (f, pkt), r),
    ensures
        n.wf() && !n@.contains_key(id),
        count == c@.dom().len(),
        pkt@.len() < 40 || pkt@[6] != 44 ==> r is Some && r->0@ == pkt@,
        40 <= pkt@.len() < 48 && pkt@[6] == 44 ==> r is None,
        final(f)@.contains_key(id) && (pkt@.len() < 48 || pkt@[6] != 44) ==> old(f)@.contains_key(id)
            && final(f)@[id] == old(f)@[id],
{
    let at = choose|at: u64|
        (final(f)@, packet_bytes(r)) == #[trigger] feed_step(old(f)@, pkt@, at as nat);
    assert((final(f)@, packet_bytes(r)) == feed_step(old(f)@, pkt@, at as nat));
    if 40 <= pkt@.len() < 48 && pkt@[6] == 44 {
        assert(packet_bytes(r) is None);
    }
}

/// A reassembled packet is its payload behind an IPv6 header with its addresses, next
/// header and length.
pub proof fn law_headers_are_put_in_front(
    src: [u8; 16],
    dst: [u8; 16],
    next_header: u8,
    payload: &[u8],
    r: Vec<u8>,
)
    requires
        call_ensures(build_reassembled, (src, dst, next_header, payload), r),
        payload@.len() <= 65535,
    ensures
        r@ == whole(src@, dst@, next_header, payload@),
{
    assert(payload@.len() / 256 % 256 == payload@.len() / 256);
    assert(r@ =~= whole(src@, dst@, next_header, payload@));
}

} // verus!
