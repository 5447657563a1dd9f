//! What holds of the statistics over several calls.
use vstd::prelude::*;
use crate::addr::{SocketAddr, socket_text};
use crate::json::json_text;
use crate::proxy::{ProxyAction, ProxyEvent, ProxyListener};
use crate::stats::{
    ConnGuard, CopyAction, CopyEvent, CountingCopy, Dir, Entry, EntryId, ListenerStatsRegistry,
    before, change, closed, counting_copy, is_listing, items_json, kind_rank, listing_json,
    new_entry, numbered, opened, registered, relayed, stats_kind_order,
};
use crate::text::{dec_text, lemma_text_lt_total, text_lt};

verus! {

/// A connection that was opened and then closed leaves the gauge where it was,
/// and counts once in the total.
pub proof fn law_open_then_close(e: Entry)
    requires
        0 <= e.active < i64::MAX,
        e.total < u64::MAX,
    ensures
        closed(opened(e)) == (Entry { total: e.total + 1, ..e }),
{
}

/// The gauge never falls below zero, however many connections are closed.
pub proof fn law_gauge_not_negative(e: Entry)
    requires
        0 <= e.active,
    ensures
        0 <= closed(e).active,
        e.active < i64::MAX ==> 0 <= opened(e).active,
{
}

/// Counting on one entry leaves every other entry as it was.
pub proof fn law_entries_are_apart(
    m: Map<Seq<char>, Entry>,
    id: nat,
    f: spec_fn(Entry) -> Entry,
    key: Seq<char>,
)
    requires
        m.contains_key(key),
        m[key].id != id,
    ensures
        change(m, id, f).contains_key(key),
        change(m, id, f)[key] == m[key],
{
}

/// The entries after a series of counts, each on the entry of a number.
pub open spec fn counted(
    m: Map<Seq<char>, Entry>,
    counts: Seq<(nat, spec_fn(Entry) -> Entry)>,
) -> Map<Seq<char>, Entry>
    decreases counts.len(),
{
    if counts.len() == 0 {
        m
    } else {
        change(counted(m, counts.drop_last()), counts.last().0, counts.last().1)
    }
}

/// Whether counts leave the numbers of entries alone, and are on entries other than
/// that of a number.
pub open spec fn on_others(counts: Seq<(nat, spec_fn(Entry) -> Entry)>, id: nat) -> bool {
    forall|i: int|
        0 <= i < counts.len() ==> (#[trigger] counts[i]).0 != id && forall|e: Entry|
            (#[trigger] (counts[i].1)(e)).id == e.id
}

proof fn lemma_counted(
    m: Map<Seq<char>, Entry>,
    counts: Seq<(nat, spec_fn(Entry) -> Entry)>,
    id: nat,
    key: Seq<char>,
    f: spec_fn(Entry) -> Entry,
)
    requires
        m.contains_key(key),
        on_others(counts, id),
        forall|e: Entry| (#[trigger] f(e)).id == e.id,
    ensures
        counted(m, counts).contains_key(key),
        counted(m, counts)[key].id == m[key].id,
        m[key].id == id ==> counted(m, counts)[key] == m[key],
        m[key].id != id ==> counted(change(m, id, f), counts)[key] == counted(m, counts)[key],
    decreases counts.len(),
{
    if counts.len() > 0 {
        let rest = counts.drop_last();
        assert forall|i: int| 0 <= i < rest.len() implies (#[trigger] rest[i]).0 != id && forall|
            e: Entry,
        | (#[trigger] (rest[i].1)(e)).id == e.id by {
            assert(rest[i] == counts[i]);
        }
        lemma_counted(m, rest, id, key, f);
        lemma_counted(change(m, id, f), rest, id, key, f);
        assert(counts.last() == counts[counts.len() - 1]);
    }
}

/// A guard that is made and released, with anything counted on other entries in
/// between, leaves the gauge of its entry where it was, and every other entry as
/// what was counted on it makes it.
pub proof fn law_guard_restores_gauge(
    m: Map<Seq<char>, Entry>,
    id: nat,
    counts: Seq<(nat, spec_fn(Entry) -> Entry)>,
    key: Seq<char>,
)
    requires
        m.contains_key(key),
        0 <= m[key].active < i64::MAX,
        on_others(counts, id),
    ensures
        ({
            let open = change(m, id, |e: Entry| opened(e));
            let after = change(counted(open, counts), id, |e: Entry| closed(e));
            &&& after.contains_key(key)
            &&& m[key].id == id ==> after[key].active == m[key].active
            &&& m[key].id != id ==> after[key] == counted(m, counts)[key]
        }),
{
    let f = |e: Entry| opened(e);
    let open = change(m, id, f);
    assert forall|e: Entry| (#[trigger] f(e)).id == e.id by {}
    lemma_counted(m, counts, id, key, f);
    lemma_counted(open, counts, id, key, f);
}

/// What happens to the guards of an entry.
pub ghost enum GuardEvent {
    /// One more is made.
    Made,
    /// The one that was made as the `i`-th is released, perhaps once more.
    Released(int),
}

/// The entries after guards of the entry of a number were made and released, and
/// which of the guards still count as active.
pub open spec fn guarded(
    m: Map<Seq<char>, Entry>,
    id: nat,
    events: Seq<GuardEvent>,
) -> (Map<Seq<char>, Entry>, Seq<bool>)
    decreases events.len(),
{
    if events.len() == 0 {
        (m, Seq::empty())
    } else {
        let (n, held) = guarded(m, id, events.drop_last());
        match events.last() {
            GuardEvent::Made => (change(n, id, |e: Entry| opened(e)), held.push(true)),
            GuardEvent::Released(i) => if 0 <= i < held.len() && held[i] {
                (change(n, id, |e: Entry| closed(e)), held.update(i, false))
            } else {
                (n, held)
            },
        }
    }
}

/// How many guards have been released.
pub open spec fn released(held: Seq<bool>) -> nat
    decreases held.len(),
{
    if held.len() == 0 {
        0
    } else {
        released(held.drop_last()) + if held.last() {
            0nat
        } else {
            1nat
        }
    }
}

proof fn lemma_released(held: Seq<bool>, i: int)
    requires
        0 <= i < held.len(),
        held[i],
    ensures
        released(held.update(i, false)) == released(held) + 1,
        released(held) < held.len(),
    decreases held.len(),
{
    let after = held.update(i, false);
    let n = held.len() - 1;
    if i == n {
        assert(after.drop_last() =~= held.drop_last());
        lemma_released_bound(held.drop_last());
    } else {
        assert(after.drop_last() =~= held.drop_last().update(i, false));
        lemma_released(held.drop_last(), i);
    }
}

proof fn lemma_released_bound(held: Seq<bool>)
    ensures
        released(held) <= held.len(),
    decreases held.len(),
{
    if held.len() > 0 {
        lemma_released_bound(held.drop_last());
    }
}

/// On a fresh entry, `n` guards of which `k` have been released, in whatever order and
/// however often each, leave `n - k` connections active and `n` in total, and no
/// bytes counted.
pub proof fn law_guards_count_once(
    m: Map<Seq<char>, Entry>,
    id: nat,
    events: Seq<GuardEvent>,
    key: Seq<char>,
)
    requires
        m.contains_key(key),
        m[key].id == id,
        m[key].active == 0,
        m[key].total == 0,
        events.len() <= i64::MAX,
    ensures
        ({
            let (after, held) = guarded(m, id, events);
            &&& held.len() <= events.len()
            &&& after.contains_key(key)
            &&& after[key] == (Entry {
                active: held.len() - released(held),
                total: held.len(),
                ..m[key]
            })
        }),
    decreases events.len(),
{
    if events.len() > 0 {
        law_guards_count_once(m, id, events.drop_last(), key);
        let (n, held) = guarded(m, id, events.drop_last());
        lemma_released_bound(held);
        match events.last() {
            GuardEvent::Made => {
                assert(held.push(true).drop_last() =~= held);
            },
            GuardEvent::Released(i) => {
                if 0 <= i < held.len() && held[i] {
                    lemma_released(held, i);
                }
            },
        }
    }
}

/// A listener that is dropped is gone, with all other entries as they were;
/// dropping one that is not there changes nothing.
pub proof fn law_removed_listener_is_gone(
    m: Map<Seq<char>, Entry>,
    next: nat,
    key: Seq<char>,
    other: Seq<char>,
    keys: Seq<Seq<char>>,
)
    requires
        numbered(m, next),
        other != key,
    ensures
        !m.remove(key).contains_key(key),
        m.remove(key).contains_key(other) <==> m.contains_key(other),
        m.contains_key(other) ==> m.remove(key)[other] == m[other],
        !m.contains_key(key) ==> m.remove(key) == m,
        is_listing(keys, m.remove(key)) ==> !keys.contains(key),
        numbered(m.remove(key), next),
{
    if !m.contains_key(key) {
        assert(m.remove(key) =~= m);
    }
}

/// What is still counted on a dropped entry shows nowhere. A listener that is
/// registered again under its key starts from zero, and nothing that is counted on
/// an entry that was handed out before reaches it.
pub proof fn law_dropped_entry_is_gone(
    m: Map<Seq<char>, Entry>,
    next: nat,
    key: Seq<char>,
    kind: Seq<char>,
    listen: Seq<char>,
    target: Seq<char>,
    held: nat,
    f: spec_fn(Entry) -> Entry,
)
    requires
        numbered(m, next),
        held < next,
    ensures
        ({
            let left = m.remove(key);
            let again = registered(left, next, key, kind, listen, target);
            &&& m.contains_key(key) ==> change(left, m[key].id, f) == left
            &&& again.contains_key(key)
            &&& again[key] == new_entry(next, kind, listen, target)
            &&& again[key].active == 0 && again[key].total == 0
            &&& again[key].rx == 0 && again[key].tx == 0
            &&& change(again, held, f)[key] == again[key]
            &&& numbered(again, next + 1)
        }),
{
    let left = m.remove(key);
    let again = registered(left, next, key, kind, listen, target);
    if m.contains_key(key) {
        assert forall|k: Seq<char>| #[trigger] left.contains_key(k) implies left[k].id
            != m[key].id by {
            assert(m.contains_key(k) && k != key);
        }
        assert(change(left, m[key].id, f) =~= left);
    }
    assert forall|k: Seq<char>| #[trigger] again.contains_key(k) implies again[k].id < next + 1 by {
        if k != key {
            assert(m.contains_key(k));
        }
    }
    assert forall|a: Seq<char>, b: Seq<char>| #[trigger]
        again.contains_key(a) && #[trigger] again.contains_key(b) && a != b implies again[a].id
        != again[b].id by {
        if a != key {
            assert(m.contains_key(a));
        }
        if b != key {
            assert(m.contains_key(b));
        }
    }
}

/// Received and sent bytes are counted apart.
pub proof fn law_directions_are_apart(e: Entry, n: nat)
    ensures
        relayed(e, Dir::Rx, n).tx == e.tx,
        relayed(e, Dir::Tx, n).rx == e.rx,
{
}

/// Whether any two entries differ in kind, listening address or target.
pub open spec fn told_apart(m: Map<Seq<char>, Entry>) -> bool {
    forall|a: Seq<char>, b: Seq<char>| #[trigger]
        m.contains_key(a) && #[trigger] m.contains_key(b) && a != b ==> !(kind_rank(m[a].kind)
            == kind_rank(m[b].kind) && m[a].listen == m[b].listen && m[a].target == m[b].target)
}

proof fn lemma_listing_rest(keys: Seq<Seq<char>>, m: Map<Seq<char>, Entry>)
    requires
        is_listing(keys, m),
        keys.len() > 0,
    ensures
        is_listing(keys.skip(1), m.remove(keys[0])),
{
    let rest = keys.skip(1);
    let n = m.remove(keys[0]);
    assert forall|k: Seq<char>| rest.contains(k) <==> #[trigger] n.contains_key(k) by {
        if rest.contains(k) {
            let i = choose|i: int| 0 <= i < rest.len() && rest[i] == k;
            assert(keys[i + 1] == k);
            assert(keys.contains(k));
            assert(m.contains_key(k));
        }
        if n.contains_key(k) {
            assert(m.contains_key(k));
            let i = choose|i: int| 0 <= i < keys.len() && keys[i] == k;
            assert(rest[i - 1] == k);
        }
    }
    assert forall|i: int, j: int| 0 <= i < j < rest.len() implies !before(
        n[#[trigger] rest[j]],
        n[#[trigger] rest[i]],
    ) by {
        assert(!before(m[keys[j + 1]], m[keys[i + 1]]));
    }
}

/// Where any two entries differ in kind, listening address or target, there is
/// one listing only.
pub proof fn law_listing_is_determined(
    a: Seq<Seq<char>>,
    b: Seq<Seq<char>>,
    m: Map<Seq<char>, Entry>,
)
    requires
        is_listing(a, m),
        is_listing(b, m),
        told_apart(m),
    ensures
        a == b,
    decreases a.len(),
{
    if a.len() == 0 {
        if b.len() > 0 {
            assert(b.contains(b[0]));
            assert(m.contains_key(b[0]));
            assert(a.contains(b[0]));
        }
        assert(a == b);
    } else {
        assert(a.contains(a[0]));
        assert(m.contains_key(a[0]));
        let i = choose|i: int| 0 <= i < b.len() && b[i] == a[0];
        assert(b.contains(b[0]));
        assert(m.contains_key(b[0]));
        let j = choose|j: int| 0 <= j < a.len() && a[j] == b[0];
        if a[0] != b[0] {
            assert(!before(m[b[i]], m[b[0]]));
            assert(!before(m[a[j]], m[a[0]]));
            lemma_text_lt_total(m[a[0]].listen, m[b[0]].listen);
            lemma_text_lt_total(m[a[0]].target, m[b[0]].target);
            assert(false);
        }
        lemma_listing_rest(a, m);
        lemma_listing_rest(b, m);
        law_listing_is_determined(a.skip(1), b.skip(1), m.remove(a[0]));
        assert(a == seq![a[0]] + a.skip(1));
        assert(b == seq![b[0]] + b.skip(1));
    }
}

// ── What is counted ───────────────────────────────────────────────────────────

/// Whether one registry is another with so many more active connections, connections
/// in total, received and sent bytes on the entry of a number, and nothing else
/// changed.
pub open spec fn counted_on(
    m: Map<Seq<char>, Entry>,
    n: Map<Seq<char>, Entry>,
    id: nat,
    active: int,
    total: int,
    rx: int,
    tx: int,
) -> bool {
    &&& forall|k: Seq<char>| #![trigger m.contains_key(k)] #![trigger n.contains_key(k)]
        m.contains_key(k) <==> n.contains_key(k)
    &&& forall|k: Seq<char>| #[trigger]
        m.contains_key(k) ==> {
            &&& n[k].id == m[k].id
            &&& n[k].kind == m[k].kind
            &&& n[k].listen == m[k].listen
            &&& n[k].target == m[k].target
            &&& m[k].id == id ==> {
                &&& n[k].active == m[k].active + active
                &&& n[k].total == m[k].total + total
                &&& n[k].rx == m[k].rx + rx
                &&& n[k].tx == m[k].tx + tx
            }
            &&& m[k].id != id ==> n[k] == m[k]
        }
}

/// Whether the counters of the entry of a number are not at their limits, and some
/// connections on it are active, where that is asked.
pub open spec fn can_count(m: Map<Seq<char>, Entry>, id: nat, n: nat, some_active: bool) -> bool {
    forall|k: Seq<char>| #[trigger]
        m.contains_key(k) && m[k].id == id ==> {
            &&& 0 <= m[k].active < i64::MAX
            &&& some_active ==> m[k].active > 0
            &&& m[k].total < u64::MAX
            &&& m[k].rx + n <= u64::MAX
            &&& m[k].tx + n <= u64::MAX
        }
}

/// A connection that is opened counts as one active connection and one in total on its
/// entry; one that is closed no longer counts as active; relayed bytes count in their
/// direction. No other entry changes.
pub proof fn law_connections_and_bytes_count(
    a: &mut ListenerStatsRegistry,
    b: &mut ListenerStatsRegistry,
    c: &mut ListenerStatsRegistry,
    entry: EntryId,
    dir: Dir,
    n: u64,
)
    requires
        call_ensures(ListenerStatsRegistry::conn_opened, (a, entry), ()),
        call_ensures(ListenerStatsRegistry::conn_closed, (b, entry), ()),
        call_ensures(ListenerStatsRegistry::relay, (c, entry, dir, n), ()),
        can_count(old(a)@, entry.num(), 0, false),
        can_count(old(b)@, entry.num(), 0, true),
        can_count(old(c)@, entry.num(), n as nat, false),
    ensures
        counted_on(old(a)@, final(a)@, entry.num(), 1, 1, 0, 0),
        counted_on(old(b)@, final(b)@, entry.num(), -1, 0, 0, 0),
        dir is Rx ==> counted_on(old(c)@, final(c)@, entry.num(), 0, 0, n as int, 0),
        dir is Tx ==> counted_on(old(c)@, final(c)@, entry.num(), 0, 0, 0, n as int),
{
}

/// A close that comes where no connection is active changes nothing.
pub proof fn law_late_closes_do_not_count(r: &mut ListenerStatsRegistry, entry: EntryId)
    requires
        call_ensures(ListenerStatsRegistry::conn_closed, (r, entry), ()),
        forall|k: Seq<char>| #[trigger]
            old(r)@.contains_key(k) && old(r)@[k].id == entry.num() ==> old(r)@[k].active == 0,
    ensures
        final(r)@ == old(r)@,
{
    assert(final(r)@ =~= old(r)@);
}

/// A listener that registers gets an entry of its own, from zero, under its key, with
/// what it says of itself; one whose key is taken gets the entry that is there, as it
/// is. Nothing else changes.
pub proof fn law_listeners_are_registered(
    r: &mut ListenerStatsRegistry,
    key: &str,
    kind: &'static str,
    listen: &str,
    target: &str,
    e: EntryId,
)
    requires
        call_ensures(ListenerStatsRegistry::entry, (r, key, kind, listen, target), e),
    ensures
        final(r)@.contains_key(key@),
        final(r)@[key@].id == e.num(),
        old(r)@.contains_key(key@) ==> final(r)@[key@] == old(r)@[key@],
        !old(r)@.contains_key(key@) ==> ({
            let n = final(r)@[key@];
            &&& n.kind == kind@ && n.listen == listen@ && n.target == target@
            &&& n.active == 0 && n.total == 0 && n.rx == 0 && n.tx == 0
        }),
        forall|k: Seq<char>|
            #![trigger old(r)@.contains_key(k)]
            #![trigger final(r)@.contains_key(k)]
            k != key@ ==> {
                &&& old(r)@.contains_key(k) <==> final(r)@.contains_key(k)
                &&& old(r)@.contains_key(k) ==> final(r)@[k] == old(r)@[k]
            },
{
}

/// A listener that is dropped is gone, and no other; a registry that is cleared is
/// empty, and so is a new one.
pub proof fn law_listeners_are_dropped(
    r: &mut ListenerStatsRegistry,
    key: &str,
    c: &mut ListenerStatsRegistry,
    n: ListenerStatsRegistry,
)
    requires
        call_ensures(ListenerStatsRegistry::remove, (r, key), ()),
        call_ensures(ListenerStatsRegistry::clear, (c,), ()),
        call_ensures(ListenerStatsRegistry::new, (), n),
    ensures
        !final(r)@.contains_key(key@),
        forall|k: Seq<char>|
            #![trigger old(r)@.contains_key(k)]
            #![trigger final(r)@.contains_key(k)]
            k != key@ ==> {
                &&& old(r)@.contains_key(k) <==> final(r)@.contains_key(k)
                &&& old(r)@.contains_key(k) ==> final(r)@[k] == old(r)@[k]
            },
        forall|k: Seq<char>| !(#[trigger] final(c)@.contains_key(k)),
        forall|k: Seq<char>| !(#[trigger] n@.contains_key(k)),
{
}

/// A guard counts its connection once while it is held, and takes it off once,
/// however often it is released.
pub proof fn law_guards_are_released_once(
    a: &mut ListenerStatsRegistry,
    entry: EntryId,
    g: ConnGuard,
    h: &mut ConnGuard,
    b: &mut ListenerStatsRegistry,
    i: &mut ConnGuard,
    c: &mut ListenerStatsRegistry,
)
    requires
        call_ensures(ConnGuard::new, (a, entry), g),
        *h == g,
        *b == *final(a),
        call_ensures(ConnGuard::release, (h, b), ()),
        *i == *final(h),
        *c == *final(b),
        call_ensures(ConnGuard::release, (i, c), ()),
        can_count(old(a)@, entry.num(), 0, false),
    ensures
        counted_on(old(a)@, final(a)@, entry.num(), 1, 1, 0, 0),
        counted_on(old(a)@, final(b)@, entry.num(), 0, 1, 0, 0),
        final(c)@ == final(b)@,
{
}

/// A copy reads, writes all that it read, and reads on, until the end; what was written
/// is what it counts, in its direction, and reports at the end.
pub proof fn law_copies_count_what_they_write(
    c: &mut CountingCopy,
    r: &mut ListenerStatsRegistry,
    e: CopyEvent,
    a: CopyAction,
)
    requires
        call_ensures(CountingCopy::step, (c, r, e), a),
        e matches CopyEvent::Written(n) ==> can_count(old(r)@, old(c).entry.num(), n as nat, false)
            && old(c).total + n <= u64::MAX,
    ensures
        e is Start ==> a is Read,
        e matches CopyEvent::Read(n) ==> {
            &&& n > 0 ==> a == CopyAction::Write(n)
            &&& n == 0 ==> a == CopyAction::Done(old(c).total)
        },
        e matches CopyEvent::Written(n) ==> {
            &&& a is Read
            &&& final(c).total == old(c).total + n
            &&& old(c).dir is Rx ==> counted_on(
                old(r)@,
                final(r)@,
                old(c).entry.num(),
                0,
                0,
                n as int,
                0,
            )
            &&& old(c).dir is Tx ==> counted_on(
                old(r)@,
                final(r)@,
                old(c).entry.num(),
                0,
                0,
                0,
                n as int,
            )
        },
        !(e is Written) ==> final(r)@ == old(r)@ && final(c).total == old(c).total,
        final(c).dir == old(c).dir,
        final(c).entry == old(c).entry,
{
}

/// A new copy has written nothing, and counts on the entry and in the direction that
/// it was made for.
pub proof fn law_new_copies(entry: EntryId, dir: Dir, r: CountingCopy)
    requires
        call_ensures(counting_copy, (entry, dir), r),
    ensures
        r.entry == entry,
        r.dir == dir,
        r.total == 0,
{
}

// ── The listing ───────────────────────────────────────────────────────────────

/// The kinds of listeners stand in this order: the SOCKS proxy, local TCP, local UDP,
/// remote TCP and remote UDP forwarders, and any other last.
pub proof fn law_kinds_are_ordered(kind: &str, r: u8)
    requires
        call_ensures(stats_kind_order, (kind,), r),
    ensures
        kind@ == "socks"@ <==> r == 0,
        kind@ == "local-tcp"@ <==> r == 1,
        kind@ == "local-udp"@ <==> r == 2,
        kind@ == "remote-tcp"@ <==> r == 3,
        kind@ == "remote-udp"@ <==> r == 4,
        r <= 5,
{
    reveal_strlit("socks");
    reveal_strlit("local-tcp");
    reveal_strlit("local-udp");
    reveal_strlit("remote-tcp");
    reveal_strlit("remote-udp");
    assert("local-tcp"@[6] == 't');
    assert("local-udp"@[6] == 'u');
    assert("remote-tcp"@[7] == 't');
    assert("remote-udp"@[7] == 'u');
    assert("socks"@.len() == 5);
    assert("local-tcp"@.len() == 9 && "local-udp"@.len() == 9);
    assert("remote-tcp"@.len() == 10 && "remote-udp"@.len() == 10);
    assert("local-tcp"@ != "local-udp"@ && "remote-tcp"@ != "remote-udp"@);
    assert("socks"@ != "local-tcp"@ && "socks"@ != "local-udp"@);
    assert("socks"@ != "remote-tcp"@ && "socks"@ != "remote-udp"@);
    assert("local-tcp"@ != "remote-tcp"@ && "local-tcp"@ != "remote-udp"@);
    assert("local-udp"@ != "remote-tcp"@ && "local-udp"@ != "remote-udp"@);
}

/// What a listing says of an entry.
pub open spec fn item_text(key: Seq<char>, e: Entry) -> Seq<char> {
    "{\"Key\":"@ + json_text(key) + ",\"Kind\":\""@ + e.kind + "\",\"Listen\":"@ + json_text(
        e.listen,
    ) + ",\"Target\":"@ + json_text(e.target) + ",\"ActiveConns\":"@ + dec_text(
        e.active as nat,
    ) + ",\"TotalConns\":"@ + dec_text(e.total) + ",\"RXBytes\":"@ + dec_text(e.rx)
        + ",\"TXBytes\":"@ + dec_text(e.tx) + "}"@
}

/// Items, with commas between them.
pub open spec fn item_texts(keys: Seq<Seq<char>>, m: Map<Seq<char>, Entry>) -> Seq<char>
    decreases keys.len(),
{
    if keys.len() == 0 {
        Seq::empty()
    } else if keys.len() == 1 {
        item_text(keys[0], m[keys[0]])
    } else {
        item_texts(keys.drop_last(), m) + seq![','] + item_text(keys.last(), m[keys.last()])
    }
}

/// The items of a listing are its entries as texts.
pub proof fn lemma_item_texts(keys: Seq<Seq<char>>, m: Map<Seq<char>, Entry>)
    requires
        forall|i: int| 0 <= i < keys.len() ==> m[#[trigger] keys[i]].active >= 0,
    ensures
        items_json(keys, m) == item_texts(keys, m),
    decreases keys.len(),
{
    reveal_strlit(",");
    if keys.len() == 1 {
        assert(m[keys[0]].active >= 0);
    } else if keys.len() > 1 {
        let d = keys.drop_last();
        assert forall|i: int| 0 <= i < d.len() implies m[#[trigger] d[i]].active >= 0 by {
            assert(d[i] == keys[i]);
        }
        lemma_item_texts(d, m);
        assert(m[keys[keys.len() - 1]].active >= 0);
        assert(","@ =~= seq![',']);
    }
}

/// A listing holds every entry once, with what it says of itself and all its counters,
/// ordered by kind, within a kind by where it listens, and then by target.
pub proof fn law_listings_hold_every_entry(r: &ListenerStatsRegistry, text: String)
    requires
        call_ensures(ListenerStatsRegistry::to_json, (r,), text),
        forall|k: Seq<char>| #[trigger] r@.contains_key(k) ==> r@[k].active >= 0,
    ensures
        exists|keys: Seq<Seq<char>>|
            {
                &&& keys.no_duplicates()
                &&& forall|k: Seq<char>| keys.contains(k) <==> #[trigger] r@.contains_key(k)
                &&& forall|i: int, j: int|
                    0 <= i < j < keys.len() ==> {
                        let (a, b) = (r@[#[trigger] keys[i]], r@[#[trigger] keys[j]]);
                        &&& kind_rank(a.kind) <= kind_rank(b.kind)
                        &&& kind_rank(a.kind) == kind_rank(b.kind) ==> !text_lt(b.listen, a.listen)
                        &&& kind_rank(a.kind) == kind_rank(b.kind) && a.listen == b.listen
                            ==> !text_lt(b.target, a.target)
                    }
                &&& text@ == seq!['['] + #[trigger] item_texts(keys, r@) + seq![']']
            },
{
    let keys = choose|keys: Seq<Seq<char>>| #[trigger]
        is_listing(keys, r@) && text@ == listing_json(keys, r@);
    assert forall|i: int| 0 <= i < keys.len() implies r@[#[trigger] keys[i]].active >= 0 by {
        assert(keys.contains(keys[i]));
        assert(r@.contains_key(keys[i]));
    }
    lemma_item_texts(keys, r@);
    reveal_strlit("[");
    reveal_strlit("]");
    assert(text@ =~= seq!['['] + item_texts(keys, r@) + seq![']']);
    assert forall|i: int, j: int| 0 <= i < j < keys.len() implies {
        let (a, b) = (r@[#[trigger] keys[i]], r@[#[trigger] keys[j]]);
        &&& kind_rank(a.kind) <= kind_rank(b.kind)
        &&& kind_rank(a.kind) == kind_rank(b.kind) ==> !text_lt(b.listen, a.listen)
        &&& kind_rank(a.kind) == kind_rank(b.kind) && a.listen == b.listen ==> !text_lt(
            b.target,
            a.target,
        )
    } by {
        assert(!before(r@[keys[j]], r@[keys[i]]));
    }
}

// ── Proxies ───────────────────────────────────────────────────────────────────

/// A proxy that listens serves every client that connects, survives failed accepts,
/// and once stopped does nothing; its entry goes with it, and no other.
pub proof fn law_proxies_serve_until_stopped(
    p: &mut ProxyListener,
    r: &mut ListenerStatsRegistry,
    e: ProxyEvent,
    a: ProxyAction,
)
    requires
        call_ensures(ProxyListener::step, (p, r, e), a),
    ensures
        !old(p).stopped() && e is Accepted ==> a is Serve,
        !old(p).stopped() && e is AcceptFailed ==> a is Accept,
        e is Stop || old(p).stopped() ==> a is Exit && final(p).stopped(),
        !(e is Stop) ==> final(r)@ == old(r)@ && final(p).stopped() == old(p).stopped(),
        e is Stop && !old(p).stopped() ==> !final(r)@.contains_key(old(p).key_text()),
        forall|k: Seq<char>| #[trigger]
            old(r)@.contains_key(k) && k != old(p).key_text() ==> final(r)@.contains_key(k)
                && final(r)@[k] == old(r)@[k],
        final(p).key_text() == old(p).key_text(),
        final(p).num() == old(p).num(),
{
}

/// A proxy registers under its key, with its kind and where it listens, and clients
/// count on its entry.
pub proof fn law_proxies_are_registered(
    key: &'static str,
    kind: &'static str,
    local: &SocketAddr,
    r: &mut ListenerStatsRegistry,
    p: ProxyListener,
    e: EntryId,
)
    requires
        call_ensures(ProxyListener::new, (key, kind, local, r), p),
        call_ensures(ProxyListener::entry, (&p,), e),
    ensures
        !p.stopped(),
        p.key_text() == key@,
        e.num() == p.num(),
        final(r)@.contains_key(key@),
        final(r)@[key@].id == e.num(),
        !old(r)@.contains_key(key@) ==> final(r)@[key@].kind == kind@ && final(r)@[key@].listen
            == socket_text(local@) && final(r)@[key@].target.len() == 0 && final(r)@[key@].active
            == 0,
        forall|k: Seq<char>| #[trigger]
            old(r)@.contains_key(k) ==> final(r)@.contains_key(k) && final(r)@[k] == old(r)@[k],
{
}

/// Byte counters and the total start again at zero behind the largest number of 64 bits;
/// the gauge of active connections goes from the largest number of its 63 bits to the
/// least; and a gauge that is not above zero stays as it is where a connection is closed.
pub proof fn law_counters_wrap(
    a: &mut ListenerStatsRegistry,
    b: &mut ListenerStatsRegistry,
    c: &mut ListenerStatsRegistry,
    entry: EntryId,
    dir: Dir,
    n: u64,
    k: Seq<char>,
)
    requires
        call_ensures(ListenerStatsRegistry::conn_opened, (a, entry), ()),
        call_ensures(ListenerStatsRegistry::conn_closed, (b, entry), ()),
        call_ensures(ListenerStatsRegistry::relay, (c, entry, dir, n), ()),
    ensures
        old(a)@.contains_key(k) && old(a)@[k].id == entry.num() ==> {
            &&& old(a)@[k].active == 0x7fff_ffff_ffff_ffff ==> final(a)@[k].active
                == -0x8000_0000_0000_0000
            &&& old(a)@[k].total == 0xffff_ffff_ffff_ffff ==> final(a)@[k].total == 0
        },
        old(b)@.contains_key(k) && old(b)@[k].active <= 0 ==> final(b)@[k].active
            == old(b)@[k].active,
        old(c)@.contains_key(k) && old(c)@[k].id == entry.num() ==> {
            &&& dir is Rx && 0xffff_ffff_ffff_ffff < old(c)@[k].rx + n
                < 0x2_0000_0000_0000_0000 ==> final(c)@[k].rx == old(c)@[k].rx + n
                - 0x1_0000_0000_0000_0000
            &&& dir is Tx && 0xffff_ffff_ffff_ffff < old(c)@[k].tx + n
                < 0x2_0000_0000_0000_0000 ==> final(c)@[k].tx == old(c)@[k].tx + n
                - 0x1_0000_0000_0000_0000
        },
{
}

/// There is room for one more entry until every number of 64 bits was used.
pub proof fn law_registries_have_room(r: &ListenerStatsRegistry, room: bool)
    requires
        call_ensures(ListenerStatsRegistry::has_room, (r,), room),
    ensures
        room <==> r.next() < 0xffff_ffff_ffff_ffff,
{
}

} // verus!
