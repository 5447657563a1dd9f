//! Per-listener connection and traffic statistics.
//!
//! Every listener (SOCKS5 and HTTP proxies, local and remote TCP and UDP
//! forwarders) registers itself under a stable key and counts active and total
//! connections plus payload bytes on its Yggdrasil-facing leg (RX = bytes read
//! from the network, TX = bytes written to it).
use vstd::prelude::*;
use crate::json::{json_string, json_text};
use crate::keyed::{
    distinct_keys, has_key, index_of_key, lemma_at, lemma_empty, lemma_push, lemma_remove,
    lemma_update, map_of,
};
use crate::text::{
    chars_of, dec_text, is_text, lemma_text_lt_irreflexive, lemma_text_lt_total,
    lemma_text_lt_transitive, owned, push_decimal, push_text, same_text, text_before, text_lt,
};

verus! {

/// Identifies the SOCKS5 proxy listener in the registry (single entry).
pub const SOCKS_STATS_KEY: &'static str = "socks";

/// Identifies the HTTP proxy listener in the registry (single entry).
pub const HTTP_STATS_KEY: &'static str = "http";

/// One listener's counters.
pub struct ListenerStats {
    pub key: String,
    pub kind: &'static str,
    pub listen: String,
    pub target: String,
    pub active: i64,
    pub total: u64,
    pub rx_bytes: u64,
    pub tx_bytes: u64,
}

/// What one listener's entry says.
pub ghost struct Entry {
    /// Tells entries of one key apart that were registered one after the other.
    pub id: nat,
    pub kind: Seq<char>,
    pub listen: Seq<char>,
    pub target: Seq<char>,
    pub active: int,
    pub total: nat,
    pub rx: nat,
    pub tx: nat,
}

/// Direction of a relay leg relative to the Yggdrasil network.
#[derive(Clone, Copy)]
pub enum Dir {
    /// Bytes read from the Yggdrasil leg.
    Rx,
    /// Bytes written to the Yggdrasil leg.
    Tx,
}

/// A 64-bit counter after `n` more.
pub open spec fn count_up(v: nat, n: nat) -> nat {
    (v + n) % 0x1_0000_0000_0000_0000
}

/// The gauge of active connections after one more.
pub open spec fn one_more(v: int) -> int {
    if v == i64::MAX {
        i64::MIN as int
    } else {
        v + 1
    }
}

/// The gauge of active connections after one less, never below zero.
pub open spec fn one_less(v: int) -> int {
    if v > 0 {
        v - 1
    } else {
        v
    }
}

/// An entry after a connection was opened.
pub open spec fn opened(e: Entry) -> Entry {
    Entry { active: one_more(e.active), total: count_up(e.total, 1), ..e }
}

/// An entry after a connection was closed.
pub open spec fn closed(e: Entry) -> Entry {
    Entry { active: one_less(e.active), ..e }
}

/// An entry after `n` bytes were relayed.
pub open spec fn relayed(e: Entry, dir: Dir, n: nat) -> Entry {
    match dir {
        Dir::Rx => Entry { rx: count_up(e.rx, n), ..e },
        Dir::Tx => Entry { tx: count_up(e.tx, n), ..e },
    }
}

/// Add to a 64-bit counter.
pub fn add_count(v: u64, n: u64) -> (r: u64)
    ensures
        r as nat == count_up(v as nat, n as nat),
{
    v.wrapping_add(n)
}

impl ListenerStats {
    /// What the entry says, given the number that tells it apart.
    pub open spec fn entry(self, id: nat) -> Entry {
        Entry {
            id,
            kind: self.kind@,
            listen: self.listen@,
            target: self.target@,
            active: self.active as int,
            total: self.total as nat,
            rx: self.rx_bytes as nat,
            tx: self.tx_bytes as nat,
        }
    }

    /// Count a connection that was opened.
    pub fn conn_opened(&mut self)
        ensures
            final(self).key@ == old(self).key@,
            forall|id: nat| #[trigger] final(self).entry(id) == opened(old(self).entry(id)),
    {
        self.active = self.active.wrapping_add(1);
        self.total = add_count(self.total, 1);
        assert forall|id: nat| #[trigger] self.entry(id) == opened(old(self).entry(id)) by {}
    }

    /// Count a connection that was closed. The gauge stays at zero where it is
    /// there, so that a late close after a forced stop cannot wrap around.
    pub fn conn_closed(&mut self)
        ensures
            final(self).key@ == old(self).key@,
            forall|id: nat| #[trigger] final(self).entry(id) == closed(old(self).entry(id)),
    {
        if self.active > 0 {
            self.active = self.active - 1;
        }
        assert forall|id: nat| #[trigger] self.entry(id) == closed(old(self).entry(id)) by {}
    }

    /// Count relayed bytes.
    pub fn relay(&mut self, dir: Dir, n: u64)
        ensures
            final(self).key@ == old(self).key@,
            forall|id: nat| #[trigger]
                final(self).entry(id) == relayed(old(self).entry(id), dir, n as nat),
    {
        match dir {
            Dir::Rx => {
                self.rx_bytes = add_count(self.rx_bytes, n);
            },
            Dir::Tx => {
                self.tx_bytes = add_count(self.tx_bytes, n);
            },
        }
        assert forall|id: nat| #[trigger]
            self.entry(id) == relayed(old(self).entry(id), dir, n as nat) by {}
    }
}

/// A registered listener.
pub struct Slot {
    id: u64,
    stats: ListenerStats,
}

/// Stands for a registered entry. It keeps standing for that entry: once the
/// entry is dropped it stands for none, also where the key is registered again.
#[derive(Clone, Copy)]
pub struct EntryId {
    id: u64,
}

impl EntryId {
    /// The number of the entry.
    pub closed spec fn num(self) -> nat {
        self.id as nat
    }
}

/// Registry of live listeners. Create one per node run; dropping it (or
/// removing entries) stops accounting for those listeners.
pub struct ListenerStatsRegistry {
    slots: Vec<Slot>,
    next_id: u64,
}

spec fn slot_entry(s: Slot) -> Entry {
    s.stats.entry(s.id as nat)
}

spec fn pairs(slots: Seq<Slot>) -> Seq<(Seq<char>, Entry)> {
    Seq::new(slots.len(), |i: int| (slots[i].stats.key@, slot_entry(slots[i])))
}

spec fn slot_map(slots: Seq<Slot>) -> Map<Seq<char>, Entry> {
    map_of(pairs(slots))
}

spec fn distinct(slots: Seq<Slot>) -> bool {
    &&& distinct_keys(pairs(slots))
    &&& forall|i: int, j: int|
        0 <= i < j < slots.len() ==> (#[trigger] slots[i]).id != (#[trigger] slots[j]).id
}

proof fn lemma_slot(slots: Seq<Slot>, i: int)
    requires
        distinct(slots),
        0 <= i < slots.len(),
    ensures
        slot_map(slots).contains_key(slots[i].stats.key@),
        slot_map(slots)[slots[i].stats.key@] == slot_entry(slots[i]),
{
    lemma_at(pairs(slots), i);
}

/// A key leads to a slot.
proof fn lemma_slot_of(slots: Seq<Slot>, k: Seq<char>) -> (i: int)
    requires
        distinct(slots),
        slot_map(slots).contains_key(k),
    ensures
        0 <= i < slots.len(),
        slots[i].stats.key@ == k,
        slot_map(slots)[k] == slot_entry(slots[i]),
{
    let p = pairs(slots);
    let i = index_of_key(p, k);
    assert(0 <= i < p.len() && p[i].0 == k);
    lemma_at(p, i);
    i
}

/// The entries with the one of a number changed, where it is there.
pub open spec fn change(
    m: Map<Seq<char>, Entry>,
    id: nat,
    f: spec_fn(Entry) -> Entry,
) -> Map<Seq<char>, Entry> {
    Map::new(
        |k: Seq<char>| m.contains_key(k),
        |k: Seq<char>|
            if m[k].id == id {
                f(m[k])
            } else {
                m[k]
            },
    )
}

proof fn lemma_change(slots: Seq<Slot>, i: int, f: spec_fn(Entry) -> Entry, s: Slot)
    requires
        distinct(slots),
        0 <= i < slots.len(),
        s.stats.key@ == slots[i].stats.key@,
        s.id == slots[i].id,
        slot_entry(s) == f(slot_entry(slots[i])),
    ensures
        distinct(slots.update(i, s)),
        slot_map(slots.update(i, s)) == change(slot_map(slots), s.id as nat, f),
{
    let key = s.stats.key@;
    lemma_update(pairs(slots), i, slot_entry(s));
    assert(pairs(slots.update(i, s)) == pairs(slots).update(i, (key, slot_entry(s))));
    lemma_slot(slots, i);
    let m = slot_map(slots);
    assert forall|k: Seq<char>| #[trigger] m.contains_key(k) && k != key implies m[k].id != s.id by {
        let j = lemma_slot_of(slots, k);
        if i < j {
            assert(slots[i].id != slots[j].id);
        } else {
            assert(slots[j].id != slots[i].id);
        }
    }
    assert(m.insert(key, slot_entry(s)) =~= change(m, s.id as nat, f));
}

proof fn lemma_no_change(slots: Seq<Slot>, id: u64, f: spec_fn(Entry) -> Entry)
    requires
        distinct(slots),
        forall|i: int| 0 <= i < slots.len() ==> (#[trigger] slots[i]).id != id,
    ensures
        change(slot_map(slots), id as nat, f) == slot_map(slots),
{
    let m = slot_map(slots);
    assert forall|k: Seq<char>| #[trigger] m.contains_key(k) implies m[k].id != id by {
        let j = lemma_slot_of(slots, k);
    }
    assert(change(m, id as nat, f) =~= m);
}

/// The entry that a listener is registered with.
pub open spec fn new_entry(
    id: nat,
    kind: Seq<char>,
    listen: Seq<char>,
    target: Seq<char>,
) -> Entry {
    Entry { id, kind, listen, target, active: 0, total: 0, rx: 0, tx: 0 }
}

/// The registry after a listener was registered under a key: as it was where
/// the key is taken, else with a new entry.
pub open spec fn registered(
    m: Map<Seq<char>, Entry>,
    id: nat,
    key: Seq<char>,
    kind: Seq<char>,
    listen: Seq<char>,
    target: Seq<char>,
) -> Map<Seq<char>, Entry> {
    if m.contains_key(key) {
        m
    } else {
        m.insert(key, new_entry(id, kind, listen, target))
    }
}

/// Whether no two entries have the same number, and all numbers are below the next
/// one.
pub open spec fn numbered(m: Map<Seq<char>, Entry>, next: nat) -> bool {
    &&& forall|k: Seq<char>| #[trigger] m.contains_key(k) ==> m[k].id < next
    &&& forall|a: Seq<char>, b: Seq<char>| #[trigger]
        m.contains_key(a) && #[trigger] m.contains_key(b) && a != b ==> m[a].id != m[b].id
}

/// The registry after an outcome, for the entry of a number under a key.
pub open spec fn registry_after(
    m: Map<Seq<char>, Entry>,
    id: nat,
    key: Seq<char>,
    counted: Option<(Dir, nat)>,
    dropped: bool,
) -> Map<Seq<char>, Entry> {
    let n = match counted {
        Some((dir, len)) => change(m, id, |e: Entry| relayed(e, dir, len)),
        None => m,
    };
    if dropped {
        n.remove(key)
    } else {
        n
    }
}

impl View for ListenerStatsRegistry {
    type V = Map<Seq<char>, Entry>;

    closed spec fn view(&self) -> Map<Seq<char>, Entry> {
        slot_map(self.slots@)
    }
}

impl ListenerStatsRegistry {
    /// One entry per key, and no number used twice.
    pub closed spec fn wf(&self) -> bool {
        &&& distinct(self.slots@)
        &&& forall|i: int| 0 <= i < self.slots@.len() ==> (#[trigger] self.slots@[i]).id < self.next_id
    }

    /// The number of the next entry.
    pub closed spec fn next(&self) -> nat {
        self.next_id as nat
    }

    /// No two entries of a registry have the same number, and the next one is new.
    pub proof fn lemma_numbered(&self)
        requires
            self.wf(),
        ensures
            numbered(self@, self.next()),
    {
        let slots = self.slots@;
        let m = self@;
        assert forall|k: Seq<char>| #[trigger] m.contains_key(k) implies m[k].id < self.next() by {
            let i = lemma_slot_of(slots, k);
            assert(slots[i].id < self.next_id);
        }
        assert forall|a: Seq<char>, b: Seq<char>| #[trigger]
            m.contains_key(a) && #[trigger] m.contains_key(b) && a != b implies m[a].id
            != m[b].id by {
            let i = lemma_slot_of(slots, a);
            let j = lemma_slot_of(slots, b);
            if i < j {
                assert(slots[i].id != slots[j].id);
            } else {
                assert(slots[j].id != slots[i].id);
            }
        }
    }

    /// An empty registry.
    pub fn new() -> (r: Self)
        ensures
            r.wf(),
            r@ == Map::<Seq<char>, Entry>::empty(),
            r.next() == 0,
    {
        let r = ListenerStatsRegistry { slots: Vec::new(), next_id: 0 };
        proof {
            lemma_empty(pairs(r.slots@));
        }
        r
    }

    /// Whether another entry can be numbered.
    pub fn has_room(&self) -> (r: bool)
        ensures
            r == (self.next() < u64::MAX),
    {
        self.next_id < u64::MAX
    }

    fn position(&self, key: &str) -> (r: Option<usize>)
        ensures
            match r {
                Some(i) => i < self.slots@.len() && self.slots@[i as int].stats.key@ == key@,
                None => !has_key(pairs(self.slots@), key@),
            },
    {
        let mut i: usize = 0;
        while i < self.slots.len()
            invariant
                i <= self.slots@.len(),
                forall|j: int| 0 <= j < i ==> (#[trigger] self.slots@[j]).stats.key@ != key@,
            decreases self.slots.len() - i,
        {
            if same_text(self.slots[i].stats.key.as_str(), key) {
                return Some(i);
            }
            i += 1;
        }
        None
    }

    fn position_of_id(&self, id: u64) -> (r: Option<usize>)
        ensures
            match r {
                Some(i) => i < self.slots@.len() && self.slots@[i as int].id == id,
                None => forall|j: int| 0 <= j < self.slots@.len() ==> (#[trigger] self.slots@[j]).id
                    != id,
            },
    {
        let mut i: usize = 0;
        while i < self.slots.len()
            invariant
                i <= self.slots@.len(),
                forall|j: int| 0 <= j < i ==> (#[trigger] self.slots@[j]).id != id,
            decreases self.slots.len() - i,
        {
            if self.slots[i].id == id {
                return Some(i);
            }
            i += 1;
        }
        None
    }

    /// Register (or fetch) the entry for a listener key.
    pub fn entry(&mut self, key: &str, kind: &'static str, listen: &str, target: &str) -> (r:
        EntryId)
        requires
            old(self).wf(),
            !old(self)@.contains_key(key@) ==> old(self).next() < u64::MAX,
        ensures
            final(self).wf(),
            final(self)@ == registered(
                old(self)@,
                old(self).next(),
                key@,
                kind@,
                listen@,
                target@,
            ),
            r.num() == final(self)@[key@].id,
            final(self).next() == old(self).next() + if old(self)@.contains_key(key@) {
                0int
            } else {
                1int
            },
    {
        match self.position(key) {
            Some(i) => {
                proof {
                    lemma_slot(self.slots@, i as int);
                }
                EntryId { id: self.slots[i].id }
            },
            None => {
                let id = self.next_id;
                let slot = Slot {
                    id,
                    stats: ListenerStats {
                        key: owned(key),
                        kind,
                        listen: owned(listen),
                        target: owned(target),
                        active: 0,
                        total: 0,
                        rx_bytes: 0,
                        tx_bytes: 0,
                    },
                };
                let ghost before = self.slots@;
                proof {
                    lemma_push(pairs(before), key@, slot_entry(slot));
                }
                self.slots.push(slot);
                assert(pairs(self.slots@) == pairs(before).push((key@, slot_entry(slot))));
                self.next_id = id + 1;
                EntryId { id }
            },
        }
    }

    /// Drop a listener's entry (used when a mapping is removed at runtime).
    pub fn remove(&mut self, key: &str)
        requires
            old(self).wf(),
        ensures
            final(self).wf(),
            final(self)@ == old(self)@.remove(key@),
            final(self).next() == old(self).next(),
    {
        match self.position(key) {
            Some(i) => {
                let ghost before = self.slots@;
                proof {
                    lemma_remove(pairs(before), i as int);
                }
                let _ = self.slots.remove(i);
                assert(pairs(self.slots@) == pairs(before).remove(i as int));
            },
            None => {
                assert(old(self)@.remove(key@) =~= old(self)@);
            },
        }
    }

    /// Clear every entry (used on node stop so a restart starts from zero).
    pub fn clear(&mut self)
        requires
            old(self).wf(),
        ensures
            final(self).wf(),
            final(self)@ == Map::<Seq<char>, Entry>::empty(),
            final(self).next() == old(self).next(),
    {
        self.slots.clear();
        proof {
            lemma_empty(pairs(self.slots@));
        }
    }

    /// Count a connection that was opened on an entry.
    pub fn conn_opened(&mut self, entry: EntryId)
        requires
            old(self).wf(),
        ensures
            final(self).wf(),
            final(self)@ == change(old(self)@, entry.num(), |e: Entry| opened(e)),
            final(self).next() == old(self).next(),
    {
        let ghost f = |e: Entry| opened(e);
        match self.position_of_id(entry.id) {
            Some(i) => {
                let mut slot = self.slots.remove(i);
                slot.stats.conn_opened();
                proof {
                    assert(slot_entry(slot) == f(slot_entry(old(self).slots@[i as int])));
                    lemma_change(old(self).slots@, i as int, f, slot);
                }
                self.slots.insert(i, slot);
                assert(self.slots@ == old(self).slots@.update(i as int, slot));
            },
            None => {
                proof {
                    lemma_no_change(self.slots@, entry.id, f);
                }
            },
        }
    }

    /// Count a connection that was closed on an entry.
    pub fn conn_closed(&mut self, entry: EntryId)
        requires
            old(self).wf(),
        ensures
            final(self).wf(),
            final(self)@ == change(old(self)@, entry.num(), |e: Entry| closed(e)),
            final(self).next() == old(self).next(),
    {
        let ghost f = |e: Entry| closed(e);
        match self.position_of_id(entry.id) {
            Some(i) => {
                let mut slot = self.slots.remove(i);
                slot.stats.conn_closed();
                proof {
                    assert(slot_entry(slot) == f(slot_entry(old(self).slots@[i as int])));
                    lemma_change(old(self).slots@, i as int, f, slot);
                }
                self.slots.insert(i, slot);
                assert(self.slots@ == old(self).slots@.update(i as int, slot));
            },
            None => {
                proof {
                    lemma_no_change(self.slots@, entry.id, f);
                }
            },
        }
    }

    /// Count bytes that were relayed for an entry.
    pub fn relay(&mut self, entry: EntryId, dir: Dir, n: u64)
        requires
            old(self).wf(),
        ensures
            final(self).wf(),
            final(self)@ == change(
                old(self)@,
                entry.num(),
                |e: Entry| relayed(e, dir, n as nat),
            ),
            final(self).next() == old(self).next(),
    {
        let ghost f = |e: Entry| relayed(e, dir, n as nat);
        match self.position_of_id(entry.id) {
            Some(i) => {
                let mut slot = self.slots.remove(i);
                slot.stats.relay(dir, n);
                proof {
                    assert(slot_entry(slot) == f(slot_entry(old(self).slots@[i as int])));
                    lemma_change(old(self).slots@, i as int, f, slot);
                }
                self.slots.insert(i, slot);
                assert(self.slots@ == old(self).slots@.update(i as int, slot));
            },
            None => {
                proof {
                    lemma_no_change(self.slots@, entry.id, f);
                }
            },
        }
    }
}

// ── The listing ───────────────────────────────────────────────────────────────

/// Where listeners of a kind stand in the listing.
pub open spec fn kind_rank(kind: Seq<char>) -> int {
    if kind == "socks"@ {
        0
    } else if kind == "local-tcp"@ {
        1
    } else if kind == "local-udp"@ {
        2
    } else if kind == "remote-tcp"@ {
        3
    } else if kind == "remote-udp"@ {
        4
    } else {
        5
    }
}

/// Where listeners of a kind stand in the listing.
pub fn stats_kind_order(kind: &str) -> (r: u8)
    ensures
        r == kind_rank(kind@),
{
    let k = chars_of(kind);
    let k = k.as_slice();
    if is_text(k, "socks") {
        0
    } else if is_text(k, "local-tcp") {
        1
    } else if is_text(k, "local-udp") {
        2
    } else if is_text(k, "remote-tcp") {
        3
    } else if is_text(k, "remote-udp") {
        4
    } else {
        5
    }
}

/// Whether one entry stands before another: by kind, then by where it listens,
/// then by target.
pub open spec fn before(a: Entry, b: Entry) -> bool {
    let p = kind_rank(a.kind);
    let q = kind_rank(b.kind);
    p < q || (p == q && (text_lt(a.listen, b.listen) || (a.listen == b.listen && text_lt(
        a.target,
        b.target,
    ))))
}

/// The keys in an order in which no entry stands behind one that it should stand
/// before.
pub open spec fn is_listing(keys: Seq<Seq<char>>, m: Map<Seq<char>, Entry>) -> bool {
    &&& keys.no_duplicates()
    &&& forall|k: Seq<char>| keys.contains(k) <==> #[trigger] m.contains_key(k)
    &&& forall|i: int, j: int|
        0 <= i < j < keys.len() ==> !before(m[#[trigger] keys[j]], m[#[trigger] keys[i]])
}

/// The JSON object of an entry.
pub open spec fn entry_json(key: Seq<char>, e: Entry) -> Seq<char> {
    "{\"Key\":"@ + json_text(key) + ",\"Kind\":\""@ + e.kind + "\",\"Listen\":"@ + json_text(
        e.listen,
    ) + ",\"Target\":"@ + json_text(e.target) + ",\"ActiveConns\":"@ + dec_text(
        if e.active > 0 {
            e.active as nat
        } else {
            0
        },
    ) + ",\"TotalConns\":"@ + dec_text(e.total) + ",\"RXBytes\":"@ + dec_text(e.rx)
        + ",\"TXBytes\":"@ + dec_text(e.tx) + "}"@
}

/// The JSON objects of the entries of `keys`, with commas between them.
pub open spec fn items_json(keys: Seq<Seq<char>>, m: Map<Seq<char>, Entry>) -> Seq<char>
    decreases keys.len(),
{
    if keys.len() == 0 {
        Seq::empty()
    } else if keys.len() == 1 {
        entry_json(keys[0], m[keys[0]])
    } else {
        items_json(keys.drop_last(), m) + ","@ + entry_json(keys.last(), m[keys.last()])
    }
}

/// The JSON array of the entries of `keys`.
pub open spec fn listing_json(keys: Seq<Seq<char>>, m: Map<Seq<char>, Entry>) -> Seq<char> {
    "["@ + items_json(keys, m) + "]"@
}

/// Standing before is transitive.
pub proof fn lemma_before_transitive(a: Entry, b: Entry, c: Entry)
    requires
        !before(b, a),
        !before(c, b),
    ensures
        !before(c, a),
{
    lemma_text_lt_total(a.listen, b.listen);
    lemma_text_lt_total(b.listen, c.listen);
    lemma_text_lt_total(a.target, b.target);
    lemma_text_lt_total(b.target, c.target);
    if text_lt(a.listen, b.listen) && text_lt(b.listen, c.listen) {
        lemma_text_lt_transitive(a.listen, b.listen, c.listen);
    }
    if text_lt(a.target, b.target) && text_lt(b.target, c.target) {
        lemma_text_lt_transitive(a.target, b.target, c.target);
    }
    if text_lt(c.listen, a.listen) && text_lt(a.listen, c.listen) {
        lemma_text_lt_transitive(c.listen, a.listen, c.listen);
    }
    if text_lt(c.target, a.target) && text_lt(a.target, c.target) {
        lemma_text_lt_transitive(c.target, a.target, c.target);
    }
    lemma_text_lt_irreflexive(a.listen);
    lemma_text_lt_irreflexive(c.listen);
    lemma_text_lt_irreflexive(c.target);
}

/// No two entries each stand before the other.
pub proof fn lemma_before_asymmetric(a: Entry, b: Entry)
    requires
        before(a, b),
    ensures
        !before(b, a),
{
    if text_lt(a.listen, b.listen) && text_lt(b.listen, a.listen) {
        lemma_text_lt_transitive(a.listen, b.listen, a.listen);
    }
    if text_lt(a.target, b.target) && text_lt(b.target, a.target) {
        lemma_text_lt_transitive(a.target, b.target, a.target);
    }
    lemma_text_lt_irreflexive(a.listen);
    lemma_text_lt_irreflexive(a.target);
}

/// Whether one entry stands before another.
fn stands_before(a: &ListenerStats, b: &ListenerStats) -> (r: bool)
    ensures
        forall|i: nat, j: nat| r == before(#[trigger] a.entry(i), #[trigger] b.entry(j)),
{
    let p = stats_kind_order(a.kind);
    let q = stats_kind_order(b.kind);
    if p != q {
        return p < q;
    }
    let al = chars_of(a.listen.as_str());
    let bl = chars_of(b.listen.as_str());
    if text_before(al.as_slice(), bl.as_slice()) {
        return true;
    }
    if !same_text(a.listen.as_str(), b.listen.as_str()) {
        return false;
    }
    let at = chars_of(a.target.as_str());
    let bt = chars_of(b.target.as_str());
    text_before(at.as_slice(), bt.as_slice())
}

spec fn keys_of(order: Seq<usize>, slots: Seq<Slot>) -> Seq<Seq<char>> {
    Seq::new(order.len(), |i: int| slots[order[i] as int].stats.key@)
}

/// Whether positions are in order.
spec fn ordered(order: Seq<usize>, slots: Seq<Slot>) -> bool {
    forall|i: int, j: int|
        0 <= i < j < order.len() ==> !before(
            slot_entry(slots[#[trigger] order[j] as int]),
            slot_entry(slots[#[trigger] order[i] as int]),
        )
}

impl ListenerStatsRegistry {
    /// The positions of all slots, in order.
    fn sorted(&self) -> (order: Vec<usize>)
        ensures
            ordered(order@, self.slots@),
            order@.no_duplicates(),
            order@.len() == self.slots@.len(),
            forall|i: int| 0 <= i < order@.len() ==> (#[trigger] order@[i]) < self.slots@.len(),
            forall|k: usize| k < self.slots@.len() ==> #[trigger] order@.contains(k),
    {
        let mut order: Vec<usize> = Vec::new();
        let mut n: usize = 0;
        while n < self.slots.len()
            invariant
                n <= self.slots@.len(),
                ordered(order@, self.slots@),
                order@.no_duplicates(),
                order@.len() == n,
                forall|i: int| 0 <= i < order@.len() ==> (#[trigger] order@[i]) < n,
                forall|k: usize| k < n ==> #[trigger] order@.contains(k),
            decreases self.slots.len() - n,
        {
            let mut p: usize = order.len();
            while p > 0 && stands_before(&self.slots[n].stats, &self.slots[order[p - 1]].stats)
                invariant
                    n < self.slots@.len(),
                    p <= order@.len() == n,
                    forall|i: int| 0 <= i < order@.len() ==> (#[trigger] order@[i]) < n,
                    forall|i: int|
                        p <= i < n ==> before(
                            slot_entry(self.slots@[n as int]),
                            slot_entry(self.slots@[#[trigger] order@[i] as int]),
                        ),
                decreases p,
            {
                p -= 1;
            }
            let ghost prev = order@;
            let ghost slots = self.slots@;
            let ghost new = slot_entry(slots[n as int]);
            order.insert(p, n);
            proof {
                assert(order@ == prev.insert(p as int, n));
                assert forall|i: int, j: int| 0 <= i < j < order@.len() implies !before(
                    slot_entry(slots[#[trigger] order@[j] as int]),
                    slot_entry(slots[#[trigger] order@[i] as int]),
                ) by {
                    let pi = if i < p { i } else { i - 1 };
                    let pj = if j < p { j } else { j - 1 };
                    if i == p {
                        assert(order@[j] == prev[pj]);
                        lemma_before_asymmetric(new, slot_entry(slots[prev[pj] as int]));
                    } else if j == p {
                        assert(order@[i] == prev[pi]);
                        let last = slot_entry(slots[prev[p - 1] as int]);
                        assert(!before(new, last));
                        if pi < p - 1 {
                            assert(!before(last, slot_entry(slots[prev[pi] as int])));
                            lemma_before_transitive(slot_entry(slots[prev[pi] as int]), last, new);
                        }
                    } else {
                        assert(order@[i] == prev[pi] && order@[j] == prev[pj]);
                    }
                }
                assert(order@.no_duplicates()) by {
                    assert forall|i: int, j: int|
                        0 <= i < order@.len() && 0 <= j < order@.len() && i != j implies order@[i]
                        != order@[j] by {
                        let pi = if i < p { i } else { i - 1 };
                        let pj = if j < p { j } else { j - 1 };
                        if i != p {
                            assert(order@[i] == prev[pi]);
                        }
                        if j != p {
                            assert(order@[j] == prev[pj]);
                        }
                    }
                }
                assert forall|i: int| 0 <= i < order@.len() implies (#[trigger] order@[i]) < n + 1
                    by {
                    let pi = if i < p { i } else { i - 1 };
                    if i != p {
                        assert(order@[i] == prev[pi]);
                    }
                }
                assert forall|k: usize| k < n + 1 implies #[trigger] order@.contains(k) by {
                    if k < n {
                        assert(prev.contains(k));
                        let i = choose|i: int| 0 <= i < prev.len() && prev[i] == k;
                        let ii = if i < p { i } else { i + 1 };
                        assert(order@[ii] == k);
                    } else {
                        assert(order@[p as int] == k);
                    }
                }
            }
            n += 1;
        }
        order
    }

    /// Render the registry as a JSON array: `[{"Key","Kind","Listen","Target",
    /// "ActiveConns","TotalConns","RXBytes","TXBytes"}]`, ordered by kind, then
    /// by where the listener listens, then by target.
    pub fn to_json(&self) -> (r: String)
        requires
            self.wf(),
        ensures
            exists|keys: Seq<Seq<char>>| #[trigger]
                is_listing(keys, self@) && r@ == listing_json(keys, self@),
    {
        let order = self.sorted();
        let ghost slots = self.slots@;
        let ghost m = self@;
        let ghost keys = keys_of(order@, slots);
        let mut r = owned("[");
        let mut i: usize = 0;
        while i < order.len()
            invariant
                i <= order@.len(),
                slots == self.slots@,
                m == slot_map(slots),
                distinct(slots),
                keys == keys_of(order@, slots),
                forall|i: int| 0 <= i < order@.len() ==> (#[trigger] order@[i]) < slots.len(),
                r@ == "["@ + items_json(keys.take(i as int), m),
            decreases order.len() - i,
        {
            let ghost start = r@;
            let ghost key = keys[i as int];
            let ghost e = m[key];
            proof {
                lemma_slot(slots, order@[i as int] as int);
            }
            if i > 0 {
                push_text(&mut r, ",");
            }
            let ghost sep = if i > 0 {
                ","@
            } else {
                Seq::<char>::empty()
            };
            assert(r@ == start + sep);
            let item = self.entry_text(order[i]);
            push_text(&mut r, item.as_str());
            proof {
                let t = keys.take(i + 1);
                assert(t.drop_last() == keys.take(i as int));
                assert(t.last() == key);
                if i == 0 {
                    assert(t[0] == key);
                    assert(items_json(keys.take(0), m) == Seq::<char>::empty());
                }
                assert(r@ == "["@ + items_json(t, m));
            }
            i += 1;
        }
        push_text(&mut r, "]");
        proof {
            assert(keys.take(i as int) == keys);
            assert(is_listing(keys, m)) by {
                assert(keys.no_duplicates()) by {
                    assert forall|i: int, j: int|
                        0 <= i < keys.len() && 0 <= j < keys.len() && i != j implies keys[i]
                        != keys[j] by {
                        let a = order@[i] as int;
                        let b = order@[j] as int;
                        assert(a != b);
                        if a < b {
                            assert(pairs(slots)[a].0 != pairs(slots)[b].0);
                        } else {
                            assert(pairs(slots)[b].0 != pairs(slots)[a].0);
                        }
                    }
                }
                assert forall|k: Seq<char>| keys.contains(k) <==> #[trigger] m.contains_key(k) by {
                    if keys.contains(k) {
                        let i = choose|i: int| 0 <= i < keys.len() && keys[i] == k;
                        lemma_slot(slots, order@[i] as int);
                    }
                    if m.contains_key(k) {
                        let j = lemma_slot_of(slots, k);
                        assert(order@.contains(j as usize));
                        let i = choose|i: int| 0 <= i < order@.len() && order@[i] == j as usize;
                        assert(keys[i] == k);
                    }
                }
                assert forall|i: int, j: int| 0 <= i < j < keys.len() implies !before(
                    m[#[trigger] keys[j]],
                    m[#[trigger] keys[i]],
                ) by {
                    lemma_slot(slots, order@[i] as int);
                    lemma_slot(slots, order@[j] as int);
                    assert(!before(
                        slot_entry(slots[order@[j] as int]),
                        slot_entry(slots[order@[i] as int]),
                    ));
                }
            }
        }
        r
    }

    /// The JSON object of the entry at a position.
    fn entry_text(&self, at: usize) -> (r: String)
        requires
            at < self.slots@.len(),
        ensures
            r@ == entry_json(
                self.slots@[at as int].stats.key@,
                slot_entry(self.slots@[at as int]),
            ),
    {
        let s = &self.slots[at].stats;
        let active: u64 = if s.active > 0 {
            s.active as u64
        } else {
            0
        };
        let mut r = owned("{\"Key\":");
        push_text(&mut r, json_string(s.key.as_str()).as_str());
        push_text(&mut r, ",\"Kind\":\"");
        push_text(&mut r, s.kind);
        push_text(&mut r, "\",\"Listen\":");
        push_text(&mut r, json_string(s.listen.as_str()).as_str());
        push_text(&mut r, ",\"Target\":");
        push_text(&mut r, json_string(s.target.as_str()).as_str());
        push_text(&mut r, ",\"ActiveConns\":");
        push_decimal(&mut r, active);
        push_text(&mut r, ",\"TotalConns\":");
        push_decimal(&mut r, s.total);
        push_text(&mut r, ",\"RXBytes\":");
        push_decimal(&mut r, s.rx_bytes);
        push_text(&mut r, ",\"TXBytes\":");
        push_decimal(&mut r, s.tx_bytes);
        push_text(&mut r, "}");
        r
    }
}

// ── Connections ───────────────────────────────────────────────────────────────

/// Counts a connection as active from when it is made until it is released, and
/// takes it off the gauge exactly once, however the connection ends.
pub struct ConnGuard {
    entry: EntryId,
    held: bool,
}

impl ConnGuard {
    /// The number of the entry that the guard counts for.
    pub closed spec fn num(self) -> nat {
        self.entry.num()
    }

    /// Whether the connection still counts as active.
    pub closed spec fn held(self) -> bool {
        self.held
    }

    /// Count a connection as opened.
    pub fn new(registry: &mut ListenerStatsRegistry, entry: EntryId) -> (r: Self)
        requires
            old(registry).wf(),
        ensures
            final(registry).wf(),
            final(registry)@ == change(old(registry)@, entry.num(), |e: Entry| opened(e)),
            final(registry).next() == old(registry).next(),
            r.held(),
            r.num() == entry.num(),
    {
        registry.conn_opened(entry);
        ConnGuard { entry, held: true }
    }

    /// Count the connection as closed, where that has not been done.
    pub fn release(&mut self, registry: &mut ListenerStatsRegistry)
        requires
            old(registry).wf(),
        ensures
            final(registry).wf(),
            final(registry)@ == if old(self).held() {
                change(old(registry)@, old(self).num(), |e: Entry| closed(e))
            } else {
                old(registry)@
            },
            final(registry).next() == old(registry).next(),
            !final(self).held(),
            final(self).num() == old(self).num(),
    {
        if self.held {
            registry.conn_closed(self.entry);
            self.held = false;
        }
    }
}

// ── Copying ───────────────────────────────────────────────────────────────────

/// What happened to a copy.
#[derive(Clone, Copy)]
pub enum CopyEvent {
    /// The copy starts.
    Start,
    /// So many bytes were read; none at the end of the source.
    Read(usize),
    /// So many bytes were written.
    Written(usize),
}

/// What a copy does next.
#[derive(Clone, Copy)]
pub enum CopyAction {
    /// Read from the source, up to as many bytes as the buffer holds.
    Read,
    /// Write the first so many bytes of the buffer to the destination.
    Write(usize),
    /// The copy is over, after so many bytes.
    Done(u64),
}

/// A copy from a source to a destination that counts every byte on a listener's
/// entry.
pub struct CountingCopy {
    pub entry: EntryId,
    pub dir: Dir,
    pub total: u64,
}

/// Copy bytes one way and count them: a copy that has not begun.
pub fn counting_copy(entry: EntryId, dir: Dir) -> (r: CountingCopy)
    ensures
        r.entry == entry,
        r.dir == dir,
        r.total == 0,
{
    CountingCopy { entry, dir, total: 0 }
}

impl CountingCopy {
    /// What to do after an event. Bytes count once they have been written.
    pub fn step(&mut self, registry: &mut ListenerStatsRegistry, event: CopyEvent) -> (r:
        CopyAction)
        requires
            old(registry).wf(),
        ensures
            final(registry).wf(),
            final(registry).next() == old(registry).next(),
            final(self).entry == old(self).entry,
            final(self).dir == old(self).dir,
            match event {
                CopyEvent::Start => {
                    &&& r is Read
                    &&& final(self).total == old(self).total
                    &&& final(registry)@ == old(registry)@
                },
                CopyEvent::Read(n) => {
                    &&& r == if n == 0 {
                        CopyAction::Done(old(self).total)
                    } else {
                        CopyAction::Write(n)
                    }
                    &&& final(self).total == old(self).total
                    &&& final(registry)@ == old(registry)@
                },
                CopyEvent::Written(n) => {
                    &&& r is Read
                    &&& final(self).total == count_up(old(self).total as nat, n as nat)
                    &&& final(registry)@ == change(
                        old(registry)@,
                        old(self).entry.num(),
                        |e: Entry| relayed(e, old(self).dir, n as nat),
                    )
                },
            },
    {
        match event {
            CopyEvent::Start => CopyAction::Read,
            CopyEvent::Read(n) => {
                if n == 0 {
                    CopyAction::Done(self.total)
                } else {
                    CopyAction::Write(n)
                }
            },
            CopyEvent::Written(n) => {
                registry.relay(self.entry, self.dir, n as u64);
                self.total = add_count(self.total, n as u64);
                CopyAction::Read
            },
        }
    }
}

} // verus!
