//! The handles of running listeners, by the key that each is registered under.
use vstd::prelude::*;
use crate::keyed::{
    distinct_keys, has_key, index_of_key, lemma_at, lemma_empty, lemma_push, lemma_remove, map_of,
};
use crate::text::same_text;

verus! {

/// Handles by key.
pub struct HandleTable<H> {
    items: Vec<(String, H)>,
}

spec fn pairs<H>(items: Seq<(String, H)>) -> Seq<(Seq<char>, H)> {
    Seq::new(items.len(), |i: int| (items[i].0@, items[i].1))
}

impl<H> View for HandleTable<H> {
    type V = Map<Seq<char>, H>;

    closed spec fn view(&self) -> Map<Seq<char>, H> {
        map_of(pairs(self.items@))
    }
}

/// Whether handles are those of a table, each once, in whatever order.
pub open spec fn is_drained<H>(handles: Seq<H>, m: Map<Seq<char>, H>) -> bool {
    exists|keys: Seq<Seq<char>>| #[trigger] is_drained_as(keys, handles, m)
}

/// Whether handles are those of a table, in the order of these keys.
pub open spec fn is_drained_as<H>(
    keys: Seq<Seq<char>>,
    handles: Seq<H>,
    m: Map<Seq<char>, H>,
) -> bool {
    &&& keys.no_duplicates()
    &&& keys.len() == handles.len()
    &&& forall|k: Seq<char>| keys.contains(k) <==> #[trigger] m.contains_key(k)
    &&& forall|i: int| 0 <= i < keys.len() ==> handles[i] == m[#[trigger] keys[i]]
}

impl<H> HandleTable<H> {
    /// One handle per key.
    pub closed spec fn wf(&self) -> bool {
        distinct_keys(pairs(self.items@))
    }

    /// An empty table.
    pub fn new() -> (r: Self)
        ensures
            r.wf(),
            r@ == Map::<Seq<char>, H>::empty(),
    {
        let r = HandleTable { items: Vec::new() };
        proof {
            lemma_empty(pairs(r.items@));
        }
        r
    }

    fn position(&self, key: &str) -> (r: Option<usize>)
        requires
            self.wf(),
        ensures
            match r {
                Some(i) => {
                    &&& i < self.items@.len()
                    &&& self.items@[i as int].0@ == key@
                    &&& self@.contains_key(key@)
                    &&& self@[key@] == self.items@[i as int].1
                },
                None => !self@.contains_key(key@) && !has_key(pairs(self.items@), key@),
            },
    {
        let mut i: usize = 0;
        while i < self.items.len()
            invariant
                i <= self.items@.len(),
                self.wf(),
                forall|j: int| 0 <= j < i ==> (#[trigger] self.items@[j]).0@ != key@,
            decreases self.items.len() - i,
        {
            if same_text(self.items[i].0.as_str(), key) {
                proof {
                    lemma_at(pairs(self.items@), i as int);
                }
                return Some(i);
            }
            i += 1;
        }
        None
    }

    /// Take the handle of a key out.
    pub fn remove(&mut self, key: &str) -> (r: Option<H>)
        requires
            old(self).wf(),
        ensures
            final(self).wf(),
            final(self)@ == old(self)@.remove(key@),
            match r {
                Some(h) => old(self)@.contains_key(key@) && h == old(self)@[key@],
                None => !old(self)@.contains_key(key@),
            },
    {
        match self.position(key) {
            Some(i) => {
                let ghost before = self.items@;
                let (_, h) = self.items.remove(i);
                proof {
                    lemma_remove(pairs(before), i as int);
                    assert(pairs(self.items@) =~= pairs(before).remove(i as int));
                }
                Some(h)
            },
            None => {
                assert(self@.remove(key@) =~= self@);
                None
            },
        }
    }

    /// Put a handle under a key, in place of the one that is there.
    pub fn insert(&mut self, key: String, handle: H)
        requires
            old(self).wf(),
        ensures
            final(self).wf(),
            final(self)@ == old(self)@.insert(key@, handle),
    {
        let ghost start = self@;
        let _ = self.remove(key.as_str());
        let ghost before = self.items@;
        let ghost k = key@;
        self.items.push((key, handle));
        proof {
            assert(!has_key(pairs(before), k)) by {
                if has_key(pairs(before), k) {
                    assert(map_of(pairs(before)).contains_key(k));
                }
            }
            lemma_push(pairs(before), k, handle);
            assert(pairs(self.items@) =~= pairs(before).push((k, handle)));
            assert(start.remove(k).insert(k, handle) =~= start.insert(k, handle));
        }
    }

    /// Take all handles out.
    pub fn drain(&mut self) -> (r: Vec<H>)
        requires
            old(self).wf(),
        ensures
            final(self).wf(),
            final(self)@ == Map::<Seq<char>, H>::empty(),
            is_drained(r@, old(self)@),
    {
        let ghost all = self.items@;
        let ghost m = self@;
        let ghost keys = Seq::new(all.len(), |i: int| all[i].0@);
        let mut r: Vec<H> = Vec::new();
        assert(all.skip(0) =~= all);
        while self.items.len() > 0
            invariant
                self.items@.len() + r@.len() == all.len(),
                self.items@ == all.skip(r@.len() as int),
                forall|i: int| 0 <= i < r@.len() ==> r@[i] == (#[trigger] all[i]).1,
            decreases self.items.len(),
        {
            let (_, h) = self.items.remove(0);
            assert(h == all[r@.len() as int].1);
            r.push(h);
            assert(self.items@ =~= all.skip(r@.len() as int));
        }
        proof {
            lemma_empty(pairs(self.items@));
            let p = pairs(all);
            assert forall|i: int| 0 <= i < keys.len() implies r@[i] == m[#[trigger] keys[i]]
                && m.contains_key(keys[i]) by {
                lemma_at(p, i);
            }
            assert forall|k: Seq<char>| keys.contains(k) <==> #[trigger] m.contains_key(k) by {
                if keys.contains(k) {
                    let i = choose|i: int| 0 <= i < keys.len() && keys[i] == k;
                    lemma_at(p, i);
                }
                if m.contains_key(k) {
                    let i = index_of_key(p, k);
                    assert(has_key(p, k));
                    assert(keys[i] == k);
                }
            }
            assert(keys.no_duplicates()) by {
                assert forall|i: int, j: int|
                    0 <= i < keys.len() && 0 <= j < keys.len() && i != j implies keys[i]
                    != keys[j] by {
                    if i < j {
                        assert(p[i].0 != p[j].0);
                    } else {
                        assert(p[j].0 != p[i].0);
                    }
                }
            }
            assert(is_drained_as(keys, r@, m));
        }
        r
    }
}

} // verus!
