//! A table with one item per peer.
use vstd::prelude::*;
use crate::addr::{Endpoint, SocketAddr, same_socket};
use crate::keyed::{
    distinct_keys, has_key, lemma_at, lemma_count, lemma_empty, lemma_push, lemma_remove,
    lemma_update, map_of,
};

verus! {

/// Items by the address of the peer that they belong to.
pub struct PeerTable<V> {
    items: Vec<(SocketAddr, V)>,
}

spec fn pairs<V>(items: Seq<(SocketAddr, V)>) -> Seq<(Endpoint, V)> {
    Seq::new(items.len(), |i: int| (items[i].0@, items[i].1))
}

impl<V> View for PeerTable<V> {
    type V = Map<Endpoint, V>;

    closed spec fn view(&self) -> Map<Endpoint, V> {
        map_of(pairs(self.items@))
    }
}

impl<V: Copy> PeerTable<V> {
    /// One item per peer.
    pub closed spec fn wf(&self) -> bool {
        distinct_keys(pairs(self.items@))
    }

    /// How many items there are: as many as peers.
    pub open spec fn size(&self) -> nat {
        self@.dom().len()
    }

    /// A table holds items for finitely many peers.
    pub proof fn lemma_finite(&self)
        requires
            self.wf(),
        ensures
            self@.dom().finite(),
    {
        lemma_count(pairs(self.items@));
    }

    proof fn lemma_size(&self)
        requires
            self.wf(),
        ensures
            self.size() == self.items@.len(),
    {
        lemma_count(pairs(self.items@));
    }

    /// An empty table.
    pub fn new() -> (r: Self)
        ensures
            r.wf(),
            r@ == Map::<Endpoint, V>::empty(),
            r.size() == 0,
    {
        let r = PeerTable { items: Vec::new() };
        proof {
            lemma_empty(pairs(r.items@));
            r.lemma_size();
        }
        r
    }

    /// How many items there are.
    pub fn len(&self) -> (r: usize)
        requires
            self.wf(),
        ensures
            r == self.size(),
    {
        proof {
            self.lemma_size();
        }
        self.items.len()
    }

    fn position(&self, peer: &SocketAddr) -> (r: Option<usize>)
        requires
            self.wf(),
        ensures
            match r {
                Some(i) => {
                    &&& i < self.items@.len()
                    &&& self.items@[i as int].0@ == peer@
                    &&& self@.contains_key(peer@)
                    &&& self@[peer@] == self.items@[i as int].1
                },
                None => !self@.contains_key(peer@) && !has_key(pairs(self.items@), peer@),
            },
    {
        let mut i: usize = 0;
        while i < self.items.len()
            invariant
                i <= self.items@.len(),
                self.wf(),
                forall|j: int| 0 <= j < i ==> (#[trigger] self.items@[j]).0@ != peer@,
            decreases self.items.len() - i,
        {
            if same_socket(&self.items[i].0, peer) {
                proof {
                    lemma_at(pairs(self.items@), i as int);
                }
                return Some(i);
            }
            i += 1;
        }
        None
    }

    /// The item of a peer.
    pub fn get(&self, peer: &SocketAddr) -> (r: Option<V>)
        requires
            self.wf(),
        ensures
            match r {
                Some(v) => self@.contains_key(peer@) && v == self@[peer@],
                None => !self@.contains_key(peer@),
            },
    {
        match self.position(peer) {
            Some(i) => Some(self.items[i].1),
            None => None,
        }
    }

    /// Give a peer an item, in place of the one it has.
    pub fn insert(&mut self, peer: SocketAddr, item: V)
        requires
            old(self).wf(),
        ensures
            final(self).wf(),
            final(self)@ == old(self)@.insert(peer@, item),
            final(self).size() == old(self).size() + if old(self)@.contains_key(peer@) {
                0int
            } else {
                1int
            },
    {
        proof {
            self.lemma_size();
        }
        match self.position(&peer) {
            Some(i) => {
                proof {
                    lemma_update(pairs(self.items@), i as int, item);
                }
                let ghost before = self.items@;
                self.items.set(i, (peer, item));
                assert(pairs(self.items@) == pairs(before).update(i as int, (peer@, item)));
            },
            None => {
                proof {
                    lemma_push(pairs(self.items@), peer@, item);
                }
                let ghost before = self.items@;
                self.items.push((peer, item));
                assert(pairs(self.items@) == pairs(before).push((peer@, item)));
            },
        }
        proof {
            self.lemma_size();
        }
    }

    /// Take a peer's item out.
    pub fn remove(&mut self, peer: &SocketAddr)
        requires
            old(self).wf(),
        ensures
            final(self).wf(),
            final(self)@ == old(self)@.remove(peer@),
            final(self).size() == old(self).size() - if old(self)@.contains_key(peer@) {
                1int
            } else {
                0int
            },
    {
        proof {
            self.lemma_size();
        }
        match self.position(peer) {
            Some(i) => {
                proof {
                    lemma_remove(pairs(self.items@), i as int);
                }
                let ghost before = self.items@;
                let _ = self.items.remove(i);
                assert(pairs(self.items@) == pairs(before).remove(i as int));
            },
            None => {
                assert(old(self)@.remove(peer@) =~= old(self)@);
            },
        }
        proof {
            self.lemma_size();
        }
    }

    /// Take any one item out.
    pub fn pop(&mut self) -> (r: Option<(SocketAddr, V)>)
        requires
            old(self).wf(),
        ensures
            final(self).wf(),
            match r {
                Some(p) => {
                    &&& old(self)@.contains_key(p.0@)
                    &&& old(self)@[p.0@] == p.1
                    &&& final(self)@ == old(self)@.remove(p.0@)
                    &&& final(self).size() + 1 == old(self).size()
                },
                None => {
                    &&& old(self).size() == 0
                    &&& old(self)@ == Map::<Endpoint, V>::empty()
                    &&& final(self)@ == old(self)@
                    &&& final(self).size() == 0
                },
            },
    {
        let ghost before = self.items@;
        proof {
            self.lemma_size();
        }
        match self.items.pop() {
            Some(p) => {
                proof {
                    let n = before.len() - 1;
                    lemma_at(pairs(before), n);
                    lemma_remove(pairs(before), n);
                    assert(pairs(self.items@) == pairs(before).remove(n));
                    self.lemma_size();
                }
                Some(p)
            },
            None => {
                proof {
                    lemma_empty(pairs(before));
                }
                None
            },
        }
    }
}

} // verus!
