use vstd::prelude::*;

use crate::protocol::UserId;

verus! {

/// A map from user ids to values, kept as two parallel vectors in the order
/// in which the keys were first inserted.
pub struct UserTable<V> {
    keys: Vec<UserId>,
    vals: Vec<V>,
    model: Ghost<Map<UserId, V>>,
}

impl<V> View for UserTable<V> {
    type V = Map<UserId, V>;

    closed spec fn view(&self) -> Map<UserId, V> {
        self.model@
    }
}

impl<V> UserTable<V> {
    /// The table's internal consistency: one entry per key, and the vectors
    /// agree with the map they stand for.
    pub closed spec fn wf(&self) -> bool {
        &&& self.keys@.len() == self.vals@.len()
        &&& self.keys@.no_duplicates()
        &&& forall|u: UserId| #[trigger] self.model@.contains_key(u) <==> self.keys@.contains(u)
        &&& forall|i: int|
            0 <= i < self.keys@.len() ==> #[trigger] self.model@[self.keys@[i]] == self.vals@[i]
    }

    /// The keys in table order.
    pub closed spec fn key_seq(&self) -> Seq<UserId> {
        self.keys@
    }

    /// The keys in table order are exactly the keys of the map, each once.
    pub proof fn lemma_keys(&self)
        requires
            self.wf(),
        ensures
            self.key_seq().no_duplicates(),
            self.key_seq().len() == self@.dom().len(),
            forall|u: UserId| #[trigger] self@.contains_key(u) <==> self.key_seq().contains(u),
    {
        self.keys@.unique_seq_to_set();
        assert(self.keys@.to_set() =~= self@.dom());
    }

    /// An empty table.
    pub fn new() -> (r: UserTable<V>)
        ensures
            r.wf(),
            r@ == Map::<UserId, V>::empty(),
    {
        UserTable { keys: Vec::new(), vals: Vec::new(), model: Ghost(Map::empty()) }
    }

    fn position(&self, u: UserId) -> (r: Option<usize>)
        requires
            self.wf(),
        ensures
            match r {
                Some(i) => i < self.keys@.len() && self.keys@[i as int] == u,
                None => !self.keys@.contains(u),
            },
    {
        let mut i: usize = 0;
        while i < self.keys.len()
            invariant
                self.wf(),
                i <= self.keys@.len(),
                forall|j: int| 0 <= j < i ==> self.keys@[j] != u,
            decreases self.keys@.len() - i,
        {
            if self.keys[i] == u {
                return Some(i);
            }
            i = i + 1;
        }
        None
    }

    /// Number of entries.
    pub fn len(&self) -> (r: usize)
        requires
            self.wf(),
        ensures
            r == self@.dom().len(),
            r == self.key_seq().len(),
    {
        proof {
            self.lemma_keys();
        }
        self.keys.len()
    }

    /// Whether the table has an entry for `u`.
    pub fn contains_key(&self, u: UserId) -> (r: bool)
        requires
            self.wf(),
        ensures
            r == self@.contains_key(u),
    {
        self.position(u).is_some()
    }

    /// The entry for `u`, if any.
    pub fn get(&self, u: UserId) -> (r: Option<&V>)
        requires
            self.wf(),
        ensures
            match r {
                Some(v) => self@.contains_key(u) && *v == self@[u],
                None => !self@.contains_key(u),
            },
    {
        match self.position(u) {
            Some(i) => Some(&self.vals[i]),
            None => None,
        }
    }

    /// The key at position `i` in table order.
    pub fn key_at(&self, i: usize) -> (r: UserId)
        requires
            self.wf(),
            i < self.key_seq().len(),
        ensures
            r == self.key_seq()[i as int],
            self@.contains_key(r),
    {
        self.keys[i]
    }

    /// The value at position `i` in table order.
    pub fn value_at(&self, i: usize) -> (r: &V)
        requires
            self.wf(),
            i < self.key_seq().len(),
        ensures
            *r == self@[self.key_seq()[i as int]],
    {
        &self.vals[i]
    }

    /// Sets the entry for `u` to `v`, replacing any earlier one.
    pub fn insert(&mut self, u: UserId, v: V)
        requires
            old(self).wf(),
        ensures
            final(self).wf(),
            final(self)@ == old(self)@.insert(u, v),
    {
        let ghost m = self.model@.insert(u, v);
        match self.position(u) {
            Some(i) => {
                self.vals.set(i, v);
                self.model = Ghost(m);
                assert forall|j: int| 0 <= j < self.keys@.len() implies #[trigger] self.model@[self.keys@[j]] == self.vals@[j] by {
                    if j != i {
                        assert(self.keys@[j] != self.keys@[i as int]);
                    }
                }
            },
            None => {
                self.keys.push(u);
                self.vals.push(v);
                self.model = Ghost(m);
                assert forall|w: UserId| #[trigger] self.model@.contains_key(w) implies self.keys@.contains(w) by {
                    if w != u {
                        let k = choose|k: int| 0 <= k < old(self).keys@.len() && old(self).keys@[k] == w;
                        assert(self.keys@[k] == w);
                    } else {
                        assert(self.keys@[self.keys@.len() - 1] == w);
                    }
                }
                assert forall|j: int| 0 <= j < self.keys@.len() implies #[trigger] self.model@[self.keys@[j]] == self.vals@[j] by {
                    if j < self.keys@.len() - 1 {
                        assert(self.keys@[j] == old(self).keys@[j]);
                        assert(old(self).keys@.contains(self.keys@[j]));
                    }
                }
            },
        }
    }

    /// Takes out the entry for `u`, handing back its value.
    pub fn remove(&mut self, u: UserId) -> (r: Option<V>)
        requires
            old(self).wf(),
        ensures
            final(self).wf(),
            final(self)@ == old(self)@.remove(u),
            match r {
                Some(v) => old(self)@.contains_key(u) && v == old(self)@[u],
                None => !old(self)@.contains_key(u),
            },
    {
        match self.position(u) {
            Some(i) => {
                let ghost old_keys = self.keys@;
                self.keys.remove(i);
                let v = self.vals.remove(i);
                self.model = Ghost(self.model@.remove(u));
                assert forall|w: UserId| #[trigger] self.model@.contains_key(w) <==> self.keys@.contains(w) by {
                    if self.keys@.contains(w) {
                        let k = choose|k: int| 0 <= k < self.keys@.len() && self.keys@[k] == w;
                        if k < i {
                            assert(old_keys[k] == w);
                        } else {
                            assert(old_keys[k + 1] == w);
                        }
                        assert(old_keys.contains(w));
                    }
                    if self.model@.contains_key(w) {
                        let k = choose|k: int| 0 <= k < old_keys.len() && old_keys[k] == w;
                        if k < i {
                            assert(self.keys@[k] == w);
                        } else {
                            assert(self.keys@[k - 1] == w);
                        }
                    }
                }
                assert forall|j: int| 0 <= j < self.keys@.len() implies #[trigger] self.model@[self.keys@[j]] == self.vals@[j] by {
                    if j < i {
                        assert(self.keys@[j] == old_keys[j]);
                        assert(old(self).model@[old_keys[j]] == old(self).vals@[j]);
                    } else {
                        assert(self.keys@[j] == old_keys[j + 1]);
                        assert(old(self).model@[old_keys[j + 1]] == old(self).vals@[j + 1]);
                    }
                }
                Some(v)
            },
            None => {
                assert(self.model@.remove(u) =~= self.model@);
                None
            },
        }
    }
}

} // verus!
