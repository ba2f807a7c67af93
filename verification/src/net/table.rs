use vstd::prelude::*;

verus! {

/// The key of a table entry: a host name, as characters, and a port.
pub type HostPort = (Seq<char>, u16);

/// A finite map keyed by host name and port, kept as a list of entries in
/// which no key occurs twice.
///
/// vstd specifies std's `HashMap` only for key types whose hashing it models
/// (`obeys_key_model`): integers, `bool` and boxes of them, not a pair of a
/// `String` and a port, nor a request type with its own equality. Its
/// `StringHashMap` keys by one string alone. Lookups here are linear in the
/// number of entries, which stays small: the lookups a node has in flight.
#[verifier::reject_recursive_types(V)]
pub struct HostPortTable<V> {
    entries: Vec<(String, u16, V)>,
}

impl<V> View for HostPortTable<V> {
    type V = Map<HostPort, V>;

    closed spec fn view(&self) -> Map<HostPort, V> {
        Map::new(
            |k: HostPort| self.has_key(k),
            |k: HostPort| self.entries@[self.position(k)].2,
        )
    }
}

impl<V> HostPortTable<V> {
    /// The key of the entry at position `i`.
    pub closed spec fn key_at(&self, i: int) -> HostPort {
        (self.entries@[i].0@, self.entries@[i].1)
    }

    /// The value of the entry at position `i`.
    pub closed spec fn value_at(&self, i: int) -> V {
        self.entries@[i].2
    }

    /// The number of entries.
    pub closed spec fn size(&self) -> nat {
        self.entries@.len()
    }

    closed spec fn has_key(&self, k: HostPort) -> bool {
        exists|i: int| 0 <= i < self.entries@.len() && self.key_at(i) == k
    }

    closed spec fn position(&self, k: HostPort) -> int {
        choose|i: int| 0 <= i < self.entries@.len() && self.key_at(i) == k
    }

    /// No key occurs in two entries.
    pub closed spec fn wf(&self) -> bool {
        forall|i: int, j: int|
            0 <= i < self.entries@.len() && 0 <= j < self.entries@.len() && i != j ==> self.key_at(i)
                != self.key_at(j)
    }

    /// Positions `0..size()` are exactly the keys of the map, one each.
    pub proof fn lemma_positions(&self)
        requires
            self.wf(),
        ensures
            forall|i: int| 0 <= i < self.size() ==> #[trigger] self@.contains_key(self.key_at(i)),
            forall|i: int|
                0 <= i < self.size() ==> #[trigger] self@[self.key_at(i)] == self.value_at(i),
            forall|k: HostPort|
                #[trigger] self@.contains_key(k) ==> exists|i: int|
                    0 <= i < self.size() && self.key_at(i) == k,
    {
        assert forall|i: int| 0 <= i < self.size() implies #[trigger] self@[self.key_at(i)]
            == self.value_at(i) by {
            let k = self.key_at(i);
            assert(self.has_key(k));
            let j = self.position(k);
            assert(self.key_at(j) == k);
        }
        assert forall|i: int| 0 <= i < self.size() implies #[trigger] self@.contains_key(
            self.key_at(i),
        ) by {
            assert(self.has_key(self.key_at(i)));
        }
    }

    /// An empty table.
    pub fn new() -> (t: Self)
        ensures
            t.wf(),
            t@ == Map::<HostPort, V>::empty(),
            t.size() == 0,
    {
        let t = HostPortTable { entries: Vec::new() };
        assert(t@ =~= Map::<HostPort, V>::empty());
        t
    }

    /// The number of entries.
    pub fn len(&self) -> (n: usize)
        ensures
            n == self.size(),
    {
        self.entries.len()
    }

    /// The position of the entry for `(host, port)`, if there is one.
    pub fn find(&self, host: &str, port: u16) -> (r: Option<usize>)
        requires
            self.wf(),
        ensures
            match r {
                Some(i) => i < self.size() && self.key_at(i as int) == (host@, port),
                None => !self@.contains_key((host@, port)),
            },
    {
        proof {
            self.lemma_positions();
        }
        let wanted = host.to_owned();
        let n = self.entries.len();
        let mut i: usize = 0;
        while i < n
            invariant
                n == self.size(),
                wanted@ == host@,
                0 <= i <= n,
                forall|j: int| 0 <= j < i ==> self.key_at(j) != (host@, port),
            decreases n - i,
        {
            if self.entries[i].1 == port && self.entries[i].0 == wanted {
                return Some(i);
            }
            i = i + 1;
        }
        None
    }
}


impl<V> HostPortTable<V> {
    /// The value stored for `(host, port)`, if any.
    pub fn get(&self, host: &str, port: u16) -> (r: Option<&V>)
        requires
            self.wf(),
        ensures
            match r {
                Some(v) => self@.contains_key((host@, port)) && *v == self@[(host@, port)],
                None => !self@.contains_key((host@, port)),
            },
    {
        proof {
            self.lemma_positions();
        }
        match self.find(host, port) {
            Some(i) => Some(&self.entries[i].2),
            None => None,
        }
    }

    /// Whether the table has an entry for `(host, port)`.
    pub fn contains_key(&self, host: &str, port: u16) -> (b: bool)
        requires
            self.wf(),
        ensures
            b == self@.contains_key((host@, port)),
    {
        proof {
            self.lemma_positions();
        }
        self.find(host, port).is_some()
    }

    /// The entry at position `i`: its host, its port and its value.
    pub fn entry(&self, i: usize) -> (r: (&String, u16, &V))
        requires
            i < self.size(),
        ensures
            (r.0@, r.1) == self.key_at(i as int),
            *r.2 == self.value_at(i as int),
    {
        let e = &self.entries[i];
        (&e.0, e.1, &e.2)
    }

    /// Replaces the value of the entry at position `i`.
    pub fn set_value(&mut self, i: usize, value: V)
        requires
            old(self).wf(),
            i < old(self).size(),
        ensures
            final(self).wf(),
            final(self).size() == old(self).size(),
            forall|j: int| 0 <= j < old(self).size() ==> #[trigger] final(self).key_at(j) == old(self).key_at(j),
            forall|j: int| 0 <= j < old(self).size() && j != i ==> #[trigger] final(self).value_at(j) == old(self).value_at(j),
            final(self).value_at(i as int) == value,
            final(self)@ == old(self)@.insert(old(self).key_at(i as int), value),
    {
        proof {
            self.lemma_positions();
        }
        let ghost before = *self;
        let taken = self.entries.remove(i);
        let (host, port, _old_value) = taken;
        self.entries.insert(i, (host, port, value));
        proof {
            assert(self.entries@ =~= before.entries@.update(i as int, (taken.0, taken.1, value)));
            assert forall|j: int| 0 <= j < self.size() implies #[trigger] self.key_at(j) == before.key_at(j) by {}
            self.lemma_positions();
            let k = before.key_at(i as int);
            assert forall|key: HostPort| #[trigger] self@.contains_key(key) == before@.insert(k, value).contains_key(key) by {
                if before@.contains_key(key) {
                    let j = choose|j: int| 0 <= j < before.size() && before.key_at(j) == key;
                    assert(self.key_at(j) == key);
                }
                if self@.contains_key(key) {
                    let j = choose|j: int| 0 <= j < self.size() && self.key_at(j) == key;
                    assert(before.key_at(j) == key);
                }
            }
            assert forall|key: HostPort| #[trigger] self@.contains_key(key) implies self@[key] == before@.insert(k, value)[key] by {
                let j = choose|j: int| 0 <= j < self.size() && self.key_at(j) == key;
                assert(self@[self.key_at(j)] == self.value_at(j));
                if j != i {
                    assert(before@[before.key_at(j)] == before.value_at(j));
                }
            }
            assert(self@ =~= before@.insert(k, value));
        }
    }

    /// Stores `value` under `(host, port)`: in place of the old value where
    /// the key has an entry, else in a new entry at the end.
    pub fn insert(&mut self, host: String, port: u16, value: V)
        requires
            old(self).wf(),
        ensures
            final(self).wf(),
            final(self)@ == old(self)@.insert((host@, port), value),
    {
        match self.find(host.as_str(), port) {
            Some(i) => {
                self.set_value(i, value);
            },
            None => {
                proof {
                    self.lemma_positions();
                }
                let ghost before = *self;
                let ghost k = (host@, port);
                self.entries.push((host, port, value));
                proof {
                    assert forall|j: int| 0 <= j < before.size() implies #[trigger] self.key_at(j) == before.key_at(j) by {}
                    assert(self.key_at(before.size() as int) == k);
                    assert(self.wf());
                    self.lemma_positions();
                    assert forall|key: HostPort| #[trigger] self@.contains_key(key) == before@.insert(k, value).contains_key(key) by {
                        if before@.contains_key(key) {
                            let j = choose|j: int| 0 <= j < before.size() && before.key_at(j) == key;
                            assert(self.key_at(j) == key);
                        }
                        if self@.contains_key(key) && key != k {
                            let j = choose|j: int| 0 <= j < self.size() && self.key_at(j) == key;
                            assert(before.key_at(j) == key);
                        }
                    }
                    assert forall|key: HostPort| #[trigger] self@.contains_key(key) implies self@[key] == before@.insert(k, value)[key] by {
                        let j = choose|j: int| 0 <= j < self.size() && self.key_at(j) == key;
                        assert(self@[self.key_at(j)] == self.value_at(j));
                        if key != k {
                            assert(before@[before.key_at(j)] == before.value_at(j));
                        }
                    }
                    assert(self@ =~= before@.insert(k, value));
                }
            },
        }
    }

    /// Takes the entry for `(host, port)` out of the table, giving back its
    /// value; where there is none, leaves the table as it is.
    pub fn remove(&mut self, host: &str, port: u16) -> (r: Option<V>)
        requires
            old(self).wf(),
        ensures
            final(self).wf(),
            final(self)@ == old(self)@.remove((host@, port)),
            match r {
                Some(v) => old(self)@.contains_key((host@, port)) && v == old(self)@[(host@, port)],
                None => !old(self)@.contains_key((host@, port)),
            },
    {
        match self.find(host, port) {
            Some(i) => {
                proof {
                    self.lemma_positions();
                }
                let ghost before = *self;
                let ghost k = (host@, port);
                let taken = self.entries.remove(i);
                proof {
                    assert forall|j: int| 0 <= j < self.size() implies #[trigger] self.key_at(j) == before.key_at(if j < i { j } else { j + 1 }) by {}
                    assert(self.wf()) by {
                        assert forall|a: int, b: int| 0 <= a < self.size() && 0 <= b < self.size() && a != b implies self.key_at(a) != self.key_at(b) by {
                            let a0 = if a < i { a } else { a + 1 };
                            let b0 = if b < i { b } else { b + 1 };
                            assert(self.key_at(a) == before.key_at(a0));
                            assert(self.key_at(b) == before.key_at(b0));
                        }
                    }
                    self.lemma_positions();
                    assert forall|key: HostPort| #[trigger] self@.contains_key(key) == before@.remove(k).contains_key(key) by {
                        if before@.contains_key(key) && key != k {
                            let j = choose|j: int| 0 <= j < before.size() && before.key_at(j) == key;
                            assert(j != i);
                            let j2 = if j < i { j } else { j - 1 };
                            assert(self.key_at(j2) == key);
                        }
                        if self@.contains_key(key) {
                            let j = choose|j: int| 0 <= j < self.size() && self.key_at(j) == key;
                            let j0 = if j < i { j } else { j + 1 };
                            assert(before.key_at(j0) == key);
                            assert(j0 != i);
                        }
                    }
                    assert forall|key: HostPort| #[trigger] self@.contains_key(key) implies self@[key] == before@.remove(k)[key] by {
                        let j = choose|j: int| 0 <= j < self.size() && self.key_at(j) == key;
                        let j0 = if j < i { j } else { j + 1 };
                        assert(self@[self.key_at(j)] == self.value_at(j));
                        assert(before.key_at(j0) == key);
                        assert(before@[before.key_at(j0)] == before.value_at(j0));
                    }
                    assert(self@ =~= before@.remove(k));
                }
                Some(taken.2)
            },
            None => {
                proof {
                    assert(self@.remove((host@, port)) =~= self@);
                }
                None
            },
        }
    }

    /// Removes every entry.
    pub fn clear(&mut self)
        ensures
            final(self).wf(),
            final(self)@ == Map::<HostPort, V>::empty(),
    {
        self.entries.clear();
        assert(self@ =~= Map::<HostPort, V>::empty());
    }
}

} // verus!
