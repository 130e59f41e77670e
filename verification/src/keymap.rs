//! A finite map from keys to values, stored as an association list.
use vstd::prelude::*;

verus! {

/// Keys of a [`KeyMap`]: comparison by view, decided by executable code.
pub trait MapKey: View + Sized {
    fn key_eq(&self, other: &Self) -> (r: bool)
        ensures
            r == (self@ == other@),
    ;
}

/// Whether key `k` occurs in `ps`.
pub open spec fn has_key<A, B>(ps: Seq<(A, B)>, k: A) -> bool {
    exists|i: int| 0 <= i < ps.len() && #[trigger] ps[i].0 == k
}

/// The position of key `k` in `ps`.
pub open spec fn key_pos<A, B>(ps: Seq<(A, B)>, k: A) -> int {
    choose|i: int| 0 <= i < ps.len() && #[trigger] ps[i].0 == k
}

/// The pairs after storing `v` under `k`: replaced in place, or appended.
pub open spec fn pairs_after_insert<A, B>(ps: Seq<(A, B)>, k: A, v: B) -> Seq<(A, B)> {
    if has_key(ps, k) {
        ps.update(key_pos(ps, k), (k, v))
    } else {
        ps.push((k, v))
    }
}

/// The pairs after removing key `k`.
pub open spec fn pairs_after_remove<A, B>(ps: Seq<(A, B)>, k: A) -> Seq<(A, B)> {
    if has_key(ps, k) {
        ps.remove(key_pos(ps, k))
    } else {
        ps
    }
}

/// A finite map from keys to values.  Each key occurs at most once.
pub struct KeyMap<K: MapKey, V> {
    entries: Vec<(K, V)>,
    contents: Ghost<Map<K::V, V>>,
}

impl<K: MapKey, V> View for KeyMap<K, V> {
    type V = Map<K::V, V>;

    closed spec fn view(&self) -> Map<K::V, V> {
        self.contents@
    }
}

impl<K: MapKey, V> KeyMap<K, V> {
    #[verifier::type_invariant]
    closed spec fn inv(self) -> bool {
        &&& self.contents@.dom().finite()
        &&& self.contents@.len() == self.entries@.len()
        &&& forall|i: int, j: int|
            0 <= i < j < self.entries@.len() ==> #[trigger] self.entries@[i].0@
                != #[trigger] self.entries@[j].0@
        &&& forall|i: int|
            0 <= i < self.entries@.len() ==> {
                &&& self.contents@.contains_key(#[trigger] self.entries@[i].0@)
                &&& self.contents@[self.entries@[i].0@] == self.entries@[i].1
            }
        &&& forall|k: K::V| #[trigger]
            self.contents@.contains_key(k) ==> exists|i: int|
                0 <= i < self.entries@.len() && #[trigger] self.entries@[i].0@ == k
    }

    /// The number of entries.
    pub closed spec fn spec_len(&self) -> nat {
        self.entries@.len()
    }

    /// The key stored at position `i` of the association list.
    pub closed spec fn key_at(&self, i: int) -> K::V {
        self.entries@[i].0@
    }

    /// The (key, value) pairs in the order the association list keeps them.
    pub closed spec fn pairs(&self) -> Seq<(K::V, V)> {
        self.entries@.map_values(|e: (K, V)| (e.0@, e.1))
    }

    /// An empty map.
    pub fn new() -> (m: Self)
        ensures
            m@ == Map::<K::V, V>::empty(),
            m.spec_len() == 0,
            m.pairs() == Seq::<(K::V, V)>::empty(),
    {
        let m = KeyMap { entries: Vec::new(), contents: Ghost(Map::empty()) };
        proof {
            assert(m.pairs() =~= Seq::<(K::V, V)>::empty());
        }
        m
    }

    /// The number of keys; equal to the size of the map's domain.
    pub fn len(&self) -> (n: usize)
        ensures
            n == self.spec_len(),
            n == self.pairs().len(),
            forall|i: int| 0 <= i < n ==> #[trigger] self.pairs()[i] == (self.key_at(i), self@[self.key_at(i)]),
            n == self@.len(),
            self@.dom().finite(),
            forall|k: K::V|
                self@.contains_key(k) ==> exists|i: int|
                    0 <= i < self.spec_len() && #[trigger] self.key_at(i) == k,
            forall|i: int|
                0 <= i < self.spec_len() ==> self@.contains_key(#[trigger] self.key_at(i)),
            forall|i: int, j: int|
                0 <= i < j < self.spec_len() ==> #[trigger] self.key_at(i) != #[trigger] self.key_at(
                    j,
                ),
    {
        proof {
            use_type_invariant(self);
            assert forall|k: K::V| self@.contains_key(k) implies exists|i: int|
                0 <= i < self.spec_len() && #[trigger] self.key_at(i) == k by {
                let i = choose|i: int| 0 <= i < self.entries@.len() && self.entries@[i].0@ == k;
                assert(self.key_at(i) == k);
            }
        }
        self.entries.len()
    }

    /// Position of `k` in the association list, if present.
    fn find(&self, k: &K) -> (r: Option<usize>)
        ensures
            match r {
                Some(i) => i < self.entries@.len() && self.entries@[i as int].0@ == k@,
                None => !self@.contains_key(k@),
            },
    {
        proof {
            use_type_invariant(self);
        }
        let mut i: usize = 0;
        while i < self.entries.len()
            invariant
                i <= self.entries@.len(),
                forall|j: int| 0 <= j < i ==> self.entries@[j].0@ != k@,
            decreases self.entries@.len() - i,
        {
            if self.entries[i].0.key_eq(k) {
                return Some(i);
            }
            i = i + 1;
        }
        None
    }

    /// Whether `k` is a key of the map.
    pub fn contains_key(&self, k: &K) -> (r: bool)
        ensures
            r == self@.contains_key(k@),
    {
        proof {
            use_type_invariant(self);
        }
        match self.find(k) {
            Some(_) => true,
            None => false,
        }
    }

    /// The value stored under `k`, if any.
    pub fn get(&self, k: &K) -> (r: Option<&V>)
        ensures
            match r {
                Some(v) => self@.contains_key(k@) && *v == self@[k@],
                None => !self@.contains_key(k@),
            },
    {
        proof {
            use_type_invariant(self);
        }
        match self.find(k) {
            Some(i) => Some(&self.entries[i].1),
            None => None,
        }
    }

    /// The key and value at position `i` of the association list.
    pub fn entry_at(&self, i: usize) -> (r: (&K, &V))
        requires
            i < self.spec_len(),
        ensures
            r.0@ == self.key_at(i as int),
            self@.contains_key(r.0@),
            *r.1 == self@[r.0@],
    {
        proof {
            use_type_invariant(self);
        }
        let e = &self.entries[i];
        (&e.0, &e.1)
    }

    /// Store `v` under `k`, replacing any earlier value.
    pub fn insert(&mut self, k: K, v: V)
        ensures
            final(self)@ == old(self)@.insert(k@, v),
            final(self).pairs() == pairs_after_insert(old(self).pairs(), k@, v),
            old(self)@.contains_key(k@) == has_key(old(self).pairs(), k@),
            has_key(old(self).pairs(), k@) ==> old(self).pairs()[key_pos(old(self).pairs(), k@)].1 == old(
                self)@[k@],
    {
        proof {
            use_type_invariant(&*self);
        }
        let ghost old_map = self.contents@;
        let ghost old_entries = self.entries@;
        let ghost kv = k@;
        let ghost new_map = old_map.insert(kv, v);
        let pos = self.find(&k);
        let mut taken = KeyMap::new();
        std::mem::swap(self, &mut taken);
        let KeyMap { mut entries, contents: _ } = taken;
        match pos {
            Some(i) => {
                entries.set(i, (k, v));
                proof {
                    let ops = old_entries.map_values(|e: (K, V)| (e.0@, e.1));
                    assert(ops[i as int].0 == kv);
                    assert(has_key(ops, kv));
                    let j = key_pos(ops, kv);
                    assert(ops[j].0 == kv);
                    if j != i as int {
                        assert(old_entries[j].0@ == old_entries[i as int].0@);
                        if j < i {
                        } else {
                        }
                    }
                    assert(j == i);
                    assert(entries@.map_values(|e: (K, V)| (e.0@, e.1)) =~= ops.update(i as int, (kv, v)));
                    assert(old_map.contains_key(kv));
                    assert(new_map.len() == old_map.len()) by {
                        assert(new_map.dom() =~= old_map.dom());
                    }
                    assert forall|j: int| 0 <= j < entries@.len() implies {
                        &&& new_map.contains_key(#[trigger] entries@[j].0@)
                        &&& new_map[entries@[j].0@] == entries@[j].1
                    } by {
                        if j != i {
                            assert(entries@[j] == old_entries[j]);
                            assert(old_entries[j].0@ != old_entries[i as int].0@);
                        }
                    }
                    assert forall|a: int, b: int|
                        0 <= a < b < entries@.len() implies #[trigger] entries@[a].0@
                        != #[trigger] entries@[b].0@ by {
                        assert(entries@[a].0@ == old_entries[a].0@);
                        assert(entries@[b].0@ == old_entries[b].0@);
                    }
                    assert forall|kk: K::V| #[trigger] new_map.contains_key(kk) implies exists|j: int|
                        0 <= j < entries@.len() && #[trigger] entries@[j].0@ == kk by {
                        if kk == kv {
                            assert(entries@[i as int].0@ == kk);
                        } else {
                            let j = choose|j: int|
                                0 <= j < old_entries.len() && old_entries[j].0@ == kk;
                            assert(entries@[j].0@ == kk);
                        }
                    }
                }
                *self = KeyMap { entries, contents: Ghost(new_map) };
            },
            None => {
                entries.push((k, v));
                proof {
                    let ops = old_entries.map_values(|e: (K, V)| (e.0@, e.1));
                    assert(!has_key(ops, kv)) by {
                        if has_key(ops, kv) {
                            let j = choose|j: int| 0 <= j < ops.len() && #[trigger] ops[j].0 == kv;
                            assert(old_map.contains_key(old_entries[j].0@));
                        }
                    }
                    assert(entries@.map_values(|e: (K, V)| (e.0@, e.1)) =~= ops.push((kv, v)));
                    let n = old_entries.len() as int;
                    assert(entries@[n].0@ == kv);
                    assert forall|j: int| 0 <= j < entries@.len() implies {
                        &&& new_map.contains_key(#[trigger] entries@[j].0@)
                        &&& new_map[entries@[j].0@] == entries@[j].1
                    } by {
                        if j != n {
                            assert(entries@[j] == old_entries[j]);
                            assert(old_map.contains_key(old_entries[j].0@));
                        }
                    }
                    assert forall|kk: K::V| #[trigger] new_map.contains_key(kk) implies exists|j: int|
                        0 <= j < entries@.len() && #[trigger] entries@[j].0@ == kk by {
                        if kk == kv {
                            assert(entries@[n].0@ == kk);
                        } else {
                            let j = choose|j: int|
                                0 <= j < old_entries.len() && old_entries[j].0@ == kk;
                            assert(entries@[j].0@ == kk);
                        }
                    }
                    assert forall|a: int, b: int|
                        0 <= a < b < entries@.len() implies #[trigger] entries@[a].0@
                        != #[trigger] entries@[b].0@ by {
                        if b == n {
                            assert(old_map.contains_key(old_entries[a].0@));
                        }
                    }
                }
                *self = KeyMap { entries, contents: Ghost(new_map) };
            },
        }
        proof {
            let ops = old(self).pairs();
            assert(old(self)@.contains_key(k@) == has_key(ops, k@) && (has_key(ops, k@) ==> ops[key_pos(
                ops,
                k@,
            )].1 == old(self)@[k@])) by {
                if old(self)@.contains_key(k@) {
                    let i = choose|i: int| 0 <= i < old_entries.len() && #[trigger] old_entries[i].0@ == k@;
                    assert(ops[i].0 == k@);
                }
                if has_key(ops, k@) {
                    let j = key_pos(ops, k@);
                    assert(ops[j].0 == old_entries[j].0@);
                }
            }
        }
    }

    /// Remove `k` from the map, returning its value if it was present.
    pub fn remove(&mut self, k: &K) -> (r: Option<V>)
        ensures
            final(self)@ == old(self)@.remove(k@),
            final(self).pairs() == pairs_after_remove(old(self).pairs(), k@),
            match r {
                Some(v) => old(self)@.contains_key(k@) && v == old(self)@[k@],
                None => !old(self)@.contains_key(k@),
            },
    {
        proof {
            use_type_invariant(&*self);
        }
        let ghost old_map = self.contents@;
        let ghost old_entries = self.entries@;
        let ghost kv = k@;
        match self.find(k) {
            Some(i) => {
                let ghost new_map = old_map.remove(kv);
                let mut taken = KeyMap::new();
                std::mem::swap(self, &mut taken);
                let KeyMap { mut entries, contents: _ } = taken;
                let e = entries.remove(i);
                proof {
                    let ops = old_entries.map_values(|e: (K, V)| (e.0@, e.1));
                    assert(ops[i as int].0 == kv);
                    assert(has_key(ops, kv));
                    let j = key_pos(ops, kv);
                    assert(ops[j].0 == kv);
                    if j != i as int {
                        assert(old_entries[j].0@ == old_entries[i as int].0@);
                    }
                    assert(j == i);
                    assert(entries@.map_values(|e: (K, V)| (e.0@, e.1)) =~= ops.remove(i as int));
                    assert(entries@ == old_entries.remove(i as int));
                    assert forall|kk: K::V| #[trigger] new_map.contains_key(kk) implies exists|j: int|
                        0 <= j < entries@.len() && #[trigger] entries@[j].0@ == kk by {
                        let j = choose|j: int|
                            0 <= j < old_entries.len() && old_entries[j].0@ == kk;
                        if j < i {
                            assert(entries@[j].0@ == kk);
                        } else {
                            assert(j != i);
                            assert(entries@[j - 1].0@ == kk);
                        }
                    }
                    assert forall|a: int, b: int|
                        0 <= a < b < entries@.len() implies #[trigger] entries@[a].0@
                        != #[trigger] entries@[b].0@ by {
                        let a2 = if a < i { a } else { a + 1 };
                        let b2 = if b < i { b } else { b + 1 };
                        assert(entries@[a] == old_entries[a2]);
                        assert(entries@[b] == old_entries[b2]);
                    }
                    assert forall|j: int| 0 <= j < entries@.len() implies {
                        &&& new_map.contains_key(#[trigger] entries@[j].0@)
                        &&& new_map[entries@[j].0@] == entries@[j].1
                    } by {
                        let j2 = if j < i { j } else { j + 1 };
                        assert(entries@[j] == old_entries[j2]);
                        assert(old_entries[j2].0@ != old_entries[i as int].0@);
                    }
                }
                *self = KeyMap { entries, contents: Ghost(new_map) };
                Some(e.1)
            },
            None => {
                proof {
                    assert(old_map.remove(kv) =~= old_map);
                    let ops = old_entries.map_values(|e: (K, V)| (e.0@, e.1));
                    assert(!has_key(ops, kv)) by {
                        if has_key(ops, kv) {
                            let j = choose|j: int| 0 <= j < ops.len() && #[trigger] ops[j].0 == kv;
                            assert(old_map.contains_key(old_entries[j].0@));
                        }
                    }
                }
                None
            },
        }
    }
}

} // verus!
