//! A map keyed by integer coordinate pairs: entries kept in a `Vec`, found
//! through a bevy hash map from key to position.
use bevy::platform::collections::HashMap;
use bevy::platform::hash::FixedHasher;
use vstd::prelude::*;

verus! {

/// bevy's fixed-seed hasher, the default hasher of its `HashMap`; opaque here.
#[verifier::external_type_specification]
#[verifier::external_body]
pub struct ExFixedHasher(FixedHasher);

/// bevy's `HashMap` (a hashbrown map); opaque here, its contents are named by
/// `positions_of` for the one instance used.
#[verifier::external_type_specification]
#[verifier::external_body]
#[verifier::reject_recursive_types(K)]
#[verifier::reject_recursive_types(V)]
#[verifier::reject_recursive_types(S)]
pub struct ExHashMap<K, V, S>(HashMap<K, V, S>);

/// A hash map from a key to the position of its entry.
pub type PositionIndex = HashMap<(isize, isize), usize>;

/// What a position index holds: each key with the position of its entry.
pub uninterp spec fn positions_of(m: PositionIndex) -> Map<(isize, isize), usize>;

/// Relies on bevy's `HashMap::new`: the new map is empty.
#[verifier::external_body]
fn positions_new() -> (r: PositionIndex)
    ensures
        positions_of(r).dom().len() == 0,
        positions_of(r).dom().finite(),
{
    HashMap::new()
}

/// Relies on bevy's `HashMap::get`: the value stored under `k`, if any.
#[verifier::external_body]
fn positions_get(m: &PositionIndex, k: (isize, isize)) -> (r: Option<usize>)
    ensures
        r == (if positions_of(*m).contains_key(k) {
            Some(positions_of(*m)[k])
        } else {
            None
        }),
{
    m.get(&k).copied()
}

/// Relies on bevy's `HashMap::insert`: afterwards `k` maps to `v`, the other keys unchanged.
#[verifier::external_body]
fn positions_insert(m: &mut PositionIndex, k: (isize, isize), v: usize)
    ensures
        positions_of(*final(m)) == positions_of(*old(m)).insert(k, v),
{
    m.insert(k, v);
}

/// Relies on bevy's `HashMap::remove`: afterwards `k` is absent, the other keys unchanged.
#[verifier::external_body]
fn positions_remove(m: &mut PositionIndex, k: (isize, isize))
    ensures
        positions_of(*final(m)) == positions_of(*old(m)).remove(k),
{
    m.remove(&k);
}

/// A finite map from coordinate pairs to values.
pub struct CoordMap<V> {
    entries: Vec<((isize, isize), V)>,
    positions: PositionIndex,
}

impl<V> CoordMap<V> {
    /// The position index and the entries agree: each indexed key points at
    /// its own entry, and each entry is indexed at its own position.
    pub closed spec fn wf(&self) -> bool {
        let pos = positions_of(self.positions);
        &&& forall|k: (isize, isize)|
            #[trigger] pos.contains_key(k) ==> pos[k] < self.entries@.len()
                && self.entries@[pos[k] as int].0 == k
        &&& forall|i: int|
            0 <= i < self.entries@.len() ==> pos.contains_key(#[trigger] self.entries@[i].0)
                && pos[self.entries@[i].0] == i
    }

    pub closed spec fn view(&self) -> Map<(isize, isize), V> {
        let pos = positions_of(self.positions);
        Map::new(|k: (isize, isize)| pos.contains_key(k), |k: (isize, isize)| self.entries@[pos[k] as int].1)
    }

    pub fn new() -> (r: CoordMap<V>)
        ensures
            r.wf(),
            r@ == Map::<(isize, isize), V>::empty(),
    {
        let r = CoordMap { entries: Vec::new(), positions: positions_new() };
        assert(r@ =~= Map::<(isize, isize), V>::empty());
        r
    }

    pub fn len(&self) -> (r: usize)
        requires
            self.wf(),
        ensures
            r == self@.len(),
    {
        proof {
            self.lemma_len();
        }
        self.entries.len()
    }

    proof fn lemma_len(&self)
        requires
            self.wf(),
        ensures
            self@.dom().finite(),
            self@.len() == self.entries@.len(),
    {
        let keys = self.entries@.map_values(|e: ((isize, isize), V)| e.0);
        assert forall|i: int, j: int| 0 <= i < keys.len() && 0 <= j < keys.len() && i != j implies keys[i]
            != keys[j] by {
            assert(self.entries@[i].0 == keys[i]);
            assert(self.entries@[j].0 == keys[j]);
        }
        assert(keys.no_duplicates());
        assert forall|k: (isize, isize)| self@.dom().contains(k) <==> keys.contains(k) by {
            if self@.dom().contains(k) {
                let i = positions_of(self.positions)[k] as int;
                assert(keys[i] == k);
            }
            if keys.contains(k) {
                let i = choose|i: int| 0 <= i < keys.len() && keys[i] == k;
                assert(self.entries@[i].0 == k);
            }
        }
        assert(self@.dom() =~= keys.to_set());
        keys.unique_seq_to_set();
    }

    pub fn contains_key(&self, k: (isize, isize)) -> (r: bool)
        requires
            self.wf(),
        ensures
            r == self@.contains_key(k),
    {
        positions_get(&self.positions, k).is_some()
    }

    pub fn get(&self, k: (isize, isize)) -> (r: Option<&V>)
        requires
            self.wf(),
        ensures
            r is Some <==> self@.contains_key(k),
            r matches Some(v) ==> *v == self@[k],
    {
        match positions_get(&self.positions, k) {
            Some(i) => Some(&self.entries[i].1),
            None => None,
        }
    }

    /// Stores `v` under `k`, replacing any earlier value.
    pub fn insert(&mut self, k: (isize, isize), v: V)
        requires
            old(self).wf(),
        ensures
            final(self).wf(),
            final(self)@ == old(self)@.insert(k, v),
    {
        match positions_get(&self.positions, k) {
            Some(i) => {
                self.entries.set(i, (k, v));
            },
            None => {
                let i = self.entries.len();
                self.entries.push((k, v));
                positions_insert(&mut self.positions, k, i);
            },
        }
        assert(self@ =~= old(self)@.insert(k, v));
    }

    /// Removes the entry under `k`, returning its value if there was one.
    pub fn remove(&mut self, k: (isize, isize)) -> (r: Option<V>)
        requires
            old(self).wf(),
        ensures
            final(self).wf(),
            final(self)@ == old(self)@.remove(k),
            r == (if old(self)@.contains_key(k) {
                Some(old(self)@[k])
            } else {
                None
            }),
    {
        match positions_get(&self.positions, k) {
            None => {
                assert(self@ =~= old(self)@.remove(k));
                None
            },
            Some(i) => {
                let last = self.entries.len() - 1;
                let (_, v) = self.entries.swap_remove(i);
                positions_remove(&mut self.positions, k);
                if i < last {
                    let moved: (isize, isize) = self.entries[i].0;
                    positions_insert(&mut self.positions, moved, i);
                }
                proof {
                    let pos0 = positions_of(old(self).positions);
                    let pos = positions_of(self.positions);
                    assert forall|j: int| 0 <= j < self.entries@.len() implies pos.contains_key(
                        #[trigger] self.entries@[j].0,
                    ) && pos[self.entries@[j].0] == j by {
                        if j != i {
                            assert(self.entries@[j] == old(self).entries@[j]);
                            assert(pos0[old(self).entries@[j].0] == j);
                        }
                    }
                    assert forall|q: (isize, isize)| #[trigger] pos.contains_key(q) implies pos[q]
                        < self.entries@.len() && self.entries@[pos[q] as int].0 == q by {
                        if q != k && !(i < last && q == self.entries@[i as int].0) {
                            assert(pos0.contains_key(q));
                            let jq = pos0[q] as int;
                            assert(old(self).entries@[jq].0 == q);
                            if jq == last {
                                assert(old(self).entries@[last as int].0 == self.entries@[i as int].0);
                            }
                        }
                    }
                    assert(self@ =~= old(self)@.remove(k));
                }
                Some(v)
            },
        }
    }

    /// Every key, each once, in no particular order.
    pub fn keys(&self) -> (r: Vec<(isize, isize)>)
        requires
            self.wf(),
        ensures
            r@.no_duplicates(),
            forall|k: (isize, isize)| #[trigger] r@.contains(k) <==> self@.contains_key(k),
    {
        let mut r: Vec<(isize, isize)> = Vec::new();
        let mut i: usize = 0;
        while i < self.entries.len()
            invariant
                self.wf(),
                i <= self.entries@.len(),
                r@.len() == i,
                forall|j: int| 0 <= j < i ==> r@[j] == #[trigger] self.entries@[j].0,
            decreases self.entries@.len() - i,
        {
            r.push(self.entries[i].0);
            i = i + 1;
        }
        proof {
            let pos = positions_of(self.positions);
            assert forall|a: int, b: int| 0 <= a < r@.len() && 0 <= b < r@.len() && a != b implies r@[a]
                != r@[b] by {
                assert(r@[a] == self.entries@[a].0);
                assert(r@[b] == self.entries@[b].0);
            }
            assert forall|k: (isize, isize)| #[trigger] r@.contains(k) <==> self@.contains_key(k) by {
                if self@.contains_key(k) {
                    assert(r@[pos[k] as int] == k);
                }
                if r@.contains(k) {
                    let j = choose|j: int| 0 <= j < r@.len() && r@[j] == k;
                    assert(self.entries@[j].0 == k);
                }
            }
        }
        r
    }
}

impl<V: Copy> CoordMap<V> {
    /// A separate map with the same entries.
    pub fn duplicate(&self) -> (r: CoordMap<V>)
        requires
            self.wf(),
        ensures
            r.wf(),
            r@ == self@,
    {
        let keys = self.keys();
        let mut r: CoordMap<V> = CoordMap::new();
        let mut i: usize = 0;
        while i < keys.len()
            invariant
                self.wf(),
                r.wf(),
                0 <= i <= keys@.len(),
                forall|k: (isize, isize)| #[trigger] keys@.contains(k) <==> self@.contains_key(k),
                r@ == self@.restrict(keys@.subrange(0, i as int).to_set()),
            decreases keys@.len() - i,
        {
            let k = keys[i];
            assert(keys@.contains(k));
            match self.get(k) {
                Some(v) => {
                    r.insert(k, *v);
                },
                None => {},
            }
            proof {
                assert forall|q: (isize, isize)| #[trigger] keys@.subrange(0, i + 1).to_set().contains(q) <==> (
                keys@.subrange(0, i as int).to_set().contains(q) || q == k) by {
                    crate::lifecycle::lemma_prefix_step(keys@, i as int);
                }
            }
            i = i + 1;
            assert(r@ =~= self@.restrict(keys@.subrange(0, i as int).to_set()));
        }
        assert(keys@.subrange(0, i as int) =~= keys@);
        assert(r@ =~= self@);
        r
    }
}

} // verus!
