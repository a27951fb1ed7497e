//! Which background tiles of the map overview have been drawn or asked for.
use crate::coords::ChunkCoords;
use crate::data_map::coords_of;
use crate::table::CoordMap;
use vstd::prelude::*;

verus! {

/// Background tiles already drawn, and those waiting to be drawn.
pub struct BackgroundHypertileTracker {
    spawned: CoordMap<()>,
    requested: CoordMap<()>,
}

impl BackgroundHypertileTracker {
    pub closed spec fn wf(&self) -> bool {
        self.spawned.wf() && self.requested.wf()
    }

    /// The tiles already drawn.
    pub closed spec fn spawned_set(&self) -> Set<(isize, isize)> {
        self.spawned@.dom()
    }

    /// The tiles waiting to be drawn.
    pub closed spec fn requested_set(&self) -> Set<(isize, isize)> {
        self.requested@.dom()
    }

    pub fn new() -> (r: Self)
        ensures
            r.wf(),
            r.spawned_set() == Set::<(isize, isize)>::empty(),
            r.requested_set() == Set::<(isize, isize)>::empty(),
    {
        let r = BackgroundHypertileTracker { spawned: CoordMap::new(), requested: CoordMap::new() };
        assert(r.spawned_set() =~= Set::<(isize, isize)>::empty());
        assert(r.requested_set() =~= Set::<(isize, isize)>::empty());
        r
    }

    /// Asks for tile `coords` unless it is drawn or already asked for.
    pub fn require(&mut self, coords: ChunkCoords)
        requires
            old(self).wf(),
        ensures
            final(self).wf(),
            final(self).spawned_set() == old(self).spawned_set(),
            final(self).requested_set() == (if old(self).spawned_set().contains(coords.key()) {
                old(self).requested_set()
            } else {
                old(self).requested_set().insert(coords.key())
            }),
    {
        let k = (coords.x, coords.y);
        if self.spawned.contains_key(k) || self.requested.contains_key(k) {
            assert(self.requested_set() =~= old(self).requested_set().insert(coords.key()) || self.spawned_set().contains(coords.key()));
            return;
        }
        self.requested.insert(k, ());
        assert(self.requested_set() =~= old(self).requested_set().insert(coords.key()));
    }

    /// Counts every requested tile as drawn and clears the requests.
    pub fn mark_all_requests_as_completed(&mut self)
        requires
            old(self).wf(),
        ensures
            final(self).wf(),
            final(self).spawned_set() == old(self).spawned_set().union(old(self).requested_set()),
            final(self).requested_set() == Set::<(isize, isize)>::empty(),
    {
        let keys = self.requested.keys();
        let mut i: usize = 0;
        while i < keys.len()
            invariant
                self.spawned.wf(),
                0 <= i <= keys@.len(),
                forall|k: (isize, isize)| #[trigger] keys@.contains(k) <==> old(self).requested@.contains_key(k),
                self.spawned@.dom() == old(self).spawned@.dom().union(keys@.subrange(0, i as int).to_set()),
            decreases keys@.len() - i,
        {
            self.spawned.insert(keys[i], ());
            proof {
                crate::lifecycle::lemma_prefix_step(keys@, i as int);
                assert(keys@.subrange(0, i + 1).to_set() =~= keys@.subrange(0, i as int).to_set().insert(keys@[i as int]));
            }
            i = i + 1;
            assert(self.spawned@.dom() =~= old(self).spawned@.dom().union(keys@.subrange(0, i as int).to_set()));
        }
        assert(keys@.subrange(0, i as int) =~= keys@);
        assert(keys@.to_set() =~= old(self).requested@.dom());
        self.requested = CoordMap::new();
        assert(self.requested_set() =~= Set::<(isize, isize)>::empty());
    }

    /// Asks for tile `coords` again, drawn or not, so that it is redrawn.
    pub fn request_again(&mut self, coords: ChunkCoords)
        requires
            old(self).wf(),
        ensures
            final(self).wf(),
            final(self).spawned_set() == old(self).spawned_set(),
            final(self).requested_set() == old(self).requested_set().insert(coords.key()),
    {
        self.requested.insert((coords.x, coords.y), ());
        assert(self.requested_set() =~= old(self).requested_set().insert(coords.key()));
    }

    /// The tiles waiting to be drawn, each once.
    pub fn requested_coords(&self) -> (r: Vec<ChunkCoords>)
        requires
            self.wf(),
        ensures
            forall|j: int| 0 <= j < r@.len() ==> self.requested_set().contains(#[trigger] r@[j].key()),
            forall|k: (isize, isize)| self.requested_set().contains(k) ==> exists|j: int| 0 <= j < r@.len() && #[trigger] r@[j].key() == k,
    {
        let keys = self.requested.keys();
        let r = coords_of(&keys);
        assert forall|j: int| 0 <= j < r@.len() implies self.requested_set().contains(#[trigger] r@[j].key()) by {
            assert(keys@.contains(keys@[j]));
        }
        assert forall|k: (isize, isize)| self.requested_set().contains(k) implies exists|j: int| 0 <= j < r@.len() && #[trigger] r@[j].key() == k by {
            assert(keys@.contains(k));
        }
        r
    }

    /// Whether tile `coords` has been drawn.
    pub fn is_spawned(&self, coords: ChunkCoords) -> (r: bool)
        requires
            self.wf(),
        ensures
            r == self.spawned_set().contains(coords.key()),
    {
        self.spawned.contains_key((coords.x, coords.y))
    }
}

} // verus!
