//! The single-buffered chunked map: loaded chunks, requests, running
//! generation jobs and queued writes, with point-addressed reads and writes.
use crate::coords::{local_from_tile, ChunkCoords, Point};
use crate::grid::DataChunk;
use crate::lifecycle::{evict_outside, flush_queue_into, request_chunk, request_square, start_requested};
use crate::model::{
    ceil_div, lemma_box_point_of_cell, lemma_complete_wf, lemma_focus_wf, lemma_init_wf, lemma_request_wf,
    lemma_reveal_wf, lemma_spawn_wf, lemma_write_wf, square_around, MapModel,
};
use crate::producer::MapDataProducer;
use crate::table::CoordMap;
use vstd::prelude::*;

verus! {

/// `d * d <= usize::MAX` keeps a chunk side within `isize`.
pub proof fn lemma_side_fits_isize(d: int)
    requires
        0 < d,
        d * d <= usize::MAX,
    ensures
        d <= isize::MAX,
{
    if d > isize::MAX {
        assert(d * d >= d * (isize::MAX + 1)) by (nonlinear_arith)
            requires
                d > isize::MAX,
        ;
        assert(d * (isize::MAX + 1) > usize::MAX) by (nonlinear_arith)
            requires
                d > isize::MAX,
                isize::MAX + 1 >= 2,
                usize::MAX == 2 * isize::MAX + 1,
        ;
    }
}

/// The number of chunks, `ceil(tiles / d)`, that covers `tiles` tiles.
pub fn chunks_covering(tiles: usize, d: usize) -> (r: usize)
    requires
        d > 0,
    ensures
        r == ceil_div(tiles as int, d as int),
{
    let q = tiles / d;
    if tiles % d == 0 {
        q
    } else {
        proof {
            assert(q < usize::MAX) by (nonlinear_arith)
                requires
                    q == tiles / d,
                    d > 0,
                    tiles % d != 0,
                    tiles <= usize::MAX,
            {
                if d == 1 {
                    assert(tiles % 1 == 0);
                }
                vstd::arithmetic::div_mod::lemma_div_is_ordered_by_denominator(tiles as int, 1, d as int);
                assert(tiles / 2 < usize::MAX);
            }
        }
        q + 1
    }
}

/// The chunk coordinates of a list of keys, in the same order.
pub fn coords_of(keys: &Vec<(isize, isize)>) -> (r: Vec<ChunkCoords>)
    ensures
        r@.len() == keys@.len(),
        forall|j: int| 0 <= j < r@.len() ==> #[trigger] r@[j].key() == keys@[j],
        forall|k: (isize, isize)| keys@.contains(k) ==> exists|j: int| 0 <= j < r@.len() && #[trigger] r@[j].key() == k,
{
    let mut r: Vec<ChunkCoords> = Vec::new();
    let mut i: usize = 0;
    while i < keys.len()
        invariant
            i <= keys@.len(),
            r@.len() == i,
            forall|j: int| 0 <= j < i ==> #[trigger] r@[j].key() == keys@[j],
        decreases keys@.len() - i,
    {
        r.push(ChunkCoords { x: keys[i].0, y: keys[i].1 });
        i = i + 1;
    }
    assert forall|k: (isize, isize)| keys@.contains(k) implies exists|j: int| 0 <= j < r@.len() && #[trigger] r@[j].key() == k by {
        let j = choose|j: int| 0 <= j < keys@.len() && keys@[j] == k;
        assert(r@[j].key() == k);
    }
    r
}

/// The chunked map for one kind of cell.
pub struct DataMap<P: MapDataProducer> {
    loaded_chunks: CoordMap<DataChunk<P::Item>>,
    requested_chunks: CoordMap<()>,
    pending_tasks: CoordMap<()>,
    write_queue: CoordMap<P::Item>,
    producer: P,
    chunk_dimension_tiles: usize,
    render_distance_chunks: usize,
}

impl<P: MapDataProducer> DataMap<P> {
    pub closed spec fn view(&self) -> MapModel<P::Item> {
        MapModel {
            loaded: Map::new(
                |c: (isize, isize)| self.loaded_chunks@.contains_key(c),
                |c: (isize, isize)| self.loaded_chunks@[c].grid@,
            ),
            requested: self.requested_chunks@.dom(),
            pending: self.pending_tasks@.dom(),
            queue: self.write_queue@,
            dim: self.chunk_dimension_tiles as int,
            default: self.producer.spec_default_value(),
        }
    }

    pub closed spec fn wf(&self) -> bool {
        &&& self.loaded_chunks.wf()
        &&& self.requested_chunks.wf()
        &&& self.pending_tasks.wf()
        &&& self.write_queue.wf()
        &&& self@.wf()
        &&& forall|c: (isize, isize)| #[trigger]
            self.loaded_chunks@.contains_key(c) ==> self.loaded_chunks@[c].grid.wf()
                && self.loaded_chunks@[c].grid.side() == self.chunk_dimension_tiles
    }

    /// The map's well-formedness gives that of its model: positive chunk
    /// side, cells of the right count, lifecycle stages apart, no queued write
    /// in a loaded chunk.
    pub proof fn lemma_view_wf(&self)
        requires
            self.wf(),
        ensures
            self@.wf(),
    {
    }

    /// The producer this map generates chunks with.
    pub closed spec fn spec_producer(&self) -> P {
        self.producer
    }

    /// The loader radius, in chunks.
    pub closed spec fn spec_render_distance(&self) -> nat {
        self.render_distance_chunks as nat
    }

    /// Whether the configuration fields are those of `other`.
    pub open spec fn same_config(&self, other: &Self) -> bool {
        &&& self.spec_producer() == other.spec_producer()
        &&& self.spec_render_distance() == other.spec_render_distance()
        &&& self@.dim == other@.dim
        &&& self@.default == other@.default
    }

    /// An empty map with chunks of `chunk_dimension_tiles` tiles a side.
    pub fn new(producer: P, chunk_dimension_tiles: usize, render_distance_chunks: usize) -> (r: Self)
        requires
            0 < chunk_dimension_tiles,
            chunk_dimension_tiles * chunk_dimension_tiles <= usize::MAX,
        ensures
            r.wf(),
            r@.loaded == Map::<(isize, isize), Seq<P::Item>>::empty(),
            r@.requested == Set::<(isize, isize)>::empty(),
            r@.pending == Set::<(isize, isize)>::empty(),
            r@.queue == Map::<(isize, isize), P::Item>::empty(),
            r@.dim == chunk_dimension_tiles,
            r@.default == producer.spec_default_value(),
            r.spec_producer() == producer,
            r.spec_render_distance() == render_distance_chunks,
    {
        proof {
            lemma_side_fits_isize(chunk_dimension_tiles as int);
        }
        let r = DataMap {
            loaded_chunks: CoordMap::new(),
            requested_chunks: CoordMap::new(),
            pending_tasks: CoordMap::new(),
            write_queue: CoordMap::new(),
            producer,
            chunk_dimension_tiles,
            render_distance_chunks,
        };
        assert(r@.loaded =~= Map::<(isize, isize), Seq<P::Item>>::empty());
        assert(r@.requested =~= Set::<(isize, isize)>::empty());
        assert(r@.pending =~= Set::<(isize, isize)>::empty());
        r
    }

    pub fn chunk_dimension_tiles(&self) -> (r: usize)
        ensures
            r == self@.dim,
    {
        self.chunk_dimension_tiles
    }

    pub fn render_distance_chunks(&self) -> (r: usize)
        ensures
            r == self.spec_render_distance(),
    {
        self.render_distance_chunks
    }

    pub fn producer(&self) -> (r: &P)
        ensures
            *r == self.spec_producer(),
    {
        &self.producer
    }

    /// The coordinates of every loaded chunk, each once.
    pub fn loaded_chunk_coords(&self) -> (r: Vec<ChunkCoords>)
        requires
            self.wf(),
        ensures
            forall|j: int| 0 <= j < r@.len() ==> self@.loaded.contains_key(#[trigger] r@[j].key()),
            forall|k: (isize, isize)| self@.loaded.contains_key(k) ==> exists|j: int| 0 <= j < r@.len() && #[trigger] r@[j].key() == k,
    {
        let keys = self.loaded_chunks.keys();
        let r = coords_of(&keys);
        assert forall|j: int| 0 <= j < r@.len() implies self.loaded_chunks@.contains_key(#[trigger] r@[j].key()) by {
            assert(keys@.contains(keys@[j]));
        }
        assert forall|k: (isize, isize)| self.loaded_chunks@.contains_key(k) implies exists|j: int| 0 <= j < r@.len() && #[trigger] r@[j].key() == k by {
            assert(keys@.contains(k));
        }
        r
    }

    /// The coordinates of every requested chunk, each once.
    pub fn requested_chunk_coords(&self) -> (r: Vec<ChunkCoords>)
        requires
            self.wf(),
        ensures
            forall|j: int| 0 <= j < r@.len() ==> self@.requested.contains(#[trigger] r@[j].key()),
            forall|k: (isize, isize)| self@.requested.contains(k) ==> exists|j: int| 0 <= j < r@.len() && #[trigger] r@[j].key() == k,
    {
        let keys = self.requested_chunks.keys();
        let r = coords_of(&keys);
        assert forall|j: int| 0 <= j < r@.len() implies self.requested_chunks@.contains_key(#[trigger] r@[j].key()) by {
            assert(keys@.contains(keys@[j]));
        }
        assert forall|k: (isize, isize)| self.requested_chunks@.contains_key(k) implies exists|j: int| 0 <= j < r@.len() && #[trigger] r@[j].key() == k by {
            assert(keys@.contains(k));
        }
        r
    }

    /// The coordinates of every chunk being generated, each once.
    pub fn pending_chunk_coords(&self) -> (r: Vec<ChunkCoords>)
        requires
            self.wf(),
        ensures
            forall|j: int| 0 <= j < r@.len() ==> self@.pending.contains(#[trigger] r@[j].key()),
            forall|k: (isize, isize)| self@.pending.contains(k) ==> exists|j: int| 0 <= j < r@.len() && #[trigger] r@[j].key() == k,
    {
        let keys = self.pending_tasks.keys();
        let r = coords_of(&keys);
        assert forall|j: int| 0 <= j < r@.len() implies self.pending_tasks@.contains_key(#[trigger] r@[j].key()) by {
            assert(keys@.contains(keys@[j]));
        }
        assert forall|k: (isize, isize)| self.pending_tasks@.contains_key(k) implies exists|j: int| 0 <= j < r@.len() && #[trigger] r@[j].key() == k by {
            assert(keys@.contains(k));
        }
        r
    }

    /// Every point with a queued write, each once.
    pub fn queued_points(&self) -> (r: Vec<Point>)
        requires
            self.wf(),
        ensures
            forall|j: int| 0 <= j < r@.len() ==> self@.queue.contains_key(#[trigger] r@[j].key()),
            forall|k: (isize, isize)| self@.queue.contains_key(k) ==> exists|j: int| 0 <= j < r@.len() && #[trigger] r@[j].key() == k,
    {
        let keys = self.write_queue.keys();
        let mut r: Vec<Point> = Vec::new();
        let mut i: usize = 0;
        while i < keys.len()
            invariant
                i <= keys@.len(),
                r@.len() == i,
                forall|j: int| 0 <= j < i ==> #[trigger] r@[j].key() == keys@[j],
            decreases keys@.len() - i,
        {
            r.push(Point { x: keys[i].0, y: keys[i].1 });
            i = i + 1;
        }
        assert forall|j: int| 0 <= j < r@.len() implies self.write_queue@.contains_key(#[trigger] r@[j].key()) by {
            assert(keys@.contains(keys@[j]));
        }
        assert forall|k: (isize, isize)| self.write_queue@.contains_key(k) implies exists|j: int| 0 <= j < r@.len() && #[trigger] r@[j].key() == k by {
            assert(keys@.contains(k));
            let j = choose|j: int| 0 <= j < keys@.len() && keys@[j] == k;
            assert(r@[j].key() == k);
        }
        r
    }

    fn chunk_key_of(&self, point: Point) -> (r: (isize, isize))
        requires
            self.wf(),
        ensures
            r == self@.chunk_key(point),
    {
        let c = ChunkCoords::from_point(point, self.chunk_dimension_tiles);
        (c.x, c.y)
    }

    /// The cell of a loaded chunk at `point`, which lies in that chunk.
    fn cell_of(&self, chunk: &DataChunk<P::Item>, point: Point) -> (r: Option<P::Item>)
        requires
            self.wf(),
            chunk.grid.wf(),
            chunk.grid.side() == self@.dim,
        ensures
            r == Some(chunk.grid@[self@.cell_index(point)]),
    {
        let (lx, ly) = local_from_tile(point, self.chunk_dimension_tiles);
        match chunk.grid.get_item(lx, ly) {
            Some(v) => Some(*v),
            None => None,
        }
    }

    fn request(&mut self, c: (isize, isize))
        requires
            old(self).wf(),
        ensures
            final(self).wf(),
            final(self)@ == old(self)@.request(c),
            final(self).same_config(old(self)),
    {
        request_chunk(&mut self.requested_chunks, &self.loaded_chunks, &self.pending_tasks, c);
        proof {
            lemma_request_wf(old(self)@, c);
            assert(self@.requested =~= old(self)@.request(c).requested);
            assert(self@.loaded =~= old(self)@.loaded);
        }
    }

    /// The value at `point`; on a miss, requests the chunk and returns the
    /// producer's default.
    pub fn get(&mut self, point: Point) -> (r: P::Item)
        requires
            old(self).wf(),
        ensures
            final(self).wf(),
            r == old(self)@.get_value(point),
            final(self)@ == old(self)@.after_get(point),
            final(self).same_config(old(self)),
    {
        match self.get_option(point) {
            Some(v) => v,
            None => self.producer.default_value(),
        }
    }

    /// The value at `point`, or `None` on a miss, which requests the chunk.
    pub fn get_option(&mut self, point: Point) -> (r: Option<P::Item>)
        requires
            old(self).wf(),
        ensures
            final(self).wf(),
            r == old(self)@.lookup(point),
            final(self)@ == old(self)@.after_get(point),
            final(self).same_config(old(self)),
    {
        let found = self.read(point);
        if found.is_none() {
            let c = self.chunk_key_of(point);
            self.request(c);
        }
        found
    }

    /// The value at `point`, or `None` on a miss; never requests anything.
    pub fn read(&self, point: Point) -> (r: Option<P::Item>)
        requires
            self.wf(),
        ensures
            r == self@.lookup(point),
    {
        match self.write_queue.get((point.x, point.y)) {
            Some(v) => {
                return Some(*v);
            },
            None => {},
        }
        let c = self.chunk_key_of(point);
        match self.loaded_chunks.get(c) {
            Some(chunk) => self.cell_of(chunk, point),
            None => None,
        }
    }

    /// Writes `value` at `point`: into the loaded chunk, or into the write
    /// queue together with a request for the chunk.
    pub fn write(&mut self, point: Point, value: P::Item)
        requires
            old(self).wf(),
        ensures
            final(self).wf(),
            final(self)@ == old(self)@.after_write(point, value),
            final(self).same_config(old(self)),
    {
        let c = self.chunk_key_of(point);
        proof {
            lemma_write_wf(old(self)@, point, value);
            lemma_box_point_of_cell(old(self)@, point);
        }
        if self.loaded_chunks.contains_key(c) {
            let (lx, ly) = local_from_tile(point, self.chunk_dimension_tiles);
            match self.loaded_chunks.remove(c) {
                Some(chunk) => {
                    let mut chunk = chunk;
                    chunk.grid.set_item(lx, ly, value);
                    self.loaded_chunks.insert(c, chunk);
                },
                None => {},
            }
            self.write_queue.remove((point.x, point.y));
            proof {
                assert(self@.loaded =~= old(self)@.after_write(point, value).loaded);
                assert(self@.queue =~= old(self)@.after_write(point, value).queue);
            }
        } else {
            self.write_queue.insert((point.x, point.y), value);
            proof {
                let mid = MapModel { queue: old(self)@.queue.insert(point.key(), value), ..old(self)@ };
                assert(self@.loaded =~= mid.loaded);
                assert(self@ == mid);
            }
            self.request(c);
        }
    }

    /// Requests every chunk within `ceil(tiles / dimension)` chunks of the
    /// origin (a square) that is neither loaded nor being generated.
    pub fn init(&mut self, manhattan_distance_tiles: usize)
        requires
            old(self).wf(),
        ensures
            final(self).wf(),
            final(self)@ == old(self)@.after_init(manhattan_distance_tiles as int),
            final(self).same_config(old(self)),
    {
        let n = chunks_covering(manhattan_distance_tiles, self.chunk_dimension_tiles);
        request_square(&mut self.requested_chunks, &self.loaded_chunks, &self.pending_tasks, (0, 0), n);
        proof {
            lemma_init_wf(old(self)@, manhattan_distance_tiles as int);
            assert(self@.requested =~= old(self)@.after_init(manhattan_distance_tiles as int).requested);
            assert(self@.loaded =~= old(self)@.loaded);
        }
    }

    /// The loader pass for a focus that shares the map with others: requests
    /// every chunk within the render distance of `focus`, evicting nothing.
    pub fn request_around(&mut self, focus: ChunkCoords)
        requires
            old(self).wf(),
        ensures
            final(self).wf(),
            final(self)@ == old(self)@.after_reveal(focus.key(), old(self).spec_render_distance() as int),
            final(self).same_config(old(self)),
    {
        request_square(
            &mut self.requested_chunks,
            &self.loaded_chunks,
            &self.pending_tasks,
            (focus.x, focus.y),
            self.render_distance_chunks,
        );
        proof {
            let r = old(self).spec_render_distance() as int;
            lemma_reveal_wf(old(self)@, focus.key(), r);
            assert(self@.requested =~= old(self)@.after_reveal(focus.key(), r).requested);
            assert(self@.loaded =~= old(self)@.loaded);
        }
    }

    /// The loader pass for a single focus: evicts every loaded chunk beyond
    /// the render distance of `focus`, then requests every chunk within it.
    pub fn load_unload_around(&mut self, focus: ChunkCoords)
        requires
            old(self).wf(),
        ensures
            final(self).wf(),
            final(self)@ == old(self)@.after_focus(focus.key(), old(self).spec_render_distance() as int),
            final(self).same_config(old(self)),
    {
        let ghost r = old(self).spec_render_distance() as int;
        let ghost sq = square_around(focus.key(), r);
        evict_outside(&mut self.loaded_chunks, (focus.x, focus.y), self.render_distance_chunks);
        let ghost kept = MapModel { loaded: old(self)@.loaded.restrict(sq), ..old(self)@ };
        proof {
            assert(self@.loaded =~= kept.loaded);
            assert(self@ == kept);
            lemma_focus_wf(old(self)@, focus.key(), r);
        }
        request_square(
            &mut self.requested_chunks,
            &self.loaded_chunks,
            &self.pending_tasks,
            (focus.x, focus.y),
            self.render_distance_chunks,
        );
        proof {
            assert(self@.requested =~= old(self)@.after_focus(focus.key(), r).requested);
            assert(self@.loaded =~= kept.loaded);
        }
    }

    /// The spawn pass: marks every requested chunk as pending and returns
    /// those chunks, each once, so that one generation job is started for each.
    pub fn spawn_requested(&mut self) -> (r: Vec<ChunkCoords>)
        requires
            old(self).wf(),
        ensures
            final(self).wf(),
            final(self)@ == old(self)@.after_spawn(),
            final(self).same_config(old(self)),
            forall|j: int| 0 <= j < r@.len() ==> old(self)@.requested.contains(#[trigger] r@[j].key()),
            forall|k: (isize, isize)|
                old(self)@.requested.contains(k) ==> exists|j: int| 0 <= j < r@.len() && #[trigger] r@[j].key() == k,
            forall|a: int, b: int| 0 <= a < b < r@.len() ==> r@[a].key() != r@[b].key(),
    {
        let r = start_requested(&mut self.requested_chunks, &mut self.pending_tasks);
        proof {
            lemma_spawn_wf(old(self)@);
            assert(self@.requested =~= old(self)@.after_spawn().requested);
            assert(self@.pending =~= old(self)@.after_spawn().pending);
            assert(self@.loaded =~= old(self)@.loaded);
        }
        r
    }

    /// Merges a generated chunk: the chunk stops being pending, the queued
    /// writes inside it are applied to it and dropped from the queue, and it
    /// is loaded. A chunk of the wrong size is refused (`false`) and nothing changes.
    pub fn complete_chunk(&mut self, coords: ChunkCoords, chunk: DataChunk<P::Item>) -> (r: bool)
        requires
            old(self).wf(),
        ensures
            final(self).wf(),
            final(self).same_config(old(self)),
            r == (chunk.grid.side() == old(self)@.dim && chunk.grid@.len() == old(self)@.dim * old(self)@.dim),
            r ==> final(self)@ == old(self)@.after_complete(coords.key(), chunk.grid@),
            !r ==> final(self)@ == old(self)@,
    {
        let d = self.chunk_dimension_tiles;
        if chunk.grid.dimension() != d || chunk.grid.cell_count() != d * d {
            return false;
        }
        let k = (coords.x, coords.y);
        let ghost before = self@;
        let ghost cells0 = chunk.grid@;
        self.pending_tasks.remove(k);
        self.requested_chunks.remove(k);
        let mut chunk = chunk;
        flush_queue_into(&mut self.write_queue, &mut chunk.grid, k, d);
        self.loaded_chunks.insert(k, chunk);
        proof {
            lemma_complete_wf(before, k, cells0);
            let target = before.after_complete(k, cells0);
            assert(self@.loaded =~= target.loaded);
            assert(self@.requested =~= target.requested);
            assert(self@.pending =~= target.pending);
            assert(self@.queue =~= target.queue);
        }
        true
    }
}

} // verus!
