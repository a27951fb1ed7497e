//! The double-buffered chunked map: reads see a snapshot (chunks and queued
//! writes as they stood at the last swap) that stays fixed for a whole tick,
//! while writes, merges and the loader work on a back buffer and the current
//! write queue, which one swap turns into the next snapshot.
use crate::coords::{local_from_tile, ChunkCoords, Point};
use crate::data_map::{chunks_covering, lemma_side_fits_isize};
use crate::grid::DataChunk;
use crate::lifecycle::{evict_outside, flush_queue_into, request_chunk, request_square, start_requested};
use crate::model::{
    lemma_box_point_of_cell, lemma_buffered_complete_wf, lemma_buffered_get_wf, lemma_buffered_passes_wf,
    lemma_buffered_write_wf, square_around, BufferedModel, MapModel,
};
use crate::producer::MapDataProducer;
use crate::table::CoordMap;
use vstd::prelude::*;

verus! {

/// The chunked map for one kind of cell, with a read snapshot and a back buffer.
pub struct DataMapDoubleBuffered<P: MapDataProducer> {
    read_buffer: CoordMap<DataChunk<P::Item>>,
    read_queue: CoordMap<P::Item>,
    write_buffer: CoordMap<DataChunk<P::Item>>,
    requested_chunks: CoordMap<()>,
    pending_tasks: CoordMap<()>,
    write_queue: CoordMap<P::Item>,
    producer: P,
    chunk_dimension_tiles: usize,
    render_distance_chunks: usize,
}

/// The cells of each chunk of a buffer.
pub open spec fn buffer_cells<T: Copy>(b: Map<(isize, isize), DataChunk<T>>) -> Map<(isize, isize), Seq<T>> {
    Map::new(|c: (isize, isize)| b.contains_key(c), |c: (isize, isize)| b[c].grid@)
}

/// Every chunk of a buffer is a well-formed grid of `d` tiles a side.
pub open spec fn buffer_wf<T: Copy>(b: Map<(isize, isize), DataChunk<T>>, d: usize) -> bool {
    forall|c: (isize, isize)| #[trigger] b.contains_key(c) ==> b[c].grid.wf() && b[c].grid.side() == d
}

impl<P: MapDataProducer> DataMapDoubleBuffered<P> {
    pub closed spec fn view(&self) -> BufferedModel<P::Item> {
        BufferedModel {
            front: buffer_cells(self.read_buffer@),
            front_queue: self.read_queue@,
            back: MapModel {
                loaded: buffer_cells(self.write_buffer@),
                requested: self.requested_chunks@.dom(),
                pending: self.pending_tasks@.dom(),
                queue: self.write_queue@,
                dim: self.chunk_dimension_tiles as int,
                default: self.producer.spec_default_value(),
            },
        }
    }

    pub closed spec fn wf(&self) -> bool {
        &&& self.read_buffer.wf()
        &&& self.read_queue.wf()
        &&& self.write_buffer.wf()
        &&& self.requested_chunks.wf()
        &&& self.pending_tasks.wf()
        &&& self.write_queue.wf()
        &&& self@.wf()
        &&& buffer_wf(self.read_buffer@, self.chunk_dimension_tiles)
        &&& buffer_wf(self.write_buffer@, self.chunk_dimension_tiles)
    }

    pub closed spec fn spec_producer(&self) -> P {
        self.producer
    }

    pub closed spec fn spec_render_distance(&self) -> nat {
        self.render_distance_chunks as nat
    }

    pub open spec fn same_config(&self, other: &Self) -> bool {
        &&& self.spec_producer() == other.spec_producer()
        &&& self.spec_render_distance() == other.spec_render_distance()
        &&& self@.back.dim == other@.back.dim
        &&& self@.back.default == other@.back.default
    }

    /// An empty map with chunks of `chunk_dimension_tiles` tiles a side.
    pub fn new(producer: P, chunk_dimension_tiles: usize, render_distance_chunks: usize) -> (r: Self)
        requires
            0 < chunk_dimension_tiles,
            chunk_dimension_tiles * chunk_dimension_tiles <= usize::MAX,
        ensures
            r.wf(),
            r@.front == Map::<(isize, isize), Seq<P::Item>>::empty(),
            r@.front_queue == Map::<(isize, isize), P::Item>::empty(),
            r@.back.loaded == Map::<(isize, isize), Seq<P::Item>>::empty(),
            r@.back.requested == Set::<(isize, isize)>::empty(),
            r@.back.pending == Set::<(isize, isize)>::empty(),
            r@.back.queue == Map::<(isize, isize), P::Item>::empty(),
            r@.back.dim == chunk_dimension_tiles,
            r@.back.default == producer.spec_default_value(),
            r.spec_producer() == producer,
            r.spec_render_distance() == render_distance_chunks,
    {
        proof {
            lemma_side_fits_isize(chunk_dimension_tiles as int);
        }
        let r = DataMapDoubleBuffered {
            read_buffer: CoordMap::new(),
            read_queue: CoordMap::new(),
            write_buffer: CoordMap::new(),
            requested_chunks: CoordMap::new(),
            pending_tasks: CoordMap::new(),
            write_queue: CoordMap::new(),
            producer,
            chunk_dimension_tiles,
            render_distance_chunks,
        };
        assert(r@.front =~= Map::<(isize, isize), Seq<P::Item>>::empty());
        assert(r@.back.loaded =~= Map::<(isize, isize), Seq<P::Item>>::empty());
        assert(r@.back.requested =~= Set::<(isize, isize)>::empty());
        assert(r@.back.pending =~= Set::<(isize, isize)>::empty());
        r
    }

    pub fn chunk_dimension_tiles(&self) -> (r: usize)
        ensures
            r == self@.back.dim,
    {
        self.chunk_dimension_tiles
    }

    pub fn render_distance_chunks(&self) -> (r: usize)
        ensures
            r == self.spec_render_distance(),
    {
        self.render_distance_chunks
    }

    pub fn producer(&self) -> (r: &P)
        ensures
            *r == self.spec_producer(),
    {
        &self.producer
    }

    /// The map's well-formedness gives that of its model: positive chunk
    /// side, cells of the right count, requests apart from running jobs.
    pub proof fn lemma_view_wf(&self)
        requires
            self.wf(),
        ensures
            self@.wf(),
    {
    }

    /// Exchanges the snapshot and the back buffer, without copying chunks;
    /// the snapshot's queue becomes a copy of the current write queue.
    pub fn swap_buffers(&mut self)
        requires
            old(self).wf(),
        ensures
            final(self).wf(),
            final(self)@ == old(self)@.after_swap(),
            final(self).same_config(old(self)),
    {
        std::mem::swap(&mut self.read_buffer, &mut self.write_buffer);
        self.read_queue = self.write_queue.duplicate();
        proof {
            lemma_buffered_passes_wf(old(self)@, (0, 0), 0, 0);
        }
    }

    /// The snapshot that reads see.
    pub fn read_chunks(&self) -> (r: &CoordMap<DataChunk<P::Item>>)
        requires
            self.wf(),
        ensures
            r.wf(),
            buffer_cells(r@) == self@.front,
    {
        &self.read_buffer
    }

    /// The back buffer, which becomes the next snapshot.
    pub fn write_chunks(&self) -> (r: &CoordMap<DataChunk<P::Item>>)
        requires
            self.wf(),
        ensures
            r.wf(),
            buffer_cells(r@) == self@.back.loaded,
    {
        &self.write_buffer
    }

    fn chunk_key_of(&self, point: Point) -> (r: (isize, isize))
        requires
            self.wf(),
        ensures
            r == self@.back.chunk_key(point),
    {
        let c = ChunkCoords::from_point(point, self.chunk_dimension_tiles);
        (c.x, c.y)
    }

    fn request(&mut self, c: (isize, isize))
        requires
            old(self).wf(),
        ensures
            final(self).wf(),
            final(self)@ == (BufferedModel { back: old(self)@.back.request(c), ..old(self)@ }),
            final(self).same_config(old(self)),
    {
        request_chunk(&mut self.requested_chunks, &self.write_buffer, &self.pending_tasks, c);
        proof {
            assert(self@.back.requested =~= old(self)@.back.request(c).requested);
            assert(self@.back.loaded =~= old(self)@.back.loaded);
            assert(self@.front =~= old(self)@.front);
        }
    }

    /// The value at `point` in the snapshot; on a miss, requests the chunk
    /// and returns the producer's default.
    pub fn get(&mut self, point: Point) -> (r: P::Item)
        requires
            old(self).wf(),
        ensures
            final(self).wf(),
            r == old(self)@.get_value(point),
            final(self)@ == old(self)@.after_get(point),
            final(self).same_config(old(self)),
    {
        match self.get_option(point) {
            Some(v) => v,
            None => self.producer.default_value(),
        }
    }

    /// The value at `point` in the snapshot, or `None` on a miss, which
    /// requests the chunk.
    pub fn get_option(&mut self, point: Point) -> (r: Option<P::Item>)
        requires
            old(self).wf(),
        ensures
            final(self).wf(),
            r == old(self)@.lookup(point),
            final(self)@ == old(self)@.after_get(point),
            final(self).same_config(old(self)),
    {
        proof {
            lemma_buffered_get_wf(old(self)@, point);
        }
        let found = self.read(point);
        if found.is_none() {
            let c = self.chunk_key_of(point);
            self.request(c);
        }
        found
    }

    /// The value at `point` in the snapshot, or `None` on a miss; never
    /// requests anything.
    pub fn read(&self, point: Point) -> (r: Option<P::Item>)
        requires
            self.wf(),
        ensures
            r == self@.lookup(point),
    {
        match self.read_queue.get((point.x, point.y)) {
            Some(v) => {
                return Some(*v);
            },
            None => {},
        }
        let c = self.chunk_key_of(point);
        match self.read_buffer.get(c) {
            Some(chunk) => {
                let (lx, ly) = local_from_tile(point, self.chunk_dimension_tiles);
                match chunk.grid.get_item(lx, ly) {
                    Some(v) => Some(*v),
                    None => None,
                }
            },
            None => None,
        }
    }

    /// Writes `value` at `point` into the back buffer, or into the write
    /// queue together with a request for the chunk.
    pub fn write(&mut self, point: Point, value: P::Item)
        requires
            old(self).wf(),
        ensures
            final(self).wf(),
            final(self)@ == old(self)@.after_write(point, value),
            final(self).same_config(old(self)),
    {
        let c = self.chunk_key_of(point);
        proof {
            lemma_buffered_write_wf(old(self)@, point, value);
            lemma_box_point_of_cell(old(self)@.back, point);
        }
        if self.write_buffer.contains_key(c) {
            let (lx, ly) = local_from_tile(point, self.chunk_dimension_tiles);
            match self.write_buffer.remove(c) {
                Some(chunk) => {
                    let mut chunk = chunk;
                    chunk.grid.set_item(lx, ly, value);
                    self.write_buffer.insert(c, chunk);
                },
                None => {},
            }
            self.write_queue.remove((point.x, point.y));
            proof {
                assert(self@.back.loaded =~= old(self)@.after_write(point, value).back.loaded);
                assert(self@.back.queue =~= old(self)@.after_write(point, value).back.queue);
                assert(self@.front =~= old(self)@.front);
            }
        } else {
            self.write_queue.insert((point.x, point.y), value);
            proof {
                let mid = BufferedModel {
                    back: MapModel { queue: old(self)@.back.queue.insert(point.key(), value), ..old(self)@.back },
                    ..old(self)@
                };
                assert(self@.back.loaded =~= mid.back.loaded);
                assert(self@.front =~= mid.front);
                assert(self@ == mid);
            }
            self.request(c);
        }
    }

    /// Requests every chunk within `ceil(tiles / dimension)` chunks of the
    /// origin that is neither in the back buffer nor being generated.
    pub fn init(&mut self, manhattan_distance_tiles: usize)
        requires
            old(self).wf(),
        ensures
            final(self).wf(),
            final(self)@ == old(self)@.after_init(manhattan_distance_tiles as int),
            final(self).same_config(old(self)),
    {
        let n = chunks_covering(manhattan_distance_tiles, self.chunk_dimension_tiles);
        request_square(&mut self.requested_chunks, &self.write_buffer, &self.pending_tasks, (0, 0), n);
        proof {
            lemma_buffered_passes_wf(old(self)@, (0, 0), 0, manhattan_distance_tiles as int);
            assert(self@.back.requested =~= old(self)@.after_init(manhattan_distance_tiles as int).back.requested);
            assert(self@.back.loaded =~= old(self)@.back.loaded);
            assert(self@.front =~= old(self)@.front);
        }
    }

    /// The loader pass: trims the back buffer (the next snapshot) to the
    /// chunks within the render distance of `focus`, then requests every
    /// chunk within it.
    pub fn load_unload_around(&mut self, focus: ChunkCoords)
        requires
            old(self).wf(),
        ensures
            final(self).wf(),
            final(self)@ == old(self)@.after_focus(focus.key(), old(self).spec_render_distance() as int),
            final(self).same_config(old(self)),
    {
        let ghost r = old(self).spec_render_distance() as int;
        let ghost sq = square_around(focus.key(), r);
        evict_outside(&mut self.write_buffer, (focus.x, focus.y), self.render_distance_chunks);
        proof {
            assert(self@.back.loaded =~= old(self)@.back.loaded.restrict(sq));
            lemma_buffered_passes_wf(old(self)@, focus.key(), r, 0);
        }
        request_square(
            &mut self.requested_chunks,
            &self.write_buffer,
            &self.pending_tasks,
            (focus.x, focus.y),
            self.render_distance_chunks,
        );
        proof {
            assert(self@.back.requested =~= old(self)@.after_focus(focus.key(), r).back.requested);
            assert(self@.back.loaded =~= old(self)@.after_focus(focus.key(), r).back.loaded);
            assert(self@.front =~= old(self)@.front);
        }
    }

    /// The spawn pass: marks every requested chunk as pending and returns
    /// those chunks, each once, so that one generation job is started for each.
    pub fn spawn_requested(&mut self) -> (r: Vec<ChunkCoords>)
        requires
            old(self).wf(),
        ensures
            final(self).wf(),
            final(self)@ == old(self)@.after_spawn(),
            final(self).same_config(old(self)),
            forall|j: int| 0 <= j < r@.len() ==> old(self)@.back.requested.contains(#[trigger] r@[j].key()),
            forall|k: (isize, isize)|
                old(self)@.back.requested.contains(k) ==> exists|j: int| 0 <= j < r@.len() && #[trigger] r@[j].key() == k,
            forall|a: int, b: int| 0 <= a < b < r@.len() ==> r@[a].key() != r@[b].key(),
    {
        let r = start_requested(&mut self.requested_chunks, &mut self.pending_tasks);
        proof {
            lemma_buffered_passes_wf(old(self)@, (0, 0), 0, 0);
            assert(self@.back.requested =~= old(self)@.after_spawn().back.requested);
            assert(self@.back.pending =~= old(self)@.after_spawn().back.pending);
            assert(self@.back.loaded =~= old(self)@.back.loaded);
            assert(self@.front =~= old(self)@.front);
        }
        r
    }

    /// Merges a generated chunk into the back buffer: it stops being pending
    /// and the queued writes inside it are applied and dropped from the queue.
    /// A chunk of the wrong size is refused (`false`) and nothing changes.
    pub fn complete_chunk(&mut self, coords: ChunkCoords, chunk: DataChunk<P::Item>) -> (r: bool)
        requires
            old(self).wf(),
        ensures
            final(self).wf(),
            final(self).same_config(old(self)),
            r == (chunk.grid.side() == old(self)@.back.dim && chunk.grid@.len() == old(self)@.back.dim
                * old(self)@.back.dim),
            r ==> final(self)@ == old(self)@.after_complete(coords.key(), chunk.grid@),
            !r ==> final(self)@ == old(self)@,
    {
        let d = self.chunk_dimension_tiles;
        if chunk.grid.dimension() != d || chunk.grid.cell_count() != d * d {
            return false;
        }
        let k = (coords.x, coords.y);
        let ghost before = self@;
        let ghost cells0 = chunk.grid@;
        self.pending_tasks.remove(k);
        self.requested_chunks.remove(k);
        let mut chunk = chunk;
        flush_queue_into(&mut self.write_queue, &mut chunk.grid, k, d);
        self.write_buffer.insert(k, chunk);
        proof {
            lemma_buffered_complete_wf(before, k, cells0);
            let target = before.after_complete(k, cells0);
            assert(self@.back.loaded =~= target.back.loaded);
            assert(self@.back.requested =~= target.back.requested);
            assert(self@.back.pending =~= target.back.pending);
            assert(self@.back.queue =~= target.back.queue);
            assert(self@.front =~= target.front);
        }
        true
    }
}

} // verus!
