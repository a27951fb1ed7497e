//! The abstract state of a chunked map and the effect of each operation on it.
//! The executable maps are proved to follow these transitions, and the laws of
//! the map are stated and proved over them.
use crate::coords::{floor_div, floor_mod, lemma_tile_in_its_chunk, Point};
use vstd::arithmetic::div_mod::{
    lemma_fundamental_div_mod_converse_div, lemma_fundamental_div_mod_converse_mod,
};
use vstd::prelude::*;

verus! {

/// A chunked map as mathematics: chunk keys and points are integer pairs.
pub struct MapModel<T> {
    /// Generated chunks, each as its cells in row-major order.
    pub loaded: Map<(isize, isize), Seq<T>>,
    /// Chunks waiting for a generation job to be started.
    pub requested: Set<(isize, isize)>,
    /// Chunks whose generation job is running.
    pub pending: Set<(isize, isize)>,
    /// Writes to points whose chunk is not generated yet.
    pub queue: Map<(isize, isize), T>,
    /// Tiles per chunk side.
    pub dim: int,
    /// The value reported for a point with no data yet.
    pub default: T,
}

/// The square of chunk keys within `r` chunks (Chebyshev distance) of `f`.
pub open spec fn square_around(f: (isize, isize), r: int) -> Set<(isize, isize)> {
    Set::new(|c: (isize, isize)| f.0 - r <= c.0 <= f.0 + r && f.1 - r <= c.1 <= f.1 + r)
}

/// Whether both components of an integer pair fit in an `isize`.
pub open spec fn fits_isize(q: (int, int)) -> bool {
    isize::MIN <= q.0 <= isize::MAX && isize::MIN <= q.1 <= isize::MAX
}

/// `ceil(a / d)` for `a >= 0` and `d > 0`.
pub open spec fn ceil_div(a: int, d: int) -> int {
    if a % d == 0 {
        a / d
    } else {
        a / d + 1
    }
}

/// The point at row-major index `i` of chunk `c`, for chunks of `d` tiles a side.
pub open spec fn box_point(c: (isize, isize), d: int, i: int) -> (int, int) {
    (c.0 * d + i % d, c.1 * d + i / d)
}

/// Whether `q` lies in the tile box of chunk `c`: corner <= q < corner + d on both axes.
pub open spec fn in_box(c: (isize, isize), d: int, q: (int, int)) -> bool {
    &&& c.0 * d <= q.0 < c.0 * d + d
    &&& c.1 * d <= q.1 < c.1 * d + d
}

/// The value queued for the point at index `i` of chunk `c`, if any.
pub open spec fn queued_at<T>(queue: Map<(isize, isize), T>, c: (isize, isize), d: int, i: int) -> Option<T> {
    let q = box_point(c, d, i);
    if fits_isize(q) && queue.contains_key((q.0 as isize, q.1 as isize)) {
        Some(queue[(q.0 as isize, q.1 as isize)])
    } else {
        None
    }
}

/// `cells` of chunk `c` with every queued value inside the chunk written over them.
pub open spec fn merge_queued<T>(queue: Map<(isize, isize), T>, c: (isize, isize), d: int, cells: Seq<T>) -> Seq<T> {
    Seq::new(
        cells.len(),
        |i: int|
            match queued_at(queue, c, d, i) {
                Some(v) => v,
                None => cells[i],
            },
    )
}

/// The queue without the points inside chunk `c`.
pub open spec fn queue_outside_box<T>(queue: Map<(isize, isize), T>, c: (isize, isize), d: int) -> Map<(isize, isize), T> {
    Map::new(
        |q: (isize, isize)| queue.contains_key(q) && !in_box(c, d, (q.0 as int, q.1 as int)),
        |q: (isize, isize)| queue[q],
    )
}

/// Cell index `dy * d + dx` of a chunk stands for the point at offset `(dx, dy)`
/// from the chunk's corner, and distinct indices stand for distinct points.
pub proof fn lemma_box_index(c: (isize, isize), d: int, dx: int, dy: int)
    requires
        0 <= dx < d,
        0 <= dy < d,
    ensures
        0 <= dy * d + dx < d * d,
        box_point(c, d, dy * d + dx) == (c.0 * d + dx, c.1 * d + dy),
        forall|j: int| 0 <= j < d * d && #[trigger] box_point(c, d, j) == box_point(c, d, dy * d + dx) ==> j == dy * d + dx,
{
    crate::grid::lemma_cell_index_in_bounds(dx, dy, d);
    lemma_fundamental_div_mod_converse_div(dy * d + dx, d, dy, dx);
    lemma_fundamental_div_mod_converse_mod(dy * d + dx, d, dy, dx);
    assert forall|j: int| 0 <= j < d * d && #[trigger] box_point(c, d, j) == box_point(c, d, dy * d + dx) implies j == dy * d
        + dx by {
        vstd::arithmetic::div_mod::lemma_fundamental_div_mod(j, d);
        assert(j % d == dx);
        assert(j / d == dy);
        assert(j == d * dy + dx);
        assert(d * dy == dy * d) by (nonlinear_arith);
    }
}

impl<T> MapModel<T> {
    /// The key of the chunk that holds `p`.
    pub open spec fn chunk_key(self, p: Point) -> (isize, isize) {
        p.chunk_of(self.dim).key()
    }

    /// The row-major index of `p` inside its chunk.
    pub open spec fn cell_index(self, p: Point) -> int {
        p.local_of(self.dim).1 * self.dim + p.local_of(self.dim).0
    }

    /// The point at row-major index `i` of chunk `c`.
    pub open spec fn box_point(self, c: (isize, isize), i: int) -> (int, int) {
        box_point(c, self.dim, i)
    }

    /// The queued write, if any, for the point at index `i` of chunk `c`.
    pub open spec fn queued_at(self, c: (isize, isize), i: int) -> Option<T> {
        queued_at(self.queue, c, self.dim, i)
    }

    /// Whether `q` lies in the tile box of chunk `c`.
    pub open spec fn in_box(self, c: (isize, isize), q: (int, int)) -> bool {
        in_box(c, self.dim, q)
    }

    pub open spec fn wf(self) -> bool {
        &&& 0 < self.dim <= isize::MAX
        &&& self.dim * self.dim <= usize::MAX
        &&& forall|c: (isize, isize)| #[trigger]
            self.loaded.contains_key(c) ==> self.loaded[c].len() == self.dim * self.dim
        &&& forall|c: (isize, isize)| #[trigger]
            self.requested.contains(c) ==> !self.pending.contains(c) && !self.loaded.contains_key(c)
        &&& forall|c: (isize, isize)| #[trigger]
            self.pending.contains(c) ==> !self.loaded.contains_key(c)
        &&& forall|q: (isize, isize)| #[trigger]
            self.queue.contains_key(q) ==> !self.loaded.contains_key(
                self.chunk_key(Point { x: q.0, y: q.1 }),
            )
    }

    /// What a read of `p` finds: a queued write first, then the loaded chunk.
    pub open spec fn lookup(self, p: Point) -> Option<T> {
        if self.queue.contains_key(p.key()) {
            Some(self.queue[p.key()])
        } else if self.loaded.contains_key(self.chunk_key(p)) {
            Some(self.loaded[self.chunk_key(p)][self.cell_index(p)])
        } else {
            None
        }
    }

    /// What `get` returns: the lookup, or the default on a miss.
    pub open spec fn get_value(self, p: Point) -> T {
        match self.lookup(p) {
            Some(v) => v,
            None => self.default,
        }
    }

    /// Asks for chunk `c` unless it is loaded or already being generated.
    pub open spec fn request(self, c: (isize, isize)) -> MapModel<T> {
        if self.loaded.contains_key(c) || self.pending.contains(c) {
            self
        } else {
            MapModel { requested: self.requested.insert(c), ..self }
        }
    }

    /// Asks for each chunk of `s` that is neither loaded nor being generated.
    pub open spec fn request_all(self, s: Set<(isize, isize)>) -> MapModel<T> {
        MapModel {
            requested: self.requested.union(
                s.filter(|c: (isize, isize)| !self.loaded.contains_key(c) && !self.pending.contains(c)),
            ),
            ..self
        }
    }

    /// The state after `get` or `get_option`: a miss requests the chunk.
    pub open spec fn after_get(self, p: Point) -> MapModel<T> {
        if self.lookup(p) is None {
            self.request(self.chunk_key(p))
        } else {
            self
        }
    }

    /// The state after writing `v` at `p`: into the loaded chunk, or into the
    /// queue together with a request for the chunk.
    pub open spec fn after_write(self, p: Point, v: T) -> MapModel<T> {
        let c = self.chunk_key(p);
        if self.loaded.contains_key(c) {
            MapModel {
                loaded: self.loaded.insert(c, self.loaded[c].update(self.cell_index(p), v)),
                queue: self.queue.remove(p.key()),
                ..self
            }
        } else {
            MapModel { queue: self.queue.insert(p.key(), v), ..self }.request(c)
        }
    }

    /// The state after the spawn pass: every requested chunk is now pending.
    pub open spec fn after_spawn(self) -> MapModel<T> {
        MapModel {
            pending: self.pending.union(self.requested),
            requested: Set::empty(),
            ..self
        }
    }

    /// Generated cells of chunk `c` with the queued writes inside it applied.
    pub open spec fn merged(self, c: (isize, isize), cells: Seq<T>) -> Seq<T> {
        merge_queued(self.queue, c, self.dim, cells)
    }

    /// The queue without the points inside chunk `c`.
    pub open spec fn queue_outside(self, c: (isize, isize)) -> Map<(isize, isize), T> {
        queue_outside_box(self.queue, c, self.dim)
    }

    /// The state after chunk `c` finished generating with `cells`: the queued
    /// writes inside it are applied and dropped from the queue, and the chunk
    /// is loaded.
    pub open spec fn after_complete(self, c: (isize, isize), cells: Seq<T>) -> MapModel<T> {
        MapModel {
            loaded: self.loaded.insert(c, self.merged(c, cells)),
            requested: self.requested.remove(c),
            pending: self.pending.remove(c),
            queue: self.queue_outside(c),
            ..self
        }
    }

    /// The loader pass that only requests: every chunk around `f` is asked for.
    pub open spec fn after_reveal(self, f: (isize, isize), r: int) -> MapModel<T> {
        self.request_all(square_around(f, r))
    }

    /// The loader pass that also evicts: loaded chunks away from `f` are
    /// dropped, then every chunk around `f` is asked for.
    pub open spec fn after_focus(self, f: (isize, isize), r: int) -> MapModel<T> {
        let kept = MapModel {
            loaded: self.loaded.restrict(square_around(f, r)),
            ..self
        };
        kept.request_all(square_around(f, r))
    }

    /// The start-up request of every chunk within `ceil(tiles / dim)` chunks of the origin.
    pub open spec fn after_init(self, tiles: int) -> MapModel<T> {
        self.request_all(square_around((0, 0), ceil_div(tiles, self.dim)))
    }
}

/// Index `i` of a chunk's cells and the point it stands for correspond both ways:
/// a point in the box of chunk `c` sits at its own cell index.
pub proof fn lemma_box_point_of_cell<T>(s: MapModel<T>, p: Point)
    requires
        s.dim > 0,
    ensures
        s.in_box(s.chunk_key(p), (p.x as int, p.y as int)),
        0 <= s.cell_index(p) < s.dim * s.dim,
        s.box_point(s.chunk_key(p), s.cell_index(p)) == (p.x as int, p.y as int),
        s.queued_at(s.chunk_key(p), s.cell_index(p)) == (if s.queue.contains_key(p.key()) {
            Some(s.queue[p.key()])
        } else {
            None
        }),
{
    let d = s.dim;
    lemma_tile_in_its_chunk(p, d);
    let (lx, ly) = p.local_of(d);
    crate::grid::lemma_cell_index_in_bounds(lx, ly, d);
    lemma_fundamental_div_mod_converse_div(ly * d + lx, d, ly, lx);
    lemma_fundamental_div_mod_converse_mod(ly * d + lx, d, ly, lx);
    crate::coords::lemma_floor_div_in_range(p.x as int, d);
    crate::coords::lemma_floor_div_in_range(p.y as int, d);
}

/// A point lies in the box of chunk `c` exactly when `c` is its chunk.
pub proof fn lemma_in_box_iff_chunk<T>(s: MapModel<T>, c: (isize, isize), q: (isize, isize))
    requires
        s.dim > 0,
    ensures
        s.in_box(c, (q.0 as int, q.1 as int)) <==> s.chunk_key(Point { x: q.0, y: q.1 }) == c,
{
    let p = Point { x: q.0, y: q.1 };
    let d = s.dim;
    lemma_tile_in_its_chunk(p, d);
    crate::coords::lemma_floor_div_in_range(q.0 as int, d);
    crate::coords::lemma_floor_div_in_range(q.1 as int, d);
    if s.in_box(c, (q.0 as int, q.1 as int)) {
        lemma_fundamental_div_mod_converse_div(q.0 as int, d, c.0 as int, q.0 - c.0 * d);
        lemma_fundamental_div_mod_converse_div(q.1 as int, d, c.1 as int, q.1 - c.1 * d);
    }
}

/// The point at index `i` of a chunk lies in that chunk's box.
pub proof fn lemma_box_point_in_box(c: (isize, isize), d: int, i: int)
    requires
        d > 0,
        0 <= i < d * d,
    ensures
        in_box(c, d, box_point(c, d, i)),
{
    crate::producer::lemma_cell_row_col(i, d);
}

pub proof fn lemma_request_wf<T>(s: MapModel<T>, c: (isize, isize))
    requires
        s.wf(),
    ensures
        s.request(c).wf(),
{
}

pub proof fn lemma_write_wf<T>(s: MapModel<T>, p: Point, v: T)
    requires
        s.wf(),
    ensures
        s.after_write(p, v).wf(),
{
    let c = s.chunk_key(p);
    if !s.loaded.contains_key(c) {
        let t = MapModel { queue: s.queue.insert(p.key(), v), ..s };
        assert(t.wf());
        lemma_request_wf(t, c);
    } else {
        let t = s.after_write(p, v);
        lemma_box_point_of_cell(s, p);
        assert(t.loaded.dom() =~= s.loaded.dom());
        assert forall|c2: (isize, isize)| #[trigger] t.loaded.contains_key(c2) implies t.loaded[c2].len()
            == t.dim * t.dim by {
            assert(s.loaded.contains_key(c2));
        }
        assert forall|q: (isize, isize)| #[trigger] t.queue.contains_key(q) implies !t.loaded.contains_key(
            t.chunk_key(Point { x: q.0, y: q.1 }),
        ) by {
            assert(s.queue.contains_key(q));
        }
    }
}

pub proof fn lemma_spawn_wf<T>(s: MapModel<T>)
    requires
        s.wf(),
    ensures
        s.after_spawn().wf(),
{
}

pub proof fn lemma_complete_wf<T>(s: MapModel<T>, c: (isize, isize), cells: Seq<T>)
    requires
        s.wf(),
        cells.len() == s.dim * s.dim,
    ensures
        s.after_complete(c, cells).wf(),
{
    let t = s.after_complete(c, cells);
    assert forall|q: (isize, isize)| #[trigger] t.queue.contains_key(q) implies !t.loaded.contains_key(
        t.chunk_key(Point { x: q.0, y: q.1 }),
    ) by {
        lemma_in_box_iff_chunk(s, c, q);
    }
}

pub proof fn lemma_reveal_wf<T>(s: MapModel<T>, f: (isize, isize), r: int)
    requires
        s.wf(),
    ensures
        s.after_reveal(f, r).wf(),
{
}

pub proof fn lemma_focus_wf<T>(s: MapModel<T>, f: (isize, isize), r: int)
    requires
        s.wf(),
    ensures
        s.after_focus(f, r).wf(),
{
    let kept = MapModel { loaded: s.loaded.restrict(square_around(f, r)), ..s };
    assert(kept.wf());
}

pub proof fn lemma_init_wf<T>(s: MapModel<T>, tiles: int)
    requires
        s.wf(),
    ensures
        s.after_init(tiles).wf(),
{
}

/// Every pass of the map keeps it well-formed: loader passes with or without
/// eviction, the spawn pass, accesses, writes and completions. With
/// `lemma_lifecycle_stages_exclusive` this means that after any sequence of
/// passes no chunk is in two lifecycle stages at once.
pub proof fn lemma_every_pass_keeps_map_wf<T>(
    s: MapModel<T>,
    f: (isize, isize),
    r: int,
    p: Point,
    v: T,
    c: (isize, isize),
    cells: Seq<T>,
    tiles: int,
)
    requires
        s.wf(),
        cells.len() == s.dim * s.dim,
    ensures
        s.after_reveal(f, r).wf(),
        s.after_focus(f, r).wf(),
        s.after_init(tiles).wf(),
        s.after_spawn().wf(),
        s.after_get(p).wf(),
        s.after_write(p, v).wf(),
        s.after_complete(c, cells).wf(),
{
    lemma_reveal_wf(s, f, r);
    lemma_focus_wf(s, f, r);
    lemma_init_wf(s, tiles);
    lemma_spawn_wf(s);
    lemma_write_wf(s, p, v);
    lemma_complete_wf(s, c, cells);
}

/// In a well-formed map no chunk is in two of the lifecycle stages at once:
/// requested, pending (being generated) and loaded exclude one another, and
/// every operation keeps the map well-formed, so this holds after any
/// sequence of loader, spawn, access and completion passes.
pub proof fn lemma_lifecycle_stages_exclusive<T>(s: MapModel<T>, c: (isize, isize))
    requires
        s.wf(),
    ensures
        !(s.requested.contains(c) && s.pending.contains(c)),
        !(s.requested.contains(c) && s.loaded.contains_key(c)),
        !(s.pending.contains(c) && s.loaded.contains_key(c)),
{
}

/// A write to a point whose chunk is not loaded is kept in the queue and
/// applied when the chunk is generated: after the spawn pass and the
/// completion of that chunk, reading the point gives the written value,
/// whatever the generator produced.
pub proof fn lemma_queued_write_survives_generation<T>(s: MapModel<T>, p: Point, v: T, cells: Seq<T>)
    requires
        s.wf(),
        !s.loaded.contains_key(s.chunk_key(p)),
        cells.len() == s.dim * s.dim,
    ensures
        s.after_write(p, v).after_spawn().after_complete(s.chunk_key(p), cells).lookup(p) == Some(v),
{
    let c = s.chunk_key(p);
    let t = s.after_write(p, v).after_spawn();
    lemma_box_point_of_cell(s, p);
    assert(t.queue.contains_key(p.key()) && t.queue[p.key()] == v);
    let u = t.after_complete(c, cells);
    assert(!u.queue.contains_key(p.key()));
    assert(u.loaded[c] == t.merged(c, cells));
    assert(t.merged(c, cells)[s.cell_index(p)] == v);
}

/// Once a chunk has been generated, no queued write inside its tile box remains.
pub proof fn lemma_completion_flushes_queue<T>(s: MapModel<T>, c: (isize, isize), cells: Seq<T>)
    ensures
        forall|q: (isize, isize)| #[trigger]
            s.after_complete(c, cells).queue.contains_key(q) ==> !s.in_box(c, (q.0 as int, q.1 as int)),
{
}

/// Repeated `get` on a point that has no data yet keeps returning the
/// default, requests the chunk at most once and starts no job: a second
/// `get` changes nothing, and the set of pending chunks is untouched.
pub proof fn lemma_get_miss_idempotent<T>(s: MapModel<T>, p: Point)
    requires
        s.wf(),
        s.lookup(p) is None,
    ensures
        s.get_value(p) == s.default,
        s.after_get(p).lookup(p) is None,
        s.after_get(p).get_value(p) == s.default,
        s.after_get(p).after_get(p) == s.after_get(p),
        s.after_get(p).pending == s.pending,
        s.after_get(p).requested.subset_of(s.requested.insert(s.chunk_key(p))),
{
    let t = s.after_get(p);
    assert(t.requested.insert(s.chunk_key(p)) =~= t.requested || t.pending.contains(s.chunk_key(p)));
}

/// A `get` that misses while the point's chunk is already being generated
/// changes nothing: it returns the default and requests nothing, so the next
/// spawn pass starts no second job for that chunk.
pub proof fn lemma_get_miss_while_pending_starts_no_job<T>(s: MapModel<T>, p: Point)
    requires
        s.wf(),
        s.lookup(p) is None,
        s.pending.contains(s.chunk_key(p)),
    ensures
        s.get_value(p) == s.default,
        s.after_get(p) == s,
        !s.after_get(p).requested.contains(s.chunk_key(p)),
        s.after_get(p).after_spawn().pending == s.pending.union(s.requested),
        forall|c: (isize, isize)| #[trigger] s.requested.contains(c) ==> !s.pending.contains(c),
{
}

/// A chunk evicted by the loader and required again later goes back through
/// requested and pending, and once generated holds exactly what the
/// generator produced; with a deterministic generator that is the content it
/// had before eviction, if it was never written to.
pub proof fn lemma_evicted_chunk_regenerates<T>(
    s: MapModel<T>,
    c: (isize, isize),
    away: (isize, isize),
    back: (isize, isize),
    r: int,
    cells: Seq<T>,
)
    requires
        s.wf(),
        s.loaded.contains_key(c),
        !square_around(away, r).contains(c),
        square_around(back, r).contains(c),
        cells.len() == s.dim * s.dim,
    ensures
        !s.after_focus(away, r).loaded.contains_key(c),
        s.after_focus(away, r).after_focus(back, r).requested.contains(c),
        s.after_focus(away, r).after_focus(back, r).after_spawn().pending.contains(c),
        s.after_focus(away, r).after_focus(back, r).after_spawn().after_complete(c, cells).loaded[c]
            == cells,
        s.loaded[c] == cells ==> s.after_focus(away, r).after_focus(back, r).after_spawn().after_complete(
            c,
            cells,
        ).loaded[c] == s.loaded[c],
{
    let e = s.after_focus(away, r);
    lemma_focus_wf(s, away, r);
    assert(!e.pending.contains(c));
    let t = e.after_focus(back, r);
    lemma_focus_wf(e, back, r);
    let u = t.after_spawn();
    assert forall|i: int| 0 <= i < cells.len() implies #[trigger] u.merged(c, cells)[i] == cells[i] by {
        lemma_box_point_in_box(c, s.dim, i);
        let q = u.box_point(c, i);
        if fits_isize(q) {
            lemma_in_box_iff_chunk(s, c, (q.0 as isize, q.1 as isize));
        }
    }
    assert(u.merged(c, cells) =~= cells);
}

/// A double-buffered map as mathematics: `front` and `front_queue` are the
/// snapshot that reads see, the chunks and the queued writes as they stood at
/// the last swap; `back` holds the buffer that writes, merges and the loader
/// work on, together with the requests, running jobs and current queue.
pub struct BufferedModel<T> {
    pub front: Map<(isize, isize), Seq<T>>,
    pub front_queue: Map<(isize, isize), T>,
    pub back: MapModel<T>,
}

impl<T> BufferedModel<T> {
    pub open spec fn wf(self) -> bool {
        let b = self.back;
        &&& 0 < b.dim <= isize::MAX
        &&& b.dim * b.dim <= usize::MAX
        &&& forall|c: (isize, isize)| #[trigger]
            self.front.contains_key(c) ==> self.front[c].len() == b.dim * b.dim
        &&& forall|c: (isize, isize)| #[trigger]
            b.loaded.contains_key(c) ==> b.loaded[c].len() == b.dim * b.dim
        &&& forall|c: (isize, isize)| #[trigger] b.requested.contains(c) ==> !b.pending.contains(c)
    }

    /// What a read of `p` finds in the snapshot: a write that was queued at
    /// the last swap first, then the snapshot's chunk.
    pub open spec fn lookup(self, p: Point) -> Option<T> {
        let b = self.back;
        if self.front_queue.contains_key(p.key()) {
            Some(self.front_queue[p.key()])
        } else if self.front.contains_key(b.chunk_key(p)) {
            Some(self.front[b.chunk_key(p)][b.cell_index(p)])
        } else {
            None
        }
    }

    pub open spec fn get_value(self, p: Point) -> T {
        match self.lookup(p) {
            Some(v) => v,
            None => self.back.default,
        }
    }

    /// A read miss requests the chunk (unless the back buffer has it or it is
    /// being generated).
    pub open spec fn after_get(self, p: Point) -> BufferedModel<T> {
        if self.lookup(p) is None {
            BufferedModel { back: self.back.request(self.back.chunk_key(p)), ..self }
        } else {
            self
        }
    }

    pub open spec fn after_write(self, p: Point, v: T) -> BufferedModel<T> {
        BufferedModel { back: self.back.after_write(p, v), ..self }
    }

    pub open spec fn after_spawn(self) -> BufferedModel<T> {
        BufferedModel { back: self.back.after_spawn(), ..self }
    }

    pub open spec fn after_complete(self, c: (isize, isize), cells: Seq<T>) -> BufferedModel<T> {
        BufferedModel { back: self.back.after_complete(c, cells), ..self }
    }

    pub open spec fn after_focus(self, f: (isize, isize), r: int) -> BufferedModel<T> {
        BufferedModel { back: self.back.after_focus(f, r), ..self }
    }

    pub open spec fn after_init(self, tiles: int) -> BufferedModel<T> {
        BufferedModel { back: self.back.after_init(tiles), ..self }
    }

    /// Exchanges the snapshot and the back buffer; the current queue becomes
    /// the snapshot's queue.
    pub open spec fn after_swap(self) -> BufferedModel<T> {
        BufferedModel {
            front: self.back.loaded,
            front_queue: self.back.queue,
            back: MapModel { loaded: self.front, ..self.back },
        }
    }
}

pub proof fn lemma_buffered_get_wf<T>(s: BufferedModel<T>, p: Point)
    requires
        s.wf(),
    ensures
        s.after_get(p).wf(),
{
}

pub proof fn lemma_buffered_write_wf<T>(s: BufferedModel<T>, p: Point, v: T)
    requires
        s.wf(),
    ensures
        s.after_write(p, v).wf(),
{
    lemma_box_point_of_cell(s.back, p);
    let t = s.after_write(p, v);
    let c = s.back.chunk_key(p);
    if s.back.loaded.contains_key(c) {
        assert forall|c2: (isize, isize)| #[trigger] t.back.loaded.contains_key(c2) implies t.back.loaded[c2].len()
            == t.back.dim * t.back.dim by {
            assert(s.back.loaded.contains_key(c2));
        }
    }
}

pub proof fn lemma_buffered_passes_wf<T>(s: BufferedModel<T>, f: (isize, isize), r: int, tiles: int)
    requires
        s.wf(),
    ensures
        s.after_spawn().wf(),
        s.after_focus(f, r).wf(),
        s.after_init(tiles).wf(),
        s.after_swap().wf(),
{
}

pub proof fn lemma_buffered_complete_wf<T>(s: BufferedModel<T>, c: (isize, isize), cells: Seq<T>)
    requires
        s.wf(),
        cells.len() == s.back.dim * s.back.dim,
    ensures
        s.after_complete(c, cells).wf(),
{
}

/// Within a tick reads see one snapshot: no write, merge, spawn or loader
/// pass changes what any point reads, and after the next swap a written
/// point reads as written.
pub proof fn lemma_write_hidden_until_swap<T>(
    s: BufferedModel<T>,
    p: Point,
    v: T,
    c: (isize, isize),
    cells: Seq<T>,
    f: (isize, isize),
    r: int,
)
    requires
        s.wf(),
    ensures
        forall|q: Point| #[trigger] s.after_write(p, v).lookup(q) == s.lookup(q),
        forall|q: Point| #[trigger] s.after_complete(c, cells).lookup(q) == s.lookup(q),
        forall|q: Point| #[trigger] s.after_spawn().lookup(q) == s.lookup(q),
        forall|q: Point| #[trigger] s.after_focus(f, r).lookup(q) == s.lookup(q),
        forall|q: Point| #[trigger] s.after_get(q).lookup(q) == s.lookup(q),
        s.after_write(p, v).after_swap().lookup(p) == Some(v),
{
    lemma_box_point_of_cell(s.back, p);
}

} // verus!
