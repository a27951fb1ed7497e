//! The passes that move chunks through their lifecycle, shared by both map
//! variants: requesting a square of chunks, evicting chunks outside it,
//! starting generation of requested chunks, and applying queued writes to a
//! newly generated chunk.
use crate::coords::ChunkCoords;
use crate::grid::FlatGrid;
use crate::model::{
    box_point, fits_isize, in_box, lemma_box_index, lemma_box_point_in_box, merge_queued, queue_outside_box,
    square_around,
};
use crate::table::CoordMap;
use vstd::prelude::*;

verus! {

/// The chunks of the square around `f` before row `x`, and in row `x` before column `y`.
pub open spec fn square_prefix(f: (isize, isize), r: int, x: int, y: int) -> Set<(isize, isize)> {
    Set::new(
        |c: (isize, isize)|
            square_around(f, r).contains(c) && (c.0 < x || (c.0 == x && c.1 < y)),
    )
}

/// The chunks of `s` that are neither loaded nor being generated.
pub open spec fn not_started<V>(s: Set<(isize, isize)>, loaded: Map<(isize, isize), V>, pending: Set<(isize, isize)>) -> Set<(isize, isize)> {
    s.filter(|c: (isize, isize)| !loaded.contains_key(c) && !pending.contains(c))
}

/// The first `i + 1` keys are the first `i` and key `i`.
pub proof fn lemma_prefix_step<K>(keys: Seq<K>, i: int)
    requires
        0 <= i < keys.len(),
    ensures
        forall|q: K| #[trigger] keys.subrange(0, i + 1).contains(q) <==> (keys.subrange(0, i).contains(q) || q == keys[i]),
{
    assert forall|q: K| #[trigger] keys.subrange(0, i + 1).contains(q) <==> (keys.subrange(0, i).contains(q) || q
        == keys[i]) by {
        if keys.subrange(0, i + 1).contains(q) {
            let j = choose|j: int| 0 <= j < i + 1 && #[trigger] keys.subrange(0, i + 1)[j] == q;
            if j < i {
                assert(keys.subrange(0, i)[j] == q);
            }
        }
        if keys.subrange(0, i).contains(q) {
            let j = choose|j: int| 0 <= j < i && #[trigger] keys.subrange(0, i)[j] == q;
            assert(keys.subrange(0, i + 1)[j] == q);
        }
        if q == keys[i] {
            assert(keys.subrange(0, i + 1)[i] == q);
        }
    }
}

/// In a sequence without duplicates, key `i` is not among the keys before it.
pub proof fn lemma_prefix_excludes<K>(keys: Seq<K>, i: int)
    requires
        0 <= i < keys.len(),
        keys.no_duplicates(),
    ensures
        !keys.subrange(0, i).contains(keys[i]),
{
    if keys.subrange(0, i).contains(keys[i]) {
        let j = choose|j: int| 0 <= j < i && #[trigger] keys.subrange(0, i)[j] == keys[i];
        assert(keys[j] == keys[i]);
    }
}

/// Requests chunk `c` unless it is loaded or already being generated.
pub fn request_chunk<V>(
    requested: &mut CoordMap<()>,
    loaded: &CoordMap<V>,
    pending: &CoordMap<()>,
    c: (isize, isize),
)
    requires
        old(requested).wf(),
        loaded.wf(),
        pending.wf(),
    ensures
        final(requested).wf(),
        final(requested)@.dom() == (if loaded@.contains_key(c) || pending@.contains_key(c) {
            old(requested)@.dom()
        } else {
            old(requested)@.dom().insert(c)
        }),
{
    if !loaded.contains_key(c) && !pending.contains_key(c) {
        requested.insert(c, ());
    }
    assert(requested@.dom() =~= (if loaded@.contains_key(c) || pending@.contains_key(c) {
        old(requested)@.dom()
    } else {
        old(requested)@.dom().insert(c)
    }));
}

/// Requests every chunk within `r` chunks of `f` (a square) that is neither
/// loaded nor being generated.
pub fn request_square<V>(
    requested: &mut CoordMap<()>,
    loaded: &CoordMap<V>,
    pending: &CoordMap<()>,
    f: (isize, isize),
    r: usize,
)
    requires
        old(requested).wf(),
        loaded.wf(),
        pending.wf(),
    ensures
        final(requested).wf(),
        final(requested)@.dom() == old(requested)@.dom().union(
            not_started(square_around(f, r as int), loaded@, pending@.dom()),
        ),
{
    let ghost base = requested@.dom();
    let ghost sq = square_around(f, r as int);
    let lo_x: i128 = f.0 as i128 - r as i128;
    let hi_x: i128 = f.0 as i128 + r as i128;
    let lo_y: i128 = f.1 as i128 - r as i128;
    let hi_y: i128 = f.1 as i128 + r as i128;
    let mut x: i128 = lo_x;
    assert(square_prefix(f, r as int, x as int, lo_y as int) =~= Set::empty());
    while x <= hi_x
        invariant
            requested.wf(),
            loaded.wf(),
            pending.wf(),
            lo_x == f.0 - r,
            hi_x == f.0 + r,
            lo_y == f.1 - r,
            hi_y == f.1 + r,
            lo_x <= x <= hi_x + 1,
            requested@.dom() == base.union(
                not_started(square_prefix(f, r as int, x as int, lo_y as int), loaded@, pending@.dom()),
            ),
        decreases hi_x + 1 - x,
    {
        let mut y: i128 = lo_y;
        while y <= hi_y
            invariant
                requested.wf(),
                loaded.wf(),
                pending.wf(),
                lo_x <= x <= hi_x,
                lo_x == f.0 - r,
                hi_x == f.0 + r,
                lo_y == f.1 - r,
                hi_y == f.1 + r,
                lo_y <= y <= hi_y + 1,
                requested@.dom() == base.union(
                    not_started(square_prefix(f, r as int, x as int, y as int), loaded@, pending@.dom()),
                ),
            decreases hi_y + 1 - y,
        {
            let ghost before = requested@.dom();
            if isize::MIN as i128 <= x && x <= isize::MAX as i128 && isize::MIN as i128 <= y && y
                <= isize::MAX as i128 {
                let c: (isize, isize) = (x as isize, y as isize);
                request_chunk(requested, loaded, pending, c);
                assert(square_prefix(f, r as int, x as int, y + 1) =~= square_prefix(
                    f,
                    r as int,
                    x as int,
                    y as int,
                ).insert(c));
            } else {
                assert(square_prefix(f, r as int, x as int, y + 1) =~= square_prefix(
                    f,
                    r as int,
                    x as int,
                    y as int,
                ));
            }
            y = y + 1;
            assert(requested@.dom() =~= base.union(
                not_started(square_prefix(f, r as int, x as int, y as int), loaded@, pending@.dom()),
            ));
        }
        assert(square_prefix(f, r as int, x + 1, lo_y as int) =~= square_prefix(
            f,
            r as int,
            x as int,
            y as int,
        ));
        x = x + 1;
    }
    assert(square_prefix(f, r as int, x as int, lo_y as int) =~= sq);
}

/// Drops every chunk that lies more than `r` chunks away from `f`.
pub fn evict_outside<V>(loaded: &mut CoordMap<V>, f: (isize, isize), r: usize)
    requires
        old(loaded).wf(),
    ensures
        final(loaded).wf(),
        final(loaded)@ == old(loaded)@.restrict(square_around(f, r as int)),
{
    let keys = loaded.keys();
    let ghost sq = square_around(f, r as int);
    let mut i: usize = 0;
    while i < keys.len()
        invariant
            loaded.wf(),
            sq == square_around(f, r as int),
            0 <= i <= keys@.len(),
            keys@.no_duplicates(),
            forall|k: (isize, isize)| #[trigger] keys@.contains(k) <==> old(loaded)@.contains_key(k),
            loaded@ == old(loaded)@.restrict(
                Set::new(|k: (isize, isize)| sq.contains(k) || !keys@.subrange(0, i as int).contains(k)),
            ),
        decreases keys@.len() - i,
    {
        let k = keys[i];
        let inside = f.0 as i128 - r as i128 <= k.0 as i128 && k.0 as i128 <= f.0 as i128 + r as i128
            && f.1 as i128 - r as i128 <= k.1 as i128 && k.1 as i128 <= f.1 as i128 + r as i128;
        assert(inside <==> sq.contains(k));
        if !inside {
            loaded.remove(k);
        }
        proof {
            lemma_prefix_step(keys@, i as int);
        }
        i = i + 1;
        assert(loaded@ =~= old(loaded)@.restrict(
            Set::new(|k: (isize, isize)| sq.contains(k) || !keys@.subrange(0, i as int).contains(k)),
        ));
    }
    assert(keys@.subrange(0, i as int) =~= keys@);
    assert(loaded@ =~= old(loaded)@.restrict(sq));
}

/// Marks every requested chunk as pending and returns those chunks, each
/// once; the request set is left empty.
pub fn start_requested(requested: &mut CoordMap<()>, pending: &mut CoordMap<()>) -> (r: Vec<ChunkCoords>)
    requires
        old(requested).wf(),
        old(pending).wf(),
    ensures
        final(requested).wf(),
        final(pending).wf(),
        final(requested)@.dom() == Set::<(isize, isize)>::empty(),
        final(pending)@.dom() == old(pending)@.dom().union(old(requested)@.dom()),
        forall|j: int| 0 <= j < r@.len() ==> old(requested)@.contains_key(#[trigger] r@[j].key()),
        forall|k: (isize, isize)| old(requested)@.contains_key(k) ==> exists|j: int| 0 <= j < r@.len() && #[trigger] r@[j].key() == k,
        forall|a: int, b: int| 0 <= a < b < r@.len() ==> r@[a].key() != r@[b].key(),
{
    let keys = requested.keys();
    let mut out: Vec<ChunkCoords> = Vec::new();
    let mut i: usize = 0;
    while i < keys.len()
        invariant
            pending.wf(),
            0 <= i <= keys@.len(),
            keys@.no_duplicates(),
            forall|k: (isize, isize)| #[trigger] keys@.contains(k) <==> old(requested)@.contains_key(k),
            pending@.dom() == old(pending)@.dom().union(keys@.subrange(0, i as int).to_set()),
            out@.len() == i,
            forall|j: int| 0 <= j < i ==> #[trigger] out@[j].key() == keys@[j],
        decreases keys@.len() - i,
    {
        let k = keys[i];
        out.push(ChunkCoords { x: k.0, y: k.1 });
        pending.insert(k, ());
        proof {
            lemma_prefix_step(keys@, i as int);
            assert(keys@.subrange(0, i + 1).to_set() =~= keys@.subrange(0, i as int).to_set().insert(k));
        }
        i = i + 1;
        assert(pending@.dom() =~= old(pending)@.dom().union(keys@.subrange(0, i as int).to_set()));
    }
    proof {
        assert(keys@.subrange(0, i as int) =~= keys@);
        assert(keys@.to_set() =~= old(requested)@.dom());
        assert forall|j: int| 0 <= j < out@.len() implies old(requested)@.contains_key(#[trigger] out@[j].key()) by {
            assert(keys@.contains(keys@[j]));
        }
        assert forall|k: (isize, isize)| old(requested)@.contains_key(k) implies exists|j: int| 0 <= j < out@.len() && #[trigger] out@[j].key() == k by {
            assert(keys@.contains(k));
            let j = choose|j: int| 0 <= j < keys@.len() && keys@[j] == k;
            assert(out@[j].key() == k);
        }
    }
    *requested = CoordMap::new();
    assert(requested@.dom() =~= Set::<(isize, isize)>::empty());
    out
}

/// Writes every queued value whose point lies in chunk `c` into the chunk's
/// grid and removes it from the queue.
pub fn flush_queue_into<T: Copy>(
    queue: &mut CoordMap<T>,
    grid: &mut FlatGrid<T>,
    c: (isize, isize),
    d: usize,
)
    requires
        old(queue).wf(),
        old(grid).wf(),
        old(grid).side() == d,
        d > 0,
    ensures
        final(queue).wf(),
        final(grid).wf(),
        final(grid).side() == d,
        final(grid)@ == merge_queued(old(queue)@, c, d as int, old(grid)@),
        final(queue)@ == queue_outside_box(old(queue)@, c, d as int),
{
    let ghost q0 = queue@;
    let ghost cells0 = grid@;
    let ghost di = d as int;
    proof {
        assert(d <= 0x1_0000_0000) by (nonlinear_arith)
            requires
                d * d <= usize::MAX,
                usize::MAX <= 0xffff_ffff_ffff_ffff,
        ;
        assert(-0x8000_0000_0000_0000_0000_0000 <= c.0 * di <= 0x8000_0000_0000_0000_0000_0000) by (nonlinear_arith)
            requires
                0 < di <= 0x1_0000_0000,
                -0x8000_0000_0000_0000 <= c.0 <= 0x8000_0000_0000_0000,
        ;
        assert(-0x8000_0000_0000_0000_0000_0000 <= c.1 * di <= 0x8000_0000_0000_0000_0000_0000) by (nonlinear_arith)
            requires
                0 < di <= 0x1_0000_0000,
                -0x8000_0000_0000_0000 <= c.1 <= 0x8000_0000_0000_0000,
        ;
    }
    let keys = queue.keys();
    let x0: i128 = c.0 as i128 * d as i128;
    let y0: i128 = c.1 as i128 * d as i128;
    let mut i: usize = 0;
    while i < keys.len()
        invariant
            queue.wf(),
            grid.wf(),
            grid.side() == d,
            d > 0,
            d <= 0x1_0000_0000,
            di == d,
            -0x8000_0000_0000_0000_0000_0000 <= x0 <= 0x8000_0000_0000_0000_0000_0000,
            -0x8000_0000_0000_0000_0000_0000 <= y0 <= 0x8000_0000_0000_0000_0000_0000,
            x0 == c.0 * di,
            y0 == c.1 * di,
            0 <= i <= keys@.len(),
            keys@.no_duplicates(),
            forall|k: (isize, isize)| #[trigger] keys@.contains(k) <==> q0.contains_key(k),
            forall|k: (isize, isize)| #[trigger]
                queue@.contains_key(k) <==> q0.contains_key(k) && !(in_box(c, di, (k.0 as int, k.1 as int))
                    && keys@.subrange(0, i as int).contains(k)),
            forall|k: (isize, isize)| #[trigger] queue@.contains_key(k) ==> queue@[k] == q0[k],
            grid@.len() == cells0.len(),
            forall|j: int| 0 <= j < cells0.len() ==> #[trigger] grid@[j] == ({
                let q = box_point(c, di, j);
                if fits_isize(q) && q0.contains_key((q.0 as isize, q.1 as isize)) && keys@.subrange(
                    0,
                    i as int,
                ).contains((q.0 as isize, q.1 as isize)) {
                    q0[(q.0 as isize, q.1 as isize)]
                } else {
                    cells0[j]
                }
            }),
        decreases keys@.len() - i,
    {
        let k = keys[i];
        let dx: i128 = k.0 as i128 - x0;
        let dy: i128 = k.1 as i128 - y0;
        let ghost g_before = grid@;
        let ghost qu_before = queue@;
        proof {
            lemma_prefix_excludes(keys@, i as int);
            lemma_prefix_step(keys@, i as int);
            assert(keys@.contains(k));
        }
        if 0 <= dx && dx < d as i128 && 0 <= dy && dy < d as i128 {
            let lx = dx as usize;
            let ly = dy as usize;
            proof {
                lemma_box_index(c, di, lx as int, ly as int);
            }
            match queue.remove(k) {
                Some(v) => {
                    grid.set_item(lx, ly, v);
                },
                None => {},
            }
            proof {
                let idx = ly * di + lx;
                assert forall|j: int| 0 <= j < cells0.len() implies #[trigger] grid@[j] == ({
                    let q = box_point(c, di, j);
                    if fits_isize(q) && q0.contains_key((q.0 as isize, q.1 as isize)) && keys@.subrange(
                        0,
                        i + 1,
                    ).contains((q.0 as isize, q.1 as isize)) {
                        q0[(q.0 as isize, q.1 as isize)]
                    } else {
                        cells0[j]
                    }
                }) by {
                    let q = box_point(c, di, j);
                    if j != idx {
                        assert(grid@[j] == g_before[j]);
                        if fits_isize(q) && (q.0 as isize, q.1 as isize) == k {
                            assert(box_point(c, di, j) == box_point(c, di, idx));
                        }
                    }
                }
            }
        } else {
            proof {
                assert forall|j: int| 0 <= j < cells0.len() implies #[trigger] grid@[j] == ({
                    let q = box_point(c, di, j);
                    if fits_isize(q) && q0.contains_key((q.0 as isize, q.1 as isize)) && keys@.subrange(
                        0,
                        i + 1,
                    ).contains((q.0 as isize, q.1 as isize)) {
                        q0[(q.0 as isize, q.1 as isize)]
                    } else {
                        cells0[j]
                    }
                }) by {
                    let q = box_point(c, di, j);
                    if fits_isize(q) && (q.0 as isize, q.1 as isize) == k {
                        lemma_box_point_in_box(c, di, j);
                    }
                }
            }
        }
        i = i + 1;
    }
    proof {
        assert(keys@.subrange(0, i as int) =~= keys@);
        assert(grid@ =~= merge_queued(q0, c, di, cells0));
        assert(queue@ =~= queue_outside_box(q0, c, di));
    }
}

} // verus!
