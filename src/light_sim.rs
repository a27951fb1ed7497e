//! Directional light propagation over a square window of tiles.
//!
//! Each of the eight directions has its own energy buffer. In one step every
//! tile whose energy reaches the cutoff keeps what its tile transmits and
//! sends it on: along an orthogonal direction to the next tile, along a
//! diagonal one half to each of the two orthogonal neighbours. A tile
//! transmits `energy * (1000 - absorption) / 1000` of what it holds, so an
//! absorption of 1000 blocks all light. Energy that would leave the window is
//! dropped. Sums saturate at `u64::MAX`.
use crate::coords::Point;
use crate::data_map::DataMap;
use crate::directions::Direction;
use crate::light::{LightEmitterCell, LightsMapProducer};
use crate::pbr_cell::{PbrCell, PbrCellProducer};
use vstd::prelude::*;

verus! {

/// Light energy per colour channel.
#[derive(Clone, Copy, Debug, PartialEq, Eq, Structural)]
pub struct Energy {
    pub r: u64,
    pub g: u64,
    pub b: u64,
}

pub open spec fn no_energy() -> Energy {
    Energy { r: 0, g: 0, b: 0 }
}

pub open spec fn total(e: Energy) -> int {
    e.r + e.g + e.b
}

/// `x` capped at `u64::MAX`.
pub open spec fn capped(x: int) -> u64 {
    if x > u64::MAX {
        u64::MAX
    } else {
        x as u64
    }
}

pub open spec fn plus(a: Energy, b: Energy) -> Energy {
    Energy { r: capped(a.r + b.r), g: capped(a.g + b.g), b: capped(a.b + b.b) }
}

/// The share of a channel that passes a tile absorbing `a` thousandths
/// (absorption above 1000 counts as 1000).
pub open spec fn pass_channel(c: u64, a: u16) -> u64 {
    let kept = if a >= 1000 { 0int } else { 1000 - a };
    (c * kept / 1000) as u64
}

pub open spec fn transmitted(e: Energy, a: u16) -> Energy {
    Energy { r: pass_channel(e.r, a), g: pass_channel(e.g, a), b: pass_channel(e.b, a) }
}

pub open spec fn halved(e: Energy) -> Energy {
    Energy { r: e.r / 2, g: e.g / 2, b: e.b / 2 }
}

/// Whether energy takes part in a step: its channel sum reaches the cutoff.
pub open spec fn active(e: Energy, cutoff: u64) -> bool {
    total(e) >= cutoff
}

/// What a tile keeps of its own energy in a step.
pub open spec fn kept(e: Energy, a: u16, cutoff: u64) -> Energy {
    if active(e, cutoff) {
        transmitted(e, a)
    } else {
        no_energy()
    }
}

/// What a tile sends to each neighbour it reaches along `dir` in a step.
pub open spec fn sent(dir: Direction, e: Energy, a: u16, cutoff: u64) -> Energy {
    if !active(e, cutoff) {
        no_energy()
    } else if dir.spec_is_diagonal() {
        halved(transmitted(e, a))
    } else {
        transmitted(e, a)
    }
}

/// The index of the tile that reaches tile `(x, y)` by one step along `c`, if
/// that tile is in the window.
pub open spec fn source_of(c: Direction, x: int, y: int, size: int) -> Option<int> {
    let sx = x - c.delta().0;
    let sy = y - c.delta().1;
    if 0 <= sx < size && 0 <= sy < size {
        Some(sy * size + sx)
    } else {
        None
    }
}

/// What tile `(x, y)` receives from the neighbour behind it along component `c`.
pub open spec fn received(
    dir: Direction,
    c: Option<Direction>,
    buf: Seq<Energy>,
    absorption: Seq<u16>,
    size: int,
    cutoff: u64,
    x: int,
    y: int,
) -> Energy {
    match c {
        None => no_energy(),
        Some(c) => match source_of(c, x, y, size) {
            Some(j) => sent(dir, buf[j], absorption[j], cutoff),
            None => no_energy(),
        },
    }
}

/// The energy that tile `i` of the window holds for direction `dir` after
/// one step over `buf`.
pub open spec fn gathered(dir: Direction, buf: Seq<Energy>, absorption: Seq<u16>, size: int, cutoff: u64, i: int) -> Energy {
    let x = i % size;
    let y = i / size;
    plus(
        kept(buf[i], absorption[i], cutoff),
        plus(
            received(dir, Some(dir.components().0), buf, absorption, size, cutoff, x, y),
            received(dir, dir.components().1, buf, absorption, size, cutoff, x, y),
        ),
    )
}

/// The direction at position `d` in clockwise order from `N`.
pub open spec fn direction_at(d: int) -> Direction {
    if d == 0 {
        Direction::N
    } else if d == 1 {
        Direction::NE
    } else if d == 2 {
        Direction::E
    } else if d == 3 {
        Direction::SE
    } else if d == 4 {
        Direction::S
    } else if d == 5 {
        Direction::SW
    } else if d == 6 {
        Direction::W
    } else {
        Direction::NW
    }
}

/// Energy below the cutoff is inert: two buffers that agree on every tile
/// whose energy reaches the cutoff, in either buffer, give the same result in
/// every tile after a step. So a tile with energy strictly below the cutoff
/// changes nothing around it, nor keeps anything itself.
pub proof fn lemma_sub_cutoff_energy_is_inert(
    dir: Direction,
    buf1: Seq<Energy>,
    buf2: Seq<Energy>,
    absorption: Seq<u16>,
    size: int,
    cutoff: u64,
)
    requires
        size > 0,
        buf1.len() == size * size,
        buf2.len() == size * size,
        forall|j: int|
            0 <= j < size * size && (active(buf1[j], cutoff) || active(buf2[j], cutoff)) ==> #[trigger] buf1[j]
                == buf2[j],
    ensures
        forall|i: int|
            0 <= i < size * size ==> #[trigger] gathered(dir, buf1, absorption, size, cutoff, i) == gathered(
                dir,
                buf2,
                absorption,
                size,
                cutoff,
                i,
            ),
{
    assert forall|i: int| 0 <= i < size * size implies #[trigger] gathered(dir, buf1, absorption, size, cutoff, i)
        == gathered(dir, buf2, absorption, size, cutoff, i) by {
        let x = i % size;
        let y = i / size;
        assert forall|c: Option<Direction>|
            received(dir, c, buf1, absorption, size, cutoff, x, y) == #[trigger] received(
                dir,
                c,
                buf2,
                absorption,
                size,
                cutoff,
                x,
                y,
            ) by {
            if let Some(c) = c {
                if let Some(j) = source_of(c, x, y, size) {
                    crate::grid::lemma_cell_index_in_bounds(x - c.delta().0, y - c.delta().1, size);
                }
            }
        }
    }
}

/// Eight buffers, one per direction, each with `n` tiles.
pub open spec fn shaped(bufs: Seq<Vec<Energy>>, n: int) -> bool {
    &&& bufs.len() == 8
    &&& forall|d: int| 0 <= d < 8 ==> (#[trigger] bufs[d])@.len() == n
}

/// Eight buffers holding no energy anywhere.
pub open spec fn all_dark(bufs: Seq<Vec<Energy>>) -> bool {
    forall|d: int, i: int|
        0 <= d < bufs.len() && 0 <= i < bufs[d]@.len() ==> (#[trigger] bufs[d]@[i]) == no_energy()
}

fn dark_buffer(n: usize) -> (r: Vec<Energy>)
    ensures
        r@.len() == n,
        forall|i: int| 0 <= i < n ==> #[trigger] r@[i] == no_energy(),
{
    let mut r: Vec<Energy> = Vec::new();
    let mut i: usize = 0;
    while i < n
        invariant
            i <= n,
            r@.len() == i,
            forall|j: int| 0 <= j < i ==> #[trigger] r@[j] == no_energy(),
        decreases n - i,
    {
        r.push(Energy { r: 0, g: 0, b: 0 });
        i = i + 1;
    }
    r
}

fn dark_buffers(n: usize) -> (r: Vec<Vec<Energy>>)
    ensures
        shaped(r@, n as int),
        all_dark(r@),
{
    let mut r: Vec<Vec<Energy>> = Vec::new();
    let mut d: usize = 0;
    while d < 8
        invariant
            d <= 8,
            r@.len() == d,
            forall|k: int| 0 <= k < d ==> (#[trigger] r@[k])@.len() == n,
            all_dark(r@),
        decreases 8 - d,
    {
        r.push(dark_buffer(n));
        d = d + 1;
    }
    r
}

fn pass_channel_exec(c: u64, a: u16) -> (r: u64)
    ensures
        r == pass_channel(c, a),
{
    let kept: u128 = if a >= 1000 {
        0
    } else {
        (1000 - a) as u128
    };
    assert(c * kept <= u64::MAX * 1000) by (nonlinear_arith)
        requires
            0 <= kept <= 1000,
            0 <= c <= u64::MAX,
    ;
    assert(c * kept / 1000 <= c) by (nonlinear_arith)
        requires
            0 <= kept <= 1000,
            0 <= c,
    ;
    (c as u128 * kept / 1000) as u64
}

fn transmitted_exec(e: Energy, a: u16) -> (r: Energy)
    ensures
        r == transmitted(e, a),
{
    Energy { r: pass_channel_exec(e.r, a), g: pass_channel_exec(e.g, a), b: pass_channel_exec(e.b, a) }
}

fn plus_exec(a: Energy, b: Energy) -> (r: Energy)
    ensures
        r == plus(a, b),
{
    Energy { r: a.r.saturating_add(b.r), g: a.g.saturating_add(b.g), b: a.b.saturating_add(b.b) }
}

fn is_active(e: Energy, cutoff: u64) -> (r: bool)
    ensures
        r == active(e, cutoff),
{
    e.r as u128 + e.g as u128 + e.b as u128 >= cutoff as u128
}

fn sent_exec(dir: Direction, e: Energy, a: u16, cutoff: u64) -> (r: Energy)
    ensures
        r == sent(dir, e, a, cutoff),
{
    if !is_active(e, cutoff) {
        Energy { r: 0, g: 0, b: 0 }
    } else if dir.is_diagonal() {
        let t = transmitted_exec(e, a);
        Energy { r: t.r / 2, g: t.g / 2, b: t.b / 2 }
    } else {
        transmitted_exec(e, a)
    }
}

fn source_exec(c: Direction, x: usize, y: usize, size: usize) -> (r: Option<usize>)
    requires
        x < size,
        y < size,
        size * size <= usize::MAX,
    ensures
        match source_of(c, x as int, y as int, size as int) {
            Some(j) => r == Some(j as usize) && 0 <= j < size * size,
            None => r is None,
        },
{
    let (sx, sy): (usize, usize) = match c {
        Direction::N => {
            if y + 1 < size {
                (x, y + 1)
            } else {
                return None;
            }
        },
        Direction::S => {
            if y >= 1 {
                (x, y - 1)
            } else {
                return None;
            }
        },
        Direction::E => {
            if x >= 1 {
                (x - 1, y)
            } else {
                return None;
            }
        },
        Direction::W => {
            if x + 1 < size {
                (x + 1, y)
            } else {
                return None;
            }
        },
        Direction::NE => {
            if x >= 1 && y + 1 < size {
                (x - 1, y + 1)
            } else {
                return None;
            }
        },
        Direction::SE => {
            if x >= 1 && y >= 1 {
                (x - 1, y - 1)
            } else {
                return None;
            }
        },
        Direction::SW => {
            if x + 1 < size && y >= 1 {
                (x + 1, y - 1)
            } else {
                return None;
            }
        },
        Direction::NW => {
            if x + 1 < size && y + 1 < size {
                (x + 1, y + 1)
            } else {
                return None;
            }
        },
    };
    proof {
        crate::grid::lemma_cell_index_in_bounds(sx as int, sy as int, size as int);
    }
    Some(sy * size + sx)
}

fn received_exec(
    dir: Direction,
    c: Option<Direction>,
    buf: &Vec<Energy>,
    absorption: &Vec<u16>,
    size: usize,
    cutoff: u64,
    x: usize,
    y: usize,
) -> (r: Energy)
    requires
        x < size,
        y < size,
        size * size <= usize::MAX,
        buf@.len() == size * size,
        absorption@.len() == size * size,
    ensures
        r == received(dir, c, buf@, absorption@, size as int, cutoff, x as int, y as int),
{
    match c {
        None => Energy { r: 0, g: 0, b: 0 },
        Some(c) => match source_exec(c, x, y, size) {
            Some(j) => sent_exec(dir, buf[j], absorption[j], cutoff),
            None => Energy { r: 0, g: 0, b: 0 },
        },
    }
}

fn gathered_exec(
    dir: Direction,
    buf: &Vec<Energy>,
    absorption: &Vec<u16>,
    size: usize,
    cutoff: u64,
    i: usize,
) -> (r: Energy)
    requires
        0 < size,
        size * size <= usize::MAX,
        i < size * size,
        buf@.len() == size * size,
        absorption@.len() == size * size,
    ensures
        r == gathered(dir, buf@, absorption@, size as int, cutoff, i as int),
{
    proof {
        crate::producer::lemma_cell_row_col(i as int, size as int);
    }
    let x = i % size;
    let y = i / size;
    let own = if is_active(buf[i], cutoff) {
        transmitted_exec(buf[i], absorption[i])
    } else {
        Energy { r: 0, g: 0, b: 0 }
    };
    let (c0, c1) = dir.orthogonal_components();
    let from_first = received_exec(dir, c0, buf, absorption, size, cutoff, x, y);
    let from_second = received_exec(dir, c1, buf, absorption, size, cutoff, x, y);
    plus_exec(own, plus_exec(from_first, from_second))
}

/// One propagation step: adds to each tile of `write`, for each direction,
/// what that tile gathers from `read`.
pub fn simulate_directions_step(
    read: &Vec<Vec<Energy>>,
    write: &mut Vec<Vec<Energy>>,
    absorption: &Vec<u16>,
    size: usize,
    cutoff: u64,
)
    requires
        0 < size,
        size * size <= usize::MAX,
        shaped(read@, size * size),
        shaped(old(write)@, size * size),
        absorption@.len() == size * size,
    ensures
        shaped(final(write)@, size * size),
        forall|d: int, i: int|
            0 <= d < 8 && 0 <= i < size * size ==> (#[trigger] final(write)@[d]@[i]) == plus(
                old(write)@[d]@[i],
                gathered(direction_at(d), read@[d]@, absorption@, size as int, cutoff, i),
            ),
{
    let n = size * size;
    let mut next: Vec<Vec<Energy>> = Vec::new();
    let mut d: usize = 0;
    while d < 8
        invariant
            d <= 8,
            n == size * size,
            0 < size,
            size * size <= usize::MAX,
            shaped(read@, n as int),
            shaped(write@, n as int),
            absorption@.len() == n,
            next@.len() == d,
            forall|k: int| 0 <= k < d ==> (#[trigger] next@[k])@.len() == n,
            forall|k: int, i: int|
                0 <= k < d && 0 <= i < n ==> (#[trigger] next@[k]@[i]) == plus(
                    write@[k]@[i],
                    gathered(direction_at(k), read@[k]@, absorption@, size as int, cutoff, i),
                ),
        decreases 8 - d,
    {
        let dir = match Direction::try_from_index(d) {
            Some(dir) => dir,
            None => Direction::N,
        };
        assert(dir == direction_at(d as int));
        let mut buf: Vec<Energy> = Vec::new();
        let mut i: usize = 0;
        while i < n
            invariant
                i <= n,
                d < 8,
                n == size * size,
                0 < size,
                size * size <= usize::MAX,
                shaped(read@, n as int),
                shaped(write@, n as int),
                absorption@.len() == n,
                dir == direction_at(d as int),
                buf@.len() == i,
                forall|j: int| 0 <= j < i ==> (#[trigger] buf@[j]) == plus(
                    write@[d as int]@[j],
                    gathered(dir, read@[d as int]@, absorption@, size as int, cutoff, j),
                ),
            decreases n - i,
        {
            let g = gathered_exec(dir, &read[d], absorption, size, cutoff, i);
            buf.push(plus_exec(write[d][i], g));
            i = i + 1;
        }
        next.push(buf);
        d = d + 1;
    }
    *write = next;
}

/// The contents of eight direction buffers.
pub open spec fn contents(bufs: Seq<Vec<Energy>>) -> Seq<Seq<Energy>> {
    bufs.map_values(|v: Vec<Energy>| v@)
}

/// The eight direction buffers after one step over `bufs`.
pub open spec fn stepped(bufs: Seq<Seq<Energy>>, absorption: Seq<u16>, size: int, cutoff: u64) -> Seq<Seq<Energy>> {
    Seq::new(
        8,
        |d: int| Seq::new((size * size) as nat, |i: int| gathered(direction_at(d), bufs[d], absorption, size, cutoff, i)),
    )
}

/// The eight direction buffers after `steps` steps over `bufs`.
pub open spec fn simulated(bufs: Seq<Seq<Energy>>, absorption: Seq<u16>, size: int, cutoff: u64, steps: nat) -> Seq<
    Seq<Energy>,
>
    decreases steps,
{
    if steps == 0 {
        bufs
    } else {
        stepped(simulated(bufs, absorption, size, cutoff, (steps - 1) as nat), absorption, size, cutoff)
    }
}

/// The light simulation's double buffer of directional energy.
pub struct LightingBuffers {
    pub read: Vec<Vec<Energy>>,
    pub write: Vec<Vec<Energy>>,
    pub initialized: bool,
}

impl LightingBuffers {
    /// Buffers that are not sized yet.
    pub fn new() -> (r: LightingBuffers)
        ensures
            r.read@.len() == 0,
            r.write@.len() == 0,
            !r.initialized,
    {
        LightingBuffers { read: Vec::new(), write: Vec::new(), initialized: false }
    }

    /// Sizes both buffers for a window of `write_size` tiles a side, all dark.
    pub fn init(&mut self, write_size: usize)
        requires
            write_size * write_size <= usize::MAX,
        ensures
            shaped(final(self).read@, write_size * write_size),
            shaped(final(self).write@, write_size * write_size),
            all_dark(final(self).read@),
            all_dark(final(self).write@),
            final(self).initialized,
    {
        let n = write_size * write_size;
        self.read = dark_buffers(n);
        self.write = dark_buffers(n);
        self.initialized = true;
    }

    /// Makes the written buffers the ones read, and darkens the buffers written next.
    pub fn swap_buffers_clear_write(&mut self)
        requires
            shaped(old(self).read@, old(self).read@[0]@.len() as int),
        ensures
            final(self).read == old(self).write,
            shaped(final(self).write@, old(self).read@[0]@.len() as int),
            all_dark(final(self).write@),
            final(self).initialized == old(self).initialized,
    {
        let n = self.read[0].len();
        std::mem::swap(&mut self.read, &mut self.write);
        self.write = dark_buffers(n);
    }

    /// Runs `steps` propagation steps; after each the result becomes the
    /// buffer read and the written buffer is darkened.
    pub fn simulate_directions(&mut self, steps: usize, absorption: &Vec<u16>, size: usize, cutoff: u64)
        requires
            0 < size,
            size * size <= usize::MAX,
            shaped(old(self).read@, size * size),
            shaped(old(self).write@, size * size),
            absorption@.len() == size * size,
            all_dark(old(self).write@),
        ensures
            shaped(final(self).read@, size * size),
            shaped(final(self).write@, size * size),
            all_dark(final(self).write@),
            contents(final(self).read@) == simulated(contents(old(self).read@), absorption@, size as int, cutoff, steps as nat),
            final(self).initialized == old(self).initialized,
    {
        let mut step: usize = 0;
        while step < steps
            invariant
                0 < size,
                size * size <= usize::MAX,
                step <= steps,
                shaped(self.read@, size * size),
                shaped(self.write@, size * size),
                all_dark(self.write@),
                absorption@.len() == size * size,
                contents(self.read@) == simulated(contents(old(self).read@), absorption@, size as int, cutoff, step as nat),
                self.initialized == old(self).initialized,
            decreases steps - step,
        {
            let ghost before = contents(self.read@);
            simulate_directions_step(&self.read, &mut self.write, absorption, size, cutoff);
            proof {
                let n = size * size;
                assert forall|d: int| 0 <= d < 8 implies #[trigger] contents(self.write@)[d] == stepped(before, absorption@, size as int, cutoff)[d] by {
                    assert forall|i: int| 0 <= i < n implies #[trigger] self.write@[d]@[i] == stepped(before, absorption@, size as int, cutoff)[d][i] by {
                        let g = gathered(direction_at(d), before[d], absorption@, size as int, cutoff, i);
                        assert(plus(no_energy(), g) == g);
                    }
                    assert(contents(self.write@)[d] =~= stepped(before, absorption@, size as int, cutoff)[d]);
                }
                assert(contents(self.write@) =~= stepped(before, absorption@, size as int, cutoff));
            }
            self.swap_buffers_clear_write();
            step = step + 1;
        }
    }
}

/// The world tile under cell `i` of a window of `size` tiles a side whose
/// first tile is `origin`.
pub open spec fn window_point(origin: Point, size: int, i: int) -> Point {
    Point { x: (origin.x + i % size) as isize, y: (origin.y + i / size) as isize }
}

/// Whether every tile of the window has coordinates that fit in an `isize`.
pub open spec fn window_fits(origin: Point, size: int) -> bool {
    size <= isize::MAX && origin.x + size <= isize::MAX && origin.y + size <= isize::MAX
}

/// The energy an emitter cell seeds: each channel of its light's colour,
/// negative channels as 0; no energy where the map has no emitter or no data.
pub open spec fn seed_energy(cell: Option<LightEmitterCell>) -> Energy {
    match cell {
        Some(c) => match c.undirected_lights {
            Some(l) => Energy {
                r: if l.props.color@[0] > 0 { l.props.color@[0] as u64 } else { 0 },
                g: if l.props.color@[1] > 0 { l.props.color@[1] as u64 } else { 0 },
                b: if l.props.color@[2] > 0 { l.props.color@[2] as u64 } else { 0 },
            },
            None => no_energy(),
        },
        None => no_energy(),
    }
}

/// The absorption the window reads at a tile: the tile's own, or that of the
/// producer's default cell where the map has no data.
pub open spec fn absorption_of(cell: Option<PbrCell>) -> u16 {
    match cell {
        Some(c) => c.absorption,
        None => PbrCell::air().absorption,
    }
}

fn copied(v: &Vec<Energy>) -> (r: Vec<Energy>)
    ensures
        r@ == v@,
{
    let mut r: Vec<Energy> = Vec::new();
    let mut i: usize = 0;
    while i < v.len()
        invariant
            i <= v@.len(),
            r@ == v@.subrange(0, i as int),
        decreases v@.len() - i,
    {
        r.push(v[i]);
        i = i + 1;
    }
    r
}

fn channel_energy(c: i32) -> (r: u64)
    ensures
        r == (if c > 0 { c as u64 } else { 0 }),
{
    if c > 0 {
        c as u64
    } else {
        0
    }
}

fn seed_energy_exec(cell: Option<LightEmitterCell>) -> (r: Energy)
    ensures
        r == seed_energy(cell),
{
    match cell {
        Some(c) => match c.undirected_lights {
            Some(l) => Energy {
                r: channel_energy(l.props.color[0]),
                g: channel_energy(l.props.color[1]),
                b: channel_energy(l.props.color[2]),
            },
            None => Energy { r: 0, g: 0, b: 0 },
        },
        None => Energy { r: 0, g: 0, b: 0 },
    }
}

fn window_point_exec(origin: Point, size: usize, i: usize) -> (r: Point)
    requires
        0 < size,
        i < size * size,
        window_fits(origin, size as int),
    ensures
        r == window_point(origin, size as int, i as int),
{
    proof {
        crate::producer::lemma_cell_row_col(i as int, size as int);
    }
    Point { x: origin.x + (i % size) as isize, y: origin.y + (i / size) as isize }
}

/// Reads the lights map over the window, without requesting anything, into
/// every direction buffer of `write`: each emitter's energy, darkness elsewhere.
pub fn seed_from_lights(
    write: &mut Vec<Vec<Energy>>,
    lights: &DataMap<LightsMapProducer>,
    origin: Point,
    size: usize,
)
    requires
        lights.wf(),
        0 < size,
        size * size <= usize::MAX,
        window_fits(origin, size as int),
    ensures
        shaped(final(write)@, size * size),
        forall|d: int, i: int|
            0 <= d < 8 && 0 <= i < size * size ==> (#[trigger] final(write)@[d]@[i]) == seed_energy(
                lights@.lookup(window_point(origin, size as int, i)),
            ),
{
    let n = size * size;
    let mut seeds: Vec<Energy> = Vec::new();
    let mut i: usize = 0;
    while i < n
        invariant
            i <= n,
            n == size * size,
            0 < size,
            lights.wf(),
            window_fits(origin, size as int),
            seeds@.len() == i,
            forall|j: int| 0 <= j < i ==> (#[trigger] seeds@[j]) == seed_energy(
                lights@.lookup(window_point(origin, size as int, j)),
            ),
        decreases n - i,
    {
        let p = window_point_exec(origin, size, i);
        seeds.push(seed_energy_exec(lights.read(p)));
        i = i + 1;
    }
    let mut bufs: Vec<Vec<Energy>> = Vec::new();
    let mut d: usize = 0;
    while d < 8
        invariant
            d <= 8,
            seeds@.len() == n,
            bufs@.len() == d,
            forall|k: int| 0 <= k < d ==> (#[trigger] bufs@[k])@ == seeds@,
        decreases 8 - d,
    {
        bufs.push(copied(&seeds));
        d = d + 1;
    }
    *write = bufs;
}

/// The absorption of each window tile, read from the material map without
/// requesting anything.
pub fn absorption_window(pbr: &DataMap<PbrCellProducer>, origin: Point, size: usize) -> (r: Vec<u16>)
    requires
        pbr.wf(),
        0 < size,
        size * size <= usize::MAX,
        window_fits(origin, size as int),
    ensures
        r@.len() == size * size,
        forall|i: int| 0 <= i < size * size ==> #[trigger] r@[i] == absorption_of(
            pbr@.lookup(window_point(origin, size as int, i)),
        ),
{
    let n = size * size;
    let mut r: Vec<u16> = Vec::new();
    let mut i: usize = 0;
    while i < n
        invariant
            i <= n,
            n == size * size,
            0 < size,
            pbr.wf(),
            window_fits(origin, size as int),
            r@.len() == i,
            forall|j: int| 0 <= j < i ==> #[trigger] r@[j] == absorption_of(
                pbr@.lookup(window_point(origin, size as int, j)),
            ),
        decreases n - i,
    {
        let p = window_point_exec(origin, size, i);
        let a = match pbr.read(p) {
            Some(cell) => cell.absorption,
            None => 100,
        };
        r.push(a);
        i = i + 1;
    }
    r
}

/// The direction buffers seeded from the lights map over the window.
pub open spec fn seeded(lights: crate::model::MapModel<LightEmitterCell>, origin: Point, size: int) -> Seq<Seq<Energy>> {
    Seq::new(
        8,
        |d: int| Seq::new((size * size) as nat, |i: int| seed_energy(lights.lookup(window_point(origin, size, i)))),
    )
}

/// The absorption of each window tile as read from the material map.
pub open spec fn window_absorption(pbr: crate::model::MapModel<PbrCell>, origin: Point, size: int) -> Seq<u16> {
    Seq::new((size * size) as nat, |i: int| absorption_of(pbr.lookup(window_point(origin, size, i))))
}

fn is_shaped(bufs: &Vec<Vec<Energy>>, n: usize) -> (r: bool)
    ensures
        r == shaped(bufs@, n as int),
{
    if bufs.len() != 8 {
        return false;
    }
    let mut d: usize = 0;
    while d < 8
        invariant
            d <= 8,
            bufs@.len() == 8,
            forall|k: int| 0 <= k < d ==> (#[trigger] bufs@[k])@.len() == n,
        decreases 8 - d,
    {
        if bufs[d].len() != n {
            return false;
        }
        d = d + 1;
    }
    true
}

/// One tick of the light simulation over the window of `size` tiles a side
/// whose first tile is `origin`: seeds every direction from the emitters of
/// the lights map, then runs `steps` propagation steps with the absorption of
/// the material map. Neither map is asked for anything. The result is
/// `buffers.read`, one buffer per direction.
pub fn run_lights_simulation(
    buffers: &mut LightingBuffers,
    lights: &DataMap<LightsMapProducer>,
    pbr: &DataMap<PbrCellProducer>,
    origin: Point,
    size: usize,
    steps: usize,
    cutoff: u64,
)
    requires
        lights.wf(),
        pbr.wf(),
        0 < size,
        size * size <= usize::MAX,
        window_fits(origin, size as int),
    ensures
        shaped(final(buffers).read@, size * size),
        shaped(final(buffers).write@, size * size),
        final(buffers).initialized,
        contents(final(buffers).read@) == simulated(
            seeded(lights@, origin, size as int),
            window_absorption(pbr@, origin, size as int),
            size as int,
            cutoff,
            steps as nat,
        ),
{
    let n = size * size;
    if !buffers.initialized || !is_shaped(&buffers.read, n) || !is_shaped(&buffers.write, n) {
        buffers.init(size);
    }
    seed_from_lights(&mut buffers.write, lights, origin, size);
    proof {
        let sd = seeded(lights@, origin, size as int);
        assert forall|d: int| 0 <= d < 8 implies #[trigger] contents(buffers.write@)[d] == sd[d] by {
            assert(contents(buffers.write@)[d] =~= sd[d]);
        }
        assert(contents(buffers.write@) =~= sd);
    }
    buffers.swap_buffers_clear_write();
    let absorption = absorption_window(pbr, origin, size);
    assert(absorption@ =~= window_absorption(pbr@, origin, size as int));
    buffers.simulate_directions(steps, &absorption, size, cutoff);
}

} // verus!
