//! Tile and chunk coordinates, with floor-based conversions that stay correct
//! for negative coordinates.
use vstd::arithmetic::div_mod::{lemma_fundamental_div_mod, lemma_mod_bound};
use vstd::prelude::*;

verus! {

/// Floor division of `a` by a positive `d` (Euclidean division, which agrees
/// with flooring when the divisor is positive).
pub open spec fn floor_div(a: int, d: int) -> int {
    a / d
}

/// The non-negative remainder of `a` by a positive `d`.
pub open spec fn floor_mod(a: int, d: int) -> int {
    a % d
}

/// Absolute world-tile coordinate.
#[derive(Clone, Copy, Debug, PartialEq, Eq, Hash, Structural)]
pub struct Point {
    pub x: isize,
    pub y: isize,
}

/// Absolute chunk coordinate.
#[derive(Clone, Copy, Debug, PartialEq, Eq, Hash, Structural)]
pub struct ChunkCoords {
    pub x: isize,
    pub y: isize,
}

impl Point {
    /// The point as a pair of integers, the key under which tables store it.
    pub open spec fn key(self) -> (isize, isize) {
        (self.x, self.y)
    }

    /// The chunk that holds this point, for chunks of `d` tiles a side.
    pub open spec fn chunk_of(self, d: int) -> ChunkCoords {
        ChunkCoords { x: floor_div(self.x as int, d) as isize, y: floor_div(self.y as int, d) as isize }
    }

    /// The point's position inside its chunk, each component in `[0, d)`.
    pub open spec fn local_of(self, d: int) -> (int, int) {
        (floor_mod(self.x as int, d), floor_mod(self.y as int, d))
    }

    pub fn new(x: isize, y: isize) -> (r: Point)
        ensures
            r.x == x,
            r.y == y,
    {
        Point { x, y }
    }

    /// Component-wise sum.
    pub fn add(self, other: Point) -> (r: Point)
        requires
            isize::MIN <= self.x + other.x <= isize::MAX,
            isize::MIN <= self.y + other.y <= isize::MAX,
        ensures
            r.x == self.x + other.x,
            r.y == self.y + other.y,
    {
        Point { x: self.x + other.x, y: self.y + other.y }
    }

    /// Component-wise difference.
    pub fn sub(self, other: Point) -> (r: Point)
        requires
            isize::MIN <= self.x - other.x <= isize::MAX,
            isize::MIN <= self.y - other.y <= isize::MAX,
        ensures
            r.x == self.x - other.x,
            r.y == self.y - other.y,
    {
        Point { x: self.x - other.x, y: self.y - other.y }
    }
}

/// The floor of `a / d` for a positive `d`.
pub fn floor_div_exec(a: isize, d: isize) -> (r: isize)
    requires
        d > 0,
    ensures
        r == floor_div(a as int, d as int),
{
    proof {
        lemma_fundamental_div_mod(a as int, d as int);
        lemma_mod_bound(a as int, d as int);
        assert(a / d <= a || a < 0);
        assert(isize::MIN <= (a as int) / (d as int) <= isize::MAX) by (nonlinear_arith)
            requires
                d > 0,
                a == d * (a / d) + a % d,
                0 <= a % d < d,
                isize::MIN <= a <= isize::MAX,
        ;
    }
    match a.checked_div_euclid(d) {
        Some(q) => q,
        None => 0,
    }
}

/// The remainder of `a` by a positive `d`, always in `[0, d)`.
pub fn floor_mod_exec(a: isize, d: isize) -> (r: isize)
    requires
        d > 0,
    ensures
        r == floor_mod(a as int, d as int),
        0 <= r < d,
{
    proof {
        lemma_mod_bound(a as int, d as int);
    }
    match a.checked_rem_euclid(d) {
        Some(m) => m,
        None => 0,
    }
}

impl ChunkCoords {
    pub open spec fn key(self) -> (isize, isize) {
        (self.x, self.y)
    }

    /// The tile at the chunk's bottom-left corner, as integers.
    pub open spec fn corner(self, d: int) -> (int, int) {
        (self.x * d, self.y * d)
    }

    /// Whether the point lies in this chunk's tile box:
    /// corner <= point < corner + d on both axes.
    pub open spec fn holds(self, p: Point, d: int) -> bool {
        &&& self.x * d <= p.x < self.x * d + d
        &&& self.y * d <= p.y < self.y * d + d
    }

    /// Converts a world tile point to the chunk that holds it (floor division).
    pub fn from_point(point: Point, chunk_dimension_tiles: usize) -> (r: ChunkCoords)
        requires
            0 < chunk_dimension_tiles <= isize::MAX,
        ensures
            r == point.chunk_of(chunk_dimension_tiles as int),
    {
        let d = chunk_dimension_tiles as isize;
        ChunkCoords { x: floor_div_exec(point.x, d), y: floor_div_exec(point.y, d) }
    }

    /// The world tile point of the chunk's bottom-left corner.
    pub fn to_bottom_left_tile_point(&self, chunk_dimension_tiles: usize) -> (r: Point)
        requires
            chunk_dimension_tiles <= isize::MAX,
            isize::MIN <= self.x * chunk_dimension_tiles <= isize::MAX,
            isize::MIN <= self.y * chunk_dimension_tiles <= isize::MAX,
        ensures
            r.x == self.x * chunk_dimension_tiles,
            r.y == self.y * chunk_dimension_tiles,
    {
        let d = chunk_dimension_tiles as isize;
        Point { x: self.x * d, y: self.y * d }
    }
}

/// The position of a point inside its chunk, each component in `[0, d)`.
pub fn local_from_tile(point: Point, chunk_dimension_tiles: usize) -> (r: (usize, usize))
    requires
        0 < chunk_dimension_tiles <= isize::MAX,
    ensures
        r.0 as int == point.local_of(chunk_dimension_tiles as int).0,
        r.1 as int == point.local_of(chunk_dimension_tiles as int).1,
        r.0 < chunk_dimension_tiles,
        r.1 < chunk_dimension_tiles,
{
    let d = chunk_dimension_tiles as isize;
    let lx = floor_mod_exec(point.x, d);
    let ly = floor_mod_exec(point.y, d);
    (lx as usize, ly as usize)
}

/// A tile lies in the chunk that `chunk_of` gives it, at the offset that
/// `local_of` gives it: for every integer coordinate, negative ones included,
/// `chunk * d <= p < chunk * d + d` and `p == chunk * d + local` on both axes.
pub proof fn lemma_tile_in_its_chunk(p: Point, d: int)
    requires
        d > 0,
    ensures
        p.chunk_of(d).holds(p, d),
        p.x == floor_div(p.x as int, d) * d + p.local_of(d).0,
        p.y == floor_div(p.y as int, d) * d + p.local_of(d).1,
        0 <= p.local_of(d).0 < d,
        0 <= p.local_of(d).1 < d,
{
    lemma_fundamental_div_mod(p.x as int, d);
    lemma_fundamental_div_mod(p.y as int, d);
    lemma_mod_bound(p.x as int, d);
    lemma_mod_bound(p.y as int, d);
    lemma_floor_div_in_range(p.x as int, d);
    lemma_floor_div_in_range(p.y as int, d);
}

/// The floor of an `isize` divided by a positive number is an `isize`.
pub proof fn lemma_floor_div_in_range(a: int, d: int)
    requires
        d > 0,
        isize::MIN <= a <= isize::MAX,
    ensures
        isize::MIN <= floor_div(a, d) <= isize::MAX,
        floor_div(a, d) * d <= a < floor_div(a, d) * d + d,
        a == floor_div(a, d) * d + floor_mod(a, d),
{
    lemma_fundamental_div_mod(a, d);
    lemma_mod_bound(a, d);
    assert(isize::MIN <= a / d <= isize::MAX) by (nonlinear_arith)
        requires
            d > 0,
            a == d * (a / d) + a % d,
            0 <= a % d < d,
            isize::MIN <= a <= isize::MAX,
    ;
    assert(floor_div(a, d) * d == d * (a / d)) by (nonlinear_arith);
}

} // verus!
