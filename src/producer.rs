//! The pluggable capability that fills chunks with content.
use crate::coords::ChunkCoords;
use crate::grid::DataChunk;
use vstd::prelude::*;

verus! {

/// A chunk side whose square fits in a `usize` is at most `2^32`.
pub proof fn lemma_side_bound(d: int)
    requires
        0 < d,
        d * d <= usize::MAX,
    ensures
        d <= 0x1_0000_0000,
{
    assert(d <= 0x1_0000_0000) by (nonlinear_arith)
        requires
            0 < d,
            d * d <= usize::MAX,
            usize::MAX <= 0xffff_ffff_ffff_ffff,
    ;
}

/// The row and column of cell `i` of a `d`-sided chunk are both below `d`.
pub proof fn lemma_cell_row_col(i: int, d: int)
    requires
        0 < d,
        0 <= i < d * d,
    ensures
        0 <= i % d < d,
        0 <= i / d < d,
{
    vstd::arithmetic::div_mod::lemma_fundamental_div_mod(i, d);
    vstd::arithmetic::div_mod::lemma_mod_bound(i, d);
    vstd::arithmetic::div_mod::lemma_div_pos_is_pos(i, d);
    if i / d >= d {
        assert(false) by (nonlinear_arith)
            requires
                i == d * (i / d) + i % d,
                i / d >= d,
                i % d >= 0,
                i < d * d,
                d > 0,
        ;
    }
}

/// The world tile coordinate `coord * d + offset` along one axis of a chunk.
pub fn chunk_tile(coord: isize, d: usize, offset: usize) -> (r: i128)
    requires
        0 < d <= 0x1_0000_0000,
        offset < d,
    ensures
        r == coord * d + offset,
        -0x1_0000_0000_0000_0000_0000_0000 <= r <= 0x1_0000_0000_0000_0000_0000_0000,
{
    assert(-0x8000_0000_0000_0000_0000_0000 <= coord * d <= 0x8000_0000_0000_0000_0000_0000) by (nonlinear_arith)
        requires
            0 < d <= 0x1_0000_0000,
            -0x8000_0000_0000_0000 <= coord <= 0x8000_0000_0000_0000,
    ;
    coord as i128 * d as i128 + offset as i128
}

/// Generates map content for one cell type. Generation depends on the chunk
/// coordinates and dimension alone, so a chunk generated twice comes out the same.
pub trait MapDataProducer: Sized {
    type Item: Copy;

    /// The value reported for a tile whose chunk is not generated yet.
    spec fn spec_default_value(&self) -> Self::Item;

    /// The cells, row-major, of the chunk generated at `coords`.
    spec fn generated(&self, coords: ChunkCoords, dimension_tiles: nat) -> Seq<Self::Item>;

    fn default_value(&self) -> (r: Self::Item)
        ensures
            r == self.spec_default_value(),
    ;

    fn generate_chunk(&self, coords: ChunkCoords, dimension_tiles: usize) -> (r: DataChunk<Self::Item>)
        requires
            0 < dimension_tiles,
            dimension_tiles * dimension_tiles <= usize::MAX,
        ensures
            r.grid.wf(),
            r.grid.side() == dimension_tiles,
            r.grid@ == self.generated(coords, dimension_tiles as nat),
    ;
}

} // verus!
