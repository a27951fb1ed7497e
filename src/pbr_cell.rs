//! How each tile interacts with light, as fractions in thousandths.
use crate::coords::ChunkCoords;
use crate::grid::{DataChunk, FlatGrid};
use crate::producer::{lemma_side_bound, MapDataProducer};
use vstd::prelude::*;

verus! {

/// Optical properties of a tile; each fraction is in thousandths (0 to 1000).
/// `absorption` is the share of the light entering the tile that the tile
/// removes: 0 lets everything through, 1000 blocks everything.
#[derive(Clone, Copy, Debug, PartialEq, Eq, Structural)]
pub struct PbrCell {
    pub transparent: bool,
    pub absorption: u16,
    pub reflection: u16,
    pub scattering: u16,
}

impl PbrCell {
    /// Clear air: transparent, absorbing a tenth of the light.
    pub open spec fn air() -> PbrCell {
        PbrCell { transparent: true, absorption: 100, reflection: 0, scattering: 100 }
    }

    /// Glass: lets most light through, reflects some.
    pub fn semi_transparent_glass() -> (r: PbrCell)
        ensures
            r.transparent == true,
            r.absorption == 100,
            r.reflection == 200,
            r.scattering == 50,
    {
        PbrCell { transparent: true, absorption: 100, reflection: 200, scattering: 50 }
    }

    /// An opaque wall that blocks all light.
    pub fn solid_wall() -> (r: PbrCell)
        ensures
            r.transparent == false,
            r.absorption == 1000,
            r.reflection == 100,
            r.scattering == 100,
    {
        PbrCell { transparent: false, absorption: 1000, reflection: 100, scattering: 100 }
    }

    /// A mirror: absorbs nothing, reflects almost everything.
    pub fn reflective_wall() -> (r: PbrCell)
        ensures
            r.transparent == false,
            r.absorption == 0,
            r.reflection == 950,
            r.scattering == 0,
    {
        PbrCell { transparent: false, absorption: 0, reflection: 950, scattering: 0 }
    }

    /// Fog that scatters much of the light.
    pub fn medium_fog() -> (r: PbrCell)
        ensures
            r.transparent == true,
            r.absorption == 200,
            r.reflection == 100,
            r.scattering == 700,
    {
        PbrCell { transparent: true, absorption: 200, reflection: 100, scattering: 700 }
    }

    /// Dense fog that absorbs and scatters more.
    pub fn heavy_fog() -> (r: PbrCell)
        ensures
            r.transparent == true,
            r.absorption == 400,
            r.reflection == 50,
            r.scattering == 900,
    {
        PbrCell { transparent: true, absorption: 400, reflection: 50, scattering: 900 }
    }
}

impl Default for PbrCell {
    fn default() -> (r: PbrCell)
        ensures
            r == PbrCell::air(),
    {
        PbrCell { transparent: true, absorption: 100, reflection: 0, scattering: 100 }
    }
}

/// Fills every tile with clear air.
#[derive(Clone, Copy, Debug, Default)]
pub struct PbrCellProducer;

impl MapDataProducer for PbrCellProducer {
    type Item = PbrCell;

    open spec fn spec_default_value(&self) -> PbrCell {
        PbrCell::air()
    }

    open spec fn generated(&self, coords: ChunkCoords, dimension_tiles: nat) -> Seq<PbrCell> {
        Seq::new(dimension_tiles * dimension_tiles, |i: int| PbrCell::air())
    }

    fn default_value(&self) -> (r: PbrCell) {
        PbrCell::default()
    }

    fn generate_chunk(&self, coords: ChunkCoords, dimension_tiles: usize) -> (r: DataChunk<PbrCell>) {
        proof {
            lemma_side_bound(dimension_tiles as int);
        }
        let grid = FlatGrid::new(dimension_tiles, PbrCell::default());
        assert(grid@ =~= self.generated(coords, dimension_tiles as nat));
        DataChunk { grid }
    }
}

} // verus!
