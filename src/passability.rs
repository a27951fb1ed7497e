//! How passable each tile is, and the generator that makes the world's
//! centre free and its outskirts blocked.
use crate::coords::ChunkCoords;
use crate::grid::{DataChunk, FlatGrid};
use crate::model::box_point;
use crate::producer::{chunk_tile, lemma_cell_row_col, lemma_side_bound, MapDataProducer};
use vstd::prelude::*;

verus! {

/// Passability of a tile, from 0 (blocked) to 255 (free).
#[derive(Clone, Copy, Debug, Default, PartialEq, Eq, Structural)]
pub struct Passability(pub u8);

impl Passability {
    /// A blocked tile.
    pub fn impassable() -> (r: Passability)
        ensures
            r.0 == 0,
    {
        Passability(0)
    }

    /// A fully free tile.
    pub fn free() -> (r: Passability)
        ensures
            r.0 == 255,
    {
        Passability(255)
    }
}

/// Generates passability falling off with the distance from the world origin.
#[derive(Clone, Copy, Debug, Default)]
pub struct PassabilityProducer;

/// Passability at squared distance `n` from the origin. Within distance 10
/// it is 255; beyond, it drops by 255 per 500 tiles, `255 - ceil(0.51 (dist - 10))`,
/// and becomes 0 once that is below 250. `ceil(0.51 (sqrt(n) - 10)) <= j`
/// exactly when `(100 j + 510)^2 >= 2601 n`, which gives the bounds below.
pub open spec fn passability_level(n: int) -> u8 {
    if 2601 * n <= 260100 {
        255
    } else if 2601 * n <= 372100 {
        254
    } else if 2601 * n <= 504100 {
        253
    } else if 2601 * n <= 656100 {
        252
    } else if 2601 * n <= 828100 {
        251
    } else if 2601 * n <= 1020100 {
        250
    } else {
        0
    }
}

/// The passability the generator gives world tile `(x, y)`.
pub open spec fn passability_at(x: int, y: int) -> Passability {
    Passability(passability_level(x * x + y * y))
}

fn passability_cell(x: i128, y: i128) -> (r: Passability)
    ensures
        r == passability_at(x as int, y as int),
{
    if -40 <= x && x <= 40 && -40 <= y && y <= 40 {
        assert(0 <= x * x <= 1600 && 0 <= y * y <= 1600) by (nonlinear_arith)
            requires
                -40 <= x <= 40,
                -40 <= y <= 40,
        ;
        let n: i128 = x * x + y * y;
        let level: u8 = if 2601 * n <= 260100 {
            255
        } else if 2601 * n <= 372100 {
            254
        } else if 2601 * n <= 504100 {
            253
        } else if 2601 * n <= 656100 {
            252
        } else if 2601 * n <= 828100 {
            251
        } else if 2601 * n <= 1020100 {
            250
        } else {
            0
        };
        Passability(level)
    } else {
        assert(x * x + y * y > 1600) by (nonlinear_arith)
            requires
                !(-40 <= x <= 40 && -40 <= y <= 40),
        ;
        Passability(0)
    }
}

impl MapDataProducer for PassabilityProducer {
    type Item = Passability;

    open spec fn spec_default_value(&self) -> Passability {
        Passability(0)
    }

    open spec fn generated(&self, coords: ChunkCoords, dimension_tiles: nat) -> Seq<Passability> {
        Seq::new(
            dimension_tiles * dimension_tiles,
            |i: int|
                {
                    let q = box_point(coords.key(), dimension_tiles as int, i);
                    passability_at(q.0, q.1)
                },
        )
    }

    fn default_value(&self) -> (r: Passability) {
        Passability::impassable()
    }

    fn generate_chunk(&self, coords: ChunkCoords, dimension_tiles: usize) -> (r: DataChunk<Passability>) {
        let d = dimension_tiles;
        proof {
            lemma_side_bound(d as int);
        }
        let total = d * d;
        let mut cells: Vec<Passability> = Vec::new();
        let mut i: usize = 0;
        while i < total
            invariant
                0 < d <= 0x1_0000_0000,
                total == d * d,
                i <= total,
                cells@.len() == i,
                forall|j: int| 0 <= j < i ==> #[trigger] cells@[j] == self.generated(coords, d as nat)[j],
            decreases total - i,
        {
            proof {
                lemma_cell_row_col(i as int, d as int);
            }
            let x = chunk_tile(coords.x, d, i % d);
            let y = chunk_tile(coords.y, d, i / d);
            cells.push(passability_cell(x, y));
            i = i + 1;
        }
        assert(cells@ =~= self.generated(coords, d as nat));
        DataChunk { grid: FlatGrid::from_cells(d, cells) }
    }
}

} // verus!
