//! The eight compass directions of light transport on the tile grid, with
//! `N` pointing towards smaller `y`.
use vstd::prelude::*;

verus! {

#[derive(Clone, Copy, Debug, PartialEq, Eq, Structural)]
pub enum Direction {
    N,
    NE,
    E,
    SE,
    S,
    SW,
    W,
    NW,
}

impl Direction {
    pub const ALL: [Direction; 8] = [
        Direction::N,
        Direction::NE,
        Direction::E,
        Direction::SE,
        Direction::S,
        Direction::SW,
        Direction::W,
        Direction::NW,
    ];

    /// The position of the direction in clockwise order from `N`.
    pub open spec fn spec_index(self) -> nat {
        match self {
            Direction::N => 0,
            Direction::NE => 1,
            Direction::E => 2,
            Direction::SE => 3,
            Direction::S => 4,
            Direction::SW => 5,
            Direction::W => 6,
            Direction::NW => 7,
        }
    }

    /// The step `(dx, dy)` one tile along this direction.
    pub open spec fn delta(self) -> (int, int) {
        match self {
            Direction::N => (0, -1),
            Direction::NE => (1, -1),
            Direction::E => (1, 0),
            Direction::SE => (1, 1),
            Direction::S => (0, 1),
            Direction::SW => (-1, 1),
            Direction::W => (-1, 0),
            Direction::NW => (-1, -1),
        }
    }

    pub open spec fn spec_is_diagonal(self) -> bool {
        self.delta().0 != 0 && self.delta().1 != 0
    }

    /// The orthogonal directions that make up this one: itself for an
    /// orthogonal direction, its vertical and horizontal parts for a diagonal one.
    pub open spec fn components(self) -> (Direction, Option<Direction>) {
        match self {
            Direction::N => (Direction::N, None),
            Direction::E => (Direction::E, None),
            Direction::S => (Direction::S, None),
            Direction::W => (Direction::W, None),
            Direction::NE => (Direction::N, Some(Direction::E)),
            Direction::SE => (Direction::S, Some(Direction::E)),
            Direction::SW => (Direction::S, Some(Direction::W)),
            Direction::NW => (Direction::N, Some(Direction::W)),
        }
    }

    /// `n` moved one step by `d`, stopping at zero.
    pub open spec fn moved(n: int, d: int) -> int {
        if n + d < 0 {
            0
        } else {
            n + d
        }
    }

    pub fn index(self) -> (r: usize)
        ensures
            r == self.spec_index(),
    {
        match self {
            Direction::N => 0,
            Direction::NE => 1,
            Direction::E => 2,
            Direction::SE => 3,
            Direction::S => 4,
            Direction::SW => 5,
            Direction::W => 6,
            Direction::NW => 7,
        }
    }

    /// The direction at position `value` in clockwise order from `N`, if any.
    pub fn try_from_index(value: usize) -> (r: Option<Direction>)
        ensures
            r is Some <==> value < 8,
            r matches Some(d) ==> d.spec_index() == value,
    {
        match value {
            0 => Some(Direction::N),
            1 => Some(Direction::NE),
            2 => Some(Direction::E),
            3 => Some(Direction::SE),
            4 => Some(Direction::S),
            5 => Some(Direction::SW),
            6 => Some(Direction::W),
            7 => Some(Direction::NW),
            _ => None,
        }
    }

    /// Whether the direction is `N`, `E`, `S` or `W`.
    pub fn is_orthogonal(&self) -> (r: bool)
        ensures
            r == !self.spec_is_diagonal(),
    {
        match self {
            Direction::N | Direction::E | Direction::S | Direction::W => true,
            _ => false,
        }
    }

    /// Whether the direction is `NE`, `SE`, `SW` or `NW`.
    pub fn is_diagonal(&self) -> (r: bool)
        ensures
            r == self.spec_is_diagonal(),
    {
        match self {
            Direction::NE | Direction::SE | Direction::SW | Direction::NW => true,
            _ => false,
        }
    }

    /// The orthogonal components: `(Some(self), None)` for an orthogonal
    /// direction, the vertical and the horizontal part for a diagonal one.
    pub fn orthogonal_components(&self) -> (r: (Option<Direction>, Option<Direction>))
        ensures
            r.0 == Some(self.components().0),
            r.1 == self.components().1,
    {
        match self {
            Direction::N => (Some(Direction::N), None),
            Direction::E => (Some(Direction::E), None),
            Direction::S => (Some(Direction::S), None),
            Direction::W => (Some(Direction::W), None),
            Direction::NE => (Some(Direction::N), Some(Direction::E)),
            Direction::SE => (Some(Direction::S), Some(Direction::E)),
            Direction::SW => (Some(Direction::S), Some(Direction::W)),
            Direction::NW => (Some(Direction::N), Some(Direction::W)),
        }
    }

    /// The tile one step along this direction, coordinates stopping at zero.
    pub fn get_direct_next_point(&self, x: usize, y: usize) -> (r: (usize, usize))
        requires
            x < usize::MAX,
            y < usize::MAX,
        ensures
            r.0 == Self::moved(x as int, self.delta().0),
            r.1 == Self::moved(y as int, self.delta().1),
    {
        match self {
            Direction::N => (x, y.saturating_sub(1)),
            Direction::NE => (x + 1, y.saturating_sub(1)),
            Direction::E => (x + 1, y),
            Direction::SE => (x + 1, y + 1),
            Direction::S => (x, y + 1),
            Direction::SW => (x.saturating_sub(1), y + 1),
            Direction::W => (x.saturating_sub(1), y),
            Direction::NW => (x.saturating_sub(1), y.saturating_sub(1)),
        }
    }

    /// The one or two neighbours reached by moving this way: for an orthogonal
    /// direction its single neighbour twice, for a diagonal one the neighbours
    /// along its two orthogonal components. Coordinates stop at zero.
    pub fn get_next_from(&self, x: usize, y: usize) -> (r: [(usize, usize); 2])
        requires
            x < usize::MAX,
            y < usize::MAX,
        ensures
            r@[0].0 == Self::moved(x as int, self.components().0.delta().0),
            r@[0].1 == Self::moved(y as int, self.components().0.delta().1),
            self.components().1 is None ==> r@[1] == r@[0],
            self.components().1 matches Some(h) ==> {
                &&& r@[1].0 == Self::moved(x as int, h.delta().0)
                &&& r@[1].1 == Self::moved(y as int, h.delta().1)
            },
    {
        match self {
            Direction::N => {
                let next_y = y.saturating_sub(1);
                [(x, next_y), (x, next_y)]
            },
            Direction::S => {
                let next_y = y + 1;
                [(x, next_y), (x, next_y)]
            },
            Direction::E => {
                let next_x = x + 1;
                [(next_x, y), (next_x, y)]
            },
            Direction::W => {
                let next_x = x.saturating_sub(1);
                [(next_x, y), (next_x, y)]
            },
            Direction::NE => {
                let north = (x, y.saturating_sub(1));
                let east = (x + 1, y);
                [north, east]
            },
            Direction::SE => {
                let south = (x, y + 1);
                let east = (x + 1, y);
                [south, east]
            },
            Direction::SW => {
                let south = (x, y + 1);
                let west = (x.saturating_sub(1), y);
                [south, west]
            },
            Direction::NW => {
                let north = (x, y.saturating_sub(1));
                let west = (x.saturating_sub(1), y);
                [north, west]
            },
        }
    }
}

} // verus!
