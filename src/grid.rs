//! A fixed-size square grid of cells stored row-major, and the chunk that owns one.
use vstd::prelude::*;

verus! {

/// `y * d + x < d * d` for a cell inside a `d`-sided grid.
pub proof fn lemma_cell_index_in_bounds(x: int, y: int, d: int)
    requires
        0 <= x < d,
        0 <= y < d,
    ensures
        0 <= y * d + x < d * d,
{
    assert(y * d + x < d * d) by (nonlinear_arith)
        requires
            0 <= x < d,
            0 <= y < d,
    ;
    assert(0 <= y * d) by (nonlinear_arith)
        requires
            0 <= y,
            0 <= d,
    ;
}

/// A square grid of `dimension * dimension` cells, addressed by local
/// coordinates `x, y` in `[0, dimension)` and stored at index `y * dimension + x`.
#[derive(Clone, Debug)]
pub struct FlatGrid<T> {
    data: Vec<T>,
    dimension: usize,
}

impl<T: Copy> FlatGrid<T> {
    /// All cells, row-major.
    pub closed spec fn view(&self) -> Seq<T> {
        self.data@
    }

    /// The side length.
    pub closed spec fn side(&self) -> nat {
        self.dimension as nat
    }

    /// The grid holds exactly `side * side` cells.
    pub open spec fn wf(&self) -> bool {
        &&& self@.len() == self.side() * self.side()
        &&& self.side() * self.side() <= usize::MAX
    }

    pub open spec fn in_bounds(&self, x: int, y: int) -> bool {
        0 <= x < self.side() && 0 <= y < self.side()
    }

    /// The cell at local coordinates `(x, y)`.
    pub open spec fn cell(&self, x: int, y: int) -> T {
        self@[y * self.side() + x]
    }

    /// A grid of the given side with every cell set to `default_value`.
    pub fn new(dimension: usize, default_value: T) -> (r: FlatGrid<T>)
        requires
            dimension * dimension <= usize::MAX,
        ensures
            r.wf(),
            r.side() == dimension,
            forall|i: int| 0 <= i < r@.len() ==> r@[i] == default_value,
    {
        let num_elements = dimension * dimension;
        let mut data: Vec<T> = Vec::new();
        let mut i: usize = 0;
        while i < num_elements
            invariant
                i <= num_elements,
                data@.len() == i,
                forall|j: int| 0 <= j < i ==> data@[j] == default_value,
            decreases num_elements - i,
        {
            data.push(default_value);
            i = i + 1;
        }
        FlatGrid { data, dimension }
    }

    /// A grid of the given side holding `cells`, row-major.
    pub fn from_cells(dimension: usize, cells: Vec<T>) -> (r: FlatGrid<T>)
        requires
            cells@.len() == dimension * dimension,
            dimension * dimension <= usize::MAX,
        ensures
            r.wf(),
            r.side() == dimension,
            r@ == cells@,
    {
        FlatGrid { data: cells, dimension }
    }

    fn calculate_index(&self, x: usize, y: usize) -> (r: Option<usize>)
        requires
            self.wf(),
        ensures
            r is Some <==> self.in_bounds(x as int, y as int),
            r matches Some(i) ==> i == y * self.side() + x && i < self@.len(),
    {
        if x < self.dimension && y < self.dimension {
            proof {
                lemma_cell_index_in_bounds(x as int, y as int, self.dimension as int);
            }
            Some(y * self.dimension + x)
        } else {
            None
        }
    }

    /// The number of cells stored.
    pub fn cell_count(&self) -> (r: usize)
        ensures
            r == self@.len(),
    {
        self.data.len()
    }

    pub fn dimension(&self) -> (r: usize)
        ensures
            r == self.side(),
    {
        self.dimension
    }

    /// The cell at `(x, y)`, or `None` outside the grid.
    pub fn get_item(&self, x: usize, y: usize) -> (r: Option<&T>)
        requires
            self.wf(),
        ensures
            r is Some <==> self.in_bounds(x as int, y as int),
            r matches Some(v) ==> *v == self.cell(x as int, y as int),
    {
        match self.calculate_index(x, y) {
            Some(idx) => Some(&self.data[idx]),
            None => None,
        }
    }

    /// A mutable reference to the cell at `(x, y)`, or `None` outside the grid.
    pub fn get_item_mut(&mut self, x: usize, y: usize) -> (r: Option<&mut T>)
        requires
            old(self).wf(),
        ensures
            r is Some <==> old(self).in_bounds(x as int, y as int),
            r matches Some(v) ==> {
                &&& *v == old(self).cell(x as int, y as int)
                &&& final(self)@ == old(self)@.update(y * old(self).side() + x, *final(v))
                &&& final(self).side() == old(self).side()
            },
            r is None ==> *final(self) == *old(self),
    {
        match self.calculate_index(x, y) {
            Some(idx) => Some(&mut self.data[idx]),
            None => None,
        }
    }

    /// Writes the cell at `(x, y)`; returns `false`, changing nothing, outside the grid.
    pub fn set_item(&mut self, x: usize, y: usize, item: T) -> (r: bool)
        requires
            old(self).wf(),
        ensures
            r == old(self).in_bounds(x as int, y as int),
            final(self).side() == old(self).side(),
            final(self).wf(),
            r ==> final(self)@ == old(self)@.update(y * old(self).side() + x, item),
            !r ==> final(self)@ == old(self)@,
    {
        match self.calculate_index(x, y) {
            Some(idx) => {
                self.data.set(idx, item);
                true
            },
            None => false,
        }
    }

    pub fn as_slice(&self) -> (r: &[T])
        ensures
            r@ == self@,
    {
        self.data.as_slice()
    }

    pub fn as_mut_slice(&mut self) -> (r: &mut [T])
        ensures
            r@ == old(self)@,
            final(r)@ == final(self)@,
            final(self).side() == old(self).side(),
    {
        self.data.as_mut_slice()
    }
}

/// One generated chunk; the owning map knows its coordinates.
#[derive(Clone, Debug)]
pub struct DataChunk<T> {
    pub grid: FlatGrid<T>,
}

} // verus!
