//! The display pixel buffer: a two-dimensional boolean grid held in an
//! `ndarray::Array2`, observed in specifications through the abstract view
//! [`grid_of`] (a sequence of columns, each a sequence of pixel states).

use vstd::prelude::*;

verus! {

/// A two-dimensional grid of pixel states, one boolean per cell, backed by
/// `ndarray::Array2<bool>`. The first coordinate selects the column, the
/// second the row, matching `ndarray`'s axis order for a shape `[w, h]`.
#[verifier::external_body]
pub struct PixelGrid {
    cells: ndarray::Array2<bool>,
}

/// What the grid holds: the pixel state at each coordinate pair, as a
/// sequence (indexed by the first axis) of sequences (indexed by the second).
pub uninterp spec fn grid_of(g: PixelGrid) -> Seq<Seq<bool>>;

impl PixelGrid {
    /// Relies on `ndarray::Array2::from_elem`: builds an array of the given
    /// shape with every element a clone of the given one.
    #[verifier::external_body]
    pub fn new(w: usize, h: usize, v: bool) -> (g: PixelGrid)
        ensures
            grid_of(g) == Seq::new(w as nat, |x: int| Seq::new(h as nat, |y: int| v)),
    {
        PixelGrid { cells: ndarray::Array2::from_elem([w, h], v) }
    }

    /// Relies on `ndarray`'s `Index<(usize, usize)>` impl: yields the element
    /// at the given pair of axis positions.
    #[verifier::external_body]
    pub fn get(&self, x: usize, y: usize) -> (b: bool)
        requires
            x < grid_of(*self).len(),
            y < grid_of(*self)[x as int].len(),
        ensures
            b == grid_of(*self)[x as int][y as int],
    {
        self.cells[(x, y)]
    }

    /// Relies on `ndarray`'s `IndexMut<(usize, usize)>` impl: replaces the
    /// element at the given pair of axis positions, leaving the rest alone.
    #[verifier::external_body]
    pub fn set(&mut self, x: usize, y: usize, v: bool)
        requires
            x < grid_of(*old(self)).len(),
            y < grid_of(*old(self))[x as int].len(),
        ensures
            grid_of(*final(self)) == grid_of(*old(self)).update(
                x as int,
                grid_of(*old(self))[x as int].update(y as int, v),
            ),
    {
        self.cells[(x, y)] = v;
    }

    /// Relies on `ndarray::ArrayBase::fill`: assigns a clone of the given
    /// element to every position, keeping the shape.
    #[verifier::external_body]
    pub fn fill(&mut self, v: bool)
        ensures
            grid_of(*final(self)).len() == grid_of(*old(self)).len(),
            forall|x: int|
                0 <= x < grid_of(*old(self)).len() ==> #[trigger] grid_of(*final(self))[x]
                    == Seq::new(grid_of(*old(self))[x].len(), |y: int| v),
    {
        self.cells.fill(v);
    }
}

} // verus!
