//! A two-dimensional grid over a flat backing vector, indexed row by row.

use vstd::prelude::*;

verus! {

/// A rectangular grid: `width` cells per row over flat row-major storage.
pub struct Grid<T> {
    width: usize,
    data: Vec<T>,
}

impl<T> View for Grid<T> {
    type V = Seq<T>;

    closed spec fn view(&self) -> Seq<T> {
        self.data@
    }
}

impl<T> Grid<T> {
    /// The row width used to flatten coordinates.
    pub closed spec fn width_spec(self) -> int {
        self.width as int
    }

    /// Wrap flat storage with a row width.
    pub fn new(width: usize, data: Vec<T>) -> (r: Grid<T>)
        ensures
            r@ == data@,
            r.width_spec() == width,
    {
        Grid { width, data }
    }

    /// The cell at column `x` of row `y`.
    pub fn at(&self, x: usize, y: usize) -> (r: &T)
        requires
            x < self.width_spec(),
            y * self.width_spec() + x < self@.len(),
        ensures
            *r == self@[y * self.width_spec() + x],
    {
        let n: usize = self.data.len();
        proof {
            assert((y as int) * (self.width as int) + (x as int) < (n as int));
        }
        &self.data[y * self.width + x]
    }

    /// Replace the cell at column `x` of row `y`.
    pub fn set(&mut self, x: usize, y: usize, v: T)
        requires
            x < old(self).width_spec(),
            y * old(self).width_spec() + x < old(self)@.len(),
        ensures
            final(self)@ == old(self)@.update(y * old(self).width_spec() + x, v),
            final(self).width_spec() == old(self).width_spec(),
    {
        let n: usize = self.data.len();
        proof {
            assert((y as int) * (self.width as int) + (x as int) < (n as int));
        }
        let idx: usize = y * self.width + x;
        self.data.set(idx, v);
    }
}

} // verus!
