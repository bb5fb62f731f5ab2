use vstd::prelude::*;

use crate::buffer_utils::{filled, get_index_by_coord, index_of, Grid};

verus! {

/// A `width` by `height` grid of depth values, stored row by row. The depth
/// values are of any copyable type `T`; the renderer stores reciprocal depths.
pub struct ZBuffer<T> {
    buffer: Vec<T>,
    pub width: usize,
    pub height: usize,
}

impl<T> View for ZBuffer<T> {
    type V = Grid<T>;

    /// The buffer's dimensions and its depth values, row by row.
    closed spec fn view(&self) -> Grid<T> {
        Grid { width: self.width as nat, height: self.height as nat, cells: self.buffer@ }
    }
}

impl<T: Copy> ZBuffer<T> {
    /// A buffer of `width * height` cells, each holding `initial`.
    pub fn new(width: usize, height: usize, initial: T) -> (result: Self)
        requires
            width * height <= usize::MAX,
        ensures
            result@.width == width,
            result@.height == height,
            result@.cells == Seq::new((width * height) as nat, |i: int| initial),
    {
        Self { buffer: filled(initial, width * height), width, height }
    }

    /// The depth value at column `x`, row `y`: the cell at row-major index
    /// `y * width + x`, which must exist.
    pub fn get_pixel_value(&self, x: usize, y: usize) -> (value: T)
        requires
            index_of(x as int, y as int, self@.width as int) < self@.cells.len(),
        ensures
            value == self@.cells[index_of(x as int, y as int, self@.width as int)],
    {
        let _cell_count = self.buffer.len();
        let index = get_index_by_coord(x, y, self.width);
        self.buffer[index]
    }

    /// Stores `value` in the cell at row-major index `y * width + x`, which
    /// must exist; every other cell keeps its value.
    pub fn set_pixel_value(&mut self, x: usize, y: usize, value: T)
        requires
            index_of(x as int, y as int, old(self)@.width as int) < old(self)@.cells.len(),
        ensures
            final(self)@.width == old(self)@.width,
            final(self)@.height == old(self)@.height,
            final(self)@.cells == old(self)@.cells.update(
                index_of(x as int, y as int, old(self)@.width as int),
                value,
            ),
    {
        let _cell_count = self.buffer.len();
        let index = get_index_by_coord(x, y, self.width);
        self.buffer.set(index, value);
    }

    /// Sets every cell of the buffer to `value`.
    pub fn clear(&mut self, value: T)
        ensures
            final(self)@.width == old(self)@.width,
            final(self)@.height == old(self)@.height,
            final(self)@.cells == Seq::new(old(self)@.cells.len(), |i: int| value),
    {
        let count = self.buffer.len();
        let mut i: usize = 0;
        while i < count
            invariant
                self.buffer.len() == count,
                self.width == old(self).width,
                self.height == old(self).height,
                count == old(self)@.cells.len(),
                i <= count,
                forall|j: int| 0 <= j < i ==> self.buffer@[j] == value,
            decreases count - i,
        {
            self.buffer.set(i, value);
            i += 1;
        }
        assert(self.buffer@ =~= Seq::new(old(self)@.cells.len(), |j: int| value));
    }
}

} // verus!
