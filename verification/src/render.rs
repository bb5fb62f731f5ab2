use vstd::prelude::*;

use crate::buffer_utils::{
    filled, index_of, lemma_cell_of_index, lemma_coords_of_index, lemma_index_in_grid,
};

verus! {

/// A render target: a `width` by `height` grid of packed colors and, beside
/// it, a grid of depth values of type `Z`, both stored row by row.
pub struct ColorBuffer<Z> {
    pub buffer: Vec<u32>,
    pub zbuffer: Vec<Z>,
    pub width: usize,
    pub height: usize,
}

impl<Z> ColorBuffer<Z> {
    /// Whether column `x`, row `y` lies inside the buffer's dimensions.
    pub open spec fn in_bounds(&self, x: int, y: int) -> bool {
        0 <= x < self.width && 0 <= y < self.height
    }

    /// Whether every cell of the `width` by `height` grid exists in both the
    /// color and the depth buffer.
    pub open spec fn holds_grid(&self) -> bool {
        &&& self.width * self.height <= self.buffer.len()
        &&& self.width * self.height <= self.zbuffer.len()
    }

    /// The row-major index of column `x`, row `y`.
    pub open spec fn index(&self, x: int, y: int) -> int {
        index_of(x, y, self.width as int)
    }

    /// The buffers' dimensions are those of `other`.
    pub open spec fn same_shape(&self, other: &Self) -> bool {
        &&& self.width == other.width
        &&& self.height == other.height
        &&& self.buffer.len() == other.buffer.len()
        &&& self.zbuffer.len() == other.zbuffer.len()
    }
}

impl<Z: Copy> ColorBuffer<Z> {
    /// A buffer of `width * height` pixels, all colored `0`, each with depth
    /// `depth`.
    pub fn new(width: usize, height: usize, depth: Z) -> (result: Self)
        requires
            width * height <= usize::MAX,
        ensures
            result.width == width,
            result.height == height,
            result.buffer@ == Seq::new((width * height) as nat, |i: int| 0u32),
            result.zbuffer@ == Seq::new((width * height) as nat, |i: int| depth),
    {
        Self {
            buffer: filled(0u32, width * height),
            zbuffer: filled(depth, width * height),
            width,
            height,
        }
    }

    /// The color stored at row-major index `y * width + x`, which must exist.
    pub fn get_pixel(&self, x: usize, y: usize) -> (color: u32)
        requires
            self.index(x as int, y as int) < self.buffer.len(),
        ensures
            color == self.buffer@[self.index(x as int, y as int)],
    {
        let _cell_count = self.buffer.len();
        proof {
            lemma_row_fits(y as int, self.width as int, x as int);
        }
        self.buffer[y * self.width + x]
    }

    /// Colors the pixel at column `x`, row `y` with `color`; a position
    /// outside the buffer's dimensions changes nothing.
    pub fn set_pixel(&mut self, x: usize, y: usize, color: u32)
        requires
            old(self).in_bounds(x as int, y as int) ==> old(self).index(x as int, y as int) < old(
                self,
            ).buffer.len(),
        ensures
            final(self).same_shape(old(self)),
            final(self).zbuffer == old(self).zbuffer,
            final(self).buffer@ == (if old(self).in_bounds(x as int, y as int) {
                old(self).buffer@.update(old(self).index(x as int, y as int), color)
            } else {
                old(self).buffer@
            }),
    {
        if y >= self.height || x >= self.width {
            return ;
        }
        proof {
            lemma_row_fits(y as int, self.width as int, x as int);
        }
        let index = y * self.width + x;
        self.buffer.set(index, color);
    }

    /// Colors the pixel at column `x`, row `y` with `color` and stores
    /// `reciprocal_z` as its depth, when the position lies inside the buffer's
    /// dimensions and `is_nearer(stored depth, reciprocal_z)` answers `true`;
    /// otherwise nothing changes.
    pub fn set_pixel_zcell<F: Fn(Z, Z) -> bool>(
        &mut self,
        x: usize,
        y: usize,
        reciprocal_z: Z,
        color: u32,
        is_nearer: F,
    )
        requires
            old(self).in_bounds(x as int, y as int) ==> {
                &&& old(self).index(x as int, y as int) < old(self).buffer.len()
                &&& old(self).index(x as int, y as int) < old(self).zbuffer.len()
            },
            forall|stored: Z, incoming: Z| is_nearer.requires((stored, incoming)),
        ensures
            final(self).same_shape(old(self)),
            !old(self).in_bounds(x as int, y as int) ==> *final(self) == *old(self),
            old(self).in_bounds(x as int, y as int) ==> {
                let index = old(self).index(x as int, y as int);
                let stored = old(self).zbuffer@[index];
                ||| {
                    &&& is_nearer.ensures((stored, reciprocal_z), true)
                    &&& final(self).buffer@ == old(self).buffer@.update(index, color)
                    &&& final(self).zbuffer@ == old(self).zbuffer@.update(index, reciprocal_z)
                }
                ||| {
                    &&& is_nearer.ensures((stored, reciprocal_z), false)
                    &&& *final(self) == *old(self)
                }
            },
    {
        if y >= self.height || x >= self.width {
            return ;
        }
        proof {
            lemma_row_fits(y as int, self.width as int, x as int);
        }
        let index = y * self.width + x;
        if is_nearer(self.zbuffer[index], reciprocal_z) {
            self.buffer.set(index, color);
            self.zbuffer.set(index, reciprocal_z);
        }
    }

    /// Colors the first `width * height` pixels with `color` and gives each of
    /// them the depth `depth`; cells past them keep their values.
    pub fn clear(&mut self, color: u32, depth: Z)
        requires
            old(self).holds_grid(),
        ensures
            final(self).same_shape(old(self)),
            forall|i: int|
                0 <= i < old(self).buffer.len() ==> #[trigger] final(self).buffer@[i] == (if i
                    < old(self).width * old(self).height {
                    color
                } else {
                    old(self).buffer@[i]
                }),
            forall|i: int|
                0 <= i < old(self).zbuffer.len() ==> #[trigger] final(self).zbuffer@[i] == (if i
                    < old(self).width * old(self).height {
                    depth
                } else {
                    old(self).zbuffer@[i]
                }),
    {
        let _cell_count = self.buffer.len();
        let count = self.width * self.height;
        let mut index: usize = 0;
        while index < count
            invariant
                self.same_shape(old(self)),
                count == old(self).width * old(self).height,
                old(self).holds_grid(),
                index <= count,
                forall|i: int|
                    0 <= i < old(self).buffer.len() ==> #[trigger] self.buffer@[i] == (if i
                        < index {
                        color
                    } else {
                        old(self).buffer@[i]
                    }),
                forall|i: int|
                    0 <= i < old(self).zbuffer.len() ==> #[trigger] self.zbuffer@[i] == (if i
                        < index {
                        depth
                    } else {
                        old(self).zbuffer@[i]
                    }),
            decreases count - index,
        {
            self.buffer.set(index, color);
            self.zbuffer.set(index, depth);
            index += 1;
        }
    }
}

/// Whether column `x`, row `y` is one of the dots of a grid with a dot every
/// `step` pixels, starting at the origin.
pub open spec fn on_dot_grid(x: int, y: int, step: int) -> bool {
    x % step == 0 && y % step == 0
}

/// Whether the pixel at row-major index `i` of a buffer `width` pixels wide
/// comes, in row-major order, before column `x` of row `y`.
pub open spec fn before_in_rows(i: int, width: int, x: int, y: int) -> bool {
    i / width < y || (i / width == y && i % width < x)
}

/// Draws a dot every `step` pixels, in both directions, starting at the
/// origin: the pixels of the grid inside the buffer's dimensions get `color`,
/// every other cell keeps its value.
pub fn draw_dot_grid<Z: Copy>(color_buffer: &mut ColorBuffer<Z>, step: usize, color: u32)
    requires
        step > 0,
        forall|x: int, y: int|
            old(color_buffer).in_bounds(x, y) && #[trigger] on_dot_grid(x, y, step as int)
                ==> old(color_buffer).index(x, y) < old(color_buffer).buffer.len(),
    ensures
        final(color_buffer).same_shape(old(color_buffer)),
        final(color_buffer).zbuffer == old(color_buffer).zbuffer,
        forall|i: int|
            0 <= i < old(color_buffer).buffer.len() ==> #[trigger] final(color_buffer).buffer@[i]
                == (if i < old(color_buffer).width * old(color_buffer).height && on_dot_grid(
                i % old(color_buffer).width as int,
                i / old(color_buffer).width as int,
                step as int,
            ) {
                color
            } else {
                old(color_buffer).buffer@[i]
            }),
{
    let width = color_buffer.width;
    let height = color_buffer.height;
    let ghost old_buffer = color_buffer.buffer@;
    let ghost cells = width * height;
    let mut y: usize = 0;
    proof {
        assert forall|i: int| 0 <= i < old_buffer.len() implies #[trigger]
            color_buffer.buffer@[i] == (if i < cells && on_dot_grid(
            i % width as int,
            i / width as int,
            step as int,
        ) && (i / width as int) < y {
            color
        } else {
            old_buffer[i]
        }) by {
            if i < cells {
                lemma_cell_of_index(i, width as int, height as int);
            }
        }
    }
    while y < height
        invariant
            color_buffer.same_shape(old(color_buffer)),
            color_buffer.zbuffer == old(color_buffer).zbuffer,
            width == color_buffer.width,
            height == color_buffer.height,
            old_buffer == old(color_buffer).buffer@,
            cells == width * height,
            forall|x: int, y: int|
                old(color_buffer).in_bounds(x, y) && #[trigger] on_dot_grid(x, y, step as int)
                    ==> old(color_buffer).index(x, y) < old_buffer.len(),
            step > 0,
            y <= height,
            y % step == 0 || y == height,
            forall|i: int|
                0 <= i < old_buffer.len() ==> #[trigger] color_buffer.buffer@[i] == (if i < cells
                    && on_dot_grid(i % width as int, i / width as int, step as int) && (i
                    / width as int) < y {
                    color
                } else {
                    old_buffer[i]
                }),
        decreases height - y,
    {
        let mut x: usize = 0;
        proof {
            assert forall|i: int| 0 <= i < old_buffer.len() implies #[trigger]
                color_buffer.buffer@[i] == (if i < cells && on_dot_grid(
                i % width as int,
                i / width as int,
                step as int,
            ) && before_in_rows(i, width as int, x as int, y as int) {
                color
            } else {
                old_buffer[i]
            }) by {
                if i < cells {
                    lemma_cell_of_index(i, width as int, height as int);
                }
            }
        }
        while x < width
            invariant
                color_buffer.same_shape(old(color_buffer)),
                color_buffer.zbuffer == old(color_buffer).zbuffer,
                width == color_buffer.width,
                height == color_buffer.height,
                old_buffer == old(color_buffer).buffer@,
                cells == width * height,
                forall|x: int, y: int|
                    old(color_buffer).in_bounds(x, y) && #[trigger] on_dot_grid(x, y, step as int)
                        ==> old(color_buffer).index(x, y) < old_buffer.len(),
                step > 0,
                y < height,
                y % step == 0,
                x <= width,
                x % step == 0 || x == width,
                forall|i: int|
                    0 <= i < old_buffer.len() ==> #[trigger] color_buffer.buffer@[i] == (if i
                        < cells && on_dot_grid(i % width as int, i / width as int, step as int)
                        && before_in_rows(i, width as int, x as int, y as int) {
                        color
                    } else {
                        old_buffer[i]
                    }),
            decreases width - x,
        {
            let ghost before = color_buffer.buffer@;
            proof {
                lemma_index_in_grid(x as int, y as int, width as int, height as int);
                lemma_coords_of_index(x as int, y as int, width as int);
                assert(on_dot_grid(x as int, y as int, step as int));
            }
            color_buffer.set_pixel(x, y, color);
            let next_x: usize = if step >= width - x {
                width
            } else {
                x + step
            };
            proof {
                if next_x < width {
                    vstd::arithmetic::div_mod::lemma_mod_add_multiples_vanish(x as int, step as int);
                }
            }
            proof {
                let here = index_of(x as int, y as int, width as int);
                assert forall|i: int| 0 <= i < old_buffer.len() implies #[trigger]
                    color_buffer.buffer@[i] == (if i < cells && on_dot_grid(
                    i % width as int,
                    i / width as int,
                    step as int,
                ) && before_in_rows(i, width as int, next_x as int, y as int) {
                    color
                } else {
                    old_buffer[i]
                }) by {
                    if i < cells {
                        lemma_cell_of_index(i, width as int, height as int);
                        let c = i % width as int;
                        let r = i / width as int;
                        if i == here {
                            assert(c == x && r == y);
                        } else {
                            if r == y && c == x {
                                assert(i == here);
                            }
                            if r == y && on_dot_grid(c, r, step as int) && x < c < next_x {
                                lemma_multiple_below_next(x as int, c, step as int);
                            }
                        }
                    }
                }
            }
            x = next_x;
        }
        let next_y: usize = if step >= height - y {
            height
        } else {
            y + step
        };
        proof {
            if next_y < height {
                vstd::arithmetic::div_mod::lemma_mod_add_multiples_vanish(y as int, step as int);
            }
        }
        proof {
            assert forall|i: int| 0 <= i < old_buffer.len() implies #[trigger]
                color_buffer.buffer@[i] == (if i < cells && on_dot_grid(
                i % width as int,
                i / width as int,
                step as int,
            ) && (i / width as int) < next_y {
                color
            } else {
                old_buffer[i]
            }) by {
                if i < cells {
                    lemma_cell_of_index(i, width as int, height as int);
                    let c = i % width as int;
                    let r = i / width as int;
                    if on_dot_grid(c, r, step as int) && y < r < next_y {
                        lemma_multiple_below_next(y as int, r, step as int);
                    }
                }
            }
        }
        y = next_y;
    }
    proof {
        assert forall|i: int| 0 <= i < old_buffer.len() implies #[trigger]
            color_buffer.buffer@[i] == (if i < cells && on_dot_grid(
            i % width as int,
            i / width as int,
            step as int,
        ) {
            color
        } else {
            old_buffer[i]
        }) by {
            if i < cells {
                lemma_cell_of_index(i, width as int, height as int);
            }
        }
    }
}

/// The pixel coordinate that the signed coordinate `v` names once it is
/// converted to `usize`, as the drawing functions convert it.
pub open spec fn pixel_coord(v: i32) -> int {
    (v as usize) as int
}

/// A non-negative coordinate names the pixel coordinate of the same value; a
/// negative one names a pixel coordinate of at least 2^31, past the end of
/// every row and column that a signed coordinate can reach.
pub proof fn lemma_pixel_coord(v: i32)
    ensures
        v >= 0 ==> pixel_coord(v) == v,
        v < 0 ==> pixel_coord(v) >= 0x8000_0000,
{
    if v >= 0 {
        assert((v as usize) as int == v as int);
    } else {
        assert(v < 0 ==> (v as usize) >= 0x8000_0000usize) by (bit_vector);
    }
}

/// For a pixel coordinate `p` below 2^31, a span of signed coordinates names
/// `p` exactly when `p` lies in it as an integer: `start <= p < end`.
pub proof fn lemma_span_covers_exact(start: int, end: int, p: int)
    requires
        0 <= p < 0x8000_0000,
    ensures
        span_covers(start, end, p) <==> start <= p < end,
{
    if span_covers(start, end, p) {
        let v = choose|v: i32| start <= v < end && #[trigger] pixel_coord(v) == p;
        lemma_pixel_coord(v);
    }
    if start <= p < end {
        let v = p as i32;
        lemma_pixel_coord(v);
        assert(start <= v < end && pixel_coord(v) == p);
    }
}

/// Whether some signed coordinate in `start..end` names the pixel coordinate `p`.
pub open spec fn span_covers(start: int, end: int, p: int) -> bool {
    exists|v: i32| start <= v < end && #[trigger] pixel_coord(v) == p
}

/// Fills the rectangle of `width` columns from `x` and `height` rows from `y`
/// with `color`: every pixel inside the buffer's dimensions that some column
/// of `x..x + width` and some row of `y..y + height` name, once converted to
/// `usize`, gets `color`; every other cell keeps its value. A rectangle with
/// no column or no row draws nothing.
pub fn draw_rect<Z: Copy>(
    color_buffer: &mut ColorBuffer<Z>,
    x: i32,
    y: i32,
    width: i32,
    height: i32,
    color: u32,
)
    requires
        i32::MIN <= x + width <= i32::MAX,
        i32::MIN <= y + height <= i32::MAX,
        forall|c: int, r: int|
            old(color_buffer).in_bounds(c, r) && #[trigger] span_covers(x as int, x + width, c)
                && #[trigger] span_covers(y as int, y + height, r) ==> old(color_buffer).index(c, r)
                < old(color_buffer).buffer.len(),
    ensures
        final(color_buffer).same_shape(old(color_buffer)),
        final(color_buffer).zbuffer == old(color_buffer).zbuffer,
        forall|i: int|
            0 <= i < old(color_buffer).buffer.len() ==> #[trigger] final(color_buffer).buffer@[i]
                == (if i < old(color_buffer).width * old(color_buffer).height && span_covers(
                x as int,
                x + width,
                i % old(color_buffer).width as int,
            ) && span_covers(y as int, y + height, i / old(color_buffer).width as int) {
                color
            } else {
                old(color_buffer).buffer@[i]
            }),
        forall|c: int, r: int|
            0 <= c < 0x8000_0000 && 0 <= r < 0x8000_0000 && old(color_buffer).in_bounds(c, r)
                && old(color_buffer).index(c, r) < old(color_buffer).buffer.len() ==> #[trigger]
            final(color_buffer).buffer@[old(color_buffer).index(c, r)] == (if x <= c < x + width
                && y <= r < y + height {
                color
            } else {
                old(color_buffer).buffer@[old(color_buffer).index(c, r)]
            }),
{
    let ghost columns = color_buffer.width as int;
    let ghost rows = color_buffer.height as int;
    let ghost cells = columns * rows;
    let ghost old_buffer = color_buffer.buffer@;
    let x_end: i32 = x + width;
    let y_end: i32 = y + height;
    let mut row: i32 = y;
    proof {
        assert forall|i: int| 0 <= i < old_buffer.len() implies #[trigger]
            color_buffer.buffer@[i] == (if i < cells && span_covers(x as int, x_end as int, i % columns)
            && span_covers(y as int, row as int, i / columns) {
            color
        } else {
            old_buffer[i]
        }) by {}
    }
    while row < y_end
        invariant
            color_buffer.same_shape(old(color_buffer)),
            color_buffer.zbuffer == old(color_buffer).zbuffer,
            columns == color_buffer.width,
            rows == color_buffer.height,
            cells == columns * rows,
            old_buffer == old(color_buffer).buffer@,
            x_end == x + width,
            y_end == y + height,
            forall|c: int, r: int|
                old(color_buffer).in_bounds(c, r) && #[trigger] span_covers(x as int, x_end as int, c)
                    && #[trigger] span_covers(y as int, y_end as int, r) ==> old(color_buffer).index(c, r)
                    < old_buffer.len(),
            y <= row,
            row <= y_end || row == y,
            forall|i: int|
                0 <= i < old_buffer.len() ==> #[trigger] color_buffer.buffer@[i] == (if i < cells
                    && span_covers(x as int, x_end as int, i % columns) && span_covers(
                    y as int,
                    row as int,
                    i / columns,
                ) {
                    color
                } else {
                    old_buffer[i]
                }),
        decreases y_end - row,
    {
        let mut column: i32 = x;
        while column < x_end
            invariant
                color_buffer.same_shape(old(color_buffer)),
                color_buffer.zbuffer == old(color_buffer).zbuffer,
                columns == color_buffer.width,
                rows == color_buffer.height,
                cells == columns * rows,
                old_buffer == old(color_buffer).buffer@,
                x_end == x + width,
                y_end == y + height,
                forall|c: int, r: int|
                    old(color_buffer).in_bounds(c, r) && #[trigger] span_covers(
                        x as int,
                        x_end as int,
                        c,
                    ) && #[trigger] span_covers(y as int, y_end as int, r) ==> old(
                        color_buffer,
                    ).index(c, r) < old_buffer.len(),
                y <= row < y_end,
                x <= column,
                column <= x_end || column == x,
                forall|i: int|
                    0 <= i < old_buffer.len() ==> #[trigger] color_buffer.buffer@[i] == (if i
                        < cells && ((span_covers(x as int, x_end as int, i % columns)
                        && span_covers(y as int, row as int, i / columns)) || (i / columns
                        == pixel_coord(row) && span_covers(x as int, column as int, i % columns))) {
                        color
                    } else {
                        old_buffer[i]
                    }),
            decreases x_end - column,
        {
            let px = #[verifier::truncate] (column as usize);
            let py = #[verifier::truncate] (row as usize);
            let ghost here = index_of(px as int, py as int, columns);
            let ghost before = color_buffer.buffer@;
            proof {
                assert(pixel_coord(column) == px);
                assert(pixel_coord(row) == py);
                assert(span_covers(x as int, x_end as int, px as int));
                assert(span_covers(y as int, y_end as int, py as int));
                if color_buffer.in_bounds(px as int, py as int) {
                    lemma_coords_of_index(px as int, py as int, columns);
                    lemma_index_in_grid(px as int, py as int, columns, rows);
                }
            }
            color_buffer.set_pixel(px, py, color);
            proof {
                assert forall|i: int| 0 <= i < old_buffer.len() implies #[trigger]
                    color_buffer.buffer@[i] == (if i < cells && ((span_covers(
                    x as int,
                    x_end as int,
                    i % columns,
                ) && span_covers(y as int, row as int, i / columns)) || (i / columns
                    == pixel_coord(row) && span_covers(x as int, column + 1, i % columns))) {
                    color
                } else {
                    old_buffer[i]
                }) by {
                    assert(before[i] == (if i < cells && ((span_covers(
                        x as int,
                        x_end as int,
                        i % columns,
                    ) && span_covers(y as int, row as int, i / columns)) || (i / columns
                        == pixel_coord(row) && span_covers(x as int, column as int, i % columns))) {
                        color
                    } else {
                        old_buffer[i]
                    }));
                    if i < cells {
                        lemma_cell_of_index(i, columns, rows);
                        lemma_span_extend(x as int, column, i % columns);
                        let c = i % columns;
                        let r = i / columns;
                        if color_buffer.in_bounds(px as int, py as int) {
                            lemma_coords_of_index(px as int, py as int, columns);
                            if c == px && r == py {
                                assert(i == here);
                            } else {
                                assert(i != here);
                            }
                        } else {
                            assert(!(c == px && r == py));
                        }
                    }
                }
            }
            column = column + 1;
        }
        proof {
            assert forall|i: int| 0 <= i < old_buffer.len() implies #[trigger]
                color_buffer.buffer@[i] == (if i < cells && span_covers(
                x as int,
                x_end as int,
                i % columns,
            ) && span_covers(y as int, row + 1, i / columns) {
                color
            } else {
                old_buffer[i]
            }) by {
                lemma_span_extend(y as int, row, i / columns);
                if column == x {
                    assert(!span_covers(x as int, column as int, i % columns));
                    assert(!span_covers(x as int, x_end as int, i % columns));
                }
            }
        }
        row = row + 1;
    }
    proof {
        assert forall|i: int| 0 <= i < old_buffer.len() implies #[trigger]
            color_buffer.buffer@[i] == (if i < cells && span_covers(
            x as int,
            x_end as int,
            i % columns,
        ) && span_covers(y as int, y_end as int, i / columns) {
            color
        } else {
            old_buffer[i]
        }) by {
            if row == y {
                assert(!span_covers(y as int, row as int, i / columns));
                assert(!span_covers(y as int, y_end as int, i / columns));
            }
        }
        assert forall|c: int, r: int|
            0 <= c < 0x8000_0000 && 0 <= r < 0x8000_0000 && old(color_buffer).in_bounds(c, r)
                && old(color_buffer).index(c, r) < old_buffer.len() implies #[trigger]
            color_buffer.buffer@[old(color_buffer).index(c, r)] == (if x <= c < x + width && y
                <= r < y + height {
                color
            } else {
                old_buffer[old(color_buffer).index(c, r)]
            }) by {
            let i = index_of(c, r, columns);
            lemma_index_in_grid(c, r, columns, rows);
            lemma_coords_of_index(c, r, columns);
            lemma_span_covers_exact(x as int, x_end as int, c);
            lemma_span_covers_exact(y as int, y_end as int, r);
            assert(color_buffer.buffer@[i] == (if i < cells && span_covers(
                x as int,
                x_end as int,
                i % columns,
            ) && span_covers(y as int, y_end as int, i / columns) {
                color
            } else {
                old_buffer[i]
            }));
        }
    }
}

/// Growing a span by its next coordinate `end` adds exactly the pixel
/// coordinate that `end` names.
proof fn lemma_span_extend(start: int, end: i32, p: int)
    requires
        start <= end,
    ensures
        span_covers(start, end + 1, p) == (span_covers(start, end as int, p) || pixel_coord(end) == p),
{
    if span_covers(start, end + 1, p) {
        let v = choose|v: i32| start <= v < end + 1 && #[trigger] pixel_coord(v) == p;
        if v < end {
            assert(span_covers(start, end as int, p));
        }
    }
    if pixel_coord(end) == p {
        assert(start <= end < end + 1 && pixel_coord(end) == p);
    }
    if span_covers(start, end as int, p) {
        let v = choose|v: i32| start <= v < end && #[trigger] pixel_coord(v) == p;
        assert(start <= v < end + 1 && pixel_coord(v) == p);
    }
}

/// A multiple `c` of `step` below the multiple `a + step` is at most `a`.
proof fn lemma_multiple_below_next(a: int, c: int, step: int)
    requires
        0 < step,
        0 <= a,
        0 <= c,
        a % step == 0,
        c % step == 0,
        c < a + step,
    ensures
        c <= a,
{
    vstd::arithmetic::div_mod::lemma_fundamental_div_mod(a, step);
    vstd::arithmetic::div_mod::lemma_fundamental_div_mod(c, step);
    let qa = a / step;
    let qc = c / step;
    assert(c <= a) by (nonlinear_arith)
        requires
            0 < step,
            a == step * qa,
            c == step * qc,
            c < a + step,
    ;
}

/// A row offset `y * width` plus a column `x` is an index no smaller than the
/// offset itself.
proof fn lemma_row_fits(y: int, width: int, x: int)
    requires
        0 <= y,
        0 <= width,
        0 <= x,
    ensures
        0 <= y * width <= y * width + x,
{
    assert(0 <= y * width) by (nonlinear_arith)
        requires
            0 <= y,
            0 <= width,
    ;
}

} // verus!
