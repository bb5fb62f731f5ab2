use vstd::prelude::*;

verus! {

/// A row-major grid of cells as the contracts see it: `height` rows of
/// `width` cells, held in `cells`.
pub struct Grid<T> {
    pub width: nat,
    pub height: nat,
    pub cells: Seq<T>,
}

/// The position, in a row-major buffer whose rows are `width` cells long, of
/// the cell in column `x` and row `y`.
pub open spec fn index_of(x: int, y: int, width: int) -> int {
    y * width + x
}

/// Returns the row-major index of the cell at column `x`, row `y` of a buffer
/// whose rows are `width` cells long.
pub fn get_index_by_coord(x: usize, y: usize, width: usize) -> (index: usize)
    requires
        index_of(x as int, y as int, width as int) <= usize::MAX,
    ensures
        index == index_of(x as int, y as int, width as int),
{
    proof {
        lemma_row_offset_fits(y as int, width as int, x as int);
    }
    y * width + x
}

/// A row offset `y * width` is no larger than the index it starts.
proof fn lemma_row_offset_fits(y: int, width: int, x: int)
    requires
        0 <= y,
        0 <= width,
        0 <= x,
    ensures
        0 <= y * width <= y * width + x,
{
    assert(0 <= y * width) by (nonlinear_arith)
        requires
            0 <= y,
            0 <= width,
    ;
}

/// Every cell of a `width` by `height` grid has an index inside the buffer of
/// `width * height` cells.
pub proof fn lemma_index_in_grid(x: int, y: int, width: int, height: int)
    requires
        0 <= x < width,
        0 <= y < height,
    ensures
        0 <= index_of(x, y, width) < width * height,
{
    assert(0 <= y * width + x < width * height) by (nonlinear_arith)
        requires
            0 <= x < width,
            0 <= y < height,
    ;
}

/// Two cells whose columns lie inside the row share an index only when they
/// are the same cell.
pub proof fn lemma_index_injective(x1: int, y1: int, x2: int, y2: int, width: int)
    requires
        0 <= x1 < width,
        0 <= x2 < width,
        0 <= y1,
        0 <= y2,
        index_of(x1, y1, width) == index_of(x2, y2, width),
    ensures
        x1 == x2,
        y1 == y2,
{
    if y1 < y2 {
        assert(y1 * width + width <= y2 * width) by (nonlinear_arith)
            requires
                y1 < y2,
                0 < width,
        ;
    } else if y2 < y1 {
        assert(y2 * width + width <= y1 * width) by (nonlinear_arith)
            requires
                y2 < y1,
                0 < width,
        ;
    }
}

/// A write to one cell of a grid reads back and touches no other cell: after
/// `cells` takes `value` at the index of column `x`, row `y`, the cell of
/// every pixel `(x2, y2)` of the `width` by `height` grid holds `value` when it
/// is that same pixel and its old content otherwise.
pub proof fn lemma_cell_write_is_isolated<T>(
    cells: Seq<T>,
    width: int,
    height: int,
    x: int,
    y: int,
    x2: int,
    y2: int,
    value: T,
)
    requires
        0 <= x < width,
        0 <= y < height,
        0 <= x2 < width,
        0 <= y2 < height,
        width * height <= cells.len(),
    ensures
        cells.update(index_of(x, y, width), value)[index_of(x2, y2, width)] == (if x == x2 && y
            == y2 {
            value
        } else {
            cells[index_of(x2, y2, width)]
        }),
{
    lemma_index_in_grid(x, y, width, height);
    lemma_index_in_grid(x2, y2, width, height);
    if index_of(x, y, width) == index_of(x2, y2, width) {
        lemma_index_injective(x, y, x2, y2, width);
    }
}

/// The cell at column `x < width` of row `y` sits at an index whose quotient by
/// `width` is `y` and whose remainder is `x`.
pub proof fn lemma_coords_of_index(x: int, y: int, width: int)
    requires
        0 <= x < width,
        0 <= y,
    ensures
        index_of(x, y, width) / width == y,
        index_of(x, y, width) % width == x,
{
    vstd::arithmetic::div_mod::lemma_fundamental_div_mod_converse(
        index_of(x, y, width),
        width,
        y,
        x,
    );
}

/// A buffer of `count` copies of `value`.
pub fn filled<T: Copy>(value: T, count: usize) -> (cells: Vec<T>)
    ensures
        cells@ == Seq::new(count as nat, |i: int| value),
{
    let mut cells: Vec<T> = Vec::new();
    while cells.len() < count
        invariant
            cells.len() <= count,
            forall|i: int| 0 <= i < cells.len() ==> cells@[i] == value,
        decreases count - cells.len(),
    {
        cells.push(value);
    }
    assert(cells@ =~= Seq::new(count as nat, |i: int| value));
    cells
}

/// Every index of a `width` by `height` grid belongs to a cell: to column
/// `index % width` of row `index / width`.
pub proof fn lemma_cell_of_index(index: int, width: int, height: int)
    requires
        0 <= width,
        0 <= height,
        0 <= index < width * height,
    ensures
        0 < width,
        0 <= index % width < width,
        0 <= index / width < height,
        index_of(index % width, index / width, width) == index,
{
    if width == 0 {
        assert(width * height == 0);
    }
    vstd::arithmetic::div_mod::lemma_fundamental_div_mod(index, width);
    let q = index / width;
    let r = index % width;
    assert(0 <= q < height) by (nonlinear_arith)
        requires
            0 < width,
            0 <= index < width * height,
            index == width * q + r,
            0 <= r < width,
    ;
    vstd::arithmetic::mul::lemma_mul_is_commutative(width, index / width);
}

} // verus!
