//! The positions of a rectangular grid, their row-major order, and how many
//! of them there are.

use vstd::prelude::*;
use crate::position::Position;

verus! {

/// Whether `p` lies on a grid of `rows` rows and `cols` columns.
pub open spec fn in_grid(rows: int, cols: int, p: Position) -> bool {
    0 <= p.x < rows && 0 <= p.y < cols
}

/// Every position of the grid.
pub open spec fn grid(rows: int, cols: int) -> Set<Position> {
    Set::new(|p: Position| in_grid(rows, cols, p))
}

/// Row-major order: `p` comes before `q` when it lies in an earlier row, or
/// in the same row and an earlier column.
pub open spec fn precedes(p: Position, q: Position) -> bool {
    p.x < q.x || (p.x == q.x && p.y < q.y)
}

/// The positions of a grid of `cols` columns that come before row `x`,
/// column `y` in row-major order.
pub open spec fn grid_before(cols: int, x: int, y: int) -> Set<Position> {
    Set::new(|p: Position| 0 <= p.x && 0 <= p.y < cols && (p.x < x || (p.x == x && p.y < y)))
}

/// The place of `p` in the row-major enumeration of a grid of `cols` columns.
pub open spec fn index_of(cols: int, p: Position) -> int {
    p.x * cols + p.y
}

/// `grid_before(cols, x, y)` is finite and holds `x * cols + y` positions.
pub proof fn lemma_grid_before_len(cols: int, x: int, y: int)
    requires
        0 <= x <= i32::MAX,
        0 <= y <= cols <= i32::MAX,
    ensures
        grid_before(cols, x, y).finite(),
        grid_before(cols, x, y).len() == x * cols + y,
    decreases x, y,
{
    if y > 0 {
        lemma_grid_before_len(cols, x, y - 1);
        let last = Position { x: x as i32, y: (y - 1) as i32 };
        assert(grid_before(cols, x, y) =~= grid_before(cols, x, y - 1).insert(last));
    } else if x > 0 {
        lemma_grid_before_len(cols, x - 1, cols);
        assert(grid_before(cols, x, 0) =~= grid_before(cols, x - 1, cols));
        assert((x - 1) * cols + cols == x * cols) by (nonlinear_arith);
    } else {
        assert(grid_before(cols, 0, 0) =~= Set::<Position>::empty());
    }
}

/// A grid is finite and holds `rows * cols` positions: one for each pair of
/// a row and a column.
pub proof fn lemma_grid_len(rows: int, cols: int)
    requires
        0 <= rows <= i32::MAX,
        0 <= cols <= i32::MAX,
    ensures
        grid(rows, cols).finite(),
        grid(rows, cols).len() == rows * cols,
{
    lemma_grid_before_len(cols, rows, 0);
    assert(grid(rows, cols) =~= grid_before(cols, rows, 0));
}

/// A grid whose sides fit in a byte holds at most 65025 positions.
pub proof fn lemma_cells_bound(rows: int, cols: int)
    requires
        0 <= rows <= u8::MAX,
        0 <= cols <= u8::MAX,
    ensures
        0 <= rows * cols <= 65025,
{
    assert(0 <= rows * cols <= 65025) by (nonlinear_arith)
        requires
            0 <= rows <= 255,
            0 <= cols <= 255,
    ;
}

/// The row-major index of a grid position lies below `rows * cols`.
pub proof fn lemma_index_bound(rows: int, cols: int, p: Position)
    requires
        in_grid(rows, cols, p),
    ensures
        0 <= index_of(cols, p) < rows * cols,
{
    assert(0 <= p.x * cols && p.x * cols + cols <= rows * cols) by (nonlinear_arith)
        requires
            0 <= p.x < rows,
            0 < cols,
    ;
}

/// The row-major index grows with the row-major order.
pub proof fn lemma_index_order(cols: int, p: Position, q: Position)
    requires
        0 <= p.y < cols,
        0 <= q.y < cols,
        precedes(p, q),
    ensures
        index_of(cols, p) < index_of(cols, q),
{
    if p.x < q.x {
        assert(p.x * cols + cols <= q.x * cols) by (nonlinear_arith)
            requires
                p.x < q.x,
                0 < cols,
        ;
    }
}

/// Two positions in the columns of the grid with the same row-major index
/// are the same position.
pub proof fn lemma_index_injective(cols: int, p: Position, q: Position)
    requires
        0 <= p.y < cols,
        0 <= q.y < cols,
        index_of(cols, p) == index_of(cols, q),
    ensures
        p == q,
{
    if precedes(p, q) {
        lemma_index_order(cols, p, q);
    } else if precedes(q, p) {
        lemma_index_order(cols, q, p);
    }
}

} // verus!
