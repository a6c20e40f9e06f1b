//! Mine layouts: where the mines of a board lie, how one is laid out by
//! hand, and how one is drawn at random.

use rand::Rng;
use vstd::prelude::*;
use vstd::set_lib::{lemma_len_subset, lemma_set_disjoint_lens};
use crate::grid::{
    grid, grid_before, in_grid, lemma_cells_bound, lemma_grid_before_len, lemma_grid_len, precedes,
};
use crate::board::Board;
use crate::position::Position;

verus! {

/// A mine layout as a mathematical object: the size of the grid and the set
/// of positions that hold a mine.
pub struct MineLayout {
    pub rows: nat,
    pub cols: nat,
    pub mines: Set<Position>,
}

impl MineLayout {
    /// The grid is no larger than a board can be, and every mine lies on it.
    pub open spec fn wf(self) -> bool {
        &&& self.rows <= u8::MAX
        &&& self.cols <= u8::MAX
        &&& self.mines.subset_of(grid(self.rows as int, self.cols as int))
    }

    /// The positions of the grid that hold no mine.
    pub open spec fn free(self) -> Set<Position> {
        grid(self.rows as int, self.cols as int).difference(self.mines)
    }

    /// The free positions that come before `p` in row-major order.
    pub open spec fn free_before(self, p: Position) -> Set<Position> {
        Set::new(|q: Position| self.free().contains(q) && precedes(q, p))
    }

    /// The layout with one more mine, at `p`.
    pub open spec fn with_mine(self, p: Position) -> MineLayout {
        MineLayout { mines: self.mines.insert(p), ..self }
    }

    /// Mines and free positions are finite in number and together fill the
    /// grid.
    pub proof fn lemma_counts(self)
        requires
            self.wf(),
        ensures
            self.mines.finite(),
            self.free().finite(),
            self.mines.len() + self.free().len() == self.rows * self.cols,
            self.rows * self.cols <= 65025,
    {
        lemma_cells_bound(self.rows as int, self.cols as int);
        let all = grid(self.rows as int, self.cols as int);
        lemma_grid_len(self.rows as int, self.cols as int);
        lemma_len_subset(self.mines, all);
        lemma_len_subset(self.free(), all);
        lemma_set_disjoint_lens(self.mines, self.free());
        assert(self.mines + self.free() =~= all);
    }

    /// Fewer free positions come before a free position than there are free
    /// positions in all.
    pub proof fn lemma_free_before_len(self, p: Position)
        requires
            self.wf(),
            self.free().contains(p),
        ensures
            self.free_before(p).finite(),
            self.free_before(p).len() < self.free().len(),
    {
        self.lemma_counts();
        let rest = self.free().remove(p);
        lemma_len_subset(self.free_before(p), rest);
    }
}

/// Draws a number below `bound` with `gen_range(0..bound)` of the `rand`
/// crate, on the generator of the current thread (`rand::thread_rng`).
///
/// Believed, not proved: the number drawn lies in the range that was asked
/// for. `gen_range` panics on an empty range, so `bound` must not be zero.
/// Nothing is said of which number comes out: two draws may differ. The
/// generator is seeded by the operating system when a thread first uses it,
/// and the call panics if that fails.
#[verifier::external_body]
fn random_below(bound: usize) -> (drawn: usize)
    requires
        bound > 0,
    ensures
        drawn < bound,
{
    rand::thread_rng().gen_range(0..bound)
}

/// Where the mines of a board lie: one flag for each position of the grid.
pub struct MineMap {
    rows: u8,
    cols: u8,
    count: usize,
    cells: Vec<Vec<bool>>,
}

impl MineMap {
    /// There is one row of flags for each row of the grid and one flag for
    /// each column, and `count` is the number of flags that are set.
    pub closed spec fn wf(&self) -> bool {
        &&& self.cells@.len() == self.rows
        &&& forall|x: int| 0 <= x < self.rows ==> (#[trigger] self.cells@[x])@.len() == self.cols
        &&& self@.mines.finite()
        &&& self@.mines.len() == self.count
    }

    pub closed spec fn view(&self) -> MineLayout {
        MineLayout {
            rows: self.rows as nat,
            cols: self.cols as nat,
            mines: Set::new(
                |p: Position|
                    in_grid(self.rows as int, self.cols as int, p) && self.cells@[p.x as int]@[p.y as int],
            ),
        }
    }

    /// The view of a map is a layout whose mines lie on its grid.
    pub proof fn lemma_view_wf(&self)
        requires
            self.wf(),
        ensures
            self@.wf(),
            self@.mines.finite(),
    {
    }

    /// A map of the given size without any mine.
    pub fn new(rows: u8, cols: u8) -> (map: MineMap)
        ensures
            map.wf(),
            map@ == (MineLayout { rows: rows as nat, cols: cols as nat, mines: Set::empty() }),
    {
        let mut cells: Vec<Vec<bool>> = Vec::new();
        let mut x: u8 = 0;
        while x < rows
            invariant
                x <= rows,
                cells@.len() == x,
                forall|i: int| 0 <= i < x ==> (#[trigger] cells@[i])@.len() == cols,
                forall|i: int, j: int|
                    0 <= i < x && 0 <= j < cols ==> !(#[trigger] cells@[i]@[j]),
            decreases rows - x,
        {
            let mut row: Vec<bool> = Vec::new();
            let mut y: u8 = 0;
            while y < cols
                invariant
                    y <= cols,
                    row@.len() == y,
                    forall|j: int| 0 <= j < y ==> !(#[trigger] row@[j]),
                decreases cols - y,
            {
                row.push(false);
                y += 1;
            }
            cells.push(row);
            x += 1;
        }
        let map = MineMap { rows, cols, count: 0, cells };
        assert(map@.mines =~= Set::<Position>::empty());
        map
    }

    pub fn rows(&self) -> (rows: u8)
        ensures
            rows == self@.rows,
    {
        self.rows
    }

    pub fn cols(&self) -> (cols: u8)
        ensures
            cols == self@.cols,
    {
        self.cols
    }

    /// How many mines the map holds.
    pub fn mine_count(&self) -> (count: usize)
        requires
            self.wf(),
        ensures
            count == self@.mines.len(),
    {
        self.count
    }

    /// Whether a mine lies at `position`. Off the grid there is none.
    pub fn has_mine(&self, position: Position) -> (mined: bool)
        requires
            self.wf(),
        ensures
            mined == self@.mines.contains(position),
    {
        if 0 <= position.x && position.x < self.rows as i32 && 0 <= position.y && position.y
            < self.cols as i32 {
            self.cells[position.x as usize][position.y as usize]
        } else {
            false
        }
    }

    /// Lays a mine at `position` and says whether the map changed: it does
    /// not when `position` is off the grid or holds a mine already.
    pub fn lay_mine(&mut self, position: Position) -> (laid: bool)
        requires
            old(self).wf(),
        ensures
            final(self).wf(),
            laid == (grid(old(self)@.rows as int, old(self)@.cols as int).contains(position)
                && !old(self)@.mines.contains(position)),
            laid ==> final(self)@ == old(self)@.with_mine(position),
            !laid ==> final(self)@ == old(self)@,
    {
        if 0 <= position.x && position.x < self.rows as i32 && 0 <= position.y && position.y
            < self.cols as i32 {
            if self.cells[position.x as usize][position.y as usize] {
                false
            } else {
                proof {
                    self.lemma_view_wf();
                    self@.lemma_counts();
                    assert(self@.free().contains(position));
                }
                self.set_flag(position);
                self.count = self.count + 1;
                true
            }
        } else {
            false
        }
    }

    /// Sets the flag at a free position of the grid. The count is left as it
    /// was, one short of the mines that the map then holds.
    fn set_flag(&mut self, position: Position)
        requires
            old(self).wf(),
            old(self)@.free().contains(position),
        ensures
            final(self).rows == old(self).rows,
            final(self).cols == old(self).cols,
            final(self).count == old(self).count,
            final(self).cells@.len() == final(self).rows,
            forall|x: int|
                0 <= x < old(self).rows ==> (#[trigger] final(self).cells@[x])@.len() == old(
                    self).cols,
            final(self)@ == old(self)@.with_mine(position),
            final(self)@.mines.finite(),
            final(self)@.mines.len() == old(self).count + 1,
    {
        let x = position.x as usize;
        let y = position.y as usize;
        self.cells[x][y] = true;
        assert(self@.mines =~= old(self)@.mines.insert(position));
    }

    /// Lays a mine on the free position that has exactly `k` free positions
    /// before it in row-major order, and returns that position. With `k` at
    /// or above the number of free positions there is no such position, and
    /// the map stays as it was.
    pub fn place_mine(&mut self, k: usize) -> (placed: Option<Position>)
        requires
            old(self).wf(),
        ensures
            final(self).wf(),
            placed.is_some() == (k < old(self)@.free().len()),
            match placed {
                Some(p) => {
                    &&& old(self)@.free().contains(p)
                    &&& old(self)@.free_before(p).len() == k
                    &&& final(self)@ == old(self)@.with_mine(p)
                },
                None => final(self)@ == old(self)@,
            },
    {
        proof {
            self.lemma_view_wf();
            self@.lemma_counts();
        }
        let ghost layout = self@;
        assert(layout.free().intersect(grid_before(self.cols as int, 0, 0)) =~= Set::<
            Position,
        >::empty());
        let mut seen: usize = 0;
        let mut x: u8 = 0;
        while x < self.rows
            invariant
                self.wf(),
                *self == *old(self),
                layout == self@,
                self.count <= 65025,
                x <= self.rows,
                seen <= k,
                seen == layout.free().intersect(grid_before(self.cols as int, x as int, 0)).len(),
            decreases self.rows - x,
        {
            let mut y: u8 = 0;
            while y < self.cols
                invariant
                    self.wf(),
                    *self == *old(self),
                    layout == self@,
                    self.count <= 65025,
                    x < self.rows,
                    y <= self.cols,
                    seen <= k,
                    seen == layout.free().intersect(
                        grid_before(self.cols as int, x as int, y as int),
                    ).len(),
                decreases self.cols - y,
            {
                let position = Position { x: x as i32, y: y as i32 };
                let ghost before = layout.free().intersect(
                    grid_before(self.cols as int, x as int, y as int),
                );
                let ghost after = layout.free().intersect(
                    grid_before(self.cols as int, x as int, y + 1),
                );
                proof {
                    lemma_grid_before_len(self.cols as int, x as int, y as int);
                    lemma_len_subset(before, grid_before(self.cols as int, x as int, y as int));
                }
                if !self.cells[x as usize][y as usize] {
                    assert(layout.free().contains(position));
                    assert(after =~= before.insert(position));
                    if seen == k {
                        proof {
                            assert(layout.free_before(position) =~= before);
                            layout.lemma_free_before_len(position);
                        }
                        self.set_flag(position);
                        self.count = self.count + 1;
                        return Some(position);
                    }
                    seen += 1;
                } else {
                    assert(after =~= before);
                }
                y += 1;
            }
            assert(grid_before(self.cols as int, x as int, self.cols as int) =~= grid_before(
                self.cols as int,
                x + 1,
                0,
            ));
            x += 1;
        }
        assert(layout.free().intersect(grid_before(self.cols as int, self.rows as int, 0))
            =~= layout.free());
        None
    }
}

impl Board {
    /// A mine map of the given size with `mines` mines, each laid on a
    /// position drawn at random among those still free. There must be room
    /// for the mines.
    pub fn create_mine_map(rows: u8, cols: u8, mines: u8) -> (map: MineMap)
        requires
            mines <= rows * cols,
        ensures
            map.wf(),
            map@.rows == rows,
            map@.cols == cols,
            map@.mines.len() == mines,
    {
        proof {
            lemma_cells_bound(rows as int, cols as int);
        }
        let mut map = MineMap::new(rows, cols);
        let cells: usize = rows as usize * cols as usize;
        let mut count: u8 = 0;
        while count < mines
            invariant
                map.wf(),
                map@.rows == rows,
                map@.cols == cols,
                map@.mines.len() == count,
                count <= mines <= rows * cols,
                cells == rows * cols,
            decreases mines - count,
        {
            proof {
                map.lemma_view_wf();
                map@.lemma_counts();
            }
            let k = random_below(cells - count as usize);
            let _ = map.place_mine(k);
            count += 1;
        }
        map
    }
}

} // verus!
