//! The board: a grid of squares, the cascade that a reveal sets off, the
//! marks of the player, and the tests for a won and a lost game.

use vstd::prelude::*;
use crate::grid::{
    grid, in_grid, index_of, lemma_cells_bound, lemma_grid_len, lemma_index_bound,
    lemma_index_injective,
};
use crate::mine_map::MineMap;
use crate::model::BoardView;
use crate::position::Position;
use crate::seq_facts::{lemma_drop_last_contains, lemma_push_contains, lemma_take_step};
use crate::square::{Square, Tag};

verus! {

/// A grid of squares in row-major order.
pub struct Board {
    rows: u8,
    cols: u8,
    mines: usize,
    squares: Vec<Square>,
}

impl Board {
    /// The board holds one square for each position of its grid, in
    /// row-major order, and `mines` is the number of squares with a mine.
    pub closed spec fn wf(&self) -> bool {
        &&& self.squares@.len() == self.rows * self.cols
        &&& forall|i: int|
            0 <= i < self.squares@.len() ==> in_grid(
                self.rows as int,
                self.cols as int,
                (#[trigger] self.squares@[i]).position,
            ) && index_of(self.cols as int, self.squares@[i].position) == i
        &&& self@.mine_set().finite()
        &&& self@.mine_set().len() == self.mines
    }

    pub closed spec fn view(&self) -> BoardView {
        BoardView {
            rows: self.rows as nat,
            cols: self.cols as nat,
            cells: Map::new(
                |p: Position| in_grid(self.rows as int, self.cols as int, p),
                |p: Position| self.squares@[index_of(self.cols as int, p)],
            ),
        }
    }

    /// The square of a grid position stands at the row-major index of that
    /// position.
    proof fn lemma_square_at(&self, p: Position)
        requires
            self.wf(),
            self@.contains(p),
        ensures
            0 <= index_of(self.cols as int, p) < self.squares@.len(),
            self.squares@[index_of(self.cols as int, p)].position == p,
            self@.cells[p] == self.squares@[index_of(self.cols as int, p)],
    {
        lemma_index_bound(self.rows as int, self.cols as int, p);
        let found = self.squares@[index_of(self.cols as int, p)];
        lemma_index_injective(self.cols as int, p, found.position);
    }

    /// The view of a board holds one square for each position of the grid,
    /// and finitely many mines.
    pub proof fn lemma_view_wf(&self)
        requires
            self.wf(),
        ensures
            self@.wf(),
            self@.mine_set().finite(),
    {
        assert forall|p: Position| self@.contains(p) implies (#[trigger] self@.cells[p]).position
            == p by {
            self.lemma_square_at(p);
        }
    }

    /// The board of a mine map: a closed, unmarked square for each position,
    /// with a mine where the map has one.
    pub fn build(map: &MineMap) -> (board: Board)
        requires
            map.wf(),
        ensures
            board.wf(),
            board@ == BoardView::fresh(map@),
    {
        let rows = map.rows();
        let cols = map.cols();
        let ghost layout = map@;
        let mut squares: Vec<Square> = Vec::new();
        let mut x: u8 = 0;
        proof {
            lemma_cells_bound(rows as int, cols as int);
        }
        while x < rows
            invariant
                map.wf(),
                layout == map@,
                layout.rows == rows,
                layout.cols == cols,
                x <= rows,
                squares@.len() == x * cols,
                forall|i: int|
                    0 <= i < squares@.len() ==> in_grid(
                        rows as int,
                        cols as int,
                        (#[trigger] squares@[i]).position,
                    ) && index_of(cols as int, squares@[i].position) == i && squares@[i] == (
                    Square {
                        position: squares@[i].position,
                        mined: layout.mines.contains(squares@[i].position),
                        opened: false,
                        tag: Tag::Untagged,
                    }),
            decreases rows - x,
        {
            let mut y: u8 = 0;
            while y < cols
                invariant
                    map.wf(),
                    layout == map@,
                    layout.rows == rows,
                    layout.cols == cols,
                    x < rows,
                    y <= cols,
                    squares@.len() == x * cols + y,
                    forall|i: int|
                        0 <= i < squares@.len() ==> in_grid(
                            rows as int,
                            cols as int,
                            (#[trigger] squares@[i]).position,
                        ) && index_of(cols as int, squares@[i].position) == i && squares@[i] == (
                        Square {
                            position: squares@[i].position,
                            mined: layout.mines.contains(squares@[i].position),
                            opened: false,
                            tag: Tag::Untagged,
                        }),
                decreases cols - y,
            {
                let position = Position::new(x as i32, y as i32);
                let mined = map.has_mine(position);
                let square = Square::new(position, mined);
                squares.push(square);
                y += 1;
            }
            assert(x * cols + cols == (x + 1) * cols) by (nonlinear_arith);
            x += 1;
        }
        let board = Board { rows, cols, mines: map.mine_count(), squares };
        proof {
            assert(board.squares@.len() == rows * cols);
            assert forall|p: Position| in_grid(rows as int, cols as int, p) implies board.squares@[index_of(
                cols as int,
                p,
            )] == BoardView::fresh(layout).cells[p] by {
                lemma_index_bound(rows as int, cols as int, p);
                let found = board.squares@[index_of(cols as int, p)];
                lemma_index_injective(cols as int, p, found.position);
            }
            assert(board@.cells =~= BoardView::fresh(layout).cells);
            map.lemma_view_wf();
            assert(board@.mine_set() =~= layout.mines);
        }
        board
    }

    /// A board of the given size with `mines` mines laid at random. There
    /// must be room for the mines.
    pub fn new(rows: u8, cols: u8, mines: u8) -> (board: Board)
        requires
            mines <= rows * cols,
        ensures
            board.wf(),
            board@.rows == rows,
            board@.cols == cols,
            board@.mine_count() == mines,
            board@.untouched(),
    {
        let map = Board::create_mine_map(rows, cols, mines);
        let board = Board::build(&map);
        proof {
            map.lemma_view_wf();
            assert(board@.mine_set() =~= map@.mines);
        }
        board
    }

    pub fn rows(&self) -> (rows: u8)
        ensures
            rows == self@.rows,
    {
        self.rows
    }

    pub fn cols(&self) -> (cols: u8)
        ensures
            cols == self@.cols,
    {
        self.cols
    }

    /// How many squares hold a mine.
    pub fn mine_count(&self) -> (count: usize)
        requires
            self.wf(),
        ensures
            count == self@.mine_count(),
    {
        self.mines
    }

    /// Whether `position` is a position of this board.
    pub fn contains(&self, position: Position) -> (inside: bool)
        ensures
            inside == self@.contains(position),
    {
        0 <= position.x && position.x < self.rows as i32 && 0 <= position.y && position.y
            < self.cols as i32
    }

    /// The place of a grid position in `squares`.
    fn index(&self, position: Position) -> (i: usize)
        requires
            self.wf(),
            self@.contains(position),
        ensures
            i == index_of(self.cols as int, position),
            i < self.squares@.len(),
            self.squares@[i as int] == self@.cells[position],
            self.squares@[i as int].position == position,
    {
        proof {
            self.lemma_square_at(position);
            lemma_cells_bound(self.rows as int, self.cols as int);
        }
        position.x as usize * self.cols as usize + position.y as usize
    }

    /// The square at `position`, if the board has one there.
    pub fn square(&self, position: Position) -> (square: Option<Square>)
        requires
            self.wf(),
        ensures
            square == if self@.contains(position) {
                Some(self@.cells[position])
            } else {
                None
            },
    {
        if self.contains(position) {
            Some(self.squares[self.index(position)])
        } else {
            None
        }
    }

    /// Whether every square without a mine is open.
    pub fn won(&self) -> (won: bool)
        requires
            self.wf(),
        ensures
            won == self@.won(),
    {
        let mut i: usize = 0;
        while i < self.squares.len()
            invariant
                self.wf(),
                i <= self.squares@.len(),
                forall|j: int| 0 <= j < i ==> (#[trigger] self.squares@[j]).mined || self.squares@[j].opened,
            decreases self.squares@.len() - i,
        {
            let square = self.squares[i];
            if !square.mined && !square.opened {
                proof {
                    self.lemma_square_at(square.position);
                    assert(!self@.is_opened(square.position));
                }
                return false;
            }
            i += 1;
        }
        proof {
            assert forall|p: Position| self@.contains(p) && !self@.cells[p].mined implies self@.is_opened(
                p,
            ) by {
                self.lemma_square_at(p);
            }
        }
        true
    }

    /// Whether some square with a mine is open.
    pub fn lost(&self) -> (lost: bool)
        requires
            self.wf(),
        ensures
            lost == self@.lost(),
    {
        let mut i: usize = 0;
        while i < self.squares.len()
            invariant
                self.wf(),
                i <= self.squares@.len(),
                forall|j: int|
                    0 <= j < i ==> !((#[trigger] self.squares@[j]).mined && self.squares@[j].opened),
            decreases self.squares@.len() - i,
        {
            let square = self.squares[i];
            if square.mined && square.opened {
                proof {
                    self.lemma_square_at(square.position);
                    assert(self@.is_mined(square.position) && self@.is_opened(square.position));
                }
                return true;
            }
            i += 1;
        }
        proof {
            assert forall|p: Position| !(self@.is_mined(p) && self@.is_opened(p)) by {
                if self@.contains(p) {
                    self.lemma_square_at(p);
                }
            }
        }
        false
    }

    /// Whether a square with a mine stands at `position`.
    pub fn position_mined(&self, position: Position) -> (mined: bool)
        requires
            self.wf(),
        ensures
            mined == self@.is_mined(position),
    {
        if self.contains(position) {
            self.squares[self.index(position)].mined
        } else {
            false
        }
    }

    /// How many of the neighbours of `position` hold a mine. The position
    /// itself need not lie on the board.
    pub fn adjacent_mines(&self, position: Position) -> (count: usize)
        requires
            self.wf(),
        ensures
            count == self@.adjacent_mines(position),
    {
        let neighbours = position.adjacencies();
        let ghost view = self@;
        let ghost mut seen: Set<Position> = Set::empty();
        let mut count: usize = 0;
        let mut j: usize = 0;
        while j < neighbours.len()
            invariant
                self.wf(),
                view == self@,
                j <= neighbours@.len(),
                neighbours@.no_duplicates(),
                count <= j,
                seen.finite(),
                seen.len() == count,
                forall|q: Position|
                    #[trigger] seen.contains(q) <==> neighbours@.take(j as int).contains(q)
                        && view.is_mined(q),
            decreases neighbours@.len() - j,
        {
            let neighbour = neighbours[j];
            proof {
                lemma_take_step(neighbours@, j as int);
            }
            if self.position_mined(neighbour) {
                proof {
                    seen = seen.insert(neighbour);
                }
                count += 1;
            }
            j += 1;
        }
        proof {
            assert(neighbours@.take(neighbours@.len() as int) =~= neighbours@);
            assert(seen =~= view.adjacent_mine_set(position));
        }
        count
    }

    /// The state of a search for the squares that a reveal at `start` opens.
    /// `found` lists the positions reached so far, each once, and `marks`
    /// flags their squares. All of them are opened by the reveal. `pending`
    /// holds found positions whose neighbours are still to be looked at, and
    /// `unseen` the grid positions not yet found.
    spec fn searching(
        &self,
        start: Position,
        marks: Seq<bool>,
        found: Seq<Position>,
        pending: Seq<Position>,
        reached: Set<Position>,
        unseen: Set<Position>,
    ) -> bool {
        &&& marks.len() == self.squares@.len()
        &&& forall|i: int|
            0 <= i < marks.len() ==> (#[trigger] marks[i] <==> reached.contains(
                self.squares@[i].position,
            ))
        &&& found.no_duplicates()
        &&& forall|p: Position| #[trigger] reached.contains(p) <==> found.contains(p)
        &&& reached.subset_of(self@.reveal_set(start))
        &&& reached.contains(start)
        &&& forall|i: int| 0 <= i < pending.len() ==> reached.contains(#[trigger] pending[i])
        &&& unseen.finite()
        &&& forall|p: Position|
            #[trigger] unseen.contains(p) <==> self@.contains(p) && !reached.contains(p)
    }

    /// Every openable neighbour of a settled square that the reveal passes
    /// through has been reached.
    spec fn passed_on(&self, settled: Set<Position>, reached: Set<Position>) -> bool {
        forall|p: Position, q: Position|
            #![trigger settled.contains(p), p.adjacent_to(q)]
            settled.contains(p) && self@.spreads(p) && p.adjacent_to(q) && self@.openable(q)
                ==> reached.contains(q)
    }

    /// The positions that a reveal at `position` opens, each once. The board
    /// itself is left as it is.
    pub fn openable_positions(&self, position: Position) -> (found: Vec<Position>)
        requires
            self.wf(),
        ensures
            found@.no_duplicates(),
            found@.to_set() == self@.reveal_set(position),
            found@.len() == self@.reveal_set(position).len(),
    {
        let ghost view = self@;
        let mut found: Vec<Position> = Vec::new();
        if !self.contains(position) || !self.squares[self.index(position)].openable() {
            proof {
                assert forall|q: Position| !view.reveal_set(position).contains(q) by {
                    if view.reveal_set(position).contains(q) {
                        view.lemma_reveal_openable(position, q);
                    }
                }
                assert(found@.to_set() =~= view.reveal_set(position));
                found@.unique_seq_to_set();
            }
            return found;
        }
        let cells = self.squares.len();
        let mut marks: Vec<bool> = Vec::new();
        while marks.len() < cells
            invariant
                marks@.len() <= cells,
                forall|i: int| 0 <= i < marks@.len() ==> !(#[trigger] marks@[i]),
            decreases cells - marks@.len(),
        {
            marks.push(false);
        }
        let start = self.index(position);
        marks.set(start, true);
        found.push(position);
        let mut pending: Vec<Position> = Vec::new();
        pending.push(position);
        let ghost mut reached: Set<Position> = Set::empty().insert(position);
        let ghost mut settled: Set<Position> = Set::empty();
        let ghost mut unseen: Set<Position> = grid(self.rows as int, self.cols as int).remove(
            position,
        );
        proof {
            lemma_grid_len(self.rows as int, self.cols as int);
            view.lemma_path_start(position);
            self.lemma_square_at(position);
            assert forall|p: Position| #[trigger] reached.contains(p) <==> found@.contains(p) by {
                if p == position {
                    assert(found@[0] == p);
                }
            }
            assert forall|i: int| 0 <= i < marks@.len() implies (#[trigger] marks@[i]
                <==> reached.contains(self.squares@[i].position)) by {
                if i != start {
                    assert(index_of(self.cols as int, self.squares@[i].position) == i);
                }
            }
        }
        while pending.len() > 0
            invariant
                self.wf(),
                view == self@,
                self.searching(position, marks@, found@, pending@, reached, unseen),
                self.passed_on(settled, reached),
                forall|p: Position|
                    #[trigger] reached.contains(p) ==> settled.contains(p) || pending@.contains(p),
            decreases unseen.len() + pending@.len(),
        {
            let ghost waiting = pending@;
            let ghost measure = unseen.len() + pending@.len();
            let current = pending.pop().unwrap();
            proof {
                lemma_drop_last_contains(waiting);
                view.lemma_reveal_openable(position, current);
            }
            let square = self.squares[self.index(current)];
            if !square.mined && self.adjacent_mines(current) == 0 {
                let neighbours = current.adjacencies();
                let mut j: usize = 0;
                while j < neighbours.len()
                    invariant
                        self.wf(),
                        view == self@,
                        j <= neighbours@.len(),
                        forall|q: Position|
                            #[trigger] neighbours@.contains(q) <==> current.adjacent_to(q),
                        view.spreads(current),
                        reached.contains(current),
                        self.searching(position, marks@, found@, pending@, reached, unseen),
                        self.passed_on(settled, reached),
                        forall|p: Position|
                            #[trigger] reached.contains(p) ==> settled.contains(p)
                                || pending@.contains(p) || p == current,
                        forall|i: int|
                            0 <= i < j && view.openable(#[trigger] neighbours@[i])
                                ==> reached.contains(neighbours@[i]),
                        unseen.len() + pending@.len() == measure - 1,
                    decreases neighbours@.len() - j,
                {
                    let neighbour = neighbours[j];
                    assert(neighbours@.contains(neighbour));
                    if self.contains(neighbour) {
                        let i = self.index(neighbour);
                        if self.squares[i].openable() && !marks[i] {
                            let ghost found_before = found@;
                            let ghost pending_before = pending@;
                            let ghost marks_before = marks@;
                            let ghost reached_before = reached;
                            marks.set(i, true);
                            found.push(neighbour);
                            pending.push(neighbour);
                            proof {
                                view.lemma_reveal_spreads(position, current, neighbour);
                                lemma_push_contains(found_before, neighbour);
                                lemma_push_contains(pending_before, neighbour);
                                reached = reached.insert(neighbour);
                                unseen = unseen.remove(neighbour);
                                assert forall|k: int| 0 <= k < marks@.len() implies (
                                #[trigger] marks@[k] <==> reached.contains(
                                    self.squares@[k].position,
                                )) by {
                                    if k != i {
                                        assert(marks@[k] == marks_before[k]);
                                        assert(marks_before[k] <==> reached_before.contains(
                                            self.squares@[k].position,
                                        ));
                                    }
                                }
                            }
                        }
                    }
                    j += 1;
                }
                proof {
                    assert forall|q: Position|
                        current.adjacent_to(q) && view.openable(q) implies reached.contains(q) by {
                        assert(neighbours@.contains(q));
                        let i = choose|i: int| 0 <= i < neighbours@.len() && neighbours@[i] == q;
                        assert(view.openable(neighbours@[i]));
                    }
                }
            }
            proof {
                settled = settled.insert(current);
            }
        }
        proof {
            assert forall|p: Position, q: Position|
                #![trigger reached.contains(p), p.adjacent_to(q)]
                reached.contains(p) && view.spreads(p) && p.adjacent_to(q) && view.openable(
                    q,
                ) implies reached.contains(q) by {
                assert(settled.contains(p) || pending@.contains(p));
                assert(settled.contains(p));
            }
            view.lemma_reveal_set_least(position, reached);
            assert(found@.to_set() =~= view.reveal_set(position));
            found@.unique_seq_to_set();
        }
        found
    }

    /// Replaces the square at a grid position by one that stands on the
    /// same position and agrees with it on the mine.
    fn put(&mut self, position: Position, square: Square)
        requires
            old(self).wf(),
            old(self)@.contains(position),
            square.position == position,
            square.mined == old(self)@.cells[position].mined,
        ensures
            final(self).wf(),
            final(self)@ == (BoardView {
                cells: old(self)@.cells.insert(position, square),
                ..old(self)@
            }),
    {
        let i = self.index(position);
        self.squares.set(i, square);
        proof {
            assert forall|p: Position| self@.contains(p) implies #[trigger] self@.cells[p] == old(
                self,
            )@.cells.insert(position, square)[p] by {
                old(self).lemma_square_at(p);
                old(self).lemma_square_at(position);
            }
            assert(self@.cells =~= old(self)@.cells.insert(position, square));
            assert(self@.mine_set() =~= old(self)@.mine_set());
        }
    }

    /// Opens the square at `position` alone, whatever lies next to it, and
    /// says whether it did: it does when the square can be opened.
    pub fn open_square(&mut self, position: Position) -> (opened: bool)
        requires
            old(self).wf(),
        ensures
            final(self).wf(),
            opened == old(self)@.openable(position),
            opened ==> final(self)@ == old(self)@.open_all(set![position]),
            !opened ==> final(self)@ == old(self)@,
    {
        if !self.contains(position) {
            return false;
        }
        let mut square = self.squares[self.index(position)];
        let opened = square.open();
        if opened {
            self.put(position, square);
            proof {
                assert(self@.cells =~= old(self)@.open_all(set![position]).cells);
            }
        }
        opened
    }

    /// Reveals the square at `position`: opens it if it can be opened, and
    /// from a square without a mine and without a mine next to it goes on to
    /// the neighbours. Returns the positions opened, each once.
    pub fn open_position(&mut self, position: Position) -> (opened: Vec<Position>)
        requires
            old(self).wf(),
        ensures
            final(self).wf(),
            final(self)@ == old(self)@.after_reveal(position),
            opened@.no_duplicates(),
            opened@.to_set() == old(self)@.reveal_set(position),
            opened@.len() == old(self)@.reveal_set(position).len(),
    {
        let found = self.openable_positions(position);
        let ghost before = self@;
        let ghost mut done: Set<Position> = Set::empty();
        proof {
            assert(self@.cells =~= before.open_all(done).cells);
        }
        let mut j: usize = 0;
        while j < found.len()
            invariant
                self.wf(),
                before == old(self)@,
                j <= found@.len(),
                found@.no_duplicates(),
                found@.to_set() == before.reveal_set(position),
                found@.len() == before.reveal_set(position).len(),
                self@ == before.open_all(done),
                forall|p: Position| #[trigger] done.contains(p) <==> found@.take(j as int).contains(p),
            decreases found@.len() - j,
        {
            let next = found[j];
            proof {
                lemma_take_step(found@, j as int);
                assert(found@.to_set().contains(next));
                before.lemma_reveal_openable(position, next);
            }
            self.open_square(next);
            proof {
                done = done.insert(next);
                assert(self@.cells =~= before.open_all(done).cells);
            }
            j += 1;
        }
        proof {
            assert(found@.take(found@.len() as int) =~= found@);
            assert(done =~= before.reveal_set(position));
        }
        found
    }

    /// Moves the mark on the square at `position` one step through its
    /// cycle and returns the new mark. Off the board nothing changes and the
    /// answer is `Untagged`. An open square is marked like a closed one.
    pub fn tag_position(&mut self, position: Position) -> (tag: Tag)
        requires
            old(self).wf(),
        ensures
            final(self).wf(),
            final(self)@ == old(self)@.after_tag(position),
            tag == final(self)@.tag_at(position),
    {
        if !self.contains(position) {
            return Tag::Untagged;
        }
        let mut square = self.squares[self.index(position)];
        let tag = square.tag_it();
        self.put(position, square);
        tag
    }
}

} // verus!
