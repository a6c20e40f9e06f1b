//! What holds of every board and every session.

use vstd::prelude::*;
use vstd::set_lib::lemma_len_subset;
use crate::game::{GameStatus, GameView};
use crate::grid::{grid, lemma_grid_len};
use crate::mine_map::MineLayout;
use crate::model::BoardView;
use crate::position::Position;
use crate::square::Tag;

verus! {

impl BoardView {
    /// The board built on a layout is a board: it holds one closed,
    /// unmarked square for each position, and the mines of the layout.
    pub proof fn lemma_fresh(layout: MineLayout)
        requires
            layout.wf(),
        ensures
            BoardView::fresh(layout).wf(),
            BoardView::fresh(layout).untouched(),
            BoardView::fresh(layout).mine_set() == layout.mines,
    {
        let board = BoardView::fresh(layout);
        assert(board.cells.dom() =~= grid(layout.rows as int, layout.cols as int));
        assert(board.mine_set() =~= layout.mines);
    }

    /// A board on which nothing is open and some square holds no mine is
    /// neither won nor lost.
    pub proof fn lemma_untouched_goes_on(self)
        requires
            self.wf(),
            self.untouched(),
            self.mine_count() < self.rows * self.cols,
        ensures
            !self.won(),
            !self.lost(),
    {
        if self.won() {
            let all = grid(self.rows as int, self.cols as int);
            lemma_grid_len(self.rows as int, self.cols as int);
            assert forall|p: Position| all.contains(p) implies self.mine_set().contains(p) by {
                assert(!self.cells[p].opened);
                assert(!self.is_opened(p));
            }
            assert(self.mine_set() =~= all);
        }
        if self.lost() {
            let p = choose|p: Position| self.is_mined(p) && self.is_opened(p);
            assert(!self.cells[p].opened);
        }
    }

    /// Opening squares moves no mine: the same positions hold one after as
    /// before, and next to each position there are as many as before.
    pub proof fn lemma_open_keeps_mines(self, opened: Set<Position>)
        requires
            self.wf(),
        ensures
            self.open_all(opened).wf(),
            self.open_all(opened).rows == self.rows,
            self.open_all(opened).cols == self.cols,
            self.open_all(opened).mine_set() == self.mine_set(),
            self.open_all(opened).mine_count() == self.mine_count(),
            forall|p: Position|
                #[trigger] self.open_all(opened).adjacent_mines(p) == self.adjacent_mines(p),
    {
        let after = self.open_all(opened);
        assert(after.mine_set() =~= self.mine_set());
        assert forall|p: Position| #[trigger] after.adjacent_mines(p) == self.adjacent_mines(
            p,
        ) by {
            assert(after.adjacent_mine_set(p) =~= self.adjacent_mine_set(p));
        }
    }

    /// A reveal moves no mine.
    pub proof fn lemma_reveal_keeps_mines(self, start: Position)
        requires
            self.wf(),
        ensures
            self.after_reveal(start).wf(),
            self.after_reveal(start).rows == self.rows,
            self.after_reveal(start).cols == self.cols,
            self.after_reveal(start).mine_set() == self.mine_set(),
            self.after_reveal(start).mine_count() == self.mine_count(),
            forall|p: Position|
                #[trigger] self.after_reveal(start).adjacent_mines(p) == self.adjacent_mines(p),
    {
        self.lemma_open_keeps_mines(self.reveal_set(start));
    }

    /// A mark moves no mine.
    pub proof fn lemma_tag_keeps_mines(self, at: Position)
        requires
            self.wf(),
        ensures
            self.after_tag(at).wf(),
            self.after_tag(at).rows == self.rows,
            self.after_tag(at).cols == self.cols,
            self.after_tag(at).mine_set() == self.mine_set(),
            self.after_tag(at).mine_count() == self.mine_count(),
    {
        assert(self.after_tag(at).cells.dom() =~= grid(self.rows as int, self.cols as int));
        assert(self.after_tag(at).mine_set() =~= self.mine_set());
    }

    /// A mark opens and closes nothing: a board is won or lost after it
    /// exactly if it was before.
    pub proof fn lemma_tag_keeps_outcome(self, at: Position)
        requires
            self.wf(),
        ensures
            self.after_tag(at).wf(),
            self.after_tag(at).won() == self.won(),
            self.after_tag(at).lost() == self.lost(),
    {
        let after = self.after_tag(at);
        assert forall|p: Position|
            after.contains(p) == self.contains(p) && after.is_mined(p) == self.is_mined(p)
                && after.is_opened(p) == self.is_opened(p) by {}
        if self.won() {
            assert forall|p: Position|
                after.contains(p) && !after.cells[p].mined implies after.is_opened(p) by {
                assert(self.is_mined(p) == after.is_mined(p));
                assert(self.is_opened(p));
            }
        }
        if after.won() {
            assert forall|p: Position|
                self.contains(p) && !self.cells[p].mined implies self.is_opened(p) by {
                assert(self.is_mined(p) == after.is_mined(p));
                assert(after.is_opened(p));
            }
        }
        if self.lost() {
            let p = choose|p: Position| self.is_mined(p) && self.is_opened(p);
            assert(after.is_mined(p) && after.is_opened(p));
        }
        if after.lost() {
            let p = choose|p: Position| after.is_mined(p) && after.is_opened(p);
            assert(self.is_mined(p) && self.is_opened(p));
        }
        assert(after.cells.dom() =~= grid(self.rows as int, self.cols as int));
    }

    /// A board holds exactly one square for each pair of a row and a
    /// column: `rows * cols` squares, one at each position of the grid, none
    /// elsewhere, and no two on the same position.
    pub proof fn lemma_one_square_each(self)
        requires
            self.wf(),
        ensures
            self.cells.dom().finite(),
            self.cells.dom().len() == self.rows * self.cols,
            forall|p: Position| #[trigger] self.cells.dom().contains(p) <==> self.contains(p),
            forall|p: Position, q: Position|
                #![trigger self.cells[p], self.cells[q]]
                self.contains(p) && self.contains(q) && self.cells[p].position
                    == self.cells[q].position ==> p == q,
    {
        lemma_grid_len(self.rows as int, self.cols as int);
    }

    /// The mines of a board are finite in number, and so are the mines next
    /// to a position: there are eight at most.
    pub proof fn lemma_mines_finite(self, p: Position)
        requires
            self.wf(),
        ensures
            self.mine_set().finite(),
            self.mine_count() <= self.rows * self.cols,
            self.adjacent_mine_set(p).finite(),
            self.adjacent_mines(p) <= 8,
    {
        let all = grid(self.rows as int, self.cols as int);
        lemma_grid_len(self.rows as int, self.cols as int);
        lemma_len_subset(self.mine_set(), all);
        lemma_len_subset(self.adjacent_mine_set(p), self.mine_set());
        let around = Set::new(|q: Position| p.adjacent_to(q));
        Self::lemma_neighbours(p);
        lemma_len_subset(self.adjacent_mine_set(p), around);
    }

    /// A position has eight neighbours at most.
    pub proof fn lemma_neighbours(p: Position)
        ensures
            Set::new(|q: Position| p.adjacent_to(q)).finite(),
            Set::new(|q: Position| p.adjacent_to(q)).len() <= 8,
    {
        let around = Set::new(|q: Position| p.adjacent_to(q));
        let block = Set::new(
            |q: Position| p.x - 1 <= q.x <= p.x + 1 && p.y - 1 <= q.y <= p.y + 1,
        );
        let row = |dx: int|
            Set::new(|q: Position| q.x == p.x + dx && p.y - 1 <= q.y <= p.y + 1);
        let cell = |dx: int, dy: int| Set::new(|q: Position| q.x == p.x + dx && q.y == p.y + dy);
        assert forall|dx: int, dy: int| (#[trigger] cell(dx, dy)).finite() && cell(dx, dy).len()
            <= 1 by {
            let c = cell(dx, dy);
            if exists|q: Position| c.contains(q) {
                let q = choose|q: Position| c.contains(q);
                assert(c =~= Set::empty().insert(q));
            } else {
                assert(c =~= Set::<Position>::empty());
            }
        }
        assert forall|dx: int| (#[trigger] row(dx)).finite() && row(dx).len() <= 3 by {
            let r = row(dx);
            assert(cell(dx, -1).finite() && cell(dx, 0).finite() && cell(dx, 1).finite());
            assert(r =~= cell(dx, -1) + cell(dx, 0) + cell(dx, 1));
            vstd::set_lib::lemma_len_union(cell(dx, -1), cell(dx, 0));
            vstd::set_lib::lemma_len_union(cell(dx, -1) + cell(dx, 0), cell(dx, 1));
        }
        assert(row(-1).finite() && row(0).finite() && row(1).finite());
        assert(block =~= row(-1) + row(0) + row(1));
        vstd::set_lib::lemma_len_union(row(-1), row(0));
        vstd::set_lib::lemma_len_union(row(-1) + row(0), row(1));
        assert(around =~= block.remove(p));
        assert(block.contains(p));
    }

    /// A reveal opens only squares that can be opened, and none unless the
    /// square it starts on can be.
    pub proof fn lemma_reveal_openable(self, start: Position, p: Position)
        requires
            self.reveal_set(start).contains(p),
        ensures
            self.openable(p),
            self.openable(start),
    {
        let path = choose|path: Seq<Position>| self.flood_path_between(path, start, p);
        assert(self.openable(path[0]));
        assert(self.openable(path[path.len() - 1]));
    }

    /// A reveal opens the square it starts on exactly if that square can be
    /// opened, and nothing at all if it cannot: off the board, on an open
    /// square and on a marked one a reveal changes nothing.
    pub proof fn lemma_reveal_start(self, start: Position)
        requires
            self.wf(),
        ensures
            self.reveal_set(start).contains(start) <==> self.openable(start),
            !self.openable(start) ==> self.reveal_set(start) == Set::<Position>::empty(),
            !self.openable(start) ==> self.after_reveal(start) == self,
    {
        if self.openable(start) {
            self.lemma_path_start(start);
        } else {
            assert forall|q: Position| !self.reveal_set(start).contains(q) by {
                if self.reveal_set(start).contains(q) {
                    self.lemma_reveal_openable(start, q);
                }
            }
            assert(self.reveal_set(start) =~= Set::<Position>::empty());
            assert(self.after_reveal(start).cells =~= self.cells);
        }
    }

    /// A reveal stops on a square with a mine and on a square with a mine
    /// next to it: started there, it opens that square and no other.
    pub proof fn lemma_reveal_stops(self, start: Position)
        requires
            self.openable(start),
            !self.spreads(start),
        ensures
            self.reveal_set(start) == set![start],
    {
        self.lemma_path_start(start);
        assert forall|q: Position| self.reveal_set(start).contains(q) implies q == start by {
            let path = choose|path: Seq<Position>| self.flood_path_between(path, start, q);
            if path.len() > 1 {
                assert(self.spreads(path[0]));
            }
        }
        assert(self.reveal_set(start) =~= set![start]);
    }

    /// A reveal crosses no square with a mine next to it: each square it
    /// opens, but for the one it starts on, lies next to an opened square
    /// that holds no mine and has no mine next to it.
    pub proof fn lemma_reveal_border(self, start: Position, q: Position)
        requires
            self.reveal_set(start).contains(q),
            q != start,
        ensures
            exists|p: Position|
                #![trigger self.reveal_set(start).contains(p)]
                self.reveal_set(start).contains(p) && self.spreads(p) && p.adjacent_to(q),
    {
        let path = choose|path: Seq<Position>| self.flood_path_between(path, start, q);
        self.lemma_path_prefix(path);
        let p = path[path.len() - 2];
        assert(self.flood_path_between(path.drop_last(), start, p));
        assert(self.reveal_set(start).contains(p));
    }

    /// A reveal opens a square with a mine only where it starts.
    pub proof fn lemma_reveal_spares_mines(self, start: Position, q: Position)
        requires
            self.wf(),
            self.reveal_set(start).contains(q),
            q != start,
        ensures
            !self.is_mined(q),
    {
        self.lemma_reveal_border(start, q);
        let p = choose|p: Position|
            #![trigger self.reveal_set(start).contains(p)]
            self.reveal_set(start).contains(p) && self.spreads(p) && p.adjacent_to(q);
        self.lemma_mines_finite(p);
        if self.is_mined(q) {
            assert(self.adjacent_mine_set(p).contains(q));
        }
    }

    /// After a reveal the open squares are those that were open and those
    /// that the reveal opened. Marks and mines are as before.
    pub proof fn lemma_reveal_opens(self, start: Position, p: Position)
        requires
            self.wf(),
        ensures
            self.after_reveal(start).is_opened(p) <==> self.is_opened(p) || self.reveal_set(
                start,
            ).contains(p),
            self.after_reveal(start).tag_at(p) == self.tag_at(p),
            self.after_reveal(start).is_mined(p) == self.is_mined(p),
    {
        if self.reveal_set(start).contains(p) {
            self.lemma_reveal_openable(start, p);
        }
    }

    /// An open square stays open: neither a reveal nor a mark closes one.
    pub proof fn lemma_open_stays_open(self, at: Position, p: Position)
        requires
            self.wf(),
            self.is_opened(p),
        ensures
            self.after_reveal(at).is_opened(p),
            self.after_tag(at).is_opened(p),
    {
    }

    /// Opening every square without a mine wins, whatever way they are
    /// opened and whatever else is open.
    pub proof fn lemma_open_safe_wins(self, opened: Set<Position>)
        requires
            self.wf(),
            forall|p: Position|
                self.contains(p) && !self.is_mined(p) ==> #[trigger] opened.contains(p)
                    || self.is_opened(p),
        ensures
            self.open_all(opened).won(),
    {
        let after = self.open_all(opened);
        assert forall|p: Position|
            after.contains(p) && !after.cells[p].mined implies #[trigger] after.is_opened(p) by {
            assert(opened.contains(p) || self.is_opened(p));
        }
    }

    /// Opening a square with a mine loses, whatever else is open or closed.
    pub proof fn lemma_open_mine_loses(self, opened: Set<Position>, p: Position)
        requires
            self.wf(),
            self.is_mined(p),
            opened.contains(p),
        ensures
            self.open_all(opened).lost(),
    {
        let after = self.open_all(opened);
        assert(after.is_mined(p) && after.is_opened(p));
    }

    /// A reveal on a closed, unmarked square with a mine loses.
    pub proof fn lemma_reveal_mine_loses(self, p: Position)
        requires
            self.wf(),
            self.is_mined(p),
            self.openable(p),
        ensures
            self.after_reveal(p).lost(),
            self.reveal_set(p) == set![p],
    {
        self.lemma_reveal_stops(p);
        self.lemma_open_mine_loses(self.reveal_set(p), p);
    }

    /// A board stays lost, and stays won, whatever is opened on it.
    pub proof fn lemma_open_keeps_outcome(self, opened: Set<Position>)
        requires
            self.wf(),
        ensures
            self.lost() ==> self.open_all(opened).lost(),
            self.won() ==> self.open_all(opened).won(),
    {
        let after = self.open_all(opened);
        if self.lost() {
            let p = choose|p: Position| self.is_mined(p) && self.is_opened(p);
            assert(after.is_mined(p) && after.is_opened(p));
        }
        if self.won() {
            assert forall|p: Position|
                after.contains(p) && !after.cells[p].mined implies #[trigger] after.is_opened(
                p,
            ) by {
                assert(self.is_opened(p));
            }
        }
    }

    /// Three marks on one square bring the board back to what it was. The
    /// mark moves one step each time: from a square without a mark the three
    /// are `Flag`, `Question`, `Untagged`.
    pub proof fn lemma_tag_cycle(self, p: Position)
        requires
            self.wf(),
        ensures
            self.after_tag(p).after_tag(p).after_tag(p) == self,
            self.contains(p) ==> self.after_tag(p).tag_at(p) == self.tag_at(p).successor(),
            self.tag_at(p) == Tag::Untagged && self.contains(p) ==> {
                &&& self.after_tag(p).tag_at(p) == Tag::Flag
                &&& self.after_tag(p).after_tag(p).tag_at(p) == Tag::Question
                &&& self.after_tag(p).after_tag(p).after_tag(p).tag_at(p) == Tag::Untagged
            },
            !self.contains(p) ==> self.after_tag(p) == self,
    {
        if self.contains(p) {
            let thrice = self.after_tag(p).after_tag(p).after_tag(p);
            self.cells[p].tag.lemma_cycle();
            assert(thrice.cells =~= self.cells);
        }
    }
}

impl GameView {
    /// A session that is over serves no reveal: nothing is opened and the
    /// session stays as it is. So does one that has not started.
    pub proof fn lemma_over_is_final(self, p: Position)
        requires
            self.is_over() || self.status == GameStatus::Stopped,
        ensures
            self.after_reveal(p) == self,
            self.reveal_set(p) == Set::<Position>::empty(),
            self.after_tag(p).status == self.status,
    {
    }

    /// What a session is after a reveal or a mark is a session again: the
    /// status goes on saying what the board shows.
    pub proof fn lemma_steps_keep_wf(self, p: Position)
        requires
            self.wf(),
        ensures
            self.after_reveal(p).wf(),
            self.after_tag(p).wf(),
    {
        if let Some(board) = self.board {
            board.lemma_reveal_keeps_mines(p);
            board.lemma_tag_keeps_outcome(p);
        }
    }

    /// The number of mines never changes in play: neither a reveal nor a
    /// mark moves a mine.
    pub proof fn lemma_mines_stay(self, p: Position)
        requires
            self.wf(),
        ensures
            self.after_reveal(p).mine_count() == self.mine_count(),
            self.after_tag(p).mine_count() == self.mine_count(),
            forall|q: Position| self.after_reveal(p).is_mined(q) == self.is_mined(q),
            forall|q: Position| self.after_tag(p).is_mined(q) == self.is_mined(q),
    {
        if let Some(board) = self.board {
            board.lemma_reveal_keeps_mines(p);
            board.lemma_tag_keeps_mines(p);
            assert forall|q: Position| self.after_reveal(p).is_mined(q) == self.is_mined(q) by {
                board.lemma_reveal_opens(p, q);
            }
            assert forall|q: Position| self.after_tag(p).is_mined(q) == self.is_mined(q) by {
                assert(board.after_tag(p).mine_set().contains(q) == board.mine_set().contains(q));
            }
        }
    }

    /// A reveal on a closed, unmarked square with a mine ends the session
    /// as lost, whatever the other squares are.
    pub proof fn lemma_mine_loses(self, p: Position)
        requires
            self.wf(),
            self.serves_reveal(),
            self.board->0.is_mined(p),
            self.board->0.openable(p),
        ensures
            self.after_reveal(p).status == GameStatus::Lost,
    {
        let board = self.board->0;
        board.lemma_reveal_mine_loses(p);
        let after = board.after_reveal(p);
        if after.won() {
            assert forall|q: Position|
                board.contains(q) && !board.cells[q].mined implies #[trigger] board.is_opened(
                q,
            ) by {
                assert(after.is_opened(q));
            }
        }
    }

    /// A session is won exactly when a reveal leaves every square without a
    /// mine open.
    pub proof fn lemma_win(self, p: Position)
        requires
            self.wf(),
            self.serves_reveal(),
        ensures
            self.after_reveal(p).status == GameStatus::Won <==> self.board->0.after_reveal(
                p,
            ).won(),
    {
    }

    /// Three marks on one square bring the session back to what it was.
    pub proof fn lemma_tag_cycle(self, p: Position)
        requires
            self.wf(),
        ensures
            self.after_tag(p).after_tag(p).after_tag(p) == self,
            self.after_tag(p).tag_at(p) == if self.board matches Some(board) && board.contains(p) {
                self.tag_at(p).successor()
            } else {
                Tag::Untagged
            },
    {
        if let Some(board) = self.board {
            board.lemma_tag_cycle(p);
        }
    }
}

} // verus!
