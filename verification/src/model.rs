//! The board as a mathematical object: which squares it holds, what a
//! reveal opens, and when it is won or lost.

use vstd::prelude::*;
use crate::grid::{grid, in_grid};
use crate::mine_map::MineLayout;
use crate::position::Position;
use crate::square::{Square, Tag};

verus! {

/// A board seen as a map from each grid position to the square there.
pub struct BoardView {
    pub rows: nat,
    pub cols: nat,
    pub cells: Map<Position, Square>,
}

impl BoardView {
    /// Whether `p` is a position of this board.
    pub open spec fn contains(self, p: Position) -> bool {
        in_grid(self.rows as int, self.cols as int, p)
    }

    /// The board holds one square for each position of its grid and no
    /// other, and each square records the position it stands on.
    pub open spec fn wf(self) -> bool {
        &&& self.rows <= u8::MAX
        &&& self.cols <= u8::MAX
        &&& self.cells.dom() =~= grid(self.rows as int, self.cols as int)
        &&& forall|p: Position| self.contains(p) ==> (#[trigger] self.cells[p]).position == p
    }

    pub open spec fn is_mined(self, p: Position) -> bool {
        self.contains(p) && self.cells[p].mined
    }

    pub open spec fn is_opened(self, p: Position) -> bool {
        self.contains(p) && self.cells[p].opened
    }

    /// The mark on the square at `p`; off the board there is none.
    pub open spec fn tag_at(self, p: Position) -> Tag {
        if self.contains(p) {
            self.cells[p].tag
        } else {
            Tag::Untagged
        }
    }

    /// The square at `p` is on the board, closed and unmarked.
    pub open spec fn openable(self, p: Position) -> bool {
        self.contains(p) && self.cells[p].is_openable()
    }

    /// The positions that hold a mine.
    pub open spec fn mine_set(self) -> Set<Position> {
        Set::new(|p: Position| self.is_mined(p))
    }

    /// How many squares hold a mine.
    pub open spec fn mine_count(self) -> nat {
        self.mine_set().len()
    }

    /// The mined positions among the neighbours of `p`.
    pub open spec fn adjacent_mine_set(self, p: Position) -> Set<Position> {
        Set::new(|q: Position| p.adjacent_to(q) && self.is_mined(q))
    }

    /// How many neighbours of `p` hold a mine.
    pub open spec fn adjacent_mines(self, p: Position) -> nat {
        self.adjacent_mine_set(p).len()
    }

    /// Every square without a mine is open.
    pub open spec fn won(self) -> bool {
        forall|p: Position|
            self.contains(p) && !self.cells[p].mined ==> #[trigger] self.is_opened(p)
    }

    /// Some square with a mine is open.
    pub open spec fn lost(self) -> bool {
        exists|p: Position| self.is_mined(p) && #[trigger] self.is_opened(p)
    }

    /// A reveal passes through `p` to its neighbours: `p` can be opened,
    /// holds no mine and has no mine next to it.
    pub open spec fn spreads(self, p: Position) -> bool {
        self.openable(p) && !self.is_mined(p) && self.adjacent_mines(p) == 0
    }

    /// A route that a reveal can take: every square on it can be opened,
    /// each step goes to a neighbour, and the reveal passes through every
    /// square but the last.
    pub open spec fn flood_path(self, path: Seq<Position>) -> bool {
        &&& path.len() > 0
        &&& forall|i: int| 0 <= i < path.len() ==> self.openable(#[trigger] path[i])
        &&& forall|i: int|
            0 <= i < path.len() - 1 ==> #[trigger] self.spreads(path[i]) && path[i].adjacent_to(
                path[i + 1],
            )
    }

    /// `path` is a route of a reveal from `start` to `end`.
    pub open spec fn flood_path_between(
        self,
        path: Seq<Position>,
        start: Position,
        end: Position,
    ) -> bool {
        self.flood_path(path) && path[0] == start && path.last() == end
    }

    /// The positions that a reveal at `start` opens: those at the end of a
    /// route from `start`.
    pub open spec fn reveal_set(self, start: Position) -> Set<Position> {
        Set::new(|q: Position| exists|path: Seq<Position>| self.flood_path_between(path, start, q))
    }

    /// The board with every square at a position of `opened` open.
    pub open spec fn open_all(self, opened: Set<Position>) -> BoardView {
        BoardView {
            cells: Map::new(
                |p: Position| self.cells.dom().contains(p),
                |p: Position|
                    if opened.contains(p) {
                        self.cells[p].as_opened()
                    } else {
                        self.cells[p]
                    },
            ),
            ..self
        }
    }

    /// The board after a reveal at `start`.
    pub open spec fn after_reveal(self, start: Position) -> BoardView {
        self.open_all(self.reveal_set(start))
    }

    /// The board after the mark at `p` has moved one step through its cycle.
    /// A position off the board changes nothing.
    pub open spec fn after_tag(self, p: Position) -> BoardView {
        if self.contains(p) {
            BoardView { cells: self.cells.insert(p, self.cells[p].as_tagged()), ..self }
        } else {
            self
        }
    }

    /// The board built on a mine layout: every square closed and unmarked,
    /// with a mine where the layout has one.
    pub open spec fn fresh(layout: MineLayout) -> BoardView {
        BoardView {
            rows: layout.rows,
            cols: layout.cols,
            cells: Map::new(
                |p: Position| in_grid(layout.rows as int, layout.cols as int, p),
                |p: Position|
                    Square {
                        position: p,
                        mined: layout.mines.contains(p),
                        opened: false,
                        tag: Tag::Untagged,
                    },
            ),
        }
    }

    /// No square is open and none carries a mark.
    pub open spec fn untouched(self) -> bool {
        forall|p: Position|
            self.contains(p) ==> !(#[trigger] self.cells[p]).opened && self.cells[p].tag
                == Tag::Untagged
    }

    /// A reveal opens the square it starts on, if that square can be
    /// opened.
    pub proof fn lemma_path_start(self, start: Position)
        requires
            self.openable(start),
        ensures
            self.reveal_set(start).contains(start),
    {
        let path = seq![start];
        assert(self.flood_path_between(path, start, start));
    }

    /// A reveal goes on from each square it opens that holds no mine and
    /// has none next to it: it opens every neighbour that can be opened. So
    /// it opens the whole region of such squares around its start, and the
    /// squares that border the region.
    pub proof fn lemma_reveal_spreads(self, start: Position, p: Position, q: Position)
        requires
            self.reveal_set(start).contains(p),
            self.spreads(p),
            p.adjacent_to(q),
            self.openable(q),
        ensures
            self.reveal_set(start).contains(q),
    {
        let path = choose|path: Seq<Position>| self.flood_path_between(path, start, p);
        let longer = path.push(q);
        assert forall|i: int| 0 <= i < longer.len() implies self.openable(
            #[trigger] longer[i],
        ) by {
            if i < path.len() {
                assert(longer[i] == path[i]);
            }
        }
        assert forall|i: int| 0 <= i < longer.len() - 1 implies #[trigger] self.spreads(
            longer[i],
        ) && longer[i].adjacent_to(longer[i + 1]) by {
            if i < path.len() - 1 {
                assert(self.spreads(path[i]));
                assert(longer[i] == path[i]);
                assert(longer[i + 1] == path[i + 1]);
            } else {
                assert(longer[i] == p);
                assert(longer[i + 1] == q);
            }
        }
        assert(self.flood_path_between(longer, start, q));
    }

    /// A route without its last square is a route.
    pub proof fn lemma_path_prefix(self, path: Seq<Position>)
        requires
            self.flood_path(path),
            path.len() > 1,
        ensures
            self.flood_path(path.drop_last()),
            path.drop_last()[0] == path[0],
            path.drop_last().last() == path[path.len() - 2],
            self.spreads(path[path.len() - 2]),
            path[path.len() - 2].adjacent_to(path.last()),
    {
        let shorter = path.drop_last();
        assert forall|i: int| 0 <= i < shorter.len() implies self.openable(
            #[trigger] shorter[i],
        ) by {
            assert(shorter[i] == path[i]);
        }
        assert forall|i: int| 0 <= i < shorter.len() - 1 implies #[trigger] self.spreads(
            shorter[i],
        ) && shorter[i].adjacent_to(shorter[i + 1]) by {
            assert(self.spreads(path[i]));
            assert(shorter[i] == path[i]);
            assert(shorter[i + 1] == path[i + 1]);
        }
        assert(self.spreads(path[path.len() - 2]));
    }

    /// A set that holds the first square of a route, and with each square
    /// the reveal passes through its openable neighbours, holds the last
    /// square of the route.
    pub proof fn lemma_path_stays_inside(self, path: Seq<Position>, inside: Set<Position>)
        requires
            self.flood_path(path),
            inside.contains(path[0]),
            forall|p: Position, q: Position|
                #![trigger inside.contains(p), p.adjacent_to(q)]
                inside.contains(p) && self.spreads(p) && p.adjacent_to(q) && self.openable(q)
                    ==> inside.contains(q),
        ensures
            inside.contains(path.last()),
        decreases path.len(),
    {
        if path.len() > 1 {
            self.lemma_path_prefix(path);
            self.lemma_path_stays_inside(path.drop_last(), inside);
            let p = path[path.len() - 2];
            let q = path[path.len() - 1];
            assert(inside.contains(p) && p.adjacent_to(q));
            assert(self.openable(q));
        }
    }

    /// A reveal opens nothing outside a set that holds `start` and, with
    /// each square the reveal passes through, its openable neighbours.
    pub proof fn lemma_reveal_set_least(self, start: Position, inside: Set<Position>)
        requires
            self.openable(start) ==> inside.contains(start),
            forall|p: Position, q: Position|
                #![trigger inside.contains(p), p.adjacent_to(q)]
                inside.contains(p) && self.spreads(p) && p.adjacent_to(q) && self.openable(q)
                    ==> inside.contains(q),
        ensures
            self.reveal_set(start).subset_of(inside),
    {
        assert forall|q: Position| self.reveal_set(start).contains(q) implies inside.contains(
            q,
        ) by {
            let path = choose|path: Seq<Position>| self.flood_path_between(path, start, q);
            assert(self.openable(path[0]));
            self.lemma_path_stays_inside(path, inside);
        }
    }
}

} // verus!
