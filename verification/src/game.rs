//! A game session: a level, and from its start on a board and a status
//! that follows what the reveals have opened.

use vstd::prelude::*;
use crate::board::Board;
use crate::level::Level;
use crate::model::BoardView;
use crate::position::Position;
use crate::square::Tag;

verus! {

/// Where a session stands.
#[derive(Clone, Copy, Debug, PartialEq, Eq, Hash, Structural)]
pub enum GameStatus {
    /// Not started: there is no board yet.
    Stopped,
    Playing,
    Won,
    Lost,
}

/// What a reveal reports of one square that it opened.
#[derive(Clone, Copy, Debug, PartialEq, Eq, Structural)]
pub struct OpennedPosition {
    pub position: Position,
    pub mined: bool,
    pub adjacent_mines: usize,
}

impl OpennedPosition {
    pub fn new(position: Position, mined: bool, adjacent_mines: usize) -> (record: OpennedPosition)
        ensures
            record == (OpennedPosition { position, mined, adjacent_mines }),
    {
        OpennedPosition { position, mined, adjacent_mines }
    }
}

/// The positions of a list of records, in the order of the list.
pub open spec fn positions_of(records: Seq<OpennedPosition>) -> Seq<Position> {
    Seq::new(records.len(), |i: int| records[i].position)
}

impl BoardView {
    /// The status of a session whose board is `self` after a reveal.
    pub open spec fn outcome(self) -> GameStatus {
        if self.won() {
            GameStatus::Won
        } else if self.lost() {
            GameStatus::Lost
        } else {
            GameStatus::Playing
        }
    }

    /// What a reveal reports of the square at `p`.
    pub open spec fn record(self, p: Position) -> OpennedPosition {
        OpennedPosition {
            position: p,
            mined: self.is_mined(p),
            adjacent_mines: self.adjacent_mines(p) as usize,
        }
    }
}

/// A session seen as a mathematical object.
pub struct GameView {
    pub level: Level,
    pub status: GameStatus,
    pub board: Option<BoardView>,
}

impl GameView {
    /// There is a board from the start of the session on, it holds one
    /// square for each position of its grid, and the status says what the
    /// board shows: a session goes on while its board is neither won nor
    /// lost.
    pub open spec fn wf(self) -> bool {
        &&& self.status == GameStatus::Stopped <==> self.board is None
        &&& self.board matches Some(board) ==> {
            &&& board.wf()
            &&& self.status == GameStatus::Playing ==> !board.won() && !board.lost()
            &&& self.status == GameStatus::Won ==> board.won()
            &&& self.status == GameStatus::Lost ==> board.lost()
        }
    }

    /// The session has come to its end, won or lost.
    pub open spec fn is_over(self) -> bool {
        self.status == GameStatus::Won || self.status == GameStatus::Lost
    }

    /// A reveal is served while the session is being played.
    pub open spec fn serves_reveal(self) -> bool {
        self.status == GameStatus::Playing && self.board is Some
    }

    /// The positions that a reveal at `p` opens: none unless the session is
    /// being played.
    pub open spec fn reveal_set(self, p: Position) -> Set<Position> {
        if self.serves_reveal() {
            self.board->0.reveal_set(p)
        } else {
            Set::empty()
        }
    }

    /// The session after a reveal at `p`. Unless it is being played it
    /// stays as it is.
    pub open spec fn after_reveal(self, p: Position) -> GameView {
        if self.serves_reveal() {
            let board = self.board->0.after_reveal(p);
            GameView { status: board.outcome(), board: Some(board), ..self }
        } else {
            self
        }
    }

    /// The session after the mark at `p` has moved one step. Marks can be
    /// set whenever there is a board, also once the session is over.
    pub open spec fn after_tag(self, p: Position) -> GameView {
        match self.board {
            Some(board) => GameView { board: Some(board.after_tag(p)), ..self },
            None => self,
        }
    }

    /// The mark at `p`; without a board there is none.
    pub open spec fn tag_at(self, p: Position) -> Tag {
        match self.board {
            Some(board) => board.tag_at(p),
            None => Tag::Untagged,
        }
    }

    /// Whether a mine lies at `p`; without a board there is none.
    pub open spec fn is_mined(self, p: Position) -> bool {
        self.board matches Some(board) && board.is_mined(p)
    }

    /// How many mines the board holds; without a board there is none.
    pub open spec fn mine_count(self) -> nat {
        match self.board {
            Some(board) => board.mine_count(),
            None => 0,
        }
    }
}

/// A game of Minesweeper.
pub struct Game {
    level: Level,
    status: GameStatus,
    board: Option<Board>,
}

impl Game {
    /// The board, if there is one, is well formed, and the view of the
    /// session is too.
    pub closed spec fn wf(&self) -> bool {
        &&& self.board matches Some(board) ==> board.wf()
        &&& self@.wf()
    }

    pub closed spec fn view(&self) -> GameView {
        GameView {
            level: self.level,
            status: self.status,
            board: match self.board {
                Some(board) => Some(board@),
                None => None,
            },
        }
    }

    /// The view of a well-formed session is well formed.
    pub proof fn lemma_view_wf(&self)
        requires
            self.wf(),
        ensures
            self@.wf(),
    {
    }

    /// A session of the given level that has not started.
    pub fn new(level: Level) -> (game: Game)
        ensures
            game.wf(),
            game@ == (GameView { level, status: GameStatus::Stopped, board: None }),
    {
        Game { level, status: GameStatus::Stopped, board: None }
    }

    /// The number of rows of the level's board.
    pub fn rows(&self) -> (rows: u8)
        ensures
            rows == self@.level.row_count(),
    {
        match self.level {
            Level::Easy => 8,
            Level::Medium => 14,
            Level::Hard => 20,
        }
    }

    /// The number of columns of the level's board.
    pub fn cols(&self) -> (cols: u8)
        ensures
            cols == self@.level.col_count(),
    {
        match self.level {
            Level::Easy => 10,
            Level::Medium => 18,
            Level::Hard => 24,
        }
    }

    /// The number of mines of the level's board.
    pub fn mines(&self) -> (mines: u8)
        ensures
            mines == self@.level.mine_count(),
    {
        match self.level {
            Level::Easy => 10,
            Level::Medium => 40,
            Level::Hard => 99,
        }
    }

    pub fn status(&self) -> (status: GameStatus)
        ensures
            status == self@.status,
    {
        self.status
    }

    /// Starts the session on a new board of the level's size, with the
    /// level's number of mines laid at random and every square closed and
    /// unmarked. A board from an earlier start is dropped.
    pub fn start(&mut self)
        ensures
            final(self).wf(),
            final(self)@.level == old(self)@.level,
            final(self)@.status == GameStatus::Playing,
            final(self)@.board matches Some(board) && {
                &&& board.rows == final(self)@.level.row_count()
                &&& board.cols == final(self)@.level.col_count()
                &&& board.mine_count() == final(self)@.level.mine_count()
                &&& board.untouched()
            },
    {
        proof {
            self.level.lemma_room();
        }
        let board = Board::new(self.rows(), self.cols(), self.mines());
        proof {
            board.lemma_view_wf();
            board@.lemma_untouched_goes_on();
        }
        self.board = Some(board);
        self.status = GameStatus::Playing;
    }

    /// Reveals the square at `position` and reports each square that this
    /// opened, with its mine and the number of mines next to it. The session
    /// is won once every square without a mine is open, and lost once a
    /// square with a mine is. Unless the session is being played nothing is
    /// opened and nothing changes.
    pub fn open_position(&mut self, position: Position) -> (opened: Vec<OpennedPosition>)
        requires
            old(self).wf(),
        ensures
            final(self).wf(),
            final(self)@ == old(self)@.after_reveal(position),
            positions_of(opened@).no_duplicates(),
            positions_of(opened@).to_set() == old(self)@.reveal_set(position),
            opened@.len() == old(self)@.reveal_set(position).len(),
            forall|i: int|
                0 <= i < opened@.len() ==> #[trigger] opened@[i] == old(self)@.board->0.record(
                    opened@[i].position,
                ),
            !old(self)@.serves_reveal() ==> opened@.len() == 0 && final(self)@ == old(self)@,
    {
        let mut opened: Vec<OpennedPosition> = Vec::new();
        match self.status {
            GameStatus::Playing => {},
            _ => {
                assert(positions_of(opened@).to_set() =~= Set::<Position>::empty());
                return opened;
            },
        }
        let mut board = self.board.take().unwrap();
        let ghost before = board@;
        proof {
            board.lemma_view_wf();
        }
        let positions = board.open_position(position);
        let mut i: usize = 0;
        while i < positions.len()
            invariant
                board.wf(),
                before.wf(),
                board@ == before.after_reveal(position),
                i <= positions@.len(),
                positions@.len() == before.reveal_set(position).len(),
                opened@.len() == i,
                forall|j: int|
                    0 <= j < i ==> #[trigger] opened@[j] == before.record(positions@[j]),
            decreases positions@.len() - i,
        {
            let at = positions[i];
            let mined = board.position_mined(at);
            let adjacent_mines = board.adjacent_mines(at);
            proof {
                before.lemma_reveal_keeps_mines(position);
                assert(board@.is_mined(at) == before.is_mined(at)) by {
                    assert(board@.mine_set().contains(at) == before.mine_set().contains(at));
                }
            }
            opened.push(OpennedPosition::new(at, mined, adjacent_mines));
            i += 1;
        }
        proof {
            assert(positions_of(opened@) =~= positions@);
            board.lemma_view_wf();
        }
        self.status = if board.won() {
            GameStatus::Won
        } else if board.lost() {
            GameStatus::Lost
        } else {
            GameStatus::Playing
        };
        self.board = Some(board);
        opened
    }

    /// Moves the mark on the square at `position` one step through its
    /// cycle and returns the new mark. Before the start, and off the board,
    /// nothing changes and the answer is `Untagged`. Marks can still be set
    /// when the session is over, and on open squares.
    pub fn tag_position(&mut self, position: Position) -> (tag: Tag)
        requires
            old(self).wf(),
        ensures
            final(self).wf(),
            final(self)@ == old(self)@.after_tag(position),
            tag == final(self)@.tag_at(position),
    {
        match self.board.take() {
            Some(mut board) => {
                let ghost before = board@;
                let tag = board.tag_position(position);
                proof {
                    board.lemma_view_wf();
                    before.lemma_tag_keeps_outcome(position);
                }
                self.board = Some(board);
                tag
            },
            None => Tag::Untagged,
        }
    }

    /// Whether the session has come to its end, won or lost.
    pub fn over(&self) -> (over: bool)
        ensures
            over == self@.is_over(),
    {
        match self.status {
            GameStatus::Won => true,
            GameStatus::Lost => true,
            _ => false,
        }
    }

    /// Whether a square with a mine stands at `position`. Before the start
    /// there is none.
    pub fn position_mined(&self, position: Position) -> (mined: bool)
        requires
            self.wf(),
        ensures
            mined == self@.is_mined(position),
    {
        match &self.board {
            Some(board) => board.position_mined(position),
            None => false,
        }
    }
}

} // verus!
