//! The difficulty levels and the board that each of them calls for.

use vstd::prelude::*;

verus! {

/// How hard a game is: the size of its board and the number of its mines.
#[derive(Clone, Copy, Debug, PartialEq, Eq, Hash, Structural)]
pub enum Level {
    Easy,
    Medium,
    Hard,
}

impl Level {
    pub open spec fn row_count(self) -> u8 {
        match self {
            Level::Easy => 8,
            Level::Medium => 14,
            Level::Hard => 20,
        }
    }

    pub open spec fn col_count(self) -> u8 {
        match self {
            Level::Easy => 10,
            Level::Medium => 18,
            Level::Hard => 24,
        }
    }

    pub open spec fn mine_count(self) -> u8 {
        match self {
            Level::Easy => 10,
            Level::Medium => 40,
            Level::Hard => 99,
        }
    }

    /// Every level leaves room for its mines, and squares to spare.
    pub proof fn lemma_room(self)
        ensures
            self.mine_count() < self.row_count() * self.col_count(),
    {
        match self {
            Level::Easy => {
                assert(8 * 10 == 80);
            },
            Level::Medium => {
                assert(14 * 18 == 252);
            },
            Level::Hard => {
                assert(20 * 24 == 480);
            },
        }
    }
}

} // verus!
