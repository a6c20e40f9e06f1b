//! The rules of a Minesweeper game: a rectangular board of squares with a
//! hidden mine layout, cascading reveals, flag and question marks, and the
//! session that decides when a game is won or lost.

pub mod board;
pub mod game;
pub mod grid;
pub mod laws;
pub mod level;
pub mod mine_map;
pub mod model;
pub mod position;
pub mod seq_facts;
pub mod square;

pub use board::Board;
pub use game::{Game, GameStatus, GameView, OpennedPosition};
pub use level::Level;
pub use mine_map::{MineLayout, MineMap};
pub use model::BoardView;
pub use position::Position;
pub use square::{Square, Tag};
