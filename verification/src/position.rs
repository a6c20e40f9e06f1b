//! Grid coordinates and the eight-way neighbourhood between them.

use vstd::prelude::*;
use crate::seq_facts::lemma_push_contains;

verus! {

/// A coordinate on the grid: `x` is the row, `y` the column.
#[derive(Clone, Copy, Debug, PartialEq, Eq, Hash, Structural)]
pub struct Position {
    pub x: i32,
    pub y: i32,
}

impl Position {
    /// Two positions are adjacent when they differ by at most one step on
    /// each axis and are not the same position.
    pub open spec fn adjacent_to(self, other: Position) -> bool {
        &&& -1 <= other.x - self.x <= 1
        &&& -1 <= other.y - self.y <= 1
        &&& self != other
    }

    pub fn new(x: i32, y: i32) -> (position: Position)
        ensures
            position.x == x,
            position.y == y,
    {
        Position { x, y }
    }

    /// The neighbours of `self`: every position adjacent to it, each once.
    /// There are eight of them unless `self` lies on the rim of the
    /// coordinate range.
    pub fn adjacencies(&self) -> (neighbours: Vec<Position>)
        ensures
            neighbours@.no_duplicates(),
            forall|q: Position| neighbours@.contains(q) <==> self.adjacent_to(q),
    {
        let mut neighbours: Vec<Position> = Vec::new();
        let mut dx: i64 = -1;
        while dx <= 1
            invariant
                -1 <= dx <= 2,
                neighbours@.no_duplicates(),
                forall|q: Position|
                    #[trigger] neighbours@.contains(q) <==> self.adjacent_to(q) && q.x - self.x
                        < dx,
            decreases 2 - dx,
        {
            let mut dy: i64 = -1;
            while dy <= 1
                invariant
                    -1 <= dx <= 1,
                    -1 <= dy <= 2,
                    neighbours@.no_duplicates(),
                    forall|q: Position|
                        #[trigger] neighbours@.contains(q) <==> self.adjacent_to(q) && (q.x
                            - self.x < dx || (q.x - self.x == dx && q.y - self.y < dy)),
                decreases 2 - dy,
            {
                let x: i64 = self.x as i64 + dx;
                let y: i64 = self.y as i64 + dy;
                if !(dx == 0 && dy == 0) && i32::MIN as i64 <= x && x <= i32::MAX as i64
                    && i32::MIN as i64 <= y && y <= i32::MAX as i64 {
                    let neighbour = Position { x: x as i32, y: y as i32 };
                    let ghost before = neighbours@;
                    neighbours.push(neighbour);
                    proof {
                        lemma_push_contains(before, neighbour);
                    }
                }
                dy += 1;
            }
            dx += 1;
        }
        neighbours
    }

    /// Whether `position` is one of the eight neighbours of `self`.
    pub fn adjacent(&self, position: Position) -> (adjacent: bool)
        ensures
            adjacent == self.adjacent_to(position),
    {
        let dx: i64 = position.x as i64 - self.x as i64;
        let dy: i64 = position.y as i64 - self.y as i64;
        -1 <= dx && dx <= 1 && -1 <= dy && dy <= 1 && !(dx == 0 && dy == 0)
    }
}

} // verus!
