//! The state of one square of the board, and the mark a player may put on it.

use vstd::prelude::*;
use crate::position::Position;

verus! {

/// The mark a player has put on a square.
#[derive(Clone, Copy, Debug, PartialEq, Eq, Hash, Structural)]
pub enum Tag {
    Untagged,
    Flag,
    Question,
}

impl Tag {
    /// The mark that follows `self` in the cycle
    /// untagged, flag, question, untagged.
    pub open spec fn successor(self) -> Tag {
        match self {
            Tag::Untagged => Tag::Flag,
            Tag::Flag => Tag::Question,
            Tag::Question => Tag::Untagged,
        }
    }

    #[verifier::when_used_as_spec(successor)]
    pub fn next(self) -> (tag: Tag)
        ensures
            tag == self.successor(),
    {
        match self {
            Tag::Untagged => Tag::Flag,
            Tag::Flag => Tag::Question,
            Tag::Question => Tag::Untagged,
        }
    }

    /// Three steps through the cycle lead back to where they began.
    pub proof fn lemma_cycle(self)
        ensures
            self.successor().successor().successor() == self,
            Tag::Untagged.successor() == Tag::Flag,
            Tag::Flag.successor() == Tag::Question,
            Tag::Question.successor() == Tag::Untagged,
    {
    }
}

/// One square of the board.
#[derive(Clone, Copy, Debug, PartialEq, Eq, Structural)]
pub struct Square {
    pub position: Position,
    pub mined: bool,
    pub opened: bool,
    pub tag: Tag,
}

impl Square {
    /// A square can be opened while it is closed and carries no mark.
    pub open spec fn is_openable(self) -> bool {
        self.tag == Tag::Untagged && !self.opened
    }

    /// The square as it is once opened.
    pub open spec fn as_opened(self) -> Square {
        Square { opened: true, ..self }
    }

    /// The square with its mark moved one step through the cycle.
    pub open spec fn as_tagged(self) -> Square {
        Square { tag: self.tag.successor(), ..self }
    }

    /// A closed, unmarked square.
    pub fn new(position: Position, mined: bool) -> (square: Square)
        ensures
            square == (Square { position, mined, opened: false, tag: Tag::Untagged }),
    {
        Square { position, mined, opened: false, tag: Tag::Untagged }
    }

    pub fn openable(&self) -> (openable: bool)
        ensures
            openable == self.is_openable(),
    {
        match self.tag {
            Tag::Untagged => !self.opened,
            _ => false,
        }
    }

    /// Opens the square if it is openable and says whether it did. A square
    /// that is already open stays open.
    pub fn open(&mut self) -> (opened: bool)
        ensures
            opened == old(self).is_openable(),
            opened ==> *final(self) == old(self).as_opened(),
            !opened ==> *final(self) == *old(self),
    {
        if self.openable() {
            self.opened = true;
            true
        } else {
            false
        }
    }

    /// Moves the mark one step through the cycle and returns the new mark.
    pub fn tag_it(&mut self) -> (tag: Tag)
        ensures
            *final(self) == old(self).as_tagged(),
            tag == old(self).tag.successor(),
    {
        self.tag = self.tag.next();
        self.tag
    }

    pub fn adjacent(&self, position: Position) -> (adjacent: bool)
        ensures
            adjacent == self.position.adjacent_to(position),
    {
        self.position.adjacent(position)
    }
}

} // verus!
