use crate::board::enums::cell::{Cell, FromCellCoords};
use vstd::prelude::*;

verus! {

/// The constraint that an edge puts on the two cells it separates.
#[derive(Debug, Clone, Copy, PartialEq, Eq, Structural)]
pub enum Wall {
    /// No constraint.
    Normal,
    /// Both cells carry the same mark.
    Equals,
    /// The two cells carry different marks.
    NotEquals,
}

impl Wall {
    /// Whether the constraint holds of the marks on the two sides of the edge.
    /// An unmarked cell counts as a mark of its own.
    pub open spec fn holds(self, cell1: Cell, cell2: Cell) -> bool {
        match self {
            Wall::Normal => true,
            Wall::Equals => cell1 == cell2,
            Wall::NotEquals => cell1 != cell2,
        }
    }

    pub fn check_cells(&self, cell1: &Cell, cell2: &Cell) -> (ok: bool)
        ensures
            ok == self.holds(*cell1, *cell2),
    {
        match self {
            Wall::Normal => true,
            Wall::Equals => *cell1 == *cell2,
            Wall::NotEquals => *cell1 != *cell2,
        }
    }

    /// What each kind of edge asks of the two marks beside it.
    pub proof fn lemma_holds_table(cell1: Cell, cell2: Cell)
        ensures
            Wall::Normal.holds(cell1, cell2),
            Wall::Equals.holds(cell1, cell2) <==> cell1 == cell2,
            Wall::NotEquals.holds(cell1, cell2) <==> cell1 != cell2,
    {
    }

    /// The constraint does not depend on the side from which the edge is looked at.
    pub proof fn lemma_holds_symmetric(self, cell1: Cell, cell2: Cell)
        ensures
            self.holds(cell1, cell2) == self.holds(cell2, cell1),
    {
    }
}

/// A constraint put on an edge before the search starts.
#[derive(Debug, Clone, Copy)]
pub struct WallCoords {
    pub coords: FromCellCoords,
    pub wall: Wall,
}

impl WallCoords {
    pub fn coords(&self) -> (coords: &FromCellCoords)
        ensures
            *coords == self.coords,
    {
        &self.coords
    }

    pub fn wall(&self) -> (wall: &Wall)
        ensures
            *wall == self.wall,
    {
        &self.wall
    }
}

} // verus!
