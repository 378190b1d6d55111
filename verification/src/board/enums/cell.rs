use crate::board::coords::Coords;
use vstd::prelude::*;

verus! {

/// The mark of one cell of the grid.
#[derive(Debug, Clone, Copy, PartialEq, Eq, Structural)]
pub enum Cell {
    Empty,
    Black,
    White,
}

impl Cell {
    /// The place of a mark in the order in which the search tries marks:
    /// `Empty` before `Black` before `White`.
    pub open spec fn rank(self) -> int {
        match self {
            Cell::Empty => 0,
            Cell::Black => 1,
            Cell::White => 2,
        }
    }

    /// The cyclic successor: `Empty`, then `Black`, then `White`, then `Empty` again.
    pub open spec fn next_state(self) -> Cell {
        match self {
            Cell::Empty => Cell::Black,
            Cell::Black => Cell::White,
            Cell::White => Cell::Empty,
        }
    }

    pub fn is_empty(&self) -> (b: bool)
        ensures
            b == (*self == Cell::Empty),
    {
        matches!(self, Cell::Empty)
    }

    pub fn is_black(&self) -> (b: bool)
        ensures
            b == (*self == Cell::Black),
    {
        matches!(self, Cell::Black)
    }

    pub fn is_white(&self) -> (b: bool)
        ensures
            b == (*self == Cell::White),
    {
        matches!(self, Cell::White)
    }

    /// The next candidate mark for a cell. A result of `Empty` says that both
    /// `Black` and `White` have been tried.
    pub fn get_next_state(&self) -> (next: Cell)
        ensures
            next == self.next_state(),
    {
        match self {
            Cell::Empty => Cell::Black,
            Cell::Black => Cell::White,
            Cell::White => Cell::Empty,
        }
    }

    /// The successor visits the marks in rising rank and wraps around after `White`.
    pub proof fn lemma_next_state_cycles(self)
        ensures
            self.next_state().rank() == (self.rank() + 1) % 3,
            self.next_state().next_state().next_state() == self,
            self.next_state() == Cell::Empty <==> self == Cell::White,
    {
    }
}

/// A reference to one edge of the grid, named by the cell below it (`Up`) or
/// the cell to its right (`Left`).
#[derive(Debug, Clone, Copy, PartialEq, Eq, Structural)]
pub enum FromCellCoords {
    /// The edge between the given cell and the cell above it.
    Up(Coords),
    /// The edge between the given cell and the cell to its left.
    Left(Coords),
}

/// A mark fixed on a cell before the search starts.
#[derive(Debug, Clone, Copy)]
pub struct CellCoords {
    pub coords: Coords,
    pub cell: Cell,
}

impl CellCoords {
    pub fn coords(&self) -> (coords: &Coords)
        ensures
            *coords == self.coords,
    {
        &self.coords
    }

    pub fn cell(&self) -> (cell: &Cell)
        ensures
            *cell == self.cell,
    {
        &self.cell
    }
}

} // verus!
