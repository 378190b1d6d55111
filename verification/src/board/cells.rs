use crate::board::coords::Coords;
use crate::board::enums::cell::{Cell, CellCoords};
use crate::error::SolverError;
use vstd::prelude::*;

verus! {

/// The marks of a square grid, stored row by row.
pub struct Cells {
    size: u32,
    grid: Vec<Cell>,
}

impl View for Cells {
    type V = Seq<Cell>;

    /// The marks in row-major order.
    closed spec fn view(&self) -> Seq<Cell> {
        self.grid@
    }
}

/// The grid that results from writing the given marks, in their order, onto an
/// unmarked grid of `size` rows and columns. A later mark replaces an earlier
/// one on the same cell.
pub open spec fn marked_grid(size: nat, marks: Seq<CellCoords>) -> Seq<Cell>
    decreases marks.len(),
{
    if marks.len() == 0 {
        Seq::new(size * size, |i: int| Cell::Empty)
    } else {
        marked_grid(size, marks.drop_last()).update(
            marks.last().coords.index(size as int),
            marks.last().cell,
        )
    }
}

/// Whether the place of the given position lies inside the storage of a grid
/// of `size` rows and columns.
pub open spec fn cell_fits(size: nat, coords: Coords) -> bool {
    coords.index(size as int) < size * size
}

impl Cells {
    /// The storage holds one mark for each cell of the grid.
    #[verifier::type_invariant]
    pub open spec fn well_formed(&self) -> bool {
        self@.len() == self.size() * self.size()
    }

    /// The number of rows, which is also the number of columns.
    pub closed spec fn size(&self) -> nat {
        self.size as nat
    }

    /// An unmarked grid of `size` rows and columns.
    pub fn new(size: u32) -> (cells: Self)
        requires
            size * size <= usize::MAX,
        ensures
            cells.size() == size,
            cells@ == Seq::new((size * size) as nat, |i: int| Cell::Empty),
    {
        assert(size * size == (size as usize) * (size as usize)) by (nonlinear_arith);
        assert(size * size == (size as nat) * (size as nat)) by (nonlinear_arith);
        let grid = vec![Cell::Empty; size as usize * size as usize];
        assert(grid@ =~= Seq::new((size * size) as nat, |i: int| Cell::Empty));
        Cells { size, grid }
    }

    /// A grid of `size` rows and columns that carries the given marks. Fails on
    /// the first mark whose place lies outside the grid.
    pub fn from_cells(size: u32, cells: Vec<CellCoords>) -> (built: Result<Self, SolverError>)
        requires
            size * size <= usize::MAX,
        ensures
            match built {
                Ok(grid) => {
                    &&& forall|k: int| 0 <= k < cells@.len() ==> cell_fits(size as nat, #[trigger] cells@[k].coords)
                    &&& grid.size() == size
                    &&& grid@ == marked_grid(size as nat, cells@)
                },
                Err(e) => {
                    &&& e == SolverError::OutOfBounds
                    &&& exists|k: int| 0 <= k < cells@.len() && !cell_fits(size as nat, #[trigger] cells@[k].coords)
                },
            },
    {
        let mut cells_grid = Cells::new(size);
        let mut i: usize = 0;
        assert(cells@.take(0) =~= Seq::<CellCoords>::empty());
        while i < cells.len()
            invariant
                i <= cells@.len(),
                cells_grid.size() == size,
                cells_grid@ == marked_grid(size as nat, cells@.take(i as int)),
                forall|k: int| 0 <= k < i ==> cell_fits(size as nat, #[trigger] cells@[k].coords),
            decreases cells@.len() - i,
        {
            let entry = &cells[i];
            match cells_grid.set_cell(&entry.coords, entry.cell) {
                Ok(()) => {},
                Err(e) => {
                    return Err(e);
                },
            }
            proof {
                let done = cells@.take(i + 1);
                assert(done.drop_last() =~= cells@.take(i as int));
                assert(done.last() == cells@[i as int]);
            }
            i += 1;
        }
        assert(cells@.take(i as int) =~= cells@);
        Ok(cells_grid)
    }

    /// The mark at the given position, or `OutOfBounds` if its place lies
    /// outside the grid.
    pub fn get_cell(&self, coords: &Coords) -> (found: Result<Cell, SolverError>)
        ensures
            self@.len() == self.size() * self.size(),
            found == if cell_fits(self.size(), *coords) {
                Ok::<Cell, SolverError>(self@[coords.index(self.size() as int)])
            } else {
                Err::<Cell, SolverError>(SolverError::OutOfBounds)
            },
    {
        proof {
            use_type_invariant(self);
        }
        match self.storage_index(coords) {
            Some(index) => Ok(self.grid[index]),
            None => Err(SolverError::OutOfBounds),
        }
    }

    /// Writes a mark at the given position, or reports `OutOfBounds` and
    /// leaves the grid as it was if the place lies outside the grid.
    pub fn set_cell(&mut self, coords: &Coords, cell: Cell) -> (done: Result<(), SolverError>)
        ensures
            final(self).size() == old(self).size(),
            final(self)@.len() == old(self).size() * old(self).size(),
            match done {
                Ok(()) => {
                    &&& cell_fits(old(self).size(), *coords)
                    &&& final(self)@ == old(self)@.update(coords.index(old(self).size() as int), cell)
                },
                Err(e) => {
                    &&& e == SolverError::OutOfBounds
                    &&& !cell_fits(old(self).size(), *coords)
                    &&& final(self)@ == old(self)@
                },
            },
        no_unwind
    {
        proof {
            use_type_invariant(&*self);
        }
        match self.storage_index(coords) {
            Some(index) => {
                self.grid[index] = cell;
                Ok(())
            },
            None => Err(SolverError::OutOfBounds),
        }
    }

    /// The marks in row-major order.
    pub fn cells(&self) -> (grid: &Vec<Cell>)
        ensures
            grid@ == self@,
            grid@.len() == self.size() * self.size(),
    {
        proof {
            use_type_invariant(self);
        }
        &self.grid
    }

    /// The place of a position in the storage, if it lies inside. The sum is
    /// formed in 64 bits, where it cannot overflow.
    fn storage_index(&self, coords: &Coords) -> (place: Option<usize>)
        ensures
            match place {
                Some(index) => index == coords.index(self.size as int) && index < self.grid@.len(),
                None => coords.index(self.size as int) >= self.grid@.len(),
            },
        no_unwind
    {
        assert(0 <= coords.y * self.size <= 0xffff_ffff * 0xffff_ffff) by (nonlinear_arith)
            requires
                0 <= coords.y <= 0xffff_ffff,
                0 <= self.size <= 0xffff_ffff,
        ;
        let wide: u64 = coords.y as u64 * self.size as u64 + coords.x as u64;
        if wide < self.grid.len() as u64 {
            Some(wide as usize)
        } else {
            None
        }
    }
}

} // verus!
