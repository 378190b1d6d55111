use crate::board::cells::{cell_fits, marked_grid, Cells};
use crate::board::coords::Coords;
use crate::board::enums::cell::{Cell, CellCoords, FromCellCoords};
use crate::board::enums::wall::{Wall, WallCoords};
use crate::board::line::{
    balanced, count, lemma_count_grows, lemma_count_step, line_legal, marked_upto, run_at,
    run_free_near,
};
use crate::board::view::{cells_text, Axis, BoardView};
use crate::board::walls::{edge_count, edge_error, walled_above, walled_left, Walls};
use crate::error::SolverError;
use vstd::prelude::*;
use vstd::string::StringExecFns;

pub mod cells;
pub mod coords;
pub mod enums;
pub mod line;
pub mod view;
pub mod walls;

verus! {

/// A puzzle: the marks of a square grid together with the constraints on its
/// edges.
pub struct Board {
    size: u32,
    cells: Cells,
    walls: Walls,
}

impl View for Board {
    type V = BoardView;

    closed spec fn view(&self) -> BoardView {
        BoardView {
            size: self.size as nat,
            cells: self.cells@,
            above: self.walls.above(),
            left: self.walls.left(),
        }
    }
}

impl Board {
    #[verifier::type_invariant]
    closed spec fn well_formed(&self) -> bool {
        &&& self.cells.size() == self.size
        &&& self.walls.size() == self.size
    }

    /// A board of `size` rows and columns without marks and without constraints.
    pub fn new(size: u32) -> (board: Self)
        requires
            size >= 1,
            size * size <= usize::MAX,
        ensures
            board@.wf(),
            board@.size == size,
            board@.cells == Seq::new((size * size) as nat, |i: int| Cell::Empty),
            board@.above == Seq::new(edge_count(size as nat) as nat, |i: int| Wall::Normal),
            board@.left == Seq::new(edge_count(size as nat) as nat, |i: int| Wall::Normal),
    {
        proof {
            lemma_edges_fit(size);
        }
        Board { size, cells: Cells::new(size), walls: Walls::new(size) }
    }

    /// A board of `size` rows and columns with the given marks and
    /// constraints. Fails with the fault of the first mark that does not fit,
    /// or else of the first constraint whose edge cannot be looked up.
    pub fn from_cells_and_walls(size: u32, cells: Vec<CellCoords>, walls: Vec<WallCoords>) -> (built:
        Result<Self, SolverError>)
        requires
            size >= 1,
            size * size <= usize::MAX,
        ensures
            match built {
                Ok(board) => {
                    &&& forall|k: int| 0 <= k < cells@.len() ==> cell_fits(size as nat, #[trigger] cells@[k].coords)
                    &&& forall|k: int|
                        0 <= k < walls@.len() ==> edge_error(size as nat, #[trigger] walls@[k].coords) is None
                    &&& board@.wf()
                    &&& board@.size == size
                    &&& board@.cells == marked_grid(size as nat, cells@)
                    &&& board@.above == walled_above(size as nat, walls@)
                    &&& board@.left == walled_left(size as nat, walls@)
                },
                Err(e) => if exists|k: int| 0 <= k < cells@.len() && !cell_fits(size as nat, #[trigger] cells@[k].coords) {
                    e == SolverError::OutOfBounds
                } else {
                    exists|k: int|
                        {
                            &&& 0 <= k < walls@.len()
                            &&& edge_error(size as nat, #[trigger] walls@[k].coords) == Some(e)
                            &&& forall|j: int|
                                0 <= j < k ==> edge_error(size as nat, #[trigger] walls@[j].coords) is None
                        }
                },
            },
    {
        proof {
            lemma_edges_fit(size);
        }
        let cells = match Cells::from_cells(size, cells) {
            Ok(cells) => cells,
            Err(e) => {
                return Err(e);
            },
        };
        let walls = match Walls::from_walls(size, walls) {
            Ok(walls) => walls,
            Err(e) => {
                return Err(e);
            },
        };
        proof {
            use_type_invariant(&cells);
            use_type_invariant(&walls);
        }
        Ok(Board { size, cells, walls })
    }

    /// The mark at the given position, or `OutOfBounds` if its place lies
    /// outside the grid.
    pub fn get_cell(&self, coords: &Coords) -> (found: Result<Cell, SolverError>)
        ensures
            self@.wf(),
            found == if cell_fits(self@.size, *coords) {
                Ok::<Cell, SolverError>(self@.cells[coords.index(self@.size as int)])
            } else {
                Err::<Cell, SolverError>(SolverError::OutOfBounds)
            },
    {
        proof {
            use_type_invariant(self);
            use_type_invariant(&self.cells);
            use_type_invariant(&self.walls);
        }
        self.cells.get_cell(coords)
    }

    /// Writes a mark at the given position, or reports `OutOfBounds` and
    /// leaves the board as it was if the place lies outside the grid.
    pub fn set_cell(&mut self, coords: &Coords, cell: Cell) -> (done: Result<(), SolverError>)
        ensures
            final(self)@.wf(),
            match done {
                Ok(()) => {
                    &&& cell_fits(old(self)@.size, *coords)
                    &&& final(self)@ == old(self)@.with_cells(
                        old(self)@.cells.update(coords.index(old(self)@.size as int), cell),
                    )
                },
                Err(e) => {
                    &&& e == SolverError::OutOfBounds
                    &&& !cell_fits(old(self)@.size, *coords)
                    &&& final(self)@ == old(self)@
                },
            },
    {
        proof {
            use_type_invariant(&*self);
            use_type_invariant(&self.cells);
            use_type_invariant(&self.walls);
        }
        self.cells.set_cell(coords, cell)
    }

    /// The marks in row-major order.
    pub fn cells(&self) -> (grid: &Vec<Cell>)
        ensures
            self@.wf(),
            grid@ == self@.cells,
    {
        proof {
            use_type_invariant(self);
            use_type_invariant(&self.cells);
            use_type_invariant(&self.walls);
        }
        self.cells.cells()
    }

    /// The board as text, for a look at it while debugging: one line for
    /// each row, and in it for each cell a dot, `B` or `W`, followed by a blank.
    pub fn to_text(&self) -> (text: String)
        ensures
            self@.wf(),
            text@ == self@.text(),
    {
        proof {
            use_type_invariant(self);
            use_type_invariant(&self.cells);
            use_type_invariant(&self.walls);
        }
        let grid = self.cells.cells();
        let mut text = String::new();
        let mut place: usize = 0;
        let mut y: u32 = 0;
        while y < self.size
            invariant
                self@.wf(),
                self@.size == self.size,
                grid@ == self@.cells,
                y <= self.size,
                place == y * self.size,
                text@ == self@.rows_text(y as int),
            decreases self.size - y,
        {
            let ghost row = self@.line(Axis::Horizontal, y as int);
            let mut x: u32 = 0;
            assert(row.take(0) =~= Seq::<Cell>::empty());
            while x < self.size
                invariant
                    self@.wf(),
                    self@.size == self.size,
                    grid@ == self@.cells,
                    y < self.size,
                    x <= self.size,
                    place == y * self.size + x,
                    row == self@.line(Axis::Horizontal, y as int),
                    text@ == self@.rows_text(y as int) + cells_text(row.take(x as int)),
                decreases self.size - x,
            {
                proof {
                    self@.lemma_places(x as int, y as int);
                    assert(row.take(x + 1).drop_last() =~= row.take(x as int));
                }
                assert(place < grid.len());
                match grid[place] {
                    Cell::Empty => text.append(". "),
                    Cell::Black => text.append("B "),
                    Cell::White => text.append("W "),
                }
                place += 1;
                x += 1;
            }
            assert(row.take(x as int) =~= row);
            text.append("\n");
            proof {
                assert((y + 1) * self.size == y * self.size + self.size) by (nonlinear_arith);
            }
            y += 1;
        }
        text
    }

    /// The coordinates of the unmarked cells, row by row from the top and
    /// within each row from the left.
    pub fn get_empty_cells(&self) -> (found: Result<Vec<Coords>, SolverError>)
        ensures
            self@.wf(),
            found matches Ok(empty_cells) && empty_cells@ == self@.unmarked_cells(),
    {
        proof {
            use_type_invariant(self);
            use_type_invariant(&self.cells);
            use_type_invariant(&self.walls);
        }
        let mut empty_cells: Vec<Coords> = Vec::new();
        let mut y: u32 = 0;
        while y < self.size
            invariant
                self@.wf(),
                self@.size == self.size,
                y <= self.size,
                empty_cells@ == self@.unmarked_before(y * self.size),
            decreases self.size - y,
        {
            let mut x: u32 = 0;
            while x < self.size
                invariant
                    self@.wf(),
                    self@.size == self.size,
                    y < self.size,
                    x <= self.size,
                    empty_cells@ == self@.unmarked_before(y * self.size + x),
                decreases self.size - x,
            {
                let coords = Coords::new(x, y);
                proof {
                    self@.lemma_places(x as int, y as int);
                    coords.lemma_index_round_trip(self.size as int);
                }
                if self.cell_on(Axis::Horizontal, y, x)? == Cell::Empty {
                    empty_cells.push(coords);
                }
                x += 1;
            }
            proof {
                assert((y + 1) * self.size == y * self.size + self.size) by (nonlinear_arith);
            }
            y += 1;
        }
        Ok(empty_cells)
    }

    /// Whether the board is still consistent after the cell at `coords` has
    /// been marked, as far as the row and the column of that cell show it.
    /// Fails with `OutOfBounds` for a position that does not lie on the board.
    pub fn check_legal_cell(&self, coords: &Coords) -> (verdict: Result<bool, SolverError>)
        ensures
            self@.wf(),
            verdict == if coords.within(self@.size as int) {
                Ok::<bool, SolverError>(self@.legal(coords.x as int, coords.y as int))
            } else {
                Err::<bool, SolverError>(SolverError::OutOfBounds)
            },
    {
        Ok(self.check_legal_horizontal(coords)? && self.check_legal_vertical(coords)?)
    }

    /// Whether the cell at `coords` is legal within its row: the edges to its
    /// left and right neighbour, the run of equal marks around it, and the
    /// balance of the row. Fails with `OutOfBounds` for a position that does
    /// not lie on the board.
    pub fn check_legal_horizontal(&self, coords: &Coords) -> (verdict: Result<bool, SolverError>)
        ensures
            self@.wf(),
            verdict == if coords.within(self@.size as int) {
                Ok::<bool, SolverError>(self@.legal_horizontal(coords.x as int, coords.y as int))
            } else {
                Err::<bool, SolverError>(SolverError::OutOfBounds)
            },
    {
        proof {
            use_type_invariant(self);
            use_type_invariant(&self.cells);
            use_type_invariant(&self.walls);
        }
        if coords.x >= self.size || coords.y >= self.size {
            return Err(SolverError::OutOfBounds);
        }
        self.check_legal_along(Axis::Horizontal, coords.y, coords.x)
    }

    /// Whether the cell at `coords` is legal within its column: the edges to
    /// its upper and lower neighbour, the run of equal marks around it, and
    /// the balance of the column. Fails with `OutOfBounds` for a position
    /// that does not lie on the board.
    pub fn check_legal_vertical(&self, coords: &Coords) -> (verdict: Result<bool, SolverError>)
        ensures
            self@.wf(),
            verdict == if coords.within(self@.size as int) {
                Ok::<bool, SolverError>(self@.legal_vertical(coords.x as int, coords.y as int))
            } else {
                Err::<bool, SolverError>(SolverError::OutOfBounds)
            },
    {
        proof {
            use_type_invariant(self);
            use_type_invariant(&self.cells);
            use_type_invariant(&self.walls);
        }
        if coords.x >= self.size || coords.y >= self.size {
            return Err(SolverError::OutOfBounds);
        }
        self.check_legal_along(Axis::Vertical, coords.x, coords.y)
    }

    /// Whether the cell at place `pos` of a line is legal within that line.
    /// Runs the four tests in turn and stops at the first that fails.
    fn check_legal_along(&self, axis: Axis, fixed: u32, pos: u32) -> (verdict: Result<bool, SolverError>)
        requires
            fixed < self@.size,
            pos < self@.size,
        ensures
            self@.wf(),
            verdict == Ok::<bool, SolverError>(
                line_legal(self@.line(axis, fixed as int), self@.gaps(axis, fixed as int), pos as int),
            ),
    {
        proof {
            use_type_invariant(self);
            use_type_invariant(&self.cells);
            use_type_invariant(&self.walls);
        }
        // The edge towards the cell before: tested whatever that cell holds.
        if pos > 0 {
            let wall = self.wall_before(axis, fixed, pos)?;
            let before = self.cell_on(axis, fixed, pos - 1)?;
            let cell = self.cell_on(axis, fixed, pos)?;
            if !wall.check_cells(&cell, &before) {
                return Ok(false);
            }
        }
        // The edge towards the cell after: tested only once that cell is marked.
        if pos < self.size - 1 {
            let after = self.cell_on(axis, fixed, pos + 1)?;
            if !after.is_empty() {
                let wall = self.wall_before(axis, fixed, pos + 1)?;
                let cell = self.cell_on(axis, fixed, pos)?;
                if !wall.check_cells(&cell, &after) {
                    return Ok(false);
                }
            }
        }
        if !self.run_free_along(axis, fixed, pos)? {
            return Ok(false);
        }
        self.balanced_along(axis, fixed)
    }

    /// The mark at place `pos` of a line of the board.
    fn cell_on(&self, axis: Axis, fixed: u32, pos: u32) -> (found: Result<Cell, SolverError>)
        requires
            fixed < self@.size,
            pos < self@.size,
        ensures
            self@.wf(),
            found == Ok::<Cell, SolverError>(self@.line(axis, fixed as int)[pos as int]),
    {
        proof {
            use_type_invariant(self);
            use_type_invariant(&self.cells);
            use_type_invariant(&self.walls);
        }
        let coords = match axis {
            Axis::Horizontal => Coords::new(pos, fixed),
            Axis::Vertical => Coords::new(fixed, pos),
        };
        proof {
            self@.lemma_places(coords.x as int, coords.y as int);
        }
        self.cells.get_cell(&coords)
    }

    /// The constraint on the edge between the places `pos - 1` and `pos` of a
    /// line of the board.
    fn wall_before(&self, axis: Axis, fixed: u32, pos: u32) -> (found: Result<Wall, SolverError>)
        requires
            fixed < self@.size,
            1 <= pos < self@.size,
        ensures
            self@.wf(),
            found == Ok::<Wall, SolverError>(self@.gaps(axis, fixed as int)[pos - 1]),
    {
        proof {
            use_type_invariant(self);
            use_type_invariant(&self.cells);
            use_type_invariant(&self.walls);
        }
        let edge = match axis {
            Axis::Horizontal => FromCellCoords::Left(Coords::new(pos, fixed)),
            Axis::Vertical => FromCellCoords::Up(Coords::new(fixed, pos)),
        };
        proof {
            match axis {
                Axis::Horizontal => self@.lemma_places(pos as int, fixed as int),
                Axis::Vertical => self@.lemma_places(fixed as int, pos as int),
            }
        }
        self.walls.get_wall(&edge)
    }

    /// Whether no three equal marks stand side by side among the cells of a
    /// line that lie at most two places away from `pos`.
    ///
    /// Walks over those cells once and keeps the length of the run of equal
    /// cells that ends at the cell last seen.
    fn run_free_along(&self, axis: Axis, fixed: u32, pos: u32) -> (verdict: Result<bool, SolverError>)
        requires
            fixed < self@.size,
            pos < self@.size,
        ensures
            self@.wf(),
            verdict == Ok::<bool, SolverError>(run_free_near(self@.line(axis, fixed as int), pos as int)),
    {
        proof {
            use_type_invariant(self);
            use_type_invariant(&self.cells);
            use_type_invariant(&self.walls);
        }
        let ghost line = self@.line(axis, fixed as int);
        let first: u32 = if pos >= 2 {
            pos - 2
        } else {
            0
        };
        let last: u32 = if self.size - 1 - pos > 2 {
            pos + 2
        } else {
            self.size - 1
        };
        let mut prev_cell = Cell::Empty;
        let mut cont: u32 = 0;
        let mut at: u32 = first;
        while at <= last
            invariant
                self@.wf(),
                self@.size == self.size,
                fixed < self.size,
                line == self@.line(axis, fixed as int),
                first <= at <= last + 1,
                last < self.size,
                first == 0 || first == pos - 2,
                last == self.size - 1 || last == pos + 2,
                pos - 2 <= first <= pos <= last <= pos + 2,
                forall|start: int| first <= start && start + 2 < at ==> !run_at(line, start),
                at == first ==> cont == 0 && prev_cell == Cell::Empty,
                at > first ==> {
                    &&& prev_cell == line[at - 1]
                    &&& 1 <= cont <= at - first
                    &&& forall|k: int| at - cont <= k < at ==> line[k] == prev_cell
                    &&& cont < at - first ==> line[at - cont - 1] != prev_cell
                },
            decreases last + 1 - at,
        {
            let current_cell = self.cell_on(axis, fixed, at)?;
            if current_cell == prev_cell {
                cont += 1;
                if cont > 2 && !current_cell.is_empty() {
                    assert(run_at(line, at - 2));
                    return Ok(false);
                }
            } else {
                cont = 1;
                prev_cell = current_cell;
            }
            at += 1;
        }
        Ok(true)
    }

    /// Whether a line of the board is balanced.
    ///
    /// Counts the Black and the White cells of the whole line and notes
    /// whether it met an unmarked cell. Stops as soon as one of the counts
    /// passes half the length of the line.
    fn balanced_along(&self, axis: Axis, fixed: u32) -> (verdict: Result<bool, SolverError>)
        requires
            fixed < self@.size,
        ensures
            self@.wf(),
            verdict == Ok::<bool, SolverError>(balanced(self@.line(axis, fixed as int))),
    {
        proof {
            use_type_invariant(self);
            use_type_invariant(&self.cells);
            use_type_invariant(&self.walls);
        }
        let ghost line = self@.line(axis, fixed as int);
        let mut white_count: u32 = 0;
        let mut black_count: u32 = 0;
        let mut is_full = true;
        let mut at: u32 = 0;
        assert(line.take(0) =~= Seq::<Cell>::empty());
        while at < self.size
            invariant
                self@.wf(),
                self@.size == self.size,
                fixed < self.size,
                line == self@.line(axis, fixed as int),
                at <= self.size,
                is_full == marked_upto(line, at as int),
                black_count == count(line.take(at as int), Cell::Black),
                white_count == count(line.take(at as int), Cell::White),
                black_count <= self.size / 2,
                white_count <= self.size / 2,
            decreases self.size - at,
        {
            let current_cell = self.cell_on(axis, fixed, at)?;
            proof {
                lemma_count_step(line, Cell::Black, at as int);
                lemma_count_step(line, Cell::White, at as int);
                lemma_count_grows(line, Cell::Black, at + 1, line.len() as int);
                lemma_count_grows(line, Cell::White, at + 1, line.len() as int);
                assert(line.take(line.len() as int) =~= line);
            }
            match current_cell {
                Cell::Empty => {
                    is_full = false;
                },
                Cell::Black => {
                    black_count += 1;
                    if black_count > self.size / 2 {
                        return Ok(false);
                    }
                },
                Cell::White => {
                    white_count += 1;
                    if white_count > self.size / 2 {
                        return Ok(false);
                    }
                },
            };
            at += 1;
        }
        assert(line.take(at as int) =~= line);
        if is_full && white_count != black_count {
            return Ok(false);
        }
        Ok(true)
    }
}

/// A grid whose cells can be stored has room for its edges too.
proof fn lemma_edges_fit(size: u32)
    requires
        size >= 1,
        size * size <= usize::MAX,
    ensures
        edge_count(size as nat) <= usize::MAX,
{
    assert(size * (size - 1) <= size * size) by (nonlinear_arith)
        requires
            size >= 1,
    ;
}

} // verus!
