//! The board as a mathematical value, and what it means for a cell to be legal.
use crate::board::coords::{lemma_index_bounds, Coords};
use crate::board::enums::cell::Cell;
use crate::board::enums::wall::Wall;
use crate::board::line::{count, fully_marked, lemma_balanced_full_line, line_legal, run_at};
use crate::board::walls::edge_count;
use vstd::prelude::*;

verus! {

/// The direction of a line of the grid.
#[derive(Debug, Clone, Copy, PartialEq, Eq, Structural)]
pub enum Axis {
    /// A row: its cells share `y`, and `x` runs along it.
    Horizontal,
    /// A column: its cells share `x`, and `y` runs along it.
    Vertical,
}

/// What a board holds: the marks in row-major order and the constraints on
/// the edges above and left of the cells.
pub struct BoardView {
    pub size: nat,
    pub cells: Seq<Cell>,
    pub above: Seq<Wall>,
    pub left: Seq<Wall>,
}

/// How a cell is shown in text: a letter for its mark, or a dot, and a blank.
pub open spec fn cell_text(cell: Cell) -> Seq<char> {
    match cell {
        Cell::Empty => ". "@,
        Cell::Black => "B "@,
        Cell::White => "W "@,
    }
}

/// The cells of a line as text, one after the other.
pub open spec fn cells_text(line: Seq<Cell>) -> Seq<char>
    decreases line.len(),
{
    if line.len() == 0 {
        Seq::empty()
    } else {
        cells_text(line.drop_last()) + cell_text(line.last())
    }
}

impl BoardView {
    /// The three sequences have the lengths that the size asks for.
    pub open spec fn wf(self) -> bool {
        &&& 1 <= self.size <= u32::MAX
        &&& self.cells.len() == self.size * self.size
        &&& self.above.len() == edge_count(self.size)
        &&& self.left.len() == edge_count(self.size)
    }

    /// Whether column `x` and row `y` lie on the board.
    pub open spec fn contains(self, x: int, y: int) -> bool {
        0 <= x < self.size && 0 <= y < self.size
    }

    /// The mark in column `x` of row `y`.
    pub open spec fn cell(self, x: int, y: int) -> Cell {
        self.cells[y * self.size + x]
    }

    /// The constraint on the edge between the cell in column `x` of row `y`
    /// and its neighbour to the left.
    pub open spec fn wall_left_of(self, x: int, y: int) -> Wall {
        self.left[y * (self.size - 1) + (x - 1)]
    }

    /// The constraint on the edge between the cell in column `x` of row `y`
    /// and its neighbour above.
    pub open spec fn wall_above(self, x: int, y: int) -> Wall {
        self.above[(y - 1) * self.size + x]
    }

    /// The same board with other marks.
    pub open spec fn with_cells(self, cells: Seq<Cell>) -> BoardView {
        BoardView { size: self.size, cells: cells, above: self.above, left: self.left }
    }

    /// The marks of a line: of row `fixed` from left to right, or of column
    /// `fixed` from top to bottom.
    pub open spec fn line(self, axis: Axis, fixed: int) -> Seq<Cell> {
        match axis {
            Axis::Horizontal => Seq::new(self.size, |x: int| self.cell(x, fixed)),
            Axis::Vertical => Seq::new(self.size, |y: int| self.cell(fixed, y)),
        }
    }

    /// The constraints on the edges between the neighbouring cells of a line.
    pub open spec fn gaps(self, axis: Axis, fixed: int) -> Seq<Wall> {
        match axis {
            Axis::Horizontal => Seq::new(
                (self.size - 1) as nat,
                |x: int| self.wall_left_of(x + 1, fixed),
            ),
            Axis::Vertical => Seq::new((self.size - 1) as nat, |y: int| self.wall_above(fixed, y + 1)),
        }
    }

    /// Whether the cell in column `x` of row `y` is legal within its row.
    pub open spec fn legal_horizontal(self, x: int, y: int) -> bool {
        line_legal(self.line(Axis::Horizontal, y), self.gaps(Axis::Horizontal, y), x)
    }

    /// Whether the cell in column `x` of row `y` is legal within its column.
    pub open spec fn legal_vertical(self, x: int, y: int) -> bool {
        line_legal(self.line(Axis::Vertical, x), self.gaps(Axis::Vertical, x), y)
    }

    /// Whether the cell in column `x` of row `y` is legal: within its row and
    /// within its column the edges to its neighbours hold, no three equal
    /// marks stand side by side near it, and the line is balanced.
    pub open spec fn legal(self, x: int, y: int) -> bool {
        self.legal_horizontal(x, y) && self.legal_vertical(x, y)
    }

    /// The coordinates of the unmarked cells among the first `upto` places of
    /// the grid, in row-major order.
    pub open spec fn unmarked_before(self, upto: int) -> Seq<Coords>
        decreases upto,
    {
        if upto <= 0 {
            Seq::empty()
        } else if self.cells[upto - 1] == Cell::Empty {
            self.unmarked_before(upto - 1).push(Coords::at_index(upto - 1, self.size as int))
        } else {
            self.unmarked_before(upto - 1)
        }
    }

    /// The coordinates of all unmarked cells of the board, row by row from
    /// the top and within each row from the left.
    pub open spec fn unmarked_cells(self) -> Seq<Coords> {
        self.unmarked_before(self.cells.len() as int)
    }

    /// The board as text: its rows from the top, each on a line of its own.
    pub open spec fn text(self) -> Seq<char> {
        self.rows_text(self.size as int)
    }

    /// The text of the first `rows` rows.
    pub open spec fn rows_text(self, rows: int) -> Seq<char>
        decreases rows,
    {
        if rows <= 0 {
            Seq::empty()
        } else {
            self.rows_text(rows - 1) + cells_text(self.line(Axis::Horizontal, rows - 1)) + "\n"@
        }
    }

    /// The listing of the unmarked cells holds exactly the unmarked cells of
    /// the board, each once, in the order of their places.
    pub proof fn lemma_unmarked_before(self, upto: int)
        requires
            self.wf(),
            0 <= upto <= self.cells.len(),
        ensures
            forall|k: int|
                0 <= k < self.unmarked_before(upto).len() ==> {
                    let found = #[trigger] self.unmarked_before(upto)[k];
                    &&& found.within(self.size as int)
                    &&& 0 <= found.index(self.size as int) < upto
                    &&& self.cells[found.index(self.size as int)] == Cell::Empty
                },
            forall|j: int, k: int|
                0 <= j < k < self.unmarked_before(upto).len() ==> (#[trigger] self.unmarked_before(
                    upto,
                )[j]).index(self.size as int) < (#[trigger] self.unmarked_before(upto)[k]).index(
                    self.size as int,
                ),
            forall|place: int|
                0 <= place < upto && #[trigger] self.cells[place] == Cell::Empty ==> exists|k: int|
                    0 <= k < self.unmarked_before(upto).len() && (#[trigger] self.unmarked_before(
                        upto,
                    )[k]).index(self.size as int) == place,
        decreases upto,
    {
        if upto > 0 {
            self.lemma_unmarked_before(upto - 1);
            let earlier = self.unmarked_before(upto - 1);
            let listing = self.unmarked_before(upto);
            Coords::lemma_at_index_round_trip(upto - 1, self.size as int);
            assert forall|place: int|
                0 <= place < upto && #[trigger] self.cells[place] == Cell::Empty implies exists|k: int|
                0 <= k < listing.len() && (#[trigger] listing[k]).index(self.size as int) == place by {
                if place < upto - 1 {
                    let k = choose|k: int|
                        0 <= k < earlier.len() && (#[trigger] earlier[k]).index(self.size as int) == place;
                    assert(listing[k] == earlier[k]);
                } else {
                    assert(listing[listing.len() - 1].index(self.size as int) == place);
                }
            }
        }
    }

    /// The places of the cells and edges of a board lie inside its storage.
    pub proof fn lemma_places(self, x: int, y: int)
        requires
            self.wf(),
            self.contains(x, y),
        ensures
            0 <= y * self.size + x < self.cells.len(),
            x > 0 ==> 0 <= y * (self.size - 1) + (x - 1) < self.left.len(),
            y > 0 ==> 0 <= (y - 1) * self.size + x < self.above.len(),
    {
        let size = self.size as int;
        lemma_index_bounds(x, y, size);
        if x > 0 {
            assert(0 <= y * (size - 1) && y * (size - 1) + (size - 1) <= size * (size - 1))
                by (nonlinear_arith)
                requires
                    0 <= y < size,
                    1 <= size,
            ;
        }
        if y > 0 {
            assert(0 <= (y - 1) * size && (y - 1) * size + size <= size * (size - 1))
                by (nonlinear_arith)
                requires
                    1 <= y < size,
            ;
        }
    }

    /// A legal cell meets the constraint on each edge towards a neighbour,
    /// as far as the edge is tested: towards the left and upper neighbour
    /// always, towards the right and lower neighbour once that one is marked.
    pub proof fn lemma_legal_respects_edges(self, x: int, y: int)
        requires
            self.wf(),
            self.contains(x, y),
            self.legal(x, y),
        ensures
            x > 0 ==> self.wall_left_of(x, y).holds(self.cell(x, y), self.cell(x - 1, y)),
            y > 0 ==> self.wall_above(x, y).holds(self.cell(x, y), self.cell(x, y - 1)),
            x + 1 < self.size && self.cell(x + 1, y) != Cell::Empty ==> self.wall_left_of(x + 1, y).holds(
                self.cell(x, y),
                self.cell(x + 1, y),
            ),
            y + 1 < self.size && self.cell(x, y + 1) != Cell::Empty ==> self.wall_above(x, y + 1).holds(
                self.cell(x, y),
                self.cell(x, y + 1),
            ),
    {
    }

    /// Around a legal cell no three equal marks stand side by side, neither
    /// in its row nor in its column.
    pub proof fn lemma_legal_has_no_run(self, x: int, y: int, start: int)
        requires
            self.wf(),
            self.contains(x, y),
            self.legal(x, y),
        ensures
            x - 2 <= start <= x ==> !run_at(self.line(Axis::Horizontal, y), start),
            y - 2 <= start <= y ==> !run_at(self.line(Axis::Vertical, x), start),
    {
    }

    /// On a board all of whose cells are legal, no row and no column holds
    /// three equal marks side by side.
    pub proof fn lemma_legal_board_has_no_run(self, axis: Axis, fixed: int, start: int)
        requires
            self.wf(),
            forall|x: int, y: int| self.contains(x, y) ==> #[trigger] self.legal(x, y),
            0 <= fixed < self.size,
        ensures
            !run_at(self.line(axis, fixed), start),
    {
        if 0 <= start && start + 2 < self.size {
            match axis {
                Axis::Horizontal => {
                    assert(self.legal(start, fixed));
                },
                Axis::Vertical => {
                    assert(self.legal(fixed, start));
                },
            }
        }
    }

    /// The row and the column of a legal cell hold no more Black and no more
    /// White cells than half the size of the board, whether or not they are
    /// marked throughout.
    pub proof fn lemma_legal_line_is_not_overfull(self, x: int, y: int, mark: Cell)
        requires
            self.wf(),
            self.contains(x, y),
            self.legal(x, y),
            mark != Cell::Empty,
        ensures
            count(self.line(Axis::Horizontal, y), mark) <= self.size / 2,
            count(self.line(Axis::Vertical, x), mark) <= self.size / 2,
    {
    }

    /// A row or column that is marked throughout and holds a legal cell has
    /// an even length, half of it Black and half of it White.
    pub proof fn lemma_legal_full_line_is_balanced(self, x: int, y: int)
        requires
            self.wf(),
            self.contains(x, y),
            self.legal(x, y),
        ensures
            fully_marked(self.line(Axis::Horizontal, y)) ==> {
                &&& self.size % 2 == 0
                &&& count(self.line(Axis::Horizontal, y), Cell::Black) == self.size / 2
                &&& count(self.line(Axis::Horizontal, y), Cell::White) == self.size / 2
            },
            fully_marked(self.line(Axis::Vertical, x)) ==> {
                &&& self.size % 2 == 0
                &&& count(self.line(Axis::Vertical, x), Cell::Black) == self.size / 2
                &&& count(self.line(Axis::Vertical, x), Cell::White) == self.size / 2
            },
    {
        if fully_marked(self.line(Axis::Horizontal, y)) {
            lemma_balanced_full_line(self.line(Axis::Horizontal, y));
        }
        if fully_marked(self.line(Axis::Vertical, x)) {
            lemma_balanced_full_line(self.line(Axis::Vertical, x));
        }
    }
}

} // verus!
