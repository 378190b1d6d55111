//! What the search looks for, and why chronological backtracking finds it.
use crate::board::coords::lemma_index_bounds;
use crate::board::enums::cell::Cell;
use crate::board::line::{count, fully_marked, line_legal, run_at};
use crate::board::view::{Axis, BoardView};
use crate::search::lines::{
    completes, held_back, lemma_legal_when_finished, lemma_legal_when_held_back,
};
use vstd::prelude::*;

pub mod lines;
pub mod order;
pub mod progress;
pub mod steps;

verus! {

/// Whether the cell in column `x` of row `y` is legal once the puzzle carries
/// the marks `full`.
pub open spec fn legal_in(puzzle: BoardView, full: Seq<Cell>, x: int, y: int) -> bool {
    puzzle.with_cells(full).legal(x, y)
}

/// Whether `full` solves the puzzle: it marks every cell, keeps the marks
/// that the puzzle came with, and every cell that the puzzle left unmarked
/// is legal.
pub open spec fn is_solution(puzzle: BoardView, full: Seq<Cell>) -> bool {
    &&& completes(puzzle.cells, full)
    &&& forall|x: int, y: int|
        puzzle.contains(x, y) && puzzle.cell(x, y) == Cell::Empty ==> #[trigger] legal_in(
            puzzle,
            full,
            x,
            y,
        )
}

/// Whether the search comes to the marks `first` before it comes to the
/// marks `second`: where the two differ for the first time, in row-major
/// order, `first` holds the mark that is tried earlier.
pub open spec fn tried_before(first: Seq<Cell>, second: Seq<Cell>) -> bool {
    exists|place: int|
        {
            &&& 0 <= place < first.len()
            &&& place < second.len()
            &&& forall|q: int| 0 <= q < place ==> first[q] == second[q]
            &&& (#[trigger] first[place]).rank() < second[place].rank()
        }
}

/// Whether the cell in column `x` of row `y` was legal at the moment the
/// search marked it on its way to the marks `full`: the cells behind it that
/// the puzzle leaves unmarked were unmarked still.
pub open spec fn legal_on_the_way(puzzle: BoardView, full: Seq<Cell>, x: int, y: int) -> bool {
    puzzle.with_cells(held_back(puzzle.cells, full, y * puzzle.size + x)).legal(x, y)
}

/// Whether every cell that the puzzle leaves unmarked before place `upto`
/// was legal at the moment the search marked it on its way to `full`.
pub open spec fn legal_steps(puzzle: BoardView, full: Seq<Cell>, upto: int) -> bool {
    forall|x: int, y: int|
        puzzle.contains(x, y) && puzzle.cell(x, y) == Cell::Empty && y * puzzle.size + x < upto
            ==> #[trigger] legal_on_the_way(puzzle, full, x, y)
}

/// The lines of a board that the search has marked up to some cell are the
/// lines of the finished board, held back at that cell.
proof fn lemma_lines_held_back(puzzle: BoardView, full: Seq<Cell>, x: int, y: int)
    requires
        puzzle.wf(),
        full.len() == puzzle.cells.len(),
        puzzle.contains(x, y),
    ensures
        ({
            let early = puzzle.with_cells(held_back(puzzle.cells, full, y * puzzle.size + x));
            let done = puzzle.with_cells(full);
            &&& early.line(Axis::Horizontal, y) == held_back(
                puzzle.line(Axis::Horizontal, y),
                done.line(Axis::Horizontal, y),
                x,
            )
            &&& early.line(Axis::Vertical, x) == held_back(
                puzzle.line(Axis::Vertical, x),
                done.line(Axis::Vertical, x),
                y,
            )
            &&& early.gaps(Axis::Horizontal, y) == done.gaps(Axis::Horizontal, y)
            &&& early.gaps(Axis::Vertical, x) == done.gaps(Axis::Vertical, x)
        }),
{
    let size = puzzle.size as int;
    let place = y * size + x;
    let early = puzzle.with_cells(held_back(puzzle.cells, full, place));
    let done = puzzle.with_cells(full);
    assert forall|j: int| 0 <= j < size implies early.line(Axis::Horizontal, y)[j] == held_back(
        puzzle.line(Axis::Horizontal, y),
        done.line(Axis::Horizontal, y),
        x,
    )[j] by {
        lemma_index_bounds(j, y, size);
    }
    assert(early.line(Axis::Horizontal, y) =~= held_back(
        puzzle.line(Axis::Horizontal, y),
        done.line(Axis::Horizontal, y),
        x,
    ));
    assert forall|j: int| 0 <= j < size implies early.line(Axis::Vertical, x)[j] == held_back(
        puzzle.line(Axis::Vertical, x),
        done.line(Axis::Vertical, x),
        y,
    )[j] by {
        lemma_index_bounds(x, j, size);
        lemma_rows_in_order(x, j, y, size);
    }
    assert(early.line(Axis::Vertical, x) =~= held_back(
        puzzle.line(Axis::Vertical, x),
        done.line(Axis::Vertical, x),
        y,
    ));
    assert(early.gaps(Axis::Horizontal, y) =~= done.gaps(Axis::Horizontal, y));
    assert(early.gaps(Axis::Vertical, x) =~= done.gaps(Axis::Vertical, x));
}

/// In one column, a cell further down has the larger place.
proof fn lemma_rows_in_order(x: int, y1: int, y2: int, size: int)
    requires
        0 <= x < size,
        0 <= y1,
        0 <= y2,
    ensures
        y1 * size + x > y2 * size + x <==> y1 > y2,
{
    assert(y1 > y2 ==> y1 * size >= y2 * size + size) by (nonlinear_arith)
        requires
            size > 0,
    ;
    assert(y1 <= y2 ==> y1 * size <= y2 * size) by (nonlinear_arith)
        requires
            size > 0,
    ;
}

/// A line of a board that completes the puzzle completes that line of the
/// puzzle.
proof fn lemma_line_completes(puzzle: BoardView, full: Seq<Cell>, axis: Axis, fixed: int)
    requires
        puzzle.wf(),
        completes(puzzle.cells, full),
        0 <= fixed < puzzle.size,
    ensures
        completes(puzzle.line(axis, fixed), puzzle.with_cells(full).line(axis, fixed)),
{
    let size = puzzle.size as int;
    let done = puzzle.with_cells(full);
    assert forall|j: int| 0 <= j < size implies (#[trigger] done.line(axis, fixed)[j]) != Cell::Empty
        && (puzzle.line(axis, fixed)[j] != Cell::Empty ==> done.line(axis, fixed)[j] == puzzle.line(
        axis,
        fixed,
    )[j]) by {
        match axis {
            Axis::Horizontal => {
                lemma_index_bounds(j, fixed, size);
                assert(full[fixed * size + j] != Cell::Empty);
            },
            Axis::Vertical => {
                lemma_index_bounds(fixed, j, size);
                assert(full[j * size + fixed] != Cell::Empty);
            },
        }
    }
}

/// Testing each cell at the moment it is marked comes to the same as testing
/// it on the finished board: marks that complete the puzzle solve it exactly
/// if every cell that the puzzle leaves unmarked was legal on the way.
pub proof fn lemma_solution_by_steps(puzzle: BoardView, full: Seq<Cell>)
    requires
        puzzle.wf(),
        completes(puzzle.cells, full),
    ensures
        is_solution(puzzle, full) <==> legal_steps(puzzle, full, puzzle.cells.len() as int),
{
    let size = puzzle.size as int;
    let done = puzzle.with_cells(full);
    if is_solution(puzzle, full) {
        assert forall|x: int, y: int|
            puzzle.contains(x, y) && puzzle.cell(x, y) == Cell::Empty implies #[trigger] legal_on_the_way(
            puzzle,
            full,
            x,
            y,
        ) by {
            assert(legal_in(puzzle, full, x, y));
            lemma_lines_held_back(puzzle, full, x, y);
            lemma_line_completes(puzzle, full, Axis::Horizontal, y);
            lemma_line_completes(puzzle, full, Axis::Vertical, x);
            lemma_legal_when_held_back(
                puzzle.line(Axis::Horizontal, y),
                done.line(Axis::Horizontal, y),
                done.gaps(Axis::Horizontal, y),
                x,
            );
            lemma_legal_when_held_back(
                puzzle.line(Axis::Vertical, x),
                done.line(Axis::Vertical, x),
                done.gaps(Axis::Vertical, x),
                y,
            );
        }
    }
    if legal_steps(puzzle, full, puzzle.cells.len() as int) {
        assert forall|x: int, y: int|
            puzzle.contains(x, y) && puzzle.cell(x, y) == Cell::Empty implies #[trigger] legal_in(
            puzzle,
            full,
            x,
            y,
        ) by {
            lemma_line_completes(puzzle, full, Axis::Horizontal, y);
            lemma_line_completes(puzzle, full, Axis::Vertical, x);
            let row = puzzle.line(Axis::Horizontal, y);
            let column = puzzle.line(Axis::Vertical, x);
            assert forall|j: int| 0 <= j < row.len() && row[j] == Cell::Empty implies #[trigger] line_legal(
                held_back(row, done.line(Axis::Horizontal, y), j),
                done.gaps(Axis::Horizontal, y),
                j,
            ) by {
                lemma_index_bounds(j, y, size);
                assert(legal_on_the_way(puzzle, full, j, y));
                lemma_lines_held_back(puzzle, full, j, y);
            }
            assert forall|j: int|
                0 <= j < column.len() && column[j] == Cell::Empty implies #[trigger] line_legal(
                held_back(column, done.line(Axis::Vertical, x), j),
                done.gaps(Axis::Vertical, x),
                j,
            ) by {
                lemma_index_bounds(x, j, size);
                assert(legal_on_the_way(puzzle, full, x, j));
                lemma_lines_held_back(puzzle, full, x, j);
            }
            lemma_legal_when_finished(row, done.line(Axis::Horizontal, y), done.gaps(Axis::Horizontal, y), x);
            lemma_legal_when_finished(column, done.line(Axis::Vertical, x), done.gaps(Axis::Vertical, x), y);
        }
    }
}

/// In a solution, the row and the column of every cell that the puzzle left
/// unmarked are marked throughout, hold no three equal marks side by side
/// around that cell, and are half Black and half White.
pub proof fn lemma_solution_lines(puzzle: BoardView, full: Seq<Cell>, x: int, y: int, start: int)
    requires
        puzzle.wf(),
        is_solution(puzzle, full),
        puzzle.contains(x, y),
        puzzle.cell(x, y) == Cell::Empty,
    ensures
        ({
            let row = puzzle.with_cells(full).line(Axis::Horizontal, y);
            let column = puzzle.with_cells(full).line(Axis::Vertical, x);
            &&& fully_marked(row)
            &&& fully_marked(column)
            &&& x - 2 <= start <= x ==> !run_at(row, start)
            &&& y - 2 <= start <= y ==> !run_at(column, start)
            &&& puzzle.size % 2 == 0
            &&& count(row, Cell::Black) == puzzle.size / 2
            &&& count(row, Cell::White) == puzzle.size / 2
            &&& count(column, Cell::Black) == puzzle.size / 2
            &&& count(column, Cell::White) == puzzle.size / 2
        }),
{
    let done = puzzle.with_cells(full);
    assert(legal_in(puzzle, full, x, y));
    lemma_line_completes(puzzle, full, Axis::Horizontal, y);
    lemma_line_completes(puzzle, full, Axis::Vertical, x);
    done.lemma_legal_has_no_run(x, y, start);
    done.lemma_legal_full_line_is_balanced(x, y);
}

} // verus!
