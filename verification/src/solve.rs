use crate::board::coords::Coords;
use crate::board::enums::cell::Cell;
use crate::board::Board;
use crate::error::SolverError;
use crate::search::order::{cursor_at, lemma_between_cursors, lemma_places_of, places_of};
use crate::search::progress::{
    lemma_back_up_progress, lemma_move_on_progress, lemma_stay_progress, steps_left,
};
use crate::search::steps::{
    lemma_search_accepts, lemma_search_backs_up, lemma_search_exhausted, lemma_search_finished,
    lemma_search_rejects, lemma_search_starts, search_state,
};
use crate::search::{is_solution, legal_in, tried_before};
use vstd::prelude::*;

verus! {

/// Completes the board by chronological backtracking.
///
/// The cells that the board leaves unmarked are visited in row-major order.
/// Each one is marked Black, then White, and tested with
/// [`Board::check_legal_cell`] right after it is marked; a cell on which
/// both marks fail is unmarked again, and the search goes back to the cell
/// before it.
///
/// The search succeeds exactly if the puzzle has a solution, and then leaves
/// on the board the solution that comes first in its order: of two
/// solutions the one that holds Black where they differ for the first time.
/// Marks that the board came with and the constraints on its edges are
/// never changed. A search that fails with `NoSolution` leaves every cell as
/// it was but the first unmarked one, which holds White, the mark tried
/// last.
pub fn solve(board: &mut Board) -> (outcome: Result<(), SolverError>)
    ensures
        final(board)@.wf(),
        final(board)@ == old(board)@.with_cells(final(board)@.cells),
        match outcome {
            Ok(()) => {
                &&& is_solution(old(board)@, final(board)@.cells)
                &&& forall|full: Seq<Cell>| #[trigger]
                    is_solution(old(board)@, full) ==> full == final(board)@.cells || tried_before(
                        final(board)@.cells,
                        full,
                    )
            },
            Err(e) => {
                &&& e == SolverError::NoSolution
                &&& forall|full: Seq<Cell>| !is_solution(old(board)@, full)
                &&& exists|first: int|
                    {
                        &&& 0 <= first < old(board)@.cells.len()
                        &&& #[trigger] old(board)@.cells[first] == Cell::Empty
                        &&& forall|q: int| 0 <= q < first ==> old(board)@.cells[q] != Cell::Empty
                        &&& final(board)@.cells == old(board)@.cells.update(first, Cell::White)
                    }
            },
        },
{
    let ghost puzzle = board@;
    let empty_cells = board.get_empty_cells()?;
    let ghost places = places_of(puzzle);
    proof {
        lemma_places_of(puzzle);
        lemma_between_cursors(puzzle, 0);
        lemma_search_starts(puzzle, cursor_at(puzzle, 0));
    }
    if empty_cells.is_empty() {
        proof {
            lemma_search_finished(puzzle, puzzle.cells);
        }
        return Ok(());
    }
    let mut empty_cell_index: usize = 0;
    while empty_cell_index < empty_cells.len()
        invariant
            puzzle == old(board)@,
            puzzle.wf(),
            board@.wf(),
            board@ == puzzle.with_cells(board@.cells),
            empty_cells@ == puzzle.unmarked_cells(),
            places == places_of(puzzle),
            empty_cell_index <= empty_cells@.len(),
            search_state(puzzle, board@.cells, cursor_at(puzzle, empty_cell_index as int)),
        decreases steps_left(board@.cells, places, empty_cell_index as int),
    {
        let coords: Coords = empty_cells[empty_cell_index];
        let ghost depth = empty_cell_index as int;
        let ghost cursor = cursor_at(puzzle, depth);
        let ghost marks = board@.cells;
        proof {
            lemma_places_of(puzzle);
            lemma_between_cursors(puzzle, depth);
            lemma_between_cursors(puzzle, depth + 1);
            assert(coords == puzzle.unmarked_cells()[depth]);
            assert(coords.within(puzzle.size as int));
            assert(cursor == coords.index(puzzle.size as int));
        }
        let cell = board.get_cell(&coords)?;
        let next_cell_state = cell.get_next_state();
        if next_cell_state.is_empty() {
            // Black and White have both failed here.
            if empty_cell_index == 0 {
                proof {
                    lemma_search_exhausted(puzzle, marks, cursor);
                }
                return Err(SolverError::NoSolution);
            }
            board.set_cell(&coords, Cell::Empty)?;
            proof {
                lemma_search_backs_up(puzzle, marks, cursor, cursor_at(puzzle, depth - 1));
                lemma_back_up_progress(marks, places, depth);
            }
            empty_cell_index -= 1;
        } else {
            board.set_cell(&coords, next_cell_state)?;
            if board.check_legal_cell(&coords)? {
                proof {
                    assert(legal_in(puzzle, marks.update(cursor, next_cell_state), coords.x as int, coords.y as int));
                    lemma_search_accepts(
                        puzzle,
                        marks,
                        cursor,
                        coords.x as int,
                        coords.y as int,
                        next_cell_state,
                        cursor_at(puzzle, depth + 1),
                    );
                    if depth + 1 < places.len() {
                        assert(marks[places[depth + 1]] == Cell::Empty);
                    }
                    lemma_move_on_progress(marks, places, depth, next_cell_state);
                }
                empty_cell_index += 1;
            } else {
                proof {
                    assert(!legal_in(puzzle, marks.update(cursor, next_cell_state), coords.x as int, coords.y as int));
                    lemma_search_rejects(
                        puzzle,
                        marks,
                        cursor,
                        coords.x as int,
                        coords.y as int,
                        next_cell_state,
                    );
                    lemma_stay_progress(marks, places, depth, next_cell_state);
                }
            }
        }
    }
    proof {
        lemma_search_finished(puzzle, board@.cells);
    }
    Ok(())
}

} // verus!
