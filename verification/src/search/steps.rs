//! The states of the search and the steps between them.
//!
//! The search stands at one cell that the puzzle leaves unmarked, the
//! cursor. Every such cell before the cursor is marked and was legal when it
//! was marked, every such cell behind the cursor is unmarked, and no marking
//! that the search has passed by solves the puzzle.
use crate::board::coords::lemma_index_bounds;
use crate::board::enums::cell::Cell;
use crate::board::view::BoardView;
use crate::search::lines::{completes, held_back};
use crate::search::{
    is_solution, legal_in, legal_on_the_way, legal_steps, lemma_solution_by_steps, tried_before,
};
use vstd::prelude::*;

verus! {

/// Whether `marks` is what a search on the marks `start` has written when it
/// stands at place `cursor`: the marks of `start` are kept, every cell
/// before the cursor is marked, and every cell behind the cursor that
/// `start` leaves unmarked is unmarked.
pub open spec fn on_course(start: Seq<Cell>, marks: Seq<Cell>, cursor: int) -> bool {
    &&& marks.len() == start.len()
    &&& forall|q: int|
        0 <= q < start.len() ==> {
            &&& #[trigger] start[q] != Cell::Empty ==> marks[q] == start[q]
            &&& q < cursor ==> marks[q] != Cell::Empty
            &&& q > cursor && start[q] == Cell::Empty ==> marks[q] == Cell::Empty
        }
}

/// Whether the search, standing at `cursor` with `marks` written, has yet to
/// come to the marking `full`: either it has just arrived there, or at the
/// first place where the two differ `full` holds the mark that is tried
/// later, and that place is not behind the cursor.
pub open spec fn still_ahead(marks: Seq<Cell>, full: Seq<Cell>, cursor: int) -> bool {
    ||| cursor >= marks.len() && full == marks
    ||| exists|place: int|
        {
            &&& 0 <= place <= cursor
            &&& place < marks.len()
            &&& forall|q: int| 0 <= q < place ==> full[q] == marks[q]
            &&& (#[trigger] marks[place]).rank() < full[place].rank()
        }
}

/// Whether every marking that completes the puzzle and is legal at each of
/// its steps is one that the search has yet to come to.
pub open spec fn nothing_missed(puzzle: BoardView, marks: Seq<Cell>, cursor: int) -> bool {
    forall|full: Seq<Cell>|
        completes(puzzle.cells, full) && #[trigger] legal_steps(
            puzzle,
            full,
            puzzle.cells.len() as int,
        ) ==> still_ahead(marks, full, cursor)
}

/// What holds whenever the search stands at `cursor` with `marks` written.
pub open spec fn search_state(puzzle: BoardView, marks: Seq<Cell>, cursor: int) -> bool {
    &&& 0 <= cursor <= puzzle.cells.len()
    &&& on_course(puzzle.cells, marks, cursor)
    &&& legal_steps(puzzle, marks, cursor)
    &&& nothing_missed(puzzle, marks, cursor)
}

/// Two markings that agree up to a cell, and on the cells that the puzzle
/// came with, are the same at the moment that cell is marked.
proof fn lemma_same_on_the_way(puzzle: BoardView, first: Seq<Cell>, second: Seq<Cell>, place: int)
    requires
        first.len() == puzzle.cells.len(),
        second.len() == puzzle.cells.len(),
        forall|q: int| 0 <= q <= place && q < first.len() ==> first[q] == second[q],
        forall|q: int|
            place < q < first.len() && puzzle.cells[q] != Cell::Empty ==> first[q] == second[q],
    ensures
        held_back(puzzle.cells, first, place) == held_back(puzzle.cells, second, place),
{
    assert(held_back(puzzle.cells, first, place) =~= held_back(puzzle.cells, second, place));
}

/// At the cursor nothing is held back: the cells behind it are unmarked.
proof fn lemma_nothing_held_back(start: Seq<Cell>, marks: Seq<Cell>, cursor: int)
    requires
        on_course(start, marks, cursor),
    ensures
        held_back(start, marks, cursor) == marks,
{
    assert(held_back(start, marks, cursor) =~= marks);
}

/// A cell of the board has one place, and no other cell has it.
proof fn lemma_one_cell_per_place(size: int, x1: int, y1: int, x2: int, y2: int)
    requires
        0 <= x1 < size,
        0 <= y1 < size,
        0 <= x2 < size,
        0 <= y2 < size,
        y1 * size + x1 == y2 * size + x2,
    ensures
        x1 == x2,
        y1 == y2,
{
    assert(y1 < y2 ==> y1 * size + size <= y2 * size) by (nonlinear_arith)
        requires
            size > 0,
    ;
    assert(y2 < y1 ==> y2 * size + size <= y1 * size) by (nonlinear_arith)
        requires
            size > 0,
    ;
}

/// The steps made before a cell stay legal when that cell or a later one
/// that the puzzle leaves unmarked is marked anew.
proof fn lemma_steps_kept(puzzle: BoardView, marks: Seq<Cell>, cursor: int, mark: Cell, upto: int)
    requires
        puzzle.wf(),
        marks.len() == puzzle.cells.len(),
        0 <= upto <= cursor < marks.len(),
        puzzle.cells[cursor] == Cell::Empty,
        legal_steps(puzzle, marks, upto),
    ensures
        legal_steps(puzzle, marks.update(cursor, mark), upto),
{
    let size = puzzle.size as int;
    let after = marks.update(cursor, mark);
    assert forall|x: int, y: int|
        puzzle.contains(x, y) && puzzle.cell(x, y) == Cell::Empty && y * puzzle.size + x
            < upto implies #[trigger] legal_on_the_way(puzzle, after, x, y) by {
        lemma_index_bounds(x, y, size);
        assert(legal_on_the_way(puzzle, marks, x, y));
        assert(held_back(puzzle.cells, after, y * size + x) =~= held_back(puzzle.cells, marks, y * size + x));
    }
}

/// Before its first step the search stands at the first cell that the
/// puzzle leaves unmarked, or behind the last cell if there is none.
pub proof fn lemma_search_starts(puzzle: BoardView, cursor: int)
    requires
        puzzle.wf(),
        0 <= cursor <= puzzle.cells.len(),
        forall|q: int| 0 <= q < cursor ==> puzzle.cells[q] != Cell::Empty,
        cursor < puzzle.cells.len() ==> puzzle.cells[cursor] == Cell::Empty,
    ensures
        search_state(puzzle, puzzle.cells, cursor),
{
    let size = puzzle.size as int;
    let start = puzzle.cells;
    assert forall|x: int, y: int|
        puzzle.contains(x, y) && puzzle.cell(x, y) == Cell::Empty && y * puzzle.size + x
            < cursor implies #[trigger] legal_on_the_way(puzzle, start, x, y) by {
        lemma_index_bounds(x, y, size);
    }
    assert forall|full: Seq<Cell>|
        completes(start, full) && #[trigger] legal_steps(puzzle, full, start.len() as int) implies still_ahead(
        start,
        full,
        cursor,
    ) by {
        if cursor == start.len() {
            assert forall|q: int| 0 <= q < start.len() implies full[q] == start[q] by {
                assert(full[q] != Cell::Empty);
            }
            assert(full =~= start);
        } else {
            assert forall|q: int| 0 <= q < cursor implies full[q] == start[q] by {
                assert(full[q] != Cell::Empty);
            }
            assert(full[cursor] != Cell::Empty);
            assert(start[cursor].rank() < full[cursor].rank());
        }
    }
}

/// The mark just written at the cursor is not legal: the search stays at the
/// cursor and has passed by every marking that begins like this one.
pub proof fn lemma_search_rejects(puzzle: BoardView, marks: Seq<Cell>, cursor: int, x: int, y: int, mark: Cell)
    requires
        puzzle.wf(),
        search_state(puzzle, marks, cursor),
        puzzle.contains(x, y),
        cursor == y * puzzle.size + x,
        puzzle.cells[cursor] == Cell::Empty,
        mark != Cell::Empty,
        mark.rank() == marks[cursor].rank() + 1,
        !legal_in(puzzle, marks.update(cursor, mark), x, y),
    ensures
        search_state(puzzle, marks.update(cursor, mark), cursor),
{
    let size = puzzle.size as int;
    let start = puzzle.cells;
    let after = marks.update(cursor, mark);
    lemma_index_bounds(x, y, size);
    lemma_steps_kept(puzzle, marks, cursor, mark, cursor);
    assert(on_course(start, after, cursor));
    lemma_nothing_held_back(start, after, cursor);
    assert forall|full: Seq<Cell>|
        completes(start, full) && #[trigger] legal_steps(puzzle, full, start.len() as int) implies still_ahead(
        after,
        full,
        cursor,
    ) by {
        assert(still_ahead(marks, full, cursor));
        let place = choose|place: int|
            {
                &&& 0 <= place <= cursor
                &&& place < marks.len()
                &&& forall|q: int| 0 <= q < place ==> full[q] == marks[q]
                &&& (#[trigger] marks[place]).rank() < full[place].rank()
            };
        if place < cursor {
            assert(after[place].rank() < full[place].rank());
        } else {
            if full[cursor] == mark {
                assert(legal_on_the_way(puzzle, full, x, y));
                assert forall|q: int| cursor < q < full.len() && start[q] != Cell::Empty implies full[q]
                    == after[q] by {
                    assert(full[q] != Cell::Empty);
                    assert(after[q] == start[q]);
                }
                lemma_same_on_the_way(puzzle, full, after, cursor);
                assert(false);
            }
            assert(after[cursor].rank() < full[cursor].rank());
        }
    }
}

/// The mark just written at the cursor is legal: the search moves on to the
/// next cell that the puzzle leaves unmarked, or behind the last cell.
pub proof fn lemma_search_accepts(
    puzzle: BoardView,
    marks: Seq<Cell>,
    cursor: int,
    x: int,
    y: int,
    mark: Cell,
    next: int,
)
    requires
        puzzle.wf(),
        search_state(puzzle, marks, cursor),
        puzzle.contains(x, y),
        cursor == y * puzzle.size + x,
        puzzle.cells[cursor] == Cell::Empty,
        mark != Cell::Empty,
        mark.rank() == marks[cursor].rank() + 1,
        legal_in(puzzle, marks.update(cursor, mark), x, y),
        cursor < next <= puzzle.cells.len(),
        forall|q: int| cursor < q < next ==> puzzle.cells[q] != Cell::Empty,
        next < puzzle.cells.len() ==> puzzle.cells[next] == Cell::Empty,
    ensures
        search_state(puzzle, marks.update(cursor, mark), next),
{
    let size = puzzle.size as int;
    let start = puzzle.cells;
    let after = marks.update(cursor, mark);
    lemma_index_bounds(x, y, size);
    lemma_steps_kept(puzzle, marks, cursor, mark, cursor);
    assert(on_course(start, after, cursor));
    lemma_nothing_held_back(start, after, cursor);
    assert(on_course(start, after, next));
    assert forall|x2: int, y2: int|
        puzzle.contains(x2, y2) && puzzle.cell(x2, y2) == Cell::Empty && y2 * puzzle.size + x2
            < next implies #[trigger] legal_on_the_way(puzzle, after, x2, y2) by {
        lemma_index_bounds(x2, y2, size);
        let place = y2 * size + x2;
        if place < cursor {
            assert(legal_on_the_way(puzzle, after, x2, y2));
        } else {
            assert(place == cursor);
            lemma_one_cell_per_place(size, x, y, x2, y2);
        }
    }
    assert forall|full: Seq<Cell>|
        completes(start, full) && #[trigger] legal_steps(puzzle, full, start.len() as int) implies still_ahead(
        after,
        full,
        next,
    ) by {
        assert(still_ahead(marks, full, cursor));
        let place = choose|place: int|
            {
                &&& 0 <= place <= cursor
                &&& place < marks.len()
                &&& forall|q: int| 0 <= q < place ==> full[q] == marks[q]
                &&& (#[trigger] marks[place]).rank() < full[place].rank()
            };
        if place < cursor {
            assert(after[place].rank() < full[place].rank());
        } else if full[cursor] != mark {
            assert(after[cursor].rank() < full[cursor].rank());
        } else {
            assert forall|q: int| 0 <= q < next && q < start.len() implies full[q] == after[q] by {
                assert(full[q] != Cell::Empty);
            }
            if next == start.len() {
                assert(full =~= after);
            } else {
                assert(full[next] != Cell::Empty);
                assert(after[next] == Cell::Empty);
                assert(after[next].rank() < full[next].rank());
            }
        }
    }
}

/// Both marks have been tried at the cursor: the search unmarks the cell
/// and goes back to the cell that it marked before.
pub proof fn lemma_search_backs_up(puzzle: BoardView, marks: Seq<Cell>, cursor: int, previous: int)
    requires
        puzzle.wf(),
        search_state(puzzle, marks, cursor),
        0 <= previous < cursor < puzzle.cells.len(),
        puzzle.cells[cursor] == Cell::Empty,
        marks[cursor] == Cell::White,
        puzzle.cells[previous] == Cell::Empty,
        forall|q: int| previous < q < cursor ==> puzzle.cells[q] != Cell::Empty,
    ensures
        search_state(puzzle, marks.update(cursor, Cell::Empty), previous),
{
    let start = puzzle.cells;
    let after = marks.update(cursor, Cell::Empty);
    lemma_steps_kept(puzzle, marks, cursor, Cell::Empty, previous);
    assert(on_course(start, after, previous));
    assert forall|full: Seq<Cell>|
        completes(start, full) && #[trigger] legal_steps(puzzle, full, start.len() as int) implies still_ahead(
        after,
        full,
        previous,
    ) by {
        assert(still_ahead(marks, full, cursor));
        let place = choose|place: int|
            {
                &&& 0 <= place <= cursor
                &&& place < marks.len()
                &&& forall|q: int| 0 <= q < place ==> full[q] == marks[q]
                &&& (#[trigger] marks[place]).rank() < full[place].rank()
            };
        assert(place < cursor);
        if previous < place {
            assert(full[place] != Cell::Empty);
            assert(marks[place] == start[place]);
            assert(false);
        }
        assert(after[place].rank() < full[place].rank());
    }
}

/// Both marks have been tried at the first cell that the puzzle leaves
/// unmarked: the puzzle has no solution.
pub proof fn lemma_search_exhausted(puzzle: BoardView, marks: Seq<Cell>, cursor: int)
    requires
        puzzle.wf(),
        search_state(puzzle, marks, cursor),
        cursor < puzzle.cells.len(),
        puzzle.cells[cursor] == Cell::Empty,
        marks[cursor] == Cell::White,
        forall|q: int| 0 <= q < cursor ==> puzzle.cells[q] != Cell::Empty,
    ensures
        forall|full: Seq<Cell>| !is_solution(puzzle, full),
        marks == puzzle.cells.update(cursor, Cell::White),
{
    let start = puzzle.cells;
    assert forall|full: Seq<Cell>| !is_solution(puzzle, full) by {
        if is_solution(puzzle, full) {
            lemma_solution_by_steps(puzzle, full);
            assert(still_ahead(marks, full, cursor));
            let place = choose|place: int|
                {
                    &&& 0 <= place <= cursor
                    &&& place < marks.len()
                    &&& forall|q: int| 0 <= q < place ==> full[q] == marks[q]
                    &&& (#[trigger] marks[place]).rank() < full[place].rank()
                };
            if place < cursor {
                assert(full[place] != Cell::Empty);
                assert(marks[place] == start[place]);
            }
            assert(false);
        }
    }
    assert(marks =~= start.update(cursor, Cell::White));
}

/// The search has marked the last cell: what it has written solves the
/// puzzle, and every other solution comes later in the order of the search.
pub proof fn lemma_search_finished(puzzle: BoardView, marks: Seq<Cell>)
    requires
        puzzle.wf(),
        search_state(puzzle, marks, puzzle.cells.len() as int),
    ensures
        is_solution(puzzle, marks),
        forall|full: Seq<Cell>| #[trigger]
            is_solution(puzzle, full) ==> full == marks || tried_before(marks, full),
{
    let start = puzzle.cells;
    assert(completes(start, marks));
    lemma_solution_by_steps(puzzle, marks);
    assert forall|full: Seq<Cell>| #[trigger] is_solution(puzzle, full) implies full == marks
        || tried_before(marks, full) by {
        lemma_solution_by_steps(puzzle, full);
        assert(still_ahead(marks, full, start.len() as int));
    }
}

} // verus!
