//! The order in which the search visits the cells that the puzzle leaves
//! unmarked.
use crate::board::enums::cell::Cell;
use crate::board::view::BoardView;
use crate::search::progress::rising;
use vstd::prelude::*;

verus! {

/// The places of the cells that the puzzle leaves unmarked, in the order in
/// which the search marks them.
pub open spec fn places_of(puzzle: BoardView) -> Seq<int> {
    Seq::new(
        puzzle.unmarked_cells().len(),
        |k: int| puzzle.unmarked_cells()[k].index(puzzle.size as int),
    )
}

/// The place at which the search stands at the given depth. Above the first
/// of its cells this is the place before the grid, and below the last of
/// them the place behind the grid.
pub open spec fn cursor_at(puzzle: BoardView, depth: int) -> int {
    if depth < 0 {
        -1
    } else if depth < places_of(puzzle).len() {
        places_of(puzzle)[depth]
    } else {
        puzzle.cells.len() as int
    }
}

/// The search visits places of the grid in rising order, and the cell at
/// each of them is one that the puzzle leaves unmarked.
pub proof fn lemma_places_of(puzzle: BoardView)
    requires
        puzzle.wf(),
    ensures
        rising(places_of(puzzle), puzzle.cells.len() as int),
        forall|k: int|
            0 <= k < places_of(puzzle).len() ==> {
                &&& (#[trigger] puzzle.unmarked_cells()[k]).within(puzzle.size as int)
                &&& puzzle.cells[places_of(puzzle)[k]] == Cell::Empty
            },
{
    puzzle.lemma_unmarked_before(puzzle.cells.len() as int);
    let listing = puzzle.unmarked_cells();
    let places = places_of(puzzle);
    assert forall|j: int, k: int| 0 <= j < k < places.len() implies #[trigger] places[j]
        < #[trigger] places[k] by {
        assert(listing[j].index(puzzle.size as int) < listing[k].index(puzzle.size as int));
    }
    assert forall|k: int| 0 <= k < places.len() implies 0 <= #[trigger] places[k] < puzzle.cells.len() by {
        assert(listing[k].within(puzzle.size as int));
    }
    assert forall|k: int| 0 <= k < places.len() implies {
        &&& (#[trigger] listing[k]).within(puzzle.size as int)
        &&& puzzle.cells[places[k]] == Cell::Empty
    } by {
        assert(listing[k].within(puzzle.size as int));
    }
}

/// Between two cells that the search visits one after the other, before the
/// first and behind the last, every cell carries a mark of the puzzle.
pub proof fn lemma_between_cursors(puzzle: BoardView, depth: int)
    requires
        puzzle.wf(),
        0 <= depth <= places_of(puzzle).len(),
    ensures
        -1 <= cursor_at(puzzle, depth - 1) < cursor_at(puzzle, depth) <= puzzle.cells.len(),
        forall|q: int|
            cursor_at(puzzle, depth - 1) < q < cursor_at(puzzle, depth) ==> #[trigger] puzzle.cells[q]
                != Cell::Empty,
{
    puzzle.lemma_unmarked_before(puzzle.cells.len() as int);
    lemma_places_of(puzzle);
    let listing = puzzle.unmarked_cells();
    let places = places_of(puzzle);
    if 0 < depth < places.len() {
        assert(places[depth - 1] < places[depth]);
    }
    assert forall|q: int|
        cursor_at(puzzle, depth - 1) < q < cursor_at(puzzle, depth) implies #[trigger] puzzle.cells[q]
        != Cell::Empty by {
        if puzzle.cells[q] == Cell::Empty {
            let k = choose|k: int|
                0 <= k < listing.len() && (#[trigger] listing[k]).index(puzzle.size as int) == q;
            assert(places[k] == q);
            if k < depth - 1 {
                assert(places[k] < places[depth - 1]);
            } else if k > depth {
                assert(places[depth] < places[k]);
            }
            assert(false);
        }
    }
}

} // verus!
