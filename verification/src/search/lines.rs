//! How the legal test on a half-marked line relates to the same test on the
//! line once all its cells are marked.
//!
//! The search marks the cells of a line in rising order and tests each cell
//! while the cells that it has yet to mark are still unmarked. The two
//! lemmas at the end show that this comes to the same as testing every such
//! cell on the finished line.
use crate::board::enums::cell::Cell;
use crate::board::enums::wall::Wall;
use crate::board::line::{fully_marked, lemma_count_below, line_legal, run_at, run_free_near};
use vstd::prelude::*;

verus! {

/// Whether `full` marks every cell of `base` and keeps the marks that `base`
/// has already.
pub open spec fn completes(base: Seq<Cell>, full: Seq<Cell>) -> bool {
    &&& full.len() == base.len()
    &&& forall|j: int|
        0 <= j < base.len() ==> (#[trigger] full[j]) != Cell::Empty && (base[j] != Cell::Empty
            ==> full[j] == base[j])
}

/// The marks of `full`, but with every cell behind place `pos` that `base`
/// leaves unmarked still unmarked: what the search has written when it
/// tests the cell at `pos`.
pub open spec fn held_back(base: Seq<Cell>, full: Seq<Cell>, pos: int) -> Seq<Cell> {
    Seq::new(
        full.len(),
        |j: int|
            if base[j] == Cell::Empty && j > pos {
                Cell::Empty
            } else {
                full[j]
            },
    )
}

/// The last cell of a line that `base` leaves unmarked, given that there is
/// one before place `upto`.
proof fn lemma_last_unmarked(base: Seq<Cell>, upto: int, some: int) -> (last: int)
    requires
        0 <= some < upto <= base.len(),
        base[some] == Cell::Empty,
    ensures
        some <= last < upto,
        base[last] == Cell::Empty,
        forall|j: int| last < j < upto ==> base[j] != Cell::Empty,
    decreases upto,
{
    if base[upto - 1] == Cell::Empty {
        upto - 1
    } else {
        lemma_last_unmarked(base, upto - 1, some)
    }
}

/// A cell that is legal on the finished line was legal when the search
/// tested it.
pub proof fn lemma_legal_when_held_back(base: Seq<Cell>, full: Seq<Cell>, gaps: Seq<Wall>, pos: int)
    requires
        completes(base, full),
        0 <= pos < full.len(),
        line_legal(full, gaps, pos),
    ensures
        line_legal(held_back(base, full, pos), gaps, pos),
{
    let early = held_back(base, full, pos);
    assert(!run_at(early, pos - 2) && !run_at(early, pos - 1) && !run_at(early, pos)) by {
        assert(run_free_near(full, pos));
    }
    lemma_count_below(early, full, Cell::Black);
    lemma_count_below(early, full, Cell::White);
    if fully_marked(early) {
        assert(early =~= full);
        assert(fully_marked(full));
    }
}

/// A cell that the search marked is legal on the finished line, given that
/// each cell that the search marked on this line was legal when it was
/// tested.
pub proof fn lemma_legal_when_finished(base: Seq<Cell>, full: Seq<Cell>, gaps: Seq<Wall>, pos: int)
    requires
        completes(base, full),
        0 <= pos < full.len(),
        base[pos] == Cell::Empty,
        forall|j: int|
            0 <= j < base.len() && base[j] == Cell::Empty ==> #[trigger] line_legal(
                held_back(base, full, j),
                gaps,
                j,
            ),
    ensures
        line_legal(full, gaps, pos),
{
    let len = full.len() as int;
    let early = held_back(base, full, pos);
    assert(line_legal(early, gaps, pos));
    // The edge towards the cell after `pos`.
    if pos + 1 < len {
        if base[pos + 1] == Cell::Empty {
            let later = held_back(base, full, pos + 1);
            assert(line_legal(later, gaps, pos + 1));
            gaps[pos].lemma_holds_symmetric(full[pos + 1], full[pos]);
        } else {
            assert(early[pos + 1] == full[pos + 1]);
        }
    }
    // Three equal marks: tested when the last of the three was marked.
    assert forall|start: int| pos - 2 <= start <= pos implies !run_at(full, start) by {
        if 0 <= start && start + 2 < len {
            let last = lemma_last_unmarked(base, start + 3, pos);
            let then = held_back(base, full, last);
            assert(line_legal(then, gaps, last));
            assert(run_free_near(then, last));
            assert(then[start] == full[start]);
            assert(then[start + 1] == full[start + 1]);
            assert(then[start + 2] == full[start + 2]);
        }
    }
    // Balance: tested when the last cell of the line was marked.
    let last = lemma_last_unmarked(base, len, pos);
    let then = held_back(base, full, last);
    assert(line_legal(then, gaps, last));
    assert(then =~= full);
}

} // verus!
