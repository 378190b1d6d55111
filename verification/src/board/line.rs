//! The rules that one line of the grid, a row or a column, has to meet.
//!
//! A line is the sequence of its marks, and the edges between neighbouring
//! cells of the line are a sequence of their own: edge `i` lies between the
//! cells `i` and `i + 1`.
use crate::board::enums::cell::Cell;
use crate::board::enums::wall::Wall;
use vstd::prelude::*;

verus! {

/// How often `mark` occurs in `line`.
pub open spec fn count(line: Seq<Cell>, mark: Cell) -> nat
    decreases line.len(),
{
    if line.len() == 0 {
        0
    } else {
        count(line.drop_last(), mark) + if line.last() == mark {
            1nat
        } else {
            0nat
        }
    }
}

/// Whether every cell before place `upto` carries a mark.
pub open spec fn marked_upto(line: Seq<Cell>, upto: int) -> bool {
    forall|k: int| 0 <= k < upto ==> line[k] != Cell::Empty
}

/// Whether every cell of the line carries a mark.
pub open spec fn fully_marked(line: Seq<Cell>) -> bool {
    marked_upto(line, line.len() as int)
}

/// Whether the three cells from place `start` on lie on the line and carry
/// the same mark.
pub open spec fn run_at(line: Seq<Cell>, start: int) -> bool {
    &&& 0 <= start
    &&& start + 2 < line.len()
    &&& line[start] != Cell::Empty
    &&& line[start] == line[start + 1]
    &&& line[start + 1] == line[start + 2]
}

/// Whether no three equal marks stand side by side among the cells at most
/// two places away from `pos`.
pub open spec fn run_free_near(line: Seq<Cell>, pos: int) -> bool {
    &&& !run_at(line, pos - 2)
    &&& !run_at(line, pos - 1)
    &&& !run_at(line, pos)
}

/// The balance rule: the line holds no more Black and no more White cells
/// than half its length, wherever on the line they stand, and a line that is
/// marked throughout holds as many Black as White cells.
pub open spec fn balanced(line: Seq<Cell>) -> bool {
    &&& count(line, Cell::Black) <= line.len() / 2
    &&& count(line, Cell::White) <= line.len() / 2
    &&& fully_marked(line) ==> count(line, Cell::Black) == count(line, Cell::White)
}

/// Whether the cell at place `pos` of `line` is legal, where `gaps[i]` is the
/// constraint on the edge between the cells `i` and `i + 1`.
///
/// The edge towards the cell before `pos` is tested whatever that cell holds;
/// the edge towards the cell after `pos` only once that cell is marked.
pub open spec fn line_legal(line: Seq<Cell>, gaps: Seq<Wall>, pos: int) -> bool {
    &&& pos > 0 ==> gaps[pos - 1].holds(line[pos], line[pos - 1])
    &&& pos + 1 < line.len() && line[pos + 1] != Cell::Empty ==> gaps[pos].holds(
        line[pos],
        line[pos + 1],
    )
    &&& run_free_near(line, pos)
    &&& balanced(line)
}

/// A longer beginning of a line holds each mark at least as often as a
/// shorter one.
pub proof fn lemma_count_grows(line: Seq<Cell>, mark: Cell, shorter: int, longer: int)
    requires
        0 <= shorter <= longer <= line.len(),
    ensures
        count(line.take(shorter), mark) <= count(line.take(longer), mark),
    decreases longer - shorter,
{
    if shorter < longer {
        lemma_count_grows(line, mark, shorter, longer - 1);
        assert(line.take(longer).drop_last() =~= line.take(longer - 1));
    }
}

/// Taking one more cell into the count adds one for the mark it carries.
pub proof fn lemma_count_step(line: Seq<Cell>, mark: Cell, upto: int)
    requires
        0 <= upto < line.len(),
    ensures
        count(line.take(upto + 1), mark) == count(line.take(upto), mark) + if line[upto] == mark {
            1nat
        } else {
            0nat
        },
{
    assert(line.take(upto + 1).drop_last() =~= line.take(upto));
}

/// A line that holds a mark only where another line holds the same mark
/// holds it no more often than that other line.
pub proof fn lemma_count_below(fewer: Seq<Cell>, more: Seq<Cell>, mark: Cell)
    requires
        fewer.len() == more.len(),
        forall|j: int| 0 <= j < fewer.len() && fewer[j] == mark ==> more[j] == mark,
    ensures
        count(fewer, mark) <= count(more, mark),
    decreases fewer.len(),
{
    if fewer.len() > 0 {
        lemma_count_below(fewer.drop_last(), more.drop_last(), mark);
    }
}

/// The three kinds of cell make up the whole line.
pub proof fn lemma_count_total(line: Seq<Cell>)
    ensures
        count(line, Cell::Empty) + count(line, Cell::Black) + count(line, Cell::White) == line.len(),
        fully_marked(line) ==> count(line, Cell::Empty) == 0,
    decreases line.len(),
{
    if line.len() > 0 {
        lemma_count_total(line.drop_last());
        if fully_marked(line) {
            assert(fully_marked(line.drop_last()));
            assert(line[line.len() - 1] != Cell::Empty);
        }
    }
}

/// A line that is marked throughout and balanced has an even length, and
/// Black and White each take half of it.
pub proof fn lemma_balanced_full_line(line: Seq<Cell>)
    requires
        balanced(line),
        fully_marked(line),
    ensures
        line.len() % 2 == 0,
        count(line, Cell::Black) == line.len() / 2,
        count(line, Cell::White) == line.len() / 2,
{
    lemma_count_total(line);
}

/// A line of odd length cannot be marked throughout and balanced.
pub proof fn lemma_odd_line_never_balanced(line: Seq<Cell>)
    requires
        line.len() % 2 == 1,
        fully_marked(line),
    ensures
        !balanced(line),
{
    if balanced(line) {
        lemma_balanced_full_line(line);
    }
}

/// Where the legal test passes at every place of a line, no three equal marks
/// stand side by side anywhere on it.
pub proof fn lemma_legal_line_has_no_run(line: Seq<Cell>, gaps: Seq<Wall>, start: int)
    requires
        forall|pos: int| 0 <= pos < line.len() ==> #[trigger] line_legal(line, gaps, pos),
    ensures
        !run_at(line, start),
{
    if 0 <= start && start + 2 < line.len() {
        assert(line_legal(line, gaps, start));
    }
}

} // verus!
