//! Why the search comes to an end.
//!
//! The cells that the puzzle leaves unmarked are numbered in the order in
//! which the search marks them; the number of the cell at which the search
//! stands is its depth. What is written on these cells is read as a number:
//! a mark at depth `k` counts with the weight `3^(n - k)`, where `n` is the
//! number of such cells. Each step of the search raises that number, and it
//! cannot pass `3^(n + 1) + n`.
use crate::board::enums::cell::Cell;
use vstd::prelude::*;

verus! {

/// The power `3^exponent`.
pub open spec fn pow3(exponent: nat) -> nat
    decreases exponent,
{
    if exponent == 0 {
        1
    } else {
        3 * pow3((exponent - 1) as nat)
    }
}

/// The rank of a mark, times `weight`.
pub open spec fn weighed(mark: Cell, weight: int) -> int {
    match mark {
        Cell::Empty => 0,
        Cell::Black => weight,
        Cell::White => 2 * weight,
    }
}

/// The weight of a mark at the given depth, where `places` lists the places
/// of the cells that the search marks.
pub open spec fn weight_at(places: Seq<int>, depth: int) -> int {
    pow3((places.len() - depth) as nat) as int
}

/// What the marks above `depth` count: each one as its rank less one, times
/// its weight.
pub open spec fn settled(marks: Seq<Cell>, places: Seq<int>, depth: int) -> int
    decreases depth,
{
    if depth <= 0 {
        0
    } else {
        settled(marks, places, depth - 1) + weighed(
            marks[places[depth - 1]],
            weight_at(places, depth - 1),
        ) - weight_at(places, depth - 1)
    }
}

/// How far the search has come when it stands at `depth` with `marks`
/// written.
pub open spec fn progress(marks: Seq<Cell>, places: Seq<int>, depth: int) -> int {
    settled(marks, places, depth) + depth + if depth < places.len() {
        weighed(marks[places[depth]], weight_at(places, depth))
    } else {
        0
    }
}

/// A bound on the number of steps that the search can still make.
pub open spec fn steps_left(marks: Seq<Cell>, places: Seq<int>, depth: int) -> int {
    pow3(places.len() + 1) + places.len() - progress(marks, places, depth)
}

/// A higher power of three is the larger one, and no power is below one.
pub proof fn lemma_pow3_grows(lower: nat, higher: nat)
    requires
        lower <= higher,
    ensures
        1 <= pow3(lower) <= pow3(higher),
    decreases higher,
{
    if lower < higher {
        lemma_pow3_grows(lower, (higher - 1) as nat);
    } else if lower > 0 {
        lemma_pow3_grows((lower - 1) as nat, (lower - 1) as nat);
    }
}

/// What is settled depends on the marks above the depth only.
pub proof fn lemma_settled_kept(marks: Seq<Cell>, after: Seq<Cell>, places: Seq<int>, depth: int)
    requires
        forall|k: int| 0 <= k < depth ==> after[#[trigger] places[k]] == marks[places[k]],
    ensures
        settled(after, places, depth) == settled(marks, places, depth),
    decreases depth,
{
    if depth > 0 {
        lemma_settled_kept(marks, after, places, depth - 1);
    }
}

/// What is settled above a depth leaves room for the marks at and below it.
pub proof fn lemma_settled_bound(marks: Seq<Cell>, places: Seq<int>, depth: int)
    requires
        0 <= depth <= places.len(),
    ensures
        2 * settled(marks, places, depth) + pow3((places.len() - depth + 1) as nat) <= pow3(
            places.len() + 1,
        ),
    decreases depth,
{
    if depth > 0 {
        lemma_settled_bound(marks, places, depth - 1);
        assert(pow3((places.len() - (depth - 1) + 1) as nat) == 3 * pow3((places.len() - (depth - 1)) as nat));
        assert(pow3((places.len() - depth + 1) as nat) == pow3((places.len() - (depth - 1)) as nat));
        lemma_pow3_grows(0, (places.len() - (depth - 1)) as nat);
    }
}

/// The search always has a bounded number of steps left.
pub proof fn lemma_steps_left_bound(marks: Seq<Cell>, places: Seq<int>, depth: int)
    requires
        0 <= depth <= places.len(),
    ensures
        steps_left(marks, places, depth) >= 0,
{
    lemma_settled_bound(marks, places, depth);
    lemma_pow3_grows((places.len() - depth) as nat, places.len() + 1);
    assert(pow3((places.len() - depth + 1) as nat) == 3 * pow3((places.len() - depth) as nat));
}

/// Whether `places` lists places of a grid of `cells` cells in rising order.
pub open spec fn rising(places: Seq<int>, cells: int) -> bool {
    &&& forall|k: int| 0 <= k < places.len() ==> 0 <= #[trigger] places[k] < cells
    &&& forall|j: int, k: int| 0 <= j < k < places.len() ==> #[trigger] places[j] < #[trigger] places[k]
}

/// Writing the next mark at the cursor, and staying there, leaves fewer
/// steps.
pub proof fn lemma_stay_progress(marks: Seq<Cell>, places: Seq<int>, depth: int, mark: Cell)
    requires
        rising(places, marks.len() as int),
        0 <= depth < places.len(),
        mark.rank() == marks[places[depth]].rank() + 1,
    ensures
        0 <= steps_left(marks.update(places[depth], mark), places, depth) < steps_left(
            marks,
            places,
            depth,
        ),
{
    let after = marks.update(places[depth], mark);
    assert forall|k: int| 0 <= k < depth implies after[#[trigger] places[k]] == marks[places[k]] by {
        assert(places[k] < places[depth]);
    }
    lemma_settled_kept(marks, after, places, depth);
    lemma_pow3_grows(0, (places.len() - depth) as nat);
    lemma_steps_left_bound(after, places, depth);
}

/// Writing the next mark at the cursor, and moving on to the next cell,
/// which is unmarked, leaves fewer steps.
pub proof fn lemma_move_on_progress(marks: Seq<Cell>, places: Seq<int>, depth: int, mark: Cell)
    requires
        rising(places, marks.len() as int),
        0 <= depth < places.len(),
        mark.rank() == marks[places[depth]].rank() + 1,
        depth + 1 < places.len() ==> marks[places[depth + 1]] == Cell::Empty,
    ensures
        0 <= steps_left(marks.update(places[depth], mark), places, depth + 1) < steps_left(
            marks,
            places,
            depth,
        ),
{
    let after = marks.update(places[depth], mark);
    assert forall|k: int| 0 <= k < depth implies after[#[trigger] places[k]] == marks[places[k]] by {
        assert(places[k] < places[depth]);
    }
    lemma_settled_kept(marks, after, places, depth);
    lemma_steps_left_bound(after, places, depth + 1);
    assert(settled(after, places, depth + 1) == settled(after, places, depth) + weighed(
        after[places[depth]],
        weight_at(places, depth),
    ) - weight_at(places, depth));
    if depth + 1 < places.len() {
        assert(places[depth] < places[depth + 1]);
        assert(after[places[depth + 1]] == Cell::Empty);
    }
}

/// Unmarking a cell on which both marks have been tried, and going back to
/// the cell marked before it, leaves fewer steps.
pub proof fn lemma_back_up_progress(marks: Seq<Cell>, places: Seq<int>, depth: int)
    requires
        rising(places, marks.len() as int),
        0 < depth < places.len(),
        marks[places[depth]] == Cell::White,
    ensures
        0 <= steps_left(marks.update(places[depth], Cell::Empty), places, depth - 1) < steps_left(
            marks,
            places,
            depth,
        ),
{
    let after = marks.update(places[depth], Cell::Empty);
    assert forall|k: int| 0 <= k < depth implies after[#[trigger] places[k]] == marks[places[k]] by {
        assert(places[k] < places[depth]);
    }
    lemma_settled_kept(marks, after, places, depth - 1);
    lemma_steps_left_bound(after, places, depth - 1);
    assert(settled(marks, places, depth) == settled(marks, places, depth - 1) + weighed(
        marks[places[depth - 1]],
        weight_at(places, depth - 1),
    ) - weight_at(places, depth - 1));
    assert(after[places[depth - 1]] == marks[places[depth - 1]]);
    assert(weight_at(places, depth - 1) == 3 * weight_at(places, depth));
    assert(weight_at(places, depth) == 3 * pow3((places.len() - depth - 1) as nat));
    lemma_pow3_grows(0, (places.len() - depth - 1) as nat);
}

} // verus!
