use vstd::arithmetic::div_mod::{lemma_fundamental_div_mod, lemma_fundamental_div_mod_converse};
use vstd::prelude::*;

verus! {

/// A position on the grid: column `x` and row `y`, both counted from zero.
#[derive(Debug, Clone, Copy, PartialEq, Eq, Structural)]
pub struct Coords {
    pub x: u32,
    pub y: u32,
}

impl Coords {
    /// The place of this position in a row-major grid whose rows hold `size` cells.
    pub open spec fn index(self, size: int) -> int {
        self.y * size + self.x
    }

    /// The position that lies at place `index` of a row-major grid whose rows
    /// hold `size` cells.
    pub open spec fn at_index(index: int, size: int) -> Coords {
        Coords { x: (index % size) as u32, y: (index / size) as u32 }
    }

    /// Whether the position lies on a grid of `size` rows and `size` columns.
    pub open spec fn within(self, size: int) -> bool {
        self.x < size && self.y < size
    }

    pub fn new(x: u32, y: u32) -> (c: Self)
        ensures
            c == (Coords { x, y }),
    {
        Coords { x, y }
    }

    pub fn from_tuple(coords: (u32, u32)) -> (c: Self)
        ensures
            c == (Coords { x: coords.0, y: coords.1 }),
    {
        Coords { x: coords.0, y: coords.1 }
    }

    pub fn to_tuple(&self) -> (pair: (u32, u32))
        ensures
            pair == (self.x, self.y),
    {
        (self.x, self.y)
    }

    /// The position at place `index`. A quotient or remainder that does not fit
    /// in 32 bits is cut to its low 32 bits. A place on a grid of `size` rows
    /// and columns gives a position on that grid, and that position has this
    /// place.
    pub fn from_index(index: usize, size: usize) -> (c: Self)
        requires
            size > 0,
        ensures
            c == Coords::at_index(index as int, size as int),
            size <= u32::MAX && index < size * size ==> c.within(size as int) && c.index(size as int)
                == index,
    {
        proof {
            if size <= u32::MAX && index < size * size {
                Coords::lemma_at_index_round_trip(index as int, size as int);
            }
        }
        let x = #[verifier::truncate]
        ((index % size) as u32);
        let y = #[verifier::truncate]
        ((index / size) as u32);
        Coords { x, y }
    }

    /// The place of this position in a row-major grid whose rows hold `size`
    /// cells. For a position on the grid of `size` rows and columns the place
    /// lies on the grid and leads back to the position.
    pub fn to_index(&self, size: u32) -> (index: usize)
        requires
            self.index(size as int) <= usize::MAX,
        ensures
            index == self.index(size as int),
            self.within(size as int) ==> index < size * size && Coords::at_index(
                index as int,
                size as int,
            ) == *self,
    {
        proof {
            if self.within(size as int) {
                self.lemma_index_round_trip(size as int);
            }
            assert(0 <= self.y * size) by (nonlinear_arith);
            assert(self.y * size == (self.y as usize) * (size as usize)) by (nonlinear_arith);
        }
        (self.y as usize) * (size as usize) + (self.x as usize)
    }

    /// On a grid of `size` columns, the place of a position in range leads back
    /// to that position.
    pub proof fn lemma_index_round_trip(self, size: int)
        requires
            0 < size <= u32::MAX,
            self.within(size),
        ensures
            0 <= self.index(size) < size * size,
            Coords::at_index(self.index(size), size) == self,
    {
        lemma_index_bounds(self.x as int, self.y as int, size);
        lemma_fundamental_div_mod_converse(self.index(size), size, self.y as int, self.x as int);
    }

    /// Every place of the grid belongs to exactly one position in range.
    pub proof fn lemma_at_index_round_trip(index: int, size: int)
        requires
            0 < size <= u32::MAX,
            0 <= index < size * size,
        ensures
            Coords::at_index(index, size).within(size),
            Coords::at_index(index, size).index(size) == index,
    {
        lemma_fundamental_div_mod(index, size);
        let q = index / size;
        let r = index % size;
        assert(0 <= r < size);
        assert(0 <= q < size) by (nonlinear_arith)
            requires
                index == size * q + r,
                0 <= r < size,
                0 <= index < size * size,
                0 < size,
        ;
        assert(size * q == q * size) by (nonlinear_arith);
    }
}

/// Row-major places stay inside the grid and keep the order of the rows:
/// a place in a later row is larger than any place in an earlier row.
pub proof fn lemma_index_bounds(x: int, y: int, size: int)
    requires
        0 <= x < size,
        0 <= y < size,
    ensures
        0 <= y * size + x < size * size,
        y * size <= y * size + x < (y + 1) * size,
{
    assert(0 <= y * size && (y + 1) * size <= size * size && (y + 1) * size == y * size + size)
        by (nonlinear_arith)
        requires
            0 <= y < size,
    ;
}

} // verus!
