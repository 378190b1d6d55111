use crate::board::coords::Coords;
use crate::board::enums::cell::FromCellCoords;
use crate::board::enums::wall::{Wall, WallCoords};
use crate::error::SolverError;
use vstd::prelude::*;

verus! {

/// The constraints on the inner edges of a square grid.
///
/// The edges above a cell and the edges left of a cell are kept apart. Each
/// family has `size * (size - 1)` members: the top row has no edge above it
/// and the first column none to its left.
pub struct Walls {
    size: u32,
    vertical: Vec<Wall>,
    horizontal: Vec<Wall>,
}

/// The number of edges in each of the two families of a grid of `size` rows
/// and columns.
pub open spec fn edge_count(size: nat) -> int {
    size * (size - 1)
}

/// The place of the edge above `cell` among the edges above: that of the cell
/// one row up, in rows of `size` cells.
pub open spec fn above_index(size: nat, cell: Coords) -> int {
    (cell.y - 1) * size + cell.x
}

/// The place of the edge left of `cell` among the edges to the left: that of
/// the cell one column to the left, in rows of `size - 1` cells.
pub open spec fn left_index(size: nat, cell: Coords) -> int {
    cell.y * (size - 1) + (cell.x - 1)
}

/// Why the given edge cannot be looked up on a grid of `size` rows and
/// columns, if it cannot: the top row has no edge above it and the first
/// column none to its left, and the place of any other edge must lie inside
/// the storage.
pub open spec fn edge_error(size: nat, edge: FromCellCoords) -> Option<SolverError> {
    match edge {
        FromCellCoords::Up(cell) => if cell.y == 0 {
            Some(SolverError::InvalidEdgeReference)
        } else if above_index(size, cell) >= edge_count(size) {
            Some(SolverError::OutOfBounds)
        } else {
            None
        },
        FromCellCoords::Left(cell) => if cell.x == 0 {
            Some(SolverError::InvalidEdgeReference)
        } else if left_index(size, cell) >= edge_count(size) {
            Some(SolverError::OutOfBounds)
        } else {
            None
        },
    }
}

/// The edges above that result from writing the given constraints, in their
/// order, onto a grid without constraints.
pub open spec fn walled_above(size: nat, walls: Seq<WallCoords>) -> Seq<Wall>
    decreases walls.len(),
{
    if walls.len() == 0 {
        Seq::new(edge_count(size) as nat, |i: int| Wall::Normal)
    } else {
        let earlier = walled_above(size, walls.drop_last());
        match walls.last().coords {
            FromCellCoords::Up(cell) => earlier.update(above_index(size, cell), walls.last().wall),
            FromCellCoords::Left(_) => earlier,
        }
    }
}

/// The edges to the left that result from writing the given constraints, in
/// their order, onto a grid without constraints.
pub open spec fn walled_left(size: nat, walls: Seq<WallCoords>) -> Seq<Wall>
    decreases walls.len(),
{
    if walls.len() == 0 {
        Seq::new(edge_count(size) as nat, |i: int| Wall::Normal)
    } else {
        let earlier = walled_left(size, walls.drop_last());
        match walls.last().coords {
            FromCellCoords::Up(_) => earlier,
            FromCellCoords::Left(cell) => earlier.update(left_index(size, cell), walls.last().wall),
        }
    }
}

/// The top row has no edge above it and the first column none to its left,
/// whatever the size of the grid.
pub proof fn lemma_no_edge_past_the_border(size: nat, x: u32, y: u32)
    ensures
        edge_error(size, FromCellCoords::Up(Coords { x, y: 0 })) == Some(
            SolverError::InvalidEdgeReference,
        ),
        edge_error(size, FromCellCoords::Left(Coords { x: 0, y })) == Some(
            SolverError::InvalidEdgeReference,
        ),
{
}

impl Walls {
    /// The grid has at least one row, and each family of edges holds one
    /// constraint for each of its edges.
    #[verifier::type_invariant]
    pub open spec fn well_formed(&self) -> bool {
        &&& self.size() >= 1
        &&& self.left().len() == edge_count(self.size())
        &&& self.above().len() == edge_count(self.size())
    }

    /// The number of rows, which is also the number of columns.
    pub closed spec fn size(&self) -> nat {
        self.size as nat
    }

    /// The constraints on the edges above a cell, row by row from the second row on.
    pub closed spec fn above(&self) -> Seq<Wall> {
        self.horizontal@
    }

    /// The constraints on the edges left of a cell, row by row, each row from
    /// its second column on.
    pub closed spec fn left(&self) -> Seq<Wall> {
        self.vertical@
    }

    /// The constraint on an edge that `edge_error` finds no fault with.
    pub open spec fn wall_at(&self, edge: FromCellCoords) -> Wall {
        match edge {
            FromCellCoords::Up(cell) => self.above()[above_index(self.size(), cell)],
            FromCellCoords::Left(cell) => self.left()[left_index(self.size(), cell)],
        }
    }

    /// A grid of `size` rows and columns without constraints.
    pub fn new(size: u32) -> (walls: Self)
        requires
            size >= 1,
            edge_count(size as nat) <= usize::MAX,
        ensures
            walls.size() == size,
            walls.above() == Seq::new(edge_count(size as nat) as nat, |i: int| Wall::Normal),
            walls.left() == Seq::new(edge_count(size as nat) as nat, |i: int| Wall::Normal),
    {
        let size_usize = size as usize;
        assert(size_usize * (size_usize - 1) == edge_count(size as nat)) by (nonlinear_arith)
            requires
                size_usize == size,
                size >= 1,
        ;
        let walls_per_direction = size_usize * (size_usize - 1);
        let vertical = vec![Wall::Normal; walls_per_direction];
        let horizontal = vec![Wall::Normal; walls_per_direction];
        assert(vertical@ =~= Seq::new(edge_count(size as nat) as nat, |i: int| Wall::Normal));
        assert(horizontal@ =~= Seq::new(edge_count(size as nat) as nat, |i: int| Wall::Normal));
        Walls { size, vertical, horizontal }
    }

    /// A grid of `size` rows and columns that carries the given constraints.
    /// Fails with the fault of the first edge that cannot be looked up.
    pub fn from_walls(size: u32, walls: Vec<WallCoords>) -> (built: Result<Self, SolverError>)
        requires
            size >= 1,
            edge_count(size as nat) <= usize::MAX,
        ensures
            match built {
                Ok(grid) => {
                    &&& forall|k: int|
                        0 <= k < walls@.len() ==> edge_error(size as nat, #[trigger] walls@[k].coords) is None
                    &&& grid.size() == size
                    &&& grid.above() == walled_above(size as nat, walls@)
                    &&& grid.left() == walled_left(size as nat, walls@)
                },
                Err(e) => exists|k: int|
                    {
                        &&& 0 <= k < walls@.len()
                        &&& edge_error(size as nat, #[trigger] walls@[k].coords) == Some(e)
                        &&& forall|j: int| 0 <= j < k ==> edge_error(size as nat, #[trigger] walls@[j].coords) is None
                    },
            },
    {
        let mut walls_grid = Walls::new(size);
        let mut i: usize = 0;
        assert(walls@.take(0) =~= Seq::<WallCoords>::empty());
        while i < walls.len()
            invariant
                i <= walls@.len(),
                walls_grid.size() == size,
                walls_grid.above() == walled_above(size as nat, walls@.take(i as int)),
                walls_grid.left() == walled_left(size as nat, walls@.take(i as int)),
                forall|k: int| 0 <= k < i ==> edge_error(size as nat, #[trigger] walls@[k].coords) is None,
            decreases walls@.len() - i,
        {
            let entry = &walls[i];
            match walls_grid.set_wall(&entry.coords, entry.wall) {
                Ok(()) => {},
                Err(e) => {
                    return Err(e);
                },
            }
            proof {
                let done = walls@.take(i + 1);
                assert(done.drop_last() =~= walls@.take(i as int));
                assert(done.last() == walls@[i as int]);
            }
            i += 1;
        }
        assert(walls@.take(i as int) =~= walls@);
        Ok(walls_grid)
    }

    /// The constraint on the given edge, or the reason why there is no such edge.
    pub fn get_wall(&self, coords: &FromCellCoords) -> (found: Result<Wall, SolverError>)
        ensures
            self.above().len() == edge_count(self.size()),
            self.left().len() == edge_count(self.size()),
            self.size() >= 1,
            found == match edge_error(self.size(), *coords) {
                Some(e) => Err::<Wall, SolverError>(e),
                None => Ok::<Wall, SolverError>(self.wall_at(*coords)),
            },
    {
        proof {
            use_type_invariant(self);
        }
        match coords {
            FromCellCoords::Up(cell) => {
                match self.get_above_wall_index(cell) {
                    Ok(index) => Ok(self.horizontal[index]),
                    Err(e) => Err(e),
                }
            },
            FromCellCoords::Left(cell) => {
                match self.get_left_wall_index(cell) {
                    Ok(index) => Ok(self.vertical[index]),
                    Err(e) => Err(e),
                }
            },
        }
    }

    /// Puts a constraint on the given edge, or reports why there is no such
    /// edge and leaves every constraint as it was.
    pub fn set_wall(&mut self, coords: &FromCellCoords, wall: Wall) -> (done: Result<(), SolverError>)
        ensures
            final(self).size() == old(self).size(),
            final(self).above().len() == edge_count(old(self).size()),
            final(self).left().len() == edge_count(old(self).size()),
            final(self).size() >= 1,
            match edge_error(old(self).size(), *coords) {
                Some(e) => {
                    &&& done == Err::<(), SolverError>(e)
                    &&& final(self).above() == old(self).above()
                    &&& final(self).left() == old(self).left()
                },
                None => {
                    &&& done == Ok::<(), SolverError>(())
                    &&& match *coords {
                        FromCellCoords::Up(cell) => {
                            &&& final(self).above() == old(self).above().update(
                                above_index(old(self).size(), cell),
                                wall,
                            )
                            &&& final(self).left() == old(self).left()
                        },
                        FromCellCoords::Left(cell) => {
                            &&& final(self).above() == old(self).above()
                            &&& final(self).left() == old(self).left().update(
                                left_index(old(self).size(), cell),
                                wall,
                            )
                        },
                    }
                },
            },
    {
        proof {
            use_type_invariant(&*self);
        }
        match coords {
            FromCellCoords::Up(cell) => {
                match self.get_above_wall_index(cell) {
                    Ok(index) => {
                        self.horizontal[index] = wall;
                    },
                    Err(e) => {
                        return Err(e);
                    },
                }
            },
            FromCellCoords::Left(cell) => {
                match self.get_left_wall_index(cell) {
                    Ok(index) => {
                        self.vertical[index] = wall;
                    },
                    Err(e) => {
                        return Err(e);
                    },
                }
            },
        };
        Ok(())
    }

    /// The place of the edge above `coords` in the storage of the edges above.
    fn get_above_wall_index(&self, coords: &Coords) -> (place: Result<usize, SolverError>)
        ensures
            match place {
                Ok(index) => {
                    &&& edge_error(self.size(), FromCellCoords::Up(*coords)) is None
                    &&& index == above_index(self.size(), *coords)
                    &&& index < self.horizontal@.len()
                },
                Err(e) => edge_error(self.size(), FromCellCoords::Up(*coords)) == Some(e),
            },
    {
        proof {
            use_type_invariant(self);
        }
        if coords.y == 0 {
            return Err(SolverError::InvalidEdgeReference);
        }
        assert(0 <= (coords.y - 1) * self.size <= 0xffff_ffff * 0xffff_ffff) by (nonlinear_arith)
            requires
                1 <= coords.y <= 0xffff_ffff,
                0 <= self.size <= 0xffff_ffff,
        ;
        let index: u64 = (coords.y - 1) as u64 * self.size as u64 + coords.x as u64;
        if index >= self.horizontal.len() as u64 {
            return Err(SolverError::OutOfBounds);
        }
        Ok(index as usize)
    }

    /// The place of the edge left of `coords` in the storage of the edges to the left.
    fn get_left_wall_index(&self, coords: &Coords) -> (place: Result<usize, SolverError>)
        ensures
            match place {
                Ok(index) => {
                    &&& edge_error(self.size(), FromCellCoords::Left(*coords)) is None
                    &&& index == left_index(self.size(), *coords)
                    &&& index < self.vertical@.len()
                },
                Err(e) => edge_error(self.size(), FromCellCoords::Left(*coords)) == Some(e),
            },
    {
        proof {
            use_type_invariant(self);
        }
        if coords.x == 0 {
            return Err(SolverError::InvalidEdgeReference);
        }
        assert(0 <= coords.y * (self.size - 1) <= 0xffff_ffff * 0xffff_ffff) by (nonlinear_arith)
            requires
                0 <= coords.y <= 0xffff_ffff,
                1 <= self.size <= 0xffff_ffff,
        ;
        let index: u64 = coords.y as u64 * (self.size - 1) as u64 + (coords.x - 1) as u64;
        if index >= self.vertical.len() as u64 {
            return Err(SolverError::OutOfBounds);
        }
        Ok(index as usize)
    }
}

} // verus!
