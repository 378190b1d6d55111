use rust_solver::board::coords::Coords;
use rust_solver::board::enums::cell::{Cell, FromCellCoords};
use rust_solver::board::enums::wall::{Wall, WallCoords};
use rust_solver::board::walls::Walls;
use rust_solver::error::SolverError;

#[test]
fn wall_rules_follow_their_table() {
    let marks = [Cell::Empty, Cell::Black, Cell::White];
    for a in marks {
        for b in marks {
            assert!(Wall::Normal.check_cells(&a, &b));
            assert_eq!(Wall::Equals.check_cells(&a, &b), a == b);
            assert_eq!(Wall::NotEquals.check_cells(&a, &b), a != b);
        }
    }
}

#[test]
fn wall_rules_do_not_depend_on_the_side() {
    let marks = [Cell::Empty, Cell::Black, Cell::White];
    for wall in [Wall::Normal, Wall::Equals, Wall::NotEquals] {
        for a in marks {
            for b in marks {
                assert_eq!(wall.check_cells(&a, &b), wall.check_cells(&b, &a));
            }
        }
    }
}

#[test]
fn wall_entry_hands_out_its_parts() {
    let entry = WallCoords { coords: FromCellCoords::Up(Coords::new(1, 2)), wall: Wall::Equals };
    assert_eq!(*entry.coords(), FromCellCoords::Up(Coords::new(1, 2)));
    assert_eq!(*entry.wall(), Wall::Equals);
}

#[test]
fn new_walls_put_no_constraint() {
    let walls = Walls::new(3);
    for y in 0..3 {
        for x in 0..3 {
            if y > 0 {
                assert_eq!(walls.get_wall(&FromCellCoords::Up(Coords::new(x, y))), Ok(Wall::Normal));
            }
            if x > 0 {
                assert_eq!(walls.get_wall(&FromCellCoords::Left(Coords::new(x, y))), Ok(Wall::Normal));
            }
        }
    }
}

#[test]
fn no_edge_above_the_top_row_or_left_of_the_first_column() {
    for size in 1u32..=6 {
        let mut walls = Walls::new(size);
        for i in 0..size + 2 {
            let up = FromCellCoords::Up(Coords::new(i, 0));
            let left = FromCellCoords::Left(Coords::new(0, i));
            assert_eq!(walls.get_wall(&up), Err(SolverError::InvalidEdgeReference));
            assert_eq!(walls.get_wall(&left), Err(SolverError::InvalidEdgeReference));
            assert_eq!(walls.set_wall(&up, Wall::Equals), Err(SolverError::InvalidEdgeReference));
            assert_eq!(walls.set_wall(&left, Wall::Equals), Err(SolverError::InvalidEdgeReference));
        }
    }
}

#[test]
fn each_edge_keeps_its_own_constraint() {
    let size = 4u32;
    let mut walls = Walls::new(size);
    let kinds = [Wall::Equals, Wall::NotEquals, Wall::Normal];
    let kind = |x: u32, y: u32, up: bool| kinds[((x + 2 * y + if up { 1 } else { 0 }) % 3) as usize];
    for y in 0..size {
        for x in 0..size {
            if y > 0 {
                assert_eq!(walls.set_wall(&FromCellCoords::Up(Coords::new(x, y)), kind(x, y, true)), Ok(()));
            }
            if x > 0 {
                assert_eq!(walls.set_wall(&FromCellCoords::Left(Coords::new(x, y)), kind(x, y, false)), Ok(()));
            }
        }
    }
    for y in 0..size {
        for x in 0..size {
            if y > 0 {
                assert_eq!(walls.get_wall(&FromCellCoords::Up(Coords::new(x, y))), Ok(kind(x, y, true)));
            }
            if x > 0 {
                assert_eq!(walls.get_wall(&FromCellCoords::Left(Coords::new(x, y))), Ok(kind(x, y, false)));
            }
        }
    }
}

#[test]
fn edge_behind_the_storage_is_out_of_bounds() {
    let mut walls = Walls::new(3);
    assert_eq!(walls.get_wall(&FromCellCoords::Up(Coords::new(0, 3))), Err(SolverError::OutOfBounds));
    assert_eq!(walls.get_wall(&FromCellCoords::Left(Coords::new(1, 3))), Err(SolverError::OutOfBounds));
    assert_eq!(
        walls.set_wall(&FromCellCoords::Up(Coords::new(2, 3)), Wall::Equals),
        Err(SolverError::OutOfBounds)
    );
    let mut single = Walls::new(1);
    assert_eq!(single.get_wall(&FromCellCoords::Up(Coords::new(0, 1))), Err(SolverError::OutOfBounds));
    assert_eq!(
        single.set_wall(&FromCellCoords::Left(Coords::new(1, 0)), Wall::Equals),
        Err(SolverError::OutOfBounds)
    );
}

#[test]
fn left_edges_are_stored_in_rows_one_shorter_than_the_grid() {
    // On a grid of three columns the edge left of column 3 in row 0 takes
    // the place of the edge left of column 1 in row 1.
    let mut walls = Walls::new(3);
    assert_eq!(walls.set_wall(&FromCellCoords::Left(Coords::new(3, 0)), Wall::Equals), Ok(()));
    assert_eq!(walls.get_wall(&FromCellCoords::Left(Coords::new(1, 1))), Ok(Wall::Equals));
    assert_eq!(walls.get_wall(&FromCellCoords::Left(Coords::new(2, 0))), Ok(Wall::Normal));
    assert_eq!(walls.get_wall(&FromCellCoords::Up(Coords::new(1, 1))), Ok(Wall::Normal));
}

#[test]
fn from_walls_writes_the_constraints_in_order() {
    let entries = vec![
        WallCoords { coords: FromCellCoords::Up(Coords::new(1, 1)), wall: Wall::Equals },
        WallCoords { coords: FromCellCoords::Left(Coords::new(1, 1)), wall: Wall::NotEquals },
        WallCoords { coords: FromCellCoords::Up(Coords::new(1, 1)), wall: Wall::NotEquals },
    ];
    let walls = Walls::from_walls(2, entries).unwrap();
    assert_eq!(walls.get_wall(&FromCellCoords::Up(Coords::new(1, 1))), Ok(Wall::NotEquals));
    assert_eq!(walls.get_wall(&FromCellCoords::Left(Coords::new(1, 1))), Ok(Wall::NotEquals));
    assert_eq!(walls.get_wall(&FromCellCoords::Up(Coords::new(0, 1))), Ok(Wall::Normal));
    assert_eq!(walls.get_wall(&FromCellCoords::Left(Coords::new(1, 0))), Ok(Wall::Normal));
}

#[test]
fn from_walls_fails_with_the_first_fault() {
    let entries = vec![
        WallCoords { coords: FromCellCoords::Left(Coords::new(1, 0)), wall: Wall::Equals },
        WallCoords { coords: FromCellCoords::Left(Coords::new(1, 5)), wall: Wall::Equals },
        WallCoords { coords: FromCellCoords::Up(Coords::new(0, 0)), wall: Wall::Equals },
    ];
    assert!(matches!(Walls::from_walls(2, entries), Err(SolverError::OutOfBounds)));
    let entries = vec![
        WallCoords { coords: FromCellCoords::Up(Coords::new(0, 0)), wall: Wall::Equals },
        WallCoords { coords: FromCellCoords::Left(Coords::new(1, 5)), wall: Wall::Equals },
    ];
    assert!(matches!(Walls::from_walls(2, entries), Err(SolverError::InvalidEdgeReference)));
}

#[test]
fn above_edges_are_stored_in_rows_as_long_as_the_grid() {
    // On a grid of three columns the edge above column 3 in row 1 takes the
    // place of the edge above column 0 in row 2.
    let mut walls = Walls::new(3);
    assert_eq!(walls.set_wall(&FromCellCoords::Up(Coords::new(3, 1)), Wall::NotEquals), Ok(()));
    assert_eq!(walls.get_wall(&FromCellCoords::Up(Coords::new(0, 2))), Ok(Wall::NotEquals));
    assert_eq!(walls.get_wall(&FromCellCoords::Up(Coords::new(2, 1))), Ok(Wall::Normal));
    assert_eq!(walls.get_wall(&FromCellCoords::Left(Coords::new(1, 1))), Ok(Wall::Normal));
}
