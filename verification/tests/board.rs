use rust_solver::board::coords::Coords;
use rust_solver::board::enums::cell::{Cell, CellCoords, FromCellCoords};
use rust_solver::board::enums::wall::{Wall, WallCoords};
use rust_solver::board::Board;
use rust_solver::error::SolverError;

const B: Cell = Cell::Black;
const W: Cell = Cell::White;
const E: Cell = Cell::Empty;

/// A board whose rows hold the given marks, without constraints.
fn board_of(rows: &[&[Cell]]) -> Board {
    let mut board = Board::new(rows.len() as u32);
    for (y, row) in rows.iter().enumerate() {
        for (x, cell) in row.iter().enumerate() {
            assert_eq!(board.set_cell(&Coords::new(x as u32, y as u32), *cell), Ok(()));
        }
    }
    board
}

fn with_wall(size: u32, edge: FromCellCoords, wall: Wall, marks: &[(u32, u32, Cell)]) -> Board {
    let marks = marks
        .iter()
        .map(|(x, y, cell)| CellCoords { coords: Coords::new(*x, *y), cell: *cell })
        .collect();
    Board::from_cells_and_walls(size, marks, vec![WallCoords { coords: edge, wall }]).unwrap()
}

#[test]
fn new_board_is_unmarked_and_legal_everywhere() {
    let board = Board::new(4);
    assert_eq!(board.cells(), &vec![E; 16]);
    for y in 0..4 {
        for x in 0..4 {
            assert_eq!(board.get_cell(&Coords::new(x, y)), Ok(E));
            assert_eq!(board.check_legal_cell(&Coords::new(x, y)), Ok(true));
        }
    }
}

#[test]
fn board_cells_are_read_and_written_by_position() {
    let mut board = Board::new(3);
    assert_eq!(board.set_cell(&Coords::new(1, 2), W), Ok(()));
    assert_eq!(board.get_cell(&Coords::new(1, 2)), Ok(W));
    assert_eq!(board.cells()[7], W);
    assert_eq!(board.set_cell(&Coords::new(0, 3), W), Err(SolverError::OutOfBounds));
    assert_eq!(board.get_cell(&Coords::new(0, 3)), Err(SolverError::OutOfBounds));
}

#[test]
fn building_fails_with_the_first_fault() {
    let outside = vec![CellCoords { coords: Coords::new(5, 5), cell: B }];
    let no_edge = vec![WallCoords { coords: FromCellCoords::Up(Coords::new(0, 0)), wall: Wall::Equals }];
    let far_edge = vec![WallCoords { coords: FromCellCoords::Left(Coords::new(1, 5)), wall: Wall::Equals }];
    assert!(matches!(
        Board::from_cells_and_walls(2, outside.clone(), no_edge.clone()),
        Err(SolverError::OutOfBounds)
    ));
    assert!(matches!(
        Board::from_cells_and_walls(2, vec![], no_edge),
        Err(SolverError::InvalidEdgeReference)
    ));
    assert!(matches!(
        Board::from_cells_and_walls(2, vec![], far_edge),
        Err(SolverError::OutOfBounds)
    ));
    assert!(Board::from_cells_and_walls(2, vec![], vec![]).is_ok());
}

#[test]
fn building_keeps_marks_and_constraints() {
    let board = with_wall(4, FromCellCoords::Up(Coords::new(1, 1)), Wall::Equals, &[(1, 0, B), (0, 1, W)]);
    assert_eq!(board.cells(), &vec![E, B, E, E, W, E, E, E, E, E, E, E, E, E, E, E]);
    let mut board = board;
    assert_eq!(board.set_cell(&Coords::new(1, 1), W), Ok(()));
    assert_eq!(board.check_legal_vertical(&Coords::new(1, 1)), Ok(false));
    assert_eq!(board.set_cell(&Coords::new(1, 1), B), Ok(()));
    assert_eq!(board.check_legal_vertical(&Coords::new(1, 1)), Ok(true));
}

#[test]
fn unmarked_cells_come_in_row_major_order() {
    let board = board_of(&[&[E, B], &[E, E]]);
    assert_eq!(
        board.get_empty_cells(),
        Ok(vec![Coords::new(0, 0), Coords::new(0, 1), Coords::new(1, 1)])
    );
    let full = board_of(&[&[W, B], &[B, W]]);
    assert_eq!(full.get_empty_cells(), Ok(vec![]));
    let empty = Board::new(1);
    assert_eq!(empty.get_empty_cells(), Ok(vec![Coords::new(0, 0)]));
}

#[test]
fn position_off_the_board_is_not_tested() {
    let board = Board::new(4);
    for coords in [Coords::new(4, 0), Coords::new(0, 4), Coords::new(7, 9), Coords::new(u32::MAX, 0)] {
        assert_eq!(board.check_legal_cell(&coords), Err(SolverError::OutOfBounds));
        assert_eq!(board.check_legal_horizontal(&coords), Err(SolverError::OutOfBounds));
        assert_eq!(board.check_legal_vertical(&coords), Err(SolverError::OutOfBounds));
    }
}

#[test]
fn edge_to_the_left_is_tested_against_an_unmarked_neighbour() {
    let edge = FromCellCoords::Left(Coords::new(1, 0));
    let equal = with_wall(4, edge, Wall::Equals, &[(1, 0, B)]);
    assert_eq!(equal.check_legal_cell(&Coords::new(1, 0)), Ok(false));
    let differ = with_wall(4, edge, Wall::NotEquals, &[(1, 0, B)]);
    assert_eq!(differ.check_legal_cell(&Coords::new(1, 0)), Ok(true));
    let free = with_wall(4, edge, Wall::Normal, &[(1, 0, B)]);
    assert_eq!(free.check_legal_cell(&Coords::new(1, 0)), Ok(true));
}

#[test]
fn edge_to_the_right_waits_for_a_marked_neighbour() {
    let edge = FromCellCoords::Left(Coords::new(1, 0));
    let equal = with_wall(4, edge, Wall::Equals, &[(0, 0, B)]);
    assert_eq!(equal.check_legal_cell(&Coords::new(0, 0)), Ok(true));
    let equal = with_wall(4, edge, Wall::Equals, &[(0, 0, B), (1, 0, W)]);
    assert_eq!(equal.check_legal_cell(&Coords::new(0, 0)), Ok(false));
    let equal = with_wall(4, edge, Wall::Equals, &[(0, 0, B), (1, 0, B)]);
    assert_eq!(equal.check_legal_cell(&Coords::new(0, 0)), Ok(true));
    let differ = with_wall(4, edge, Wall::NotEquals, &[(0, 0, B), (1, 0, B)]);
    assert_eq!(differ.check_legal_cell(&Coords::new(0, 0)), Ok(false));
    let differ = with_wall(4, edge, Wall::NotEquals, &[(0, 0, B), (1, 0, W)]);
    assert_eq!(differ.check_legal_cell(&Coords::new(0, 0)), Ok(true));
}

#[test]
fn edge_above_is_tested_against_an_unmarked_neighbour() {
    let edge = FromCellCoords::Up(Coords::new(2, 1));
    let equal = with_wall(4, edge, Wall::Equals, &[(2, 1, W)]);
    assert_eq!(equal.check_legal_cell(&Coords::new(2, 1)), Ok(false));
    assert_eq!(equal.check_legal_horizontal(&Coords::new(2, 1)), Ok(true));
    assert_eq!(equal.check_legal_vertical(&Coords::new(2, 1)), Ok(false));
    let differ = with_wall(4, edge, Wall::NotEquals, &[(2, 1, W)]);
    assert_eq!(differ.check_legal_cell(&Coords::new(2, 1)), Ok(true));
}

#[test]
fn edge_below_waits_for_a_marked_neighbour() {
    let edge = FromCellCoords::Up(Coords::new(2, 1));
    let equal = with_wall(4, edge, Wall::Equals, &[(2, 0, W)]);
    assert_eq!(equal.check_legal_cell(&Coords::new(2, 0)), Ok(true));
    let equal = with_wall(4, edge, Wall::Equals, &[(2, 0, W), (2, 1, B)]);
    assert_eq!(equal.check_legal_cell(&Coords::new(2, 0)), Ok(false));
    let differ = with_wall(4, edge, Wall::NotEquals, &[(2, 0, W), (2, 1, W)]);
    assert_eq!(differ.check_legal_cell(&Coords::new(2, 0)), Ok(false));
    let differ = with_wall(4, edge, Wall::NotEquals, &[(2, 0, W), (2, 1, B)]);
    assert_eq!(differ.check_legal_cell(&Coords::new(2, 0)), Ok(true));
}

#[test]
fn three_equal_marks_in_a_row_are_illegal() {
    let board = board_of(&[
        &[B, B, B, E, E, E],
        &[E, E, E, E, E, E],
        &[E, W, W, W, E, E],
        &[E, E, E, E, E, E],
        &[E, E, E, E, E, E],
        &[E, E, E, E, E, E],
    ]);
    for x in 0..6 {
        assert_eq!(board.check_legal_horizontal(&Coords::new(x, 0)), Ok(x > 2));
        assert_eq!(board.check_legal_horizontal(&Coords::new(x, 2)), Ok(x < 1 || x > 3));
    }
    assert_eq!(board.check_legal_vertical(&Coords::new(0, 0)), Ok(true));
}

#[test]
fn three_equal_marks_in_a_column_are_illegal() {
    let board = board_of(&[
        &[E, E, E, E, E, E],
        &[E, E, W, E, E, E],
        &[E, E, W, E, E, E],
        &[E, E, W, E, E, E],
        &[E, E, E, E, E, E],
        &[E, E, E, E, E, E],
    ]);
    for y in 0..6 {
        assert_eq!(board.check_legal_vertical(&Coords::new(2, y)), Ok(y < 1 || y > 3));
        assert_eq!(board.check_legal_cell(&Coords::new(2, y)), Ok(y < 1 || y > 3));
    }
    assert_eq!(board.check_legal_vertical(&Coords::new(1, 2)), Ok(true));
}

#[test]
fn two_equal_marks_and_unmarked_runs_are_legal() {
    let board = board_of(&[
        &[B, B, E, E, E, W],
        &[E, E, E, E, E, E],
        &[B, B, W, W, B, E],
        &[E, E, E, E, E, E],
        &[E, E, E, E, E, E],
        &[E, E, E, E, E, E],
    ]);
    for x in 0..6 {
        assert_eq!(board.check_legal_horizontal(&Coords::new(x, 0)), Ok(true));
        assert_eq!(board.check_legal_horizontal(&Coords::new(x, 1)), Ok(true));
        assert_eq!(board.check_legal_horizontal(&Coords::new(x, 2)), Ok(true));
    }
}

#[test]
fn run_more_than_two_places_away_is_not_seen() {
    let board = board_of(&[
        &[B, B, B, E, E, W],
        &[E, E, E, E, E, E],
        &[E, E, E, E, E, E],
        &[E, E, E, E, E, E],
        &[E, E, E, E, E, E],
        &[E, E, E, E, E, E],
    ]);
    assert_eq!(board.check_legal_cell(&Coords::new(5, 0)), Ok(true));
    assert_eq!(board.check_legal_cell(&Coords::new(3, 0)), Ok(true));
    assert_eq!(board.check_legal_cell(&Coords::new(2, 0)), Ok(false));
}

#[test]
fn too_many_of_one_mark_are_illegal_before_the_row_is_full() {
    let board = board_of(&[
        &[B, B, W, B, B, E],
        &[E, E, E, E, E, E],
        &[E, E, E, E, E, E],
        &[E, E, E, E, E, E],
        &[E, E, E, E, E, E],
        &[E, E, E, E, E, E],
    ]);
    assert_eq!(board.check_legal_horizontal(&Coords::new(4, 0)), Ok(false));
    assert_eq!(board.check_legal_horizontal(&Coords::new(5, 0)), Ok(false));
    assert_eq!(board.check_legal_vertical(&Coords::new(4, 0)), Ok(true));
}

#[test]
fn full_row_needs_equal_counts() {
    let balanced = board_of(&[&[B, W, W, B], &[E, E, E, E], &[E, E, E, E], &[E, E, E, E]]);
    let black_heavy = board_of(&[&[B, B, W, B], &[E, E, E, E], &[E, E, E, E], &[E, E, E, E]]);
    let white_heavy = board_of(&[&[W, B, W, W], &[E, E, E, E], &[E, E, E, E], &[E, E, E, E]]);
    for x in 0..4 {
        assert_eq!(balanced.check_legal_cell(&Coords::new(x, 0)), Ok(true));
        assert_eq!(black_heavy.check_legal_cell(&Coords::new(x, 0)), Ok(false));
        assert_eq!(white_heavy.check_legal_cell(&Coords::new(x, 0)), Ok(false));
    }
}

#[test]
fn full_column_needs_equal_counts() {
    let board = board_of(&[&[B, W, E, E], &[W, W, E, E], &[B, B, E, E], &[W, W, E, E]]);
    for y in 0..4 {
        assert_eq!(board.check_legal_vertical(&Coords::new(0, y)), Ok(true));
        assert_eq!(board.check_legal_vertical(&Coords::new(1, y)), Ok(false));
    }
}

#[test]
fn full_line_of_odd_length_is_never_legal() {
    let board = board_of(&[&[B, W, B], &[E, E, E], &[E, E, E]]);
    for x in 0..3 {
        assert_eq!(board.check_legal_horizontal(&Coords::new(x, 0)), Ok(false));
    }
    let board = board_of(&[&[B, W, E], &[E, E, E], &[E, E, E]]);
    for x in 0..3 {
        assert_eq!(board.check_legal_horizontal(&Coords::new(x, 0)), Ok(true));
    }
}

#[test]
fn marks_behind_an_unmarked_cell_are_counted() {
    let board = board_of(&[&[B, E, B, B], &[E, E, E, E], &[E, E, E, E], &[E, E, E, E]]);
    for x in 0..4 {
        assert_eq!(board.check_legal_horizontal(&Coords::new(x, 0)), Ok(false));
        assert_eq!(board.check_legal_cell(&Coords::new(x, 0)), Ok(false));
    }
    let board = board_of(&[&[E, W, E, E], &[E, E, E, E], &[E, W, E, E], &[E, W, E, E]]);
    for y in 0..4 {
        assert_eq!(board.check_legal_vertical(&Coords::new(1, y)), Ok(false));
        assert_eq!(board.check_legal_horizontal(&Coords::new(1, y)), Ok(true));
    }
    let board = board_of(&[&[B, E, E, B], &[E, E, E, E], &[E, E, E, E], &[E, E, E, E]]);
    for x in 0..4 {
        assert_eq!(board.check_legal_cell(&Coords::new(x, 0)), Ok(true));
    }
}

#[test]
fn three_black_marks_around_a_gap_make_a_row_of_four_illegal() {
    let marks = vec![
        CellCoords { coords: Coords::new(0, 0), cell: B },
        CellCoords { coords: Coords::new(2, 0), cell: B },
        CellCoords { coords: Coords::new(3, 0), cell: B },
    ];
    let board = Board::from_cells_and_walls(4, marks, vec![]).unwrap();
    assert_eq!(board.get_cell(&Coords::new(1, 0)), Ok(E));
    assert_eq!(board.check_legal_horizontal(&Coords::new(3, 0)), Ok(false));
}

#[test]
fn text_shows_one_row_on_each_line() {
    let board = board_of(&[&[B, E], &[E, W]]);
    assert_eq!(board.to_text(), "B . \n. W \n");
    assert_eq!(Board::new(1).to_text(), ". \n");
    let board = board_of(&[&[W, W, B], &[E, E, E], &[B, E, W]]);
    assert_eq!(board.to_text(), "W W B \n. . . \nB . W \n");
}

#[test]
fn error_messages_name_the_fault() {
    assert_eq!(SolverError::OutOfBounds.message(), "Index out of bounds");
    assert_eq!(SolverError::NoSolution.message(), "No solution found");
    assert_eq!(
        SolverError::InvalidEdgeReference.message(),
        "No wall above the top row or left of the first column"
    );
}
