use rust_solver::board::coords::Coords;
use rust_solver::board::enums::cell::{Cell, CellCoords, FromCellCoords};
use rust_solver::board::enums::wall::{Wall, WallCoords};
use rust_solver::board::Board;
use rust_solver::error::SolverError;
use rust_solver::solve::solve;

fn mark(x: u32, y: u32, cell: Cell) -> CellCoords {
    CellCoords { coords: Coords::new(x, y), cell }
}

fn row(board: &Board, size: usize, y: usize) -> Vec<Cell> {
    board.cells()[y * size..(y + 1) * size].to_vec()
}

fn column(board: &Board, size: usize, x: usize) -> Vec<Cell> {
    (0..size).map(|y| board.cells()[y * size + x]).collect()
}

fn has_run(line: &[Cell]) -> bool {
    line.windows(3).any(|w| w[0] != Cell::Empty && w[0] == w[1] && w[1] == w[2])
}

fn count(line: &[Cell], cell: Cell) -> usize {
    line.iter().filter(|c| **c == cell).count()
}

#[test]
fn empty_four_by_four_board_is_solved() {
    let mut board = Board::new(4);
    assert_eq!(solve(&mut board), Ok(()));
    for i in 0..4 {
        for line in [row(&board, 4, i), column(&board, 4, i)] {
            assert!(!has_run(&line));
            assert_eq!(count(&line, Cell::Empty), 0);
            assert_eq!(count(&line, Cell::Black), 2);
            assert_eq!(count(&line, Cell::White), 2);
        }
    }
    for y in 0..4 {
        for x in 0..4 {
            assert_eq!(board.check_legal_cell(&Coords::new(x, y)), Ok(true));
        }
    }
}

#[test]
fn empty_four_by_four_board_gets_the_first_solution() {
    let mut board = Board::new(4);
    assert_eq!(solve(&mut board), Ok(()));
    let b = Cell::Black;
    let w = Cell::White;
    let expected = vec![b, b, w, w, b, b, w, w, w, w, b, b, w, w, b, b];
    assert_eq!(board.cells(), &expected);
}

#[test]
fn unbalanced_fixed_row_has_no_solution() {
    let marks = vec![
        mark(0, 0, Cell::Black),
        mark(1, 0, Cell::Black),
        mark(2, 0, Cell::White),
        mark(3, 0, Cell::Black),
    ];
    let mut board = Board::from_cells_and_walls(4, marks, vec![]).unwrap();
    for x in 0..4 {
        assert_eq!(board.check_legal_cell(&Coords::new(x, 0)), Ok(false));
    }
    assert_eq!(solve(&mut board), Err(SolverError::NoSolution));
    assert_eq!(
        row(&board, 4, 0),
        vec![Cell::Black, Cell::Black, Cell::White, Cell::Black]
    );
}

#[test]
fn must_differ_edge_forces_the_other_mark() {
    let marks = vec![mark(0, 0, Cell::Black)];
    let walls = vec![WallCoords {
        coords: FromCellCoords::Left(Coords::new(1, 0)),
        wall: Wall::NotEquals,
    }];
    let mut board = Board::from_cells_and_walls(2, marks, walls).unwrap();
    assert_eq!(solve(&mut board), Ok(()));
    assert_eq!(board.get_cell(&Coords::new(0, 0)), Ok(Cell::Black));
    assert_eq!(board.get_cell(&Coords::new(1, 0)), Ok(Cell::White));
    assert_eq!(
        board.cells(),
        &vec![Cell::Black, Cell::White, Cell::White, Cell::Black]
    );
}

#[test]
fn two_by_two_board_gets_the_first_solution() {
    let mut board = Board::new(2);
    assert_eq!(solve(&mut board), Ok(()));
    assert_eq!(
        board.cells(),
        &vec![Cell::Black, Cell::White, Cell::White, Cell::Black]
    );
}

#[test]
fn six_by_six_board_is_solved() {
    let mut board = Board::new(6);
    assert_eq!(solve(&mut board), Ok(()));
    for i in 0..6 {
        for line in [row(&board, 6, i), column(&board, 6, i)] {
            assert!(!has_run(&line));
            assert_eq!(count(&line, Cell::Black), 3);
            assert_eq!(count(&line, Cell::White), 3);
        }
    }
}

#[test]
fn board_of_one_cell_has_no_solution() {
    let mut board = Board::new(1);
    assert_eq!(solve(&mut board), Err(SolverError::NoSolution));
    assert_eq!(board.cells(), &vec![Cell::White]);
}

#[test]
fn board_of_odd_size_has_no_solution() {
    let mut board = Board::new(3);
    assert_eq!(solve(&mut board), Err(SolverError::NoSolution));
}

#[test]
fn failed_search_leaves_white_on_the_first_unmarked_cell() {
    let marks = vec![mark(0, 0, Cell::Black), mark(2, 1, Cell::White)];
    let mut board = Board::from_cells_and_walls(3, marks, vec![]).unwrap();
    assert_eq!(solve(&mut board), Err(SolverError::NoSolution));
    let e = Cell::Empty;
    assert_eq!(
        board.cells(),
        &vec![Cell::Black, Cell::White, e, e, e, Cell::White, e, e, e]
    );
}

#[test]
fn fully_marked_board_is_left_as_it_is() {
    let marks = vec![
        mark(0, 0, Cell::Black),
        mark(1, 0, Cell::Black),
        mark(0, 1, Cell::Black),
        mark(1, 1, Cell::Black),
    ];
    let mut board = Board::from_cells_and_walls(2, marks, vec![]).unwrap();
    assert_eq!(solve(&mut board), Ok(()));
    assert_eq!(board.cells(), &vec![Cell::Black; 4]);
}

#[test]
fn fixed_marks_are_kept() {
    let marks = vec![mark(0, 0, Cell::White), mark(3, 2, Cell::Black), mark(1, 3, Cell::White)];
    let mut board = Board::from_cells_and_walls(4, marks, vec![]).unwrap();
    assert_eq!(solve(&mut board), Ok(()));
    assert_eq!(board.get_cell(&Coords::new(0, 0)), Ok(Cell::White));
    assert_eq!(board.get_cell(&Coords::new(3, 2)), Ok(Cell::Black));
    assert_eq!(board.get_cell(&Coords::new(1, 3)), Ok(Cell::White));
    for y in 0..4 {
        for x in 0..4 {
            assert_eq!(board.check_legal_cell(&Coords::new(x, y)), Ok(true));
        }
    }
}

#[test]
fn edges_hold_in_the_solution() {
    let walls = vec![
        WallCoords { coords: FromCellCoords::Up(Coords::new(0, 1)), wall: Wall::Equals },
        WallCoords { coords: FromCellCoords::Left(Coords::new(2, 2)), wall: Wall::Equals },
        WallCoords { coords: FromCellCoords::Left(Coords::new(3, 3)), wall: Wall::NotEquals },
        WallCoords { coords: FromCellCoords::Up(Coords::new(3, 1)), wall: Wall::NotEquals },
    ];
    let mut board = Board::from_cells_and_walls(4, vec![], walls).unwrap();
    assert_eq!(solve(&mut board), Ok(()));
    let at = |x: u32, y: u32| board.get_cell(&Coords::new(x, y)).unwrap();
    assert_eq!(at(0, 0), at(0, 1));
    assert_eq!(at(1, 2), at(2, 2));
    assert_ne!(at(2, 3), at(3, 3));
    assert_ne!(at(3, 0), at(3, 1));
    for i in 0..4 {
        for line in [row(&board, 4, i), column(&board, 4, i)] {
            assert!(!has_run(&line));
            assert_eq!(count(&line, Cell::Black), 2);
            assert_eq!(count(&line, Cell::White), 2);
        }
    }
}

#[test]
fn contradicting_edges_have_no_solution() {
    let walls = vec![
        WallCoords { coords: FromCellCoords::Left(Coords::new(1, 0)), wall: Wall::Equals },
    ];
    let mut board = Board::from_cells_and_walls(2, vec![], walls).unwrap();
    assert_eq!(solve(&mut board), Err(SolverError::NoSolution));
    assert_eq!(
        board.cells(),
        &vec![Cell::White, Cell::Empty, Cell::Empty, Cell::Empty]
    );
}

#[test]
fn run_among_fixed_marks_is_not_mended() {
    let fixed = [
        Cell::Black,
        Cell::Black,
        Cell::Black,
        Cell::White,
        Cell::White,
        Cell::White,
    ];
    let marks = (0..6).map(|x| mark(x, 0, fixed[x as usize])).collect();
    let mut board = Board::from_cells_and_walls(6, marks, vec![]).unwrap();
    assert_eq!(solve(&mut board), Ok(()));
    assert_eq!(row(&board, 6, 0), fixed.to_vec());
    assert!(has_run(&row(&board, 6, 0)));
    for y in 1..6 {
        assert!(!has_run(&row(&board, 6, y)));
        assert_eq!(count(&row(&board, 6, y), Cell::Black), 3);
        assert_eq!(count(&row(&board, 6, y), Cell::White), 3);
    }
    for x in 0..6 {
        assert!(!has_run(&column(&board, 6, x)));
        assert_eq!(count(&column(&board, 6, x), Cell::Black), 3);
    }
}
