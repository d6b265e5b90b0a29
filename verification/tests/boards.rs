use sudoku_solver::board::{
    digit_text, in_same_unit, is_valid_grid, is_well_formed, validate, MalformedInput, BLANK,
    BOARD_SIZE, CELL_COUNT,
};
use sudoku_solver::sudoku::Pos;

const SOLVED: &str =
    "534678912672195348198342567859761423426853791713924856961537284287419635345286179";

fn digits(solved: &str) -> Vec<u8> {
    solved.bytes().map(|b| b - b'0').collect()
}

#[test]
fn board_constants() {
    assert_eq!(BOARD_SIZE, 9);
    assert_eq!(sudoku_solver::sudoku::BOARD_SIZE, 9);
    assert_eq!(CELL_COUNT, 81);
    assert_eq!(BLANK, b'.');
}

#[test]
fn positions_count_row_by_row() {
    let p = Pos::new(3, 4);
    assert_eq!(p.x(), 3);
    assert_eq!(p.y(), 4);
    assert_eq!(p.index(), 39);
    assert_eq!(Pos::new(0, 0).index(), 0);
    assert_eq!(Pos::new(8, 8).index(), 80);
    assert_eq!(Pos::new(8, 0).index(), 8);
    assert_eq!(Pos::new(0, 8).index(), 72);
    assert_eq!(Pos::new(2, 7), Pos::new(2, 7));
    assert_ne!(Pos::new(2, 7), Pos::new(7, 2));
}

#[test]
fn well_formed_boards_pass() {
    assert_eq!(validate(&vec![b'.'; 81]), Ok(()));
    assert_eq!(validate(&SOLVED.as_bytes().to_vec()), Ok(()));
    assert!(is_well_formed(&SOLVED.as_bytes().to_vec()));
    let mut raw = vec![b'.'; 81];
    raw[0] = b'1';
    raw[80] = b'9';
    assert!(is_well_formed(&raw));
}

#[test]
fn wrong_lengths_are_named() {
    assert_eq!(validate(&Vec::new()), Err(MalformedInput::WrongLength));
    assert_eq!(validate(&vec![b'.'; 80]), Err(MalformedInput::WrongLength));
    assert_eq!(validate(&vec![b'.'; 82]), Err(MalformedInput::WrongLength));
    assert_eq!(validate(&vec![b'x'; 5]), Err(MalformedInput::WrongLength));
    assert!(!is_well_formed(&vec![b'.'; 80]));
}

#[test]
fn bad_symbols_are_named() {
    for bad in [b'0', b'/', b':', b'a', b' ', b'\n', 0u8, 255u8] {
        for at in [0usize, 40, 80] {
            let mut raw = vec![b'.'; 81];
            raw[at] = bad;
            assert_eq!(validate(&raw), Err(MalformedInput::BadSymbol));
            assert!(!is_well_formed(&raw));
        }
    }
}

#[test]
fn units_are_rows_columns_and_blocks() {
    assert!(in_same_unit(0, 8));
    assert!(in_same_unit(0, 72));
    assert!(in_same_unit(0, 20));
    assert!(in_same_unit(30, 50));
    assert!(in_same_unit(60, 80));
    assert!(in_same_unit(7, 7));
    assert!(!in_same_unit(0, 40));
    assert!(!in_same_unit(8, 9));
    assert!(!in_same_unit(20, 30));
    assert!(!in_same_unit(26, 27));
    assert!(!in_same_unit(2, 12));
    for i in 0..81usize {
        for j in 0..81usize {
            let same = i / 9 == j / 9
                || i % 9 == j % 9
                || (i / 27 == j / 27 && (i % 9) / 3 == (j % 9) / 3);
            assert_eq!(in_same_unit(i, j), same);
            assert_eq!(in_same_unit(i, j), in_same_unit(j, i));
        }
    }
}

#[test]
fn completed_grids_are_recognised() {
    assert!(is_valid_grid(&digits(SOLVED)));
    let shifted: Vec<u8> = (0..81usize)
        .map(|i| ((3 * ((i / 9) % 3) + (i / 9) / 3 + i % 9) % 9 + 1) as u8)
        .collect();
    assert!(is_valid_grid(&shifted));
}

#[test]
fn faulty_grids_are_turned_down() {
    assert!(!is_valid_grid(&Vec::new()));
    assert!(!is_valid_grid(&digits(SOLVED)[0..80].to_vec()));
    assert!(!is_valid_grid(&vec![1u8; 81]));
    let mut grid = digits(SOLVED);
    grid[80] = 0;
    assert!(!is_valid_grid(&grid));
    grid[80] = 10;
    assert!(!is_valid_grid(&grid));
    let mut grid = digits(SOLVED);
    grid.swap(0, 1);
    assert!(!is_valid_grid(&grid));
    let mut grid = digits(SOLVED);
    grid[80] = grid[79];
    assert!(!is_valid_grid(&grid));
    let rows_only: Vec<u8> = (0..81usize).map(|i| (i % 9 + 1) as u8).collect();
    assert!(!is_valid_grid(&rows_only));
    let no_blocks: Vec<u8> = (0..81usize).map(|i| ((i / 9 + i % 9) % 9 + 1) as u8).collect();
    assert!(!is_valid_grid(&no_blocks));
}

#[test]
fn digits_as_text() {
    let all: Vec<&str> = (0..10u8).map(digit_text).collect();
    assert_eq!(all, vec!["0", "1", "2", "3", "4", "5", "6", "7", "8", "9"]);
}
