use sudoku_solver::board::{is_valid_grid, MalformedInput};
use sudoku_solver::display::{
    from_model, read_values, render, view_from_model, view_from_values, CellView,
};
use sudoku_solver::engine::Verdict;
use sudoku_solver::sudoku::{settle, solve, Model, Outcome, Pos};

const CLASSIC: &str =
    "53..7....6..195....98....6.8...6...34..8.3..17...2...6.6....28....419..5....8..79";

const CLASSIC_SOLVED: &str =
    "534678912672195348198342567859761423426853791713924856961537284287419635345286179";

fn bytes(raw: &str) -> Vec<u8> {
    raw.as_bytes().to_vec()
}

fn numbers(solved: &str) -> Vec<i64> {
    solved.bytes().map(|b| (b - b'0') as i64).collect()
}

fn solved_view(raw: &[u8]) -> Option<Vec<CellView>> {
    let cfg = z3::Config::new();
    let ctx = z3::Context::new(&cfg);
    let board = Model::new(&ctx, &raw.to_vec()).expect("a well-formed board");
    let view = match solve(&board) {
        Outcome::Satisfiable(found) => view_from_model(&board, &found),
        _ => None,
    };
    view
}

fn is_unsatisfiable(raw: &[u8]) -> bool {
    let cfg = z3::Config::new();
    let ctx = z3::Context::new(&cfg);
    let board = Model::new(&ctx, &raw.to_vec()).expect("a well-formed board");
    let outcome = solve(&board);
    matches!(outcome, Outcome::Unsatisfiable)
}

fn digits_text(view: &[CellView]) -> String {
    view.iter().map(|c| format!("{}", c.0)).collect()
}

#[test]
fn classic_board_has_its_known_solution() {
    let view = solved_view(CLASSIC.as_bytes()).expect("the classic board is solvable");
    assert_eq!(view.len(), 81);
    let digits = digits_text(&view);
    assert_eq!(&digits[0..9], "534678912");
    assert_eq!(digits, CLASSIC_SOLVED);
    let plain: Vec<u8> = view.iter().map(|c| c.0).collect();
    assert!(is_valid_grid(&plain));
    for (i, b) in CLASSIC.bytes().enumerate() {
        assert_eq!(view[i].1, b != b'.');
    }
}

#[test]
fn blank_board_admits_a_solution_with_digits_in_range() {
    let cfg = z3::Config::new();
    let ctx = z3::Context::new(&cfg);
    let blank = Model::new(&ctx, &vec![b'.'; 81]).expect("a well-formed board");
    let shifted: Vec<i64> = (0..81usize)
        .map(|i| ((3 * ((i / 9) % 3) + (i / 9) / 3 + i % 9) % 9 + 1) as i64)
        .collect();
    let view = view_from_values(&blank, &shifted).expect("a completed grid");
    assert_eq!(view.len(), 81);
    assert!(view.iter().all(|c| 1 <= c.0 && c.0 <= 9));
    assert!(view.iter().all(|c| !c.1));
    assert_eq!(&digits_text(&view)[0..18], "123456789456789123");
}

#[test]
fn solved_rows_columns_and_blocks_hold_each_digit_once() {
    let view = solved_view(CLASSIC.as_bytes()).expect("the classic board is solvable");
    let at = |x: usize, y: usize| view[y * 9 + x].0;
    for u in 0..9 {
        let mut row: Vec<u8> = (0..9).map(|x| at(x, u)).collect();
        let mut col: Vec<u8> = (0..9).map(|y| at(u, y)).collect();
        let mut cube: Vec<u8> =
            (0..9).map(|k| at((u % 3) * 3 + k % 3, (u / 3) * 3 + k / 3)).collect();
        row.sort();
        col.sort();
        cube.sort();
        assert_eq!(row, vec![1, 2, 3, 4, 5, 6, 7, 8, 9]);
        assert_eq!(col, vec![1, 2, 3, 4, 5, 6, 7, 8, 9]);
        assert_eq!(cube, vec![1, 2, 3, 4, 5, 6, 7, 8, 9]);
    }
}

#[test]
fn given_cells_keep_their_clue() {
    let view = solved_view(CLASSIC.as_bytes()).expect("the classic board is solvable");
    for (i, b) in CLASSIC.bytes().enumerate() {
        if b != b'.' {
            assert_eq!(view[i], CellView(b - b'0', true));
        } else {
            assert!(!view[i].1);
        }
    }
}

#[test]
fn decoding_twice_gives_the_same_view() {
    let cfg = z3::Config::new();
    let ctx = z3::Context::new(&cfg);
    let board = Model::new(&ctx, &bytes(CLASSIC)).expect("a well-formed board");
    let outcome = solve(&board);
    match &outcome {
        Outcome::Satisfiable(found) => {
            let first = view_from_model(&board, found);
            let second = view_from_model(&board, found);
            assert!(first.is_some());
            assert_eq!(first, second);
            assert_eq!(from_model(&board, found), from_model(&board, found));
            assert_eq!(read_values(&board, found), Some(numbers(CLASSIC_SOLVED)));
        }
        _ => panic!("the classic board is solvable"),
    }
}

#[test]
fn two_equal_clues_in_a_row_are_unsatisfiable() {
    let mut raw = vec![b'.'; 81];
    raw[0] = b'5';
    raw[4] = b'5';
    assert!(is_unsatisfiable(&raw));
}

#[test]
fn equal_clues_at_the_ends_of_a_row_are_unsatisfiable() {
    let mut raw = vec![b'.'; 81];
    raw[27] = b'7';
    raw[35] = b'7';
    assert!(is_unsatisfiable(&raw));
}

#[test]
fn two_equal_clues_in_a_column_are_unsatisfiable() {
    let mut raw = vec![b'.'; 81];
    raw[2] = b'3';
    raw[74] = b'3';
    assert!(is_unsatisfiable(&raw));
}

#[test]
fn two_equal_clues_in_a_block_are_unsatisfiable() {
    let mut raw = vec![b'.'; 81];
    raw[30] = b'9';
    raw[50] = b'9';
    assert!(is_unsatisfiable(&raw));
}

#[test]
fn open_cells_of_a_nearly_full_board_are_filled_in() {
    let mut raw = bytes(CLASSIC_SOLVED);
    for at in [0usize, 1, 2, 9, 10, 11, 40, 44, 76, 80] {
        raw[at] = b'.';
    }
    let view = solved_view(&raw).expect("the board is solvable");
    assert_eq!(digits_text(&view), CLASSIC_SOLVED);
    for at in 0..81usize {
        assert_eq!(view[at].1, raw[at] != b'.');
    }
}

#[test]
fn fully_given_board_decodes_to_itself() {
    let view = solved_view(CLASSIC_SOLVED.as_bytes()).expect("a completed grid solves itself");
    assert!(view.iter().all(|c| c.1));
    assert_eq!(digits_text(&view), CLASSIC_SOLVED);
}

#[test]
fn malformed_boards_never_become_a_model() {
    let cfg = z3::Config::new();
    let ctx = z3::Context::new(&cfg);
    assert_eq!(Model::new(&ctx, &vec![b'.'; 80]).err(), Some(MalformedInput::WrongLength));
    assert_eq!(Model::new(&ctx, &vec![b'.'; 82]).err(), Some(MalformedInput::WrongLength));
    assert_eq!(Model::new(&ctx, &Vec::new()).err(), Some(MalformedInput::WrongLength));
    for bad in [b'0', b'a', b' ', b'/', b':', 0u8, 200u8] {
        let mut raw = bytes(CLASSIC);
        raw[80] = bad;
        assert_eq!(Model::new(&ctx, &raw).err(), Some(MalformedInput::BadSymbol));
    }
    assert!(Model::new(&ctx, &bytes(CLASSIC)).is_ok());
}

#[test]
fn model_cells_tell_clues_from_open_cells() {
    let cfg = z3::Config::new();
    let ctx = z3::Context::new(&cfg);
    let board = Model::new(&ctx, &bytes(CLASSIC)).expect("a well-formed board");
    assert!(board.cell(Pos::new(0, 0)).is_solution());
    assert_eq!(board.cell(Pos::new(0, 0)).get_value().as_i64(), Some(5));
    assert_eq!(board.cell(Pos::new(4, 0)).get_value().as_i64(), Some(7));
    assert!(!board.cell(Pos::new(2, 0)).is_solution());
    assert_eq!(board.cell(Pos::new(2, 0)).get_value().as_i64(), None);
    assert!(board.cell(Pos::new(8, 8)).is_solution());
    assert_eq!(board.cell(Pos::new(8, 8)).get_value().as_i64(), Some(9));
    let name = format!("{:?}", board.cell(Pos::new(2, 5)).get_value());
    assert!(name.starts_with("value_x2_y5"));
}

#[test]
fn values_that_solve_the_puzzle_are_shown() {
    let cfg = z3::Config::new();
    let ctx = z3::Context::new(&cfg);
    let board = Model::new(&ctx, &bytes(CLASSIC)).expect("a well-formed board");
    let view = view_from_values(&board, &numbers(CLASSIC_SOLVED)).expect("the known solution");
    assert_eq!(digits_text(&view), CLASSIC_SOLVED);
    assert_eq!(view[0], CellView(5, true));
    assert_eq!(view[2], CellView(4, false));
    assert!(render(view.clone()).contains(" 4 "));
}

#[test]
fn values_that_do_not_solve_the_puzzle_are_not_shown() {
    let cfg = z3::Config::new();
    let ctx = z3::Context::new(&cfg);
    let board = Model::new(&ctx, &bytes(CLASSIC)).expect("a well-formed board");
    let good = numbers(CLASSIC_SOLVED);
    assert_eq!(view_from_values(&board, &good[0..80].to_vec()), None);
    let mut out_of_range = good.clone();
    out_of_range[2] = 0;
    assert_eq!(view_from_values(&board, &out_of_range), None);
    out_of_range[2] = 10;
    assert_eq!(view_from_values(&board, &out_of_range), None);
    out_of_range[2] = -4;
    assert_eq!(view_from_values(&board, &out_of_range), None);
    out_of_range[2] = 260;
    assert_eq!(view_from_values(&board, &out_of_range), None);
    let mut twice = good.clone();
    twice[2] = 6;
    assert_eq!(view_from_values(&board, &twice), None);
    let blank = Model::new(&ctx, &vec![b'.'; 81]).expect("a well-formed board");
    assert!(view_from_values(&blank, &good).is_some());
    let mut other = vec![b'.'; 81];
    other[0] = b'1';
    let other = Model::new(&ctx, &other).expect("a well-formed board");
    assert_eq!(view_from_values(&other, &good), None);
}

#[test]
fn verdicts_are_classified() {
    let cfg = z3::Config::new();
    let ctx = z3::Context::new(&cfg);
    let board = Model::new(&ctx, &bytes(CLASSIC)).expect("a well-formed board");
    assert!(matches!(settle(&board, Verdict::Unsat, None), Outcome::Unsatisfiable));
    assert!(matches!(settle(&board, Verdict::Unknown, None), Outcome::EngineError));
    assert!(matches!(settle(&board, Verdict::Sat, None), Outcome::EngineError));
    let found = match solve(&board) {
        Outcome::Satisfiable(found) => found,
        _ => panic!("the classic board is solvable"),
    };
    let mut other = vec![b'.'; 81];
    other[0] = b'1';
    let other = Model::new(&ctx, &other).expect("a well-formed board");
    assert_eq!(view_from_model(&other, &found), None);
    assert!(matches!(settle(&other, Verdict::Sat, Some(found)), Outcome::EngineError));
    let found = match solve(&board) {
        Outcome::Satisfiable(found) => found,
        _ => panic!("the classic board is solvable"),
    };
    assert!(matches!(settle(&board, Verdict::Unsat, Some(found)), Outcome::Unsatisfiable));
    let found = match solve(&board) {
        Outcome::Satisfiable(found) => found,
        _ => panic!("the classic board is solvable"),
    };
    assert!(matches!(settle(&board, Verdict::Sat, Some(found)), Outcome::Satisfiable(_)));
}
