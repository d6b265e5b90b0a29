use sudoku_solver::board::{is_well_formed, MalformedInput};
use sudoku_solver::cli::{
    blank_board, board_from_text, count_clues, is_white_space, Args, DRAW_LIMIT,
};

const CLASSIC: &str =
    "53..7....6..195....98....6.8...6...34..8.3..17...2...6.6....28....419..5....8..79";

fn args(generate: usize) -> Args {
    Args { generate, input: String::new() }
}

fn clashes(board: &[u8]) -> usize {
    let mut count = 0;
    for i in 0..81usize {
        for j in (i + 1)..81usize {
            let same = i / 9 == j / 9
                || i % 9 == j % 9
                || (i / 27 == j / 27 && (i % 9) / 3 == (j % 9) / 3);
            if same && board[i] != b'.' && board[i] == board[j] {
                count += 1;
            }
        }
    }
    count
}

#[test]
fn blank_board_is_all_blanks() {
    assert_eq!(blank_board(), vec![b'.'; 81]);
}

#[test]
fn text_without_white_space_is_taken_as_it_is() {
    assert_eq!(board_from_text(CLASSIC), Ok(CLASSIC.as_bytes().to_vec()));
}

#[test]
fn white_space_is_dropped() {
    let mut text = String::new();
    for (i, c) in CLASSIC.chars().enumerate() {
        text.push(c);
        if i % 9 == 8 {
            text.push_str("\r\n");
        } else if i % 3 == 2 {
            text.push(' ');
        } else if i % 9 == 4 {
            text.push('\t');
        }
    }
    text.push('\u{a0}');
    text.push('\u{2003}');
    text.insert(0, '\u{3000}');
    assert_eq!(board_from_text(&text), Ok(CLASSIC.as_bytes().to_vec()));
}

#[test]
fn text_of_the_wrong_length_is_turned_down() {
    assert_eq!(board_from_text(""), Err(MalformedInput::WrongLength));
    assert_eq!(board_from_text(" \n\t"), Err(MalformedInput::WrongLength));
    assert_eq!(board_from_text(&CLASSIC[1..]), Err(MalformedInput::WrongLength));
    assert_eq!(board_from_text(&format!("{}.", CLASSIC)), Err(MalformedInput::WrongLength));
    assert_eq!(board_from_text(&format!("{}x", CLASSIC)), Err(MalformedInput::WrongLength));
}

#[test]
fn text_with_a_bad_symbol_is_turned_down() {
    for bad in ['0', 'x', '/', ':', '_', '\u{e9}', '\u{ff11}'] {
        let text = format!("{}{}", &CLASSIC[0..80], bad);
        assert_eq!(board_from_text(&text), Err(MalformedInput::BadSymbol));
        let text = format!("{}\n{}", bad, &CLASSIC[1..]);
        assert_eq!(board_from_text(&text), Err(MalformedInput::BadSymbol));
    }
}

#[test]
fn placement_looks_at_row_column_and_block() {
    let a = args(0);
    let mut board = vec![b'.'; 81];
    board[4 * 9 + 4] = b'5';
    // the cell itself does not count
    assert!(a.valid_placement(&board, 4, 4, b'5'));
    // same row
    assert!(!a.valid_placement(&board, 0, 4, b'5'));
    assert!(!a.valid_placement(&board, 8, 4, b'5'));
    // same column
    assert!(!a.valid_placement(&board, 4, 0, b'5'));
    assert!(!a.valid_placement(&board, 4, 8, b'5'));
    // same block
    assert!(!a.valid_placement(&board, 3, 3, b'5'));
    assert!(!a.valid_placement(&board, 5, 3, b'5'));
    assert!(!a.valid_placement(&board, 3, 5, b'5'));
    // elsewhere
    assert!(a.valid_placement(&board, 0, 0, b'5'));
    assert!(a.valid_placement(&board, 6, 2, b'5'));
    assert!(a.valid_placement(&board, 2, 6, b'5'));
    // another digit
    assert!(a.valid_placement(&board, 0, 4, b'6'));
    assert!(a.valid_placement(&board, 3, 3, b'4'));
}

#[test]
fn placement_in_the_corner_blocks() {
    let a = args(0);
    let mut board = vec![b'.'; 81];
    board[0] = b'1';
    board[80] = b'9';
    assert!(!a.valid_placement(&board, 1, 1, b'1'));
    assert!(!a.valid_placement(&board, 2, 2, b'1'));
    assert!(a.valid_placement(&board, 3, 3, b'1'));
    assert!(!a.valid_placement(&board, 6, 6, b'9'));
    assert!(!a.valid_placement(&board, 7, 8, b'9'));
    assert!(a.valid_placement(&board, 5, 5, b'9'));
    assert!(a.valid_placement(&board, 0, 0, b'1'));
    assert!(a.valid_placement(&board, 8, 8, b'9'));
}

#[test]
fn a_clue_is_placed_only_where_it_fits() {
    let a = args(0);
    let mut board = vec![b'.'; 81];
    assert!(a.place_clue(&mut board, 4, 4, b'5'));
    let mut want = vec![b'.'; 81];
    want[40] = b'5';
    assert_eq!(board, want);
    assert!(!a.place_clue(&mut board, 0, 4, b'5'));
    assert!(!a.place_clue(&mut board, 4, 7, b'5'));
    assert!(!a.place_clue(&mut board, 5, 5, b'5'));
    assert_eq!(board, want);
    assert!(a.place_clue(&mut board, 5, 5, b'6'));
    want[50] = b'6';
    assert_eq!(board, want);
    assert!(a.place_clue(&mut board, 4, 4, b'7'));
    want[40] = b'7';
    assert_eq!(board, want);
    assert!(a.place_clue(&mut board, 8, 0, b'7'));
    want[8] = b'7';
    assert_eq!(board, want);
}

#[test]
fn generated_boards_hold_the_clues_asked_for() {
    for generate in [0usize, 1, 2, 5, 14, 20] {
        for _ in 0..5 {
            let (board, complete) = args(generate).generate_board();
            assert_eq!(board.len(), 81);
            assert!(is_well_formed(&board));
            assert_eq!(clashes(&board), 0);
            let clues = board.iter().filter(|b| **b != b'.').count();
            assert_eq!(count_clues(&board), clues);
            assert!(clues <= generate);
            assert_eq!(complete, clues == generate);
            if !complete {
                assert!(!args(generate).has_room(&board));
            }
        }
    }
}

#[test]
fn no_clue_asked_gives_the_blank_board() {
    assert_eq!(args(0).generate_board(), (vec![b'.'; 81], true));
}

#[test]
fn one_clue_asked_gives_one_clue() {
    let (board, complete) = args(1).generate_board();
    assert!(complete);
    assert_eq!(board.iter().filter(|b| **b != b'.').count(), 1);
    assert!(board.iter().all(|b| *b == b'.' || (b'1'..=b'9').contains(b)));
}

#[test]
fn more_clues_than_fit_end_short() {
    let (board, complete) = args(200).generate_board();
    assert!(!complete);
    assert!(is_well_formed(&board));
    assert_eq!(clashes(&board), 0);
    assert!(count_clues(&board) <= 81);
    assert!(!args(200).has_room(&board));
}

#[test]
fn given_draws_are_placed_in_turn() {
    let draws = vec![
        (0usize, 0usize, b'5'),
        (1, 0, b'5'),
        (0, 0, b'6'),
        (9, 0, b'1'),
        (0, 9, b'1'),
        (3, 3, b'0'),
        (3, 3, b'.'),
        (4, 4, b'5'),
        (8, 8, b'5'),
        (1, 1, b'5'),
        (2, 7, b'9'),
    ];
    let mut want = vec![b'.'; 81];
    want[0] = b'5';
    want[40] = b'5';
    want[80] = b'5';
    want[65] = b'9';
    assert_eq!(args(10).place_draws(&draws), want);
    let mut three = vec![b'.'; 81];
    three[0] = b'5';
    three[40] = b'5';
    three[80] = b'5';
    assert_eq!(args(3).place_draws(&draws), three);
    let mut one = vec![b'.'; 81];
    one[0] = b'5';
    assert_eq!(args(1).place_draws(&draws), one);
    assert_eq!(args(0).place_draws(&draws), vec![b'.'; 81]);
    assert_eq!(args(7).place_draws(&Vec::new()), vec![b'.'; 81]);
}

#[test]
fn a_draw_lands_on_a_blank_cell_where_it_fits() {
    let a = args(2);
    let mut board = vec![b'.'; 81];
    assert!(a.place_draw(&mut board, (4, 4, b'5')));
    let mut want = vec![b'.'; 81];
    want[40] = b'5';
    assert_eq!(board, want);
    // the cell is taken
    assert!(!a.place_draw(&mut board, (4, 4, b'7')));
    // the digit stands in the row, the column, the block
    assert!(!a.place_draw(&mut board, (0, 4, b'5')));
    assert!(!a.place_draw(&mut board, (4, 0, b'5')));
    assert!(!a.place_draw(&mut board, (3, 5, b'5')));
    // no cell, no clue
    assert!(!a.place_draw(&mut board, (9, 4, b'1')));
    assert!(!a.place_draw(&mut board, (4, 9, b'1')));
    assert!(!a.place_draw(&mut board, (0, 0, b'0')));
    assert!(!a.place_draw(&mut board, (0, 0, b':')));
    assert_eq!(board, want);
    assert!(a.place_draw(&mut board, (0, 0, b'1')));
    want[0] = b'1';
    assert_eq!(board, want);
    // both clues asked for stand
    assert!(!a.place_draw(&mut board, (8, 8, b'9')));
    assert_eq!(board, want);
}

#[test]
fn white_space_is_told_from_symbols() {
    for c in [' ', '\n', '\t', '\r', '\u{a0}', '\u{2003}', '\u{3000}'] {
        assert!(is_white_space(c));
    }
    for c in ['.', '1', '9', '0', 'x', '\u{8d8a}'] {
        assert!(!is_white_space(c));
    }
}

#[test]
fn clues_are_counted() {
    assert_eq!(count_clues(&vec![b'.'; 81]), 0);
    assert_eq!(count_clues(&CLASSIC.as_bytes().to_vec()), 30);
    assert_eq!(count_clues(&Vec::new()), 0);
    assert_eq!(count_clues(&vec![b'1', b'9', b'0', b':', b'.', b'5']), 3);
}

#[test]
fn room_is_left_while_a_clue_fits_somewhere() {
    let a = args(0);
    assert!(a.has_room(&vec![b'.'; 81]));
    assert!(a.has_room(&CLASSIC.as_bytes().to_vec()));
    let full = "534678912672195348198342567859761423426853791713924856961537284287419635345286179";
    assert!(!a.has_room(&full.as_bytes().to_vec()));
    let mut open = full.as_bytes().to_vec();
    open[80] = b'.';
    assert!(a.has_room(&open));
    // the last cell of the first row sees all nine digits
    let mut shut = vec![b'.'; 81];
    for (x, d) in (0..8).zip(b'1'..=b'8') {
        shut[x] = d;
    }
    shut[17] = b'9';
    assert!(a.has_room(&shut));
    for at in 0..81 {
        if shut[at] == b'.' && at != 8 {
            shut[at] = b'x';
        }
    }
    assert!(!a.has_room(&shut));
}

#[test]
fn the_draw_limit_is_out_of_reach() {
    assert_eq!(DRAW_LIMIT, u64::MAX);
}
