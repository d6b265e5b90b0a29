//! The raw board and the rules of Sudoku.
//!
//! A raw board is 81 bytes, row by row: the cell in column `x` of row `y` is
//! byte `y * 9 + x`. A byte is a clue, `'1'` to `'9'`, or the blank marker.

use vstd::prelude::*;

verus! {

/// Side length of the board.
pub const BOARD_SIZE: usize = 9;

/// Number of cells of the board.
pub const CELL_COUNT: usize = 81;

/// The symbol of a cell that holds no clue: `'.'`.
pub const BLANK: u8 = 46;

/// Whether `b` is one of the clue symbols `'1'` to `'9'`.
pub open spec fn is_clue(b: u8) -> bool {
    49 <= b <= 57
}

/// Whether `b` may stand in a raw board.
pub open spec fn is_symbol(b: u8) -> bool {
    b == BLANK || is_clue(b)
}

/// The digit that the clue symbol `b` stands for.
pub open spec fn clue_digit(b: u8) -> int {
    b - 48
}

/// Why a raw board was turned down.
#[derive(Clone, Copy, Debug, PartialEq, Eq, Structural)]
pub enum MalformedInput {
    /// The board does not have 81 symbols.
    WrongLength,
    /// The board has 81 symbols, and one of them is neither a clue nor a blank.
    BadSymbol,
}

/// Whether `raw` is a board: 81 symbols, each a clue or a blank.
pub open spec fn well_formed(raw: Seq<u8>) -> bool {
    &&& raw.len() == CELL_COUNT
    &&& forall|i: int| 0 <= i < raw.len() ==> is_symbol(#[trigger] raw[i])
}

/// What is wrong with `raw`, if anything.
pub open spec fn malformation(raw: Seq<u8>) -> Option<MalformedInput> {
    if raw.len() != CELL_COUNT {
        Some(MalformedInput::WrongLength)
    } else if !well_formed(raw) {
        Some(MalformedInput::BadSymbol)
    } else {
        None
    }
}

/// The row of cell `i`.
pub open spec fn row_of(i: int) -> int {
    i / 9
}

/// The column of cell `i`.
pub open spec fn col_of(i: int) -> int {
    i % 9
}

/// The 3×3 block of cell `i`, counted row by row.
pub open spec fn block_of(i: int) -> int {
    (i / 27) * 3 + (i % 9) / 3
}

/// Whether cells `i` and `j` share a row, a column or a block.
pub open spec fn same_unit(i: int, j: int) -> bool {
    row_of(i) == row_of(j) || col_of(i) == col_of(j) || block_of(i) == block_of(j)
}

/// Whether `v` is a digit of the game.
pub open spec fn is_digit(v: int) -> bool {
    1 <= v <= 9
}

/// Whether `grid` is a completed Sudoku: 81 digits, and no digit twice in a
/// row, a column or a block.
pub open spec fn valid_grid(grid: Seq<int>) -> bool {
    &&& grid.len() == CELL_COUNT
    &&& forall|i: int| 0 <= i < grid.len() ==> is_digit(#[trigger] grid[i])
    &&& forall|i: int, j: int|
        0 <= i < j < grid.len() && same_unit(i, j) ==> #[trigger] grid[i] != #[trigger] grid[j]
}

/// Whether `grid` keeps every clue of `raw`.
pub open spec fn keeps_clues(grid: Seq<int>, raw: Seq<u8>) -> bool {
    forall|i: int|
        0 <= i < raw.len() && is_clue(#[trigger] raw[i]) ==> i < grid.len() && grid[i]
            == clue_digit(raw[i])
}

/// Whether no clue of `raw` stands twice in a row, a column or a block.
pub open spec fn free_of_clashes(raw: Seq<u8>) -> bool {
    forall|i: int, j: int|
        0 <= i < j < raw.len() && same_unit(i, j) && is_clue(#[trigger] raw[i]) ==> raw[i]
            != #[trigger] raw[j]
}

/// The cells of row `y`, left to right.
pub open spec fn row_cells(y: int) -> Seq<int> {
    Seq::new(9, |k: int| y * 9 + k)
}

/// The cells of column `x`, top to bottom.
pub open spec fn col_cells(x: int) -> Seq<int> {
    Seq::new(9, |k: int| k * 9 + x)
}

/// The cells of the block whose top left cell is in column `x`, row `y`, row by row.
pub open spec fn cube_cells(x: int, y: int) -> Seq<int> {
    Seq::new(9, |k: int| (y + k / 3) * 9 + x + k % 3)
}

/// The top left cell `(x, y)` of block `k`: `(0,0)`, `(3,0)`, `(6,0)`, `(0,3)`, and so on.
pub open spec fn cube_anchor(k: int) -> (int, int) {
    ((k % 3) * 3, (k / 3) * 3)
}

/// The character of the digit `d`.
pub open spec fn digit_char(d: int) -> char {
    if d == 0 {
        '0'
    } else if d == 1 {
        '1'
    } else if d == 2 {
        '2'
    } else if d == 3 {
        '3'
    } else if d == 4 {
        '4'
    } else if d == 5 {
        '5'
    } else if d == 6 {
        '6'
    } else if d == 7 {
        '7'
    } else if d == 8 {
        '8'
    } else {
        '9'
    }
}

/// The digit `d` as text.
pub fn digit_text(d: u8) -> (s: &'static str)
    requires
        d < 10,
    ensures
        s@ == seq![digit_char(d as int)],
{
    proof {
        reveal_strlit("0");
        reveal_strlit("1");
        reveal_strlit("2");
        reveal_strlit("3");
        reveal_strlit("4");
        reveal_strlit("5");
        reveal_strlit("6");
        reveal_strlit("7");
        reveal_strlit("8");
        reveal_strlit("9");
    }
    let s = match d {
        0 => "0",
        1 => "1",
        2 => "2",
        3 => "3",
        4 => "4",
        5 => "5",
        6 => "6",
        7 => "7",
        8 => "8",
        _ => "9",
    };
    assert(s@ =~= seq![digit_char(d as int)]);
    s
}

/// Checks a raw board, and says what is wrong with one that is turned down.
pub fn validate(raw: &Vec<u8>) -> (r: Result<(), MalformedInput>)
    ensures
        r == match malformation(raw@) {
            Some(e) => Err::<(), MalformedInput>(e),
            None => Ok(()),
        },
{
    if raw.len() != CELL_COUNT {
        return Err(MalformedInput::WrongLength);
    }
    let mut i: usize = 0;
    while i < CELL_COUNT
        invariant
            raw.len() == CELL_COUNT,
            i <= CELL_COUNT,
            forall|k: int| 0 <= k < i ==> is_symbol(#[trigger] raw[k]),
        decreases CELL_COUNT - i,
    {
        let b = raw[i];
        if !(b == BLANK || (49 <= b && b <= 57)) {
            assert(!is_symbol(raw@[i as int]));
            return Err(MalformedInput::BadSymbol);
        }
        i += 1;
    }
    Ok(())
}

/// Whether `raw` is a board.
pub fn is_well_formed(raw: &Vec<u8>) -> (ok: bool)
    ensures
        ok == well_formed(raw@),
{
    validate(raw).is_ok()
}

/// Whether cells `i` and `j` share a row, a column or a block.
pub fn in_same_unit(i: usize, j: usize) -> (same: bool)
    requires
        i < CELL_COUNT,
        j < CELL_COUNT,
    ensures
        same == same_unit(i as int, j as int),
{
    i / 9 == j / 9 || i % 9 == j % 9 || (i / 27 == j / 27 && (i % 9) / 3 == (j % 9) / 3)
}

/// The digits of `digits` as mathematical integers.
pub open spec fn as_grid(digits: Seq<u8>) -> Seq<int> {
    Seq::new(digits.len(), |i: int| digits[i] as int)
}

/// Whether `digits` is a completed Sudoku.
pub fn is_valid_grid(digits: &Vec<u8>) -> (ok: bool)
    ensures
        ok == valid_grid(as_grid(digits@)),
{
    if digits.len() != CELL_COUNT {
        return false;
    }
    let ghost grid = as_grid(digits@);
    let mut i: usize = 0;
    while i < CELL_COUNT
        invariant
            digits.len() == CELL_COUNT,
            grid == as_grid(digits@),
            i <= CELL_COUNT,
            forall|k: int| 0 <= k < i ==> is_digit(#[trigger] grid[k]),
            forall|a: int, b: int|
                0 <= a < b < CELL_COUNT && a < i && same_unit(a, b) ==> #[trigger] grid[a]
                    != #[trigger] grid[b],
        decreases CELL_COUNT - i,
    {
        let d = digits[i];
        if d < 1 || d > 9 {
            assert(!is_digit(grid[i as int]));
            return false;
        }
        let mut j: usize = i + 1;
        while j < CELL_COUNT
            invariant
                digits.len() == CELL_COUNT,
                grid == as_grid(digits@),
                i < j <= CELL_COUNT,
                d == digits[i as int],
                forall|b: int|
                    i < b < j && same_unit(i as int, b) ==> grid[i as int] != #[trigger] grid[b],
            decreases CELL_COUNT - j,
        {
            if in_same_unit(i, j) && digits[j] == d {
                assert(grid[i as int] == grid[j as int]);
                return false;
            }
            j += 1;
        }
        i += 1;
    }
    true
}

} // verus!
