//! The board as text: the raw input before solving, the decoded answer after.

use vstd::prelude::*;
use vstd::string::StringExecFns;
use crate::board::{
    as_grid, digit_char, digit_text, is_clue, is_digit, is_symbol, is_valid_grid, valid_grid,
    well_formed, BLANK, CELL_COUNT,
};
use crate::engine::{answer_eval, answer_view, int_value, numeral_of, Assignment};
use crate::formula::Term;
use crate::sudoku::{Model, Pos, BOARD_SIZE};

verus! {

/// One cell as it is shown: its digit, 0 for none, and whether the puzzle gave it.
#[derive(Clone, Copy, Debug, PartialEq, Eq, Structural)]
pub struct CellView(pub u8, pub bool);

/// The 81 cells as they are shown, row by row.
pub type BoardView = Vec<CellView>;

/// Ends a colour.
pub const CLEAR: &'static str = "\x1b[0;0m";

/// Red text.
pub const RED_FG: &'static str = "\x1b[31m";

/// Green text.
pub const GREEN_FG: &'static str = "\x1b[32m";

/// The ground of a digit that the puzzle gave.
pub const RED: &'static str = "\x1b[1;43m";

/// The ground of a digit that was found.
pub const GREEN: &'static str = "\x1b[1;42m";

/// The ground of a cell without a digit.
pub const BLUE_FG: &'static str = "\x1b[0;44m";

/// The colour of the frame.
pub const WHITE: &'static str = "\x1b[1;37m";

/// The top right corner of the frame.
pub const TOP_RIGHT_CORNER: &'static str = "\x1b(0\x6b";

/// The top left corner of the frame.
pub const TOP_LEFT_CORNER: &'static str = "\x1b(0\x6c";

/// Where a rule meets the right side of the frame.
pub const RIGHT_CORNER: &'static str = "\x1b(0\x75";

/// Where a rule meets the left side of the frame.
pub const LEFT_CORNER: &'static str = "\x1b(0\x74";

/// The bottom right corner of the frame.
pub const BOTTOM_RIGHT_CORNER: &'static str = "\x1b(0\x6a";

/// The bottom left corner of the frame.
pub const BOTTOM_LEFT_CORNER: &'static str = "\x1b(0\x6d";

/// A vertical bar.
pub const VERTICAL: &'static str = "\x1b(0\x78\x1b(0";

/// A horizontal dash.
pub const HORIZONTAL: &'static str = "\x1b(0\x71";

/// Where a bar meets the top of the frame.
pub const TOP_SPLIT: &'static str = "\x1b(0\x77";

/// Where a bar crosses a rule.
pub const SPLIT: &'static str = "\x1b(0\x6e";

/// Where a bar meets the bottom of the frame.
pub const BOTTOM_SPLIT: &'static str = "\x1b(0\x76";

/// The end of a rule.
pub const EOL: &'static str = "\x1b(B\n";

/// `n` copies of `s`, one after another.
pub open spec fn repeated(s: Seq<char>, n: nat) -> Seq<char>
    decreases n,
{
    if n == 0 {
        Seq::empty()
    } else {
        repeated(s, (n - 1) as nat) + s
    }
}

/// A horizontal rule: three runs of nine dashes between the given corner and
/// joint pieces, in white.
pub open spec fn rule_text(left: Seq<char>, split: Seq<char>, right: Seq<char>) -> Seq<char> {
    WHITE@ + left + repeated(HORIZONTAL@, 9) + split + repeated(HORIZONTAL@, 9) + split + repeated(
        HORIZONTAL@,
        9,
    ) + right + EOL@ + CLEAR@
}

/// The rule above the board.
pub open spec fn top_text() -> Seq<char> {
    rule_text(TOP_LEFT_CORNER@, TOP_SPLIT@, TOP_RIGHT_CORNER@)
}

/// The rule between two bands of blocks.
pub open spec fn middle_text() -> Seq<char> {
    rule_text(LEFT_CORNER@, SPLIT@, RIGHT_CORNER@)
}

/// The rule below the board.
pub open spec fn bottom_text() -> Seq<char> {
    rule_text(BOTTOM_LEFT_CORNER@, BOTTOM_SPLIT@, BOTTOM_RIGHT_CORNER@)
}

/// One cell: a dot on blue for no digit, else the digit, on yellow when the
/// puzzle gave it and on green when it was found.
pub open spec fn cell_text(c: CellView) -> Seq<char> {
    if c.0 == 0 {
        BLUE_FG@ + " . "@ + CLEAR@
    } else if c.1 {
        RED@ + " "@ + seq![digit_char(c.0 as int)] + " "@ + CLEAR@
    } else {
        GREEN@ + " "@ + seq![digit_char(c.0 as int)] + " "@ + CLEAR@
    }
}

/// The first `n` cells of row `y`, with a bar before every third.
pub open spec fn cells_text(view: Seq<CellView>, y: int, n: int) -> Seq<char>
    decreases n,
{
    if n <= 0 {
        Seq::empty()
    } else {
        cells_text(view, y, n - 1) + (if (n - 1) % 3 == 0 {
            VERTICAL@
        } else {
            Seq::empty()
        }) + cell_text(view[y * 9 + n - 1])
    }
}

/// Row `y`: its nine cells, a closing bar and a line end.
pub open spec fn row_text(view: Seq<CellView>, y: int) -> Seq<char> {
    cells_text(view, y, 9) + VERTICAL@ + "\n"@
}

/// The first `n` rows, with a rule before the fourth and the seventh.
pub open spec fn rows_text(view: Seq<CellView>, n: int) -> Seq<char>
    decreases n,
{
    if n <= 0 {
        Seq::empty()
    } else {
        rows_text(view, n - 1) + (if n - 1 == 3 || n - 1 == 6 {
            middle_text()
        } else {
            Seq::empty()
        }) + row_text(view, n - 1)
    }
}

/// The whole board: the top rule, the nine rows, the bottom rule.
pub open spec fn render_text(view: Seq<CellView>) -> Seq<char> {
    top_text() + rows_text(view, 9) + bottom_text()
}

/// What can be shown: 81 cells, each with a digit or none.
pub open spec fn showable(view: Seq<CellView>) -> bool {
    &&& view.len() == CELL_COUNT
    &&& forall|i: int| 0 <= i < view.len() ==> (#[trigger] view[i]).0 <= 9
}

/// Adds `n` copies of `s` to `out`.
fn push_repeated(out: &mut String, s: &str, n: usize)
    ensures
        final(out)@ == old(out)@ + repeated(s@, n as nat),
{
    let mut i: usize = 0;
    while i < n
        invariant
            i <= n,
            out@ == old(out)@ + repeated(s@, i as nat),
        decreases n - i,
    {
        out.append(s);
        assert(out@ =~= old(out)@ + repeated(s@, (i + 1) as nat));
        i += 1;
    }
}

/// A horizontal rule between the given corner and joint pieces.
fn rule(left: &str, split: &str, right: &str) -> (s: String)
    ensures
        s@ == rule_text(left@, split@, right@),
{
    let mut s = WHITE.to_owned();
    s.append(left);
    push_repeated(&mut s, HORIZONTAL, 9);
    s.append(split);
    push_repeated(&mut s, HORIZONTAL, 9);
    s.append(split);
    push_repeated(&mut s, HORIZONTAL, 9);
    s.append(right);
    s.append(EOL);
    s.append(CLEAR);
    s
}

/// The rule above the board.
pub fn horizontal_top() -> (s: String)
    ensures
        s@ == top_text(),
{
    rule(TOP_LEFT_CORNER, TOP_SPLIT, TOP_RIGHT_CORNER)
}

/// The rule between two bands of blocks.
pub fn horizontal() -> (s: String)
    ensures
        s@ == middle_text(),
{
    rule(LEFT_CORNER, SPLIT, RIGHT_CORNER)
}

/// The rule below the board.
pub fn horizontal_bottom() -> (s: String)
    ensures
        s@ == bottom_text(),
{
    rule(BOTTOM_LEFT_CORNER, BOTTOM_SPLIT, BOTTOM_RIGHT_CORNER)
}

/// Adds one cell to `out`.
fn push_cell(out: &mut String, c: CellView)
    requires
        c.0 <= 9,
    ensures
        final(out)@ == old(out)@ + cell_text(c),
{
    if c.0 == 0 {
        out.append(BLUE_FG);
        out.append(" . ");
        out.append(CLEAR);
        assert(out@ =~= old(out)@ + cell_text(c));
    } else {
        if c.1 {
            out.append(RED);
        } else {
            out.append(GREEN);
        }
        out.append(" ");
        out.append(digit_text(c.0));
        out.append(" ");
        out.append(CLEAR);
        assert(out@ =~= old(out)@ + cell_text(c));
    }
}

/// Adds row `y` of the board to `out`.
fn push_row(out: &mut String, board: &BoardView, y: usize)
    requires
        showable(board@),
        y < BOARD_SIZE,
    ensures
        final(out)@ == old(out)@ + row_text(board@, y as int),
{
    let mut x: usize = 0;
    while x < BOARD_SIZE
        invariant
            showable(board@),
            y < BOARD_SIZE,
            x <= BOARD_SIZE,
            out@ == old(out)@ + cells_text(board@, y as int, x as int),
        decreases BOARD_SIZE - x,
    {
        let ghost so_far = out@;
        if x % 3 == 0 {
            out.append(VERTICAL);
        }
        let ghost bar = if x % 3 == 0 {
            VERTICAL@
        } else {
            Seq::empty()
        };
        assert(out@ =~= so_far + bar);
        push_cell(out, board[y * BOARD_SIZE + x]);
        assert(cells_text(board@, y as int, x as int + 1) == cells_text(board@, y as int, x as int)
            + bar + cell_text(board@[y * 9 + x]));
        assert(out@ =~= old(out)@ + cells_text(board@, y as int, x as int + 1));
        x += 1;
    }
    out.append(VERTICAL);
    out.append("\n");
    assert(out@ =~= old(out)@ + row_text(board@, y as int));
}

/// The board as text, framed and coloured.
pub fn render(board: BoardView) -> (out: String)
    requires
        showable(board@),
    ensures
        out@ == render_text(board@),
{
    let mut out = String::new();
    out.append(horizontal_top().as_str());
    assert(out@ =~= top_text() + rows_text(board@, 0));
    let mut y: usize = 0;
    while y < BOARD_SIZE
        invariant
            showable(board@),
            y <= BOARD_SIZE,
            out@ == top_text() + rows_text(board@, y as int),
        decreases BOARD_SIZE - y,
    {
        let ghost before = out@;
        if y == 3 || y == 6 {
            out.append(horizontal().as_str());
        }
        let ghost lead = if y == 3 || y == 6 {
            middle_text()
        } else {
            Seq::empty()
        };
        assert(out@ =~= before + lead);
        push_row(&mut out, &board, y);
        assert(rows_text(board@, y as int + 1) == rows_text(board@, y as int) + lead + row_text(
            board@,
            y as int,
        ));
        assert(out@ =~= top_text() + rows_text(board@, y as int + 1));
        y += 1;
    }
    out.append(horizontal_bottom().as_str());
    out
}

/// The digit that the symbol `b` shows: the clue's digit, or 0 for a blank.
pub open spec fn shown_digit(b: u8) -> u8 {
    if is_clue(b) {
        (b - 48) as u8
    } else {
        0
    }
}

/// The raw board `raw` as it is shown: no cell counts as given by the puzzle.
pub open spec fn input_view(raw: Seq<u8>) -> Seq<CellView> {
    Seq::new(raw.len(), |i: int| CellView(shown_digit(raw[i]), false))
}

/// The raw board as cells to show.
pub fn view_from_input(input: &Vec<u8>) -> (view: BoardView)
    requires
        well_formed(input@),
    ensures
        view@ == input_view(input@),
        showable(view@),
{
    let mut out: BoardView = Vec::new();
    let mut y: usize = 0;
    while y < BOARD_SIZE
        invariant
            well_formed(input@),
            y <= BOARD_SIZE,
            out@.len() == y * 9,
            forall|i: int| 0 <= i < out@.len() ==> #[trigger] out@[i] == input_view(input@)[i],
        decreases BOARD_SIZE - y,
    {
        let mut x: usize = 0;
        while x < BOARD_SIZE
            invariant
                well_formed(input@),
                y < BOARD_SIZE,
                x <= BOARD_SIZE,
                out@.len() == y * 9 + x,
                forall|i: int| 0 <= i < out@.len() ==> #[trigger] out@[i] == input_view(input@)[i],
            decreases BOARD_SIZE - x,
        {
            let b = input[y * BOARD_SIZE + x];
            assert(is_symbol(input@[y * 9 + x]));
            let elem = if b == BLANK {
                CellView(0, false)
            } else {
                CellView(b - 48, false)
            };
            out.push(elem);
            x += 1;
        }
        y += 1;
    }
    assert(out@ =~= input_view(input@));
    out
}

/// The raw board as text.
pub fn from_input(input: &Vec<u8>) -> (text: String)
    requires
        well_formed(input@),
    ensures
        text@ == render_text(input_view(input@)),
{
    let view = view_from_input(input);
    render(view)
}

/// What the answer holds for cell `i` of the model: the number that the cell's
/// term evaluates to, if it evaluates to a number of 64 bits.
pub open spec fn reading(model: &Model<'_>, solution: &Assignment<'_>, i: int) -> Option<i64> {
    match (answer_view(*solution).readings)(model.cells()[i].term()) {
        Some(t) => numeral_of(t),
        None => None,
    }
}

/// Whether the answer holds a number for every cell of the model.
pub open spec fn readable(model: &Model<'_>, solution: &Assignment<'_>) -> bool {
    forall|i: int| 0 <= i < CELL_COUNT ==> (#[trigger] reading(model, solution, i)) is Some
}

/// The numbers that the answer holds for the cells, row by row.
pub open spec fn readings(model: &Model<'_>, solution: &Assignment<'_>) -> Seq<i64> {
    Seq::new(CELL_COUNT as nat, |i: int| reading(model, solution, i)->0)
}

/// The numbers of `values` as mathematical integers.
pub open spec fn as_numbers(values: Seq<i64>) -> Seq<int> {
    Seq::new(values.len(), |i: int| values[i] as int)
}

/// Whether `values` solve the puzzle of `model`: they form a completed
/// Sudoku, and every cell that the puzzle gave holds its clue.
pub open spec fn accepts(model: &Model<'_>, values: Seq<i64>) -> bool {
    &&& valid_grid(as_numbers(values))
    &&& forall|i: int|
        0 <= i < CELL_COUNT && (#[trigger] model.cells()[i]).given() ==> model.cells()[i].term()
            == Term::Lit(values[i] as int)
}

/// The cells to show for `values`: each digit with the flag of its cell.
pub open spec fn view_of(model: &Model<'_>, values: Seq<i64>) -> Seq<CellView> {
    Seq::new(CELL_COUNT as nat, |i: int| CellView(values[i] as u8, model.cells()[i].given()))
}

/// The digits of the cells to show.
pub open spec fn digits_of(view: Seq<CellView>) -> Seq<int> {
    Seq::new(view.len(), |i: int| view[i].0 as int)
}

/// What decoding gives: the cells to show for the numbers that the answer
/// holds, where it holds one for every cell and they solve the puzzle.
pub open spec fn decoded(model: &Model<'_>, solution: &Assignment<'_>) -> Option<Seq<CellView>> {
    if readable(model, solution) && accepts(model, readings(model, solution)) {
        Some(view_of(model, readings(model, solution)))
    } else {
        None
    }
}

/// Reads the number of every cell off the answer, row by row. Gives `None`
/// where the answer holds no number for some cell.
pub fn read_values<'ctx>(model: &Model<'ctx>, solution: &Assignment<'ctx>) -> (r: Option<Vec<i64>>)
    requires
        answer_view(*solution).home == model.home(),
    ensures
        match r {
            Some(values) => readable(model, solution) && values@ == readings(model, solution),
            None => !readable(model, solution),
        },
{
    let mut values: Vec<i64> = Vec::new();
    let mut y: usize = 0;
    while y < BOARD_SIZE
        invariant
            answer_view(*solution).home == model.home(),
            y <= BOARD_SIZE,
            values@.len() == y * 9,
            forall|i: int|
                0 <= i < values@.len() ==> #[trigger] reading(model, solution, i) == Some(
                    values@[i],
                ),
        decreases BOARD_SIZE - y,
    {
        let mut x: usize = 0;
        while x < BOARD_SIZE
            invariant
                answer_view(*solution).home == model.home(),
                y < BOARD_SIZE,
                x <= BOARD_SIZE,
                values@.len() == y * 9 + x,
                forall|i: int|
                    0 <= i < values@.len() ==> #[trigger] reading(model, solution, i) == Some(
                        values@[i],
                    ),
            decreases BOARD_SIZE - x,
        {
            let pos = Pos::new(x, y);
            let cell = model.cell(pos);
            assert(cell.fits(pos.cell(), model.home()));
            let value = match answer_eval(solution, cell.get_value()) {
                Some(solved) => int_value(&solved),
                None => None,
            };
            assert(value == reading(model, solution, pos.cell()));
            match value {
                Some(v) => {
                    values.push(v);
                },
                None => {
                    return None;
                },
            }
            x += 1;
        }
        y += 1;
    }
    assert(values@ =~= readings(model, solution));
    Some(values)
}

/// Whether every cell that the puzzle gave holds its clue in `values`.
fn clues_kept<'ctx>(model: &Model<'ctx>, values: &Vec<i64>) -> (kept: bool)
    requires
        values@.len() == CELL_COUNT,
    ensures
        kept == (forall|i: int|
            0 <= i < CELL_COUNT && (#[trigger] model.cells()[i]).given() ==> model.cells()[i].term()
                == Term::Lit(values@[i] as int)),
{
    let mut y: usize = 0;
    while y < BOARD_SIZE
        invariant
            values@.len() == CELL_COUNT,
            y <= BOARD_SIZE,
            forall|i: int|
                0 <= i < y * 9 && (#[trigger] model.cells()[i]).given() ==> model.cells()[i].term()
                    == Term::Lit(values@[i] as int),
        decreases BOARD_SIZE - y,
    {
        let mut x: usize = 0;
        while x < BOARD_SIZE
            invariant
                values@.len() == CELL_COUNT,
                y < BOARD_SIZE,
                x <= BOARD_SIZE,
                forall|i: int|
                    0 <= i < y * 9 + x && (#[trigger] model.cells()[i]).given()
                        ==> model.cells()[i].term() == Term::Lit(values@[i] as int),
            decreases BOARD_SIZE - x,
        {
            let pos = Pos::new(x, y);
            let cell = model.cell(pos);
            assert(cell.fits(pos.cell(), model.home()));
            if cell.is_solution() {
                let clue = int_value(cell.get_value());
                if clue != Some(values[pos.index()]) {
                    assert(model.cells()[pos.cell()].given());
                    return false;
                }
            }
            x += 1;
        }
        y += 1;
    }
    true
}

/// The cells to show for the numbers `values`, where they solve the puzzle of
/// `model`; `None` where they do not.
pub fn view_from_values<'ctx>(model: &Model<'ctx>, values: &Vec<i64>) -> (r: Option<BoardView>)
    ensures
        match r {
            Some(view) => accepts(model, values@) && view@ == view_of(model, values@),
            None => !accepts(model, values@),
        },
{
    if values.len() != CELL_COUNT {
        return None;
    }
    let mut digits: Vec<u8> = Vec::new();
    let mut view: BoardView = Vec::new();
    let mut y: usize = 0;
    while y < BOARD_SIZE
        invariant
            values@.len() == CELL_COUNT,
            y <= BOARD_SIZE,
            digits@.len() == y * 9,
            view@.len() == y * 9,
            forall|i: int| 0 <= i < digits@.len() ==> #[trigger] digits@[i] == values@[i],
            forall|i: int|
                0 <= i < view@.len() ==> #[trigger] view@[i] == view_of(model, values@)[i],
        decreases BOARD_SIZE - y,
    {
        let mut x: usize = 0;
        while x < BOARD_SIZE
            invariant
                values@.len() == CELL_COUNT,
                y < BOARD_SIZE,
                x <= BOARD_SIZE,
                digits@.len() == y * 9 + x,
                view@.len() == y * 9 + x,
                forall|i: int| 0 <= i < digits@.len() ==> #[trigger] digits@[i] == values@[i],
                forall|i: int|
                    0 <= i < view@.len() ==> #[trigger] view@[i] == view_of(model, values@)[i],
            decreases BOARD_SIZE - x,
        {
            let pos = Pos::new(x, y);
            let value = values[pos.index()];
            if value < 1 || value > 9 {
                assert(!is_digit(as_numbers(values@)[pos.cell()]));
                return None;
            }
            let cell = model.cell(pos);
            digits.push(value as u8);
            view.push(CellView(value as u8, cell.is_solution()));
            x += 1;
        }
        y += 1;
    }
    assert(as_grid(digits@) =~= as_numbers(values@));
    assert(view@ =~= view_of(model, values@));
    if is_valid_grid(&digits) && clues_kept(model, values) {
        Some(view)
    } else {
        None
    }
}

/// Decodes the answer to the puzzle of `model`: the digit of every cell, with
/// the flag that tells a clue from a digit that was found. The result is
/// `None` where the answer does not solve the puzzle.
pub fn view_from_model<'ctx>(model: &Model<'ctx>, solution: &Assignment<'ctx>) -> (r: Option<
    BoardView,
>)
    requires
        answer_view(*solution).home == model.home(),
    ensures
        match r {
            Some(view) => decoded(model, solution) == Some(view@),
            None => decoded(model, solution) is None,
        },
        r matches Some(view) ==> {
            &&& showable(view@)
            &&& valid_grid(digits_of(view@))
            &&& forall|i: int|
                0 <= i < CELL_COUNT ==> (#[trigger] view@[i]).1 == model.cells()[i].given()
            &&& forall|i: int|
                0 <= i < CELL_COUNT && (#[trigger] model.cells()[i]).given()
                    ==> model.cells()[i].term() == Term::Lit(view@[i].0 as int)
        },
{
    match read_values(model, solution) {
        Some(values) => {
            let r = view_from_values(model, &values);
            proof {
                if r is Some {
                    lemma_accepted_view(model, values@);
                }
            }
            r
        },
        None => None,
    }
}

/// The cells shown for numbers that solve the puzzle are a completed Sudoku
/// that keeps the flags and the clues of the model.
pub proof fn lemma_accepted_view(model: &Model<'_>, values: Seq<i64>)
    requires
        accepts(model, values),
    ensures
        showable(view_of(model, values)),
        digits_of(view_of(model, values)) == as_numbers(values),
        valid_grid(digits_of(view_of(model, values))),
        forall|i: int|
            0 <= i < CELL_COUNT ==> (#[trigger] view_of(model, values)[i]).1
                == model.cells()[i].given(),
        forall|i: int|
            0 <= i < CELL_COUNT && (#[trigger] model.cells()[i]).given() ==> model.cells()[i].term()
                == Term::Lit(view_of(model, values)[i].0 as int),
{
    let view = view_of(model, values);
    let grid = as_numbers(values);
    assert forall|i: int| 0 <= i < CELL_COUNT implies (#[trigger] view[i]).0 == values[i] && 1
        <= view[i].0 <= 9 by {
        assert(is_digit(grid[i]));
    }
    assert(digits_of(view) =~= grid);
}

/// The answer as text; `None` where it does not solve the puzzle.
pub fn from_model<'ctx>(model: &Model<'ctx>, solution: &Assignment<'ctx>) -> (r: Option<String>)
    requires
        answer_view(*solution).home == model.home(),
    ensures
        match r {
            Some(text) => decoded(model, solution) matches Some(view) && text@ == render_text(view),
            None => decoded(model, solution) is None,
        },
{
    match view_from_model(model, solution) {
        Some(view) => Some(render(view)),
        None => None,
    }
}

} // verus!
