//! Where boards come from: the text of a file, or a random draw of clues.

use vstd::prelude::*;
use crate::board::{
    free_of_clashes, is_clue, is_symbol, same_unit, well_formed, MalformedInput, BLANK, CELL_COUNT,
};
use crate::sudoku::BOARD_SIZE;

verus! {

/// `rand::rngs::ThreadRng`, the random number generator of the running thread.
#[verifier::external_type_specification]
#[verifier::external_body]
pub struct ExThreadRng(rand::rngs::ThreadRng);

/// `rand::thread_rng`: the generator of the running thread.
#[verifier::external_body]
pub(crate) fn thread_rng() -> rand::rngs::ThreadRng {
    rand::thread_rng()
}

/// `rand::Rng::gen_range` on `low..high`: some number of that range, which
/// must not be empty.
#[verifier::external_body]
pub(crate) fn gen_range(rng: &mut rand::rngs::ThreadRng, low: usize, high: usize) -> (r: usize)
    requires
        low < high,
    ensures
        low <= r < high,
{
    rand::Rng::gen_range(rng, low..high)
}

/// Whether `c` is white space, as `char::is_whitespace` tells it.
pub uninterp spec fn is_space(c: char) -> bool;

/// `char::is_whitespace`: whether `c` has the White_Space property of
/// Unicode. A space, a line feed and a no-break space have it.
#[verifier::external_body]
pub(crate) fn char_is_whitespace(c: char) -> (b: bool)
    ensures
        b == is_space(c),
        c == ' ' || c == '\n' || c == '\u{a0}' ==> b,
{
    c.is_whitespace()
}

/// Whether `c` is white space. A space, a line feed and a no-break space
/// are.
pub fn is_white_space(c: char) -> (b: bool)
    ensures
        b == is_space(c),
        c == ' ' || c == '\n' || c == '\u{a0}' ==> b,
{
    char_is_whitespace(c)
}

/// How many draws [`Args::generate_board`] makes at most.
pub const DRAW_LIMIT: u64 = 0xffff_ffff_ffff_ffff;

/// The number of clues of `raw`.
pub open spec fn clue_count(raw: Seq<u8>) -> nat
    decreases raw.len(),
{
    if raw.len() == 0 {
        0
    } else {
        clue_count(raw.drop_last()) + if is_clue(raw.last()) {
            1nat
        } else {
            0nat
        }
    }
}

/// A board without clues counts none.
pub proof fn lemma_no_clue_counts_none(raw: Seq<u8>)
    requires
        forall|i: int| 0 <= i < raw.len() ==> !is_clue(#[trigger] raw[i]),
    ensures
        clue_count(raw) == 0,
    decreases raw.len(),
{
    if raw.len() > 0 {
        lemma_no_clue_counts_none(raw.drop_last());
    }
}

/// Writing a clue where none stood adds one clue.
pub proof fn lemma_new_clue_counts_one(raw: Seq<u8>, at: int, b: u8)
    requires
        0 <= at < raw.len(),
        !is_clue(raw[at]),
        is_clue(b),
    ensures
        clue_count(raw.update(at, b)) == clue_count(raw) + 1,
    decreases raw.len(),
{
    if at == raw.len() - 1 {
        assert(raw.update(at, b).drop_last() =~= raw.drop_last());
    } else {
        assert(raw.update(at, b).drop_last() =~= raw.drop_last().update(at, b));
        lemma_new_clue_counts_one(raw.drop_last(), at, b);
    }
}

/// Whether `val` may stand in cell `at` of `raw`: no other cell of its row,
/// its column or its block holds `val`.
pub open spec fn placement_fits(raw: Seq<u8>, at: int, val: u8) -> bool {
    forall|j: int| 0 <= j < raw.len() && j != at && same_unit(at, j) ==> #[trigger] raw[j] != val
}

/// A board without a clash stays so when a clue is placed where it fits.
pub proof fn lemma_placement_keeps_peace(raw: Seq<u8>, at: int, val: u8)
    requires
        raw.len() == CELL_COUNT,
        0 <= at < CELL_COUNT,
        free_of_clashes(raw),
        placement_fits(raw, at, val),
    ensures
        free_of_clashes(raw.update(at, val)),
{
    let next = raw.update(at, val);
    assert forall|i: int, j: int|
        0 <= i < j < next.len() && same_unit(i, j) && is_clue(#[trigger] next[i]) implies next[i]
        != #[trigger] next[j] by {
        if i == at {
            assert(raw[j] != val);
        } else if j == at {
            assert(same_unit(at, i));
            assert(raw[i] != val);
        } else {
            assert(is_clue(raw[i]));
            assert(raw[i] != raw[j]);
        }
    }
}

/// The board of 81 blanks.
pub open spec fn blank() -> Seq<u8> {
    Seq::new(CELL_COUNT as nat, |i: int| BLANK)
}

/// The cell that the draw `d` (a column, a row, a symbol) points at.
pub open spec fn draw_cell(d: (usize, usize, u8)) -> int {
    d.1 * 9 + d.0
}

/// Whether the draw `d` names a cell of the board and a clue.
pub open spec fn draw_in_range(d: (usize, usize, u8)) -> bool {
    d.0 < BOARD_SIZE && d.1 < BOARD_SIZE && is_clue(d.2)
}

/// Whether the draw `d` lands on `raw` when `wanted` clues are asked for:
/// fewer clues stand, the draw names a cell and a clue, the cell is blank and
/// the clue fits there.
pub open spec fn draw_lands(wanted: int, raw: Seq<u8>, d: (usize, usize, u8)) -> bool {
    &&& clue_count(raw) < wanted
    &&& draw_in_range(d)
    &&& raw[draw_cell(d)] == BLANK
    &&& placement_fits(raw, draw_cell(d), d.2)
}

/// The board after the draw `d`: with its clue where it lands, unchanged
/// where it does not.
pub open spec fn after_draw(wanted: int, raw: Seq<u8>, d: (usize, usize, u8)) -> Seq<u8> {
    if draw_lands(wanted, raw, d) {
        raw.update(draw_cell(d), d.2)
    } else {
        raw
    }
}

/// The board that the draws make of 81 blanks, one after another, when
/// `wanted` clues are asked for.
pub open spec fn drawn_board(wanted: int, draws: Seq<(usize, usize, u8)>) -> Seq<u8>
    decreases draws.len(),
{
    if draws.len() == 0 {
        blank()
    } else {
        after_draw(wanted, drawn_board(wanted, draws.drop_last()), draws.last())
    }
}

/// Whether some clue can still be placed on `raw`: a cell is blank and a clue
/// fits there.
pub open spec fn room_left(raw: Seq<u8>) -> bool {
    exists|at: int, val: u8|
        0 <= at < CELL_COUNT && is_clue(val) && raw[at] == BLANK && #[trigger] placement_fits(
            raw,
            at,
            val,
        )
}

/// A draw keeps a board well formed and free of clashes, and adds one clue
/// where it lands.
pub proof fn lemma_after_draw(wanted: int, raw: Seq<u8>, d: (usize, usize, u8))
    requires
        well_formed(raw),
        free_of_clashes(raw),
    ensures
        well_formed(after_draw(wanted, raw, d)),
        free_of_clashes(after_draw(wanted, raw, d)),
        clue_count(after_draw(wanted, raw, d)) == clue_count(raw) + if draw_lands(wanted, raw, d) {
            1nat
        } else {
            0nat
        },
{
    if draw_lands(wanted, raw, d) {
        let at = draw_cell(d);
        let next = raw.update(at, d.2);
        lemma_placement_keeps_peace(raw, at, d.2);
        lemma_new_clue_counts_one(raw, at, d.2);
        assert forall|i: int| 0 <= i < next.len() implies is_symbol(#[trigger] next[i]) by {
            if i != at {
                assert(is_symbol(raw[i]));
            }
        }
    }
}

/// Whatever the draws, the board they make is well formed and free of
/// clashes, and holds no more clues than were asked for.
pub proof fn lemma_drawn_board(wanted: int, draws: Seq<(usize, usize, u8)>)
    requires
        0 <= wanted,
    ensures
        well_formed(drawn_board(wanted, draws)),
        free_of_clashes(drawn_board(wanted, draws)),
        clue_count(drawn_board(wanted, draws)) <= wanted,
    decreases draws.len(),
{
    if draws.len() == 0 {
        lemma_no_clue_counts_none(blank());
    } else {
        lemma_drawn_board(wanted, draws.drop_last());
        lemma_after_draw(wanted, drawn_board(wanted, draws.drop_last()), draws.last());
    }
}

/// The text without its white space.
pub open spec fn without_spaces(text: Seq<char>) -> Seq<char>
    decreases text.len(),
{
    if text.len() == 0 {
        Seq::empty()
    } else if is_space(text.last()) {
        without_spaces(text.drop_last())
    } else {
        without_spaces(text.drop_last()).push(text.last())
    }
}

/// Whether `c` is a clue or the blank marker.
pub open spec fn is_symbol_char(c: char) -> bool {
    c == '.' || ('1' <= c && c <= '9')
}

/// What [`board_from_text`] makes of a text.
pub open spec fn board_of_text(text: Seq<char>) -> Result<Seq<u8>, MalformedInput> {
    let symbols = without_spaces(text);
    if symbols.len() != CELL_COUNT {
        Err(MalformedInput::WrongLength)
    } else if exists|i: int| 0 <= i < symbols.len() && !is_symbol_char(#[trigger] symbols[i]) {
        Err(MalformedInput::BadSymbol)
    } else {
        Ok(Seq::new(symbols.len(), |i: int| symbols[i] as u8))
    }
}

/// The board that `text` holds, white space apart: its other characters must
/// be 81 symbols, each a clue or a blank.
pub fn board_from_text(text: &str) -> (r: Result<Vec<u8>, MalformedInput>)
    ensures
        match r {
            Ok(board) => board_of_text(text@) == Ok::<Seq<u8>, MalformedInput>(board@)
                && well_formed(board@),
            Err(e) => board_of_text(text@) == Err::<Seq<u8>, MalformedInput>(e),
        },
{
    let mut symbols: Vec<char> = Vec::new();
    for c in it: text.chars()
        invariant
            it.seq() == text@,
            symbols@ == without_spaces(text@.subrange(0, it.index() as int)),
    {
        assert(text@.subrange(0, it.index() + 1).drop_last() =~= text@.subrange(
            0,
            it.index() as int,
        ));
        if !is_white_space(c) {
            symbols.push(c);
        }
    }
    assert(text@.subrange(0, text@.len() as int) =~= text@);
    if symbols.len() != CELL_COUNT {
        return Err(MalformedInput::WrongLength);
    }
    let mut board: Vec<u8> = Vec::new();
    let mut k: usize = 0;
    while k < CELL_COUNT
        invariant
            symbols@ == without_spaces(text@),
            symbols@.len() == CELL_COUNT,
            k <= CELL_COUNT,
            board@.len() == k,
            forall|j: int| 0 <= j < k ==> is_symbol_char(#[trigger] symbols@[j]),
            forall|j: int| 0 <= j < k ==> #[trigger] board@[j] == symbols@[j] as u8,
        decreases CELL_COUNT - k,
    {
        let c = symbols[k];
        if c == '.' || ('1' <= c && c <= '9') {
            board.push(c as u8);
        } else {
            assert(!is_symbol_char(symbols@[k as int]));
            return Err(MalformedInput::BadSymbol);
        }
        k += 1;
    }
    assert(board@ =~= Seq::new(symbols@.len(), |i: int| symbols@[i] as u8));
    assert forall|j: int| 0 <= j < board@.len() implies is_symbol(#[trigger] board@[j]) by {
        assert(is_symbol_char(symbols@[j]));
    }
    Ok(board)
}

/// What the program was asked to do.
pub struct Args {
    /// The number of clues to draw for a random board.
    pub generate: usize,
    /// The file to load a board from; empty for a random board.
    pub input: String,
}

impl Args {
    /// Draws a random board of `generate` clues: on 81 blanks, one random cell
    /// and one random digit after another are drawn, and a draw is placed
    /// where its cell is blank and its digit fits. The flag tells whether the
    /// board holds all the clues asked for. It may not: the drawing stops
    /// after [`DRAW_LIMIT`] draws, or when no clue fits on any blank cell.
    pub fn generate_board(&self) -> (r: (Vec<u8>, bool))
        ensures
            well_formed(r.0@),
            free_of_clashes(r.0@),
            clue_count(r.0@) <= self.generate,
            r.1 == (clue_count(r.0@) == self.generate),
            exists|draws: Seq<(usize, usize, u8)>|
                {
                    &&& r.0@ == #[trigger] drawn_board(self.generate as int, draws)
                    &&& forall|k: int| 0 <= k < draws.len() ==> draw_in_range(#[trigger] draws[k])
                    &&& r.1 || draws.len() == DRAW_LIMIT || !room_left(r.0@)
                },
    {
        let mut r = thread_rng();
        let mut board = blank_board();
        let ghost mut drawn: Seq<(usize, usize, u8)> = Seq::empty();
        let mut draws: u64 = 0;
        let mut placed: usize = 0;
        let mut stuck = !self.has_room(&board);
        while placed < self.generate && draws < DRAW_LIMIT && !stuck
            invariant
                board@ == drawn_board(self.generate as int, drawn),
                forall|k: int| 0 <= k < drawn.len() ==> draw_in_range(#[trigger] drawn[k]),
                drawn.len() == draws,
                draws <= DRAW_LIMIT,
                board@.len() == CELL_COUNT,
                placed == clue_count(board@),
                placed <= self.generate,
                stuck ==> !room_left(board@),
            decreases DRAW_LIMIT - draws,
        {
            draws += 1;
            let cell_value = (gen_range(&mut r, 1, BOARD_SIZE + 1) + 48) as u8;
            let candidate_x = gen_range(&mut r, 0, BOARD_SIZE);
            let candidate_y = gen_range(&mut r, 0, BOARD_SIZE);
            let draw = (candidate_x, candidate_y, cell_value);
            proof {
                lemma_drawn_board(self.generate as int, drawn);
                lemma_after_draw(self.generate as int, board@, draw);
                assert(drawn.push(draw).drop_last() =~= drawn);
                drawn = drawn.push(draw);
            }
            if self.place_draw(&mut board, draw) {
                placed += 1;
                stuck = !self.has_room(&board);
            }
        }
        proof {
            lemma_drawn_board(self.generate as int, drawn);
        }
        (board, placed == self.generate)
    }

    /// Makes the board of the given draws, as [`Args::generate_board`] does of
    /// its random ones: each draw is placed on the board of those before it
    /// while clues are asked for, its cell is blank and its digit fits.
    pub fn place_draws(&self, draws: &Vec<(usize, usize, u8)>) -> (board: Vec<u8>)
        ensures
            board@ == drawn_board(self.generate as int, draws@),
            well_formed(board@),
            free_of_clashes(board@),
            clue_count(board@) <= self.generate,
    {
        let mut board = blank_board();
        let mut i: usize = 0;
        while i < draws.len()
            invariant
                i <= draws.len(),
                board@.len() == CELL_COUNT,
                board@ == drawn_board(self.generate as int, draws@.subrange(0, i as int)),
            decreases draws.len() - i,
        {
            assert(draws@.subrange(0, i + 1).drop_last() =~= draws@.subrange(0, i as int));
            proof {
                lemma_drawn_board(self.generate as int, draws@.subrange(0, i as int));
                lemma_after_draw(self.generate as int, board@, draws@[i as int]);
            }
            self.place_draw(&mut board, draws[i]);
            i += 1;
        }
        assert(draws@.subrange(0, i as int) =~= draws@);
        proof {
            lemma_drawn_board(self.generate as int, draws@);
        }
        board
    }

    /// Places one draw on the board if it lands there, and says whether it
    /// did: clues must still be asked for, the draw must name a cell and a
    /// clue, the cell must be blank and the clue must fit.
    pub fn place_draw(&self, board: &mut Vec<u8>, draw: (usize, usize, u8)) -> (landed: bool)
        requires
            old(board)@.len() == CELL_COUNT,
        ensures
            landed == draw_lands(self.generate as int, old(board)@, draw),
            final(board)@ == after_draw(self.generate as int, old(board)@, draw),
    {
        let (x, y, val) = draw;
        if count_clues(board) < self.generate && x < BOARD_SIZE && y < BOARD_SIZE && 49 <= val
            && val <= 57 && board[y * BOARD_SIZE + x] == BLANK {
            self.place_clue(board, x, y, val)
        } else {
            false
        }
    }

    /// Whether some clue can still be placed on the board.
    pub fn has_room(&self, board: &Vec<u8>) -> (room: bool)
        requires
            board@.len() == CELL_COUNT,
        ensures
            room == room_left(board@),
    {
        let mut at: usize = 0;
        while at < CELL_COUNT
            invariant
                board@.len() == CELL_COUNT,
                at <= CELL_COUNT,
                forall|i: int, val: u8|
                    0 <= i < at && is_clue(val) && board@[i] == BLANK ==> !#[trigger] placement_fits(
                        board@,
                        i,
                        val,
                    ),
            decreases CELL_COUNT - at,
        {
            if board[at] == BLANK {
                let mut val: u8 = 49;
                while val <= 57
                    invariant
                        board@.len() == CELL_COUNT,
                        at < CELL_COUNT,
                        board@[at as int] == BLANK,
                        49 <= val <= 58,
                        forall|v: u8| 49 <= v < val ==> !#[trigger] placement_fits(board@, at as int, v),
                    decreases 58 - val,
                {
                    assert((at / 9) * 9 + at % 9 == at);
                    if self.valid_placement(board, at % BOARD_SIZE, at / BOARD_SIZE, val) {
                        assert(is_clue(val) && board@[at as int] == BLANK && placement_fits(
                            board@,
                            at as int,
                            val,
                        ));
                        return true;
                    }
                    val += 1;
                }
            }
            at += 1;
        }
        false
    }

    /// Places the clue `val` in column `x` of row `y` if it may be placed
    /// there, and says whether it did.
    pub fn place_clue(&self, board: &mut Vec<u8>, x: usize, y: usize, val: u8) -> (placed: bool)
        requires
            old(board)@.len() == CELL_COUNT,
            x < BOARD_SIZE,
            y < BOARD_SIZE,
        ensures
            placed == placement_fits(old(board)@, y * 9 + x, val),
            final(board)@ == if placed {
                old(board)@.update(y * 9 + x, val)
            } else {
                old(board)@
            },
    {
        if self.valid_placement(board, x, y, val) {
            board.set(y * BOARD_SIZE + x, val);
            true
        } else {
            false
        }
    }

    /// Whether the clue `val` may be placed in column `x` of row `y`: no
    /// other cell of that row, that column or that block holds it.
    pub fn valid_placement(&self, board: &Vec<u8>, x: usize, y: usize, val: u8) -> (ok: bool)
        requires
            board@.len() == CELL_COUNT,
            x < BOARD_SIZE,
            y < BOARD_SIZE,
        ensures
            ok == placement_fits(board@, y * 9 + x, val),
    {
        let ghost at = (y * 9 + x) as int;
        let mut check_x: usize = 0;
        while check_x < BOARD_SIZE
            invariant
                board@.len() == CELL_COUNT,
                x < BOARD_SIZE,
                y < BOARD_SIZE,
                at == y * 9 + x,
                check_x <= BOARD_SIZE,
                forall|j: int|
                    y * 9 <= j < y * 9 + check_x && j != at ==> #[trigger] board@[j] != val,
            decreases BOARD_SIZE - check_x,
        {
            if x != check_x {
                if board[y * BOARD_SIZE + check_x] == val {
                    assert(same_unit(at, y * 9 + check_x));
                    return false;
                }
            }
            check_x += 1;
        }
        let mut check_y: usize = 0;
        while check_y < BOARD_SIZE
            invariant
                board@.len() == CELL_COUNT,
                x < BOARD_SIZE,
                y < BOARD_SIZE,
                at == y * 9 + x,
                check_y <= BOARD_SIZE,
                forall|j: int| y * 9 <= j < y * 9 + 9 && j != at ==> #[trigger] board@[j] != val,
                forall|j: int|
                    0 <= j < check_y * 9 && j % 9 == x && j != at ==> #[trigger] board@[j] != val,
            decreases BOARD_SIZE - check_y,
        {
            let ghost below = (check_y * 9 + x) as int;
            assert(below % 9 == x && below / 9 == check_y);
            assert(at % 9 == x && at / 9 == y);
            if y != check_y {
                if board[check_y * BOARD_SIZE + x] == val {
                    assert(same_unit(at, below));
                    return false;
                }
            }
            assert forall|j: int|
                0 <= j < (check_y + 1) * 9 && j % 9 == x && j != at implies #[trigger] board@[j]
                != val by {
                if j >= check_y * 9 {
                    assert(j == below);
                }
            }
            check_y += 1;
        }
        let top = (y / 3) * 3;
        let left = (x / 3) * 3;
        let mut check_y: usize = top;
        while check_y < top + 3
            invariant
                board@.len() == CELL_COUNT,
                x < BOARD_SIZE,
                y < BOARD_SIZE,
                at == y * 9 + x,
                top == (y / 3) * 3,
                left == (x / 3) * 3,
                top <= check_y <= top + 3,
                forall|j: int|
                    top * 9 <= j < check_y * 9 && left <= j % 9 < left + 3 && j != at
                        ==> #[trigger] board@[j] != val,
            decreases top + 3 - check_y,
        {
            let mut check_x: usize = left;
            while check_x < left + 3
                invariant
                    board@.len() == CELL_COUNT,
                    x < BOARD_SIZE,
                    y < BOARD_SIZE,
                    at == y * 9 + x,
                    top == (y / 3) * 3,
                    left == (x / 3) * 3,
                    top <= check_y < top + 3,
                    left <= check_x <= left + 3,
                    forall|j: int|
                        top * 9 <= j < check_y * 9 && left <= j % 9 < left + 3 && j != at
                            ==> #[trigger] board@[j] != val,
                    forall|j: int|
                        check_y * 9 + left <= j < check_y * 9 + check_x && j != at
                            ==> #[trigger] board@[j] != val,
                decreases left + 3 - check_x,
            {
                if !(check_y == y && check_x == x) {
                    if board[check_y * BOARD_SIZE + check_x] == val {
                        proof {
                            let j = (check_y * 9 + check_x) as int;
                            assert(j / 9 == check_y && j % 9 == check_x);
                            assert(j / 27 == check_y / 3 && at / 27 == y / 3);
                            assert(at / 9 == y && at % 9 == x);
                            assert(same_unit(at, j));
                        }
                        return false;
                    }
                }
                check_x += 1;
            }
            check_y += 1;
        }
        proof {
            assert forall|j: int|
                0 <= j < 81 && j != at && same_unit(at, j) implies #[trigger] board@[j] != val by {
                assert(at / 9 == y && at % 9 == x);
                assert(j / 27 == (j / 9) / 3 && at / 27 == y / 3);
                assert(j == 9 * (j / 9) + j % 9);
            }
        }
        true
    }
}

/// A board of 81 blanks.
pub fn blank_board() -> (board: Vec<u8>)
    ensures
        board@ == blank(),
        well_formed(board@),
        free_of_clashes(board@),
        clue_count(board@) == 0,
{
    let mut board: Vec<u8> = Vec::new();
    let mut i: usize = 0;
    while i < CELL_COUNT
        invariant
            i <= CELL_COUNT,
            board@.len() == i,
            forall|k: int| 0 <= k < i ==> #[trigger] board@[k] == BLANK,
            clue_count(board@) == 0,
        decreases CELL_COUNT - i,
    {
        let ghost before = board@;
        board.push(BLANK);
        assert(board@.drop_last() =~= before);
        i += 1;
    }
    assert(board@ =~= blank());
    board
}

/// The number of clues on the board.
pub fn count_clues(board: &Vec<u8>) -> (n: usize)
    ensures
        n == clue_count(board@),
{
    let mut n: usize = 0;
    let mut i: usize = 0;
    while i < board.len()
        invariant
            i <= board.len(),
            n <= i,
            n == clue_count(board@.subrange(0, i as int)),
        decreases board.len() - i,
    {
        assert(board@.subrange(0, i + 1).drop_last() =~= board@.subrange(0, i as int));
        let b = board[i];
        if 49 <= b && b <= 57 {
            n += 1;
        }
        i += 1;
    }
    assert(board@.subrange(0, i as int) =~= board@);
    n
}

} // verus!
