//! Positions, cells and the constraint model of a puzzle.

use vstd::prelude::*;
use vstd::string::StringExecFns;
use crate::board::{
    clue_digit, col_cells, cube_anchor, cube_cells, digit_char, digit_text, is_clue, is_digit,
    is_symbol, malformation, row_cells, validate, well_formed, MalformedInput, BLANK, CELL_COUNT,
};
use crate::display::{decoded, view_from_model};
use crate::encoding::{
    col_part_upto, cube_part_upto, model_formulas, range_formulas, range_part, range_part_upto,
    row_part_upto, unit_terms,
};
use crate::engine::{
    all_at_home, answer_view, bool_and, bool_or, bool_view, context_id, formulas_of, int_fresh,
    int_ge, int_gt, int_le, int_literal, int_lt, int_view, solver_answer, solver_assert,
    solver_check, solver_new, solver_view, Assignment, IntView, Verdict,
};
use crate::formula::{
    all_differ, all_differ_parts, differ, index_pairs, lemma_index_pairs_count,
    lemma_index_pairs_in_range, Formula, Term,
};
use crate::laws::{lemma_satisfiable_means_solvable, solvable};

pub use crate::board::BOARD_SIZE;

verus! {

/// How solving a puzzle ended.
pub enum Outcome<'ctx> {
    /// The engine found an answer, and the answer solves the puzzle.
    Satisfiable(Assignment<'ctx>),
    /// The engine found that no digits solve the puzzle.
    Unsatisfiable,
    /// The engine failed: it gave up, held back its answer, or gave one that
    /// does not solve the puzzle.
    EngineError,
}

/// What [`settle`] makes of the engine's verdict and answer.
pub open spec fn settled<'ctx>(
    model: &Model<'ctx>,
    verdict: Verdict,
    answer: Option<Assignment<'ctx>>,
) -> Outcome<'ctx> {
    match verdict {
        Verdict::Unsat => Outcome::Unsatisfiable,
        Verdict::Unknown => Outcome::EngineError,
        Verdict::Sat => match answer {
            Some(found) => if decoded(model, &found) is Some {
                Outcome::Satisfiable(found)
            } else {
                Outcome::EngineError
            },
            None => Outcome::EngineError,
        },
    }
}

/// Classifies what the engine said of the puzzle of `model`: its verdict, and
/// its answer where it gave one. An answer counts only if it solves the
/// puzzle.
pub fn settle<'ctx>(model: &Model<'ctx>, verdict: Verdict, answer: Option<Assignment<'ctx>>) -> (r:
    Outcome<'ctx>)
    requires
        answer matches Some(found) ==> answer_view(found).home == model.home(),
    ensures
        r == settled(model, verdict, answer),
{
    match verdict {
        Verdict::Unsat => Outcome::Unsatisfiable,
        Verdict::Unknown => Outcome::EngineError,
        Verdict::Sat => match answer {
            Some(found) => {
                if view_from_model(model, &found).is_some() {
                    Outcome::Satisfiable(found)
                } else {
                    Outcome::EngineError
                }
            },
            None => Outcome::EngineError,
        },
    }
}

/// A fresh session of the model's context that holds the constraints of the
/// puzzle, and nothing else.
pub fn open_session<'ctx>(input: &Model<'ctx>) -> (solver: z3::Solver<'ctx>)
    ensures
        solver_view(solver).home == input.home(),
        solver_view(solver).assertions == model_formulas(input.terms()),
{
    let mut solver = solver_new(input.context());
    input.apply_constraints(&mut solver);
    assert(solver_view(solver).assertions =~= model_formulas(input.terms()));
    solver
}

/// Solves the puzzle of `input`: asserts its constraints in a session of its
/// own, runs the engine once and classifies what came back, as [`settle`]
/// does. A `Satisfiable` outcome holds an answer that decodes to a solution
/// of the puzzle, and an `Unsatisfiable` one says that the puzzle has none.
/// Which of the outcomes comes is up to the engine.
pub fn solve<'ctx>(input: &Model<'ctx>) -> (r: Outcome<'ctx>)
    ensures
        exists|verdict: Verdict, answer: Option<Assignment<'ctx>>|
            r == #[trigger] settled(input, verdict, answer),
        r matches Outcome::Satisfiable(found) ==> answer_view(found).home == input.home()
            && decoded(input, &found) is Some,
        r is Satisfiable ==> solvable(input),
        r is Unsatisfiable ==> !solvable(input),
{
    let solver = open_session(input);
    let verdict = solver_check(&solver);
    let answer = match verdict {
        Verdict::Sat => solver_answer(&solver),
        _ => None,
    };
    proof {
        use_type_invariant(input);
        lemma_satisfiable_means_solvable(input);
    }
    settle(input, verdict, answer)
}

/// A place on the board: column `x` and row `y`, both below 9.
#[derive(Debug, PartialEq, Eq, Structural, Hash, Copy, Clone)]
pub struct Pos {
    x: usize,
    y: usize,
}

impl Pos {
    #[verifier::type_invariant]
    spec fn on_board(self) -> bool {
        self.x < BOARD_SIZE && self.y < BOARD_SIZE
    }

    /// The column.
    pub closed spec fn col(self) -> int {
        self.x as int
    }

    /// The row.
    pub closed spec fn row(self) -> int {
        self.y as int
    }

    /// The place of this position in a raw board.
    pub open spec fn cell(self) -> int {
        self.row() * 9 + self.col()
    }

    /// The position in column `x` of row `y`.
    pub fn new(x: usize, y: usize) -> (p: Self)
        requires
            x < BOARD_SIZE,
            y < BOARD_SIZE,
        ensures
            p.col() == x,
            p.row() == y,
    {
        Pos { x, y }
    }

    /// The column.
    pub fn x(&self) -> (x: usize)
        ensures
            x == self.col(),
            x < BOARD_SIZE,
    {
        proof {
            use_type_invariant(self);
        }
        self.x
    }

    /// The row.
    pub fn y(&self) -> (y: usize)
        ensures
            y == self.row(),
            y < BOARD_SIZE,
    {
        proof {
            use_type_invariant(self);
        }
        self.y
    }

    /// The place of this position in a raw board.
    pub fn index(&self) -> (i: usize)
        ensures
            i == self.cell(),
            i < CELL_COUNT,
    {
        proof {
            use_type_invariant(self);
        }
        self.y * BOARD_SIZE + self.x
    }
}

/// Positions of equal coordinates are equal.
pub proof fn lemma_pos_determined(p: Pos, q: Pos)
    requires
        p.col() == q.col(),
        p.row() == q.row(),
    ensures
        p == q,
{
}

/// What the name of the variable of cell `i` starts with: `value_x`, the
/// column, `_y`, the row.
pub open spec fn variable_prefix(i: int) -> Seq<char> {
    "value_x"@ + seq![digit_char(i % 9)] + "_y"@ + seq![digit_char(i / 9)]
}

/// What the name of the variable at `pos` starts with.
fn variable_name(pos: Pos) -> (name: String)
    ensures
        name@ == variable_prefix(pos.cell()),
        !name@.contains('\0'),
{
    let mut name = "value_x".to_owned();
    name.append(digit_text(pos.x() as u8));
    name.append("_y");
    name.append(digit_text(pos.y() as u8));
    proof {
        reveal_strlit("value_x");
        reveal_strlit("_y");
        assert(name@ =~= variable_prefix(pos.cell()));
        assert(name@.len() == 11);
        assert forall|k: int| 0 <= k < name@.len() implies name@[k] != '\0' by {
            if k < 7 {
                assert(name@[k] == "value_x"@[k]);
            } else if k == 7 {
                assert(name@[k] == digit_char(pos.col()));
            } else if k < 10 {
                assert(name@[k] == "_y"@[k - 8]);
            } else {
                assert(name@[k] == digit_char(pos.row()));
            }
        }
    }
    name
}

/// No name starts with the prefixes of two different cells.
pub proof fn lemma_prefixes_apart(i: int, j: int, name: Seq<char>)
    requires
        0 <= i < 81,
        0 <= j < 81,
        variable_prefix(i).is_prefix_of(name),
        variable_prefix(j).is_prefix_of(name),
    ensures
        i == j,
{
    reveal_strlit("value_x");
    reveal_strlit("_y");
    let p = variable_prefix(i);
    let q = variable_prefix(j);
    assert(p.len() == 11 && q.len() == 11);
    assert(p[7] == digit_char(i % 9) && p[10] == digit_char(i / 9));
    assert(q[7] == digit_char(j % 9) && q[10] == digit_char(j / 9));
    assert(p[7] == name[7] && q[7] == name[7]);
    assert(p[10] == name[10] && q[10] == name[10]);
}

/// One square of the puzzle: its variable in the engine, and whether the
/// puzzle fixed its digit.
pub struct Cell<'ctx> {
    value: z3::ast::Int<'ctx>,
    from_input: bool,
}

impl<'ctx> Cell<'ctx> {
    /// What the cell's handle stands for.
    pub closed spec fn handle(&self) -> IntView {
        int_view(self.value)
    }

    /// The term of the cell: a numeral for a clue, a variable otherwise.
    pub open spec fn term(&self) -> Term {
        self.handle().term
    }

    /// The context that owns the cell's term.
    pub open spec fn home(&self) -> int {
        self.handle().home
    }

    /// Whether the puzzle fixed the cell's digit.
    pub closed spec fn given(&self) -> bool {
        self.from_input
    }

    /// Whether this may be the cell at place `i` of a model that lives in `home`.
    pub open spec fn fits(&self, i: int, home: int) -> bool {
        &&& self.home() == home
        &&& if self.given() {
            self.term() matches Term::Lit(d) && is_digit(d)
        } else {
            self.term() matches Term::Var(name) && variable_prefix(i).is_prefix_of(name)
        }
    }

    /// An open cell, whose digit the engine is to find.
    fn default(ctx: &'ctx z3::Context, pos: Pos) -> (c: Self)
        ensures
            !c.given(),
            c.fits(pos.cell(), context_id(*ctx)),
    {
        let name = variable_name(pos);
        Cell { value: int_fresh(ctx, name.as_str()), from_input: false }
    }

    /// A cell that holds the clue `value`, which the engine must leave alone.
    fn from_input(ctx: &'ctx z3::Context, value: i64) -> (c: Self)
        ensures
            c.given(),
            c.home() == context_id(*ctx),
            c.term() == Term::Lit(value as int),
    {
        Cell { value: int_literal(ctx, value), from_input: true }
    }

    /// The cell's variable.
    pub fn get_value(&self) -> (v: &z3::ast::Int<'ctx>)
        ensures
            int_view(*v) == self.handle(),
    {
        &self.value
    }

    /// Whether the puzzle fixed the cell's digit.
    pub fn is_solution(&self) -> (given: bool)
        ensures
            given == self.given(),
    {
        self.from_input
    }

    /// Asserts that the cell holds a digit: at least 1, at most 9.
    fn apply_constraints(&self, ctx: &'ctx z3::Context, solver: &mut z3::Solver<'ctx>)
        requires
            self.home() == context_id(*ctx),
            solver_view(*old(solver)).home == context_id(*ctx),
        ensures
            solver_view(*final(solver)).home == solver_view(*old(solver)).home,
            solver_view(*final(solver)).assertions == solver_view(*old(solver)).assertions
                + range_formulas(self.term()),
    {
        let at_least = int_ge(&self.value, &int_literal(ctx, 1));
        solver_assert(solver, &at_least);
        let at_most = int_le(&self.value, &int_literal(ctx, 9));
        solver_assert(solver, &at_most);
        assert(solver_view(*solver).assertions =~= solver_view(*old(solver)).assertions
            + range_formulas(self.term()));
    }
}

/// The terms behind a list of handles.
pub open spec fn terms_of(handles: Seq<&z3::ast::Int<'_>>) -> Seq<Term> {
    Seq::new(handles.len(), |k: int| int_view(*handles[k]).term)
}

/// Whether every handle of the list belongs to the context `home`.
pub open spec fn all_of_home(handles: Seq<&z3::ast::Int<'_>>, home: int) -> bool {
    forall|k: int| 0 <= k < handles.len() ==> (#[trigger] int_view(*handles[k])).home == home
}

/// `itertools::Itertools::combinations`, asked for the pairs among the places
/// `0..n`: every pair of places with the earlier one first, in lexicographic
/// order.
#[verifier::external_body]
pub(crate) fn pair_indices(n: usize) -> (r: Vec<(usize, usize)>)
    ensures
        r@.len() == index_pairs(n as int).len(),
        forall|k: int|
            0 <= k < r@.len() ==> (#[trigger] r@[k]).0 == index_pairs(n as int)[k].0 && r@[k].1
                == index_pairs(n as int)[k].1,
{
    itertools::Itertools::combinations(0..n, 2).map(|pair| (pair[0], pair[1])).collect()
}

/// The constraint model of one puzzle: a cell for each of the 81 places, row
/// by row, all of one engine context.
pub struct Model<'ctx> {
    ctx: &'ctx z3::Context,
    board: Vec<Cell<'ctx>>,
}

impl<'ctx> Model<'ctx> {
    #[verifier::type_invariant]
    spec fn sound(&self) -> bool {
        self.wf()
    }

    /// The cells, row by row.
    pub closed spec fn cells(&self) -> Seq<Cell<'ctx>> {
        self.board@
    }

    /// The context that the model lives in.
    pub closed spec fn home(&self) -> int {
        context_id(*self.ctx)
    }

    /// What every model is: 81 cells of one context, a digit for each clue
    /// and a variable of its own for each other cell.
    pub open spec fn wf(&self) -> bool {
        &&& self.cells().len() == CELL_COUNT
        &&& forall|i: int|
            0 <= i < self.cells().len() ==> (#[trigger] self.cells()[i]).fits(i, self.home())
    }

    /// The terms of the cells, row by row.
    pub open spec fn terms(&self) -> Seq<Term> {
        Seq::new(self.cells().len(), |i: int| self.cells()[i].term())
    }

    /// Whether the model is that of the raw board `raw`: a cell is given
    /// exactly where `raw` has a clue, and then its term is the clue's digit.
    pub open spec fn encodes(&self, raw: Seq<u8>) -> bool {
        &&& self.cells().len() == raw.len()
        &&& forall|i: int| 0 <= i < raw.len() ==> cell_encodes(#[trigger] self.cells()[i], raw[i])
    }

    /// Builds the model of the raw board `input` in the context `ctx`. A
    /// malformed board is turned down before the engine is touched.
    pub fn new(ctx: &'ctx z3::Context, input: &Vec<u8>) -> (r: Result<Model<'ctx>, MalformedInput>)
        ensures
            match r {
                Ok(m) => well_formed(input@) && m.wf() && m.home() == context_id(*ctx)
                    && m.encodes(input@),
                Err(e) => malformation(input@) == Some(e),
            },
    {
        match validate(input) {
            Err(e) => {
                return Err(e);
            },
            Ok(_) => {},
        }
        let mut board: Vec<Cell<'ctx>> = Vec::new();
        let mut y: usize = 0;
        while y < BOARD_SIZE
            invariant
                well_formed(input@),
                y <= BOARD_SIZE,
                board@.len() == y * 9,
                forall|i: int|
                    0 <= i < board@.len() ==> (#[trigger] board@[i]).fits(i, context_id(*ctx)),
                forall|i: int|
                    0 <= i < board@.len() ==> cell_encodes(#[trigger] board@[i], input@[i]),
            decreases BOARD_SIZE - y,
        {
            let mut x: usize = 0;
            while x < BOARD_SIZE
                invariant
                    well_formed(input@),
                    y < BOARD_SIZE,
                    x <= BOARD_SIZE,
                    board@.len() == y * 9 + x,
                    forall|i: int|
                        0 <= i < board@.len() ==> (#[trigger] board@[i]).fits(i, context_id(*ctx)),
                    forall|i: int|
                        0 <= i < board@.len() ==> cell_encodes(#[trigger] board@[i], input@[i]),
                decreases BOARD_SIZE - x,
            {
                let pos = Pos::new(x, y);
                let next = input[y * BOARD_SIZE + x];
                assert(is_symbol(input@[pos.cell()]));
                let cell = if next == BLANK {
                    Cell::default(ctx, pos)
                } else {
                    Cell::from_input(ctx, (next - 48) as i64)
                };
                board.push(cell);
                x += 1;
            }
            y += 1;
        }
        Ok(Model { ctx, board })
    }

    /// Whether `handles` are the variables of the cells of `unit`, in its order.
    pub open spec fn lists(&self, handles: Seq<&z3::ast::Int<'ctx>>, unit: Seq<int>) -> bool {
        &&& handles.len() == unit.len()
        &&& forall|k: int|
            0 <= k < unit.len() ==> int_view(*#[trigger] handles[k])
                == self.cells()[unit[k]].handle()
    }

    /// The variables of a unit of nine cells are of the model's context, their
    /// terms are the unit's terms, and their pairs can be counted in 32 bits.
    proof fn lemma_unit_listed(&self, handles: Seq<&z3::ast::Int<'ctx>>, unit: Seq<int>)
        requires
            self.wf(),
            self.lists(handles, unit),
            unit.len() == 9,
            forall|k: int| 0 <= k < 9 ==> 0 <= #[trigger] unit[k] < 81,
        ensures
            all_of_home(handles, self.home()),
            terms_of(handles) == unit_terms(self.terms(), unit),
            0 < index_pairs(handles.len() as int).len() <= u32::MAX,
    {
        lemma_index_pairs_count(0, 9);
        assert forall|k: int| 0 <= k < handles.len() implies (#[trigger] int_view(
            *handles[k],
        )).home == self.home() by {
            assert(self.cells()[unit[k]].fits(unit[k], self.home()));
        }
        assert(terms_of(handles) =~= unit_terms(self.terms(), unit));
    }

    /// Asserts everything that the puzzle asks for: a digit in every cell, and
    /// no digit twice in a row, a column or a block.
    pub fn apply_constraints(&self, solver: &mut z3::Solver<'ctx>)
        requires
            solver_view(*old(solver)).home == self.home(),
        ensures
            solver_view(*final(solver)).home == self.home(),
            solver_view(*final(solver)).assertions == solver_view(*old(solver)).assertions
                + model_formulas(self.terms()),
    {
        proof {
            use_type_invariant(self);
        }
        let ghost start = solver_view(*solver).assertions;
        let ghost terms = self.terms();
        let mut i: usize = 0;
        while i < self.board.len()
            invariant
                self.wf(),
                self.cells() == self.board@,
                self.home() == context_id(*self.ctx),
                terms == self.terms(),
                i <= self.board.len(),
                solver_view(*solver).home == self.home(),
                solver_view(*solver).assertions == start + range_part_upto(terms, i as int),
            decreases self.board.len() - i,
        {
            let ghost before = solver_view(*solver).assertions;
            assert(self.cells()[i as int].fits(i as int, self.home()));
            self.board[i].apply_constraints(self.ctx, solver);
            assert(solver_view(*solver).assertions =~= start + range_part_upto(
                terms,
                i as int + 1,
            )) by {
                let step = range_formulas(self.board@[i as int].term());
                assert(step.len() == 2);
                assert(solver_view(*solver).assertions == before + step);
                assert(terms[i as int] == self.board@[i as int].term());
            }
            i += 1;
        }
        assert(range_part_upto(terms, i as int) == range_part(terms));
        self.constrain_rows(solver);
        self.constrain_cols(solver);
        self.constrain_cubes(solver);
        assert(solver_view(*solver).assertions =~= start + model_formulas(terms));
    }

    /// Asserts that no digit stands twice in a row.
    fn constrain_rows(&self, solver: &mut z3::Solver<'ctx>)
        requires
            solver_view(*old(solver)).home == self.home(),
        ensures
            solver_view(*final(solver)).home == self.home(),
            solver_view(*final(solver)).assertions == solver_view(*old(solver)).assertions
                + row_part_upto(self.terms(), 9),
    {
        proof {
            use_type_invariant(self);
        }
        let ghost start = solver_view(*solver).assertions;
        let mut y: usize = 0;
        while y < BOARD_SIZE
            invariant
                self.wf(),
                y <= BOARD_SIZE,
                solver_view(*solver).home == self.home(),
                solver_view(*solver).assertions == start + row_part_upto(self.terms(), y as int),
            decreases BOARD_SIZE - y,
        {
            let row = self.get_row(y);
            proof {
                self.lemma_unit_listed(row@, row_cells(y as int));
            }
            self.constrain_distinct_values(row, solver);
            assert(solver_view(*solver).assertions =~= start + row_part_upto(
                self.terms(),
                y as int + 1,
            ));
            y += 1;
        }
    }

    /// Asserts that no digit stands twice in a column.
    fn constrain_cols(&self, solver: &mut z3::Solver<'ctx>)
        requires
            solver_view(*old(solver)).home == self.home(),
        ensures
            solver_view(*final(solver)).home == self.home(),
            solver_view(*final(solver)).assertions == solver_view(*old(solver)).assertions
                + col_part_upto(self.terms(), 9),
    {
        proof {
            use_type_invariant(self);
        }
        let ghost start = solver_view(*solver).assertions;
        let mut x: usize = 0;
        while x < BOARD_SIZE
            invariant
                self.wf(),
                x <= BOARD_SIZE,
                solver_view(*solver).home == self.home(),
                solver_view(*solver).assertions == start + col_part_upto(self.terms(), x as int),
            decreases BOARD_SIZE - x,
        {
            let col = self.get_column(x);
            proof {
                self.lemma_unit_listed(col@, col_cells(x as int));
            }
            self.constrain_distinct_values(col, solver);
            assert(solver_view(*solver).assertions =~= start + col_part_upto(
                self.terms(),
                x as int + 1,
            ));
            x += 1;
        }
    }

    /// Asserts that no digit stands twice in a block.
    fn constrain_cubes(&self, solver: &mut z3::Solver<'ctx>)
        requires
            solver_view(*old(solver)).home == self.home(),
        ensures
            solver_view(*final(solver)).home == self.home(),
            solver_view(*final(solver)).assertions == solver_view(*old(solver)).assertions
                + cube_part_upto(self.terms(), 9),
    {
        proof {
            use_type_invariant(self);
        }
        let ghost start = solver_view(*solver).assertions;
        let anchors = vec![
            Pos::new(0, 0),
            Pos::new(3, 0),
            Pos::new(6, 0),
            Pos::new(0, 3),
            Pos::new(3, 3),
            Pos::new(6, 3),
            Pos::new(0, 6),
            Pos::new(3, 6),
            Pos::new(6, 6),
        ];
        let mut k: usize = 0;
        while k < anchors.len()
            invariant
                self.wf(),
                anchors@.len() == 9,
                k <= 9,
                forall|j: int|
                    0 <= j < 9 ==> ((#[trigger] anchors@[j]).col(), anchors@[j].row())
                        == cube_anchor(j),
                solver_view(*solver).home == self.home(),
                solver_view(*solver).assertions == start + cube_part_upto(self.terms(), k as int),
            decreases 9 - k,
        {
            let anchor = anchors[k];
            assert((anchor.col(), anchor.row()) == cube_anchor(k as int));
            let cube = self.get_cube(anchor);
            proof {
                self.lemma_unit_listed(cube@, cube_cells(anchor.col(), anchor.row()));
            }
            self.constrain_distinct_values(cube, solver);
            assert(solver_view(*solver).assertions =~= start + cube_part_upto(
                self.terms(),
                k as int + 1,
            ));
            k += 1;
        }
    }

    /// Asserts that the given variables take pairwise different values: one
    /// conjunction, with "less or greater" for each pair of them.
    fn constrain_distinct_values(
        &self,
        board_cells: Vec<&z3::ast::Int<'ctx>>,
        solver: &mut z3::Solver<'ctx>,
    )
        requires
            all_of_home(board_cells@, self.home()),
            solver_view(*old(solver)).home == self.home(),
            0 < index_pairs(board_cells@.len() as int).len() <= u32::MAX,
        ensures
            solver_view(*final(solver)).home == self.home(),
            solver_view(*final(solver)).assertions == solver_view(*old(solver)).assertions.push(
                all_differ(terms_of(board_cells@)),
            ),
    {
        let ghost terms = terms_of(board_cells@);
        let ghost n = board_cells@.len() as int;
        let pairs = pair_indices(board_cells.len());
        let mut all_pairs: Vec<z3::ast::Bool<'ctx>> = Vec::new();
        let mut k: usize = 0;
        while k < pairs.len()
            invariant
                n == board_cells@.len(),
                terms == terms_of(board_cells@),
                all_of_home(board_cells@, self.home()),
                self.home() == context_id(*self.ctx),
                pairs@.len() == index_pairs(n).len(),
                forall|j: int|
                    0 <= j < pairs@.len() ==> (#[trigger] pairs@[j]).0 == index_pairs(n)[j].0
                        && pairs@[j].1 == index_pairs(n)[j].1,
                k <= pairs.len(),
                all_pairs@.len() == k,
                all_at_home(all_pairs@, self.home()),
                forall|j: int|
                    0 <= j < k ==> (#[trigger] bool_view(all_pairs@[j])).formula
                        == all_differ_parts(terms, index_pairs(n))[j],
            decreases pairs.len() - k,
        {
            let (a, b) = pairs[k];
            proof {
                lemma_index_pairs_in_range(0, n, k as int);
                assert(pairs@[k as int].0 == a && pairs@[k as int].1 == b);
                assert(int_view(*board_cells@[a as int]).home == self.home());
                assert(int_view(*board_cells@[b as int]).home == self.home());
            }
            let lt = int_lt(board_cells[a], board_cells[b]);
            let gt = int_gt(board_cells[a], board_cells[b]);
            let mut clauses: Vec<z3::ast::Bool<'ctx>> = Vec::new();
            clauses.push(lt);
            clauses.push(gt);
            assert(all_at_home(clauses@, self.home()));
            let either = bool_or(self.ctx, &clauses);
            assert(formulas_of(clauses@) =~= seq![
                Formula::Lt(terms[a as int], terms[b as int]),
                Formula::Gt(terms[a as int], terms[b as int]),
            ]);
            assert(bool_view(either).formula == differ(terms[a as int], terms[b as int]));
            all_pairs.push(either);
            k += 1;
        }
        let assertions_expr = bool_and(self.ctx, &all_pairs);
        assert(formulas_of(all_pairs@) =~= all_differ_parts(terms, index_pairs(n)));
        solver_assert(solver, &assertions_expr);
    }

    /// The variables of the block whose top left cell is `top_left`, row by row.
    fn get_cube<'a>(&'a self, top_left: Pos) -> (cube: Vec<&'a z3::ast::Int<'ctx>>)
        requires
            top_left.col() <= 6,
            top_left.row() <= 6,
        ensures
            self.lists(cube@, cube_cells(top_left.col(), top_left.row())),
    {
        proof {
            use_type_invariant(self);
        }
        let mut cube: Vec<&'a z3::ast::Int<'ctx>> = Vec::new();
        let x0 = top_left.x();
        let y0 = top_left.y();
        let ghost unit = cube_cells(x0 as int, y0 as int);
        let mut dy: usize = 0;
        while dy < 3
            invariant
                self.wf(),
                self.cells() == self.board@,
                x0 <= 6,
                y0 <= 6,
                dy <= 3,
                unit == cube_cells(x0 as int, y0 as int),
                cube@.len() == dy * 3,
                forall|k: int|
                    0 <= k < cube@.len() ==> int_view(*#[trigger] cube@[k])
                        == self.cells()[unit[k]].handle(),
            decreases 3 - dy,
        {
            let mut dx: usize = 0;
            while dx < 3
                invariant
                    self.wf(),
                    self.cells() == self.board@,
                    x0 <= 6,
                    y0 <= 6,
                    dy < 3,
                    dx <= 3,
                    unit == cube_cells(x0 as int, y0 as int),
                    cube@.len() == dy * 3 + dx,
                    forall|k: int|
                        0 <= k < cube@.len() ==> int_view(*#[trigger] cube@[k])
                            == self.cells()[unit[k]].handle(),
                decreases 3 - dx,
            {
                let next_pos = Pos::new(x0 + dx, y0 + dy);
                cube.push(&self.board[next_pos.index()].value);
                dx += 1;
            }
            dy += 1;
        }
        cube
    }

    /// The variables of row `target_y`, left to right.
    fn get_row<'a>(&'a self, target_y: usize) -> (row: Vec<&'a z3::ast::Int<'ctx>>)
        requires
            target_y < BOARD_SIZE,
        ensures
            self.lists(row@, row_cells(target_y as int)),
    {
        proof {
            use_type_invariant(self);
        }
        let mut row: Vec<&'a z3::ast::Int<'ctx>> = Vec::new();
        let ghost unit = row_cells(target_y as int);
        let mut x: usize = 0;
        while x < BOARD_SIZE
            invariant
                self.wf(),
                self.cells() == self.board@,
                target_y < BOARD_SIZE,
                x <= BOARD_SIZE,
                unit == row_cells(target_y as int),
                row@.len() == x,
                forall|k: int|
                    0 <= k < row@.len() ==> int_view(*#[trigger] row@[k])
                        == self.cells()[unit[k]].handle(),
            decreases BOARD_SIZE - x,
        {
            let next_pos = Pos::new(x, target_y);
            row.push(&self.board[next_pos.index()].value);
            x += 1;
        }
        row
    }

    /// The variables of column `target_x`, top to bottom.
    fn get_column<'a>(&'a self, target_x: usize) -> (col: Vec<&'a z3::ast::Int<'ctx>>)
        requires
            target_x < BOARD_SIZE,
        ensures
            self.lists(col@, col_cells(target_x as int)),
    {
        proof {
            use_type_invariant(self);
        }
        let mut col: Vec<&'a z3::ast::Int<'ctx>> = Vec::new();
        let ghost unit = col_cells(target_x as int);
        let mut y: usize = 0;
        while y < BOARD_SIZE
            invariant
                self.wf(),
                self.cells() == self.board@,
                target_x < BOARD_SIZE,
                y <= BOARD_SIZE,
                unit == col_cells(target_x as int),
                col@.len() == y,
                forall|k: int|
                    0 <= k < col@.len() ==> int_view(*#[trigger] col@[k])
                        == self.cells()[unit[k]].handle(),
            decreases BOARD_SIZE - y,
        {
            let next_pos = Pos::new(target_x, y);
            col.push(&self.board[next_pos.index()].value);
            y += 1;
        }
        col
    }

    /// The context that the model lives in.
    pub fn context(&self) -> (ctx: &'ctx z3::Context)
        ensures
            context_id(*ctx) == self.home(),
    {
        self.ctx
    }

    /// The cell at `pos`.
    pub fn cell(&self, pos: Pos) -> (c: &Cell<'ctx>)
        ensures
            self.wf(),
            *c == self.cells()[pos.cell()],
    {
        proof {
            use_type_invariant(self);
        }
        &self.board[pos.index()]
    }
}

/// Whether the cell `c` is what a model holds for the symbol `b`.
pub open spec fn cell_encodes(c: Cell<'_>, b: u8) -> bool {
    if is_clue(b) {
        c.given() && c.term() == Term::Lit(clue_digit(b))
    } else {
        !c.given()
    }
}

} // verus!
