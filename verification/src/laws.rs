//! What holds across the modules: the constraints mean the rules of the
//! game, puzzles without a clash can be satisfied, and decoding keeps the
//! clues.

use vstd::prelude::*;
use crate::board::{
    block_of, clue_digit, col_cells, col_of, cube_anchor, cube_cells, free_of_clashes, is_clue,
    is_digit, keeps_clues, row_cells, row_of, same_unit, valid_grid, CELL_COUNT,
};
use crate::display::{
    accepts, as_numbers, decoded, digits_of, lemma_accepted_view, readings, CellView,
};
use crate::encoding::{
    col_formula, cube_formula, model_formulas, range_part, row_formula, unit_terms,
};
use crate::engine::Assignment;
use crate::formula::{
    all_differ, all_hold, holds, index_pairs, lemma_all_differ, lemma_index_pairs_count,
    satisfiable, term_value, Formula, Term, Valuation,
};
use crate::sudoku::{lemma_prefixes_apart, variable_prefix, Model};

verus! {

/// The grid that the terms of the cells denote under `env`.
pub open spec fn grid_under(terms: Seq<Term>, env: Valuation) -> Seq<int> {
    Seq::new(terms.len(), |i: int| term_value(terms[i], env))
}

/// Whether the cells of `unit` hold pairwise different entries of `grid`.
pub open spec fn unit_differs(grid: Seq<int>, unit: Seq<int>) -> bool {
    forall|a: int, b: int|
        0 <= a < b < unit.len() ==> grid[#[trigger] unit[a]] != grid[#[trigger] unit[b]]
}

/// The formula of a unit holds exactly when its cells hold different values.
proof fn lemma_unit_formula(terms: Seq<Term>, env: Valuation, unit: Seq<int>)
    requires
        forall|k: int| 0 <= k < unit.len() ==> 0 <= #[trigger] unit[k] < terms.len(),
    ensures
        holds(all_differ(unit_terms(terms, unit)), env) <==> unit_differs(
            grid_under(terms, env),
            unit,
        ),
{
    let ts = unit_terms(terms, unit);
    let grid = grid_under(terms, env);
    lemma_all_differ(ts, env);
    assert forall|a: int| 0 <= a < unit.len() implies term_value(#[trigger] ts[a], env)
        == grid[unit[a]] by {}
    if holds(all_differ(ts), env) {
        assert forall|a: int, b: int| 0 <= a < b < unit.len() implies grid[#[trigger] unit[a]]
            != grid[#[trigger] unit[b]] by {
            assert(term_value(ts[a], env) != term_value(ts[b], env));
        }
    }
    if unit_differs(grid, unit) {
        assert forall|a: int, b: int| 0 <= a < b < ts.len() implies term_value(
            #[trigger] ts[a],
            env,
        ) != term_value(#[trigger] ts[b], env) by {
            assert(grid[unit[a]] != grid[unit[b]]);
        }
    }
}

/// Whether `grid` holds a digit in every cell.
pub open spec fn all_digits(grid: Seq<int>) -> bool {
    forall|i: int| 0 <= i < grid.len() ==> is_digit(#[trigger] grid[i])
}

/// Whether no row, column or block of `grid` holds an entry twice, unit by unit.
pub open spec fn units_differ(grid: Seq<int>) -> bool {
    &&& forall|y: int| 0 <= y < 9 ==> unit_differs(grid, #[trigger] row_cells(y))
    &&& forall|x: int| 0 <= x < 9 ==> unit_differs(grid, #[trigger] col_cells(x))
    &&& forall|k: int|
        0 <= k < 9 ==> unit_differs(grid, cube_cells(#[trigger] cube_anchor(k).0, cube_anchor(k).1))
}

/// Where cell `i` stands in its block.
pub open spec fn place_in_block(i: int) -> int {
    ((i / 9) % 3) * 3 + (i % 9) % 3
}

/// A cell is the cell at its place of its block.
proof fn lemma_place_in_block(i: int)
    requires
        0 <= i < 81,
    ensures
        0 <= block_of(i) < 9,
        0 <= place_in_block(i) < 9,
        cube_cells(cube_anchor(block_of(i)).0, cube_anchor(block_of(i)).1)[place_in_block(i)] == i,
{
    let r = i / 9;
    let c = i % 9;
    assert(i == 9 * r + c && 0 <= r < 9 && 0 <= c < 9);
    assert(i / 27 == r / 3);
    let k = block_of(i);
    assert(k == (r / 3) * 3 + c / 3);
    assert(0 <= r / 3 < 3 && 0 <= c / 3 < 3);
    assert(k % 3 == c / 3 && k / 3 == r / 3);
    let a = place_in_block(i);
    assert(a == (r % 3) * 3 + c % 3);
    assert(a / 3 == r % 3 && a % 3 == c % 3);
    assert((r / 3) * 3 + r % 3 == r);
    assert((c / 3) * 3 + c % 3 == c);
}

/// The cell at place `a` of block `k` lies in block `k`, at that place.
proof fn lemma_cell_of_block(k: int, a: int)
    requires
        0 <= k < 9,
        0 <= a < 9,
    ensures
        0 <= cube_cells(cube_anchor(k).0, cube_anchor(k).1)[a] < 81,
        block_of(cube_cells(cube_anchor(k).0, cube_anchor(k).1)[a]) == k,
        place_in_block(cube_cells(cube_anchor(k).0, cube_anchor(k).1)[a]) == a,
{
    let x0 = cube_anchor(k).0;
    let y0 = cube_anchor(k).1;
    let i = cube_cells(x0, y0)[a];
    let r = y0 + a / 3;
    let c = x0 + a % 3;
    assert(x0 == (k % 3) * 3 && y0 == (k / 3) * 3);
    assert(0 <= k % 3 < 3 && 0 <= k / 3 < 3);
    assert(0 <= a / 3 < 3 && 0 <= a % 3 < 3);
    assert(i == 9 * r + c && 0 <= r < 9 && 0 <= c < 9);
    assert(i / 9 == r && i % 9 == c);
    assert(i / 27 == r / 3);
    assert(r / 3 == k / 3 && c / 3 == k % 3);
    assert(r % 3 == a / 3 && c % 3 == a % 3);
    assert((k / 3) * 3 + k % 3 == k);
    assert((a / 3) * 3 + a % 3 == a);
}

/// Cells that share a unit are two places of a row, a column or a block.
proof fn lemma_shared_unit(grid: Seq<int>, i: int, j: int)
    requires
        grid.len() == 81,
        units_differ(grid),
        0 <= i < j < 81,
        same_unit(i, j),
    ensures
        grid[i] != grid[j],
{
    if row_of(i) == row_of(j) {
        let unit = row_cells(i / 9);
        assert(unit_differs(grid, unit));
        assert(unit[i % 9] == i && unit[j % 9] == j);
    } else if col_of(i) == col_of(j) {
        let unit = col_cells(i % 9);
        assert(unit_differs(grid, unit));
        assert(unit[i / 9] == i && unit[j / 9] == j);
    } else {
        let k = block_of(i);
        lemma_place_in_block(i);
        lemma_place_in_block(j);
        let unit = cube_cells(cube_anchor(k).0, cube_anchor(k).1);
        assert(unit_differs(grid, unit));
        let a = place_in_block(i);
        let b = place_in_block(j);
        assert(unit[a] == i && unit[b] == j);
        if b < a {
            assert(grid[unit[b]] != grid[unit[a]]);
        }
    }
}

/// Two places of one row, column or block are cells that share a unit.
proof fn lemma_units_of_valid_grid(grid: Seq<int>)
    requires
        valid_grid(grid),
    ensures
        units_differ(grid),
{
    assert forall|y: int| 0 <= y < 9 implies unit_differs(grid, #[trigger] row_cells(y)) by {
        let unit = row_cells(y);
        assert forall|a: int, b: int| 0 <= a < b < unit.len() implies grid[#[trigger] unit[a]]
            != grid[#[trigger] unit[b]] by {
            assert(same_unit(unit[a], unit[b]));
        }
    }
    assert forall|x: int| 0 <= x < 9 implies unit_differs(grid, #[trigger] col_cells(x)) by {
        let unit = col_cells(x);
        assert forall|a: int, b: int| 0 <= a < b < unit.len() implies grid[#[trigger] unit[a]]
            != grid[#[trigger] unit[b]] by {
            assert(same_unit(unit[a], unit[b]));
        }
    }
    assert forall|k: int| 0 <= k < 9 implies unit_differs(
        grid,
        cube_cells(#[trigger] cube_anchor(k).0, cube_anchor(k).1),
    ) by {
        let unit = cube_cells(cube_anchor(k).0, cube_anchor(k).1);
        assert forall|a: int, b: int| 0 <= a < b < unit.len() implies grid[#[trigger] unit[a]]
            != grid[#[trigger] unit[b]] by {
            lemma_cell_of_block(k, a);
            lemma_cell_of_block(k, b);
            assert(unit[a] != unit[b]);
            assert(same_unit(unit[a], unit[b]));
            if unit[b] < unit[a] {
                assert(grid[unit[b]] != grid[unit[a]]);
            }
        }
    }
}

/// The constraints say no more and no less than the rules of the game: under
/// any valuation, every formula that a model of 81 cells asserts holds exactly
/// when the values of the cells form a completed Sudoku.
pub proof fn lemma_constraints_mean_the_rules(terms: Seq<Term>, env: Valuation)
    requires
        terms.len() == CELL_COUNT,
    ensures
        all_hold(model_formulas(terms), env) <==> valid_grid(grid_under(terms, env)),
{
    let fs = model_formulas(terms);
    let grid = grid_under(terms, env);
    let ranges = range_part(terms);
    assert(fs.len() == 189);
    assert forall|k: int| 0 <= k < 162 implies #[trigger] fs[k] == ranges[k] by {}
    assert forall|y: int| 0 <= y < 9 implies #[trigger] fs[162 + y] == row_formula(terms, y) by {}
    assert forall|x: int| 0 <= x < 9 implies #[trigger] fs[171 + x] == col_formula(terms, x) by {}
    assert forall|k: int| 0 <= k < 9 implies #[trigger] fs[180 + k] == cube_formula(terms, k) by {}
    assert forall|y: int| 0 <= y < 9 implies (holds(row_formula(terms, y), env) <==> unit_differs(
        grid,
        #[trigger] row_cells(y),
    )) by {
        lemma_unit_formula(terms, env, row_cells(y));
    }
    assert forall|x: int| 0 <= x < 9 implies (holds(col_formula(terms, x), env) <==> unit_differs(
        grid,
        #[trigger] col_cells(x),
    )) by {
        lemma_unit_formula(terms, env, col_cells(x));
    }
    assert forall|k: int| 0 <= k < 9 implies (holds(cube_formula(terms, k), env) <==> unit_differs(
        grid,
        cube_cells(#[trigger] cube_anchor(k).0, cube_anchor(k).1),
    )) by {
        lemma_unit_formula(terms, env, cube_cells(cube_anchor(k).0, cube_anchor(k).1));
    }
    assert forall|i: int| 0 <= i < 81 implies ((holds(ranges[2 * i], env) && holds(
        ranges[2 * i + 1],
        env,
    )) <==> is_digit(#[trigger] grid[i])) by {
        assert(ranges[2 * i] == Formula::Ge(terms[i], Term::Lit(1)));
        assert(ranges[2 * i + 1] == Formula::Le(terms[i], Term::Lit(9)));
    }
    if all_hold(fs, env) {
        assert forall|i: int| 0 <= i < grid.len() implies is_digit(#[trigger] grid[i]) by {
            assert(holds(fs[2 * i], env) && holds(fs[2 * i + 1], env));
        }
        assert forall|y: int| 0 <= y < 9 implies unit_differs(grid, #[trigger] row_cells(y)) by {
            assert(holds(fs[162 + y], env));
        }
        assert forall|x: int| 0 <= x < 9 implies unit_differs(grid, #[trigger] col_cells(x)) by {
            assert(holds(fs[171 + x], env));
        }
        assert forall|k: int| 0 <= k < 9 implies unit_differs(
            grid,
            cube_cells(#[trigger] cube_anchor(k).0, cube_anchor(k).1),
        ) by {
            assert(holds(fs[180 + k], env));
        }
        assert forall|i: int, j: int|
            0 <= i < j < grid.len() && same_unit(i, j) implies #[trigger] grid[i]
            != #[trigger] grid[j] by {
            lemma_shared_unit(grid, i, j);
        }
    }
    if valid_grid(grid) {
        lemma_units_of_valid_grid(grid);
        assert forall|k: int| 0 <= k < fs.len() implies holds(#[trigger] fs[k], env) by {
            if k < 162 {
                let i = k / 2;
                assert(is_digit(grid[i]));
                assert(k == 2 * i || k == 2 * i + 1);
            } else if k < 171 {
                let y = k - 162;
                assert(unit_differs(grid, row_cells(y)));
                assert(fs[162 + y] == row_formula(terms, y));
            } else if k < 180 {
                let x = k - 171;
                assert(unit_differs(grid, col_cells(x)));
                assert(fs[171 + x] == col_formula(terms, x));
            } else {
                let c = k - 180;
                assert(unit_differs(grid, cube_cells(cube_anchor(c).0, cube_anchor(c).1)));
                assert(fs[180 + c] == cube_formula(terms, c));
            }
        }
    }
}

/// The bounds of a model are two for each of its 81 cells, its units are 27,
/// and each unit asks for 36 pairs to differ.
pub proof fn lemma_size_of_the_constraints(terms: Seq<Term>)
    requires
        terms.len() == CELL_COUNT,
    ensures
        range_part(terms).len() == 162,
        model_formulas(terms).len() == 162 + 27,
        index_pairs(9).len() == 36,
{
    lemma_index_pairs_count(0, 9);
}

/// Whether `grid` holds the clue of every cell that the puzzle of `model` gave.
pub open spec fn honours(model: &Model<'_>, grid: Seq<int>) -> bool {
    forall|i: int|
        0 <= i < CELL_COUNT && (#[trigger] model.cells()[i]).given() ==> model.cells()[i].term()
            == Term::Lit(grid[i])
}

/// Whether the puzzle of `model` has a solution: a completed Sudoku that holds
/// its clues.
pub open spec fn solvable(model: &Model<'_>) -> bool {
    exists|grid: Seq<int>| valid_grid(grid) && honours(model, grid)
}

/// The valuation that gives every variable the entry of `grid` at its cell.
/// The cell of a variable is told by what its name starts with.
pub open spec fn valuation_of(grid: Seq<int>) -> Valuation {
    |name: Seq<char>| grid[choose|i: int| 0 <= i < 81 && variable_prefix(i).is_prefix_of(name)]
}

/// Under the valuation of a grid that holds the clues, the cells of a model
/// denote that grid.
pub proof fn lemma_valuation_gives_grid(model: &Model<'_>, grid: Seq<int>)
    requires
        model.wf(),
        grid.len() == CELL_COUNT,
        honours(model, grid),
    ensures
        grid_under(model.terms(), valuation_of(grid)) == grid,
{
    let env = valuation_of(grid);
    let terms = model.terms();
    assert forall|i: int| 0 <= i < 81 implies term_value(#[trigger] terms[i], env) == grid[i] by {
        let c = model.cells()[i];
        assert(c.fits(i, model.home()));
        if !c.given() {
            let name = c.term()->Var_0;
            let j = choose|j: int| 0 <= j < 81 && variable_prefix(j).is_prefix_of(name);
            lemma_prefixes_apart(i, j, name);
        }
    }
    assert(grid_under(terms, env) =~= grid);
}

/// Every solution of a puzzle satisfies its model: where `grid` is a completed
/// Sudoku that holds the clues, the valuation of `grid` makes every formula
/// of the model true.
pub proof fn lemma_solutions_satisfy_the_model(model: &Model<'_>, grid: Seq<int>)
    requires
        model.wf(),
        valid_grid(grid),
        honours(model, grid),
    ensures
        all_hold(model_formulas(model.terms()), valuation_of(grid)),
{
    lemma_valuation_gives_grid(model, grid);
    lemma_constraints_mean_the_rules(model.terms(), valuation_of(grid));
}

/// Every valuation that satisfies a model gives a solution of its puzzle: the
/// values of the cells form a completed Sudoku that holds the clues.
pub proof fn lemma_the_model_admits_only_solutions(model: &Model<'_>, env: Valuation)
    requires
        model.wf(),
        all_hold(model_formulas(model.terms()), env),
    ensures
        valid_grid(grid_under(model.terms(), env)),
        honours(model, grid_under(model.terms(), env)),
{
    lemma_constraints_mean_the_rules(model.terms(), env);
    assert forall|i: int| 0 <= i < CELL_COUNT && (#[trigger] model.cells()[i]).given() implies
        model.cells()[i].term() == Term::Lit(grid_under(model.terms(), env)[i]) by {
        assert(model.cells()[i].fits(i, model.home()));
    }
}

/// A model can be satisfied exactly when its puzzle has a solution.
pub proof fn lemma_satisfiable_means_solvable(model: &Model<'_>)
    requires
        model.wf(),
    ensures
        satisfiable(model_formulas(model.terms())) <==> solvable(model),
{
    let fs = model_formulas(model.terms());
    if satisfiable(fs) {
        let env = choose|env: Valuation| all_hold(fs, env);
        lemma_the_model_admits_only_solutions(model, env);
        let grid = grid_under(model.terms(), env);
        assert(valid_grid(grid) && honours(model, grid));
    }
    if solvable(model) {
        let grid = choose|grid: Seq<int>| valid_grid(grid) && honours(model, grid);
        lemma_solutions_satisfy_the_model(model, grid);
    }
}

/// The model of a raw board is satisfied by the solutions of that puzzle and
/// by nothing else: under any valuation, every formula of the model holds
/// exactly when the values of the cells are a completed Sudoku that keeps the
/// clues of the board.
pub proof fn lemma_the_model_encodes_the_puzzle(raw: Seq<u8>, model: &Model<'_>, env: Valuation)
    requires
        model.wf(),
        model.encodes(raw),
    ensures
        all_hold(model_formulas(model.terms()), env) <==> (valid_grid(
            grid_under(model.terms(), env),
        ) && keeps_clues(grid_under(model.terms(), env), raw)),
{
    lemma_constraints_mean_the_rules(model.terms(), env);
    let grid = grid_under(model.terms(), env);
    assert forall|i: int| 0 <= i < raw.len() && is_clue(#[trigger] raw[i]) implies i < grid.len()
        && grid[i] == clue_digit(raw[i]) by {
        assert(model.cells()[i].given());
    }
}

/// A board on which a clue stands twice in a row, a column or a block cannot
/// be satisfied: no valuation makes every formula of its model true.
pub proof fn lemma_clashing_clues_cannot_be_satisfied(
    raw: Seq<u8>,
    model: &Model<'_>,
    env: Valuation,
)
    requires
        model.wf(),
        model.encodes(raw),
        !free_of_clashes(raw),
    ensures
        !all_hold(model_formulas(model.terms()), env),
{
    lemma_the_model_encodes_the_puzzle(raw, model, env);
    let grid = grid_under(model.terms(), env);
    if valid_grid(grid) {
        let (i, j) = choose|i: int, j: int|
            0 <= i < j < raw.len() && same_unit(i, j) && is_clue(#[trigger] raw[i]) && raw[i]
                == #[trigger] raw[j];
        assert(is_clue(raw[j]));
        assert(grid[i] == clue_digit(raw[i]) && grid[j] == clue_digit(raw[j]));
        assert(grid[i] != grid[j]);
    }
}

/// The digit of cell `i` in one completed Sudoku: the first row counts from
/// 1 to 9, and each row is the one above, shifted.
pub open spec fn sample_digit(i: int) -> int {
    (3 * ((i / 9) % 3) + (i / 9) / 3 + i % 9) % 9 + 1
}

/// One completed Sudoku.
pub open spec fn sample_grid() -> Seq<int> {
    Seq::new(CELL_COUNT as nat, |i: int| sample_digit(i))
}

/// The sample grid is a completed Sudoku.
pub proof fn lemma_sample_grid_is_valid()
    ensures
        valid_grid(sample_grid()),
{
    let grid = sample_grid();
    assert forall|i: int, j: int|
        0 <= i < j < grid.len() && same_unit(i, j) implies #[trigger] grid[i]
        != #[trigger] grid[j] by {
        lemma_sample_digits_differ(i, j);
    }
}

/// Two cells of one unit hold different digits of the sample grid.
proof fn lemma_sample_digits_differ(i: int, j: int)
    requires
        0 <= i < j < 81,
        same_unit(i, j),
    ensures
        sample_digit(i) != sample_digit(j),
{
    let r = i / 9;
    let c = i % 9;
    let s = j / 9;
    let d = j % 9;
    assert(i == 9 * r + c && j == 9 * s + d);
    assert(i / 27 == r / 3 && j / 27 == s / 3);
    let u = 3 * (r % 3) + r / 3;
    let w = 3 * (s % 3) + s / 3;
    assert(0 <= r / 3 < 3 && 0 <= s / 3 < 3 && 0 <= c / 3 < 3 && 0 <= d / 3 < 3);
    assert(r == 3 * (r / 3) + r % 3 && s == 3 * (s / 3) + s % 3);
    assert(c == 3 * (c / 3) + c % 3 && d == 3 * (d / 3) + d % 3);
    let p = u + c;
    let q = w + d;
    assert(0 <= p < 17 && 0 <= q < 17);
    assert(p % 9 == if p < 9 { p } else { p - 9 });
    assert(q % 9 == if q < 9 { q } else { q - 9 });
    if sample_digit(i) == sample_digit(j) {
        assert(p - q == 0 || p - q == 9 || p - q == -9);
        if r == s {
            assert(false);
        } else if c == d {
            assert(false);
        } else {
            assert(block_of(i) == (r / 3) * 3 + c / 3);
            assert(block_of(j) == (s / 3) * 3 + d / 3);
            assert(r / 3 == s / 3 && c / 3 == d / 3);
            assert(p - q == 3 * (r % 3 - s % 3) + (c % 3 - d % 3));
            assert(false);
        }
    }
}

/// A puzzle without clues can be satisfied: some valuation makes every
/// formula of its model true.
pub proof fn lemma_blank_puzzle_is_satisfiable(model: &Model<'_>)
    requires
        model.wf(),
        forall|i: int| 0 <= i < CELL_COUNT ==> !(#[trigger] model.cells()[i]).given(),
    ensures
        exists|env: Valuation| all_hold(model_formulas(model.terms()), env),
{
    lemma_sample_grid_is_valid();
    lemma_solutions_satisfy_the_model(model, sample_grid());
}

/// Decoding keeps the clues: where the model is that of the raw board `raw`
/// and the answer decodes, a cell with a clue shows the clue's digit, marked
/// as given, and every other cell is marked as found.
pub proof fn lemma_decoding_keeps_clues(
    raw: Seq<u8>,
    model: &Model<'_>,
    solution: &Assignment<'_>,
)
    requires
        raw.len() == CELL_COUNT,
        model.encodes(raw),
        decoded(model, solution) is Some,
    ensures
        forall|i: int|
            0 <= i < CELL_COUNT ==> #[trigger] decoded(model, solution)->0[i].1 == is_clue(raw[i]),
        forall|i: int|
            0 <= i < CELL_COUNT && is_clue(raw[i]) ==> #[trigger] decoded(model, solution)->0[i].0
                == clue_digit(raw[i]),
{
    let view = decoded(model, solution)->0;
    let values = readings(model, solution);
    assert(accepts(model, values));
    assert forall|i: int| 0 <= i < CELL_COUNT implies (#[trigger] view[i]).1 == is_clue(raw[i])
        && (is_clue(raw[i]) ==> view[i].0 == clue_digit(raw[i])) by {
        let c = model.cells()[i];
        if is_clue(raw[i]) {
            assert(c.given());
            assert(c.term() == Term::Lit(values[i] as int));
        }
    }
}

/// What decoding shows satisfies the model: where the answer decodes, the
/// valuation of the digits shown makes every formula of the model true.
pub proof fn lemma_decoded_answers_satisfy_the_model(
    model: &Model<'_>,
    solution: &Assignment<'_>,
)
    requires
        model.wf(),
        decoded(model, solution) is Some,
    ensures
        all_hold(
            model_formulas(model.terms()),
            valuation_of(digits_of(decoded(model, solution)->0)),
        ),
{
    let values = readings(model, solution);
    lemma_accepted_view(model, values);
    lemma_solutions_satisfy_the_model(model, as_numbers(values));
}

/// Decoding is repeatable: whatever two decodings of one answer give, they
/// give the same.
pub proof fn lemma_decoding_repeats(
    model: &Model<'_>,
    solution: &Assignment<'_>,
    first: Option<Seq<CellView>>,
    second: Option<Seq<CellView>>,
)
    requires
        first == decoded(model, solution),
        second == decoded(model, solution),
    ensures
        first == second,
{
}

} // verus!
