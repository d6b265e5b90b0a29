//! What a model tells the engine, as formulas over the terms of its cells.

use vstd::prelude::*;
use crate::board::{col_cells, cube_anchor, cube_cells, row_cells};
use crate::formula::{all_differ, Formula, Term};

verus! {

/// The two bounds on one cell: at least 1, at most 9.
pub open spec fn range_formulas(t: Term) -> Seq<Formula> {
    seq![Formula::Ge(t, Term::Lit(1)), Formula::Le(t, Term::Lit(9))]
}

/// The bounds on the first `n` cells, cell by cell.
pub open spec fn range_part_upto(terms: Seq<Term>, n: int) -> Seq<Formula> {
    Seq::new(
        (2 * n) as nat,
        |k: int|
            if k % 2 == 0 {
                Formula::Ge(terms[k / 2], Term::Lit(1))
            } else {
                Formula::Le(terms[k / 2], Term::Lit(9))
            },
    )
}

/// The bounds on every cell, cell by cell.
pub open spec fn range_part(terms: Seq<Term>) -> Seq<Formula> {
    range_part_upto(terms, terms.len() as int)
}

/// The terms of the cells of `unit`, in its order.
pub open spec fn unit_terms(terms: Seq<Term>, unit: Seq<int>) -> Seq<Term> {
    Seq::new(unit.len(), |k: int| terms[unit[k]])
}

/// "The cells of row `y` differ."
pub open spec fn row_formula(terms: Seq<Term>, y: int) -> Formula {
    all_differ(unit_terms(terms, row_cells(y)))
}

/// "The cells of column `x` differ."
pub open spec fn col_formula(terms: Seq<Term>, x: int) -> Formula {
    all_differ(unit_terms(terms, col_cells(x)))
}

/// "The cells of block `k` differ."
pub open spec fn cube_formula(terms: Seq<Term>, k: int) -> Formula {
    all_differ(unit_terms(terms, cube_cells(cube_anchor(k).0, cube_anchor(k).1)))
}

/// One formula for each of the first `n` rows.
pub open spec fn row_part_upto(terms: Seq<Term>, n: int) -> Seq<Formula> {
    Seq::new(n as nat, |y: int| row_formula(terms, y))
}

/// One formula for each of the first `n` columns.
pub open spec fn col_part_upto(terms: Seq<Term>, n: int) -> Seq<Formula> {
    Seq::new(n as nat, |x: int| col_formula(terms, x))
}

/// One formula for each of the first `n` blocks.
pub open spec fn cube_part_upto(terms: Seq<Term>, n: int) -> Seq<Formula> {
    Seq::new(n as nat, |k: int| cube_formula(terms, k))
}

/// Everything that the model of cells with these terms asserts, in the order
/// of assertion: the bounds of each cell, then the nine rows, the nine
/// columns and the nine blocks.
pub open spec fn model_formulas(terms: Seq<Term>) -> Seq<Formula> {
    range_part(terms) + row_part_upto(terms, 9) + col_part_upto(terms, 9) + cube_part_upto(
        terms,
        9,
    )
}

} // verus!
