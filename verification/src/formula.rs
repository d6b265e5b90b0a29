//! Integer terms and boolean formulas, as mathematical values.
//!
//! The engine's handles are opaque. What a handle stands for is one of these
//! values, and the meaning of a formula is fixed here, under an assignment of
//! integers to variable names.

use vstd::prelude::*;

verus! {

/// An integer term: a numeral, or a variable known by its name.
pub enum Term {
    Lit(int),
    Var(Seq<char>),
}

/// A boolean formula over integer terms.
pub enum Formula {
    Lt(Term, Term),
    Le(Term, Term),
    Gt(Term, Term),
    Ge(Term, Term),
    And(Seq<Formula>),
    Or(Seq<Formula>),
}

/// A valuation: an integer for every variable name.
pub type Valuation = spec_fn(Seq<char>) -> int;

/// The integer that `t` denotes under `env`.
pub open spec fn term_value(t: Term, env: Valuation) -> int {
    match t {
        Term::Lit(v) => v,
        Term::Var(name) => env(name),
    }
}

/// Whether `f` is true under `env`.
pub open spec fn holds(f: Formula, env: Valuation) -> bool
    decreases f,
{
    match f {
        Formula::Lt(a, b) => term_value(a, env) < term_value(b, env),
        Formula::Le(a, b) => term_value(a, env) <= term_value(b, env),
        Formula::Gt(a, b) => term_value(a, env) > term_value(b, env),
        Formula::Ge(a, b) => term_value(a, env) >= term_value(b, env),
        Formula::And(parts) => all_hold(parts, env),
        Formula::Or(parts) => some_holds(parts, env),
    }
}

/// Whether every formula of `fs` is true under `env`.
pub open spec fn all_hold(fs: Seq<Formula>, env: Valuation) -> bool
    decreases fs,
{
    forall|k: int| 0 <= k < fs.len() ==> holds(#[trigger] fs[k], env)
}

/// Whether at least one formula of `fs` is true under `env`.
pub open spec fn some_holds(fs: Seq<Formula>, env: Valuation) -> bool
    decreases fs,
{
    exists|k: int| 0 <= k < fs.len() && holds(#[trigger] fs[k], env)
}

/// Whether some valuation makes every formula of `fs` true.
pub open spec fn satisfiable(fs: Seq<Formula>) -> bool {
    exists|env: Valuation| all_hold(fs, env)
}

/// "`a` and `b` differ", said with orderings alone.
pub open spec fn differ(a: Term, b: Term) -> Formula {
    Formula::Or(seq![Formula::Lt(a, b), Formula::Gt(a, b)])
}

/// The pairs `(i, i + 1), .., (i, n - 1)`.
pub open spec fn pairs_led_by(i: int, n: int) -> Seq<(int, int)> {
    Seq::new((n - 1 - i) as nat, |d: int| (i, i + 1 + d))
}

/// The pairs `(a, b)` with `i <= a < b < n`, in lexicographic order.
pub open spec fn index_pairs_from(i: int, n: int) -> Seq<(int, int)>
    decreases n - i,
{
    if i < 0 || i + 1 >= n {
        Seq::empty()
    } else {
        pairs_led_by(i, n) + index_pairs_from(i + 1, n)
    }
}

/// Every way to pick two of `n` places, the earlier place first, in
/// lexicographic order.
pub open spec fn index_pairs(n: int) -> Seq<(int, int)> {
    index_pairs_from(0, n)
}

/// One conjunction that makes the terms of `unit` pairwise different: a
/// [`differ`] for each pair of [`index_pairs`].
pub open spec fn all_differ(unit: Seq<Term>) -> Formula {
    Formula::And(all_differ_parts(unit, index_pairs(unit.len() as int)))
}

/// A [`differ`] for each pair of places in `pairs`.
pub open spec fn all_differ_parts(unit: Seq<Term>, pairs: Seq<(int, int)>) -> Seq<Formula> {
    Seq::new(pairs.len(), |k: int| differ(unit[pairs[k].0], unit[pairs[k].1]))
}

/// There are `(n - i) * (n - i - 1) / 2` pairs in `index_pairs_from(i, n)`.
pub proof fn lemma_index_pairs_count(i: int, n: int)
    requires
        0 <= i <= n,
    ensures
        2 * index_pairs_from(i, n).len() == (n - i) * (n - i - 1),
    decreases n - i,
{
    let m = n - i;
    if i + 1 >= n {
        assert(m * (m - 1) == 0) by (nonlinear_arith)
            requires
                0 <= m <= 1,
        ;
    } else {
        lemma_index_pairs_count(i + 1, n);
        let rest = index_pairs_from(i + 1, n).len() as int;
        assert(2 * (m - 1 + rest) == m * (m - 1)) by (nonlinear_arith)
            requires
                2 * rest == (m - 1) * (m - 2),
        ;
    }
}

/// Every pair of `index_pairs_from(i, n)` is in order and in range.
pub proof fn lemma_index_pairs_in_range(i: int, n: int, k: int)
    requires
        0 <= i,
        0 <= k < index_pairs_from(i, n).len(),
    ensures
        i <= index_pairs_from(i, n)[k].0 < index_pairs_from(i, n)[k].1 < n,
    decreases n - i,
{
    if i + 1 < n {
        if k >= pairs_led_by(i, n).len() {
            lemma_index_pairs_in_range(i + 1, n, k - pairs_led_by(i, n).len());
        }
    }
}

/// Every pair in order and in range occurs in `index_pairs_from(i, n)`.
pub proof fn lemma_index_pairs_complete(i: int, n: int, a: int, b: int) -> (k: int)
    requires
        0 <= i <= a < b < n,
    ensures
        0 <= k < index_pairs_from(i, n).len(),
        index_pairs_from(i, n)[k] == (a, b),
    decreases n - i,
{
    if a == i {
        let k = b - i - 1;
        assert(pairs_led_by(i, n)[k] == (a, b));
        k
    } else {
        let k = lemma_index_pairs_complete(i + 1, n, a, b);
        pairs_led_by(i, n).len() + k
    }
}

/// [`all_differ`] means what its name says: it holds exactly when the terms of
/// `unit` have pairwise different values.
pub proof fn lemma_all_differ(unit: Seq<Term>, env: Valuation)
    ensures
        holds(all_differ(unit), env) <==> (forall|a: int, b: int|
            0 <= a < b < unit.len() ==> term_value(#[trigger] unit[a], env) != term_value(
                #[trigger] unit[b],
                env,
            )),
{
    let n = unit.len() as int;
    let pairs = index_pairs(n);
    let parts = all_differ_parts(unit, pairs);
    assert forall|k: int| 0 <= k < parts.len() implies (holds(#[trigger] parts[k], env)
        <==> term_value(unit[pairs[k].0], env) != term_value(unit[pairs[k].1], env)) by {
        lemma_index_pairs_in_range(0, n, k);
        lemma_differ(unit[pairs[k].0], unit[pairs[k].1], env);
    }
    if holds(all_differ(unit), env) {
        assert forall|a: int, b: int| 0 <= a < b < unit.len() implies term_value(
            #[trigger] unit[a],
            env,
        ) != term_value(#[trigger] unit[b], env) by {
            let k = lemma_index_pairs_complete(0, n, a, b);
            assert(holds(parts[k], env));
        }
    }
    if forall|a: int, b: int|
        0 <= a < b < unit.len() ==> term_value(#[trigger] unit[a], env) != term_value(
            #[trigger] unit[b],
            env,
        ) {
        assert forall|k: int| 0 <= k < parts.len() implies holds(#[trigger] parts[k], env) by {
            lemma_index_pairs_in_range(0, n, k);
        }
    }
}

/// [`differ`] holds exactly when the two terms have different values.
pub proof fn lemma_differ(a: Term, b: Term, env: Valuation)
    ensures
        holds(differ(a, b), env) <==> term_value(a, env) != term_value(b, env),
{
    reveal_with_fuel(holds, 3);
    let parts = seq![Formula::Lt(a, b), Formula::Gt(a, b)];
    assert(parts.len() == 2);
    assert(parts[0] == Formula::Lt(a, b));
    assert(parts[1] == Formula::Gt(a, b));
    if term_value(a, env) < term_value(b, env) {
        assert(holds(parts[0], env));
    }
    if term_value(a, env) > term_value(b, env) {
        assert(holds(parts[1], env));
    }
}

} // verus!
