//! The calls into Z3.
//!
//! Nothing in this file is proved. Each item states what the rest of the
//! library takes for granted about the `z3` crate: the handle types, the plain
//! value that each handle stands for, and one contract per function called.

use vstd::prelude::*;
use crate::formula::{satisfiable, Formula, Term};

verus! {

/// `z3::Context`, the owner of every other engine object.
#[verifier::external_type_specification]
#[verifier::external_body]
pub struct ExContext(z3::Context);

/// `z3::ast::Int`, a handle to an integer term.
#[verifier::external_type_specification]
#[verifier::external_body]
pub struct ExInt<'ctx>(z3::ast::Int<'ctx>);

/// `z3::ast::Bool`, a handle to a boolean term.
#[verifier::external_type_specification]
#[verifier::external_body]
pub struct ExBool<'ctx>(z3::ast::Bool<'ctx>);

/// `z3::Solver`, a session that collects assertions.
#[verifier::external_type_specification]
#[verifier::external_body]
pub struct ExSolver<'ctx>(z3::Solver<'ctx>);

/// The engine's answer to a satisfiable session: the `z3` crate's model of
/// the assertions, held as it came. Only [`answer_eval`] looks inside.
#[verifier::external_body]
pub struct Assignment<'ctx> {
    inner: z3::Model<'ctx>,
}

/// What an integer handle stands for.
pub struct IntView {
    /// The context that owns the term.
    pub home: int,
    /// The term itself.
    pub term: Term,
}

/// What a boolean handle stands for.
pub struct BoolView {
    /// The context that owns the formula.
    pub home: int,
    /// The formula itself.
    pub formula: Formula,
}

/// What a solver session stands for.
pub struct SolverView {
    /// The context that owns the session.
    pub home: int,
    /// Everything asserted so far, oldest first.
    pub assertions: Seq<Formula>,
}

/// What an answer stands for.
pub struct AnswerView {
    /// The context that owns the answer.
    pub home: int,
    /// What evaluating a term under the answer gives, if anything.
    pub readings: spec_fn(Term) -> Option<Term>,
}

/// The identity of a context. Objects of different contexts must not meet.
pub uninterp spec fn context_id(ctx: z3::Context) -> int;

/// The term behind an integer handle, and its context.
pub uninterp spec fn int_view(i: z3::ast::Int<'_>) -> IntView;

/// The formula behind a boolean handle, and its context.
pub uninterp spec fn bool_view(b: z3::ast::Bool<'_>) -> BoolView;

/// The assertions that a solver session holds, and its context.
pub uninterp spec fn solver_view(s: z3::Solver<'_>) -> SolverView;

/// The evaluations that an answer gives, and its context.
pub uninterp spec fn answer_view(m: Assignment<'_>) -> AnswerView;

/// The formulas behind a list of boolean handles.
pub open spec fn formulas_of(parts: Seq<z3::ast::Bool<'_>>) -> Seq<Formula> {
    Seq::new(parts.len(), |k: int| bool_view(parts[k]).formula)
}

/// Whether every handle of `parts` belongs to the context `home`.
pub open spec fn all_at_home(parts: Seq<z3::ast::Bool<'_>>, home: int) -> bool {
    forall|k: int| 0 <= k < parts.len() ==> (#[trigger] bool_view(parts[k])).home == home
}

/// What the engine said of a session.
#[derive(Clone, Copy, Debug, PartialEq, Eq, Structural)]
pub enum Verdict {
    /// No assignment satisfies the assertions.
    Unsat,
    /// The engine gave up: interrupted, timed out or failed otherwise.
    Unknown,
    /// Some assignment satisfies the assertions.
    Sat,
}

/// `z3::ast::Int::from_i64`: the numeral `v`, owned by `ctx`.
#[verifier::external_body]
pub(crate) fn int_literal<'ctx>(ctx: &'ctx z3::Context, v: i64) -> (r: z3::ast::Int<'ctx>)
    ensures
        int_view(r).home == context_id(*ctx),
        int_view(r).term == Term::Lit(v as int),
{
    z3::ast::Int::from_i64(ctx, v)
}

/// `z3::ast::Int::fresh_const`: an integer variable owned by `ctx`, under a
/// name that the engine makes up and that starts with `prefix`. The prefix
/// must hold no NUL character, which the call cannot pass on.
#[verifier::external_body]
pub(crate) fn int_fresh<'ctx>(ctx: &'ctx z3::Context, prefix: &str) -> (r: z3::ast::Int<'ctx>)
    requires
        !prefix@.contains('\0'),
    ensures
        int_view(r).home == context_id(*ctx),
        int_view(r).term is Var,
        prefix@.is_prefix_of(int_view(r).term->Var_0),
{
    z3::ast::Int::fresh_const(ctx, prefix)
}

/// `z3::ast::Int::lt`: the formula `a < b`. Both terms must be of one context.
#[verifier::external_body]
pub(crate) fn int_lt<'ctx>(a: &z3::ast::Int<'ctx>, b: &z3::ast::Int<'ctx>) -> (r: z3::ast::Bool<
    'ctx,
>)
    requires
        int_view(*a).home == int_view(*b).home,
    ensures
        bool_view(r).home == int_view(*a).home,
        bool_view(r).formula == Formula::Lt(int_view(*a).term, int_view(*b).term),
{
    a.lt(b)
}

/// `z3::ast::Int::le`: the formula `a <= b`. Both terms must be of one context.
#[verifier::external_body]
pub(crate) fn int_le<'ctx>(a: &z3::ast::Int<'ctx>, b: &z3::ast::Int<'ctx>) -> (r: z3::ast::Bool<
    'ctx,
>)
    requires
        int_view(*a).home == int_view(*b).home,
    ensures
        bool_view(r).home == int_view(*a).home,
        bool_view(r).formula == Formula::Le(int_view(*a).term, int_view(*b).term),
{
    a.le(b)
}

/// `z3::ast::Int::gt`: the formula `a > b`. Both terms must be of one context.
#[verifier::external_body]
pub(crate) fn int_gt<'ctx>(a: &z3::ast::Int<'ctx>, b: &z3::ast::Int<'ctx>) -> (r: z3::ast::Bool<
    'ctx,
>)
    requires
        int_view(*a).home == int_view(*b).home,
    ensures
        bool_view(r).home == int_view(*a).home,
        bool_view(r).formula == Formula::Gt(int_view(*a).term, int_view(*b).term),
{
    a.gt(b)
}

/// `z3::ast::Int::ge`: the formula `a >= b`. Both terms must be of one context.
#[verifier::external_body]
pub(crate) fn int_ge<'ctx>(a: &z3::ast::Int<'ctx>, b: &z3::ast::Int<'ctx>) -> (r: z3::ast::Bool<
    'ctx,
>)
    requires
        int_view(*a).home == int_view(*b).home,
    ensures
        bool_view(r).home == int_view(*a).home,
        bool_view(r).formula == Formula::Ge(int_view(*a).term, int_view(*b).term),
{
    a.ge(b)
}

/// `z3::ast::Bool::or`: the disjunction of `parts`, in their order. Every part
/// must be of the context `ctx`; there must be at least one, and their number
/// must fit in 32 bits.
#[verifier::external_body]
pub(crate) fn bool_or<'ctx>(ctx: &'ctx z3::Context, parts: &Vec<z3::ast::Bool<'ctx>>) -> (r:
    z3::ast::Bool<'ctx>)
    requires
        all_at_home(parts@, context_id(*ctx)),
        0 < parts@.len() <= u32::MAX,
    ensures
        bool_view(r).home == context_id(*ctx),
        bool_view(r).formula == Formula::Or(formulas_of(parts@)),
{
    let refs: Vec<&z3::ast::Bool<'ctx>> = parts.iter().collect();
    z3::ast::Bool::or(ctx, &refs)
}

/// `z3::ast::Bool::and`: the conjunction of `parts`, in their order. Every
/// part must be of the context `ctx`; there must be at least one, and their
/// number must fit in 32 bits.
#[verifier::external_body]
pub(crate) fn bool_and<'ctx>(ctx: &'ctx z3::Context, parts: &Vec<z3::ast::Bool<'ctx>>) -> (r:
    z3::ast::Bool<'ctx>)
    requires
        all_at_home(parts@, context_id(*ctx)),
        0 < parts@.len() <= u32::MAX,
    ensures
        bool_view(r).home == context_id(*ctx),
        bool_view(r).formula == Formula::And(formulas_of(parts@)),
{
    let refs: Vec<&z3::ast::Bool<'ctx>> = parts.iter().collect();
    z3::ast::Bool::and(ctx, &refs)
}

/// `z3::Solver::new`: a session of `ctx` with nothing asserted.
#[verifier::external_body]
pub(crate) fn solver_new<'ctx>(ctx: &'ctx z3::Context) -> (r: z3::Solver<'ctx>)
    ensures
        solver_view(r).home == context_id(*ctx),
        solver_view(r).assertions == Seq::<Formula>::empty(),
{
    z3::Solver::new(ctx)
}

/// `z3::Solver::assert`: adds the formula behind `b` to the session, after
/// those it holds. The formula must be of the session's context.
#[verifier::external_body]
pub(crate) fn solver_assert<'ctx>(solver: &mut z3::Solver<'ctx>, b: &z3::ast::Bool<'ctx>)
    requires
        bool_view(*b).home == solver_view(*old(solver)).home,
    ensures
        solver_view(*final(solver)).home == solver_view(*old(solver)).home,
        solver_view(*final(solver)).assertions == solver_view(*old(solver)).assertions.push(
            bool_view(*b).formula,
        ),
{
    solver.assert(b)
}

/// `z3::Solver::check`: runs the decision procedure once on what the session
/// holds. `Sat` says that the assertions can be satisfied, `Unsat` that they
/// cannot; which verdict comes, and whether the engine gives up instead, is up
/// to the engine.
#[verifier::external_body]
pub(crate) fn solver_check<'ctx>(solver: &z3::Solver<'ctx>) -> (r: Verdict)
    ensures
        r == Verdict::Sat ==> satisfiable(solver_view(*solver).assertions),
        r == Verdict::Unsat ==> !satisfiable(solver_view(*solver).assertions),
{
    match solver.check() {
        z3::SatResult::Unsat => Verdict::Unsat,
        z3::SatResult::Unknown => Verdict::Unknown,
        z3::SatResult::Sat => Verdict::Sat,
    }
}

/// `z3::Solver::get_model`: the answer of the last check, where the engine
/// has one. An answer belongs to the session's context; nothing else is
/// claimed of it.
#[verifier::external_body]
pub(crate) fn solver_answer<'ctx>(solver: &z3::Solver<'ctx>) -> (r: Option<Assignment<'ctx>>)
    ensures
        r matches Some(m) ==> answer_view(m).home == solver_view(*solver).home,
{
    match solver.get_model() {
        Some(inner) => Some(Assignment { inner }),
        None => None,
    }
}

/// `z3::Model::eval`: the term that `i` evaluates to under the answer, which
/// depends on the answer and on the term behind `i` alone. The term must be of
/// the answer's context, and so is the result.
#[verifier::external_body]
pub(crate) fn answer_eval<'ctx>(m: &Assignment<'ctx>, i: &z3::ast::Int<'ctx>) -> (r: Option<
    z3::ast::Int<'ctx>,
>)
    requires
        int_view(*i).home == answer_view(*m).home,
    ensures
        match r {
            Some(v) => int_view(v).home == answer_view(*m).home && (answer_view(*m).readings)(
                int_view(*i).term,
            ) == Some(int_view(v).term),
            None => (answer_view(*m).readings)(int_view(*i).term) is None,
        },
{
    m.inner.eval(i)
}

/// What [`int_value`] reads off a term: the value of a numeral that fits in 64
/// bits, and nothing off any other term.
pub open spec fn numeral_of(t: Term) -> Option<i64> {
    match t {
        Term::Lit(v) => if i64::MIN <= v <= i64::MAX {
            Some(v as i64)
        } else {
            None
        },
        Term::Var(_) => None,
    }
}

/// `z3::ast::Int::as_i64`: the value of a numeral that fits in 64 bits, and
/// `None` for any other term.
#[verifier::external_body]
pub(crate) fn int_value<'ctx>(i: &z3::ast::Int<'ctx>) -> (r: Option<i64>)
    ensures
        r == numeral_of(int_view(*i).term),
{
    i.as_i64()
}

} // verus!
