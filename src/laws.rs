use vstd::prelude::*;
use crate::error::{Fault, TypeFault};
use crate::eval::{eval_range, split_point, term_val};
use crate::scalar::{div_units, fits, mul_units};
use crate::syntax::{Op, Term};
use crate::value::{
    add_vals, all_fit, cross_vals, div_vals, mul_vals, sub_vals, zip_add, zip_sub, Val,
};

verus! {

pub open spec fn two_numbers(a: int, b: int) -> Seq<Term> {
    seq![Term::Lit(Val::Num(a)), Term::Lit(Val::Num(b))]
}

/// The value of the expression `a op b` on two number literals.
pub open spec fn eval_pair(a: int, op: Op, b: int, vars: Map<Seq<char>, Val>) -> Result<Val, Fault> {
    eval_range(two_numbers(a, b), seq![op], 0, 1, vars)
}

proof fn lemma_eval_pair(a: int, op: Op, b: int, vars: Map<Seq<char>, Val>)
    ensures
        eval_pair(a, op, b, vars) == crate::eval::apply_val(op, Ok(Val::Num(a)), Ok(Val::Num(b))),
{
    let t = two_numbers(a, b);
    let ops = seq![op];
    assert(split_point(ops, 0, 1) == 0);
    assert(eval_range(t, ops, 0, 0, vars) == term_val(t[0], vars));
    assert(eval_range(t, ops, 1, 1, vars) == term_val(t[1], vars));
}

/// Evaluating `a + b`, `a - b`, `a * b` and `a / b` on two numbers (in
/// millionths) gives their sum, difference, product and quotient, the last
/// two rounded toward zero to millionths, wherever the result is
/// representable; dividing by zero fails.
pub proof fn law_scalar_arithmetic(a: int, b: int, vars: Map<Seq<char>, Val>)
    ensures
        fits(a + b) ==> eval_pair(a, Op::Add, b, vars) == Ok::<Val, Fault>(Val::Num(a + b)),
        fits(a - b) ==> eval_pair(a, Op::Subtract, b, vars) == Ok::<Val, Fault>(Val::Num(a - b)),
        fits(mul_units(a, b)) ==> eval_pair(a, Op::Multiply, b, vars) == Ok::<Val, Fault>(
            Val::Num(mul_units(a, b)),
        ),
        b != 0 && fits(div_units(a, b)) ==> eval_pair(a, Op::Divide, b, vars) == Ok::<Val, Fault>(
            Val::Num(div_units(a, b)),
        ),
        b == 0 ==> eval_pair(a, Op::Divide, b, vars) == Err::<Val, Fault>(
            Fault::Arithmetic(crate::scalar::ArithFault::DivisionByZero),
        ),
{
    lemma_eval_pair(a, Op::Add, b, vars);
    lemma_eval_pair(a, Op::Subtract, b, vars);
    lemma_eval_pair(a, Op::Multiply, b, vars);
    lemma_eval_pair(a, Op::Divide, b, vars);
}

/// Adding or subtracting two vectors of equal length works component by
/// component and keeps the length, wherever every component is
/// representable.
pub proof fn law_vector_componentwise(x: Seq<int>, y: Seq<int>)
    requires
        x.len() == y.len(),
    ensures
        all_fit(zip_add(x, y)) ==> add_vals(Val::Vect(x), Val::Vect(y)) == Ok::<Val, Fault>(
            Val::Vect(zip_add(x, y)),
        ),
        all_fit(zip_sub(x, y)) ==> sub_vals(Val::Vect(x), Val::Vect(y)) == Ok::<Val, Fault>(
            Val::Vect(zip_sub(x, y)),
        ),
        zip_add(x, y).len() == x.len(),
        zip_sub(x, y).len() == x.len(),
        forall|i: int| 0 <= i < x.len() ==> #[trigger] zip_add(x, y)[i] == x[i] + y[i],
        forall|i: int| 0 <= i < x.len() ==> #[trigger] zip_sub(x, y)[i] == x[i] - y[i],
{
}

/// Operands of the wrong kinds fail with a type fault, whatever their
/// contents: two vectors cannot be multiplied or divided, and a number and
/// a vector cannot be added or subtracted.
pub proof fn law_type_mismatch(x: Seq<int>, y: Seq<int>, k: int)
    ensures
        mul_vals(Val::Vect(x), Val::Vect(y)) == Err::<Val, Fault>(
            Fault::InvalidExpression(TypeFault::MultiplyVectors),
        ),
        div_vals(Val::Vect(x), Val::Vect(y)) == Err::<Val, Fault>(
            Fault::InvalidExpression(TypeFault::DivideVectorByVector),
        ),
        add_vals(Val::Num(k), Val::Vect(x)) == Err::<Val, Fault>(
            Fault::InvalidExpression(TypeFault::AddMixed),
        ),
        add_vals(Val::Vect(x), Val::Num(k)) == Err::<Val, Fault>(
            Fault::InvalidExpression(TypeFault::AddMixed),
        ),
        sub_vals(Val::Num(k), Val::Vect(x)) == Err::<Val, Fault>(
            Fault::InvalidExpression(TypeFault::SubtractMixed),
        ),
{
}

/// A cross product of vectors that are not both three-dimensional fails
/// with the dimension fault.
pub proof fn law_cross_dimensions(x: Seq<int>, y: Seq<int>)
    requires
        x.len() != 3 || y.len() != 3,
    ensures
        cross_vals(Val::Vect(x), Val::Vect(y)) == Err::<Val, Fault>(
            Fault::InvalidExpression(TypeFault::CrossNeedsThreeDimensions),
        ),
{
}

/// A name that the session does not hold evaluates to the unknown
/// identifier fault that carries the name, also as the left operand of
/// any operator.
pub proof fn law_unknown_identifier(n: Seq<char>, op: Op, rhs: Term, vars: Map<Seq<char>, Val>)
    requires
        !vars.contains_key(n),
    ensures
        term_val(Term::Name(n), vars) == Err::<Val, Fault>(Fault::InvalidIdentifier { token: n }),
        eval_range(seq![Term::Name(n), rhs], seq![op], 0, 1, vars) == Err::<Val, Fault>(
            Fault::InvalidIdentifier { token: n },
        ),
{
    let t = seq![Term::Name(n), rhs];
    let ops = seq![op];
    assert(split_point(ops, 0, 1) == 0);
    assert(eval_range(t, ops, 0, 0, vars) == term_val(t[0], vars));
    assert(eval_range(t, ops, 1, 1, vars) == term_val(t[1], vars));
}

} // verus!
