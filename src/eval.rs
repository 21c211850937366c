use vstd::prelude::*;
use crate::error::{Fault, ParseError};
use crate::state::CalculatorState;
use crate::syntax::{Expression, Op, Operand, Term};
use crate::value::{
    add_vals, cross_vals, div_vals, dot_vals, mul_vals, result_view, sub_vals, Val, Value,
};

verus! {

/// Binding strength: sums bind loosest, then dot and cross products, then
/// products and quotients, then powers.
pub open spec fn prec(op: Op) -> int {
    match op {
        Op::Add | Op::Subtract => 1,
        Op::Dot | Op::Cross => 2,
        Op::Multiply | Op::Divide => 3,
        Op::Power => 4,
    }
}

/// Only the power operator groups to the right.
pub open spec fn right_assoc(op: Op) -> bool {
    op == Op::Power
}

/// Among `ops[lo..j]` (`lo < j`), the operator applied last: one of the
/// lowest binding strength, the rightmost of them where that level groups
/// to the left and the leftmost where it groups to the right.
pub open spec fn split_point(ops: Seq<Op>, lo: int, j: int) -> int
    decreases j - lo,
{
    if j <= lo + 1 {
        lo
    } else {
        let b = split_point(ops, lo, j - 1);
        let o = ops[j - 1];
        if prec(o) < prec(ops[b]) || (prec(o) == prec(ops[b]) && !right_assoc(o)) {
            j - 1
        } else {
            b
        }
    }
}

/// The value of an operand, looking names up in `vars`.
pub open spec fn term_val(t: Term, vars: Map<Seq<char>, Val>) -> Result<Val, Fault> {
    match t {
        Term::Lit(v) => Ok(v),
        Term::Name(n) => if vars.contains_key(n) {
            Ok(vars[n])
        } else {
            Err(Fault::InvalidIdentifier { token: n })
        },
    }
}

/// One operator applied to two results; the first failure wins, the left
/// side before the right.
pub open spec fn apply_val(op: Op, l: Result<Val, Fault>, r: Result<Val, Fault>) -> Result<Val, Fault> {
    match (l, r) {
        (Err(e), _) => Err(e),
        (Ok(_), Err(e)) => Err(e),
        (Ok(a), Ok(b)) => match op {
            Op::Add => add_vals(a, b),
            Op::Subtract => sub_vals(a, b),
            Op::Multiply => mul_vals(a, b),
            Op::Divide => div_vals(a, b),
            Op::Dot => dot_vals(a, b),
            Op::Cross => cross_vals(a, b),
            Op::Power => Err(Fault::InvalidOperator { token: "^"@ }),
        },
    }
}

/// The value of `terms[lo..=hi]` joined by `ops[lo..hi]`.
pub open spec fn eval_range(
    terms: Seq<Term>,
    ops: Seq<Op>,
    lo: int,
    hi: int,
    vars: Map<Seq<char>, Val>,
) -> Result<Val, Fault>
    decreases hi - lo,
{
    if hi <= lo {
        term_val(terms[lo], vars)
    } else {
        let k = split_point(ops, lo, hi);
        if lo <= k < hi {
            apply_val(ops[k], eval_range(terms, ops, lo, k, vars), eval_range(terms, ops, k + 1, hi, vars))
        } else {
            // Not reached: the split point always lies in range.
            Err(Fault::TokenError { position: 0 })
        }
    }
}

pub open spec fn terms_of(x: Expression) -> Seq<Term> {
    x.operands@.map_values(|o: Operand| o@)
}

/// The value of a whole expression.
pub open spec fn eval_expr(x: Expression, vars: Map<Seq<char>, Val>) -> Result<Val, Fault> {
    eval_range(terms_of(x), x.ops@, 0, x.ops@.len() as int, vars)
}

fn prec_of(op: Op) -> (r: u8)
    ensures
        r as int == prec(op),
{
    match op {
        Op::Add | Op::Subtract => 1,
        Op::Dot | Op::Cross => 2,
        Op::Multiply | Op::Divide => 3,
        Op::Power => 4,
    }
}

fn split_index(ops: &Vec<Op>, lo: usize, hi: usize) -> (k: usize)
    requires
        lo < hi <= ops@.len(),
    ensures
        k == split_point(ops@, lo as int, hi as int),
        lo <= k < hi,
{
    let mut best = lo;
    let mut j = lo + 1;
    while j < hi
        invariant
            lo < j <= hi,
            hi <= ops@.len(),
            best == split_point(ops@, lo as int, j as int),
            lo <= best < j,
        decreases hi - j,
    {
        let o = ops[j];
        let po = prec_of(o);
        let pb = prec_of(ops[best]);
        if po < pb || (po == pb && o != Op::Power) {
            best = j;
        }
        j = j + 1;
    }
    best
}

/// The value of one operand: a literal as written, a name as the session
/// holds it.
pub fn parse_value(operand: &Operand, state: &CalculatorState) -> (r: Result<Value, ParseError>)
    requires
        state.wf(),
    ensures
        result_view(r) == term_val(operand@, state.vars()),
{
    match operand {
        Operand::Number(s) => Ok(Value::Number(*s)),
        Operand::Vector(v) => Ok(Value::Vector(v.duplicate())),
        Operand::Ident(name) => match state.get_var(name.as_str()) {
            Some(v) => Ok(v.duplicate()),
            None => Err(ParseError::InvalidIdentifier { token: name.clone() }),
        },
    }
}

/// Applies one operator to two values.
pub fn apply(op: Op, lhs: &Value, rhs: &Value) -> (r: Result<Value, ParseError>)
    ensures
        result_view(r) == apply_val(op, Ok(lhs@), Ok(rhs@)),
{
    match op {
        Op::Add => lhs.add(rhs),
        Op::Subtract => lhs.sub(rhs),
        Op::Multiply => lhs.mul(rhs),
        Op::Divide => lhs.div(rhs),
        Op::Dot => lhs.dot(rhs),
        Op::Cross => lhs.cross(rhs),
        Op::Power => Err(ParseError::InvalidOperator { token: "^".to_owned() }),
    }
}

fn eval_between(x: &Expression, lo: usize, hi: usize, state: &CalculatorState) -> (r: Result<Value, ParseError>)
    requires
        x.wf(),
        state.wf(),
        lo <= hi <= x.ops@.len(),
    ensures
        result_view(r) == eval_range(terms_of(*x), x.ops@, lo as int, hi as int, state.vars()),
    decreases hi - lo,
{
    if hi == lo {
        return parse_value(&x.operands[lo], state);
    }
    let k = split_index(&x.ops, lo, hi);
    let l = eval_between(x, lo, k, state);
    let lv = match l {
        Ok(v) => v,
        Err(e) => { return Err(e); },
    };
    let r = eval_between(x, k + 1, hi, state);
    let rv = match r {
        Ok(v) => v,
        Err(e) => { return Err(e); },
    };
    apply(x.ops[k], &lv, &rv)
}

/// Evaluates an expression against the session's variables.
pub fn parse_expression(x: &Expression, state: &CalculatorState) -> (r: Result<Value, ParseError>)
    requires
        x.wf(),
        state.wf(),
    ensures
        result_view(r) == eval_expr(*x, state.vars()),
{
    eval_between(x, 0, x.ops.len(), state)
}

} // verus!
