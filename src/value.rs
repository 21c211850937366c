use vstd::prelude::*;
use crate::error::{Fault, ParseError, TypeFault};
use crate::scalar::{fits, mul_units, div_units, ArithFault, Scalar};

verus! {

/// The mathematical content of a value: a number or a sequence of numbers,
/// each in millionths.
pub ghost enum Val {
    Num(int),
    Vect(Seq<int>),
}

pub open spec fn overflow() -> Fault {
    Fault::Arithmetic(ArithFault::Overflow)
}

pub open spec fn min(a: int, b: int) -> int {
    if a <= b { a } else { b }
}

pub open spec fn zip_add(x: Seq<int>, y: Seq<int>) -> Seq<int> {
    Seq::new(min(x.len() as int, y.len() as int) as nat, |i: int| x[i] + y[i])
}

pub open spec fn zip_sub(x: Seq<int>, y: Seq<int>) -> Seq<int> {
    Seq::new(min(x.len() as int, y.len() as int) as nat, |i: int| x[i] - y[i])
}

pub open spec fn scale(x: Seq<int>, k: int) -> Seq<int> {
    Seq::new(x.len(), |i: int| mul_units(x[i], k))
}

pub open spec fn shrink(x: Seq<int>, k: int) -> Seq<int> {
    Seq::new(x.len(), |i: int| div_units(x[i], k))
}

pub open spec fn all_fit(x: Seq<int>) -> bool {
    forall|i: int| 0 <= i < x.len() ==> fits(#[trigger] x[i])
}

/// Sum of the products of the first `n` component pairs.
pub open spec fn dot_prefix(x: Seq<int>, y: Seq<int>, n: nat) -> int
    decreases n,
{
    if n == 0 {
        0
    } else {
        dot_prefix(x, y, (n - 1) as nat) + mul_units(x[n - 1], y[n - 1])
    }
}

/// Every product and every partial sum of `dot_prefix(x, y, n)` is representable.
pub open spec fn dot_fits(x: Seq<int>, y: Seq<int>, n: nat) -> bool
    decreases n,
{
    n == 0 || (dot_fits(x, y, (n - 1) as nat) && fits(mul_units(x[n - 1], y[n - 1])) && fits(
        dot_prefix(x, y, n),
    ))
}

pub open spec fn dot_len(x: Seq<int>, y: Seq<int>) -> nat {
    min(x.len() as int, y.len() as int) as nat
}

/// `x[i] * y[j] - x[j] * y[i]`, one component of a cross product.
pub open spec fn cross_term(x: Seq<int>, y: Seq<int>, i: int, j: int) -> int {
    mul_units(x[i], y[j]) - mul_units(x[j], y[i])
}

pub open spec fn cross_term_fits(x: Seq<int>, y: Seq<int>, i: int, j: int) -> bool {
    fits(mul_units(x[i], y[j])) && fits(mul_units(x[j], y[i])) && fits(cross_term(x, y, i, j))
}

pub open spec fn cross_of(x: Seq<int>, y: Seq<int>) -> Seq<int> {
    seq![cross_term(x, y, 1, 2), cross_term(x, y, 2, 0), cross_term(x, y, 0, 1)]
}

pub open spec fn cross_fits(x: Seq<int>, y: Seq<int>) -> bool {
    cross_term_fits(x, y, 1, 2) && cross_term_fits(x, y, 2, 0) && cross_term_fits(x, y, 0, 1)
}

pub open spec fn add_vals(a: Val, b: Val) -> Result<Val, Fault> {
    match (a, b) {
        (Val::Num(x), Val::Num(y)) => if fits(x + y) { Ok(Val::Num(x + y)) } else { Err(overflow()) },
        (Val::Vect(x), Val::Vect(y)) => if all_fit(zip_add(x, y)) {
            Ok(Val::Vect(zip_add(x, y)))
        } else {
            Err(overflow())
        },
        _ => Err(Fault::InvalidExpression(TypeFault::AddMixed)),
    }
}

pub open spec fn sub_vals(a: Val, b: Val) -> Result<Val, Fault> {
    match (a, b) {
        (Val::Num(x), Val::Num(y)) => if fits(x - y) { Ok(Val::Num(x - y)) } else { Err(overflow()) },
        (Val::Vect(x), Val::Vect(y)) => if all_fit(zip_sub(x, y)) {
            Ok(Val::Vect(zip_sub(x, y)))
        } else {
            Err(overflow())
        },
        _ => Err(Fault::InvalidExpression(TypeFault::SubtractMixed)),
    }
}

pub open spec fn scale_result(x: Seq<int>, k: int) -> Result<Val, Fault> {
    if all_fit(scale(x, k)) { Ok(Val::Vect(scale(x, k))) } else { Err(overflow()) }
}

pub open spec fn mul_vals(a: Val, b: Val) -> Result<Val, Fault> {
    match (a, b) {
        (Val::Num(x), Val::Num(y)) => if fits(mul_units(x, y)) {
            Ok(Val::Num(mul_units(x, y)))
        } else {
            Err(overflow())
        },
        (Val::Vect(x), Val::Num(k)) => scale_result(x, k),
        (Val::Num(k), Val::Vect(x)) => scale_result(x, k),
        (Val::Vect(_), Val::Vect(_)) => Err(Fault::InvalidExpression(TypeFault::MultiplyVectors)),
    }
}

pub open spec fn div_vals(a: Val, b: Val) -> Result<Val, Fault> {
    if b == Val::Num(0) {
        Err(Fault::Arithmetic(ArithFault::DivisionByZero))
    } else {
    match (a, b) {
        (Val::Num(x), Val::Num(y)) => if fits(div_units(x, y)) {
            Ok(Val::Num(div_units(x, y)))
        } else {
            Err(overflow())
        },
        (Val::Vect(x), Val::Num(k)) => if all_fit(shrink(x, k)) {
            Ok(Val::Vect(shrink(x, k)))
        } else {
            Err(overflow())
        },
        (Val::Num(_), Val::Vect(_)) => Err(Fault::InvalidExpression(TypeFault::DivideScalarByVector)),
        (Val::Vect(_), Val::Vect(_)) => Err(Fault::InvalidExpression(TypeFault::DivideVectorByVector)),
    }
    }
}

pub open spec fn dot_vals(a: Val, b: Val) -> Result<Val, Fault> {
    match (a, b) {
        (Val::Vect(x), Val::Vect(y)) => if dot_fits(x, y, dot_len(x, y)) {
            Ok(Val::Num(dot_prefix(x, y, dot_len(x, y))))
        } else {
            Err(overflow())
        },
        _ => Err(Fault::InvalidExpression(TypeFault::DotNeedsVectors)),
    }
}

pub open spec fn cross_vals(a: Val, b: Val) -> Result<Val, Fault> {
    match (a, b) {
        (Val::Vect(x), Val::Vect(y)) => if x.len() != 3 || y.len() != 3 {
            Err(Fault::InvalidExpression(TypeFault::CrossNeedsThreeDimensions))
        } else if cross_fits(x, y) {
            Ok(Val::Vect(cross_of(x, y)))
        } else {
            Err(overflow())
        },
        _ => Err(Fault::InvalidExpression(TypeFault::CrossNeedsVectors)),
    }
}

/// An ordered list of scalar components; its length is its dimension.
#[derive(Debug, Clone, PartialEq)]
pub struct Vector(pub Vec<Scalar>);

impl View for Vector {
    type V = Seq<int>;

    open spec fn view(&self) -> Seq<int> {
        self.0@.map_values(|s: Scalar| s.val())
    }
}

/// A number or a vector.
#[derive(Debug, Clone, PartialEq)]
pub enum Value {
    Number(Scalar),
    Vector(Vector),
}

impl View for Value {
    type V = Val;

    open spec fn view(&self) -> Val {
        match self {
            Value::Number(s) => Val::Num(s.val()),
            Value::Vector(v) => Val::Vect(v@),
        }
    }
}

pub open spec fn result_view(r: Result<Value, ParseError>) -> Result<Val, Fault> {
    match r {
        Ok(v) => Ok(v@),
        Err(e) => Err(e@),
    }
}


impl Vector {
    pub fn new(components: Vec<Scalar>) -> (r: Vector)
        ensures
            r.0@ == components@,
    {
        Vector(components)
    }

    pub fn components(&self) -> (r: &Vec<Scalar>)
        ensures
            r@ == self.0@,
    {
        &self.0
    }

    /// The number of components.
    pub fn dims(&self) -> (r: usize)
        ensures
            r == self@.len(),
    {
        self.0.len()
    }

    fn add_components(&self, rhs: &Vector) -> (r: Result<Vector, ArithFault>)
        ensures
            r.is_ok() <==> all_fit(zip_add(self@, rhs@)),
            r matches Ok(v) ==> v@ == zip_add(self@, rhs@),
            r matches Err(e) ==> e == ArithFault::Overflow,
    {
        let n: usize = if self.0.len() <= rhs.0.len() { self.0.len() } else { rhs.0.len() };
        let mut out: Vec<Scalar> = Vec::new();
        let mut i: usize = 0;
        while i < n
            invariant
                n == zip_add(self@, rhs@).len(),
                n <= self.0.len(),
                n <= rhs.0.len(),
                i <= n,
                out@.len() == i,
                forall|k: int| 0 <= k < i ==> #[trigger] out@[k].val() == self@[k] + rhs@[k] && fits(
                    self@[k] + rhs@[k],
                ),
            decreases n - i,
        {
            let a = self.0[i];
            let b = rhs.0[i];
            assert(self@[i as int] == a.val());
            assert(rhs@[i as int] == b.val());
            let s = match a.checked_add(b) {
                Ok(s) => s,
                Err(e) => {
                    assert(!fits(zip_add(self@, rhs@)[i as int]));
                    return Err(e);
                },
            };
            let ghost prev = out@;
            out.push(s);
            i = i + 1;
            assert forall|k: int| 0 <= k < i implies #[trigger] out@[k].val() == self@[k] + rhs@[k]
                && fits(self@[k] + rhs@[k]) by {
                if k < i - 1 {
                    assert(out@[k] == prev[k] && prev[k].val() == out@[k].val());
                } else {
                    assert(out@[k] == s);
                    assert(self@[k] == a.val());
                    assert(rhs@[k] == b.val());
                    assert(s.val() == a.val() + b.val());
                    assert(fits(a.val() + b.val()));
                }
            }
        }
        let v = Vector(out);
        assert(v@ =~= zip_add(self@, rhs@));
        Ok(v)
    }

    fn sub_components(&self, rhs: &Vector) -> (r: Result<Vector, ArithFault>)
        ensures
            r.is_ok() <==> all_fit(zip_sub(self@, rhs@)),
            r matches Ok(v) ==> v@ == zip_sub(self@, rhs@),
            r matches Err(e) ==> e == ArithFault::Overflow,
    {
        let n: usize = if self.0.len() <= rhs.0.len() { self.0.len() } else { rhs.0.len() };
        let mut out: Vec<Scalar> = Vec::new();
        let mut i: usize = 0;
        while i < n
            invariant
                n == zip_sub(self@, rhs@).len(),
                n <= self.0.len(),
                n <= rhs.0.len(),
                i <= n,
                out@.len() == i,
                forall|k: int| 0 <= k < i ==> #[trigger] out@[k].val() == self@[k] - rhs@[k] && fits(
                    self@[k] - rhs@[k],
                ),
            decreases n - i,
        {
            let a = self.0[i];
            let b = rhs.0[i];
            assert(self@[i as int] == a.val());
            assert(rhs@[i as int] == b.val());
            let s = match a.checked_sub(b) {
                Ok(s) => s,
                Err(e) => {
                    assert(!fits(zip_sub(self@, rhs@)[i as int]));
                    return Err(e);
                },
            };
            let ghost prev = out@;
            out.push(s);
            i = i + 1;
            assert forall|k: int| 0 <= k < i implies #[trigger] out@[k].val() == self@[k] - rhs@[k]
                && fits(self@[k] - rhs@[k]) by {
                if k < i - 1 {
                    assert(out@[k] == prev[k] && prev[k].val() == out@[k].val());
                } else {
                    assert(out@[k] == s);
                    assert(self@[k] == a.val());
                    assert(rhs@[k] == b.val());
                    assert(s.val() == a.val() - b.val());
                    assert(fits(a.val() - b.val()));
                }
            }
        }
        let v = Vector(out);
        assert(v@ =~= zip_sub(self@, rhs@));
        Ok(v)
    }

    fn map_scalar(&self, k: Scalar, divide: bool) -> (r: Result<Vector, ArithFault>)
        requires
            divide ==> k.val() != 0,
        ensures
            ({
                let z = if divide { shrink(self@, k.val()) } else { scale(self@, k.val()) };
                &&& r.is_ok() <==> all_fit(z)
                &&& r matches Ok(v) ==> v@ == z
                &&& r matches Err(e) ==> e == ArithFault::Overflow
            }),
    {
        let n: usize = self.0.len();
        let ghost z = if divide { shrink(self@, k.val()) } else { scale(self@, k.val()) };
        let mut out: Vec<Scalar> = Vec::new();
        let mut i: usize = 0;
        while i < n
            invariant
                n == z.len(),
                n == self.0.len(),
                i <= n,
                out@.len() == i,
                divide ==> k.val() != 0,
                z == (if divide { shrink(self@, k.val()) } else { scale(self@, k.val()) }),
                forall|j: int| 0 <= j < i ==> #[trigger] out@[j].val() == z[j] && fits(z[j]),
            decreases n - i,
        {
            let a = self.0[i];
            assert(self@[i as int] == a.val());
            let c = if divide { a.checked_div(k) } else { a.checked_mul(k) };
            let s = match c {
                Ok(s) => s,
                Err(e) => {
                    assert(!fits(z[i as int]));
                    return Err(e);
                },
            };
            assert(s.val() == z[i as int] && fits(z[i as int]));
            let ghost prev = out@;
            out.push(s);
            i = i + 1;
            assert forall|j: int| 0 <= j < i implies #[trigger] out@[j].val() == z[j] && fits(z[j]) by {
                if j < i - 1 {
                    assert(out@[j] == prev[j] && prev[j].val() == out@[j].val());
                } else {
                    assert(out@[j] == s);
                }
            }
        }
        let v = Vector(out);
        assert(v@ =~= z);
        Ok(v)
    }

    /// Sum of the products of the components that both vectors have.
    pub fn dot(&self, rhs: &Vector) -> (r: Result<Scalar, ArithFault>)
        ensures
            r.is_ok() <==> dot_fits(self@, rhs@, dot_len(self@, rhs@)),
            r matches Ok(s) ==> s.val() == dot_prefix(self@, rhs@, dot_len(self@, rhs@)),
            r matches Err(e) ==> e == ArithFault::Overflow,
    {
        let n: usize = if self.0.len() <= rhs.0.len() { self.0.len() } else { rhs.0.len() };
        let mut acc = Scalar { units: 0 };
        let mut i: usize = 0;
        while i < n
            invariant
                n == dot_len(self@, rhs@),
                n <= self.0.len(),
                n <= rhs.0.len(),
                i <= n,
                dot_fits(self@, rhs@, i as nat),
                acc.val() == dot_prefix(self@, rhs@, i as nat),
            decreases n - i,
        {
            let p = self.0[i].checked_mul(rhs.0[i]);
            match p {
                Ok(p) => {
                    match acc.checked_add(p) {
                        Ok(s) => acc = s,
                        Err(e) => {
                            proof { lemma_dot_fits_prefix_contra(self@, rhs@, (i + 1) as nat, n as nat); }
                            return Err(e);
                        },
                    }
                },
                Err(e) => {
                    proof { lemma_dot_fits_prefix_contra(self@, rhs@, (i + 1) as nat, n as nat); }
                    return Err(e);
                },
            }
            i = i + 1;
        }
        Ok(acc)
    }

    /// The standard three-dimensional cross product.
    pub fn cross(&self, rhs: &Vector) -> (r: Result<Vector, ParseError>)
        ensures
            (self@.len() != 3 || rhs@.len() != 3) ==> r == Err::<Vector, ParseError>(
                ParseError::InvalidExpression(TypeFault::CrossNeedsThreeDimensions),
            ),
            self@.len() == 3 && rhs@.len() == 3 ==> (r.is_ok() <==> cross_fits(self@, rhs@)),
            self@.len() == 3 && rhs@.len() == 3 ==> (r matches Err(e) ==> e@ == overflow()),
            r matches Ok(v) ==> v@ == cross_of(self@, rhs@),
    {
        if self.0.len() != 3 || rhs.0.len() != 3 {
            return Err(ParseError::InvalidExpression(TypeFault::CrossNeedsThreeDimensions));
        }
        let cx = match cross_component(&self.0, &rhs.0, 1, 2) {
            Ok(c) => c,
            Err(e) => { return Err(ParseError::Arithmetic(e)); },
        };
        let cy = match cross_component(&self.0, &rhs.0, 2, 0) {
            Ok(c) => c,
            Err(e) => { return Err(ParseError::Arithmetic(e)); },
        };
        let cz = match cross_component(&self.0, &rhs.0, 0, 1) {
            Ok(c) => c,
            Err(e) => { return Err(ParseError::Arithmetic(e)); },
        };
        let v = Vector(vec![cx, cy, cz]);
        assert(v@ =~= cross_of(self@, rhs@));
        Ok(v)
    }
}

/// `x[i] * y[j] - x[j] * y[i]`, each step checked.
fn cross_component(x: &Vec<Scalar>, y: &Vec<Scalar>, i: usize, j: usize) -> (r: Result<Scalar, ArithFault>)
    requires
        i < x@.len(),
        j < x@.len(),
        i < y@.len(),
        j < y@.len(),
    ensures
        ({
            let xs = x@.map_values(|s: Scalar| s.val());
            let ys = y@.map_values(|s: Scalar| s.val());
            &&& r.is_ok() <==> cross_term_fits(xs, ys, i as int, j as int)
            &&& r matches Ok(c) ==> c.val() == cross_term(xs, ys, i as int, j as int)
            &&& r matches Err(e) ==> e == ArithFault::Overflow
        }),
{
    let ghost xs = x@.map_values(|s: Scalar| s.val());
    let ghost ys = y@.map_values(|s: Scalar| s.val());
    assert(xs[i as int] == x@[i as int].val() && xs[j as int] == x@[j as int].val());
    assert(ys[i as int] == y@[i as int].val() && ys[j as int] == y@[j as int].val());
    let p = x[i].checked_mul(y[j])?;
    let q = x[j].checked_mul(y[i])?;
    p.checked_sub(q)
}

proof fn lemma_dot_fits_prefix_contra(x: Seq<int>, y: Seq<int>, m: nat, n: nat)
    requires
        m <= n,
        !dot_fits(x, y, m),
    ensures
        !dot_fits(x, y, n),
{
    if dot_fits(x, y, n) {
        lemma_dot_fits_prefix(x, y, m, n);
    }
}

/// Representability of a dot product's partial sums is inherited by shorter prefixes.
proof fn lemma_dot_fits_prefix(x: Seq<int>, y: Seq<int>, m: nat, n: nat)
    requires
        m <= n,
        dot_fits(x, y, n),
    ensures
        dot_fits(x, y, m),
    decreases n - m,
{
    if m < n {
        lemma_dot_fits_prefix(x, y, m, (n - 1) as nat);
    }
}

} // verus!

verus! {

impl Vector {
    /// A copy with the same components.
    pub fn duplicate(&self) -> (r: Vector)
        ensures
            r@ == self@,
            r.0@ == self.0@,
    {
        let mut out: Vec<Scalar> = Vec::new();
        let mut i: usize = 0;
        while i < self.0.len()
            invariant
                i <= self.0@.len(),
                out@ == self.0@.subrange(0, i as int),
            decreases self.0@.len() - i,
        {
            out.push(self.0[i]);
            i = i + 1;
            assert(out@ =~= self.0@.subrange(0, i as int));
        }
        assert(out@ =~= self.0@);
        Vector(out)
    }
}

impl Value {
    pub fn is_number(&self) -> (r: bool)
        ensures
            r <==> self@ is Num,
    {
        matches!(self, Value::Number(_))
    }

    pub fn is_vector(&self) -> (r: bool)
        ensures
            r <==> self@ is Vect,
    {
        matches!(self, Value::Vector(_))
    }

    /// Whether both values are numbers or both are vectors.
    pub fn compare_types(&self, other: &Value) -> (r: bool)
        ensures
            r <==> same_kind(self@, other@),
    {
        (self.is_number() && other.is_number()) || (self.is_vector() && other.is_vector())
    }

    /// The number inside, or a type fault for a vector.
    pub fn as_number(&self) -> (r: Result<Scalar, ParseError>)
        ensures
            match self {
                Value::Number(s) => r == Ok::<Scalar, ParseError>(*s),
                Value::Vector(_) => r == Err::<Scalar, ParseError>(
                    ParseError::InvalidExpression(TypeFault::NotANumber),
                ),
            },
    {
        match self {
            Value::Number(s) => Ok(*s),
            Value::Vector(_) => Err(ParseError::InvalidExpression(TypeFault::NotANumber)),
        }
    }

    /// A copy of the vector inside, or a type fault for a number.
    pub fn as_vector(&self) -> (r: Result<Vector, ParseError>)
        ensures
            match self {
                Value::Vector(v) => r matches Ok(w) && w@ == v@,
                Value::Number(_) => r == Err::<Vector, ParseError>(
                    ParseError::InvalidExpression(TypeFault::NotAVector),
                ),
            },
    {
        match self {
            Value::Vector(v) => Ok(v.duplicate()),
            Value::Number(_) => Err(ParseError::InvalidExpression(TypeFault::NotAVector)),
        }
    }

    /// A copy of this value.
    pub fn duplicate(&self) -> (r: Value)
        ensures
            r@ == self@,
    {
        match self {
            Value::Number(s) => Value::Number(*s),
            Value::Vector(v) => Value::Vector(v.duplicate()),
        }
    }

    pub fn add(&self, rhs: &Value) -> (r: Result<Value, ParseError>)
        ensures
            result_view(r) == add_vals(self@, rhs@),
    {
        match (self, rhs) {
            (Value::Number(a), Value::Number(b)) => match a.checked_add(*b) {
                Ok(s) => Ok(Value::Number(s)),
                Err(e) => Err(ParseError::Arithmetic(e)),
            },
            (Value::Vector(a), Value::Vector(b)) => match a.add_components(b) {
                Ok(v) => Ok(Value::Vector(v)),
                Err(e) => Err(ParseError::Arithmetic(e)),
            },
            _ => Err(ParseError::InvalidExpression(TypeFault::AddMixed)),
        }
    }

    pub fn sub(&self, rhs: &Value) -> (r: Result<Value, ParseError>)
        ensures
            result_view(r) == sub_vals(self@, rhs@),
    {
        match (self, rhs) {
            (Value::Number(a), Value::Number(b)) => match a.checked_sub(*b) {
                Ok(s) => Ok(Value::Number(s)),
                Err(e) => Err(ParseError::Arithmetic(e)),
            },
            (Value::Vector(a), Value::Vector(b)) => match a.sub_components(b) {
                Ok(v) => Ok(Value::Vector(v)),
                Err(e) => Err(ParseError::Arithmetic(e)),
            },
            _ => Err(ParseError::InvalidExpression(TypeFault::SubtractMixed)),
        }
    }

    pub fn mul(&self, rhs: &Value) -> (r: Result<Value, ParseError>)
        ensures
            result_view(r) == mul_vals(self@, rhs@),
    {
        match (self, rhs) {
            (Value::Number(a), Value::Number(b)) => match a.checked_mul(*b) {
                Ok(s) => Ok(Value::Number(s)),
                Err(e) => Err(ParseError::Arithmetic(e)),
            },
            (Value::Vector(v), Value::Number(k)) => match v.map_scalar(*k, false) {
                Ok(w) => Ok(Value::Vector(w)),
                Err(e) => Err(ParseError::Arithmetic(e)),
            },
            (Value::Number(k), Value::Vector(v)) => match v.map_scalar(*k, false) {
                Ok(w) => Ok(Value::Vector(w)),
                Err(e) => Err(ParseError::Arithmetic(e)),
            },
            (Value::Vector(_), Value::Vector(_)) => Err(
                ParseError::InvalidExpression(TypeFault::MultiplyVectors),
            ),
        }
    }

    /// Division by a number. Scalars are exact millionths, so a quotient is
    /// rounded toward zero to millionths, and a zero divisor or a quotient
    /// out of range is an arithmetic error rather than an infinity.
    pub fn div(&self, rhs: &Value) -> (r: Result<Value, ParseError>)
        ensures
            result_view(r) == div_vals(self@, rhs@),
    {
        if let Value::Number(k) = rhs {
            if k.units == 0 {
                return Err(ParseError::Arithmetic(ArithFault::DivisionByZero));
            }
        }
        match (self, rhs) {
            (Value::Number(a), Value::Number(b)) => match a.checked_div(*b) {
                Ok(s) => Ok(Value::Number(s)),
                Err(e) => Err(ParseError::Arithmetic(e)),
            },
            (Value::Vector(v), Value::Number(k)) => match v.map_scalar(*k, true) {
                Ok(w) => Ok(Value::Vector(w)),
                Err(e) => Err(ParseError::Arithmetic(e)),
            },
            (Value::Number(_), Value::Vector(_)) => Err(
                ParseError::InvalidExpression(TypeFault::DivideScalarByVector),
            ),
            (Value::Vector(_), Value::Vector(_)) => Err(
                ParseError::InvalidExpression(TypeFault::DivideVectorByVector),
            ),
        }
    }

    /// The dot product of two vectors, as a number.
    pub fn dot(&self, rhs: &Value) -> (r: Result<Value, ParseError>)
        ensures
            result_view(r) == dot_vals(self@, rhs@),
    {
        match (self, rhs) {
            (Value::Vector(a), Value::Vector(b)) => match a.dot(b) {
                Ok(s) => Ok(Value::Number(s)),
                Err(e) => Err(ParseError::Arithmetic(e)),
            },
            _ => Err(ParseError::InvalidExpression(TypeFault::DotNeedsVectors)),
        }
    }

    /// The cross product of two three-dimensional vectors.
    pub fn cross(&self, rhs: &Value) -> (r: Result<Value, ParseError>)
        ensures
            result_view(r) == cross_vals(self@, rhs@),
    {
        match (self, rhs) {
            (Value::Vector(a), Value::Vector(b)) => match a.cross(b) {
                Ok(v) => Ok(Value::Vector(v)),
                Err(e) => Err(e),
            },
            _ => Err(ParseError::InvalidExpression(TypeFault::CrossNeedsVectors)),
        }
    }
}

pub open spec fn same_kind(a: Val, b: Val) -> bool {
    (a is Num && b is Num) || (a is Vect && b is Vect)
}

} // verus!

verus! {

/// Sum of the squares of the first `n` components.
pub open spec fn sum_squares(x: Seq<int>, n: nat) -> int
    decreases n,
{
    if n == 0 {
        0
    } else {
        sum_squares(x, (n - 1) as nat) + x[n - 1] * x[n - 1]
    }
}

/// The square of the smallest magnitude a scalar cannot hold: `2^63` units.
pub open spec fn magnitude_limit() -> int {
    0x4000_0000_0000_0000_0000_0000_0000_0000
}

proof fn lemma_sum_squares_monotone(x: Seq<int>, m: nat, n: nat)
    requires
        m <= n <= x.len(),
    ensures
        sum_squares(x, m) <= sum_squares(x, n),
        0 <= sum_squares(x, m),
    decreases n - m + n,
{
    if n > 0 {
        assert(x[n - 1] * x[n - 1] >= 0) by (nonlinear_arith);
        if m < n {
            lemma_sum_squares_monotone(x, m, (n - 1) as nat);
        } else {
            lemma_sum_squares_monotone(x, (m - 1) as nat, (n - 1) as nat);
        }
    }
}

/// The largest `m` below `2^64` with `m * m <= s`.
fn isqrt(s: u128) -> (m: u64)
    ensures
        m as int * m as int <= s,
        s < (m as int + 1) * (m as int + 1) || m == u64::MAX,
{
    let mut lo: u128 = 0;
    let mut hi: u128 = 0x1_0000_0000_0000_0000;
    while hi - lo > 1
        invariant
            lo < hi <= 0x1_0000_0000_0000_0000,
            lo * lo <= s,
            hi < 0x1_0000_0000_0000_0000 ==> s < hi * hi,
        decreases hi - lo,
    {
        let mid: u128 = lo + (hi - lo) / 2;
        assert(mid * mid <= 0xffff_ffff_ffff_ffff * 0xffff_ffff_ffff_ffff) by (nonlinear_arith)
            requires mid < 0x1_0000_0000_0000_0000;
        if mid * mid <= s {
            lo = mid;
        } else {
            hi = mid;
        }
    }
    lo as u64
}

impl Vector {
    /// The Euclidean length, rounded down to millionths; it fails where a
    /// scalar cannot hold it.
    pub fn mag(&self) -> (r: Result<Scalar, ArithFault>)
        ensures
            r.is_ok() <==> sum_squares(self@, self@.len()) < magnitude_limit(),
            r matches Ok(s) ==> 0 <= s.val() && s.val() * s.val() <= sum_squares(self@, self@.len())
                < (s.val() + 1) * (s.val() + 1),
            r matches Err(e) ==> e == ArithFault::Overflow,
    {
        let n = self.0.len();
        let mut sum: u128 = 0;
        let mut i: usize = 0;
        while i < n
            invariant
                n == self@.len(),
                i <= n,
                sum == sum_squares(self@, i as nat),
            decreases n - i,
        {
            let u: i128 = self.0[i].units as i128;
            let a: u128 = if u < 0 { (-u) as u128 } else { u as u128 };
            assert(a * a <= 0x8000_0000_0000_0000 * 0x8000_0000_0000_0000) by (nonlinear_arith)
                requires a <= 0x8000_0000_0000_0000;
            let sq: u128 = a * a;
            let ghost c: int = self@[i as int];
            assert(c == u as int);
            assert(a == c || a == -c);
            assert(sq as int == c * c) by (nonlinear_arith)
                requires a == c || a == -c, sq == a * a;
            if sq > u128::MAX - sum {
                proof { lemma_sum_squares_monotone(self@, (i + 1) as nat, n as nat); }
                return Err(ArithFault::Overflow);
            }
            sum = sum + sq;
            i = i + 1;
        }
        let m = isqrt(sum);
        if m > i64::MAX as u64 {
            assert(sum >= magnitude_limit()) by (nonlinear_arith)
                requires m > 0x7fff_ffff_ffff_ffff, m * m <= sum;
            return Err(ArithFault::Overflow);
        }
        assert(sum < magnitude_limit()) by (nonlinear_arith)
            requires m <= 0x7fff_ffff_ffff_ffff, sum < (m + 1) * (m + 1);
        Ok(Scalar { units: m as i64 })
    }

    /// The same as `mag`.
    pub fn length(&self) -> (r: Result<Scalar, ArithFault>)
        ensures
            r.is_ok() <==> sum_squares(self@, self@.len()) < magnitude_limit(),
            r matches Ok(s) ==> 0 <= s.val() && s.val() * s.val() <= sum_squares(self@, self@.len())
                < (s.val() + 1) * (s.val() + 1),
            r matches Err(e) ==> e == ArithFault::Overflow,
    {
        self.mag()
    }
}

} // verus!
