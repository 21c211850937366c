use vstd::prelude::*;

verus! {

/// Number of units in one: a scalar holds millionths.
pub const SCALE: i64 = 1_000_000;

/// Truncating division (rounds toward zero), as Rust's integer `/` does.
pub open spec fn quot(x: int, y: int) -> int
    recommends
        y != 0,
{
    let q = abs(x) / abs(y);
    if (x < 0) != (y < 0) {
        -q
    } else {
        q
    }
}

pub open spec fn abs(x: int) -> int {
    if x < 0 {
        -x
    } else {
        x
    }
}

pub open spec fn fits(x: int) -> bool {
    i64::MIN <= x <= i64::MAX
}

/// Units of the product of two scalars given in units, rounded toward zero.
pub open spec fn mul_units(a: int, b: int) -> int {
    quot(a * b, SCALE as int)
}

/// Units of the quotient of two scalars given in units, rounded toward zero.
pub open spec fn div_units(a: int, b: int) -> int {
    quot(a * SCALE as int, b)
}

/// Why an arithmetic operation on scalars has no result.
#[derive(Debug, Clone, Copy, PartialEq, Eq, Structural)]
pub enum ArithFault {
    /// The exact result is outside the representable range.
    Overflow,
    /// The divisor is zero.
    DivisionByZero,
}

/// A fixed-point decimal: `units` millionths.
#[derive(Debug, Clone, Copy, PartialEq, Eq, Structural)]
pub struct Scalar {
    pub units: i64,
}

/// Truncating division of a signed 128-bit integer by a nonzero one whose
/// absolute value is small enough that the quotient is exact in `u128`.
fn quot_exec(x: i128, y: i128) -> (r: i128)
    requires
        y != 0,
        abs(x as int) <= 0x4000_0000_0000_0000_0000_0000_0000_0000,
        abs(y as int) <= 0x4000_0000_0000_0000_0000_0000_0000_0000,
    ensures
        r as int == quot(x as int, y as int),
{
    let ax: u128 = if x < 0 { (-x) as u128 } else { x as u128 };
    let ay: u128 = if y < 0 { (-y) as u128 } else { y as u128 };
    let q: u128 = ax / ay;
    assert(q <= ax) by (nonlinear_arith)
        requires q == ax / ay, ay >= 1;
    if (x < 0) != (y < 0) {
        -(q as i128)
    } else {
        q as i128
    }
}

impl Scalar {
    pub open spec fn val(self) -> int {
        self.units as int
    }

    pub fn checked_add(self, rhs: Scalar) -> (r: Result<Scalar, ArithFault>)
        ensures
            fits(self.val() + rhs.val()) <==> r.is_ok(),
            r matches Ok(s) ==> s.val() == self.val() + rhs.val(),
            r matches Err(e) ==> e == ArithFault::Overflow,
    {
        let s: i128 = self.units as i128 + rhs.units as i128;
        if s < i64::MIN as i128 || s > i64::MAX as i128 {
            Err(ArithFault::Overflow)
        } else {
            Ok(Scalar { units: s as i64 })
        }
    }

    pub fn checked_sub(self, rhs: Scalar) -> (r: Result<Scalar, ArithFault>)
        ensures
            fits(self.val() - rhs.val()) <==> r.is_ok(),
            r matches Ok(s) ==> s.val() == self.val() - rhs.val(),
            r matches Err(e) ==> e == ArithFault::Overflow,
    {
        let s: i128 = self.units as i128 - rhs.units as i128;
        if s < i64::MIN as i128 || s > i64::MAX as i128 {
            Err(ArithFault::Overflow)
        } else {
            Ok(Scalar { units: s as i64 })
        }
    }

    pub fn checked_mul(self, rhs: Scalar) -> (r: Result<Scalar, ArithFault>)
        ensures
            fits(mul_units(self.val(), rhs.val())) <==> r.is_ok(),
            r matches Ok(s) ==> s.val() == mul_units(self.val(), rhs.val()),
            r matches Err(e) ==> e == ArithFault::Overflow,
    {
        let a: i128 = self.units as i128;
        let b: i128 = rhs.units as i128;
        assert(-0x4000_0000_0000_0000_0000_0000_0000_0000 <= a * b <= 0x4000_0000_0000_0000_0000_0000_0000_0000)
            by (nonlinear_arith)
            requires
                -0x8000_0000_0000_0000 <= a <= 0x8000_0000_0000_0000,
                -0x8000_0000_0000_0000 <= b <= 0x8000_0000_0000_0000,
        ;
        let p: i128 = a * b;
        let q = quot_exec(p, SCALE as i128);
        if q < i64::MIN as i128 || q > i64::MAX as i128 {
            Err(ArithFault::Overflow)
        } else {
            Ok(Scalar { units: q as i64 })
        }
    }

    pub fn checked_div(self, rhs: Scalar) -> (r: Result<Scalar, ArithFault>)
        ensures
            rhs.val() == 0 ==> r == Err::<Scalar, ArithFault>(ArithFault::DivisionByZero),
            rhs.val() != 0 ==> (fits(div_units(self.val(), rhs.val())) <==> r.is_ok()),
            rhs.val() != 0 && r.is_err() ==> r == Err::<Scalar, ArithFault>(ArithFault::Overflow),
            r matches Ok(s) ==> s.val() == div_units(self.val(), rhs.val()),
    {
        if rhs.units == 0 {
            return Err(ArithFault::DivisionByZero);
        }
        let a: i128 = self.units as i128;
        assert(-0x8000_0000_0000_0000 * 1_000_000 <= a * 1_000_000 <= 0x8000_0000_0000_0000 * 1_000_000)
            by (nonlinear_arith)
            requires -0x8000_0000_0000_0000 <= a <= 0x8000_0000_0000_0000;
        let p: i128 = a * (SCALE as i128);
        let q = quot_exec(p, rhs.units as i128);
        if q < i64::MIN as i128 || q > i64::MAX as i128 {
            Err(ArithFault::Overflow)
        } else {
            Ok(Scalar { units: q as i64 })
        }
    }
}

} // verus!
