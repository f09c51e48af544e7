//! The numeric model of the calculator: exact rational numbers over 128-bit
//! integers, extended with the special values `inf`, `-inf` and `NaN` so that
//! division by zero yields an infinity (or `NaN` for `0 / 0`) instead of an
//! error, the way floating-point arithmetic treats it.
//!
//! Every operation is exact; when an intermediate numerator or denominator
//! would leave the 128-bit range the operation reports that instead of
//! returning a wrong value.

use vstd::prelude::*;

verus! {

/// An exact rational number `num / den`; well-formed when `den > 0`.
#[derive(Clone, Copy, Debug, PartialEq, Eq, Structural)]
pub struct Rat {
    pub num: i128,
    pub den: i128,
}

impl Rat {
    pub open spec fn wf(self) -> bool {
        self.den > 0
    }
}

/// A calculation result: an exact rational, or one of the special values
/// that division by zero produces.
#[derive(Clone, Copy, Debug, PartialEq, Eq, Structural)]
pub enum Value {
    Finite(Rat),
    PosInf,
    NegInf,
    NaN,
}

impl Value {
    pub open spec fn wf(self) -> bool {
        match self {
            Value::Finite(r) => r.wf(),
            _ => true,
        }
    }
}

/// Whether a mathematical integer fits in an `i128`.
pub open spec fn fits_i128(x: int) -> bool {
    i128::MIN <= x <= i128::MAX
}

/// Exact sum of two finite rationals, or `None` when an intermediate
/// product or the sum leaves the 128-bit range.
pub open spec fn spec_add_finite(x: Rat, y: Rat) -> Option<Value> {
    let n1 = x.num * y.den;
    let n2 = y.num * x.den;
    let n = n1 + n2;
    let d = x.den * y.den;
    if fits_i128(n1) && fits_i128(n2) && fits_i128(n) && fits_i128(d) {
        Some(Value::Finite(Rat { num: n as i128, den: d as i128 }))
    } else {
        None
    }
}

/// Exact difference of two finite rationals.
pub open spec fn spec_sub_finite(x: Rat, y: Rat) -> Option<Value> {
    let n1 = x.num * y.den;
    let n2 = y.num * x.den;
    let n = n1 - n2;
    let d = x.den * y.den;
    if fits_i128(n1) && fits_i128(n2) && fits_i128(n) && fits_i128(d) {
        Some(Value::Finite(Rat { num: n as i128, den: d as i128 }))
    } else {
        None
    }
}

/// Exact product of two finite rationals.
pub open spec fn spec_mul_finite(x: Rat, y: Rat) -> Option<Value> {
    let n = x.num * y.num;
    let d = x.den * y.den;
    if fits_i128(n) && fits_i128(d) {
        Some(Value::Finite(Rat { num: n as i128, den: d as i128 }))
    } else {
        None
    }
}

/// Exact quotient of two finite rationals.  Division by zero yields an
/// infinity whose sign is the dividend's, and `NaN` for `0 / 0`.
pub open spec fn spec_div_finite(x: Rat, y: Rat) -> Option<Value> {
    if y.num == 0 {
        if x.num > 0 {
            Some(Value::PosInf)
        } else if x.num < 0 {
            Some(Value::NegInf)
        } else {
            Some(Value::NaN)
        }
    } else {
        let n = x.num * y.den;
        let d = x.den * y.num;
        if fits_i128(n) && fits_i128(d) {
            if y.num > 0 {
                Some(Value::Finite(Rat { num: n as i128, den: d as i128 }))
            } else if fits_i128(-n) && fits_i128(-d) {
                Some(Value::Finite(Rat { num: (-n) as i128, den: (-d) as i128 }))
            } else {
                None
            }
        } else {
            None
        }
    }
}

/// Addition over the full value domain, with the special values absorbing
/// as they do in floating-point arithmetic.
pub open spec fn spec_add(a: Value, b: Value) -> Option<Value> {
    match (a, b) {
        (Value::NaN, _) => Some(Value::NaN),
        (_, Value::NaN) => Some(Value::NaN),
        (Value::PosInf, Value::NegInf) => Some(Value::NaN),
        (Value::NegInf, Value::PosInf) => Some(Value::NaN),
        (Value::PosInf, _) => Some(Value::PosInf),
        (_, Value::PosInf) => Some(Value::PosInf),
        (Value::NegInf, _) => Some(Value::NegInf),
        (_, Value::NegInf) => Some(Value::NegInf),
        (Value::Finite(x), Value::Finite(y)) => spec_add_finite(x, y),
    }
}

/// Subtraction over the full value domain.
pub open spec fn spec_sub(a: Value, b: Value) -> Option<Value> {
    match (a, b) {
        (Value::NaN, _) => Some(Value::NaN),
        (_, Value::NaN) => Some(Value::NaN),
        (Value::PosInf, Value::PosInf) => Some(Value::NaN),
        (Value::NegInf, Value::NegInf) => Some(Value::NaN),
        (Value::PosInf, _) => Some(Value::PosInf),
        (Value::NegInf, _) => Some(Value::NegInf),
        (_, Value::PosInf) => Some(Value::NegInf),
        (_, Value::NegInf) => Some(Value::PosInf),
        (Value::Finite(x), Value::Finite(y)) => spec_sub_finite(x, y),
    }
}

/// The sign of a finite value: negative, zero or positive as `-1`, `0`, `1`.
pub open spec fn spec_sign(x: Rat) -> int {
    if x.num > 0 {
        1int
    } else if x.num < 0 {
        -1int
    } else {
        0int
    }
}

/// Multiplication over the full value domain; an infinity times zero is `NaN`.
pub open spec fn spec_mul(a: Value, b: Value) -> Option<Value> {
    match (a, b) {
        (Value::NaN, _) => Some(Value::NaN),
        (_, Value::NaN) => Some(Value::NaN),
        (Value::PosInf, Value::PosInf) => Some(Value::PosInf),
        (Value::PosInf, Value::NegInf) => Some(Value::NegInf),
        (Value::NegInf, Value::PosInf) => Some(Value::NegInf),
        (Value::NegInf, Value::NegInf) => Some(Value::PosInf),
        (Value::PosInf, Value::Finite(y)) => Some(inf_times_sign(spec_sign(y))),
        (Value::Finite(x), Value::PosInf) => Some(inf_times_sign(spec_sign(x))),
        (Value::NegInf, Value::Finite(y)) => Some(inf_times_sign(-spec_sign(y))),
        (Value::Finite(x), Value::NegInf) => Some(inf_times_sign(-spec_sign(x))),
        (Value::Finite(x), Value::Finite(y)) => spec_mul_finite(x, y),
    }
}

/// A positive infinity scaled by a sign: `NaN` when the sign is zero.
pub open spec fn inf_times_sign(s: int) -> Value {
    if s > 0 {
        Value::PosInf
    } else if s < 0 {
        Value::NegInf
    } else {
        Value::NaN
    }
}

/// Division over the full value domain; infinity over infinity is `NaN`,
/// a finite value over an infinity is zero, an infinity over a finite
/// value keeps the infinity (with the divisor's sign applied).
pub open spec fn spec_div(a: Value, b: Value) -> Option<Value> {
    match (a, b) {
        (Value::NaN, _) => Some(Value::NaN),
        (_, Value::NaN) => Some(Value::NaN),
        (Value::PosInf, Value::PosInf) => Some(Value::NaN),
        (Value::PosInf, Value::NegInf) => Some(Value::NaN),
        (Value::NegInf, Value::PosInf) => Some(Value::NaN),
        (Value::NegInf, Value::NegInf) => Some(Value::NaN),
        (Value::PosInf, Value::Finite(y)) => Some(
            if y.num < 0 {
                Value::NegInf
            } else {
                Value::PosInf
            },
        ),
        (Value::NegInf, Value::Finite(y)) => Some(
            if y.num < 0 {
                Value::PosInf
            } else {
                Value::NegInf
            },
        ),
        (Value::Finite(_), Value::PosInf) => Some(Value::Finite(Rat { num: 0, den: 1 })),
        (Value::Finite(_), Value::NegInf) => Some(Value::Finite(Rat { num: 0, den: 1 })),
        (Value::Finite(x), Value::Finite(y)) => spec_div_finite(x, y),
    }
}

/// Whether a character is one of the four binary operator symbols.
pub open spec fn is_operator(c: char) -> bool {
    c == '+' || c == '-' || c == '*' || c == '/'
}

/// What one operator does to two values: `None` means the exact result
/// left the 128-bit range.
pub open spec fn spec_apply(op: char, a: Value, b: Value) -> Option<Value> {
    if op == '+' {
        spec_add(a, b)
    } else if op == '-' {
        spec_sub(a, b)
    } else if op == '*' {
        spec_mul(a, b)
    } else {
        spec_div(a, b)
    }
}

/// Exact sum of two finite rationals; `None` on 128-bit overflow.
fn add_finite(x: Rat, y: Rat) -> (r: Option<Value>)
    requires
        x.wf(),
        y.wf(),
    ensures
        r == spec_add_finite(x, y),
        r matches Some(v) ==> v.wf(),
{
    let n1_opt = x.num.checked_mul(y.den);
    let n2_opt = y.num.checked_mul(x.den);
    let d_opt = x.den.checked_mul(y.den);
    match (n1_opt, n2_opt, d_opt) {
        (Some(n1), Some(n2), Some(d)) => match n1.checked_add(n2) {
            Some(n) => {
                proof {
                    assert(x.den * y.den > 0) by (nonlinear_arith)
                        requires
                            x.den > 0,
                            y.den > 0,
                    ;
                }
                Some(Value::Finite(Rat { num: n, den: d }))
            },
            None => None,
        },
        _ => None,
    }
}

/// Exact difference of two finite rationals; `None` on 128-bit overflow.
fn sub_finite(x: Rat, y: Rat) -> (r: Option<Value>)
    requires
        x.wf(),
        y.wf(),
    ensures
        r == spec_sub_finite(x, y),
        r matches Some(v) ==> v.wf(),
{
    let n1_opt = x.num.checked_mul(y.den);
    let n2_opt = y.num.checked_mul(x.den);
    let d_opt = x.den.checked_mul(y.den);
    match (n1_opt, n2_opt, d_opt) {
        (Some(n1), Some(n2), Some(d)) => match n1.checked_sub(n2) {
            Some(n) => {
                proof {
                    assert(x.den * y.den > 0) by (nonlinear_arith)
                        requires
                            x.den > 0,
                            y.den > 0,
                    ;
                }
                Some(Value::Finite(Rat { num: n, den: d }))
            },
            None => None,
        },
        _ => None,
    }
}

/// Exact product of two finite rationals; `None` on 128-bit overflow.
fn mul_finite(x: Rat, y: Rat) -> (r: Option<Value>)
    requires
        x.wf(),
        y.wf(),
    ensures
        r == spec_mul_finite(x, y),
        r matches Some(v) ==> v.wf(),
{
    let n_opt = x.num.checked_mul(y.num);
    let d_opt = x.den.checked_mul(y.den);
    match (n_opt, d_opt) {
        (Some(n), Some(d)) => {
            proof {
                assert(x.den * y.den > 0) by (nonlinear_arith)
                    requires
                        x.den > 0,
                        y.den > 0,
                ;
            }
            Some(Value::Finite(Rat { num: n, den: d }))
        },
        _ => None,
    }
}

/// Exact quotient of two finite rationals; division by zero yields an
/// infinity or `NaN`, never an error.
fn div_finite(x: Rat, y: Rat) -> (r: Option<Value>)
    requires
        x.wf(),
        y.wf(),
    ensures
        r == spec_div_finite(x, y),
        r matches Some(v) ==> v.wf(),
{
    if y.num == 0 {
        if x.num > 0 {
            Some(Value::PosInf)
        } else if x.num < 0 {
            Some(Value::NegInf)
        } else {
            Some(Value::NaN)
        }
    } else {
        let n_opt = x.num.checked_mul(y.den);
        let d_opt = x.den.checked_mul(y.num);
        match (n_opt, d_opt) {
            (Some(n), Some(d)) => {
                if y.num > 0 {
                    proof {
                        assert(x.den * y.num > 0) by (nonlinear_arith)
                            requires
                                x.den > 0,
                                y.num > 0,
                        ;
                    }
                    Some(Value::Finite(Rat { num: n, den: d }))
                } else {
                    let nn_opt = 0i128.checked_sub(n);
                    let nd_opt = 0i128.checked_sub(d);
                    match (nn_opt, nd_opt) {
                        (Some(nn), Some(nd)) => {
                            proof {
                                assert(x.den * y.num < 0) by (nonlinear_arith)
                                    requires
                                        x.den > 0,
                                        y.num < 0,
                                ;
                            }
                            Some(Value::Finite(Rat { num: nn, den: nd }))
                        },
                        _ => None,
                    }
                }
            },
            _ => None,
        }
    }
}

/// Whether a character is one of the four binary operator symbols.
pub fn is_operator_char(c: char) -> (r: bool)
    ensures
        r == is_operator(c),
{
    c == '+' || c == '-' || c == '*' || c == '/'
}

/// Apply one binary operator to two values.  `None` reports that an exact
/// intermediate result left the 128-bit range.
pub fn apply_op(op: char, a: Value, b: Value) -> (r: Option<Value>)
    requires
        a.wf(),
        b.wf(),
    ensures
        r == spec_apply(op, a, b),
        r matches Some(v) ==> v.wf(),
{
    if op == '+' {
        match (a, b) {
            (Value::NaN, _) => Some(Value::NaN),
            (_, Value::NaN) => Some(Value::NaN),
            (Value::PosInf, Value::NegInf) => Some(Value::NaN),
            (Value::NegInf, Value::PosInf) => Some(Value::NaN),
            (Value::PosInf, _) => Some(Value::PosInf),
            (_, Value::PosInf) => Some(Value::PosInf),
            (Value::NegInf, _) => Some(Value::NegInf),
            (_, Value::NegInf) => Some(Value::NegInf),
            (Value::Finite(x), Value::Finite(y)) => add_finite(x, y),
        }
    } else if op == '-' {
        match (a, b) {
            (Value::NaN, _) => Some(Value::NaN),
            (_, Value::NaN) => Some(Value::NaN),
            (Value::PosInf, Value::PosInf) => Some(Value::NaN),
            (Value::NegInf, Value::NegInf) => Some(Value::NaN),
            (Value::PosInf, _) => Some(Value::PosInf),
            (Value::NegInf, _) => Some(Value::NegInf),
            (_, Value::PosInf) => Some(Value::NegInf),
            (_, Value::NegInf) => Some(Value::PosInf),
            (Value::Finite(x), Value::Finite(y)) => sub_finite(x, y),
        }
    } else if op == '*' {
        match (a, b) {
            (Value::NaN, _) => Some(Value::NaN),
            (_, Value::NaN) => Some(Value::NaN),
            (Value::PosInf, Value::PosInf) => Some(Value::PosInf),
            (Value::PosInf, Value::NegInf) => Some(Value::NegInf),
            (Value::NegInf, Value::PosInf) => Some(Value::NegInf),
            (Value::NegInf, Value::NegInf) => Some(Value::PosInf),
            (Value::PosInf, Value::Finite(y)) => Some(
                if y.num > 0 {
                    Value::PosInf
                } else if y.num < 0 {
                    Value::NegInf
                } else {
                    Value::NaN
                },
            ),
            (Value::Finite(x), Value::PosInf) => Some(
                if x.num > 0 {
                    Value::PosInf
                } else if x.num < 0 {
                    Value::NegInf
                } else {
                    Value::NaN
                },
            ),
            (Value::NegInf, Value::Finite(y)) => Some(
                if y.num > 0 {
                    Value::NegInf
                } else if y.num < 0 {
                    Value::PosInf
                } else {
                    Value::NaN
                },
            ),
            (Value::Finite(x), Value::NegInf) => Some(
                if x.num > 0 {
                    Value::NegInf
                } else if x.num < 0 {
                    Value::PosInf
                } else {
                    Value::NaN
                },
            ),
            (Value::Finite(x), Value::Finite(y)) => mul_finite(x, y),
        }
    } else {
        match (a, b) {
            (Value::NaN, _) => Some(Value::NaN),
            (_, Value::NaN) => Some(Value::NaN),
            (Value::PosInf, Value::PosInf) => Some(Value::NaN),
            (Value::PosInf, Value::NegInf) => Some(Value::NaN),
            (Value::NegInf, Value::PosInf) => Some(Value::NaN),
            (Value::NegInf, Value::NegInf) => Some(Value::NaN),
            (Value::PosInf, Value::Finite(y)) => Some(
                if y.num < 0 {
                    Value::NegInf
                } else {
                    Value::PosInf
                },
            ),
            (Value::NegInf, Value::Finite(y)) => Some(
                if y.num < 0 {
                    Value::PosInf
                } else {
                    Value::NegInf
                },
            ),
            (Value::Finite(_), Value::PosInf) => Some(Value::Finite(Rat { num: 0, den: 1 })),
            (Value::Finite(_), Value::NegInf) => Some(Value::Finite(Rat { num: 0, den: 1 })),
            (Value::Finite(x), Value::Finite(y)) => div_finite(x, y),
        }
    }
}

/// Dividing a finite value by an exact zero never reports an error: it
/// yields the infinity of the dividend's sign, or `NaN` for `0 / 0`.
pub proof fn lemma_div_by_zero(a: Rat, b: Rat)
    requires
        a.wf(),
        b.wf(),
        b.num == 0,
    ensures
        spec_apply('/', Value::Finite(a), Value::Finite(b)) == Some(
            if a.num > 0 {
                Value::PosInf
            } else if a.num < 0 {
                Value::NegInf
            } else {
                Value::NaN
            },
        ),
{
}

} // verus!
