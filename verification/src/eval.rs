//! Postfix (reverse Polish) evaluation.
//!
//! The input splits on whitespace into tokens.  An operator token pops two
//! operands and pushes the exact result; any other token must parse as a
//! numeric literal (digits with at most one decimal point, optionally behind
//! a leading minus sign) and is pushed.  Success requires exactly one value
//! on the stack at the end; that value is then rounded to ten decimal
//! places, half away from zero.

use vstd::prelude::*;
use vstd::string::StrSliceExecFns;
use vstd::arithmetic::div_mod::lemma_fundamental_div_mod;
use crate::CalcError;
use crate::convert::is_digit;
use crate::convert::is_digit_char;
use crate::value::Rat;
use crate::value::Value;
use crate::value::fits_i128;
use crate::value::is_operator;
use crate::value::is_operator_char;
use crate::value::spec_apply;
use crate::value::apply_op;

verus! {

/// The scale of the final rounding: ten decimal places.
pub const TEN_POW10: i128 = 10000000000;

/// Whether a character separates tokens: the ASCII whitespace characters.
pub open spec fn is_space(c: char) -> bool {
    c == ' ' || c == '\t' || c == '\n' || c == '\r' || c == '\x0c'
}

/// Whether a character separates tokens, executable form.
pub fn is_space_char(c: char) -> (r: bool)
    ensures
        r == is_space(c),
{
    c == ' ' || c == '\t' || c == '\n' || c == '\r' || c == '\x0c'
}

/// The numeric value of a digit character.
pub open spec fn digit_val(c: char) -> int {
    c as u32 - 48
}

/// One left-to-right pass over a literal's body from position `i`: every
/// character must be a digit or a first decimal point, and at least one
/// digit must occur (`dig` records whether one already has).
pub open spec fn valid_scan(s: Seq<char>, i: int, dot: bool, dig: bool) -> bool
    decreases s.len() - i,
{
    if i < 0 || i >= s.len() {
        dig
    } else if is_digit(s[i]) {
        valid_scan(s, i + 1, dot, true)
    } else if s[i] == '.' {
        if dot {
            false
        } else {
            valid_scan(s, i + 1, true, dig)
        }
    } else {
        false
    }
}

/// Whether a token is a well-formed numeric literal: an optional leading
/// minus sign, then digits with at most one decimal point and at least one
/// digit.
pub open spec fn is_number_token(s: Seq<char>) -> bool {
    if s.len() > 0 && s[0] == '-' {
        valid_scan(s, 1, false, false)
    } else {
        valid_scan(s, 0, false, false)
    }
}

/// Accumulate a literal body's magnitude as an exact fraction, left to
/// right: each digit scales the numerator, and each digit after the decimal
/// point also scales the denominator.  `None` reports a 128-bit overflow.
pub open spec fn num_scan(s: Seq<char>, i: int, num: int, den: int, dot: bool) -> Option<
    (int, int),
>
    decreases s.len() - i,
{
    if i < 0 || i >= s.len() {
        Some((num, den))
    } else if s[i] == '.' {
        num_scan(s, i + 1, num, den, true)
    } else {
        let n2 = num * 10 + digit_val(s[i]);
        let d2 = if dot {
            den * 10
        } else {
            den
        };
        if fits_i128(n2) && fits_i128(d2) {
            num_scan(s, i + 1, n2, d2, dot)
        } else {
            None
        }
    }
}

/// What parsing a token as a numeric literal yields: the exact rational it
/// denotes, `InvalidNumber` for a malformed literal, or `Overflow` when a
/// 128-bit integer cannot hold it.
pub open spec fn spec_parse(s: Seq<char>) -> Result<Rat, CalcError> {
    let neg = s.len() > 0 && s[0] == '-';
    let start: int = if neg {
        1
    } else {
        0
    };
    if !is_number_token(s) {
        Err(CalcError::InvalidNumber)
    } else {
        match num_scan(s, start, 0, 1, false) {
            None => Err(CalcError::Overflow),
            Some((n, d)) => Ok(
                Rat {
                    num: (if neg {
                        -n
                    } else {
                        n
                    }) as i128,
                    den: d as i128,
                },
            ),
        }
    }
}

/// Check a literal body against the grammar, from position `start`.
fn check_number_body(tok: &Vec<char>, start: usize) -> (r: bool)
    requires
        start <= tok@.len(),
    ensures
        r == valid_scan(tok@, start as int, false, false),
{
    let mut j: usize = start;
    let mut dot: bool = false;
    let mut dig: bool = false;
    while j < tok.len()
        invariant
            start <= j <= tok@.len(),
            valid_scan(tok@, j as int, dot, dig) == valid_scan(tok@, start as int, false, false),
        decreases tok@.len() - j,
    {
        let c = tok[j];
        if is_digit_char(c) {
            dig = true;
        } else if c == '.' {
            if dot {
                return false;
            }
            dot = true;
        } else {
            return false;
        }
        j += 1;
    }
    dig
}

/// Accumulate a checked literal body's magnitude, from position `start`.
fn parse_magnitude(tok: &Vec<char>, start: usize) -> (r: Result<Rat, CalcError>)
    requires
        start <= tok@.len(),
        valid_scan(tok@, start as int, false, false),
    ensures
        r matches Ok(q) ==> num_scan(tok@, start as int, 0, 1, false) == Some(
            (q.num as int, q.den as int),
        ) && q.num >= 0 && q.den >= 1,
        r matches Err(e) ==> e == CalcError::Overflow && num_scan(
            tok@,
            start as int,
            0,
            1,
            false,
        ) is None,
{
    let mut j: usize = start;
    let mut num: i128 = 0;
    let mut den: i128 = 1;
    let mut dot: bool = false;
    let ghost mut dig: bool = false;
    while j < tok.len()
        invariant
            start <= j <= tok@.len(),
            num >= 0,
            den >= 1,
            valid_scan(tok@, j as int, dot, dig),
            num_scan(tok@, j as int, num as int, den as int, dot) == num_scan(
                tok@,
                start as int,
                0,
                1,
                false,
            ),
        decreases tok@.len() - j,
    {
        let c = tok[j];
        if c == '.' {
            proof {
                assert(!dot);
            }
            dot = true;
        } else {
            proof {
                assert(is_digit(c));
            }
            let u: u32 = c as u32;
            let dv: i128 = (u - 48) as i128;
            let n2 = match num.checked_mul(10) {
                Some(m) => match m.checked_add(dv) {
                    Some(a) => a,
                    None => {
                        return Err(CalcError::Overflow);
                    },
                },
                None => {
                    proof {
                        assert(num * 10 + digit_val(c) > i128::MAX);
                    }
                    return Err(CalcError::Overflow);
                },
            };
            let d2 = if dot {
                match den.checked_mul(10) {
                    Some(m) => m,
                    None => {
                        return Err(CalcError::Overflow);
                    },
                }
            } else {
                den
            };
            num = n2;
            den = d2;
            proof {
                dig = true;
            }
        }
        j += 1;
    }
    Ok(Rat { num, den })
}

/// Parse a token as a numeric literal.
pub fn parse_number(tok: &Vec<char>) -> (r: Result<Rat, CalcError>)
    ensures
        r == spec_parse(tok@),
        r matches Ok(q) ==> q.wf(),
{
    let neg = tok.len() > 0 && tok[0] == '-';
    let start: usize = if neg {
        1
    } else {
        0
    };
    if !check_number_body(tok, start) {
        return Err(CalcError::InvalidNumber);
    }
    match parse_magnitude(tok, start) {
        Err(e) => Err(e),
        Ok(q) => {
            if neg {
                Ok(Rat { num: -q.num, den: q.den })
            } else {
                Ok(q)
            }
        },
    }
}

/// The absolute value of an integer.
pub open spec fn abs_of(x: int) -> int {
    if x >= 0 {
        x
    } else {
        -x
    }
}

/// The final value scaled by ten to the tenth and rounded to the nearest
/// integer, half away from zero: the rounding the evaluator applies to a
/// successful result.
pub open spec fn spec_round_scaled(x: Rat) -> int {
    let m = abs_of(x.num as int) * (TEN_POW10 as int);
    let q = m / (x.den as int);
    let r = m % (x.den as int);
    let q2 = if 2 * r >= x.den as int {
        q + 1
    } else {
        q
    };
    if x.num >= 0 {
        q2
    } else {
        -q2
    }
}

/// Rounding applied to a value: finite values round to a fraction over ten
/// to the tenth; the special values pass through unchanged.  `Overflow`
/// reports a scaled magnitude beyond what 128-bit arithmetic can hold.
pub open spec fn spec_round_value(v: Value) -> Result<Value, CalcError> {
    match v {
        Value::Finite(x) => {
            if abs_of(x.num as int) * (TEN_POW10 as int) <= u128::MAX && fits_i128(
                spec_round_scaled(x),
            ) {
                Ok(Value::Finite(Rat { num: spec_round_scaled(x) as i128, den: TEN_POW10 }))
            } else {
                Err(CalcError::Overflow)
            }
        },
        _ => Ok(v),
    }
}

/// Round a value to ten decimal places, half away from zero.
pub fn round_value(v: Value) -> (r: Result<Value, CalcError>)
    requires
        v.wf(),
    ensures
        r == spec_round_value(v),
        r matches Ok(w) ==> w.wf() && (w matches Value::Finite(q) ==> q.den == TEN_POW10),
{
    match v {
        Value::Finite(x) => {
            let a: u128 = if x.num >= 0 {
                x.num as u128
            } else {
                ((-(x.num + 1)) as u128) + 1
            };
            proof {
                assert(a as int == abs_of(x.num as int));
            }
            let d: u128 = x.den as u128;
            match a.checked_mul(TEN_POW10 as u128) {
                None => Err(CalcError::Overflow),
                Some(m) => {
                    let q: u128 = m / d;
                    let r: u128 = m % d;
                    proof {
                        lemma_fundamental_div_mod(m as int, d as int);
                    }
                    let q2: u128 = if 2 * r >= d {
                        proof {
                            assert(q < u128::MAX) by {
                                if q == u128::MAX {
                                    assert((u128::MAX as int) * (d as int) <= m as int ==> d
                                        as int <= 1) by (nonlinear_arith);
                                    assert(d as int * q as int <= m as int) by (nonlinear_arith)
                                        requires
                                            m as int == d as int * q as int + r as int,
                                            r >= 0,
                                    ;
                                }
                            }
                        }
                        q + 1
                    } else {
                        q
                    };
                    if x.num >= 0 {
                        if q2 <= (i128::MAX as u128) {
                            Ok(Value::Finite(Rat { num: q2 as i128, den: TEN_POW10 }))
                        } else {
                            Err(CalcError::Overflow)
                        }
                    } else {
                        if q2 <= (i128::MAX as u128) {
                            Ok(Value::Finite(Rat { num: -(q2 as i128), den: TEN_POW10 }))
                        } else if q2 == (i128::MAX as u128) + 1 {
                            Ok(Value::Finite(Rat { num: i128::MIN, den: TEN_POW10 }))
                        } else {
                            Err(CalcError::Overflow)
                        }
                    }
                },
            }
        },
        Value::PosInf => Ok(v),
        Value::NegInf => Ok(v),
        Value::NaN => Ok(v),
    }
}

/// What one token does to the operand stack: an operator pops two operands
/// and pushes the exact result; anything else must parse as a literal and
/// is pushed.
pub open spec fn spec_step(tok: Seq<char>, stack: Seq<Value>) -> Result<Seq<Value>, CalcError> {
    if tok.len() == 1 && is_operator(tok[0]) {
        if stack.len() < 2 {
            Err(CalcError::InvalidExpression)
        } else {
            let b = stack[stack.len() - 1];
            let a = stack[stack.len() - 2];
            match spec_apply(tok[0], a, b) {
                Some(v) => Ok(stack.drop_last().drop_last().push(v)),
                None => Err(CalcError::Overflow),
            }
        }
    } else {
        match spec_parse(tok) {
            Ok(q) => Ok(stack.push(Value::Finite(q))),
            Err(e) => Err(e),
        }
    }
}

/// Apply the pending token, if any, to the stack.
pub open spec fn spec_flush(buf: Seq<char>, stack: Seq<Value>) -> Result<Seq<Value>, CalcError> {
    if buf.len() == 0 {
        Ok(stack)
    } else {
        spec_step(buf, stack)
    }
}

/// The evaluator's verdict on a fully consumed input: exactly one value may
/// remain, and it is rounded.
pub open spec fn spec_finish(stack: Seq<Value>) -> Result<Value, CalcError> {
    if stack.len() == 1 {
        spec_round_value(stack[0])
    } else {
        Err(CalcError::InvalidExpression)
    }
}

/// One full pass of the evaluator from position `i`, with the pending token
/// characters and the operand stack so far.
pub open spec fn eval_scan(s: Seq<char>, i: int, buf: Seq<char>, stack: Seq<Value>) -> Result<
    Value,
    CalcError,
>
    decreases s.len() - i,
{
    if i < 0 || i >= s.len() {
        match spec_flush(buf, stack) {
            Ok(st) => spec_finish(st),
            Err(e) => Err(e),
        }
    } else if is_space(s[i]) {
        match spec_flush(buf, stack) {
            Ok(st) => eval_scan(s, i + 1, Seq::empty(), st),
            Err(e) => Err(e),
        }
    } else {
        eval_scan(s, i + 1, buf.push(s[i]), stack)
    }
}

/// What evaluating a whitespace-separated postfix token string yields.
pub open spec fn spec_evaluate(s: Seq<char>) -> Result<Value, CalcError> {
    eval_scan(s, 0, Seq::empty(), Seq::empty())
}

/// Apply one token to the operand stack.
fn step_token(tok: &Vec<char>, stack: &mut Vec<Value>) -> (r: Result<(), CalcError>)
    requires
        forall|k: int| 0 <= k < old(stack)@.len() ==> (#[trigger] old(stack)@[k]).wf(),
    ensures
        r matches Ok(u) ==> spec_step(tok@, old(stack)@) == Ok::<Seq<Value>, CalcError>(
            final(stack)@,
        ),
        r matches Err(e) ==> spec_step(tok@, old(stack)@) == Err::<Seq<Value>, CalcError>(e),
        forall|k: int| 0 <= k < final(stack)@.len() ==> (#[trigger] final(stack)@[k]).wf(),
{
    if tok.len() == 1 && is_operator_char(tok[0]) {
        if stack.len() < 2 {
            return Err(CalcError::InvalidExpression);
        }
        let ghost st0: Seq<Value> = stack@;
        let b = stack.pop().unwrap();
        let a = stack.pop().unwrap();
        proof {
            assert(stack@ =~= st0.drop_last().drop_last());
        }
        match apply_op(tok[0], a, b) {
            Some(v) => {
                stack.push(v);
                Ok(())
            },
            None => Err(CalcError::Overflow),
        }
    } else {
        match parse_number(tok) {
            Ok(q) => {
                stack.push(Value::Finite(q));
                Ok(())
            },
            Err(e) => Err(e),
        }
    }
}

/// Evaluate a whitespace-separated postfix token string.
///
/// Exactly when every token is an operator with two operands available or a
/// well-formed literal and one value remains at the end, the result is that
/// value, rounded to ten decimal places half away from zero.  Division by
/// zero is not an error: it yields an infinity, or `NaN` for `0 / 0`.
pub fn evaluate_postfix(expression: &str) -> (r: Result<Value, CalcError>)
    ensures
        r == spec_evaluate(expression@),
        r matches Ok(v) ==> v.wf() && (v matches Value::Finite(q) ==> q.den == TEN_POW10),
{
    let ghost s: Seq<char> = expression@;
    let n: usize = expression.unicode_len();
    let mut stack: Vec<Value> = Vec::new();
    let mut buf: Vec<char> = Vec::new();
    let mut i: usize = 0;
    while i < n
        invariant
            n == s.len(),
            expression@ == s,
            i <= n,
            forall|k: int| 0 <= k < stack@.len() ==> (#[trigger] stack@[k]).wf(),
            eval_scan(s, i as int, buf@, stack@) == spec_evaluate(s),
        decreases n - i,
    {
        let ghost buf_e: Seq<char> = buf@;
        let ghost st_e: Seq<Value> = stack@;
        let c = expression.get_char(i);
        if is_space_char(c) {
            if buf.len() > 0 {
                match step_token(&buf, &mut stack) {
                    Ok(_) => {},
                    Err(e) => {
                        return Err(e);
                    },
                }
                buf.clear();
            }
            proof {
                assert(eval_scan(s, i as int, buf_e, st_e) == eval_scan(
                    s,
                    i + 1,
                    Seq::empty(),
                    stack@,
                ));
                assert(buf@ =~= Seq::<char>::empty());
            }
        } else {
            buf.push(c);
            proof {
                assert(eval_scan(s, i as int, buf_e, st_e) == eval_scan(
                    s,
                    i + 1,
                    buf_e.push(c),
                    st_e,
                ));
            }
        }
        i += 1;
    }
    let ghost buf_f: Seq<char> = buf@;
    let ghost st_f: Seq<Value> = stack@;
    if buf.len() > 0 {
        match step_token(&buf, &mut stack) {
            Ok(_) => {},
            Err(e) => {
                return Err(e);
            },
        }
    }
    proof {
        assert(spec_flush(buf_f, st_f) == Ok::<Seq<Value>, CalcError>(stack@));
        assert(spec_evaluate(s) == spec_finish(stack@));
    }
    if stack.len() == 1 {
        let v = stack[0];
        round_value(v)
    } else {
        Err(CalcError::InvalidExpression)
    }
}

} // verus!
