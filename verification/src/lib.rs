//! An arithmetic expression calculator: an infix-to-postfix converter
//! (shunting-yard) followed by a postfix evaluator over exact rational
//! numbers extended with the special values `inf`, `-inf` and `NaN`.
//!
//! The one entry point is [`calculate`]: an input that begins with the
//! marker `"pfx "` is evaluated directly as postfix; anything else is
//! converted first.  Errors from either stage come back unchanged as values,
//! never as panics.

use vstd::prelude::*;
use vstd::string::StrSliceExecFns;
use vstd::string::StringExecFns;
use vstd::arithmetic::div_mod::lemma_fundamental_div_mod;
use vstd::arithmetic::div_mod::lemma_mod_bound;

pub mod convert;
pub mod eval;
pub mod render;
mod text;
pub mod value;

use crate::convert::buffers_char;
use crate::convert::convert_tokens;
use crate::convert::drain_ops;
use crate::convert::flush_buf;
use crate::convert::is_digit;
use crate::convert::join_sp;
use crate::convert::lemma_join_push;
use crate::convert::pop_ge;
use crate::convert::precedence;
use crate::convert::shunting_yard;
use crate::convert::spec_convert;
use crate::convert::sy_scan;
use crate::eval::TEN_POW10;
use crate::eval::digit_val;
use crate::eval::eval_scan;
use crate::eval::evaluate_postfix;
use crate::eval::is_number_token;
use crate::eval::num_scan;
use crate::eval::spec_evaluate;
use crate::eval::spec_finish;
use crate::eval::spec_flush;
use crate::eval::spec_parse;
use crate::eval::abs_of;
use crate::eval::spec_round_scaled;
use crate::eval::spec_round_value;
use crate::eval::spec_step;
use crate::eval::valid_scan;
use crate::value::Rat;
use crate::value::is_operator;
use crate::value::spec_apply;
use crate::render::display_of;
use crate::render::render_value;
use crate::value::Value;

verus! {

/// The errors a calculation can report.  Nothing here panics: every failure
/// comes back as a value of this type.
#[derive(Clone, Copy, Debug, PartialEq, Eq, Structural)]
pub enum CalcError {
    /// The operand stack held too few values for an operator, or did not
    /// hold exactly one value once every token was consumed.
    InvalidExpression,
    /// A token that is not an operator failed to parse as a numeric literal.
    InvalidNumber,
    /// An intermediate numerator or denominator left the range a 128-bit
    /// integer can hold.
    Overflow,
}

/// The text of each error.
pub open spec fn spec_message(e: CalcError) -> Seq<char> {
    match e {
        CalcError::InvalidExpression => "Invalid expression"@,
        CalcError::InvalidNumber => "Invalid number"@,
        CalcError::Overflow => "Overflow"@,
    }
}

impl CalcError {
    /// The text of this error, for display in place of a numeric result.
    pub fn message(&self) -> (r: String)
        ensures
            r@ == spec_message(*self),
    {
        match self {
            CalcError::InvalidExpression => String::from_str("Invalid expression"),
            CalcError::InvalidNumber => String::from_str("Invalid number"),
            CalcError::Overflow => String::from_str("Overflow"),
        }
    }
}

/// Whether the input selects postfix mode: it begins with `pfx` and a space.
pub open spec fn has_pfx_marker(s: Seq<char>) -> bool {
    s.len() >= 4 && s[0] == 'p' && s[1] == 'f' && s[2] == 'x' && s[3] == ' '
}

/// What a full calculation yields: direct postfix evaluation behind the
/// marker, conversion followed by evaluation otherwise.
pub open spec fn spec_calculate(s: Seq<char>) -> Result<Value, CalcError> {
    if has_pfx_marker(s) {
        spec_evaluate(s.skip(4))
    } else {
        spec_evaluate(spec_convert(s))
    }
}

/// Calculate an expression: infix by default, postfix behind the exact
/// prefix `"pfx "`.  A successful result is rounded to ten decimal places;
/// errors from either stage propagate unchanged.
pub fn calculate(input: &str) -> (r: Result<Value, CalcError>)
    ensures
        r == spec_calculate(input@),
        r matches Ok(v) ==> v.wf() && (v matches Value::Finite(q) ==> q.den == TEN_POW10),
{
    let n: usize = input.unicode_len();
    if n >= 4 && input.get_char(0) == 'p' && input.get_char(1) == 'f' && input.get_char(2) == 'x'
        && input.get_char(3) == ' ' {
        let rest = input.substring_char(4, n);
        proof {
            assert(rest@ =~= input@.skip(4));
        }
        evaluate_postfix(rest)
    } else {
        match shunting_yard(input) {
            Ok(postfix) => evaluate_postfix(postfix.as_str()),
            Err(e) => Err(e),
        }
    }
}

/// Running a calculation twice on the same input text yields the same
/// result: the outcome is a function of the characters alone, with no state
/// kept between calls.
pub proof fn lemma_calculate_deterministic(s: Seq<char>, t: Seq<char>)
    requires
        s == t,
    ensures
        spec_calculate(s) == spec_calculate(t),
{
}

/// A single digit parses as the exact integer it names.
pub proof fn lemma_parse_digit(d: char)
    requires
        is_digit(d),
    ensures
        spec_parse(seq![d]) == Ok::<Rat, CalcError>(Rat { num: digit_val(d) as i128, den: 1 }),
{
    let t = seq![d];
    assert(t.len() == 1 && t[0] == d);
    assert(valid_scan(t, 0, false, false) == valid_scan(t, 1, false, true));
    assert(valid_scan(t, 1, false, true));
    assert(is_number_token(t));
    assert(0 <= digit_val(d) <= 9);
    assert(num_scan(t, 0, 0, 1, false) == num_scan(t, 1, digit_val(d), 1, false));
    assert(num_scan(t, 1, digit_val(d), 1, false) == Some((digit_val(d), 1int)));
}

/// A single-digit token pushes its value on the operand stack.
pub proof fn lemma_step_digit(d: char, stack: Seq<Value>)
    requires
        is_digit(d),
    ensures
        spec_step(seq![d], stack) == Ok::<Seq<Value>, CalcError>(
            stack.push(Value::Finite(Rat { num: digit_val(d) as i128, den: 1 })),
        ),
{
    assert(!is_operator(d));
    lemma_parse_digit(d);
}

/// An operator token applied to the two topmost stack values replaces them
/// by the operation's result.
pub proof fn lemma_step_op(c: char, base: Seq<Value>, x: Value, y: Value)
    requires
        is_operator(c),
        spec_apply(c, x, y) is Some,
    ensures
        spec_step(seq![c], base.push(x).push(y)) == Ok::<Seq<Value>, CalcError>(
            base.push(spec_apply(c, x, y)->Some_0),
        ),
{
    let st = base.push(x).push(y);
    assert(seq![c].len() == 1 && seq![c][0] == c);
    assert(st[st.len() - 1] == y && st[st.len() - 2] == x);
    assert(st.drop_last().drop_last() =~= base);
}

/// Applying an operator to two digit values always yields a value — the
/// exact result is small — and a finite result stays within two digits'
/// bounds.
pub proof fn lemma_apply_digit_pair(c: char, a: char, b: char)
    requires
        is_operator(c),
        is_digit(a),
        is_digit(b),
    ensures
        spec_apply(
            c,
            Value::Finite(Rat { num: digit_val(a) as i128, den: 1 }),
            Value::Finite(Rat { num: digit_val(b) as i128, den: 1 }),
        ) is Some,
        spec_apply(
            c,
            Value::Finite(Rat { num: digit_val(a) as i128, den: 1 }),
            Value::Finite(Rat { num: digit_val(b) as i128, den: 1 }),
        )->Some_0 matches Value::Finite(x) ==> -81 <= x.num <= 81 && 1 <= x.den <= 9,
{
    assert(0 <= digit_val(a) <= 9 && 0 <= digit_val(b) <= 9);
    assert(0 <= digit_val(a) * digit_val(b) <= 81) by (nonlinear_arith)
        requires
            0 <= digit_val(a) <= 9,
            0 <= digit_val(b) <= 9,
    ;
}

/// Applying an operator to a small finite value (or a special value) on the
/// left and a digit on the right always yields a value: nothing overflows.
pub proof fn lemma_apply_small_left(c: char, v: Value, d: char)
    requires
        is_operator(c),
        is_digit(d),
        v.wf(),
        v matches Value::Finite(x) ==> -81 <= x.num <= 81 && 1 <= x.den <= 9,
    ensures
        spec_apply(c, v, Value::Finite(Rat { num: digit_val(d) as i128, den: 1 })) is Some,
{
    assert(0 <= digit_val(d) <= 9);
    match v {
        Value::Finite(x) => {
            assert(-729 <= x.num * digit_val(d) <= 729 && -729 <= digit_val(d) * x.den <= 729
                && 0 <= x.den * digit_val(d) <= 81) by (nonlinear_arith)
                requires
                    -81 <= x.num <= 81,
                    1 <= x.den <= 9,
                    0 <= digit_val(d) <= 9,
            ;
        },
        _ => {},
    }
}

/// Applying an operator to a digit on the left and a small finite value (or
/// a special value) on the right always yields a value: nothing overflows.
pub proof fn lemma_apply_small_right(c: char, d: char, v: Value)
    requires
        is_operator(c),
        is_digit(d),
        v.wf(),
        v matches Value::Finite(x) ==> -81 <= x.num <= 81 && 1 <= x.den <= 9,
    ensures
        spec_apply(c, Value::Finite(Rat { num: digit_val(d) as i128, den: 1 }), v) is Some,
{
    assert(0 <= digit_val(d) <= 9);
    match v {
        Value::Finite(x) => {
            assert(-729 <= digit_val(d) * x.num <= 729 && 0 <= digit_val(d) * x.den <= 81)
                by (nonlinear_arith)
                requires
                    -81 <= x.num <= 81,
                    1 <= x.den <= 9,
                    0 <= digit_val(d) <= 9,
            ;
        },
        _ => {},
    }
}

/// One binary operation written in infix — a digit, an operator symbol, a
/// digit — calculates to the exact result of that operation on the two
/// digits, rounded to ten decimal places.  The operation never overflows,
/// and division by a zero digit still yields a value, not an error.
pub proof fn lemma_single_operation(a: char, c: char, b: char)
    requires
        is_digit(a),
        is_digit(b),
        is_operator(c),
    ensures
        spec_apply(
            c,
            Value::Finite(Rat { num: digit_val(a) as i128, den: 1 }),
            Value::Finite(Rat { num: digit_val(b) as i128, den: 1 }),
        ) is Some,
        spec_calculate(seq![a, c, b]) == spec_round_value(
            spec_apply(
                c,
                Value::Finite(Rat { num: digit_val(a) as i128, den: 1 }),
                Value::Finite(Rat { num: digit_val(b) as i128, den: 1 }),
            )->Some_0,
        ),
{
    let s = seq![a, c, b];
    let e = Seq::<char>::empty();
    let et = Seq::<Seq<char>>::empty();
    let ta = seq![a];
    let tb = seq![b];
    let tc = seq![c];
    let va = Value::Finite(Rat { num: digit_val(a) as i128, den: 1 });
    let vb = Value::Finite(Rat { num: digit_val(b) as i128, den: 1 });
    assert(s.len() == 3 && s[0] == a && s[1] == c && s[2] == b);
    assert(!has_pfx_marker(s));
    // conversion: literal, operator, literal becomes literal, literal, operator
    assert(buffers_char(a, true));
    assert(!buffers_char(c, false));
    assert(buffers_char(b, true));
    assert(convert_tokens(s) == sy_scan(s, 0, e, e, et, true));
    assert(sy_scan(s, 0, e, e, et, true) == sy_scan(s, 1, e.push(a), e, et, false));
    assert(e.push(a) =~= ta);
    assert(flush_buf(ta, et) == et.push(ta));
    assert(pop_ge(e, precedence(c), et.push(ta)) == (e, et.push(ta)));
    assert(sy_scan(s, 1, ta, e, et, false) == sy_scan(s, 2, e, e.push(c), et.push(ta), true));
    assert(sy_scan(s, 2, e, e.push(c), et.push(ta), true) == sy_scan(
        s,
        3,
        e.push(b),
        e.push(c),
        et.push(ta),
        false,
    ));
    assert(e.push(b) =~= tb);
    assert(sy_scan(s, 3, tb, e.push(c), et.push(ta), false) == drain_ops(
        e.push(c),
        flush_buf(tb, et.push(ta)),
    ));
    assert(flush_buf(tb, et.push(ta)) == et.push(ta).push(tb));
    assert(e.push(c).last() == c && e.push(c).drop_last() =~= e);
    assert(seq![e.push(c).last()] =~= tc);
    assert(drain_ops(e.push(c), et.push(ta).push(tb)) == drain_ops(
        e,
        et.push(ta).push(tb).push(tc),
    ));
    assert(drain_ops(e, et.push(ta).push(tb).push(tc)) == et.push(ta).push(tb).push(tc));
    let toks = et.push(ta).push(tb).push(tc);
    assert(convert_tokens(s) == toks);
    // joining with spaces
    lemma_join_push(et, ta);
    lemma_join_push(et.push(ta), tb);
    lemma_join_push(et.push(ta).push(tb), tc);
    assert(join_sp(toks) == (ta + seq![' '] + tb) + seq![' '] + tc);
    let js = seq![a, ' ', b, ' ', c];
    assert((ta + seq![' '] + tb) + seq![' '] + tc =~= js);
    assert(spec_convert(s) == js);
    // evaluation of the postfix text
    let ev = Seq::<Value>::empty();
    assert(js.len() == 5 && js[0] == a && js[1] == ' ' && js[2] == b && js[3] == ' ' && js[4]
        == c);
    assert(spec_evaluate(js) == eval_scan(js, 0, e, ev));
    assert(!crate::eval::is_space(a));
    assert(!crate::eval::is_space(b));
    assert(!crate::eval::is_space(c));
    assert(crate::eval::is_space(' '));
    assert(eval_scan(js, 0, e, ev) == eval_scan(js, 1, e.push(a), ev));
    lemma_step_digit(a, ev);
    assert(spec_flush(ta, ev) == Ok::<Seq<Value>, CalcError>(ev.push(va)));
    assert(eval_scan(js, 1, ta, ev) == eval_scan(js, 2, e, ev.push(va)));
    assert(eval_scan(js, 2, e, ev.push(va)) == eval_scan(js, 3, e.push(b), ev.push(va)));
    lemma_step_digit(b, ev.push(va));
    assert(spec_flush(tb, ev.push(va)) == Ok::<Seq<Value>, CalcError>(ev.push(va).push(vb)));
    assert(eval_scan(js, 3, tb, ev.push(va)) == eval_scan(js, 4, e, ev.push(va).push(vb)));
    assert(eval_scan(js, 4, e, ev.push(va).push(vb)) == eval_scan(
        js,
        5,
        e.push(c),
        ev.push(va).push(vb),
    ));
    assert(e.push(c) =~= tc);
    // the operator pops both digits; the exact result always fits
    let st = ev.push(va).push(vb);
    assert(st.len() == 2 && st[0] == va && st[1] == vb);
    assert(0 <= digit_val(a) <= 9 && 0 <= digit_val(b) <= 9);
    lemma_apply_digit_pair(c, a, b);
    assert(spec_apply(c, va, vb) is Some);
    let v = spec_apply(c, va, vb)->Some_0;
    assert(spec_step(tc, st) == Ok::<Seq<Value>, CalcError>(st.drop_last().drop_last().push(v)));
    assert(st.drop_last().drop_last() =~= ev);
    assert(eval_scan(js, 5, tc, st) == spec_finish(ev.push(v)));
    assert(spec_finish(ev.push(v)) == spec_round_value(v));
}

/// A minus sign directly before a digit parses as the negated integer.
pub proof fn lemma_parse_negated_digit(d: char)
    requires
        is_digit(d),
    ensures
        spec_parse(seq!['-', d]) == Ok::<Rat, CalcError>(
            Rat { num: (-digit_val(d)) as i128, den: 1 },
        ),
{
    let t = seq!['-', d];
    assert(t.len() == 2 && t[0] == '-' && t[1] == d);
    assert(valid_scan(t, 1, false, false) == valid_scan(t, 2, false, true));
    assert(valid_scan(t, 2, false, true));
    assert(is_number_token(t));
    assert(0 <= digit_val(d) <= 9);
    assert(num_scan(t, 1, 0, 1, false) == num_scan(t, 2, digit_val(d), 1, false));
    assert(num_scan(t, 2, digit_val(d), 1, false) == Some((digit_val(d), 1int)));
}

/// A minus sign opening the expression belongs to the first literal: the
/// expression `- a c b` calculates with the negated first digit as the left
/// operand.
pub proof fn lemma_unary_minus_leading(a: char, c: char, b: char)
    requires
        is_digit(a),
        is_digit(b),
        is_operator(c),
    ensures
        spec_apply(
            c,
            Value::Finite(Rat { num: (-digit_val(a)) as i128, den: 1 }),
            Value::Finite(Rat { num: digit_val(b) as i128, den: 1 }),
        ) is Some,
        spec_calculate(seq!['-', a, c, b]) == spec_round_value(
            spec_apply(
                c,
                Value::Finite(Rat { num: (-digit_val(a)) as i128, den: 1 }),
                Value::Finite(Rat { num: digit_val(b) as i128, den: 1 }),
            )->Some_0,
        ),
{
    let s = seq!['-', a, c, b];
    let e = Seq::<char>::empty();
    let et = Seq::<Seq<char>>::empty();
    let tm = seq!['-', a];
    let tb = seq![b];
    let tc = seq![c];
    let vm = Value::Finite(Rat { num: (-digit_val(a)) as i128, den: 1 });
    let vb = Value::Finite(Rat { num: digit_val(b) as i128, den: 1 });
    assert(0 <= digit_val(a) <= 9);
    lemma_apply_small_left(c, vm, b);
    let v = spec_apply(c, vm, vb)->Some_0;
    assert(s.len() == 4 && s[0] == '-' && s[1] == a && s[2] == c && s[3] == b);
    assert(!has_pfx_marker(s));
    // conversion: the leading minus is buffered into the literal
    assert(buffers_char('-', true) && buffers_char(a, false) && buffers_char(b, true));
    assert(!buffers_char(c, false));
    assert(convert_tokens(s) == sy_scan(s, 0, e, e, et, true));
    assert(sy_scan(s, 0, e, e, et, true) == sy_scan(s, 1, e.push('-'), e, et, false));
    assert(sy_scan(s, 1, e.push('-'), e, et, false) == sy_scan(
        s,
        2,
        e.push('-').push(a),
        e,
        et,
        false,
    ));
    assert(e.push('-').push(a) =~= tm);
    assert(flush_buf(tm, et) == et.push(tm));
    assert(pop_ge(e, precedence(c), et.push(tm)) == (e, et.push(tm)));
    assert(sy_scan(s, 2, tm, e, et, false) == sy_scan(s, 3, e, e.push(c), et.push(tm), true));
    assert(sy_scan(s, 3, e, e.push(c), et.push(tm), true) == sy_scan(
        s,
        4,
        e.push(b),
        e.push(c),
        et.push(tm),
        false,
    ));
    assert(e.push(b) =~= tb);
    assert(sy_scan(s, 4, tb, e.push(c), et.push(tm), false) == drain_ops(
        e.push(c),
        flush_buf(tb, et.push(tm)),
    ));
    assert(flush_buf(tb, et.push(tm)) == et.push(tm).push(tb));
    assert(e.push(c).last() == c && e.push(c).drop_last() =~= e);
    assert(seq![e.push(c).last()] =~= tc);
    assert(drain_ops(e.push(c), et.push(tm).push(tb)) == drain_ops(
        e,
        et.push(tm).push(tb).push(tc),
    ));
    assert(drain_ops(e, et.push(tm).push(tb).push(tc)) == et.push(tm).push(tb).push(tc));
    let toks = et.push(tm).push(tb).push(tc);
    assert(convert_tokens(s) == toks);
    // joining with spaces
    lemma_join_push(et, tm);
    lemma_join_push(et.push(tm), tb);
    lemma_join_push(et.push(tm).push(tb), tc);
    let js = seq!['-', a, ' ', b, ' ', c];
    assert(join_sp(toks) =~= js);
    assert(spec_convert(s) == js);
    // evaluation of the postfix text
    let ev = Seq::<Value>::empty();
    assert(js.len() == 6 && js[0] == '-' && js[1] == a && js[2] == ' ' && js[3] == b && js[4]
        == ' ' && js[5] == c);
    assert(!crate::eval::is_space('-') && !crate::eval::is_space(a) && !crate::eval::is_space(b));
    assert(!crate::eval::is_space(c));
    assert(crate::eval::is_space(' '));
    assert(spec_evaluate(js) == eval_scan(js, 0, e, ev));
    assert(eval_scan(js, 0, e, ev) == eval_scan(js, 1, e.push('-'), ev));
    assert(eval_scan(js, 1, e.push('-'), ev) == eval_scan(js, 2, e.push('-').push(a), ev));
    assert(e.push('-').push(a) =~= tm);
    lemma_parse_negated_digit(a);
    assert(!(tm.len() == 1 && is_operator(tm[0])));
    assert(spec_step(tm, ev) == Ok::<Seq<Value>, CalcError>(ev.push(vm)));
    assert(eval_scan(js, 2, tm, ev) == eval_scan(js, 3, e, ev.push(vm)));
    assert(eval_scan(js, 3, e, ev.push(vm)) == eval_scan(js, 4, e.push(b), ev.push(vm)));
    lemma_step_digit(b, ev.push(vm));
    assert(eval_scan(js, 4, tb, ev.push(vm)) == eval_scan(js, 5, e, ev.push(vm).push(vb)));
    assert(eval_scan(js, 5, e, ev.push(vm).push(vb)) == eval_scan(
        js,
        6,
        e.push(c),
        ev.push(vm).push(vb),
    ));
    assert(e.push(c) =~= tc);
    lemma_step_op(c, ev, vm, vb);
    assert(eval_scan(js, 6, tc, ev.push(vm).push(vb)) == spec_finish(ev.push(v)));
    assert(spec_finish(ev.push(v)) == spec_round_value(v));
}

/// The marker `"pfx "` bypasses conversion entirely: whatever follows it is
/// evaluated directly as postfix.
pub proof fn lemma_postfix_bypass(s: Seq<char>)
    ensures
        spec_calculate(seq!['p', 'f', 'x', ' '] + s) == spec_evaluate(s),
{
    let full = seq!['p', 'f', 'x', ' '] + s;
    assert(full.len() == 4 + s.len());
    assert(full[0] == 'p' && full[1] == 'f' && full[2] == 'x' && full[3] == ' ');
    assert(has_pfx_marker(full));
    assert(full.skip(4) =~= s);
}

/// Equal or falling precedence groups left-to-right: in `a c1 b c2 d`,
/// when the first operator binds at least as tightly as the second, the
/// first operation applies first, and its result is the second operation's
/// left operand.
pub proof fn lemma_left_associative(a: char, c1: char, b: char, c2: char, d: char)
    requires
        is_digit(a),
        is_digit(b),
        is_digit(d),
        is_operator(c1),
        is_operator(c2),
        precedence(c1) >= precedence(c2),
    ensures
        spec_apply(
            c1,
            Value::Finite(Rat { num: digit_val(a) as i128, den: 1 }),
            Value::Finite(Rat { num: digit_val(b) as i128, den: 1 }),
        ) is Some,
        spec_apply(
            c2,
            spec_apply(
                c1,
                Value::Finite(Rat { num: digit_val(a) as i128, den: 1 }),
                Value::Finite(Rat { num: digit_val(b) as i128, den: 1 }),
            )->Some_0,
            Value::Finite(Rat { num: digit_val(d) as i128, den: 1 }),
        ) is Some,
        spec_calculate(seq![a, c1, b, c2, d]) == spec_round_value(
            spec_apply(
                c2,
                spec_apply(
                    c1,
                    Value::Finite(Rat { num: digit_val(a) as i128, den: 1 }),
                    Value::Finite(Rat { num: digit_val(b) as i128, den: 1 }),
                )->Some_0,
                Value::Finite(Rat { num: digit_val(d) as i128, den: 1 }),
            )->Some_0,
        ),
{
    let s = seq![a, c1, b, c2, d];
    let e = Seq::<char>::empty();
    let et = Seq::<Seq<char>>::empty();
    let ta = seq![a];
    let tb = seq![b];
    let td = seq![d];
    let t1 = seq![c1];
    let t2 = seq![c2];
    let va = Value::Finite(Rat { num: digit_val(a) as i128, den: 1 });
    let vb = Value::Finite(Rat { num: digit_val(b) as i128, den: 1 });
    let vd = Value::Finite(Rat { num: digit_val(d) as i128, den: 1 });
    lemma_apply_digit_pair(c1, a, b);
    let v1 = spec_apply(c1, va, vb)->Some_0;
    assert(v1.wf());
    lemma_apply_small_left(c2, v1, d);
    let v2 = spec_apply(c2, v1, vd)->Some_0;
    assert(s.len() == 5 && s[0] == a && s[1] == c1 && s[2] == b && s[3] == c2 && s[4] == d);
    assert(!has_pfx_marker(s));
    // conversion: the second operator pops the first before it is pushed
    assert(buffers_char(a, true) && buffers_char(b, true) && buffers_char(d, true));
    assert(!buffers_char(c1, false) && !buffers_char(c2, false));
    assert(convert_tokens(s) == sy_scan(s, 0, e, e, et, true));
    assert(sy_scan(s, 0, e, e, et, true) == sy_scan(s, 1, e.push(a), e, et, false));
    assert(e.push(a) =~= ta);
    assert(flush_buf(ta, et) == et.push(ta));
    assert(pop_ge(e, precedence(c1), et.push(ta)) == (e, et.push(ta)));
    assert(sy_scan(s, 1, ta, e, et, false) == sy_scan(s, 2, e, e.push(c1), et.push(ta), true));
    assert(sy_scan(s, 2, e, e.push(c1), et.push(ta), true) == sy_scan(
        s,
        3,
        e.push(b),
        e.push(c1),
        et.push(ta),
        false,
    ));
    assert(e.push(b) =~= tb);
    let out2 = et.push(ta).push(tb);
    assert(flush_buf(tb, et.push(ta)) == out2);
    assert(e.push(c1).last() == c1 && e.push(c1).drop_last() =~= e);
    assert(seq![e.push(c1).last()] =~= t1);
    assert(pop_ge(e.push(c1), precedence(c2), out2) == pop_ge(e, precedence(c2), out2.push(t1)));
    assert(pop_ge(e, precedence(c2), out2.push(t1)) == (e, out2.push(t1)));
    assert(sy_scan(s, 3, tb, e.push(c1), et.push(ta), false) == sy_scan(
        s,
        4,
        e,
        e.push(c2),
        out2.push(t1),
        true,
    ));
    assert(sy_scan(s, 4, e, e.push(c2), out2.push(t1), true) == sy_scan(
        s,
        5,
        e.push(d),
        e.push(c2),
        out2.push(t1),
        false,
    ));
    assert(e.push(d) =~= td);
    let out4 = out2.push(t1).push(td);
    assert(sy_scan(s, 5, td, e.push(c2), out2.push(t1), false) == drain_ops(
        e.push(c2),
        flush_buf(td, out2.push(t1)),
    ));
    assert(flush_buf(td, out2.push(t1)) == out4);
    assert(e.push(c2).last() == c2 && e.push(c2).drop_last() =~= e);
    assert(seq![e.push(c2).last()] =~= t2);
    assert(drain_ops(e.push(c2), out4) == drain_ops(e, out4.push(t2)));
    assert(drain_ops(e, out4.push(t2)) == out4.push(t2));
    let toks = out4.push(t2);
    assert(convert_tokens(s) == toks);
    // joining with spaces
    lemma_join_push(et, ta);
    lemma_join_push(et.push(ta), tb);
    lemma_join_push(out2, t1);
    lemma_join_push(out2.push(t1), td);
    lemma_join_push(out4, t2);
    let js = seq![a, ' ', b, ' ', c1, ' ', d, ' ', c2];
    assert(join_sp(toks) =~= js);
    assert(spec_convert(s) == js);
    // evaluation of the postfix text
    let ev = Seq::<Value>::empty();
    assert(js.len() == 9 && js[0] == a && js[1] == ' ' && js[2] == b && js[3] == ' ' && js[4]
        == c1 && js[5] == ' ' && js[6] == d && js[7] == ' ' && js[8] == c2);
    assert(!crate::eval::is_space(a) && !crate::eval::is_space(b) && !crate::eval::is_space(d));
    assert(!crate::eval::is_space(c1) && !crate::eval::is_space(c2));
    assert(crate::eval::is_space(' '));
    assert(spec_evaluate(js) == eval_scan(js, 0, e, ev));
    assert(eval_scan(js, 0, e, ev) == eval_scan(js, 1, ta, ev));
    lemma_step_digit(a, ev);
    assert(eval_scan(js, 1, ta, ev) == eval_scan(js, 2, e, ev.push(va)));
    assert(eval_scan(js, 2, e, ev.push(va)) == eval_scan(js, 3, tb, ev.push(va)));
    lemma_step_digit(b, ev.push(va));
    assert(eval_scan(js, 3, tb, ev.push(va)) == eval_scan(js, 4, e, ev.push(va).push(vb)));
    assert(eval_scan(js, 4, e, ev.push(va).push(vb)) == eval_scan(
        js,
        5,
        t1,
        ev.push(va).push(vb),
    ));
    lemma_step_op(c1, ev, va, vb);
    assert(eval_scan(js, 5, t1, ev.push(va).push(vb)) == eval_scan(js, 6, e, ev.push(v1)));
    assert(eval_scan(js, 6, e, ev.push(v1)) == eval_scan(js, 7, td, ev.push(v1)));
    lemma_step_digit(d, ev.push(v1));
    assert(eval_scan(js, 7, td, ev.push(v1)) == eval_scan(js, 8, e, ev.push(v1).push(vd)));
    assert(eval_scan(js, 8, e, ev.push(v1).push(vd)) == eval_scan(
        js,
        9,
        t2,
        ev.push(v1).push(vd),
    ));
    lemma_step_op(c2, ev, v1, vd);
    assert(eval_scan(js, 9, t2, ev.push(v1).push(vd)) == spec_finish(ev.push(v2)));
    assert(spec_finish(ev.push(v2)) == spec_round_value(v2));
}

/// Rising precedence binds first: in `a c1 b c2 d`, when the second
/// operator binds tighter than the first, the second operation applies
/// first, and its result is the first operation's right operand.
pub proof fn lemma_tighter_binds_first(a: char, c1: char, b: char, c2: char, d: char)
    requires
        is_digit(a),
        is_digit(b),
        is_digit(d),
        is_operator(c1),
        is_operator(c2),
        precedence(c2) > precedence(c1),
    ensures
        spec_apply(
            c2,
            Value::Finite(Rat { num: digit_val(b) as i128, den: 1 }),
            Value::Finite(Rat { num: digit_val(d) as i128, den: 1 }),
        ) is Some,
        spec_apply(
            c1,
            Value::Finite(Rat { num: digit_val(a) as i128, den: 1 }),
            spec_apply(
                c2,
                Value::Finite(Rat { num: digit_val(b) as i128, den: 1 }),
                Value::Finite(Rat { num: digit_val(d) as i128, den: 1 }),
            )->Some_0,
        ) is Some,
        spec_calculate(seq![a, c1, b, c2, d]) == spec_round_value(
            spec_apply(
                c1,
                Value::Finite(Rat { num: digit_val(a) as i128, den: 1 }),
                spec_apply(
                    c2,
                    Value::Finite(Rat { num: digit_val(b) as i128, den: 1 }),
                    Value::Finite(Rat { num: digit_val(d) as i128, den: 1 }),
                )->Some_0,
            )->Some_0,
        ),
{
    let s = seq![a, c1, b, c2, d];
    let e = Seq::<char>::empty();
    let et = Seq::<Seq<char>>::empty();
    let ta = seq![a];
    let tb = seq![b];
    let td = seq![d];
    let t1 = seq![c1];
    let t2 = seq![c2];
    let va = Value::Finite(Rat { num: digit_val(a) as i128, den: 1 });
    let vb = Value::Finite(Rat { num: digit_val(b) as i128, den: 1 });
    let vd = Value::Finite(Rat { num: digit_val(d) as i128, den: 1 });
    lemma_apply_digit_pair(c2, b, d);
    let v2 = spec_apply(c2, vb, vd)->Some_0;
    assert(v2.wf());
    lemma_apply_small_right(c1, a, v2);
    let v1 = spec_apply(c1, va, v2)->Some_0;
    assert(s.len() == 5 && s[0] == a && s[1] == c1 && s[2] == b && s[3] == c2 && s[4] == d);
    assert(!has_pfx_marker(s));
    // conversion: the second operator stacks above the first
    assert(buffers_char(a, true) && buffers_char(b, true) && buffers_char(d, true));
    assert(!buffers_char(c1, false) && !buffers_char(c2, false));
    assert(convert_tokens(s) == sy_scan(s, 0, e, e, et, true));
    assert(sy_scan(s, 0, e, e, et, true) == sy_scan(s, 1, e.push(a), e, et, false));
    assert(e.push(a) =~= ta);
    assert(flush_buf(ta, et) == et.push(ta));
    assert(pop_ge(e, precedence(c1), et.push(ta)) == (e, et.push(ta)));
    assert(sy_scan(s, 1, ta, e, et, false) == sy_scan(s, 2, e, e.push(c1), et.push(ta), true));
    assert(sy_scan(s, 2, e, e.push(c1), et.push(ta), true) == sy_scan(
        s,
        3,
        e.push(b),
        e.push(c1),
        et.push(ta),
        false,
    ));
    assert(e.push(b) =~= tb);
    let out2 = et.push(ta).push(tb);
    assert(flush_buf(tb, et.push(ta)) == out2);
    assert(e.push(c1).last() == c1);
    assert(pop_ge(e.push(c1), precedence(c2), out2) == (e.push(c1), out2));
    assert(sy_scan(s, 3, tb, e.push(c1), et.push(ta), false) == sy_scan(
        s,
        4,
        e,
        e.push(c1).push(c2),
        out2,
        true,
    ));
    assert(sy_scan(s, 4, e, e.push(c1).push(c2), out2, true) == sy_scan(
        s,
        5,
        e.push(d),
        e.push(c1).push(c2),
        out2,
        false,
    ));
    assert(e.push(d) =~= td);
    let out4 = out2.push(td);
    assert(sy_scan(s, 5, td, e.push(c1).push(c2), out2, false) == drain_ops(
        e.push(c1).push(c2),
        flush_buf(td, out2),
    ));
    assert(flush_buf(td, out2) == out4);
    assert(e.push(c1).push(c2).last() == c2 && e.push(c1).push(c2).drop_last() =~= e.push(c1));
    assert(seq![e.push(c1).push(c2).last()] =~= t2);
    assert(drain_ops(e.push(c1).push(c2), out4) == drain_ops(e.push(c1), out4.push(t2)));
    assert(e.push(c1).last() == c1 && e.push(c1).drop_last() =~= e);
    assert(seq![e.push(c1).last()] =~= t1);
    assert(drain_ops(e.push(c1), out4.push(t2)) == drain_ops(e, out4.push(t2).push(t1)));
    assert(drain_ops(e, out4.push(t2).push(t1)) == out4.push(t2).push(t1));
    let toks = out4.push(t2).push(t1);
    assert(convert_tokens(s) == toks);
    // joining with spaces
    lemma_join_push(et, ta);
    lemma_join_push(et.push(ta), tb);
    lemma_join_push(out2, td);
    lemma_join_push(out4, t2);
    lemma_join_push(out4.push(t2), t1);
    let js = seq![a, ' ', b, ' ', d, ' ', c2, ' ', c1];
    assert(join_sp(toks) =~= js);
    assert(spec_convert(s) == js);
    // evaluation of the postfix text
    let ev = Seq::<Value>::empty();
    assert(js.len() == 9 && js[0] == a && js[1] == ' ' && js[2] == b && js[3] == ' ' && js[4]
        == d && js[5] == ' ' && js[6] == c2 && js[7] == ' ' && js[8] == c1);
    assert(!crate::eval::is_space(a) && !crate::eval::is_space(b) && !crate::eval::is_space(d));
    assert(!crate::eval::is_space(c1) && !crate::eval::is_space(c2));
    assert(crate::eval::is_space(' '));
    assert(spec_evaluate(js) == eval_scan(js, 0, e, ev));
    assert(eval_scan(js, 0, e, ev) == eval_scan(js, 1, ta, ev));
    lemma_step_digit(a, ev);
    assert(eval_scan(js, 1, ta, ev) == eval_scan(js, 2, e, ev.push(va)));
    assert(eval_scan(js, 2, e, ev.push(va)) == eval_scan(js, 3, tb, ev.push(va)));
    lemma_step_digit(b, ev.push(va));
    assert(eval_scan(js, 3, tb, ev.push(va)) == eval_scan(js, 4, e, ev.push(va).push(vb)));
    assert(eval_scan(js, 4, e, ev.push(va).push(vb)) == eval_scan(
        js,
        5,
        td,
        ev.push(va).push(vb),
    ));
    lemma_step_digit(d, ev.push(va).push(vb));
    assert(eval_scan(js, 5, td, ev.push(va).push(vb)) == eval_scan(
        js,
        6,
        e,
        ev.push(va).push(vb).push(vd),
    ));
    assert(eval_scan(js, 6, e, ev.push(va).push(vb).push(vd)) == eval_scan(
        js,
        7,
        t2,
        ev.push(va).push(vb).push(vd),
    ));
    lemma_step_op(c2, ev.push(va), vb, vd);
    assert(eval_scan(js, 7, t2, ev.push(va).push(vb).push(vd)) == eval_scan(
        js,
        8,
        e,
        ev.push(va).push(v2),
    ));
    assert(eval_scan(js, 8, e, ev.push(va).push(v2)) == eval_scan(
        js,
        9,
        t1,
        ev.push(va).push(v2),
    ));
    lemma_step_op(c1, ev, va, v2);
    assert(eval_scan(js, 9, t1, ev.push(va).push(v2)) == spec_finish(ev.push(v1)));
    assert(spec_finish(ev.push(v1)) == spec_round_value(v1));
}

/// The final rounding is round-half-away-from-zero at ten decimal places:
/// the rounded magnitude, as a multiple of the denominator, lies within half
/// a denominator of the exact scaled magnitude, and an exact half rounds up
/// (away from zero).
pub proof fn lemma_round_half_away_from_zero(x: Rat)
    requires
        x.wf(),
    ensures
        2 * (abs_of(spec_round_scaled(x)) * x.den - abs_of(x.num as int) * (TEN_POW10 as int))
            <= x.den,
        2 * (abs_of(x.num as int) * (TEN_POW10 as int) - abs_of(spec_round_scaled(x)) * x.den)
            < x.den,
{
    let m = abs_of(x.num as int) * (TEN_POW10 as int);
    let d = x.den as int;
    assert(abs_of(x.num as int) >= 0);
    assert(m >= 0) by (nonlinear_arith)
        requires
            m == abs_of(x.num as int) * (TEN_POW10 as int),
            abs_of(x.num as int) >= 0,
    ;
    lemma_fundamental_div_mod(m, d);
    lemma_mod_bound(m, d);
    let q = m / d;
    let r = m % d;
    assert(q >= 0) by (nonlinear_arith)
        requires
            d > 0,
            m == d * q + r,
            0 <= r < d,
            m >= 0,
    ;
    let q2: int = if 2 * r >= d {
        q + 1
    } else {
        q
    };
    assert(spec_round_scaled(x) == if x.num >= 0 {
        q2
    } else {
        -q2
    });
    assert(abs_of(spec_round_scaled(x)) == q2);
    assert((q + 1) * d == q * d + d) by (nonlinear_arith);
    assert(q * d == d * q) by (nonlinear_arith);
}

/// The text a result displays as: the rendered value, or the error message.
pub open spec fn spec_display_result(r: Result<Value, CalcError>) -> Seq<char> {
    match r {
        Ok(v) => display_of(v),
        Err(e) => spec_message(e),
    }
}

/// The calculator's interactive state: the expression text under edit.  The
/// surrounding input surface owns how characters get in; calculating
/// replaces the text with the result (or the error message), as a desk
/// calculator's display would.
pub struct CalculatorApp {
    pub expression: String,
}

impl CalculatorApp {
    /// A calculator with an empty expression.
    pub fn new() -> (r: CalculatorApp)
        ensures
            r.expression@ == Seq::<char>::empty(),
    {
        CalculatorApp { expression: String::new() }
    }

    /// Evaluate the current expression text and replace it with the
    /// rendered result, or with the error message when the text does not
    /// calculate.
    pub fn calculate(&mut self)
        ensures
            final(self).expression@ == spec_display_result(spec_calculate(old(self).expression@)),
    {
        let r = calculate(self.expression.as_str());
        match r {
            Ok(v) => {
                self.expression = render_value(&v);
            },
            Err(e) => {
                self.expression = e.message();
            },
        }
    }
}

} // verus!
