use calculator::CalcError;
use calculator::CalculatorApp;
use calculator::calculate;
use calculator::convert::shunting_yard;
use calculator::eval::evaluate_postfix;
use calculator::value::Rat;
use calculator::value::Value;

const P: i128 = 10_000_000_000;

#[test]
fn precedence_mul_binds_tighter() {
    assert_eq!(calculate("2 + 3 * 4"), Ok(Value::Finite(Rat { num: 14 * P, den: P })));
}

#[test]
fn precedence_add_after_mul() {
    assert_eq!(calculate("2 * 3 + 4"), Ok(Value::Finite(Rat { num: 10 * P, den: P })));
}

#[test]
fn left_associative_division() {
    assert_eq!(calculate("8 / 4 / 2"), Ok(Value::Finite(Rat { num: 1 * P, den: P })));
}

#[test]
fn unary_minus_on_leading_operand() {
    assert_eq!(calculate("-5 + 3"), Ok(Value::Finite(Rat { num: -2 * P, den: P })));
}

#[test]
fn postfix_bypass() {
    assert_eq!(calculate("pfx 3 4 +"), Ok(Value::Finite(Rat { num: 7 * P, den: P })));
}

#[test]
fn division_by_zero_is_positive_infinity() {
    assert_eq!(calculate("1 / 0"), Ok(Value::PosInf));
}

#[test]
fn division_by_zero_negative_dividend() {
    assert_eq!(calculate("-1 / 0"), Ok(Value::NegInf));
}

#[test]
fn zero_over_zero_is_nan() {
    assert_eq!(calculate("pfx 0 0 /"), Ok(Value::NaN));
}

#[test]
fn postfix_stack_underflow() {
    assert_eq!(calculate("pfx 3 +"), Err(CalcError::InvalidExpression));
}

#[test]
fn postfix_two_values_remain() {
    assert_eq!(calculate("pfx 3 4"), Err(CalcError::InvalidExpression));
}

#[test]
fn postfix_invalid_literal() {
    assert_eq!(calculate("pfx 3 x +"), Err(CalcError::InvalidNumber));
}

#[test]
fn rounding_masks_representation_noise() {
    assert_eq!(calculate("0.1 + 0.2"), Ok(Value::Finite(Rat { num: 3_000_000_000, den: P })));
}

#[test]
fn rounding_truncates_a_third_at_ten_places() {
    assert_eq!(calculate("1 / 3"), Ok(Value::Finite(Rat { num: 3_333_333_333, den: P })));
}

#[test]
fn rounding_half_goes_away_from_zero() {
    assert_eq!(calculate("pfx 0.00000000015"), Ok(Value::Finite(Rat { num: 2, den: P })));
    assert_eq!(calculate("pfx -0.00000000015"), Ok(Value::Finite(Rat { num: -2, den: P })));
}

#[test]
fn repeated_calculation_is_identical() {
    let first = calculate("7 - 2 * 3");
    let second = calculate("7 - 2 * 3");
    assert_eq!(first, second);
    assert_eq!(first, Ok(Value::Finite(Rat { num: 1 * P, den: P })));
}

#[test]
fn conversion_orders_by_precedence() {
    assert_eq!(shunting_yard("2 + 3 * 4"), Ok(String::from("2 3 4 * +")));
}

#[test]
fn conversion_keeps_unary_minus_in_literal() {
    assert_eq!(shunting_yard("-5 + 3"), Ok(String::from("-5 3 +")));
}

#[test]
fn conversion_ignores_unrecognized_characters() {
    assert_eq!(calculate("2a + 3b"), Ok(Value::Finite(Rat { num: 5 * P, den: P })));
}

#[test]
fn evaluator_accepts_bare_and_trailing_point() {
    assert_eq!(
        evaluate_postfix("3. .5 +"),
        Ok(Value::Finite(Rat { num: 35_000_000_000, den: P }))
    );
}

#[test]
fn decimals_multiply_exactly() {
    assert_eq!(calculate("1.5 * 2"), Ok(Value::Finite(Rat { num: 3 * P, den: P })));
}

#[test]
fn empty_input_is_invalid() {
    assert_eq!(calculate(""), Err(CalcError::InvalidExpression));
}

#[test]
fn lone_point_is_invalid_number() {
    assert_eq!(calculate("."), Err(CalcError::InvalidNumber));
}

#[test]
fn doubled_minus_underflows() {
    assert_eq!(calculate("--5"), Err(CalcError::InvalidExpression));
}

#[test]
fn double_point_is_invalid_number() {
    assert_eq!(calculate("pfx 1.2.3"), Err(CalcError::InvalidNumber));
}

#[test]
fn oversized_literal_overflows() {
    let wide = "9".repeat(39);
    assert_eq!(calculate(&wide), Err(CalcError::Overflow));
}

#[test]
fn app_replaces_expression_with_result() {
    let mut app = CalculatorApp::new();
    assert_eq!(app.expression, String::new());
    app.expression = String::from("2+3");
    app.calculate();
    assert_eq!(app.expression, String::from("5"));
}

#[test]
fn app_shows_fraction_without_trailing_zeros() {
    let mut app = CalculatorApp { expression: String::from("0.1 + 0.2") };
    app.calculate();
    assert_eq!(app.expression, String::from("0.3"));
}

#[test]
fn app_shows_infinity_text() {
    let mut app = CalculatorApp { expression: String::from("1/0") };
    app.calculate();
    assert_eq!(app.expression, String::from("inf"));
}

#[test]
fn app_shows_nan_text() {
    let mut app = CalculatorApp { expression: String::from("pfx 0 0 /") };
    app.calculate();
    assert_eq!(app.expression, String::from("NaN"));
}

#[test]
fn app_shows_error_message() {
    let mut app = CalculatorApp { expression: String::from("1 +") };
    app.calculate();
    assert_eq!(app.expression, String::from("Invalid expression"));
}

#[test]
fn error_messages_match_display_text() {
    assert_eq!(CalcError::InvalidExpression.message(), String::from("Invalid expression"));
    assert_eq!(CalcError::InvalidNumber.message(), String::from("Invalid number"));
    assert_eq!(CalcError::Overflow.message(), String::from("Overflow"));
}

#[test]
fn negative_fraction_renders_with_sign() {
    let mut app = CalculatorApp { expression: String::from("pfx -2.5") };
    app.calculate();
    assert_eq!(app.expression, String::from("-2.5"));
}

#[test]
fn mixed_expression_with_fractional_result() {
    assert_eq!(
        calculate("2 + 3 * 4 - 6 / 4"),
        Ok(Value::Finite(Rat { num: 125_000_000_000, den: P }))
    );
}

#[test]
fn pfx_marker_strips_once() {
    assert_eq!(calculate("pfx pfx 3 4 +"), Err(CalcError::InvalidNumber));
}

#[test]
fn tabs_separate_postfix_tokens() {
    assert_eq!(calculate("pfx 3\t4 +"), Ok(Value::Finite(Rat { num: 7 * P, den: P })));
}
