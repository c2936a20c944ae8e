//! End-to-end evaluation tests: compile an expression and run its program
//! over IEEE doubles, the way an embedding does.

use calculator::compile::compile;
use calculator::program::Instr;
use calculator::token::CalcError;

/// Runs a compiled program on a floating-point stack.  Instructions are
/// executed in order; a division whose right operand is exactly zero stops
/// the run at once, before any structural error is reported, because the
/// instructions are the operations an inline evaluator had already
/// performed when the structural problem appeared.
fn run(expression: &str) -> Result<f64, CalcError> {
    let out = compile(expression);
    let mut stack: Vec<f64> = Vec::new();
    for ins in &out.instrs {
        match ins {
            Instr::Push(lit) => {
                let text: String = lit.iter().collect();
                match text.parse::<f64>() {
                    Ok(v) => stack.push(v),
                    Err(_) => return Err(CalcError::InvalidNumber(lit.clone())),
                }
            }
            Instr::Neg => {
                let v = stack.pop().expect("well-formed program");
                stack.push(-v);
            }
            Instr::Add => {
                let b = stack.pop().expect("well-formed program");
                let a = stack.pop().expect("well-formed program");
                stack.push(a + b);
            }
            Instr::Sub => {
                let b = stack.pop().expect("well-formed program");
                let a = stack.pop().expect("well-formed program");
                stack.push(a - b);
            }
            Instr::Mul => {
                let b = stack.pop().expect("well-formed program");
                let a = stack.pop().expect("well-formed program");
                stack.push(a * b);
            }
            Instr::Div => {
                let b = stack.pop().expect("well-formed program");
                let a = stack.pop().expect("well-formed program");
                if b == 0.0 {
                    return Err(CalcError::DivisionByZero);
                }
                stack.push(a / b);
            }
        }
    }
    match out.err {
        Some(e) => Err(e),
        None => Ok(stack.pop().expect("well-formed program")),
    }
}

#[test]
fn single_number() {
    assert_eq!(run("42"), Ok(42.0));
    assert_eq!(run("3.5"), Ok(3.5));
    assert_eq!(run(".5"), Ok(0.5));
    assert_eq!(run("5."), Ok(5.0));
}

#[test]
fn four_operators() {
    assert_eq!(run("1+2"), Ok(3.0));
    assert_eq!(run("7-4"), Ok(3.0));
    assert_eq!(run("6*7"), Ok(42.0));
    assert_eq!(run("9/2"), Ok(4.5));
}

#[test]
fn left_to_right_with_precedence() {
    assert_eq!(run("1+2*3-4/2"), Ok(5.0));
    assert_eq!(run("2*3+4*5"), Ok(26.0));
    assert_eq!(run("10-4+2"), Ok(8.0));
}

#[test]
fn subtraction_is_left_associative() {
    assert_eq!(run("10-2-3"), Ok(5.0));
}

#[test]
fn division_is_left_associative() {
    assert_eq!(run("100/5/2"), Ok(10.0));
}

#[test]
fn multiplication_binds_tighter() {
    assert_eq!(run("2+3*4"), Ok(14.0));
}

#[test]
fn parentheses_override_precedence() {
    assert_eq!(run("(2+3)*4"), Ok(20.0));
}

#[test]
fn unary_minus_chains() {
    assert_eq!(run("--5"), Ok(5.0));
    assert_eq!(run("---5"), Ok(-5.0));
}

#[test]
fn unary_minus_over_parentheses() {
    assert_eq!(run("-(2+3)"), Ok(-5.0));
}

#[test]
fn unary_plus_is_a_no_op() {
    assert_eq!(run("+-3"), Ok(-3.0));
    assert_eq!(run("+5"), Ok(5.0));
}

#[test]
fn spaces_do_not_change_the_result() {
    assert_eq!(run("1 + 2"), run("1+2"));
    assert_eq!(run(" ( 2 + 3 ) * 4 "), run("(2+3)*4"));
    let spaced = compile("1 + 2");
    let plain = compile("1+2");
    assert_eq!(spaced.instrs, plain.instrs);
    assert_eq!(spaced.err, plain.err);
}

#[test]
fn spaces_inside_a_number_join_its_digits() {
    // only spaces are stripped, and they are stripped before lexing
    assert_eq!(run("2 2"), Ok(22.0));
    assert_eq!(run("1 . 5"), Ok(1.5));
}

#[test]
fn division_by_zero_fails() {
    assert_eq!(run("5/0"), Err(CalcError::DivisionByZero));
    assert_eq!(run("1/(2-2)"), Err(CalcError::DivisionByZero));
    assert_eq!(run("5/-0"), Err(CalcError::DivisionByZero));
}

#[test]
fn zero_divided_succeeds() {
    assert_eq!(run("0/5"), Ok(0.0));
}

#[test]
fn division_by_zero_strikes_before_a_later_structural_error() {
    // an inline evaluator performs the division before it sees the bad tail
    assert_eq!(run("1/0+*"), Err(CalcError::DivisionByZero));
    assert_eq!(run("1/0)"), Err(CalcError::DivisionByZero));
}

#[test]
fn structural_error_inside_the_divisor_strikes_first() {
    // the divisor is still being parsed when the parenthesis is missed
    assert_eq!(run("1/(0"), Err(CalcError::MissingClosingParen));
}

#[test]
fn empty_input_is_rejected() {
    assert_eq!(run(""), Err(CalcError::EmptyExpression));
    assert_eq!(run("   "), Err(CalcError::EmptyExpression));
}

#[test]
fn unclosed_parenthesis_is_rejected() {
    assert_eq!(run("(1+2"), Err(CalcError::MissingClosingParen));
    assert_eq!(run("((1)"), Err(CalcError::MissingClosingParen));
}

#[test]
fn lone_open_parenthesis_runs_out_of_tokens() {
    // the factor inside the parentheses is missing, so the tokens run out
    // before the closing parenthesis is ever looked for
    assert_eq!(run("("), Err(CalcError::UnexpectedEndOfExpression));
}

#[test]
fn empty_parentheses_hold_no_factor() {
    assert_eq!(run("()"), Err(CalcError::UnexpectedToken));
}

#[test]
fn trailing_tokens_are_rejected() {
    assert_eq!(run("1+2)"), Err(CalcError::TrailingTokens));
    assert_eq!(run("(2)3"), Err(CalcError::TrailingTokens));
}

#[test]
fn double_decimal_point_is_rejected() {
    assert_eq!(
        run("1..2"),
        Err(CalcError::InvalidNumber(vec!['1', '.', '.', '2']))
    );
    assert_eq!(
        run("1.2.3"),
        Err(CalcError::InvalidNumber(vec!['1', '.', '2', '.', '3']))
    );
    assert_eq!(run("."), Err(CalcError::InvalidNumber(vec!['.'])));
}

#[test]
fn stray_character_is_rejected() {
    assert_eq!(run("1+@2"), Err(CalcError::UnexpectedCharacter('@')));
    assert_eq!(run("a"), Err(CalcError::UnexpectedCharacter('a')));
    assert_eq!(run("1\t+2"), Err(CalcError::UnexpectedCharacter('\t')));
}

#[test]
fn operator_cannot_start_a_factor() {
    assert_eq!(run("*5"), Err(CalcError::UnexpectedToken));
    assert_eq!(run("5+*3"), Err(CalcError::UnexpectedToken));
    assert_eq!(run(")"), Err(CalcError::UnexpectedToken));
}

#[test]
fn dangling_operator_is_rejected() {
    assert_eq!(run("1+"), Err(CalcError::UnexpectedEndOfExpression));
    assert_eq!(run("2*"), Err(CalcError::UnexpectedEndOfExpression));
    assert_eq!(run("-"), Err(CalcError::UnexpectedEndOfExpression));
}

#[test]
fn lexer_error_comes_before_any_evaluation() {
    // the whole input is tokenized before parsing begins
    assert_eq!(run("2/(3-3)+@"), Err(CalcError::UnexpectedCharacter('@')));
}

#[test]
fn evaluating_twice_yields_the_same_outcome() {
    let first = run("(1+2)*3-4/8");
    let second = run("(1+2)*3-4/8");
    assert_eq!(first, second);
    let c1 = compile("7/(1-1)");
    let c2 = compile("7/(1-1)");
    assert_eq!(c1.instrs, c2.instrs);
    assert_eq!(c1.err, c2.err);
}

#[test]
fn formatted_doubles_round_trip() {
    let values = [
        0.0,
        1.0,
        0.1,
        1.0 / 3.0,
        123456.789,
        2.5e-10,
        1e21,
        1e300,
        f64::MAX,
        f64::MIN_POSITIVE,
        -7.25,
        -123.456,
    ];
    for v in values {
        let text = format!("{}", v);
        assert_eq!(run(&text), Ok(v), "round trip of {}", text);
    }
}

#[test]
fn nested_parentheses() {
    assert_eq!(run("((((5))))"), Ok(5.0));
    assert_eq!(run("2*(3+(4-1))"), Ok(12.0));
}
