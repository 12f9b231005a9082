use postfix_eval::ast::{Expr, Op};
use postfix_eval::errors::EvalError;
use postfix_eval::eval::{evaluate, Expression};
use postfix_eval::tokenizer::clean_line;

fn value_of(e: &Expr) -> f64 {
    match e {
        Expr::Literal(t) => t.parse::<f64>().unwrap(),
        Expr::Binary(op, l, r) => {
            let a = value_of(l);
            let b = value_of(r);
            match op {
                Op::Plus => a + b,
                Op::Minus => a - b,
                Op::Times => a * b,
                Op::Divide => a / b,
            }
        }
    }
}

fn solved(postfix: &str) -> Expression {
    let mut e = Expression::new(String::from(postfix));
    assert!(matches!(e.solve(), Ok(())));
    e
}

#[test]
fn round_trip_addition() {
    let e = solved("3 4 +");
    assert_eq!(e.trees.len(), 1);
    assert_eq!(e.infix.len(), 1);
    assert_eq!(value_of(&e.trees[0]), 7.0);
    assert_eq!(e.display_infix(), "3 + 4");
    assert_eq!(e.infix[0], "( 3 + 4 )");
}

#[test]
fn textbook_example() {
    let e = solved("5 1 2 + 4 * + 3 -");
    assert_eq!(value_of(&e.trees[0]), 14.0);
    assert_eq!(e.infix[0], "( ( 5 + ( ( 1 + 2 ) * 4 ) ) - 3 )");
    assert_eq!(e.display_infix(), "( 5 + ( ( 1 + 2 ) * 4 ) ) - 3");
}

#[test]
fn division() {
    let e = solved("6 3 /");
    assert_eq!(value_of(&e.trees[0]), 2.0);
    assert_eq!(e.display_infix(), "6 / 3");
}

#[test]
fn subtraction_operand_order() {
    let e = solved("10 4 -");
    assert_eq!(value_of(&e.trees[0]), 6.0);
    assert_eq!(e.display_infix(), "10 - 4");
}

#[test]
fn division_operand_order() {
    let e = solved("10 4 /");
    assert_eq!(value_of(&e.trees[0]), 2.5);
}

#[test]
fn insufficient_operands_is_structural_error() {
    let mut e = Expression::new(String::from("3 +"));
    assert_eq!(e.solve(), Err(EvalError::Malformed));
    assert_eq!(e.trees.len(), 0);
    assert_eq!(e.infix.len(), 0);
}

#[test]
fn leftover_operand_is_structural_error() {
    let mut e = Expression::new(String::from("3 4"));
    assert_eq!(e.solve(), Err(EvalError::Malformed));
    assert_eq!(e.trees.len(), 0);
}

#[test]
fn empty_token_stream_is_structural_error() {
    let mut e = Expression::new(String::new());
    assert_eq!(e.solve(), Err(EvalError::Malformed));
}

#[test]
fn bad_numeric_token_is_parse_error() {
    let mut e = Expression::new(String::from("1.2.3 4 +"));
    assert_eq!(e.solve(), Err(EvalError::ParseNumber));
}

#[test]
fn lone_decimal_point_is_parse_error() {
    let mut e = Expression::new(String::from(". 4 +"));
    assert_eq!(e.solve(), Err(EvalError::ParseNumber));
}

#[test]
fn fractional_literals_evaluate() {
    let e = solved(".5 1.5 +");
    assert_eq!(value_of(&e.trees[0]), 2.0);
    assert_eq!(e.display_infix(), ".5 + 1.5");
}

#[test]
fn single_token_display_is_uncorrupted() {
    let e = solved("42");
    assert_eq!(e.display_infix(), "42");
    assert_eq!(e.infix[0], "42");
    assert_eq!(value_of(&e.trees[0]), 42.0);
}

#[test]
fn evaluate_returns_parenthesized_fragment() {
    let r = evaluate("3 4 +");
    match r {
        Ok((tree, frag)) => {
            assert_eq!(frag, "( 3 + 4 )");
            assert_eq!(value_of(&tree), 7.0);
        }
        Err(_) => panic!("expected a successful evaluation"),
    }
}

#[test]
fn nested_fragments_keep_inner_parentheses() {
    let e = solved("1 2 + 3 4 - *");
    assert_eq!(e.infix[0], "( ( 1 + 2 ) * ( 3 - 4 ) )");
    assert_eq!(e.display_infix(), "( 1 + 2 ) * ( 3 - 4 )");
    assert_eq!(value_of(&e.trees[0]), -3.0);
}

#[test]
fn tokenizer_splits_operators_from_digits() {
    assert_eq!(clean_line("3+4").unwrap(), "3 + 4");
    assert_eq!(clean_line("34+56").unwrap(), "34 + 56");
    assert_eq!(clean_line("3 4+").unwrap(), "3 4 +");
}

#[test]
fn tokenizer_collapses_whitespace() {
    assert_eq!(clean_line("  3 \t  4   +  ").unwrap(), "3 4 +");
    assert_eq!(clean_line("3 4 +").unwrap(), "3 4 +");
}

#[test]
fn tokenizer_keeps_numeric_runs_together() {
    assert_eq!(clean_line("12.5 3").unwrap(), "12.5 3");
    assert_eq!(clean_line("1 . 5").unwrap(), "1 . 5");
}

#[test]
fn tokenizer_blank_line_cleans_to_empty() {
    assert_eq!(clean_line("").unwrap(), "");
    assert_eq!(clean_line(" \t ").unwrap(), "");
}

#[test]
fn tokenizer_rejects_invalid_character() {
    assert_eq!(clean_line("3 $ 4 +"), Err(EvalError::InvalidCharacter));
    assert_eq!(clean_line("3 a 4"), Err(EvalError::InvalidCharacter));
}

#[test]
fn minus_is_never_a_sign() {
    assert_eq!(clean_line("-5").unwrap(), "- 5");
    let mut e = Expression::new(String::from("- 5"));
    assert_eq!(e.solve(), Err(EvalError::Malformed));
}

#[test]
fn error_messages() {
    assert_eq!(
        EvalError::InvalidCharacter.message(),
        "File has invalid characters"
    );
    assert_eq!(EvalError::Malformed.message(), "File is invalid");
    assert_eq!(
        EvalError::ParseNumber.message(),
        "Failed to convert token to a number"
    );
}
