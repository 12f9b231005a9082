use postfix_eval::ast::{Expr, Op};
use postfix_eval::errors::EvalError;
use postfix_eval::eval::Expression;
use postfix_eval::order::{sort_list, OutputLine};
use postfix_eval::pipeline::{build_expression_list, format_output_line, solve_list};

fn value_of(e: &Expr) -> f64 {
    match e {
        Expr::Literal(t) => t.parse::<f64>().unwrap(),
        Expr::Binary(op, l, r) => {
            let a = value_of(l);
            let b = value_of(r);
            match op {
                Op::Plus => a + b,
                Op::Minus => a - b,
                Op::Times => a * b,
                Op::Divide => a / b,
            }
        }
    }
}

fn sort_key(v: f64) -> u64 {
    let bits = v.to_bits();
    if bits & (1u64 << 63) != 0 {
        !bits
    } else {
        bits | (1u64 << 63)
    }
}

#[test]
fn sorting_orders_by_value_ascending() {
    let values = [9.0f64, -1.0f64, 3.0f64];
    let mut lines: Vec<OutputLine> = values
        .iter()
        .map(|v| OutputLine::new(sort_key(*v), format!("{}", v)))
        .collect();
    sort_list(&mut lines);
    let texts: Vec<&str> = lines.iter().map(|l| l.text.as_str()).collect();
    assert_eq!(texts, vec!["-1", "3", "9"]);
}

#[test]
fn sorting_keeps_every_line() {
    let mut lines = vec![
        OutputLine::new(2, String::from("b")),
        OutputLine::new(1, String::from("a")),
        OutputLine::new(2, String::from("c")),
        OutputLine::new(0, String::from("d")),
    ];
    sort_list(&mut lines);
    assert_eq!(lines.len(), 4);
    assert_eq!(lines[0].text, "d");
    assert_eq!(lines[3].key, 2);
    let mut texts: Vec<String> = lines.iter().map(|l| l.text.clone()).collect();
    texts.sort();
    assert_eq!(texts, vec!["a", "b", "c", "d"]);
}

#[test]
fn sorting_handles_empty_and_single() {
    let mut empty: Vec<OutputLine> = Vec::new();
    sort_list(&mut empty);
    assert_eq!(empty.len(), 0);
    let mut one = vec![OutputLine::new(7, String::from("x"))];
    sort_list(&mut one);
    assert_eq!(one[0].text, "x");
}

#[test]
fn build_list_skips_blank_lines() {
    let lines = vec![
        String::from("3 4 +"),
        String::from("   "),
        String::from(""),
        String::from("5 6 *"),
    ];
    let exprs = build_expression_list(&lines).unwrap();
    assert_eq!(exprs.len(), 2);
    assert_eq!(exprs[0].postfix, "3 4 +");
    assert_eq!(exprs[1].postfix, "5 6 *");
}

#[test]
fn invalid_character_aborts_whole_batch() {
    let lines = vec![String::from("1 2 +"), String::from("3 $ 4 +")];
    match build_expression_list(&lines) {
        Ok(_) => panic!("a bad character must abort the batch"),
        Err(e) => assert_eq!(e, EvalError::InvalidCharacter),
    }
}

#[test]
fn solve_list_solves_every_expression() {
    let lines = vec![String::from("3 4 +"), String::from("10 4 -")];
    let mut exprs = build_expression_list(&lines).unwrap();
    assert!(matches!(solve_list(&mut exprs), Ok(())));
    assert_eq!(exprs[0].display_infix(), "3 + 4");
    assert_eq!(exprs[1].display_infix(), "10 - 4");
}

#[test]
fn solve_list_reports_first_error() {
    let lines = vec![String::from("3 4 +"), String::from("3 +")];
    let mut exprs = build_expression_list(&lines).unwrap();
    assert_eq!(solve_list(&mut exprs), Err(EvalError::Malformed));
}

#[test]
fn format_output_line_joins_with_equals() {
    let s = format_output_line("3 + 4", "7");
    assert_eq!(s, "3 + 4 = 7");
}

#[test]
fn whole_batch_in_sorted_order() {
    let raw = vec![
        String::from("3 3 *"),
        String::from("5 6-"),
        String::from("1 2 /"),
    ];
    let mut exprs = build_expression_list(&raw).unwrap();
    assert!(matches!(solve_list(&mut exprs), Ok(())));
    let mut lines: Vec<OutputLine> = Vec::new();
    for e in &exprs {
        let v = value_of(&e.trees[0]);
        let text = format_output_line(&e.display_infix(), &format!("{}", v));
        lines.push(OutputLine::new(sort_key(v), text));
    }
    sort_list(&mut lines);
    let texts: Vec<&str> = lines.iter().map(|l| l.text.as_str()).collect();
    assert_eq!(texts, vec!["5 - 6 = -1", "1 / 2 = 0.5", "3 * 3 = 9"]);
}
