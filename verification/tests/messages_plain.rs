//! Failure messages with colour switched off: the offending token is written as it is.

use calculator::calculate::Calculate;
use calculator::calculator::Calculator;
use calculator::error::CalcError;
use calculator::format::{format_error, format_marked};
use calculator::op::Op;
use calculator::parse::tokenize;
use calculator::token::{CalcToken, ComplexToken, Token};

fn parse(text: &str) -> Option<f64> {
    text.parse::<f64>().ok()
}

fn apply(op: Op, a: f64, b: f64) -> f64 {
    match op {
        Op::Add => a + b,
        Op::Sub => a - b,
        Op::Mul => a * b,
        Op::Div => a / b,
        Op::Mod => a % b,
        Op::Pow => a.powf(b),
    }
}

fn render(n: f64) -> String {
    n.to_string()
}

fn texts(items: &[&str]) -> Vec<String> {
    items.iter().map(|s| s.to_string()).collect()
}

fn failure_of(text: &str) -> CalcError<f64> {
    Calculator::new().evaluate(tokenize(text.to_string(), &parse), &apply).unwrap_err()
}

#[test]
fn plain_format_joins_with_single_spaces() {
    colored::control::set_override(false);
    assert_eq!(format_error(&texts(&["1", "+", "2"]), 1, "Oops:"), "Oops:\n1 + 2");
    assert_eq!(format_error(&texts(&["1"]), 0, "Oops:"), "Oops:\n1");
    assert_eq!(format_error(&texts(&[]), 0, "Oops:"), "Oops:\n");
    assert_eq!(format_error(&texts(&["a", "b"]), 7, ""), "\na b");
}

#[test]
fn plain_format_marked_ignores_marks() {
    colored::control::set_override(false);
    assert_eq!(
        format_marked(&texts(&["a", "b", "c"]), &vec![true, false, true], "m"),
        "m\na b c"
    );
    assert_eq!(format_marked(&texts(&["a", "b", "c"]), &vec![], "m"), "m\na b c");
}

#[test]
fn plain_message_unknown_variable() {
    colored::control::set_override(false);
    assert_eq!(failure_of("1 + speed").message(&render), "Variable speed not found");
    assert_eq!(failure_of("(1)").message(&render), "Variable  not found");
}

#[test]
fn plain_message_empty_expression() {
    colored::control::set_override(false);
    let mut nothing: Vec<CalcToken<f64>> = Vec::new();
    let failure = nothing.calc(&apply).unwrap_err();
    assert_eq!(failure, CalcError::EmptyExpression);
    assert_eq!(failure.message(&render), "Empty expression");
    let mut no_groups: Vec<ComplexToken<f64>> = Vec::new();
    assert_eq!(no_groups.calc(&apply), Err(CalcError::EmptyExpression));
    let mut empty_group = vec![ComplexToken::LParen, ComplexToken::<f64>::RParen];
    assert_eq!(empty_group.calc(&apply), Err(CalcError::EmptyExpression));
}

#[test]
fn plain_message_dangling_operator() {
    colored::control::set_override(false);
    assert_eq!(failure_of("+5").message(&render), "Operator without matching numbers:\n+ 5");
    let mut in_the_middle = vec![
        CalcToken::Num(2.0),
        CalcToken::Op(Op::Mul),
        CalcToken::Num(3.0),
        CalcToken::Op(Op::Add),
        CalcToken::Num(4.0),
        CalcToken::Op(Op::Mul),
    ];
    assert_eq!(in_the_middle.calc(&apply), Err(CalcError::DanglingOperator {
        pos: 3,
        tokens: vec![
            CalcToken::Num(6.0),
            CalcToken::Op(Op::Add),
            CalcToken::Num(4.0),
            CalcToken::Op(Op::Mul),
        ],
    }));
    let mut at_end = vec![
        CalcToken::Num(2.0),
        CalcToken::Op(Op::Mul),
        CalcToken::Num(3.0),
        CalcToken::Op(Op::Add),
    ];
    let failure = at_end.calc(&apply).unwrap_err();
    assert_eq!(failure, CalcError::DanglingOperator {
        pos: 1,
        tokens: vec![CalcToken::Num(6.0), CalcToken::Op(Op::Add)],
    });
    assert_eq!(failure.message(&render), "Operator without matching numbers:\n6 +");
    assert_eq!(at_end, vec![CalcToken::Num(6.0), CalcToken::Op(Op::Add)]);
}

#[test]
fn plain_message_invalid_operand_after() {
    colored::control::set_override(false);
    let failure = failure_of("1*/2");
    assert_eq!(failure, CalcError::InvalidOperand {
        pos: 2,
        operator: 1,
        tokens: vec![
            CalcToken::Num(1.0),
            CalcToken::Op(Op::Mul),
            CalcToken::Op(Op::Div),
            CalcToken::Num(2.0),
        ],
    });
    assert_eq!(failure.message(&render), "Invalid token after operator:\n1 * / 2");
}

#[test]
fn plain_message_invalid_operand_before() {
    colored::control::set_override(false);
    let failure = failure_of("1 + * 2");
    assert_eq!(failure, CalcError::InvalidOperand {
        pos: 1,
        operator: 2,
        tokens: vec![
            CalcToken::Num(1.0),
            CalcToken::Op(Op::Add),
            CalcToken::Op(Op::Mul),
            CalcToken::Num(2.0),
        ],
    });
    assert_eq!(failure.message(&render), "Invalid token before operator:\n1 + * 2");
}

#[test]
fn plain_message_unresolved_expression() {
    colored::control::set_override(false);
    let failure = failure_of("1 2");
    assert_eq!(failure, CalcError::UnresolvedExpression {
        tokens: vec![CalcToken::Num(1.0), CalcToken::Num(2.0)],
    });
    assert_eq!(failure.message(&render), "No corresponding operators:\n1 2");
    let failure = failure_of("1 2 + 3.5");
    assert_eq!(failure, CalcError::UnresolvedExpression {
        tokens: vec![CalcToken::Num(1.0), CalcToken::Num(5.5)],
    });
}

#[test]
fn plain_message_parentheses() {
    colored::control::set_override(false);
    assert_eq!(failure_of("2*(1+2").message(&render), "Token not allowed here:\n2 * ( 1 + 2");
    assert_eq!(failure_of("(1+2))*3").message(&render), "No matching left paren:\n3");
    assert_eq!(failure_of("4 ) 5").message(&render), "No matching left paren:\n4");
}

#[test]
fn plain_message_invalid_assignment() {
    colored::control::set_override(false);
    let mut calculator: Calculator<f64> = Calculator::new();
    let failure = calculator.pass(tokenize("2 x = 1".to_string(), &parse), &apply).unwrap_err();
    assert_eq!(failure, CalcError::InvalidAssignmentTarget {
        tokens: vec![
            Token::Complex(ComplexToken::Calc(CalcToken::Num(2.0))),
            Token::Var("x".to_string()),
        ],
    });
    assert_eq!(failure.message(&render), "Invalid assignment:\n2 x");
}
