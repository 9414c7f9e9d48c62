//! Whole lines of input, from text to a number or a failure, with `f64` as the number type.

use calculator::calculate::Calculate;
use calculator::calculator::Calculator;
use calculator::error::CalcError;
use calculator::op::Op;
use calculator::parse::tokenize;
use calculator::token::{CalcToken, ComplexToken, Token, TryInto};

fn parse(text: &str) -> Option<f64> {
    text.parse::<f64>().ok()
}

fn apply(op: Op, a: f64, b: f64) -> f64 {
    match op {
        Op::Add => a + b,
        Op::Sub => a - b,
        Op::Mul => a * b,
        Op::Div => a / b,
        Op::Mod => a % b,
        Op::Pow => a.powf(b),
    }
}

fn num(n: f64) -> Token<f64> {
    Token::Complex(ComplexToken::Calc(CalcToken::Num(n)))
}

fn op(op: Op) -> Token<f64> {
    Token::Complex(ComplexToken::Calc(CalcToken::Op(op)))
}

fn lparen() -> Token<f64> {
    Token::Complex(ComplexToken::LParen)
}

fn rparen() -> Token<f64> {
    Token::Complex(ComplexToken::RParen)
}

fn tokens_of(text: &str) -> Vec<Token<f64>> {
    tokenize(text.to_string(), &parse)
}

fn value_of(text: &str) -> Result<f64, CalcError<f64>> {
    Calculator::new().evaluate(tokens_of(text), &apply)
}

/// The value of the expression tokens of `text`, without the last token where the text
/// ends in a symbol and that token is the nameless variable.
fn value_of_groups(text: &str) -> Result<f64, CalcError<f64>> {
    let mut tokens = tokens_of(text);
    if tokens.last() == Some(&Token::Var(String::new())) {
        tokens.pop();
    }
    let mut groups: Vec<ComplexToken<f64>> = tokens.as_slice().into_calc()?;
    groups.calc(&apply)
}

#[test]
fn sum_and_product_follow_precedence() {
    assert_eq!(
        tokens_of("1+2*3"),
        vec![num(1.0), op(Op::Add), num(2.0), op(Op::Mul), num(3.0)]
    );
    assert_eq!(value_of("1+2*3"), Ok(7.0));
}

#[test]
fn parentheses_are_kept_and_bind_first() {
    assert_eq!(
        tokens_of("(1+2)*3"),
        vec![lparen(), num(1.0), op(Op::Add), num(2.0), rparen(), op(Op::Mul), num(3.0)]
    );
    assert_eq!(value_of("(1+2)*3"), Ok(9.0));
}

#[test]
fn division_by_zero_is_infinite() {
    assert_eq!(value_of("5/0"), Ok(f64::INFINITY));
    assert_eq!(value_of("0-5/0"), Ok(f64::NEG_INFINITY));
    match value_of("0/0") {
        Ok(value) => assert!(value.is_nan()),
        Err(e) => panic!("unexpected failure {:?}", e),
    }
}

#[test]
fn powers_associate_to_the_left() {
    assert_eq!(value_of("2^3^2"), Ok(64.0));
    assert_ne!(value_of("2^3^2"), Ok(512.0));
}

#[test]
fn leading_minus_is_part_of_the_number() {
    assert_eq!(tokens_of("-5+3"), vec![num(-5.0), op(Op::Add), num(3.0)]);
    assert_eq!(value_of("-5+3"), Ok(-2.0));
}

#[test]
fn minus_after_a_number_subtracts() {
    assert_eq!(tokens_of("5-3"), vec![num(5.0), op(Op::Sub), num(3.0)]);
    assert_eq!(value_of("5-3"), Ok(2.0));
    assert_eq!(tokens_of("5 - 3"), vec![num(5.0), op(Op::Sub), num(3.0)]);
    assert_eq!(tokens_of("5 -3"), vec![num(5.0), op(Op::Sub), num(3.0)]);
}

#[test]
fn minus_after_an_operator_negates() {
    assert_eq!(tokens_of("3*-2"), vec![num(3.0), op(Op::Mul), num(-2.0)]);
    assert_eq!(value_of("3*-2"), Ok(-6.0));
    assert_eq!(tokens_of("(-5+1)*2"), vec![
        lparen(),
        num(-5.0),
        op(Op::Add),
        num(1.0),
        rparen(),
        op(Op::Mul),
        num(2.0),
    ]);
    assert_eq!(value_of("(-5+1)*2"), Ok(-8.0));
}

#[test]
fn groups_resolve_innermost_first() {
    assert_eq!(value_of("(2+3)*4"), Ok(20.0));
    assert_eq!(value_of_groups("4*(2+3)"), Ok(20.0));
    assert_eq!(value_of_groups("(2+3)*(4+1)"), Ok(25.0));
    assert_eq!(value_of_groups("2^(1+(1+1))"), Ok(8.0));
    assert_eq!(value_of_groups("(1+2)"), Ok(3.0));
    assert_eq!(value_of("2*((1+2)*(3+4))+1"), Ok(43.0));
    assert_eq!(value_of("((((7))))*1"), Ok(7.0));
    assert_eq!(value_of("(2+3)*4"), value_of("5*4"));
}

#[test]
fn tiers_go_left_to_right() {
    assert_eq!(value_of("8/4/2"), Ok(1.0));
    assert_eq!(value_of("10-4-3"), Ok(3.0));
    assert_eq!(value_of("2*3%4"), Ok(2.0));
    assert_eq!(value_of("7%4*2"), Ok(6.0));
    assert_eq!(value_of("2+3*2^2"), Ok(14.0));
}

#[test]
fn remainder_takes_the_sign_of_the_dividend() {
    assert_eq!(value_of("-7%3"), Ok(-1.0));
    assert_eq!(value_of("7%-3"), Ok(1.0));
    assert_eq!(value_of("7.5%2"), Ok(1.5));
}

#[test]
fn assignment_then_use() {
    let mut calculator = Calculator::new();
    assert_eq!(calculator.pass(tokens_of("x = 5"), &apply), Ok(()));
    assert_eq!(calculator.get_var("x"), Some(5.0));
    assert_eq!(calculator.last_result(), None);
    assert_eq!(calculator.evaluate(tokens_of("x+1"), &apply), Ok(6.0));
    assert_eq!(calculator.pass(tokens_of("x+1"), &apply), Ok(()));
    assert_eq!(calculator.last_result(), Some(6.0));
    assert_eq!(calculator.get_var("x"), Some(5.0));
}

#[test]
fn unset_variable_is_unknown() {
    let mut calculator: Calculator<f64> = Calculator::new();
    assert_eq!(
        calculator.pass(tokens_of("y+1"), &apply),
        Err(CalcError::UnknownVariable("y".to_string()))
    );
    assert_eq!(calculator.last_result(), None);
    assert_eq!(calculator.variables().len(), 0);
}

#[test]
fn unmatched_left_paren_fails() {
    assert_eq!(
        value_of("(1+2"),
        Err(CalcError::InvalidTokenInGroup {
            pos: 0,
            tokens: vec![
                ComplexToken::LParen,
                ComplexToken::Calc(CalcToken::Num(1.0)),
                ComplexToken::Calc(CalcToken::Op(Op::Add)),
                ComplexToken::Calc(CalcToken::Num(2.0)),
            ],
        })
    );
}

#[test]
fn unmatched_right_paren_fails_at_its_place() {
    let tokens = tokens_of("1+2)");
    assert_eq!(tokens[3], rparen());
    assert_eq!(
        value_of_groups("1+2)"),
        Err(CalcError::UnmatchedRightParen {
            pos: 3,
            tokens: vec![
                ComplexToken::Calc(CalcToken::Num(1.0)),
                ComplexToken::Calc(CalcToken::Op(Op::Add)),
                ComplexToken::Calc(CalcToken::Num(2.0)),
            ],
        })
    );
    assert!(matches!(value_of("1+2)+3"), Err(CalcError::UnmatchedRightParen { pos: 3, .. })));
    assert!(matches!(value_of("(1))+3"), Err(CalcError::UnmatchedRightParen { pos: 3, .. })));
}

#[test]
fn text_that_ends_in_a_symbol_ends_in_a_nameless_variable() {
    assert_eq!(tokens_of("1+2)"), vec![
        num(1.0),
        op(Op::Add),
        num(2.0),
        rparen(),
        Token::Var(String::new()),
    ]);
    assert_eq!(value_of("(1+2)"), Err(CalcError::UnknownVariable(String::new())));
    assert_eq!(tokens_of(""), vec![Token::Var(String::new())]);
    assert_eq!(value_of(""), Err(CalcError::UnknownVariable(String::new())));
}

#[test]
fn leading_operator_dangles() {
    assert_eq!(tokens_of("+5"), vec![op(Op::Add), num(5.0)]);
    assert_eq!(
        value_of("+5"),
        Err(CalcError::DanglingOperator {
            pos: 0,
            tokens: vec![CalcToken::Op(Op::Add), CalcToken::Num(5.0)],
        })
    );
}

#[test]
fn evaluation_uses_the_tokens_up() {
    let mut flat = vec![
        CalcToken::Num(1.0),
        CalcToken::Op(Op::Add),
        CalcToken::Num(2.0),
        CalcToken::Op(Op::Mul),
        CalcToken::Num(3.0),
    ];
    assert_eq!(flat.calc(&apply), Ok(7.0));
    assert_eq!(flat, vec![CalcToken::Num(7.0)]);
    assert_eq!(flat.calc(&apply), Ok(7.0));
    let mut again: Vec<ComplexToken<f64>> = tokens_of("1+2*3").as_slice().into_calc().unwrap();
    let kept = again.clone();
    assert_eq!(again.calc(&apply), Ok(7.0));
    assert_eq!(again, kept);
}

#[test]
fn assignment_of_an_expression() {
    let mut calculator = Calculator::new();
    assert_eq!(calculator.pass(tokens_of("x = 5 * 10"), &apply), Ok(()));
    assert_eq!(calculator.get_var("x"), Some(50.0));
    assert_eq!(calculator.pass(tokens_of("x = x + 1"), &apply), Ok(()));
    assert_eq!(calculator.get_var("x"), Some(51.0));
    assert_eq!(calculator.pass(tokens_of("(1 + 2)*3/-5"), &apply), Ok(()));
    assert_eq!(calculator.last_result(), Some(9.0 / -5.0));
    assert_eq!(calculator.pass(tokens_of("y = ans * 0"), &apply), Ok(()));
    assert_eq!(calculator.get_var("y"), Some(-0.0));
    assert_eq!(calculator.variables().len(), 3);
}

#[test]
fn invalid_assignment_targets() {
    let mut calculator: Calculator<f64> = Calculator::new();
    assert_eq!(
        calculator.pass(tokens_of("3 = 5"), &apply),
        Err(CalcError::InvalidAssignmentTarget { tokens: vec![num(3.0)] })
    );
    assert_eq!(
        calculator.pass(tokens_of("x y = 5"), &apply),
        Err(CalcError::InvalidAssignmentTarget {
            tokens: vec![Token::Var("x".to_string()), Token::Var("y".to_string())],
        })
    );
    assert_eq!(
        calculator.pass(tokens_of("= 5"), &apply),
        Err(CalcError::InvalidAssignmentTarget { tokens: vec![] })
    );
    assert_eq!(calculator.variables().len(), 0);
}

#[test]
fn failure_of_the_expression_comes_before_the_target() {
    let mut calculator: Calculator<f64> = Calculator::new();
    assert_eq!(
        calculator.pass(tokens_of("3 = z"), &apply),
        Err(CalcError::UnknownVariable("z".to_string()))
    );
}

#[test]
fn second_assignment_marker_is_invalid() {
    let mut calculator: Calculator<f64> = Calculator::new();
    calculator.set_var("y".to_string(), 2.0);
    assert_eq!(
        calculator.pass(tokens_of("x = y = 5"), &apply),
        Err(CalcError::InvalidAssignmentTarget { tokens: vec![num(2.0), Token::Assign, num(5.0)] })
    );
    assert_eq!(calculator.get_var("x"), None);
    let mut fresh: Calculator<f64> = Calculator::new();
    assert_eq!(
        fresh.pass(tokens_of("x = y = 5"), &apply),
        Err(CalcError::UnknownVariable("y".to_string()))
    );
}

#[test]
fn evaluating_again_comes_to_the_same_end() {
    let mut dangling = vec![
        CalcToken::Num(2.0),
        CalcToken::Op(Op::Mul),
        CalcToken::Num(3.0),
        CalcToken::Op(Op::Add),
    ];
    let first = dangling.calc(&apply);
    let left = dangling.clone();
    assert_eq!(left, vec![CalcToken::Num(6.0), CalcToken::Op(Op::Add)]);
    assert_eq!(dangling.calc(&apply), first);
    assert_eq!(dangling, left);

    let mut unresolved = vec![CalcToken::Num(1.0), CalcToken::Num(2.0), CalcToken::Op(Op::Add), CalcToken::Num(3.0)];
    let first = unresolved.calc(&apply);
    assert_eq!(first, Err(CalcError::UnresolvedExpression {
        tokens: vec![CalcToken::Num(1.0), CalcToken::Num(5.0)],
    }));
    assert_eq!(unresolved.calc(&apply), first);

    let mut fine = vec![CalcToken::Num(2.0), CalcToken::Op(Op::Pow), CalcToken::Num(10.0)];
    assert_eq!(fine.calc(&apply), Ok(1024.0));
    assert_eq!(fine.calc(&apply), Ok(1024.0));
    assert_eq!(fine, vec![CalcToken::Num(1024.0)]);
}

#[test]
fn two_operators_side_by_side() {
    let operators = [Op::Add, Op::Sub, Op::Mul, Op::Div, Op::Mod, Op::Pow];
    for first in operators {
        for second in operators {
            let mut tokens = vec![
                CalcToken::Num(7.0),
                CalcToken::Op(first),
                CalcToken::Num(3.0),
                CalcToken::Op(second),
                CalcToken::Num(2.0),
            ];
            let expected = if first.tier() <= second.tier() {
                apply(second, apply(first, 7.0, 3.0), 2.0)
            } else {
                apply(first, 7.0, apply(second, 3.0, 2.0))
            };
            assert_eq!(tokens.calc(&apply), Ok(expected));
        }
    }
    let mut one = vec![CalcToken::Num(7.0), CalcToken::Op(Op::Sub), CalcToken::Num(3.0)];
    assert_eq!(one.calc(&apply), Ok(4.0));
}
