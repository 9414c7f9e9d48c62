//! The token layers, the scanner on its edge cases, and the narrowing conversions.

use calculator::calculate::{copied, into_flat, nearest_left_paren};
use calculator::calculator::assignment_position;
use calculator::command::Command;
use calculator::error::CalcError;
use calculator::op::{Op, TIERS};
use calculator::parse::tokenize;
use calculator::token::{clone_tokens, CalcToken, ComplexToken, Token, TryInto};

fn parse(text: &str) -> Option<f64> {
    text.parse::<f64>().ok()
}

fn render(n: f64) -> String {
    n.to_string()
}

fn num(n: f64) -> Token<f64> {
    Token::Complex(ComplexToken::Calc(CalcToken::Num(n)))
}

fn op(op: Op) -> Token<f64> {
    Token::Complex(ComplexToken::Calc(CalcToken::Op(op)))
}

fn var(name: &str) -> Token<f64> {
    Token::Var(name.to_string())
}

fn tokens_of(text: &str) -> Vec<Token<f64>> {
    tokenize(text.to_string(), &parse)
}

#[test]
fn operators_have_three_tiers() {
    assert_eq!(TIERS, 3);
    assert_eq!(Op::Pow.tier(), 0);
    assert_eq!(Op::Mod.tier(), 1);
    assert_eq!(Op::Div.tier(), 1);
    assert_eq!(Op::Mul.tier(), 1);
    assert_eq!(Op::Sub.tier(), 2);
    assert_eq!(Op::Add.tier(), 2);
}

#[test]
fn operators_and_symbols_correspond() {
    let all = [
        (Op::Add, '+'),
        (Op::Sub, '-'),
        (Op::Mul, '*'),
        (Op::Div, '/'),
        (Op::Mod, '%'),
        (Op::Pow, '^'),
    ];
    for (operator, symbol) in all {
        assert_eq!(operator.symbol(), symbol);
        assert_eq!(Op::from_symbol(symbol), Some(operator));
        assert_eq!(operator.text(), symbol.to_string());
    }
    assert_eq!(Op::from_symbol('='), None);
    assert_eq!(Op::from_symbol('x'), None);
}

#[test]
fn symbols_are_tokens_by_themselves() {
    assert_eq!(Token::<f64>::from_symbol('+'), Some(op(Op::Add)));
    assert_eq!(Token::<f64>::from_symbol('-'), Some(op(Op::Sub)));
    assert_eq!(Token::<f64>::from_symbol('='), Some(Token::Assign));
    assert_eq!(Token::<f64>::from_symbol('('), Some(Token::Complex(ComplexToken::LParen)));
    assert_eq!(Token::<f64>::from_symbol(')'), Some(Token::Complex(ComplexToken::RParen)));
    assert_eq!(Token::<f64>::from_symbol('1'), None);
    assert_eq!(Token::<f64>::from_symbol(' '), None);
}

#[test]
fn text_is_classified() {
    assert_eq!(Token::from_str("+", &parse), Some(op(Op::Add)));
    assert_eq!(Token::from_str("-", &parse), Some(op(Op::Sub)));
    assert_eq!(Token::from_str("*", &parse), Some(op(Op::Mul)));
    assert_eq!(Token::from_str("/", &parse), Some(op(Op::Div)));
    assert_eq!(Token::from_str("%", &parse), Some(op(Op::Mod)));
    assert_eq!(Token::from_str("^", &parse), Some(op(Op::Pow)));
    assert_eq!(Token::from_str("=", &parse), Some(Token::Assign));
    assert_eq!(Token::from_str("(", &parse), Some(Token::Complex(ComplexToken::LParen)));
    assert_eq!(Token::from_str(")", &parse), Some(Token::Complex(ComplexToken::RParen)));
    assert_eq!(Token::from_str("12.5", &parse), Some(num(12.5)));
    assert_eq!(Token::from_str("-3", &parse), Some(num(-3.0)));
    assert_eq!(Token::from_str("1e3", &parse), Some(num(1000.0)));
    assert_eq!(Token::from_str("7", &parse), Some(num(7.0)));
    assert_eq!(Token::from_str("x", &parse), Some(var("x")));
    assert_eq!(Token::from_str("rate2", &parse), Some(var("rate2")));
    assert_eq!(Token::from_str("++", &parse), Some(var("++")));
    assert_eq!(Token::from_str("", &parse), Some(var("")));
    assert_eq!(Token::from_str("é", &parse), Some(var("é")));
}

#[test]
fn classification_goes_by_the_given_reader() {
    let only_seven = |text: &str| if text == "seven" { Some(7u8) } else { None };
    assert_eq!(
        Token::from_str("seven", &only_seven),
        Some(Token::Complex(ComplexToken::Calc(CalcToken::Num(7u8))))
    );
    assert_eq!(Token::from_str("7", &only_seven), Some(Token::Var("7".to_string())));
    let plus_is_a_number = |_: &str| Some(1u8);
    assert_eq!(
        Token::from_str("+", &plus_is_a_number),
        Some(Token::Complex(ComplexToken::Calc(CalcToken::Op(Op::Add))))
    );
}

#[test]
fn tokens_write_themselves() {
    assert_eq!(CalcToken::Num(2.5).text(&render), "2.5");
    assert_eq!(CalcToken::<f64>::Op(Op::Pow).text(&render), "^");
    assert_eq!(ComplexToken::<f64>::LParen.text(&render), "(");
    assert_eq!(ComplexToken::<f64>::RParen.text(&render), ")");
    assert_eq!(ComplexToken::Calc(CalcToken::Num(-1.0)).text(&render), "-1");
    assert_eq!(Token::<f64>::Assign.text(&render), "=");
    assert_eq!(var("speed").text(&render), "speed");
    assert_eq!(num(3.0).text(&render), "3");
    assert!(num(3.0).is_number());
    assert!(!op(Op::Add).is_number());
    assert!(!var("x").is_number());
}

#[test]
fn only_arithmetic_is_a_calctoken() {
    assert!(ComplexToken::Calc(CalcToken::Num(1.0)).is_calctoken());
    assert!(ComplexToken::<f64>::Calc(CalcToken::Op(Op::Add)).is_calctoken());
    assert!(!ComplexToken::<f64>::LParen.is_calctoken());
    assert!(!ComplexToken::<f64>::RParen.is_calctoken());
}

#[test]
fn whitespace_separates_and_is_dropped() {
    assert_eq!(tokens_of("1 +\n2"), vec![num(1.0), op(Op::Add), num(2.0)]);
    assert_eq!(tokens_of("  12   3 "), vec![num(12.0), num(3.0), var("")]);
    assert_eq!(tokens_of("a b"), vec![var("a"), var("b")]);
    assert_eq!(tokens_of("1\t2"), vec![var("1\t2")]);
}

#[test]
fn assignment_is_scanned() {
    assert_eq!(tokens_of("x = 5"), vec![var("x"), Token::Assign, num(5.0)]);
    assert_eq!(tokens_of("x=5*10"), vec![
        var("x"),
        Token::Assign,
        num(5.0),
        op(Op::Mul),
        num(10.0),
    ]);
}

#[test]
fn minus_goes_by_the_token_before_it() {
    assert_eq!(tokens_of("x-3"), vec![var("x"), num(-3.0)]);
    assert_eq!(tokens_of("(1)-3"), vec![
        Token::Complex(ComplexToken::LParen),
        num(1.0),
        Token::Complex(ComplexToken::RParen),
        num(-3.0),
    ]);
    assert_eq!(tokens_of("2--3"), vec![num(2.0), op(Op::Sub), num(-3.0)]);
    assert_eq!(tokens_of("- 3"), vec![op(Op::Sub), num(3.0)]);
    assert_eq!(tokens_of("-"), vec![op(Op::Sub)]);
    assert_eq!(tokens_of("--1"), vec![op(Op::Sub), num(-1.0)]);
    assert_eq!(tokens_of("1e-3"), vec![var("1e"), num(-3.0)]);
    assert_eq!(tokens_of("-x"), vec![var("-x")]);
}

#[test]
fn narrowing_keeps_expression_tokens() {
    let tokens = tokens_of("(1+2)*3");
    let narrow: Vec<ComplexToken<f64>> = tokens.as_slice().into_calc().unwrap();
    assert_eq!(narrow, vec![
        ComplexToken::LParen,
        ComplexToken::Calc(CalcToken::Num(1.0)),
        ComplexToken::Calc(CalcToken::Op(Op::Add)),
        ComplexToken::Calc(CalcToken::Num(2.0)),
        ComplexToken::RParen,
        ComplexToken::Calc(CalcToken::Op(Op::Mul)),
        ComplexToken::Calc(CalcToken::Num(3.0)),
    ]);
    let nothing: Vec<Token<f64>> = Vec::new();
    assert_eq!(nothing.as_slice().into_calc(), Ok(Vec::new()));
}

#[test]
fn narrowing_fails_at_the_first_outer_token() {
    let tokens = vec![num(1.0), var("a"), Token::Assign, var("b")];
    assert_eq!(tokens.as_slice().into_calc(), Err(CalcError::UnknownVariable("a".to_string())));
    let tokens = vec![num(1.0), Token::Assign, var("b")];
    assert_eq!(
        tokens.as_slice().into_calc(),
        Err(CalcError::InvalidAssignmentTarget { tokens: tokens.clone() })
    );
}

#[test]
fn narrowing_to_a_flat_group() {
    let groups = vec![
        ComplexToken::Calc(CalcToken::Num(1.0)),
        ComplexToken::Calc(CalcToken::Op(Op::Add)),
    ];
    assert_eq!(into_flat(groups), Ok(vec![CalcToken::Num(1.0), CalcToken::Op(Op::Add)]));
    let groups = vec![
        ComplexToken::Calc(CalcToken::Num(1.0)),
        ComplexToken::RParen,
        ComplexToken::LParen,
    ];
    assert_eq!(
        into_flat(groups.clone()),
        Err(CalcError::InvalidTokenInGroup { pos: 1, tokens: groups })
    );
    assert_eq!(into_flat(Vec::<ComplexToken<f64>>::new()), Ok(Vec::new()));
}

#[test]
fn nearest_left_paren_is_the_last_one() {
    let stack = vec![
        ComplexToken::LParen,
        ComplexToken::Calc(CalcToken::Num(1.0)),
        ComplexToken::LParen,
        ComplexToken::Calc(CalcToken::Num(2.0)),
    ];
    assert_eq!(nearest_left_paren(&stack), Some(2));
    assert_eq!(nearest_left_paren(&vec![ComplexToken::Calc(CalcToken::Num(2.0))]), None);
    assert_eq!(nearest_left_paren(&vec![ComplexToken::<f64>::RParen]), None);
    assert_eq!(nearest_left_paren(&Vec::<ComplexToken<f64>>::new()), None);
}

#[test]
fn first_assignment_marker_is_found() {
    assert_eq!(assignment_position(&tokens_of("x = y = 1")), Some(1));
    assert_eq!(assignment_position(&tokens_of("1 + 2")), None);
    assert_eq!(assignment_position(&tokens_of("= 1")), Some(0));
}

#[test]
fn copies_are_equal() {
    assert_eq!(copied(&vec![1u8, 2, 3]), vec![1u8, 2, 3]);
    assert_eq!(copied(&Vec::<u8>::new()), Vec::<u8>::new());
    assert_eq!(var("abc").clone(), var("abc"));
    assert_eq!(num(1.5).clone(), num(1.5));
    assert_eq!(Token::<f64>::Assign.clone(), Token::Assign);
    let tokens = tokens_of("x = (1 + y)*2");
    assert_eq!(clone_tokens(&tokens), tokens);
}

#[test]
fn lines_are_commands() {
    assert_eq!(Command::from("exit", &parse), Command::<f64>::Exit);
    assert_eq!(Command::from("help", &parse), Command::<f64>::Help);
    assert_eq!(Command::from("1+2", &parse), Command::Calculate(tokens_of("1+2")));
    assert_eq!(Command::from("exit ", &parse), Command::Calculate(vec![var("exit"), var("")]));
    assert_eq!(Command::from("Help", &parse), Command::Calculate(vec![var("Help")]));
    assert_eq!(Command::from("", &parse), Command::Calculate(vec![var("")]));
}

#[test]
fn failures_can_be_cloned() {
    let failures: Vec<CalcError<f64>> = vec![
        CalcError::UnknownVariable("a".to_string()),
        CalcError::UnmatchedRightParen { pos: 2, tokens: vec![ComplexToken::LParen] },
        CalcError::InvalidTokenInGroup { pos: 0, tokens: vec![ComplexToken::RParen] },
        CalcError::EmptyExpression,
        CalcError::DanglingOperator { pos: 1, tokens: vec![CalcToken::Op(Op::Add)] },
        CalcError::InvalidOperand { pos: 1, operator: 2, tokens: vec![CalcToken::Num(1.0)] },
        CalcError::UnresolvedExpression { tokens: vec![CalcToken::Num(1.0), CalcToken::Num(2.0)] },
        CalcError::InvalidAssignmentTarget { tokens: vec![var("a"), Token::Assign] },
    ];
    for failure in &failures {
        assert_eq!(&failure.clone(), failure);
    }
}
