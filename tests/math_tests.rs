use benday_rust::{is_math_parsable, math_expression, parse_math_expression, tokenize_expression};
use benday_rust::{Error, MathNode, Operation, Ratio, ReturnValue, Token};

fn as_f64(v: &ReturnValue) -> f64 {
    match v {
        ReturnValue::Float(r) => r.num as f64 / r.den as f64,
        ReturnValue::Int(i) => *i as f64,
        _ => panic!("not a number: {:?}", v),
    }
}

#[test]
fn simple_addition() {
    assert_eq!(math_expression("1 + 1"), Ok(ReturnValue::Int(2)));
}

#[test]
fn stick_simple_addition() {
    assert_eq!(math_expression("1+1"), Ok(ReturnValue::Int(2)));
}

#[test]
fn simple_substraction() {
    assert_eq!(math_expression("1 - 1"), Ok(ReturnValue::Int(0)));
}

#[test]
fn simple_multiplication() {
    assert_eq!(math_expression("2 * 2"), Ok(ReturnValue::Int(4)));
}

#[test]
fn simple_division() {
    assert_eq!(math_expression("2 / 2"), Ok(ReturnValue::Int(1)));
}

#[test]
fn simple_modulo() {
    assert_eq!(math_expression("2 % 2"), Ok(ReturnValue::Int(0)));
}

#[test]
fn simple_power() {
    assert_eq!(math_expression("2 ^ 2"), Ok(ReturnValue::Int(4)));
}

#[test]
fn simple_parenthesis() {
    assert_eq!(math_expression("(2+2)"), Ok(ReturnValue::Int(4)));
}

#[test]
fn simple_parenthesis_with_spaces() {
    assert_eq!(math_expression("( 2 + 2 )"), Ok(ReturnValue::Int(4)));
}

#[test]
fn simple_parenthesis_with_spaces_and_operations() {
    assert_eq!(math_expression("( 2 + 2 ) * 2"), Ok(ReturnValue::Int(8)));
}

fn leaf_int(n: &MathNode) -> i64 {
    match n {
        MathNode::Int(i) => *i,
        _ => panic!("not an integer leaf: {:?}", n),
    }
}

#[test]
fn parse2() {
    let re = parse_math_expression(vec![
        Token::Int(1),
        Token::Operation(Operation::Addition),
        Token::Operation(Operation::OpenParenthesis),
        Token::Int(1),
        Token::Operation(Operation::Addition),
        Token::Int(1),
        Token::Operation(Operation::CloseParenthesis),
        Token::Operation(Operation::Addition),
        Token::Int(1),
    ]);
    match re {
        Ok(MathNode::Operation(l, Operation::Addition, r)) => {
            assert_eq!(leaf_int(&r), 1);
            match *l {
                MathNode::Operation(_, Operation::Addition, _) => {}
                other => panic!("unexpected left side {:?}", other),
            }
        }
        other => panic!("unexpected tree {:?}", other),
    }
}

#[test]
fn parse_no_p() {
    let re = parse_math_expression(vec![
        Token::Int(1),
        Token::Operation(Operation::Addition),
        Token::Int(1),
    ]);
    match re {
        Ok(MathNode::Operation(l, Operation::Addition, r)) => {
            assert_eq!(leaf_int(&l), 1);
            assert_eq!(leaf_int(&r), 1);
        }
        other => panic!("unexpected tree {:?}", other),
    }
}

#[test]
fn parse_bool() {
    let re = parse_math_expression(vec![
        Token::Int(1),
        Token::Operation(Operation::And),
        Token::Int(1),
    ]);
    match re {
        Ok(MathNode::Operation(_, Operation::And, _)) => {}
        other => panic!("unexpected tree {:?}", other),
    }
}

#[test]
fn parse() {
    let re = parse_math_expression(vec![
        Token::Operation(Operation::OpenParenthesis),
        Token::Int(1),
        Token::Operation(Operation::Addition),
        Token::Int(1),
        Token::Operation(Operation::CloseParenthesis),
    ]);
    match re {
        Ok(MathNode::Operation(l, Operation::Addition, r)) => {
            assert_eq!(leaf_int(&l), 1);
            assert_eq!(leaf_int(&r), 1);
        }
        other => panic!("unexpected tree {:?}", other),
    }
}

#[test]
fn precedence_of_multiplication_and_parentheses() {
    assert_eq!(math_expression("2 + 3 * 4"), Ok(ReturnValue::Int(14)));
    assert_eq!(math_expression("(2 + 3) * 4"), Ok(ReturnValue::Int(20)));
}

#[test]
fn operators_group_from_the_left() {
    assert_eq!(math_expression("8 / 2 / 2"), Ok(ReturnValue::Int(2)));
    assert_eq!(math_expression("8 - 2 - 2"), Ok(ReturnValue::Int(4)));
}

#[test]
fn whitespace_does_not_matter() {
    assert_eq!(math_expression("1+1"), math_expression("1 + 1"));
    assert_eq!(math_expression(" 1\t+ 1 "), Ok(ReturnValue::Int(2)));
}

#[test]
fn integer_division_truncates_and_floats_promote() {
    assert_eq!(math_expression("1 / 2"), Ok(ReturnValue::Int(0)));
    let half = math_expression("1.0 / 2").unwrap();
    assert!(matches!(half, ReturnValue::Float(_)));
    assert_eq!(as_f64(&half), 0.5);
    assert_eq!(math_expression("-7"), Err(Error::MalformedExpression));
    assert_eq!(math_expression("0 - 7 / 2"), Ok(ReturnValue::Int(-3)));
}

#[test]
fn division_and_modulo_by_zero_fail() {
    assert_eq!(math_expression("1 / 0"), Err(Error::DivisionByZero));
    assert_eq!(math_expression("1 % 0"), Err(Error::DivisionByZero));
    assert_eq!(math_expression("1 // 0"), Err(Error::DivisionByZero));
    assert_eq!(math_expression("1.5 / 0.0"), Err(Error::DivisionByZero));
}

#[test]
fn modulo_and_remainder_signs() {
    assert_eq!(math_expression("(0 - 7) % 3"), Ok(ReturnValue::Int(2)));
    assert_eq!(math_expression("(0 - 7) // 3"), Ok(ReturnValue::Int(-1)));
    assert_eq!(math_expression("7 % 3"), Ok(ReturnValue::Int(1)));
    assert_eq!(math_expression("7.5 % 2"), Ok(ReturnValue::Float(Ratio { num: 3, den: 2 })));
    assert_eq!(math_expression("(0 - 7.5) % 2"), Ok(ReturnValue::Float(Ratio { num: 1, den: 2 })));
    assert_eq!(math_expression("(0 - 7.5) // 2"), Ok(ReturnValue::Float(Ratio { num: -3, den: 2 })));
    assert_eq!(math_expression("7.5 % 0.0"), Err(Error::DivisionByZero));
}

#[test]
fn powers() {
    assert_eq!(math_expression("2 ^ 10"), Ok(ReturnValue::Int(1024)));
    assert_eq!(math_expression("2 ^ 0"), Ok(ReturnValue::Int(1)));
    let inv = math_expression("2 ^ (0 - 2)").unwrap();
    assert_eq!(as_f64(&inv), 0.25);
    assert_eq!(math_expression("0 ^ (0 - 1)"), Err(Error::DivisionByZero));
    assert_eq!(math_expression("2 ^ 63"), Err(Error::Overflow));
    assert_eq!(math_expression("1 ^ 9000000000000000000"), Ok(ReturnValue::Int(1)));
    assert_eq!(as_f64(&math_expression("1.5 ^ 2").unwrap()), 2.25);
    assert_eq!(math_expression("2 ^ 0.5"), Err(Error::TypeMismatch));
}

#[test]
fn comparisons_and_logic() {
    assert_eq!(math_expression("1 < 2"), Ok(ReturnValue::Bool(true)));
    assert_eq!(math_expression("2 <= 2"), Ok(ReturnValue::Bool(true)));
    assert_eq!(math_expression("2.5 > 3"), Ok(ReturnValue::Bool(false)));
    assert_eq!(math_expression("3 >= 2.5"), Ok(ReturnValue::Bool(true)));
    assert_eq!(math_expression("1 < 2 && 3 < 2"), Ok(ReturnValue::Bool(false)));
    assert_eq!(math_expression("1 < 2 || 3 < 2"), Ok(ReturnValue::Bool(true)));
    assert_eq!(math_expression("1 && 1"), Err(Error::TypeMismatch));
    assert_eq!(math_expression("(1 < 2) + 1"), Err(Error::TypeMismatch));
}

#[test]
fn minus_needs_a_left_operand() {
    assert_eq!(math_expression("-2 ^ 2"), Err(Error::MalformedExpression));
    assert_eq!(math_expression("2 < -1"), Err(Error::MalformedExpression));
    assert_eq!(math_expression("0 - 2 ^ 2"), Ok(ReturnValue::Int(-4)));
}

#[test]
fn fractions_are_kept_in_lowest_terms() {
    assert_eq!(math_expression("1.0 / 2"), Ok(ReturnValue::Float(Ratio { num: 1, den: 2 })));
    assert_eq!(math_expression("2 / 4.0"), Ok(ReturnValue::Float(Ratio { num: 1, den: 2 })));
    assert_eq!(math_expression("1.5 * 2"), Ok(ReturnValue::Float(Ratio { num: 3, den: 1 })));
    assert_eq!(math_expression("0 - 0.25"), Ok(ReturnValue::Float(Ratio { num: -1, den: 4 })));
    assert_eq!(math_expression("0.0"), Ok(ReturnValue::Float(Ratio { num: 0, den: 1 })));
}

#[test]
fn float_arithmetic_is_exact() {
    assert_eq!(as_f64(&math_expression("0.5 + 0.25").unwrap()), 0.75);
    assert_eq!(as_f64(&math_expression("1.5 * 2").unwrap()), 3.0);
    assert_eq!(as_f64(&math_expression("3 - 0.5").unwrap()), 2.5);
}

#[test]
fn parse_errors() {
    assert_eq!(math_expression("(1 + 2"), Err(Error::UnbalancedParenthesis));
    assert_eq!(math_expression("1 + 2)"), Err(Error::UnbalancedParenthesis));
    assert_eq!(math_expression(")1 + 2("), Err(Error::UnbalancedParenthesis));
    assert_eq!(math_expression("1 +"), Err(Error::MalformedExpression));
    assert_eq!(math_expression("(1)(2)"), Err(Error::MalformedExpression));
    assert_eq!(math_expression(""), Err(Error::MalformedExpression));
    assert_eq!(math_expression("1 2"), Err(Error::MalformedExpression));
}

#[test]
fn tokenizer_errors_and_overflow() {
    assert_eq!(math_expression("1 + a"), Err(Error::UnrecognizedCharacter));
    assert_eq!(math_expression("1 & 1"), Err(Error::UnrecognizedCharacter));
    assert_eq!(math_expression("9223372036854775807"), Ok(ReturnValue::Int(i64::MAX)));
    assert_eq!(math_expression("9223372036854775808"), Err(Error::Overflow));
    assert_eq!(math_expression("9223372036854775807 + 1"), Err(Error::Overflow));
    assert_eq!(math_expression("1.0000000000000000000"), Err(Error::Overflow));
}

#[test]
fn tokens_of_an_expression() {
    assert_eq!(
        tokenize_expression("12<=3.25//(4)"),
        Ok(vec![
            Token::Int(12),
            Token::Operation(Operation::EqLesser),
            Token::Float(Ratio { num: 325, den: 100 }),
            Token::Operation(Operation::Remaining),
            Token::Operation(Operation::OpenParenthesis),
            Token::Int(4),
            Token::Operation(Operation::CloseParenthesis),
        ])
    );
    assert_eq!(tokenize_expression("   "), Ok(vec![]));
}

#[test]
fn parsability_is_tokenization() {
    assert!(is_math_parsable("1 + 1"));
    assert!(is_math_parsable("1 +"));
    assert!(!is_math_parsable("hello"));
}
