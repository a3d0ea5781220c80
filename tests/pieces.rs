use calc_parser::expression::{abs, div, neg, rem, val, Expression, Number, Operator};
use calc_parser::parser::{_is_number_char, _is_space, Parser};

fn num(t: &str) -> Number {
    Number::new(t.chars().collect()).unwrap()
}

#[test]
fn literals() {
    assert!(Number::is_literal(&['1', '2']));
    assert!(Number::is_literal(&['.', '5']));
    assert!(Number::is_literal(&['3', '.']));
    assert!(!Number::is_literal(&['.']));
    assert!(!Number::is_literal(&[]));
    assert!(!Number::is_literal(&['1', '.', '2', '.', '3']));
    assert!(!Number::is_literal(&['1', 'x']));
    assert!(Number::new(vec!['.', '.']).is_none());
    assert_eq!(num("4.25").as_chars(), &['4', '.', '2', '5']);
}

#[test]
fn factories_build_nodes() {
    let e = neg(abs(div(val(num("1")), val(num("2")))));
    match e {
        Expression::Op(Operator::Neg(inner)) => match *inner {
            Expression::Op(Operator::Abs(q)) => assert!(matches!(*q, Expression::Op(Operator::Div(_, _)))),
            _ => panic!("expected abs"),
        },
        _ => panic!("expected neg"),
    }
    assert!(matches!(rem(val(num("1")), val(num("2"))), Expression::Op(Operator::Rem(_, _))));
    assert!(matches!(calc_parser::expression::add(val(num("1")), val(num("2"))), Expression::Op(Operator::Add(_, _))));
    assert!(matches!(calc_parser::expression::sub(val(num("1")), val(num("2"))), Expression::Op(Operator::Sub(_, _))));
    assert!(matches!(calc_parser::expression::mul(val(num("1")), val(num("2"))), Expression::Op(Operator::Mul(_, _))));
}

#[test]
fn character_classes() {
    assert!(_is_space(Some(' ')));
    assert!(_is_space(Some('\t')));
    assert!(!_is_space(Some('\n')));
    assert!(!_is_space(None));
    assert!(_is_number_char(Some('7')));
    assert!(_is_number_char(Some('.')));
    assert!(!_is_number_char(Some('a')));
    assert!(!_is_number_char(None));
}

#[test]
fn cursor_moves() {
    let mut p = Parser::new("  a\tb\n c");
    assert_eq!(p.peek(), Some(' '));
    assert_eq!(p.symbol(), Some('a'));
    p.skip();
    assert_eq!(p.peek(), Some('\t'));
    p.skip_space();
    assert_eq!(p.peek(), Some('b'));
    p.skip();
    assert_eq!(p.peek(), None);
    assert_eq!(p.symbol(), None);
}

#[test]
fn integers_as_constants() {
    assert_eq!(Number::from_u64(0).as_chars(), &['0']);
    assert_eq!(Number::from_u64(1234).as_chars(), &['1', '2', '3', '4']);
    let max: String = Number::from_u64(u64::MAX).as_chars().iter().collect();
    assert_eq!(max, "18446744073709551615");
}
