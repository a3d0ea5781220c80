use calc_parser::expression::{Expression, Number, Operator};
use calc_parser::parser::{parse, ParseResult};

fn eval(e: &Expression) -> f64 {
    match e {
        Expression::Constant(n) => n.as_chars().iter().collect::<String>().parse::<f64>().unwrap(),
        Expression::Op(op) => match op {
            Operator::Add(l, r) => eval(l) + eval(r),
            Operator::Sub(l, r) => eval(l) - eval(r),
            Operator::Mul(l, r) => eval(l) * eval(r),
            Operator::Div(l, r) => eval(l) / eval(r),
            Operator::Rem(l, r) => eval(l) % eval(r),
            Operator::Neg(x) => -eval(x),
            Operator::Abs(x) => {
                let v = eval(x);
                if v < 0.0 {
                    -v
                } else {
                    v
                }
            }
        },
    }
}

fn value(line: &str) -> f64 {
    match parse(&String::from(line)) {
        ParseResult::Present(e) => eval(&e),
        ParseResult::Absent => panic!("absent for {:?}", line),
        ParseResult::Error(m, i) => panic!("error {} at {} for {:?}", m, i, line),
    }
}

fn error(line: &str) -> (String, usize) {
    match parse(&String::from(line)) {
        ParseResult::Error(m, i) => (m, i),
        _ => panic!("no error for {:?}", line),
    }
}

#[test]
fn empty_line_is_absent() {
    assert!(parse(&String::from("")).is_absent());
}

#[test]
fn blank_line_is_absent() {
    assert!(parse(&String::from("   \t  ")).is_absent());
    assert!(parse(&String::from(" \t\n")).is_absent());
    assert!(parse(&String::from("\n")).is_absent());
}

#[test]
fn missing_paren_position() {
    assert_eq!(error("(1+2"), (String::from("Expected ')'"), 4));
}

#[test]
fn stray_paren_is_extra_input() {
    assert_eq!(error("1 + )"), (String::from("Extra input"), 4));
}

#[test]
fn missing_bar_position() {
    assert_eq!(error("|1+2"), (String::from("Expected '|'"), 4));
    assert_eq!(error("|1+2)"), (String::from("Expected '|'"), 4));
}

#[test]
fn subtraction_groups_right() {
    assert_eq!(value("8-3-2"), 7.0);
}

#[test]
fn unary_minus_binds_to_base() {
    assert_eq!(value("-3*2"), -6.0);
    assert_eq!(value("--4"), 4.0);
}

#[test]
fn unary_plus_negates() {
    // The grammar gives unary `+` the meaning of unary `-`.
    assert_eq!(value("+3"), -3.0);
}

#[test]
fn absolute_value_bars() {
    assert_eq!(value("|-5|"), 5.0);
    assert_eq!(value("|2-9|"), 7.0);
    assert_eq!(value("|3|"), 3.0);
}

#[test]
fn malformed_number() {
    assert_eq!(error("1.2.3"), (String::from("Incorrect number"), 0));
    assert_eq!(error("2 * ."), (String::from("Incorrect number"), 4));
}

#[test]
fn trailing_input() {
    assert_eq!(error("1 2"), (String::from("Extra input"), 2));
    assert_eq!(error("3 x"), (String::from("Extra input"), 2));
}

#[test]
fn precedence_and_grouping() {
    assert_eq!(value("1+2*3"), 7.0);
    assert_eq!(value("(1+2)*3"), 9.0);
    assert_eq!(value("7/2"), 3.5);
    assert_eq!(value("7%3"), 1.0);
    assert_eq!(value("-7%3"), -1.0);
    assert_eq!(value("12.5*2"), 25.0);
    assert_eq!(value(".5+3."), 3.5);
    assert_eq!(value("8/4/2"), 4.0);
}

#[test]
fn division_by_zero_follows_float_rules() {
    assert_eq!(value("1/0"), f64::INFINITY);
    assert!(value("0/0").is_nan());
    assert!(value("5%0").is_nan());
}

#[test]
fn whitespace_between_tokens_is_ignored() {
    assert_eq!(value(" 1 +\t2 * ( 3 - 1 ) "), value("1+2*(3-1)"));
    assert_eq!(value("\t| - 5 |"), value("|-5|"));
    assert_eq!(value("  8 - 3 - 2"), 7.0);
}

#[test]
fn line_terminator_ends_input() {
    assert_eq!(value("1+1\n"), 2.0);
    assert_eq!(value("4\r\n"), 4.0);
    assert_eq!(value("1\n2"), 1.0);
}

#[test]
fn missing_right_operand_is_absent() {
    assert!(parse(&String::from("1 +")).is_absent());
    assert!(parse(&String::from("2*")).is_absent());
}

#[test]
fn result_accessors() {
    let r = parse(&String::from("1"));
    assert!(r.is_present() && !r.is_absent() && !r.is_error());
    assert!(r.present().is_some());
    let e = parse(&String::from("1 2"));
    assert!(e.is_error() && !e.is_present());
    assert_eq!(parse(&String::from("1 2")).error(), Some(String::from("Extra input")));
    assert_eq!(e.error_index(), Some(2));
    assert_eq!(parse(&String::from("")).error_index(), None);
    assert!(parse(&String::from("")).present().is_none());
}
