use rpn_eval::executor::{ErrorKind, Executor, ParseError};
use rpn_eval::expr::{operator_from_char, Expr, Op};
use rpn_eval::literal::Literal;

/// Reads a literal as a float, digit by digit, the way a calculator
/// accumulates what is typed.
fn literal_value(l: &Literal) -> f64 {
    let int_len = l.digits.len() - l.scale;
    let mut v = 0.0f64;
    for (i, d) in l.digits.iter().enumerate() {
        if i < int_len {
            v = v * 10.0 + (*d as f64);
        } else {
            let p = -((i - int_len + 1) as i32);
            v += (*d as f64) * 10.0f64.powi(p);
        }
    }
    v
}

fn value(e: &Expr) -> f64 {
    match e {
        Expr::Number(l) => literal_value(l),
        Expr::Apply(op, a, b) => {
            let (x, y) = (value(a), value(b));
            match op {
                Op::Add => x + y,
                Op::Sub => x - y,
                Op::Mul => x * y,
                Op::Div => x / y,
                Op::Pow => x.powf(y),
            }
        }
    }
}

fn run(text: &str) -> Result<Vec<f64>, ParseError> {
    let mut ex = Executor::new();
    ex.parse(text)?;
    Ok(ex.stack().iter().map(value).collect())
}

fn lit(digits: &[u8], scale: usize) -> Expr {
    Expr::Number(Literal { digits: digits.to_vec(), scale })
}

fn err(index: usize, kind: ErrorKind) -> Result<Vec<f64>, ParseError> {
    Err(ParseError { index, kind })
}

#[test]
fn integer_digits_accumulate() {
    let mut ex = Executor::new();
    assert_eq!(ex.parse("42"), Ok(()));
    assert_eq!(ex.stack(), &vec![lit(&[4, 2], 0)]);
    assert_eq!(run("42"), Ok(vec![42.0]));
}

#[test]
fn every_digit_is_accepted() {
    assert_eq!(run("1234567890"), Ok(vec![1234567890.0]));
    assert_eq!(run("9"), Ok(vec![9.0]));
}

#[test]
fn decimal_literal() {
    let mut ex = Executor::new();
    assert_eq!(ex.parse("3.14"), Ok(()));
    assert_eq!(ex.stack(), &vec![lit(&[3, 1, 4], 2)]);
    let v = run("3.14").unwrap();
    assert_eq!(v.len(), 1);
    assert!((v[0] - 3.14).abs() < 1e-12);
}

#[test]
fn trailing_point_keeps_integer() {
    let mut ex = Executor::new();
    assert_eq!(ex.parse("5."), Ok(()));
    assert_eq!(ex.stack(), &vec![lit(&[5], 0)]);
}

#[test]
fn leading_point_starts_integer_part() {
    let mut ex = Executor::new();
    assert_eq!(ex.parse(".55"), Ok(()));
    assert_eq!(ex.stack(), &vec![lit(&[5, 5], 1)]);
    assert_eq!(run(".55"), Ok(vec![5.5]));
}

#[test]
fn second_point_in_number_fails() {
    assert_eq!(run("1.2.3"), err(3, ErrorKind::DuplicateDecimal { fraction_digits: 1 }));
    assert_eq!(run("7.."), err(2, ErrorKind::DuplicateDecimal { fraction_digits: 0 }));
}

#[test]
fn point_after_flush_is_new_number() {
    let mut ex = Executor::new();
    assert_eq!(ex.parse("1.5 2.5"), Ok(()));
    assert_eq!(ex.stack(), &vec![lit(&[1, 5], 1), lit(&[2, 5], 1)]);
}

#[test]
fn subtraction_takes_earlier_operand_first() {
    let mut ex = Executor::new();
    assert_eq!(ex.parse("5 3 -"), Ok(()));
    let expected = Expr::Apply(Op::Sub, Box::new(lit(&[5], 0)), Box::new(lit(&[3], 0)));
    assert_eq!(ex.stack(), &vec![expected]);
    assert_eq!(run("5 3 -"), Ok(vec![2.0]));
}

#[test]
fn each_operator() {
    assert_eq!(run("2 3 +"), Ok(vec![5.0]));
    assert_eq!(run("2 3 *"), Ok(vec![6.0]));
    let q = run("2 3 /").unwrap();
    assert_eq!(q.len(), 1);
    assert!((q[0] - 2.0 / 3.0).abs() < 1e-12);
    assert_eq!(run("2 3 ^"), Ok(vec![8.0]));
}

#[test]
fn operator_characters() {
    assert_eq!(operator_from_char('+'), Some(Op::Add));
    assert_eq!(operator_from_char('-'), Some(Op::Sub));
    assert_eq!(operator_from_char('*'), Some(Op::Mul));
    assert_eq!(operator_from_char('/'), Some(Op::Div));
    assert_eq!(operator_from_char('^'), Some(Op::Pow));
    assert_eq!(operator_from_char('%'), None);
}

#[test]
fn operator_on_empty_stack_fails() {
    assert_eq!(run("+"), err(0, ErrorKind::InsufficientOperands));
}

#[test]
fn operator_on_one_operand_fails_and_drops_it() {
    let mut ex = Executor::new();
    assert_eq!(
        ex.parse("5 +"),
        Err(ParseError { index: 2, kind: ErrorKind::InsufficientOperands })
    );
    assert!(ex.stack().is_empty());
}

#[test]
fn number_before_operator_is_flushed() {
    let mut a = Executor::new();
    let mut b = Executor::new();
    assert_eq!(a.parse("2 5+"), Ok(()));
    assert_eq!(b.parse("2 5 +"), Ok(()));
    assert_eq!(a.stack(), b.stack());
    assert_eq!(run("2 5+"), Ok(vec![7.0]));
    assert_eq!(run("5+"), err(1, ErrorKind::InsufficientOperands));
}

#[test]
fn unknown_character_fails() {
    assert_eq!(run("5 a"), err(2, ErrorKind::UnknownCharacter('a')));
    assert_eq!(run("1\r"), err(1, ErrorKind::UnknownCharacter('\r')));
}

#[test]
fn error_index_counts_characters() {
    assert_eq!(run("é"), err(0, ErrorKind::UnknownCharacter('é')));
    assert_eq!(run("12 ü"), err(3, ErrorKind::UnknownCharacter('ü')));
}

#[test]
fn repeated_whitespace_is_harmless() {
    let mut a = Executor::new();
    let mut b = Executor::new();
    assert_eq!(a.parse("5  \t\n3"), Ok(()));
    assert_eq!(b.parse("5 3"), Ok(()));
    assert_eq!(a.stack(), b.stack());
    assert_eq!(a.stack().len(), 2);
    assert_eq!(run("  \0 "), Ok(vec![]));
}

#[test]
fn empty_input() {
    assert_eq!(run(""), Ok(vec![]));
}

#[test]
fn trailing_number_is_flushed() {
    assert_eq!(run("1 2 + 3"), Ok(vec![3.0, 3.0]));
}

#[test]
fn input_line_with_newline() {
    assert_eq!(run("2 3 +\n"), Ok(vec![5.0]));
}

#[test]
fn nested_expression() {
    assert_eq!(run("1 2 + 3 *"), Ok(vec![9.0]));
    assert_eq!(run("10 2 3 ^ -"), Ok(vec![2.0]));
}

#[test]
fn division_by_zero_is_no_error() {
    let v = run("1 0 /").unwrap();
    assert!(v[0].is_infinite());
}

#[test]
fn parse_continues_on_same_state() {
    let mut ex = Executor::new();
    assert_eq!(ex.parse("4"), Ok(()));
    assert_eq!(ex.parse("6 *"), Ok(()));
    assert_eq!(ex.stack().iter().map(value).collect::<Vec<_>>(), vec![24.0]);
}

#[test]
fn manual_steps() {
    let mut ex = Executor::new();
    ex.fold_digit(1);
    ex.fold_digit(2);
    assert_eq!(ex.set_decimal(), Ok(()));
    ex.fold_digit(5);
    assert_eq!(ex.set_decimal(), Err(ErrorKind::DuplicateDecimal { fraction_digits: 1 }));
    ex.reset();
    ex.reset();
    assert_eq!(ex.stack(), &vec![lit(&[1, 2, 5], 1)]);
    ex.push_flushed(lit(&[2], 0));
    assert_eq!(ex.apply_operation(Op::Mul), Ok(()));
    assert_eq!(ex.stack().iter().map(value).collect::<Vec<_>>(), vec![25.0]);
    assert_eq!(ex.process_character('x', 9), Err(ParseError { index: 9, kind: ErrorKind::UnknownCharacter('x') }));
}

#[test]
fn literal_steps() {
    let mut l = Literal::from_digit(7);
    l.fold_digit(3, false);
    l.fold_digit(1, true);
    assert_eq!(l, Literal { digits: vec![7, 3, 1], scale: 1 });
}
