use estel::errors::LiteralOpError;
use estel::scope::Scope;
use estel::text::{decimal, repeat};
use estel::token::Operator;
use estel::value::{equal_bits, is_zero, less_bits, FloatOp, Literal, Outcome, Reply, Request};

fn number(n: i32) -> Literal {
    Literal::Number(n)
}

fn string(s: &str) -> Literal {
    Literal::String(s.to_string())
}

fn float(value: f32) -> Literal {
    Literal::Float(value.to_bits())
}

fn value(literal: Literal) -> Outcome {
    Outcome::Value(literal)
}

fn rejected() -> Outcome {
    Outcome::Error(LiteralOpError::InvalidTypeError)
}

fn samples() -> Vec<f32> {
    vec![
        0.0,
        -0.0,
        1.0,
        -1.0,
        0.5,
        -0.5,
        2.0,
        1.5,
        -1.5,
        16777216.0,
        -16777217.0,
        3.4028235e38,
        -3.4028235e38,
        1e-45,
        -1e-45,
        1.1754944e-38,
        f32::INFINITY,
        f32::NEG_INFINITY,
        f32::NAN,
        -f32::NAN,
    ]
}

#[test]
fn float_order_on_bits_is_that_of_the_floats() {
    for a in samples() {
        for b in samples() {
            assert_eq!(a < b, less_bits(a.to_bits(), b.to_bits()), "{} < {}", a, b);
            assert_eq!(a == b, equal_bits(a.to_bits(), b.to_bits()), "{} == {}", a, b);
        }
        assert_eq!(a == 0.0, is_zero(a.to_bits()), "{} == 0", a);
        assert_eq!(Ok(float(-a)), float(a).negate(), "-{}", a);
    }
}

#[test]
fn sum_of_numbers_and_text() {
    assert_eq!(value(number(5)), number(2).add(number(3)));
    assert_eq!(value(string("2x")), number(2).add(string("x")));
    assert_eq!(value(string("x2")), string("x").add(number(2)));
    assert_eq!(value(string("x-2")), string("x").add(number(-2)));
    assert_eq!(value(string("xy")), string("x").add(string("y")));
    assert_eq!(value(string("xtrue")), string("x").add(Literal::Bool(true)));
    assert_eq!(value(string("falsex")), Literal::Bool(false).add(string("x")));
    assert_eq!(rejected(), Literal::Bool(false).add(number(1)));
    assert_eq!(rejected(), number(1).add(Literal::Bool(false)));
    assert_eq!(rejected(), float(1.0).add(Literal::Bool(false)));
    assert_eq!(rejected(), Literal::Bool(true).add(Literal::Bool(false)));
    assert_eq!(rejected(), Literal::Bool(true).add(float(1.0)));
}

#[test]
fn sum_with_a_float_is_asked_of_the_host() {
    let half = 0.5f32.to_bits();
    let two = 2.0f32.to_bits();
    assert_eq!(
        Outcome::Left(Request::Convert(3), Operator::Add, float(0.5)),
        number(3).add(float(0.5))
    );
    assert_eq!(
        Outcome::Right(float(0.5), Operator::Add, Request::Convert(3)),
        float(0.5).add(number(3))
    );
    assert_eq!(
        Outcome::Whole(Request::Arith(FloatOp::Add, half, two)),
        float(0.5).add(float(2.0))
    );
    assert_eq!(
        Outcome::Right(string("x"), Operator::Add, Request::Show(half)),
        string("x").add(float(0.5))
    );
    assert_eq!(
        Outcome::Left(Request::Show(half), Operator::Add, string("x")),
        float(0.5).add(string("x"))
    );
}

#[test]
fn difference_product_and_remainder() {
    assert_eq!(value(number(-1)), number(2).sub(number(3)));
    assert_eq!(rejected(), number(2).sub(string("x")));
    assert_eq!(rejected(), string("x").sub(string("x")));
    assert_eq!(rejected(), Literal::Bool(true).sub(number(1)));
    assert_eq!(
        Outcome::Whole(Request::Arith(FloatOp::Sub, 1.0f32.to_bits(), 2.0f32.to_bits())),
        float(1.0).sub(float(2.0))
    );
    assert_eq!(value(number(6)), number(2).mul(number(3)));
    assert_eq!(rejected(), string("x").mul(string("y")));
    assert_eq!(rejected(), string("x").mul(float(2.0)));
    assert_eq!(rejected(), Literal::Bool(true).mul(number(2)));
    assert_eq!(
        Outcome::Left(Request::Convert(2), Operator::Mul, float(2.0)),
        number(2).mul(float(2.0))
    );
    assert_eq!(value(number(1)), number(7).modulo(number(3)));
    assert_eq!(value(number(-1)), number(-7).modulo(number(3)));
    assert_eq!(value(number(1)), number(7).modulo(number(-3)));
    assert_eq!(value(number(0)), number(i32::MIN).modulo(number(-1)));
    assert_eq!(Outcome::Error(LiteralOpError::DivByZeroError), number(7).modulo(number(0)));
    assert_eq!(Outcome::Error(LiteralOpError::DivByZeroError), float(7.0).modulo(float(-0.0)));
    assert_eq!(rejected(), number(7).modulo(string("x")));
    assert_eq!(
        Outcome::Right(float(7.0), Operator::Mod, Request::Convert(2)),
        float(7.0).modulo(number(2))
    );
}

#[test]
fn string_times_number_commutes() {
    for count in [-3, 0, 1, 2, 5] {
        let expected = value(string(&"Hi".repeat(count.max(0) as usize)));
        assert_eq!(expected, string("Hi").mul(number(count)));
        assert_eq!(expected, number(count).mul(string("Hi")));
    }
    assert_eq!(value(string("HiHiHi")), string("Hi").mul(number(3)));
    assert_eq!("ababab", repeat("ab", 3));
    assert_eq!("", repeat("ab", 0));
    assert_eq!("", repeat("ab", -4));
}

#[test]
fn division_never_gives_a_number() {
    assert_eq!(
        Outcome::Left(Request::Convert(4), Operator::Div, number(2)),
        number(4).div(number(2))
    );
    assert_eq!(
        Outcome::Right(float(4.0), Operator::Div, Request::Convert(2)),
        float(4.0).div(number(2))
    );
    assert_eq!(
        Outcome::Whole(Request::Arith(FloatOp::Div, 4.0f32.to_bits(), 2.0f32.to_bits())),
        float(4.0).div(float(2.0))
    );
    assert_eq!(rejected(), string("4").div(number(2)));
    assert_eq!(rejected(), number(4).div(Literal::Bool(true)));
    assert_eq!(rejected(), string("4").div(number(0)));
}

#[test]
fn division_by_zero_is_rejected() {
    let by_zero = Outcome::Error(LiteralOpError::DivByZeroError);
    assert_eq!(by_zero, number(5).div(number(0)));
    assert_eq!(by_zero, float(5.0).div(number(0)));
    assert_eq!(by_zero, number(5).div(float(0.0)));
    assert_eq!(by_zero, float(5.0).div(float(0.0)));
    assert_eq!(by_zero, float(5.0).div(float(-0.0)));
    assert_eq!(by_zero, number(0).div(number(0)));
}

#[test]
fn comparisons() {
    assert_eq!(value(Literal::Bool(true)), number(3).greater(number(2)));
    assert_eq!(value(Literal::Bool(false)), number(2).greater(number(2)));
    assert_eq!(value(Literal::Bool(true)), number(2).less(number(3)));
    assert_eq!(value(Literal::Bool(true)), number(2).greater_equal(number(2)));
    assert_eq!(value(Literal::Bool(false)), number(1).greater_equal(number(2)));
    assert_eq!(value(Literal::Bool(true)), number(2).less_equal(number(2)));
    assert_eq!(value(Literal::Bool(false)), number(3).less_equal(number(2)));
    assert_eq!(value(Literal::Bool(true)), float(2.5).greater(float(-1.0)));
    assert_eq!(value(Literal::Bool(true)), float(-2.5).less(float(-1.0)));
    assert_eq!(value(Literal::Bool(true)), float(0.0).greater_equal(float(-0.0)));
    assert_eq!(value(Literal::Bool(true)), float(0.0).less_equal(float(-0.0)));
    assert_eq!(value(Literal::Bool(false)), float(f32::NAN).less_equal(float(f32::NAN)));
    assert_eq!(value(Literal::Bool(false)), float(f32::NAN).greater_equal(float(1.0)));
    assert_eq!(rejected(), string("a").greater(string("b")));
    assert_eq!(rejected(), number(1).less(Literal::Bool(true)));
    assert_eq!(rejected(), Literal::Bool(true).less_equal(Literal::Bool(true)));
    assert_eq!(rejected(), float(1.0).greater_equal(string("")));
    assert_eq!(
        Outcome::Left(Request::Convert(1), Operator::Greater, float(2.0)),
        number(1).greater(float(2.0))
    );
    assert_eq!(
        Outcome::Right(float(2.0), Operator::Less, Request::Convert(1)),
        float(2.0).less(number(1))
    );
    assert_eq!(
        Outcome::Left(Request::Convert(1), Operator::Greater, float(2.0)),
        number(1).greater_equal(float(2.0))
    );
    assert_eq!(
        Outcome::Right(float(2.0), Operator::Less, Request::Convert(1)),
        float(2.0).less_equal(number(1))
    );
}

#[test]
fn equality_needs_equal_kind_and_content() {
    let yes = Literal::Bool(true);
    let no = Literal::Bool(false);
    assert_eq!(yes, number(1).equal(number(1)));
    assert_eq!(no, number(1).equal(number(2)));
    assert_eq!(no, number(1).equal(float(1.0)));
    assert_eq!(no, number(1).equal(string("1")));
    assert_eq!(no, number(1).equal(Literal::Bool(true)));
    assert_eq!(yes, string("a").equal(string("a")));
    assert_eq!(no, string("a").equal(string("b")));
    assert_eq!(yes, float(1.5).equal(float(1.5)));
    assert_eq!(yes, float(0.0).equal(float(-0.0)));
    assert_eq!(no, float(f32::NAN).equal(float(f32::NAN)));
    assert_eq!(yes, Literal::Bool(false).equal(Literal::Bool(false)));
    assert_eq!(no, number(1).not_equal(number(1)));
    assert_eq!(yes, number(1).not_equal(float(1.0)));
    assert_eq!(yes, float(f32::NAN).not_equal(float(f32::NAN)));
}

#[test]
fn logic_goes_by_truth() {
    assert!(number(1).is_truthy());
    assert!(number(-1).is_truthy());
    assert!(!number(0).is_truthy());
    assert!(float(0.1).is_truthy());
    assert!(float(f32::NAN).is_truthy());
    assert!(!float(0.0).is_truthy());
    assert!(!float(-0.0).is_truthy());
    assert!(string(" ").is_truthy());
    assert!(!string("").is_truthy());
    assert!(Literal::Bool(true).is_truthy());
    assert!(!Literal::Bool(false).is_truthy());
    assert_eq!(Literal::Bool(true), number(1).and(string("x")));
    assert_eq!(Literal::Bool(false), number(1).and(string("")));
    assert_eq!(Literal::Bool(true), number(0).or(string("x")));
    assert_eq!(Literal::Bool(false), number(0).or(float(0.0)));
    assert_eq!(Literal::Bool(true), number(0).not());
    assert_eq!(Literal::Bool(false), string("x").not());
}

#[test]
fn negation() {
    assert_eq!(Ok(number(-5)), number(5).negate());
    assert_eq!(Ok(number(i32::MIN)), number(i32::MIN).negate());
    assert_eq!(Ok(float(-2.5)), float(2.5).negate());
    assert_eq!(Ok(float(0.0)), float(-0.0).negate());
    assert_eq!(Err(LiteralOpError::InvalidTypeError), string("x").negate());
    assert_eq!(Err(LiteralOpError::InvalidTypeError), Literal::Bool(true).negate());
}

#[test]
fn operators_are_dispatched() {
    assert_eq!(value(number(5)), number(2).binary(Operator::Add, number(3)));
    assert_eq!(value(number(-1)), number(2).binary(Operator::Sub, number(3)));
    assert_eq!(value(number(6)), number(2).binary(Operator::Mul, number(3)));
    assert_eq!(value(number(2)), number(2).binary(Operator::Mod, number(3)));
    assert_eq!(
        Outcome::Left(Request::Convert(2), Operator::Div, number(3)),
        number(2).binary(Operator::Div, number(3))
    );
    assert_eq!(value(Literal::Bool(false)), number(2).binary(Operator::Greater, number(3)));
    assert_eq!(value(Literal::Bool(true)), number(2).binary(Operator::Less, number(3)));
    assert_eq!(value(Literal::Bool(false)), number(2).binary(Operator::GreaterEqual, number(3)));
    assert_eq!(value(Literal::Bool(true)), number(2).binary(Operator::LessEqual, number(3)));
    assert_eq!(value(Literal::Bool(false)), number(2).binary(Operator::Equal, number(3)));
    assert_eq!(value(Literal::Bool(true)), number(2).binary(Operator::NotEqual, number(3)));
    assert_eq!(value(Literal::Bool(true)), number(2).binary(Operator::And, number(3)));
    assert_eq!(value(Literal::Bool(true)), number(0).binary(Operator::Or, number(3)));
}

#[test]
fn text_of_values() {
    assert_eq!(Some("0".to_string()), number(0).to_string());
    assert_eq!(Some("-2147483648".to_string()), number(i32::MIN).to_string());
    assert_eq!(Some("2147483647".to_string()), number(i32::MAX).to_string());
    assert_eq!(Some("raw".to_string()), string("raw").to_string());
    assert_eq!(Some("true".to_string()), Literal::Bool(true).to_string());
    assert_eq!(Some("false".to_string()), Literal::Bool(false).to_string());
    assert_eq!(None, float(1.0).to_string());
    for n in [0, 7, 10, 99, 100, 12345, -1, -10, -987654321] {
        assert_eq!(n.to_string(), decimal(n));
    }
}

#[test]
fn replies_are_taken_by_kind() {
    let bits = Reply::Bits(1.5f32.to_bits());
    let text = || Reply::Text("1.5".to_string());
    assert_eq!(Some(float(1.5)), Request::Convert(1).answered(Reply::Bits(1.5f32.to_bits())));
    assert_eq!(Some(float(1.5)), Request::Parse("1.5".to_string()).answered(bits));
    assert_eq!(
        Some(float(1.5)),
        Request::Arith(FloatOp::Add, 0, 0).answered(Reply::Bits(1.5f32.to_bits()))
    );
    assert_eq!(Some(string("1.5")), Request::Show(0).answered(text()));
    assert_eq!(None, Request::Show(0).answered(Reply::Bits(0)));
    assert_eq!(None, Request::Convert(1).answered(text()));
    assert_eq!(None, Request::Parse(String::new()).answered(text()));
    assert_eq!(None, Request::Arith(FloatOp::Rem, 0, 0).answered(text()));
}

#[test]
fn scope_from_pairs_keeps_the_later_binding() {
    let scope = Scope::from_pairs(vec![
        ("a".to_string(), number(1)),
        ("b".to_string(), string("x")),
        ("a".to_string(), number(3)),
    ]);
    assert_eq!(2, scope.len());
    assert_eq!(Some(&number(3)), scope.get_var(&"a".to_string()));
    assert_eq!(Some(&string("x")), scope.get_var(&"b".to_string()));
    assert_eq!(0, Scope::from_pairs(vec![]).len());
}

#[test]
fn scope_binds_each_name_once() {
    let mut scope = Scope::new();
    assert_eq!(0, scope.len());
    assert!(!scope.contains(&"a".to_string()));
    assert_eq!(None, scope.get_var(&"a".to_string()));
    scope.insert_var("a".to_string(), number(1));
    scope.insert_var("b".to_string(), string("x"));
    scope.insert_var("a".to_string(), number(2));
    assert_eq!(2, scope.len());
    assert!(scope.contains(&"a".to_string()));
    assert_eq!(Some(&number(2)), scope.get_var(&"a".to_string()));
    assert_eq!(Some(&string("x")), scope.get_var(&"b".to_string()));
    assert_eq!(None, scope.get_var(&"c".to_string()));
}
