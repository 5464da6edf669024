use ligma::expr::{Expr, Fault};
use ligma::fbits;
use ligma::fun::Fun;
use ligma::lexer::{lex_program, Lexer};

fn run(src: &str) -> (String, Result<(), Fault>) {
    let mut lx = Lexer::new(src);
    let tokens = lex_program(&mut lx);
    let mut fun = Fun::new(tokens);
    let r = fun.eval();
    (fun.get_output(), r)
}

// --- the four total coercions, every variant ---

#[test]
fn coerce_string_totality() {
    assert_eq!(Expr::parse_exp_string(Expr::Bool(true)), "true");
    assert_eq!(Expr::parse_exp_string(Expr::Bool(false)), "false");
    assert_eq!(Expr::parse_exp_string(Expr::Int(-42)), "-42");
    assert_eq!(
        Expr::parse_exp_string(Expr::Float(2.5f64.to_bits())),
        "2.5"
    );
    assert_eq!(
        Expr::parse_exp_string(Expr::Str(String::from("hi"))),
        "hi"
    );
    assert_eq!(Expr::parse_exp_string(Expr::New), "tom is a genius");
}

#[test]
fn coerce_integer_totality() {
    assert_eq!(Expr::parse_exp_integer(Expr::Bool(true)), 1);
    assert_eq!(Expr::parse_exp_integer(Expr::Bool(false)), 0);
    assert_eq!(Expr::parse_exp_integer(Expr::Int(7)), 7);
    assert_eq!(Expr::parse_exp_integer(Expr::Float(3.9f64.to_bits())), 3);
    assert_eq!(
        Expr::parse_exp_integer(Expr::Float((-3.9f64).to_bits())),
        -3
    );
    // a string counts as its length, not a numeric parse
    assert_eq!(
        Expr::parse_exp_integer(Expr::Str(String::from("abc"))),
        3
    );
    assert_eq!(
        Expr::parse_exp_integer(Expr::Str(String::from("41"))),
        2
    );
    assert_eq!(Expr::parse_exp_integer(Expr::New), 69);
}

#[test]
fn coerce_float_totality() {
    assert_eq!(Expr::parse_exp_float(Expr::Bool(true)), 1.0f64.to_bits());
    assert_eq!(Expr::parse_exp_float(Expr::Bool(false)), 0.0f64.to_bits());
    assert_eq!(Expr::parse_exp_float(Expr::Int(-2)), (-2.0f64).to_bits());
    assert_eq!(
        Expr::parse_exp_float(Expr::Float(0.5f64.to_bits())),
        0.5f64.to_bits()
    );
    assert_eq!(
        Expr::parse_exp_float(Expr::Str(String::from("2.5"))),
        2.5f64.to_bits()
    );
    // a failed parse falls back to the fixed sentinel
    assert_eq!(
        Expr::parse_exp_float(Expr::Str(String::from("nope"))),
        420.0f64.to_bits()
    );
    assert_eq!(Expr::parse_exp_float(Expr::New), 420.0f64.to_bits());
}

#[test]
fn coerce_boolean_totality() {
    assert!(Expr::parse_exp_boolean(Expr::Bool(true)));
    assert!(!Expr::parse_exp_boolean(Expr::Bool(false)));
    assert!(Expr::parse_exp_boolean(Expr::Int(1)));
    assert!(!Expr::parse_exp_boolean(Expr::Int(0)));
    assert!(!Expr::parse_exp_boolean(Expr::Int(-5)));
    assert!(Expr::parse_exp_boolean(Expr::Float(0.5f64.to_bits())));
    assert!(!Expr::parse_exp_boolean(Expr::Float((-0.5f64).to_bits())));
    assert!(Expr::parse_exp_boolean(Expr::Str(String::from("x"))));
    assert!(!Expr::parse_exp_boolean(Expr::Str(String::new())));
    assert!(!Expr::parse_exp_boolean(Expr::New));
}

// --- the float wrappers against the native operations ---

#[test]
fn float_arithmetic_matches_native() {
    let a = 1.5f64;
    let b = 2.25f64;
    assert_eq!(fbits::float_add(a.to_bits(), b.to_bits()), (a + b).to_bits());
    assert_eq!(fbits::float_sub(a.to_bits(), b.to_bits()), (a - b).to_bits());
    assert_eq!(fbits::float_mul(a.to_bits(), b.to_bits()), (a * b).to_bits());
    assert_eq!(fbits::float_div(a.to_bits(), b.to_bits()), (a / b).to_bits());
    assert_eq!(
        fbits::float_rem(7.5f64.to_bits(), 2.0f64.to_bits()),
        (7.5f64 % 2.0f64).to_bits()
    );
    assert_eq!(
        fbits::float_rem((-7.5f64).to_bits(), 2.0f64.to_bits()),
        ((-7.5f64) % 2.0f64).to_bits()
    );
    assert_eq!(
        fbits::float_div(1.0f64.to_bits(), 0.0f64.to_bits()),
        f64::INFINITY.to_bits()
    );
}

#[test]
fn float_comparisons_match_native() {
    let one = 1.0f64.to_bits();
    let two = 2.0f64.to_bits();
    let nan = f64::NAN.to_bits();
    assert!(fbits::float_lt(one, two));
    assert!(!fbits::float_lt(two, one));
    assert!(fbits::float_gt(two, one));
    assert!(fbits::float_eq(one, one));
    assert!(!fbits::float_eq(nan, nan));
    assert!(!fbits::float_lt(nan, one));
    assert!(!fbits::float_gt(nan, one));
    // the two zeroes compare equal
    assert!(fbits::float_eq(0.0f64.to_bits(), (-0.0f64).to_bits()));
}

#[test]
fn float_conversions_match_native() {
    assert_eq!(fbits::float_of_i64(5), 5.0f64.to_bits());
    assert_eq!(fbits::float_of_i64(-3), (-3.0f64).to_bits());
    assert_eq!(fbits::float_to_i64(3.99f64.to_bits()), 3);
    assert_eq!(fbits::float_to_i64((-3.99f64).to_bits()), -3);
    assert_eq!(fbits::float_to_i64(f64::NAN.to_bits()), 0);
    assert_eq!(fbits::float_to_i64(f64::INFINITY.to_bits()), i64::MAX);
    assert_eq!(fbits::float_of_dec("2.5"), Some(2.5f64.to_bits()));
    assert_eq!(fbits::float_of_dec("0.1"), Some(0.1f64.to_bits()));
    assert_eq!(fbits::float_of_dec(""), None);
    assert_eq!(fbits::float_repr(2.5f64.to_bits()), "2.5");
    assert_eq!(fbits::float_repr(0.1f64.to_bits()), "0.1");
    assert_eq!(fbits::float_repr(5.0f64.to_bits()), "5");
    assert_eq!(fbits::float_repr(f64::NAN.to_bits()), "NaN");
    assert_eq!(fbits::float_repr(f64::INFINITY.to_bits()), "inf");
    assert_eq!(fbits::float_repr(f64::NEG_INFINITY.to_bits()), "-inf");
    assert_eq!(fbits::float_repr((-0.0f64).to_bits()), "-0");
}

// --- operator semantics through whole programs ---

#[test]
fn string_add_is_order_reversing() {
    let (out, r) = run("a=\"x\";b=\"y\";c=a+b;!c;");
    assert_eq!(out, "yx");
    assert!(r.is_ok());
}

#[test]
fn string_sub_drops_tail() {
    let (out, r) = run("a=\"abc\";b=a-1;!b;");
    assert_eq!(out, "ab");
    assert!(r.is_ok());
}

#[test]
fn string_mult_repeats() {
    let (out, r) = run("a=\"ab\";b=a*2;!b;");
    assert_eq!(out, "ababab");
    assert!(r.is_ok());
}

#[test]
fn string_div_reverses_tail() {
    let (out, r) = run("a=\"abcd\";b=a/2;!b;");
    assert_eq!(out, "dc");
    assert!(r.is_ok());
}

#[test]
fn string_mod_drops_by_printed_length() {
    // toString(12) is two characters long, so two are dropped.
    let (out, r) = run("a=\"abcd\";b=a%12;!b;");
    assert_eq!(out, "ab");
    assert!(r.is_ok());
}

#[test]
fn integer_division_truncates_toward_zero() {
    let (out, r) = run("x=7;y=x/2;!y;");
    assert_eq!(out, "3");
    assert!(r.is_ok());
    let (out2, _) = run("x=0-7;y=x/2;!y;");
    assert_eq!(out2, "-3");
}

#[test]
fn integer_remainder_follows_dividend() {
    let (out, _) = run("x=0-7;y=x%3;!y;");
    assert_eq!(out, "-1");
    let (out2, _) = run("x=7;y=x%3;!y;");
    assert_eq!(out2, "1");
}

#[test]
fn integer_addition_wraps() {
    let (out, r) = run("x=9223372036854775807;y=x+1;!y;");
    assert_eq!(out, "-9223372036854775808");
    assert!(r.is_ok());
}

#[test]
fn comparisons_and_logic() {
    let (out, _) = run("x=1<2;!x;");
    assert_eq!(out, "true");
    let (out2, _) = run("x=2<=2;!x;");
    assert_eq!(out2, "true");
    let (out3, _) = run("x=#T#^#T#;!x;");
    assert_eq!(out3, "false");
    let (out4, _) = run("x=#F#|#T#;!x;");
    assert_eq!(out4, "true");
    let (out5, _) = run("x=3&1;!x;");
    assert_eq!(out5, "true");
}

#[test]
fn bool_add_is_or_and_mult_is_and() {
    let (out, _) = run("x=#F#+#T#;!x;");
    assert_eq!(out, "true");
    let (out2, _) = run("x=#T#*#F#;!x;");
    assert_eq!(out2, "false");
}

#[test]
fn string_comparison_is_lexicographic() {
    let (out, _) = run("a=\"abc\";x=a<\"abd\";!x;");
    assert_eq!(out, "true");
    let (out2, _) = run("a=\"b\";x=a<\"ab\";!x;");
    assert_eq!(out2, "false");
}

#[test]
fn float_arithmetic_in_program() {
    let (out, r) = run("x=1.5;x=x+2.25;!x;");
    assert_eq!(out, "3.75");
    assert!(r.is_ok());
}

#[test]
fn right_operand_coerces_to_left_type() {
    // Int on the left: the string on the right counts as its length.
    let (out, _) = run("x=10;y=x+\"abc\";!y;");
    assert_eq!(out, "13");
    // String on the left: the int on the right is printed and prefixed.
    let (out2, _) = run("a=\"x\";b=a+7;!b;");
    assert_eq!(out2, "7x");
}
