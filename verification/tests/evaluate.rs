use cocoa::lexer::{lex, LexError};
use cocoa::machine::{Eval, Outcome};
use cocoa::parser::{parse, ParseError};
use cocoa::token::{numerals, with_values, FuncKind, OpKind};

#[derive(Debug, PartialEq)]
enum Failure {
    Lex(LexError),
    Parse(ParseError),
}

fn apply_bin(o: OpKind, a: f64, b: f64) -> f64 {
    match o {
        OpKind::Plus => a + b,
        OpKind::Minus => a - b,
        OpKind::Star => a * b,
        OpKind::Slash => a / b,
        OpKind::Modulo => a.rem_euclid(b),
        OpKind::Caret => a.powf(b),
        OpKind::Factorial => unreachable!("the factorial never reaches the caller"),
    }
}

fn apply_func(f: FuncKind, x: f64) -> f64 {
    match f {
        FuncKind::Sin => x.sin(),
        FuncKind::Cos => x.cos(),
        FuncKind::Tan => x.tan(),
        FuncKind::Asin => x.asin(),
        FuncKind::Acos => x.acos(),
        FuncKind::Atan => x.atan(),
        FuncKind::Deg => x.to_degrees(),
        FuncKind::Rad => x.to_radians(),
        FuncKind::Exp => x.exp(),
        FuncKind::Ln => x.ln(),
        FuncKind::Log => x.log10(),
        FuncKind::Sqrt => x.sqrt(),
    }
}

fn evaluate(input: &str) -> Result<f64, Failure> {
    evaluate_with(input, false)
}

fn evaluate_with(input: &str, implicit_mul: bool) -> Result<f64, Failure> {
    let cs: Vec<char> = input.chars().collect();
    let mut lexemes = lex(&cs).map_err(Failure::Lex)?;
    if implicit_mul {
        lexemes = cocoa::lexer::insert_implicit_mul(&lexemes);
    }
    let texts = numerals(&lexemes);
    let mut vals: Vec<u64> = Vec::new();
    for t in &texts {
        let s: String = t.iter().collect();
        let x: f64 = s.parse().expect("every scanned numeral is a valid decimal");
        vals.push(x.to_bits());
    }
    let tokens = with_values(&lexemes, &vals).expect("one value per numeral");
    let mut pos = 0;
    let prog = parse(&tokens, &mut pos, 0).map_err(Failure::Parse)?;
    let mut ev = Eval::new(prog).expect("the parser emits well-formed programs");
    let mut out = ev.run();
    loop {
        match out {
            Outcome::Done(bits) => return Ok(f64::from_bits(bits)),
            Outcome::Fail(e) => return Err(Failure::Parse(e)),
            Outcome::NeedBin(o, a, b) => {
                let r = apply_bin(o, f64::from_bits(a), f64::from_bits(b));
                out = ev.resume(r.to_bits());
            }
            Outcome::NeedCall(f, x) => {
                let r = apply_func(f, f64::from_bits(x));
                out = ev.resume(r.to_bits());
            }
        }
    }
}

#[test]
fn evaluates_two_plus_two() {
    assert_eq!(evaluate("2 + 2").unwrap(), 4.0);
}

#[test]
fn multiplication_binds_before_addition() {
    assert_eq!(evaluate("2 + 2 * 3").unwrap(), 8.0);
}

#[test]
fn caret_is_right_associative() {
    assert_eq!(evaluate("2 ^ 3 ^ 2").unwrap(), 512.0);
    assert_eq!(evaluate("(2 ^ 3) ^ 2").unwrap(), 64.0);
}

#[test]
fn factorial_of_five() {
    assert_eq!(evaluate("5!").unwrap(), 120.0);
}

#[test]
fn factorial_of_negative_fails() {
    assert_eq!(
        evaluate("(-1)!").unwrap_err(),
        Failure::Parse(ParseError::NegativeFactorial)
    );
}

#[test]
fn factorial_of_non_integer_fails() {
    assert_eq!(
        evaluate("2.5!").unwrap_err(),
        Failure::Parse(ParseError::NonIntegerFactorial)
    );
}

#[test]
fn sine_of_zero() {
    assert_eq!(evaluate("sin(0)").unwrap(), 0.0);
}

#[test]
fn log_of_exp_of_one() {
    assert!((evaluate("ln(exp(1))").unwrap() - 1.0).abs() < 1e-12);
}

#[test]
fn unclosed_paren_fails() {
    assert_eq!(
        evaluate("(2 + 3").unwrap_err(),
        Failure::Parse(ParseError::UnmatchedParen)
    );
}

#[test]
fn pi_evaluates_to_the_constant() {
    assert_eq!(evaluate("pi").unwrap(), std::f64::consts::PI);
}

#[test]
fn repeated_evaluation_is_bit_identical() {
    let text = "2 ^ 0.5 * sin(3) + 17.25 % 4 - pi";
    let a = evaluate(text).unwrap();
    let b = evaluate(text).unwrap();
    assert_eq!(a.to_bits(), b.to_bits());
}

#[test]
fn modulo_is_euclidean() {
    assert_eq!(evaluate("-7 % 3").unwrap(), 2.0);
    assert_eq!(evaluate("7 % 3").unwrap(), 1.0);
    // `rem_euclid` keeps the result in `[0, |divisor|)`.
    assert_eq!(evaluate("-7 % -3").unwrap(), 2.0);
}

#[test]
fn division_follows_ieee() {
    assert_eq!(evaluate("1 / 0").unwrap(), f64::INFINITY);
    assert_eq!(evaluate("-1 / 0").unwrap(), f64::NEG_INFINITY);
    assert!(evaluate("0 / 0").unwrap().is_nan());
}

#[test]
fn unary_signs() {
    assert_eq!(evaluate("+5").unwrap(), 5.0);
    assert_eq!(evaluate("-5").unwrap(), -5.0);
    assert_eq!(evaluate("3 - -2").unwrap(), 5.0);
    // Unary minus binds looser than the caret: -(2^2), not (-2)^2.
    assert_eq!(evaluate("-2 ^ 2").unwrap(), -4.0);
    // But tighter than multiplication: (-2) * 3.
    assert_eq!(evaluate("-2 * 3").unwrap(), -6.0);
}

#[test]
fn numeral_forms() {
    assert_eq!(evaluate(".5").unwrap(), 0.5);
    assert_eq!(evaluate("2.").unwrap(), 2.0);
    assert_eq!(evaluate(".").unwrap(), 0.0);
    assert_eq!(evaluate("10.25 * 4").unwrap(), 41.0);
}

#[test]
fn function_table_values() {
    assert!((evaluate("cos(0)").unwrap() - 1.0).abs() < 1e-15);
    assert!((evaluate("tan(0)").unwrap()).abs() < 1e-15);
    assert!((evaluate("asin(1)").unwrap() - std::f64::consts::FRAC_PI_2).abs() < 1e-15);
    assert!((evaluate("acos(1)").unwrap()).abs() < 1e-15);
    assert!((evaluate("atan(0)").unwrap()).abs() < 1e-15);
    assert!((evaluate("deg(pi)").unwrap() - 180.0).abs() < 1e-12);
    assert!((evaluate("rad(180)").unwrap() - std::f64::consts::PI).abs() < 1e-12);
    assert_eq!(evaluate("sqrt(9)").unwrap(), 3.0);
    assert_eq!(evaluate("log(100)").unwrap(), 2.0);
    assert_eq!(evaluate("exp(0)").unwrap(), 1.0);
}

#[test]
fn functions_bind_tighter_than_operators() {
    // sin(...) binds as a unit: 2 * sin(0) + 1 is 1.
    assert_eq!(evaluate("1 + 2 * sin(0)").unwrap(), 1.0);
}

#[test]
fn excess_closing_parens_stop_evaluation_silently() {
    // Kept for compatibility: the tail after the excess closer is
    // dropped, and the group's value is the answer.
    assert_eq!(evaluate("(2 + 3))) * 4").unwrap(), 5.0);
}

#[test]
fn trailing_input_after_function_call_is_dropped() {
    // The closing paren of a function's argument stops the caller's
    // loop too, so what follows the call at top level is left unread.
    assert_eq!(evaluate("sin(0) + 1").unwrap(), 0.0);
}

#[test]
fn factorial_binds_tighter_than_infix() {
    assert_eq!(evaluate("3! * 2").unwrap(), 12.0);
    assert_eq!(evaluate("2 + 3!").unwrap(), 8.0);
    assert_eq!(evaluate("3!!").unwrap(), 720.0);
}

#[test]
fn whole_float_factorials() {
    assert_eq!(evaluate("20!").unwrap(), 2432902008176640000.0);
    assert_eq!(evaluate("0!").unwrap(), 1.0);
}

#[test]
fn implicit_multiplication_is_opt_in() {
    // Without the variant a numeral cannot touch a parenthesis.
    assert_eq!(
        evaluate("2(3)").unwrap_err(),
        Failure::Parse(ParseError::UnexpectedToken(cocoa::token::Token::LParen))
    );
    // With it, the multiplication sign is inserted.
    assert_eq!(evaluate_with("2(3)", true).unwrap(), 6.0);
    assert_eq!(
        evaluate_with("2pi", true).unwrap(),
        2.0 * std::f64::consts::PI
    );
    // The documented odd interaction: 2pi/2pi reads as 2*pi/2*pi.
    let x = evaluate_with("2pi/2pi", true).unwrap();
    assert_eq!(x, std::f64::consts::PI * std::f64::consts::PI);
}

#[test]
fn lex_errors_surface() {
    assert_eq!(
        evaluate("2 @ 3").unwrap_err(),
        Failure::Lex(LexError::UnrecognizedChar('@'))
    );
}
