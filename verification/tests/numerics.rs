use cocoa::machine::{Eval, Outcome};
use cocoa::math::{ufactorial, wfactorial};
use cocoa::numeric::{integer_value, is_negative, negate, uint_to_bits};
use cocoa::parser::{Instr, ParseError};
use cocoa::token::OpKind;

#[test]
fn ufactorial_small_values() {
    assert_eq!(ufactorial(0), 1);
    assert_eq!(ufactorial(1), 1);
    assert_eq!(ufactorial(5), 120);
    assert_eq!(ufactorial(7), 5040);
    assert_eq!(ufactorial(20), 2432902008176640000);
}

#[test]
fn wfactorial_matches_wrapping_product() {
    for n in 0u64..=20 {
        assert_eq!(wfactorial(n), ufactorial(n));
    }
    let mut acc: u64 = 1;
    for i in 1u64..=30 {
        acc = acc.wrapping_mul(i);
        assert_eq!(wfactorial(i), acc, "at {}", i);
    }
    // Far past the wrap the product is zero, and quickly so.
    assert_eq!(wfactorial(66), 0);
    assert_eq!(wfactorial(1000), 0);
    assert_eq!(wfactorial(u64::MAX), 0);
}

#[test]
fn negate_flips_the_sign_bit_exactly() {
    for x in [0.0f64, -0.0, 1.0, -2.5, 1e300, 5e-324, f64::INFINITY] {
        assert_eq!(negate(x.to_bits()), (-x).to_bits());
        assert_eq!(negate((-x).to_bits()), x.to_bits());
    }
    let nan = f64::NAN.to_bits();
    assert_eq!(negate(negate(nan)), nan);
}

#[test]
fn is_negative_matches_the_sign() {
    assert!(!is_negative(0.0f64.to_bits()));
    assert!(is_negative((-0.0f64).to_bits()));
    assert!(is_negative((-1.5f64).to_bits()));
    assert!(!is_negative(7.0f64.to_bits()));
    assert!(is_negative(f64::NEG_INFINITY.to_bits()));
}

#[test]
fn integer_value_matches_cast_semantics() {
    let wholes = [
        0.0f64,
        1.0,
        2.0,
        120.0,
        4503599627370496.0,  // 2^52
        9007199254740992.0,  // 2^53
        9007199254740994.0,  // 2^53 + 2
        18446744073709549568.0, // largest double below 2^64
        1e300,
        f64::MAX,
    ];
    for x in wholes {
        assert_eq!(integer_value(x.to_bits()), Some(x as u64), "{}", x);
    }
    let not_wholes = [0.5f64, 2.5, 0.1, 5e-324, f64::INFINITY, f64::NAN];
    for x in not_wholes {
        assert_eq!(integer_value(x.to_bits()), None, "{}", x);
    }
    // Negative values, negative zero included, are refused outright.
    assert_eq!(integer_value((-1.0f64).to_bits()), None);
    assert_eq!(integer_value((-0.0f64).to_bits()), None);
}

#[test]
fn uint_to_bits_matches_cast_semantics() {
    let values = [
        0u64,
        1,
        2,
        3,
        120,
        5040,
        2432902008176640000,  // 20!
        4503599627370496,     // 2^52
        9007199254740992,     // 2^53
        9007199254740993,     // 2^53 + 1: tie, rounds to even
        9007199254740994,
        9007199254740995,     // tie, rounds up to even
        18014398509481985,    // 2^54 + 1
        18014398509481990,
        1311768467463790320,
        u64::MAX - 1024,
        u64::MAX,
    ];
    for n in values {
        assert_eq!(uint_to_bits(n), (n as f64).to_bits(), "{}", n);
    }
    let mut n: u64 = 1;
    for _ in 0..63 {
        n = n.wrapping_mul(2).wrapping_add(1);
        assert_eq!(uint_to_bits(n), (n as f64).to_bits(), "{}", n);
        assert_eq!(uint_to_bits(n - 1), ((n - 1) as f64).to_bits());
    }
}

#[test]
fn machine_runs_a_sum() {
    let prog = vec![
        Instr::Push(2.0f64.to_bits()),
        Instr::Push(3.0f64.to_bits()),
        Instr::Bin(OpKind::Plus),
    ];
    let mut ev = Eval::new(prog).unwrap();
    let out = ev.run();
    assert_eq!(
        out,
        Outcome::NeedBin(OpKind::Plus, 2.0f64.to_bits(), 3.0f64.to_bits())
    );
    let out = ev.resume(5.0f64.to_bits());
    assert_eq!(out, Outcome::Done(5.0f64.to_bits()));
}

#[test]
fn machine_rejects_ill_formed_programs() {
    assert!(Eval::new(vec![Instr::Bin(OpKind::Plus)]).is_none());
    assert!(Eval::new(vec![Instr::Neg]).is_none());
    assert!(Eval::new(vec![]).is_none());
    assert!(Eval::new(vec![Instr::Push(0), Instr::Push(0)]).is_none());
    assert!(Eval::new(vec![Instr::Push(0), Instr::Fact]).is_some());
}

#[test]
fn machine_computes_factorial_itself() {
    let mut ev = Eval::new(vec![Instr::Push(5.0f64.to_bits()), Instr::Fact]).unwrap();
    assert_eq!(ev.run(), Outcome::Done(120.0f64.to_bits()));
    let mut ev = Eval::new(vec![Instr::Push(0.0f64.to_bits()), Instr::Fact]).unwrap();
    assert_eq!(ev.run(), Outcome::Done(1.0f64.to_bits()));
}

#[test]
fn machine_factorial_domain_errors() {
    let mut ev = Eval::new(vec![Instr::Push((-1.0f64).to_bits()), Instr::Fact]).unwrap();
    assert_eq!(ev.run(), Outcome::Fail(ParseError::NegativeFactorial));
    let mut ev = Eval::new(vec![Instr::Push(2.5f64.to_bits()), Instr::Fact]).unwrap();
    assert_eq!(ev.run(), Outcome::Fail(ParseError::NonIntegerFactorial));
    // Negative zero carries a sign.
    let mut ev = Eval::new(vec![Instr::Push((-0.0f64).to_bits()), Instr::Fact]).unwrap();
    assert_eq!(ev.run(), Outcome::Fail(ParseError::NegativeFactorial));
}

#[test]
fn machine_factorial_wraps_past_twenty() {
    // 21! no longer fits in 64 bits; the factorial is the wrapping
    // product, encoded as the nearest double.
    let mut acc: u64 = 1;
    for i in 1u64..=21 {
        acc = acc.wrapping_mul(i);
    }
    let mut ev = Eval::new(vec![Instr::Push(21.0f64.to_bits()), Instr::Fact]).unwrap();
    assert_eq!(ev.run(), Outcome::Done((acc as f64).to_bits()));
}

#[test]
fn machine_negation_is_exact() {
    let mut ev = Eval::new(vec![Instr::Push(2.0f64.to_bits()), Instr::Neg]).unwrap();
    assert_eq!(ev.run(), Outcome::Done((-2.0f64).to_bits()));
}
