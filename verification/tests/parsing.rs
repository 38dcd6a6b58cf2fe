use cocoa::parser::{parse, Instr, ParseError};
use cocoa::token::{Bindable, FuncKind, OpKind, Token};

fn num(x: f64) -> Token {
    Token::Number(x.to_bits())
}

#[test]
fn parse_addition_to_postfix() {
    let tokens = vec![num(2.0), Token::Op(OpKind::Plus), num(2.0)];
    let mut pos = 0;
    let prog = parse(&tokens, &mut pos, 0).unwrap();
    assert_eq!(pos, 3);
    assert_eq!(
        prog,
        vec![
            Instr::Push(2.0f64.to_bits()),
            Instr::Push(2.0f64.to_bits()),
            Instr::Bin(OpKind::Plus),
        ]
    );
}

#[test]
fn parse_precedence_orders_the_program() {
    // 2 + 2 * 3 becomes 2 2 3 * +
    let tokens = vec![
        num(2.0),
        Token::Op(OpKind::Plus),
        num(2.0),
        Token::Op(OpKind::Star),
        num(3.0),
    ];
    let mut pos = 0;
    let prog = parse(&tokens, &mut pos, 0).unwrap();
    assert_eq!(
        prog,
        vec![
            Instr::Push(2.0f64.to_bits()),
            Instr::Push(2.0f64.to_bits()),
            Instr::Push(3.0f64.to_bits()),
            Instr::Bin(OpKind::Star),
            Instr::Bin(OpKind::Plus),
        ]
    );
}

#[test]
fn parse_caret_groups_to_the_right() {
    // 2 ^ 3 ^ 2 becomes 2 3 2 ^ ^
    let tokens = vec![
        num(2.0),
        Token::Op(OpKind::Caret),
        num(3.0),
        Token::Op(OpKind::Caret),
        num(2.0),
    ];
    let mut pos = 0;
    let prog = parse(&tokens, &mut pos, 0).unwrap();
    assert_eq!(
        prog,
        vec![
            Instr::Push(2.0f64.to_bits()),
            Instr::Push(3.0f64.to_bits()),
            Instr::Push(2.0f64.to_bits()),
            Instr::Bin(OpKind::Caret),
            Instr::Bin(OpKind::Caret),
        ]
    );
}

#[test]
fn parse_unclosed_paren_fails() {
    // ( 2 + 3
    let tokens = vec![Token::LParen, num(2.0), Token::Op(OpKind::Plus), num(3.0)];
    let mut pos = 0;
    assert_eq!(
        parse(&tokens, &mut pos, 0).unwrap_err(),
        ParseError::UnmatchedParen
    );
}

#[test]
fn parse_function_needs_paren() {
    let tokens = vec![Token::Func(FuncKind::Sin), num(0.0)];
    let mut pos = 0;
    assert_eq!(
        parse(&tokens, &mut pos, 0).unwrap_err(),
        ParseError::ExpectedParenAfterFunc(FuncKind::Sin)
    );
}

#[test]
fn parse_empty_input_fails() {
    let tokens: Vec<Token> = vec![];
    let mut pos = 0;
    assert_eq!(
        parse(&tokens, &mut pos, 0).unwrap_err(),
        ParseError::UnexpectedEnd
    );
}

#[test]
fn parse_prefix_star_is_an_error() {
    let tokens = vec![Token::Op(OpKind::Star), num(2.0)];
    let mut pos = 0;
    assert_eq!(
        parse(&tokens, &mut pos, 0).unwrap_err(),
        ParseError::UnexpectedOperator(OpKind::Star)
    );
}

#[test]
fn parse_number_then_paren_is_an_error() {
    // There is no implicit multiplication: 2 (3) is rejected.
    let tokens = vec![num(2.0), Token::LParen, num(3.0), Token::RParen];
    let mut pos = 0;
    assert_eq!(
        parse(&tokens, &mut pos, 0).unwrap_err(),
        ParseError::UnexpectedToken(Token::LParen)
    );
}

#[test]
fn parse_stops_at_excess_closing_parens() {
    // ( 2 + 3 ) ) ) * 4 — parsing stops at the first excess closer and
    // reports the group's value; the tail is left unconsumed.
    let tokens = vec![
        Token::LParen,
        num(2.0),
        Token::Op(OpKind::Plus),
        num(3.0),
        Token::RParen,
        Token::RParen,
        Token::RParen,
        Token::Op(OpKind::Star),
        num(4.0),
    ];
    let mut pos = 0;
    let prog = parse(&tokens, &mut pos, 0).unwrap();
    assert_eq!(pos, 5);
    assert_eq!(
        prog,
        vec![
            Instr::Push(2.0f64.to_bits()),
            Instr::Push(3.0f64.to_bits()),
            Instr::Bin(OpKind::Plus),
        ]
    );
}

#[test]
fn parse_unary_minus_emits_negation() {
    // - 2 ^ 2 becomes 2 2 ^ neg : the minus binds looser than the caret.
    let tokens = vec![
        Token::Op(OpKind::Minus),
        num(2.0),
        Token::Op(OpKind::Caret),
        num(2.0),
    ];
    let mut pos = 0;
    let prog = parse(&tokens, &mut pos, 0).unwrap();
    assert_eq!(
        prog,
        vec![
            Instr::Push(2.0f64.to_bits()),
            Instr::Push(2.0f64.to_bits()),
            Instr::Bin(OpKind::Caret),
            Instr::Neg,
        ]
    );
}

#[test]
fn parse_factorial_is_postfix() {
    let tokens = vec![num(5.0), Token::Op(OpKind::Factorial)];
    let mut pos = 0;
    let prog = parse(&tokens, &mut pos, 0).unwrap();
    assert_eq!(prog, vec![Instr::Push(5.0f64.to_bits()), Instr::Fact]);
}

#[test]
fn binding_powers_are_ordered() {
    assert_eq!(OpKind::Plus.bp(), OpKind::Minus.bp());
    assert_eq!(OpKind::Star.bp(), OpKind::Slash.bp());
    assert!(OpKind::Star.bp() > OpKind::Plus.bp());
    assert!(OpKind::Modulo.bp() > OpKind::Star.bp());
    assert!(OpKind::Caret.bp() > OpKind::Modulo.bp());
    assert!(OpKind::Factorial.bp() > OpKind::Caret.bp());
    assert_eq!(FuncKind::Sin.bp(), FuncKind::Ln.bp());
    assert!(FuncKind::Sin.bp() > OpKind::Factorial.bp());
    // The trait gives the same numbers as the inherent methods.
    assert_eq!(Bindable::bp(OpKind::Caret), 25);
    assert_eq!(Bindable::bp(FuncKind::Sqrt), 35);
}
