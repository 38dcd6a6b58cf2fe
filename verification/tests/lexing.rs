use cocoa::lexer::{eat_whitespace, lex, lex_op, LexError};
use cocoa::numeric::PI_BITS;
use cocoa::token::{numerals, with_values, FuncKind, Lexeme, OpKind, Token};

fn chars(s: &str) -> Vec<char> {
    s.chars().collect()
}

#[test]
fn lex_two_plus_two() {
    let ls = lex(&chars("2 + 2")).unwrap();
    assert_eq!(
        ls,
        vec![
            Lexeme::Numeral(vec!['2']),
            Lexeme::Op(OpKind::Plus),
            Lexeme::Numeral(vec!['2']),
        ]
    );
    let vals = vec![2.0f64.to_bits(), 2.0f64.to_bits()];
    let tokens = with_values(&ls, &vals).unwrap();
    assert_eq!(
        tokens,
        vec![
            Token::Number(2.0f64.to_bits()),
            Token::Op(OpKind::Plus),
            Token::Number(2.0f64.to_bits()),
        ]
    );
}

#[test]
fn lex_unrecognized_character_names_it() {
    let err = lex(&chars("2 & 3")).unwrap_err();
    assert_eq!(err, LexError::UnrecognizedChar('&'));
}

#[test]
fn lex_non_ascii_is_unrecognized() {
    let err = lex(&chars("2 + é")).unwrap_err();
    assert_eq!(err, LexError::UnrecognizedChar('é'));
}

#[test]
fn lex_empty_input() {
    assert_eq!(lex(&chars("")).unwrap(), vec![]);
    assert_eq!(lex(&chars("   \t  ")).unwrap(), vec![]);
}

#[test]
fn lex_leading_point_reads_as_zero_point() {
    let ls = lex(&chars(".5")).unwrap();
    assert_eq!(ls, vec![Lexeme::Numeral(vec!['0', '.', '5'])]);
    let ls = lex(&chars(".")).unwrap();
    assert_eq!(ls, vec![Lexeme::Numeral(vec!['0', '.'])]);
}

#[test]
fn lex_second_decimal_point_fails() {
    assert_eq!(
        lex(&chars("2.5.3")).unwrap_err(),
        LexError::MultipleDecimalPoints
    );
    assert_eq!(
        lex(&chars("..")).unwrap_err(),
        LexError::MultipleDecimalPoints
    );
}

#[test]
fn lex_pi_resolves_to_the_constant() {
    let ls = lex(&chars("pi")).unwrap();
    assert_eq!(ls, vec![Lexeme::Number(PI_BITS)]);
    assert_eq!(f64::from_bits(PI_BITS), std::f64::consts::PI);
}

#[test]
fn lex_unrecognized_identifier_names_it() {
    let err = lex(&chars("2 + foo")).unwrap_err();
    assert_eq!(err, LexError::UnrecognizedIdent(vec!['f', 'o', 'o']));
}

#[test]
fn lex_identifiers_are_maximal_runs() {
    // `sinx` is one identifier, not `sin` then `x`.
    let err = lex(&chars("sinx")).unwrap_err();
    assert_eq!(err, LexError::UnrecognizedIdent(vec!['s', 'i', 'n', 'x']));
}

#[test]
fn lex_keyword_table() {
    let cases = [
        ("sin", FuncKind::Sin),
        ("cos", FuncKind::Cos),
        ("tan", FuncKind::Tan),
        ("asin", FuncKind::Asin),
        ("acos", FuncKind::Acos),
        ("atan", FuncKind::Atan),
        ("deg", FuncKind::Deg),
        ("rad", FuncKind::Rad),
        ("exp", FuncKind::Exp),
        ("ln", FuncKind::Ln),
        ("log", FuncKind::Log),
        ("sqrt", FuncKind::Sqrt),
    ];
    for (word, func) in cases {
        let ls = lex(&chars(word)).unwrap();
        assert_eq!(ls, vec![Lexeme::Func(func)]);
    }
    // Case-sensitive: `Sin` is not a keyword.
    assert!(matches!(
        lex(&chars("Sin")),
        Err(LexError::UnrecognizedIdent(_))
    ));
}

#[test]
fn lex_operator_table() {
    let ls = lex(&chars("+-*/^%!()")).unwrap();
    assert_eq!(
        ls,
        vec![
            Lexeme::Op(OpKind::Plus),
            Lexeme::Op(OpKind::Minus),
            Lexeme::Op(OpKind::Star),
            Lexeme::Op(OpKind::Slash),
            Lexeme::Op(OpKind::Caret),
            Lexeme::Op(OpKind::Modulo),
            Lexeme::Op(OpKind::Factorial),
            Lexeme::LParen,
            Lexeme::RParen,
        ]
    );
}

#[test]
fn lex_op_rejects_unknown() {
    assert!(matches!(lex_op('+'), Ok(Lexeme::Op(OpKind::Plus))));
    assert_eq!(lex_op('#').unwrap_err(), LexError::UnrecognizedChar('#'));
}

#[test]
fn eat_whitespace_stops_at_content() {
    let v = chars("  \t 7 ");
    let mut i = 0;
    eat_whitespace(&v, &mut i);
    assert_eq!(i, 4);
    assert_eq!(v[i], '7');
    let mut j = v.len();
    eat_whitespace(&v, &mut j);
    assert_eq!(j, v.len());
}

#[test]
fn implicit_mul_inserts_after_numerals_only() {
    let ls = cocoa::lexer::insert_implicit_mul(&lex(&chars("2(3)")).unwrap());
    assert_eq!(
        ls,
        vec![
            Lexeme::Numeral(vec!['2']),
            Lexeme::Op(OpKind::Star),
            Lexeme::LParen,
            Lexeme::Numeral(vec!['3']),
            Lexeme::RParen,
        ]
    );
    let ls = cocoa::lexer::insert_implicit_mul(&lex(&chars("2 sin(0)")).unwrap());
    assert_eq!(ls[0], Lexeme::Numeral(vec!['2']));
    assert_eq!(ls[1], Lexeme::Op(OpKind::Star));
    // No insertion after `pi` or before an operator.
    let ls = cocoa::lexer::insert_implicit_mul(&lex(&chars("pi + 2")).unwrap());
    assert_eq!(
        ls,
        vec![
            Lexeme::Number(cocoa::numeric::PI_BITS),
            Lexeme::Op(OpKind::Plus),
            Lexeme::Numeral(vec!['2']),
        ]
    );
}

#[test]
fn numerals_collects_texts_in_order() {
    let ls = lex(&chars("1.5 + pi * 20")).unwrap();
    let texts = numerals(&ls);
    assert_eq!(texts, vec![vec!['1', '.', '5'], vec!['2', '0']]);
}

#[test]
fn with_values_rejects_wrong_count() {
    let ls = lex(&chars("1 + 2")).unwrap();
    assert!(with_values(&ls, &vec![1u64]).is_none());
    assert!(with_values(&ls, &vec![1u64, 2, 3]).is_none());
    assert!(with_values(&ls, &vec![1u64, 2]).is_some());
}
